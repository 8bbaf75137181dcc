//! The interface registry: the set of interfaces a device advertises.
//!
//! The registry keeps its interfaces sorted by name, so the canonical
//! introspection string — the `;`-joined `name:major:minor` tokens in
//! lexicographic name order — is read off directly.  An interface can be
//! added once, replaced by a compatible extension or a new major version,
//! and removed.

use vstd::prelude::*;

use crate::interface::Interface;
use crate::interface::InterfaceView;
use crate::text::dec_rep;
use crate::text::fmt_u32;
use crate::text::lemma_lex_lt_asym;
use crate::text::lemma_lex_lt_total;
use crate::text::lemma_lex_lt_trans;
use crate::text::lex_lt;
use crate::text::str_eq;
use crate::text::str_lt;

verus! {

/// What adding an interface did.
#[derive(Debug, Clone, Copy, PartialEq, Eq, Structural)]
pub enum AddResult {
    /// The interface was not registered before.
    Added,
    /// The interface replaced a previous version.
    Replaced,
    /// The same version was already registered; nothing changed.
    Unchanged,
}

/// Error when replacing a registered interface.
#[derive(Debug, Clone, Copy, PartialEq, Eq, Structural)]
pub enum RegistryError {
    /// The candidate keeps the major version but lowers the minor.
    MinorDowngrade,
    /// The candidate keeps the major version but changes or drops a
    /// previous mapping instead of only adding new ones.
    IncompatibleExtension,
}

/// What [`Interfaces::add`] decides for a candidate: a new name is added;
/// a registered one is replaced on a major change or a compatible
/// extension, kept on the same version, and refused otherwise.
pub open spec fn spec_add_result(s: Seq<InterfaceView>, iv: InterfaceView) -> Result<
    AddResult,
    RegistryError,
> {
    match find_interface(s, iv.name) {
        Option::None => Ok(AddResult::Added),
        Option::Some(o) => if o.version_major != iv.version_major {
            Ok(AddResult::Replaced)
        } else if iv.version_minor < o.version_minor {
            Err(RegistryError::MinorDowngrade)
        } else if iv.version_minor == o.version_minor {
            Ok(AddResult::Unchanged)
        } else if crate::interface::interface_extends(iv, o) {
            Ok(AddResult::Replaced)
        } else {
            Err(RegistryError::IncompatibleExtension)
        },
    }
}

/// The registry without the interfaces of the given name.
pub open spec fn remove_name(s: Seq<InterfaceView>, name: Seq<char>) -> Seq<InterfaceView>
    decreases s.len(),
{
    if s.len() == 0 {
        Seq::empty()
    } else if s[0].name == name {
        remove_name(s.drop_first(), name)
    } else {
        seq![s[0]] + remove_name(s.drop_first(), name)
    }
}

/// The registry with the interface inserted at its sorted position.
pub open spec fn insert_sorted(s: Seq<InterfaceView>, iv: InterfaceView) -> Seq<InterfaceView>
    decreases s.len(),
{
    if s.len() == 0 {
        seq![iv]
    } else if lex_lt(s[0].name, iv.name) {
        seq![s[0]] + insert_sorted(s.drop_first(), iv)
    } else {
        seq![iv] + s
    }
}

/// The registry with the interfaces of the candidate's name replaced by
/// the candidate.
pub open spec fn replace_name(s: Seq<InterfaceView>, iv: InterfaceView) -> Seq<InterfaceView>
    decreases s.len(),
{
    if s.len() == 0 {
        Seq::empty()
    } else if s[0].name == iv.name {
        seq![iv] + replace_name(s.drop_first(), iv)
    } else {
        seq![s[0]] + replace_name(s.drop_first(), iv)
    }
}

/// The registry that [`Interfaces::add`] leaves behind: the candidate
/// inserted when its name was new, substituted when it replaces, and the
/// registry untouched otherwise.
pub open spec fn spec_registry_add(s: Seq<InterfaceView>, iv: InterfaceView) -> Seq<
    InterfaceView,
> {
    match spec_add_result(s, iv) {
        Ok(AddResult::Added) => insert_sorted(s, iv),
        Ok(AddResult::Replaced) => replace_name(s, iv),
        _ => s,
    }
}

/// The first interface with the given name, scanning from the front.
pub open spec fn find_interface(s: Seq<InterfaceView>, name: Seq<char>) -> Option<InterfaceView>
    decreases s.len(),
{
    if s.len() == 0 {
        None
    } else if s[0].name == name {
        Some(s[0])
    } else {
        find_interface(s.drop_first(), name)
    }
}

/// The registry invariant: interfaces strictly sorted by name, each one
/// well-formed.
pub open spec fn registry_wf(s: Seq<InterfaceView>) -> bool {
    &&& forall|i: int, j: int|
        0 <= i < j < s.len() ==> lex_lt((#[trigger] s[i]).name, (#[trigger] s[j]).name)
    &&& forall|i: int| 0 <= i < s.len() ==> (#[trigger] s[i]).wf()
}

/// In a registry with distinct names, the interface at any index is the
/// one `find_interface` returns for its name.
proof fn lemma_find_interface_at(s: Seq<InterfaceView>, i: int)
    requires
        forall|x: int, y: int|
            0 <= x < y < s.len() ==> (#[trigger] s[x]).name != (#[trigger] s[y]).name,
        0 <= i < s.len(),
    ensures
        find_interface(s, s[i].name) == Some(s[i]),
    decreases s.len(),
{
    if i > 0 {
        assert(s[0].name != s[i].name);
        assert(forall|x: int, y: int|
            0 <= x < y < s.drop_first().len() ==> (#[trigger] s.drop_first()[x]).name != (
            #[trigger] s.drop_first()[y]).name) by {
            assert(forall|x: int|
                0 <= x < s.drop_first().len() ==> #[trigger] s.drop_first()[x] == s[x + 1]);
        }
        assert(s.drop_first()[i - 1] == s[i]);
        lemma_find_interface_at(s.drop_first(), i - 1);
    }
}

/// If no interface in `s` has the name, `find_interface` returns `None`.
proof fn lemma_find_interface_absent(s: Seq<InterfaceView>, name: Seq<char>)
    requires
        forall|i: int| 0 <= i < s.len() ==> (#[trigger] s[i]).name != name,
    ensures
        find_interface(s, name) is None,
    decreases s.len(),
{
    if s.len() > 0 {
        assert(forall|i: int|
            0 <= i < s.drop_first().len() ==> #[trigger] s.drop_first()[i] == s[i + 1]);
        lemma_find_interface_absent(s.drop_first(), name);
    }
}

/// An interface found in a well-formed registry is well-formed and has
/// the name it was found under.
pub proof fn lemma_find_interface_wf(s: Seq<InterfaceView>, name: Seq<char>)
    requires
        registry_wf(s),
        find_interface(s, name) is Some,
    ensures
        (find_interface(s, name)->Some_0).wf(),
        (find_interface(s, name)->Some_0).name == name,
    decreases s.len(),
{
    if s.len() > 0 {
        if s[0].name == name {
        } else {
            assert(registry_wf(s.drop_first())) by {
                assert(forall|x: int|
                    0 <= x < s.drop_first().len() ==> #[trigger] s.drop_first()[x] == s[x + 1]);
            }
            lemma_find_interface_wf(s.drop_first(), name);
        }
    }
}

/// Removing a name that no interface has leaves the registry unchanged.
pub proof fn lemma_remove_name_absent(s: Seq<InterfaceView>, name: Seq<char>)
    requires
        forall|i: int| 0 <= i < s.len() ==> (#[trigger] s[i]).name != name,
    ensures
        remove_name(s, name) == s,
    decreases s.len(),
{
    if s.len() > 0 {
        assert(forall|i: int|
            0 <= i < s.drop_first().len() ==> #[trigger] s.drop_first()[i] == s[i + 1]);
        lemma_remove_name_absent(s.drop_first(), name);
        assert(seq![s[0]] + s.drop_first() =~= s);
    }
}

/// With distinct names, removing the row at the index of a name is the
/// same as filtering that name out.
proof fn lemma_remove_at_index(s: Seq<InterfaceView>, i: int)
    requires
        forall|x: int, y: int|
            0 <= x < y < s.len() ==> (#[trigger] s[x]).name != (#[trigger] s[y]).name,
        0 <= i < s.len(),
    ensures
        s.remove(i) == remove_name(s, s[i].name),
    decreases s.len(),
{
    let name = s[i].name;
    if i == 0 {
        assert(forall|x: int|
            0 <= x < s.drop_first().len() ==> (#[trigger] s.drop_first()[x]).name != name) by {
            assert(forall|x: int|
                0 <= x < s.drop_first().len() ==> #[trigger] s.drop_first()[x] == s[x + 1]);
        }
        lemma_remove_name_absent(s.drop_first(), name);
        assert(s.remove(0) =~= s.drop_first());
    } else {
        assert(s[0].name != name);
        assert(forall|x: int|
            0 <= x < s.drop_first().len() ==> #[trigger] s.drop_first()[x] == s[x + 1]);
        assert(s.drop_first()[i - 1] == s[i]);
        lemma_remove_at_index(s.drop_first(), i - 1);
        assert(s.remove(i) =~= seq![s[0]] + s.drop_first().remove(i - 1));
    }
}

/// Inserting at the boundary position of a name is the same as the
/// sorted insertion.
proof fn lemma_insert_at_boundary(s: Seq<InterfaceView>, p: int, iv: InterfaceView)
    requires
        0 <= p <= s.len(),
        forall|l: int| 0 <= l < p ==> lex_lt((#[trigger] s[l]).name, iv.name),
        p < s.len() ==> !lex_lt(s[p].name, iv.name),
    ensures
        s.insert(p, iv) == insert_sorted(s, iv),
    decreases p,
{
    if p == 0 {
        if s.len() == 0 {
            assert(s.insert(0, iv) =~= seq![iv]);
        } else {
            assert(s.insert(0, iv) =~= seq![iv] + s);
        }
    } else {
        assert(lex_lt(s[0].name, iv.name));
        assert(forall|x: int|
            0 <= x < s.drop_first().len() ==> #[trigger] s.drop_first()[x] == s[x + 1]);
        lemma_insert_at_boundary(s.drop_first(), p - 1, iv);
        assert(s.insert(p, iv) =~= seq![s[0]] + s.drop_first().insert(p - 1, iv));
    }
}

/// Replacing a name that no interface has leaves the registry unchanged.
proof fn lemma_replace_name_absent(s: Seq<InterfaceView>, iv: InterfaceView)
    requires
        forall|i: int| 0 <= i < s.len() ==> (#[trigger] s[i]).name != iv.name,
    ensures
        replace_name(s, iv) == s,
    decreases s.len(),
{
    if s.len() > 0 {
        assert(forall|i: int|
            0 <= i < s.drop_first().len() ==> #[trigger] s.drop_first()[i] == s[i + 1]);
        lemma_replace_name_absent(s.drop_first(), iv);
        assert(seq![s[0]] + s.drop_first() =~= s);
    }
}

/// With distinct names, updating the row at the index of the candidate's
/// name is the same as substituting the candidate for that name.
proof fn lemma_update_at_name(s: Seq<InterfaceView>, i: int, iv: InterfaceView)
    requires
        forall|x: int, y: int|
            0 <= x < y < s.len() ==> (#[trigger] s[x]).name != (#[trigger] s[y]).name,
        0 <= i < s.len(),
        s[i].name == iv.name,
    ensures
        s.update(i, iv) == replace_name(s, iv),
    decreases s.len(),
{
    if i == 0 {
        assert(forall|x: int|
            0 <= x < s.drop_first().len() ==> (#[trigger] s.drop_first()[x]).name != iv.name) by {
            assert(forall|x: int|
                0 <= x < s.drop_first().len() ==> #[trigger] s.drop_first()[x] == s[x + 1]);
        }
        lemma_replace_name_absent(s.drop_first(), iv);
        assert(s.update(0, iv) =~= seq![iv] + s.drop_first());
    } else {
        assert(s[0].name != iv.name);
        assert(forall|x: int|
            0 <= x < s.drop_first().len() ==> #[trigger] s.drop_first()[x] == s[x + 1]);
        assert(s.drop_first()[i - 1] == s[i]);
        lemma_update_at_name(s.drop_first(), i - 1, iv);
        assert(s.update(i, iv) =~= seq![s[0]] + s.drop_first().update(i - 1, iv));
    }
}

/// A name that is not registered filters nothing out.
pub proof fn lemma_find_none_remove_name(s: Seq<InterfaceView>, name: Seq<char>)
    requires
        registry_wf(s),
        find_interface(s, name) is None,
    ensures
        remove_name(s, name) == s,
{
    lemma_sorted_distinct(s);
    assert forall|i: int| 0 <= i < s.len() implies (#[trigger] s[i]).name != name by {
        if s[i].name == name {
            lemma_find_interface_at(s, i);
        }
    }
    lemma_remove_name_absent(s, name);
}

/// Sorted interfaces have distinct names.
proof fn lemma_sorted_distinct(s: Seq<InterfaceView>)
    requires
        forall|i: int, j: int|
            0 <= i < j < s.len() ==> lex_lt((#[trigger] s[i]).name, (#[trigger] s[j]).name),
    ensures
        forall|i: int, j: int|
            0 <= i < j < s.len() ==> (#[trigger] s[i]).name != (#[trigger] s[j]).name,
{
    assert forall|i: int, j: int| 0 <= i < j < s.len() implies (#[trigger] s[i]).name != (
    #[trigger] s[j]).name by {
        if s[i].name == s[j].name {
            lemma_lex_lt_asym(s[i].name, s[j].name);
        }
    }
}

/// The introspection token of one interface: `name:major:minor`.
pub open spec fn intro_token(v: InterfaceView) -> Seq<char> {
    v.name + seq![':'] + dec_rep(v.version_major) + seq![':'] + dec_rep(v.version_minor)
}

/// The introspection string of a sequence of interfaces: their tokens
/// joined by `;`.
pub open spec fn intro_chars(s: Seq<InterfaceView>) -> Seq<char>
    decreases s.len(),
{
    if s.len() == 0 {
        Seq::empty()
    } else if s.len() == 1 {
        intro_token(s[0])
    } else {
        intro_token(s[0]) + seq![';'] + intro_chars(s.drop_first())
    }
}

/// A well-formed registry is determined by which interfaces it holds:
/// strict sorting leaves only one order.
proof fn lemma_sorted_registry_unique(a: Seq<InterfaceView>, b: Seq<InterfaceView>)
    requires
        registry_wf(a),
        registry_wf(b),
        forall|v: InterfaceView| a.contains(v) == b.contains(v),
    ensures
        a == b,
    decreases a.len(),
{
    if a.len() == 0 {
        if b.len() > 0 {
            assert(b.contains(b[0]));
            assert(a.contains(b[0]));
            assert(false);
        }
        assert(a =~= b);
    } else {
        assert(a.contains(a[0]));
        assert(b.contains(a[0]));
        let j = choose|j: int| 0 <= j < b.len() && b[j] == a[0];
        assert(b.contains(b[0]));
        assert(a.contains(b[0]));
        let l = choose|l: int| 0 <= l < a.len() && a[l] == b[0];
        if j > 0 && l > 0 {
            assert(lex_lt(b[0].name, b[j].name));
            assert(lex_lt(a[0].name, a[l].name));
            lemma_lex_lt_asym(a[0].name, b[0].name);
            assert(false);
        }
        assert(a[0] == b[0]);
        let ta = a.drop_first();
        let tb = b.drop_first();
        assert(registry_wf(ta)) by {
            assert(forall|x: int| 0 <= x < ta.len() ==> #[trigger] ta[x] == a[x + 1]);
        }
        assert(registry_wf(tb)) by {
            assert(forall|x: int| 0 <= x < tb.len() ==> #[trigger] tb[x] == b[x + 1]);
        }
        assert forall|v: InterfaceView| ta.contains(v) == tb.contains(v) by {
            lemma_tail_contains(a, b, v);
            lemma_tail_contains(b, a, v);
        }
        lemma_sorted_registry_unique(ta, tb);
        assert(a =~= seq![a[0]] + ta);
        assert(b =~= seq![b[0]] + tb);
    }
}

/// If an interface stands in the tail of one of two equal-content sorted
/// registries with equal heads, it stands in the tail of the other.
proof fn lemma_tail_contains(a: Seq<InterfaceView>, b: Seq<InterfaceView>, v: InterfaceView)
    requires
        registry_wf(a),
        registry_wf(b),
        a.len() > 0,
        b.len() > 0,
        a[0] == b[0],
        forall|w: InterfaceView| a.contains(w) == b.contains(w),
    ensures
        a.drop_first().contains(v) ==> b.drop_first().contains(v),
{
    if a.drop_first().contains(v) {
        let i = choose|i: int| 0 <= i < a.drop_first().len() && a.drop_first()[i] == v;
        assert(a[i + 1] == v);
        assert(a.contains(v));
        assert(b.contains(v));
        let j = choose|j: int| 0 <= j < b.len() && b[j] == v;
        if j == 0 {
            // Then v is the shared head, which cannot also stand later in
            // the strictly sorted a.
            assert(lex_lt(a[0].name, a[i + 1].name));
            lemma_lex_lt_asym(a[0].name, v.name);
            assert(false);
        }
        assert(b.drop_first()[j - 1] == v);
        assert(b.drop_first().contains(v));
    }
}

/// The introspection string is canonical: two well-formed registries that
/// hold the same interfaces render the same string, whatever order they
/// were built in.
pub proof fn lemma_introspection_canonical(a: Seq<InterfaceView>, b: Seq<InterfaceView>)
    requires
        registry_wf(a),
        registry_wf(b),
        forall|v: InterfaceView| a.contains(v) == b.contains(v),
    ensures
        intro_chars(a) == intro_chars(b),
{
    lemma_sorted_registry_unique(a, b);
}

/// The interface registry.
#[derive(Debug)]
pub struct Interfaces {
    interfaces: Vec<Interface>,
}

impl View for Interfaces {
    type V = Seq<InterfaceView>;

    closed spec fn view(&self) -> Seq<InterfaceView> {
        self.interfaces.deep_view()
    }
}

impl Interfaces {
    /// The registry invariant: interfaces strictly sorted by name, each
    /// one well-formed.
    pub open spec fn wf(&self) -> bool {
        registry_wf(self@)
    }

    /// The registered interface with the given name, if any.
    pub open spec fn spec_get(&self, name: Seq<char>) -> Option<InterfaceView> {
        find_interface(self@, name)
    }

    /// An empty registry.
    pub fn new() -> (r: Interfaces)
        ensures
            r@ == Seq::<InterfaceView>::empty(),
            r.wf(),
    {
        let r = Interfaces { interfaces: Vec::new() };
        assert(r@ =~= Seq::<InterfaceView>::empty());
        r
    }

    /// The number of registered interfaces.
    pub fn len(&self) -> (r: usize)
        ensures
            r == self@.len(),
    {
        self.interfaces.len()
    }

    /// The interface at the given position, in name order.
    pub fn at(&self, k: usize) -> (r: &Interface)
        requires
            k < self@.len(),
        ensures
            r@ == self@[k as int],
    {
        &self.interfaces[k]
    }

    /// The index of the registered interface with the given name.
    #[verifier::loop_isolation(false)]
    fn find_index(&self, name: &str) -> (r: Option<usize>)
        requires
            self.wf(),
        ensures
            match r {
                Option::Some(i) => i < self@.len() && self@[i as int].name == name@
                    && self.spec_get(name@) == Some(self@[i as int]),
                Option::None => self.spec_get(name@) is None,
            },
    {
        proof {
            lemma_sorted_distinct(self@);
        }
        let mut k: usize = 0;
        while k < self.interfaces.len()
            invariant
                k <= self@.len(),
                forall|l: int| 0 <= l < k ==> (#[trigger] self@[l]).name != name@,
            decreases self@.len() - k,
        {
            if str_eq(self.interfaces[k].interface_name(), name) {
                proof {
                    lemma_find_interface_at(self@, k as int);
                }
                return Some(k);
            }
            k += 1;
        }
        proof {
            lemma_find_interface_absent(self@, name@);
        }
        None
    }

    /// A reference to the registered interface with the given name.
    pub fn get_interface(&self, name: &str) -> (r: Option<&Interface>)
        requires
            self.wf(),
        ensures
            match r {
                Option::Some(i) => self.spec_get(name@) == Some(i@),
                Option::None => self.spec_get(name@) is None,
            },
    {
        match self.find_index(name) {
            Some(i) => Some(&self.interfaces[i]),
            None => None,
        }
    }

    /// Removes the interface with the given name; returns whether one was
    /// registered.  Every other name stays registered unchanged.
    pub fn remove(&mut self, name: &str) -> (r: bool)
        requires
            old(self).wf(),
        ensures
            final(self).wf(),
            r == (old(self).spec_get(name@) is Some),
            final(self).spec_get(name@) is None,
            final(self)@ == remove_name(old(self)@, name@),
            forall|n2: Seq<char>|
                n2 != name@ ==> #[trigger] find_interface(final(self)@, n2) == find_interface(
                    old(self)@,
                    n2,
                ),
    {
        let ghost olds = self@;
        proof {
            lemma_sorted_distinct(olds);
        }
        match self.find_index(name) {
            Some(i) => {
                self.interfaces.remove(i);
                proof {
                    assert(self@ =~= olds.remove(i as int));
                    lemma_registry_remove(olds, i as int);
                    lemma_remove_at_index(olds, i as int);
                }
                true
            },
            None => {
                proof {
                    assert forall|i: int| 0 <= i < olds.len() implies (#[trigger] olds[i]).name
                        != name@ by {
                        if olds[i].name == name@ {
                            lemma_find_interface_at(olds, i);
                        }
                    }
                    lemma_remove_name_absent(olds, name@);
                }
                false
            },
        }
    }

    /// Registers an interface.  A new name is added.  A registered name
    /// is replaced when the candidate changes the major version or is a
    /// minor-compatible extension; the same version is left unchanged; a
    /// minor downgrade or an incompatible extension is rejected.
    #[verifier::loop_isolation(false)]
    #[verifier::rlimit(30)]
    pub fn add(&mut self, interface: Interface) -> (r: Result<AddResult, RegistryError>)
        requires
            old(self).wf(),
            interface@.wf(),
        ensures
            final(self).wf(),
            r == spec_add_result(old(self)@, interface@),
            final(self)@ == spec_registry_add(old(self)@, interface@),
            (r is Ok && r != Ok::<AddResult, RegistryError>(AddResult::Unchanged)) ==> final(self).spec_get(interface@.name) == Some(interface@),
            r is Err || r == Ok::<AddResult, RegistryError>(AddResult::Unchanged) ==> final(self)@
                == old(self)@,
            match r {
                Ok(AddResult::Added) => {
                    &&& old(self).spec_get(interface@.name) is None
                    &&& final(self).spec_get(interface@.name) == Some(interface@)
                },
                Ok(AddResult::Replaced) => {
                    &&& match old(self).spec_get(interface@.name) {
                        Option::Some(o) => o.version_major != interface@.version_major
                            || crate::interface::interface_extends(interface@, o),
                        Option::None => false,
                    }
                    &&& final(self).spec_get(interface@.name) == Some(interface@)
                },
                Ok(AddResult::Unchanged) => {
                    &&& match old(self).spec_get(interface@.name) {
                        Option::Some(o) => o.version_major == interface@.version_major
                            && o.version_minor == interface@.version_minor,
                        Option::None => false,
                    }
                    &&& final(self)@ == old(self)@
                },
                Err(RegistryError::MinorDowngrade) => {
                    &&& match old(self).spec_get(interface@.name) {
                        Option::Some(o) => o.version_major == interface@.version_major
                            && interface@.version_minor < o.version_minor,
                        Option::None => false,
                    }
                    &&& final(self)@ == old(self)@
                },
                Err(RegistryError::IncompatibleExtension) => {
                    &&& match old(self).spec_get(interface@.name) {
                        Option::Some(o) => o.version_major == interface@.version_major
                            && interface@.version_minor > o.version_minor
                            && !crate::interface::interface_extends(interface@, o),
                        Option::None => false,
                    }
                    &&& final(self)@ == old(self)@
                },
            },
            forall|n2: Seq<char>|
                n2 != interface@.name ==> #[trigger] find_interface(final(self)@, n2)
                    == find_interface(old(self)@, n2),
    {
        let ghost olds = self@;
        let ghost iv = interface@;
        proof {
            lemma_sorted_distinct(olds);
        }
        let name = interface.interface_name().to_owned();
        let n = self.interfaces.len();
        let mut p: usize = 0;
        #[verifier::loop_isolation(true)]
        while p < n
            invariant
                n == self@.len(),
                p <= n,
                forall|l: int| 0 <= l < p ==> lex_lt((#[trigger] self@[l]).name, name@),
            ensures
                n == self@.len(),
                p <= n,
                forall|l: int| 0 <= l < p ==> lex_lt((#[trigger] self@[l]).name, name@),
                p < n ==> !lex_lt(self@[p as int].name, name@),
            decreases n - p,
        {
            if !str_lt(self.interfaces[p].interface_name(), name.as_str()) {
                break ;
            }
            assert(lex_lt(self@[p as int].name, name@));
            p += 1;
        }
        if p < n && str_eq(self.interfaces[p].interface_name(), name.as_str()) {
            proof {
                lemma_find_interface_at(olds, p as int);
            }
            let previous = &self.interfaces[p];
            if interface.version_major() != previous.version_major() {
                self.interfaces.set(p, interface);
                proof {
                    assert(self@ =~= olds.update(p as int, iv));
                    lemma_registry_update(olds, p as int, iv);
                    lemma_update_at_name(olds, p as int, iv);
                }
                return Ok(AddResult::Replaced);
            }
            if interface.version_minor() < previous.version_minor() {
                return Err(RegistryError::MinorDowngrade);
            }
            if interface.version_minor() == previous.version_minor() {
                return Ok(AddResult::Unchanged);
            }
            if interface.is_extension_of(previous) {
                self.interfaces.set(p, interface);
                proof {
                    assert(self@ =~= olds.update(p as int, iv));
                    lemma_registry_update(olds, p as int, iv);
                    lemma_update_at_name(olds, p as int, iv);
                }
                return Ok(AddResult::Replaced);
            }
            return Err(RegistryError::IncompatibleExtension);
        }
        proof {
            if p < n && !lex_lt(name@, olds[p as int].name) {
                lemma_lex_lt_total(olds[p as int].name, name@);
            }
            assert(forall|l: int| p <= l < n ==> lex_lt(name@, (#[trigger] olds[l]).name)) by {
                assert forall|l: int| p <= l < n implies lex_lt(name@, (#[trigger] olds[l]).name)
                    by {
                    if l > p {
                        lemma_lex_lt_trans(name@, olds[p as int].name, olds[l].name);
                    }
                }
            }
            assert(forall|l: int| 0 <= l < n ==> (#[trigger] olds[l]).name != name@) by {
                assert forall|l: int| 0 <= l < n implies (#[trigger] olds[l]).name != name@ by {
                    if olds[l].name == name@ {
                        if l < p {
                            lemma_lex_lt_asym(olds[l].name, name@);
                        } else {
                            lemma_lex_lt_asym(name@, olds[l].name);
                        }
                    }
                }
            }
            lemma_find_interface_absent(olds, name@);
        }
        self.interfaces.insert(p, interface);
        proof {
            assert(self@ =~= olds.insert(p as int, iv));
            assert forall|x: int, y: int| 0 <= x < y < self@.len() implies lex_lt(
                (#[trigger] self@[x]).name,
                (#[trigger] self@[y]).name,
            ) by {
                let t = self@;
                if y < p {
                    assert(t[x] == olds[x] && t[y] == olds[y]);
                } else if x > p {
                    assert(t[x] == olds[x - 1] && t[y] == olds[y - 1]);
                } else if x < p && y == p {
                    assert(t[x] == olds[x] && t[y] == iv);
                } else if x == p {
                    assert(t[x] == iv && t[y] == olds[y - 1]);
                } else {
                    assert(x < p && y > p);
                    assert(t[x] == olds[x] && t[y] == olds[y - 1]);
                    lemma_lex_lt_trans(olds[x].name, iv.name, olds[y - 1].name);
                }
            }
            assert forall|x: int| 0 <= x < self@.len() implies (#[trigger] self@[x]).wf() by {
                if x < p {
                    assert(self@[x] == olds[x]);
                } else if x == p {
                } else {
                    assert(self@[x] == olds[x - 1]);
                }
            }
            lemma_registry_insert(olds, p as int, iv);
            lemma_insert_at_boundary(olds, p as int, iv);
        }
        Ok(AddResult::Added)
    }

    /// The canonical introspection string: the `name:major:minor` tokens
    /// of the registered interfaces in lexicographic name order, joined
    /// by `;`.
    #[verifier::loop_isolation(false)]
    pub fn introspection(&self) -> (r: String)
        requires
            self.wf(),
        ensures
            r@ == intro_chars(self@),
    {
        let r = intro_from(&self.interfaces, 0);
        assert(self@.skip(0) =~= self@);
        r
    }
}

/// Replacing an interface with one of the same name keeps the registry
/// well-formed, registers the new one under that name and leaves every
/// other name unchanged.
proof fn lemma_registry_update(s: Seq<InterfaceView>, i: int, v: InterfaceView)
    requires
        registry_wf(s),
        0 <= i < s.len(),
        v.name == s[i].name,
        v.wf(),
    ensures
        registry_wf(s.update(i, v)),
        find_interface(s.update(i, v), v.name) == Some(v),
        forall|n2: Seq<char>|
            n2 != v.name ==> #[trigger] find_interface(s.update(i, v), n2) == find_interface(
                s,
                n2,
            ),
{
    let t = s.update(i, v);
    assert forall|x: int, y: int| 0 <= x < y < t.len() implies lex_lt(
        (#[trigger] t[x]).name,
        (#[trigger] t[y]).name,
    ) by {
        assert(t[x].name == s[x].name && t[y].name == s[y].name);
    }
    lemma_sorted_distinct(t);
    lemma_find_interface_at(t, i);
    assert forall|n2: Seq<char>| n2 != v.name implies #[trigger] find_interface(t, n2)
        == find_interface(s, n2) by {
        lemma_update_other_name(s, i, v, n2);
    }
}

/// Replacing an interface does not change the lookup of a different name.
proof fn lemma_update_other_name(s: Seq<InterfaceView>, i: int, v: InterfaceView, name: Seq<char>)
    requires
        0 <= i < s.len(),
        v.name == s[i].name,
        s[i].name != name,
    ensures
        find_interface(s.update(i, v), name) == find_interface(s, name),
    decreases s.len(),
{
    let t = s.update(i, v);
    if i == 0 {
        assert(t[0] == v);
        assert(t.drop_first() =~= s.drop_first());
    } else {
        assert(t[0] == s[0]);
        if s[0].name == name {
        } else {
            assert(t.drop_first() =~= s.drop_first().update(i - 1, v));
            assert(s.drop_first()[i - 1] == s[i]);
            lemma_update_other_name(s.drop_first(), i - 1, v, name);
        }
    }
}

/// Inserting an interface under a new name registers it and leaves every
/// other name unchanged.
proof fn lemma_registry_insert(s: Seq<InterfaceView>, p: int, v: InterfaceView)
    requires
        0 <= p <= s.len(),
        forall|i: int| 0 <= i < s.len() ==> (#[trigger] s[i]).name != v.name,
    ensures
        find_interface(s.insert(p, v), v.name) == Some(v),
        forall|n2: Seq<char>|
            n2 != v.name ==> #[trigger] find_interface(s.insert(p, v), n2) == find_interface(
                s,
                n2,
            ),
    decreases p,
{
    let t = s.insert(p, v);
    if p == 0 {
        assert(t[0] == v);
        assert(t.drop_first() =~= s);
        assert forall|n2: Seq<char>| n2 != v.name implies #[trigger] find_interface(t, n2)
            == find_interface(s, n2) by {
            if s.len() > 0 {
            }
        }
    } else {
        assert(t[0] == s[0]);
        assert(s[0].name != v.name);
        assert(t.drop_first() =~= s.drop_first().insert(p - 1, v));
        assert(forall|i: int|
            0 <= i < s.drop_first().len() ==> #[trigger] s.drop_first()[i] == s[i + 1]);
        lemma_registry_insert(s.drop_first(), p - 1, v);
        assert forall|n2: Seq<char>| n2 != v.name implies #[trigger] find_interface(t, n2)
            == find_interface(s, n2) by {
            if s[0].name == n2 {
            } else {
                assert(find_interface(s.drop_first().insert(p - 1, v), n2) == find_interface(
                    s.drop_first(),
                    n2,
                ));
            }
        }
    }
}

/// Removing an interface keeps the registry well-formed, unregisters its
/// name and leaves every other name unchanged.
proof fn lemma_registry_remove(s: Seq<InterfaceView>, i: int)
    requires
        registry_wf(s),
        0 <= i < s.len(),
    ensures
        registry_wf(s.remove(i)),
        find_interface(s.remove(i), s[i].name) is None,
        forall|n2: Seq<char>|
            n2 != s[i].name ==> #[trigger] find_interface(s.remove(i), n2) == find_interface(
                s,
                n2,
            ),
{
    let t = s.remove(i);
    lemma_sorted_distinct(s);
    assert forall|x: int, y: int| 0 <= x < y < t.len() implies lex_lt(
        (#[trigger] t[x]).name,
        (#[trigger] t[y]).name,
    ) by {
        let sx: int = if x < i {
            x
        } else {
            x + 1
        };
        let sy: int = if y < i {
            y
        } else {
            y + 1
        };
        assert(t[x] == s[sx] && t[y] == s[sy]);
    }
    assert forall|x: int| 0 <= x < t.len() implies (#[trigger] t[x]).wf() && t[x].name != s[i].name
        by {
        let sx: int = if x < i {
            x
        } else {
            x + 1
        };
        assert(t[x] == s[sx]);
    }
    lemma_find_interface_absent(t, s[i].name);
    assert forall|n2: Seq<char>| n2 != s[i].name implies #[trigger] find_interface(t, n2)
        == find_interface(s, n2) by {
        lemma_remove_other_name(s, i, n2);
    }
}

/// Removing an interface does not change the lookup of a different name.
proof fn lemma_remove_other_name(s: Seq<InterfaceView>, i: int, name: Seq<char>)
    requires
        0 <= i < s.len(),
        s[i].name != name,
    ensures
        find_interface(s.remove(i), name) == find_interface(s, name),
    decreases s.len(),
{
    let t = s.remove(i);
    if i == 0 {
        assert(t =~= s.drop_first());
    } else {
        assert(t[0] == s[0]);
        if s[0].name == name {
        } else {
            assert(t.drop_first() =~= s.drop_first().remove(i - 1));
            assert(s.drop_first()[i - 1] == s[i]);
            lemma_remove_other_name(s.drop_first(), i - 1, name);
        }
    }
}

/// Renders the introspection tokens of the interfaces from index `k` on.
#[verifier::loop_isolation(false)]
fn intro_from(interfaces: &Vec<Interface>, k: usize) -> (r: String)
    requires
        k <= interfaces.len(),
        forall|l: int|
            0 <= l < interfaces.len() ==> (#[trigger] interfaces.deep_view()[l]).version_major >= 0
                && interfaces.deep_view()[l].version_minor >= 0,
    ensures
        r@ == intro_chars(interfaces.deep_view().skip(k as int)),
    decreases interfaces.len() - k,
{
    let ghost suffix = interfaces.deep_view().skip(k as int);
    if k == interfaces.len() {
        assert(suffix.len() == 0);
        return String::new();
    }
    let i = &interfaces[k];
    let mut s = i.interface_name().to_owned();
    s.append(":");
    let major = fmt_u32(to_u32(i.version_major()));
    s.append(major.as_str());
    s.append(":");
    let minor = fmt_u32(to_u32(i.version_minor()));
    s.append(minor.as_str());
    proof {
        reveal_strlit(":");
        assert(suffix[0] == interfaces.deep_view()[k as int]);
    }
    if k + 1 == interfaces.len() {
        assert(suffix.len() == 1);
        assert(s@ =~= intro_token(suffix[0]));
        assert(s@ =~= intro_chars(suffix));
        s
    } else {
        s.append(";");
        let rest = intro_from(interfaces, k + 1);
        s.append(rest.as_str());
        proof {
            reveal_strlit(";");
            assert(suffix.drop_first() =~= interfaces.deep_view().skip(k + 1));
            assert(s@ =~= intro_token(suffix[0]) + seq![';'] + intro_chars(suffix.drop_first()));
        }
        s
    }
}

/// A non-negative version number as an unsigned number.
fn to_u32(n: i32) -> (r: u32)
    ensures
        n >= 0 ==> r as int == n as int,
        n < 0 ==> r == 0u32,
{
    if n >= 0 {
        n as u32
    } else {
        0
    }
}

} // verus!
