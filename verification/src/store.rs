//! In-memory model of the property store.
//!
//! The store keeps at most one row per `(interface, path)` key.  A row
//! holds the last published value, or an unset marker, together with the
//! major version it was published under and the ownership of its
//! interface.  Loading a value checks the major version and drops stale
//! rows, as the persistence contract demands.

use vstd::prelude::*;

use crate::schema::Ownership;
use crate::types::AstarteData;
use crate::types::DataView;
use crate::text::str_eq;
use crate::types::clone_data;

verus! {

/// A property held by the store.
#[derive(Debug)]
pub struct StoredProp {
    /// Name of the interface of the property.
    pub interface: String,
    /// Path of the property.
    pub path: String,
    /// The stored value.
    pub value: AstarteData,
    /// Major version of the interface the value was published under.
    pub interface_major: i32,
    /// Ownership of the interface.
    pub ownership: Ownership,
}

/// Mathematical value of a [`StoredProp`].
pub struct StoredPropView {
    pub interface: Seq<char>,
    pub path: Seq<char>,
    pub value: DataView,
    pub interface_major: int,
    pub ownership: Ownership,
}

impl View for StoredProp {
    type V = StoredPropView;

    open spec fn view(&self) -> StoredPropView {
        StoredPropView {
            interface: self.interface@,
            path: self.path@,
            value: self.value@,
            interface_major: self.interface_major as int,
            ownership: self.ownership,
        }
    }
}

impl DeepView for StoredProp {
    type V = StoredPropView;

    open spec fn deep_view(&self) -> StoredPropView {
        self.view()
    }
}

/// Mathematical value of one row of the store; `value` is `None` for an
/// unset marker.
pub struct PropEntryView {
    pub interface: Seq<char>,
    pub path: Seq<char>,
    pub value: Option<DataView>,
    pub interface_major: int,
    pub ownership: Ownership,
}

/// One row of the store.
#[derive(Debug)]
pub(crate) struct PropEntry {
    pub(crate) interface: String,
    pub(crate) path: String,
    pub(crate) value: Option<AstarteData>,
    pub(crate) interface_major: i32,
    pub(crate) ownership: Ownership,
}

impl View for PropEntry {
    type V = PropEntryView;

    closed spec fn view(&self) -> PropEntryView {
        PropEntryView {
            interface: self.interface@,
            path: self.path@,
            value: match &self.value {
                Option::Some(v) => Some(v@),
                Option::None => None,
            },
            interface_major: self.interface_major as int,
            ownership: self.ownership,
        }
    }
}

impl DeepView for PropEntry {
    type V = PropEntryView;

    open spec fn deep_view(&self) -> PropEntryView {
        self.view()
    }
}

/// The first row with the given key, scanning from the front.
pub open spec fn find_entry(
    s: Seq<PropEntryView>,
    interface: Seq<char>,
    path: Seq<char>,
) -> Option<PropEntryView>
    decreases s.len(),
{
    if s.len() == 0 {
        None
    } else if s[0].interface == interface && s[0].path == path {
        Some(s[0])
    } else {
        find_entry(s.drop_first(), interface, path)
    }
}

/// The keys of the rows are pairwise distinct.
pub open spec fn store_wf(s: Seq<PropEntryView>) -> bool {
    forall|i: int, j: int|
        0 <= i < j < s.len() ==> !((#[trigger] s[i]).interface == (#[trigger] s[j]).interface
            && s[i].path == s[j].path)
}

/// In a well-formed store, the row at any index is the one `find_entry`
/// returns for its key.
proof fn lemma_find_entry_at(s: Seq<PropEntryView>, i: int)
    requires
        store_wf(s),
        0 <= i < s.len(),
    ensures
        find_entry(s, s[i].interface, s[i].path) == Some(s[i]),
    decreases s.len(),
{
    if i > 0 {
        assert(!(s[0].interface == s[i].interface && s[0].path == s[i].path));
        assert(store_wf(s.drop_first())) by {
            assert forall|x: int, y: int| 0 <= x < y < s.drop_first().len() implies !((
            #[trigger] s.drop_first()[x]).interface == (#[trigger] s.drop_first()[y]).interface
                && s.drop_first()[x].path == s.drop_first()[y].path) by {
                assert(s.drop_first()[x] == s[x + 1] && s.drop_first()[y] == s[y + 1]);
            }
        }
        assert(s.drop_first()[i - 1] == s[i]);
        lemma_find_entry_at(s.drop_first(), i - 1);
    }
}

/// If no row in `s` has the key, `find_entry` returns `None`.
proof fn lemma_find_entry_absent(s: Seq<PropEntryView>, interface: Seq<char>, path: Seq<char>)
    requires
        forall|i: int|
            0 <= i < s.len() ==> !((#[trigger] s[i]).interface == interface && s[i].path == path),
    ensures
        find_entry(s, interface, path) is None,
    decreases s.len(),
{
    if s.len() > 0 {
        assert(forall|i: int|
            0 <= i < s.drop_first().len() ==> !((#[trigger] s.drop_first()[i]).interface
                == interface && s.drop_first()[i].path == path)) by {
            assert(forall|i: int|
                0 <= i < s.drop_first().len() ==> #[trigger] s.drop_first()[i] == s[i + 1]);
        }
        lemma_find_entry_absent(s.drop_first(), interface, path);
    }
}

/// The in-memory property store: at most one row per key.
#[derive(Debug)]
pub struct MemoryStore {
    entries: Vec<PropEntry>,
}

impl View for MemoryStore {
    type V = Seq<PropEntryView>;

    closed spec fn view(&self) -> Seq<PropEntryView> {
        self.entries.deep_view()
    }
}

impl MemoryStore {
    /// The keys of this store are pairwise distinct.
    pub open spec fn wf(&self) -> bool {
        store_wf(self@)
    }

    /// The row of the given key, if there is one.
    pub open spec fn spec_lookup(&self, interface: Seq<char>, path: Seq<char>) -> Option<
        PropEntryView,
    > {
        find_entry(self@, interface, path)
    }

    /// An empty store.
    pub fn new() -> (r: MemoryStore)
        ensures
            r@ == Seq::<PropEntryView>::empty(),
            r.wf(),
    {
        let r = MemoryStore { entries: Vec::new() };
        assert(r@ =~= Seq::<PropEntryView>::empty());
        r
    }

    /// The number of rows.
    pub fn len(&self) -> (r: usize)
        ensures
            r == self@.len(),
    {
        self.entries.len()
    }

    /// The index of the row with the given key.
    #[verifier::loop_isolation(false)]
    fn find_index(&self, interface: &str, path: &str) -> (r: Option<usize>)
        requires
            self.wf(),
        ensures
            match r {
                Option::Some(i) => i < self@.len() && self@[i as int].interface == interface@
                    && self@[i as int].path == path@ && self.spec_lookup(interface@, path@)
                    == Some(self@[i as int]),
                Option::None => self.spec_lookup(interface@, path@) is None,
            },
    {
        let mut k: usize = 0;
        while k < self.entries.len()
            invariant
                k <= self@.len(),
                forall|l: int|
                    0 <= l < k ==> !((#[trigger] self@[l]).interface == interface@ && self@[l].path
                        == path@),
            decreases self@.len() - k,
        {
            if str_eq(self.entries[k].interface.as_str(), interface) && str_eq(
                self.entries[k].path.as_str(),
                path,
            ) {
                proof {
                    lemma_find_entry_at(self@, k as int);
                }
                return Some(k);
            }
            assert(!(self@[k as int].interface == interface@ && self@[k as int].path == path@));
            k += 1;
        }
        proof {
            lemma_find_entry_absent(self@, interface@, path@);
        }
        None
    }

    /// Upserts the property: after the call its key holds exactly this
    /// value, major and ownership, and every other key is unchanged.
    #[verifier::loop_isolation(false)]
    pub fn store_prop(&mut self, prop: StoredProp)
        requires
            old(self).wf(),
        ensures
            final(self).wf(),
            final(self).spec_lookup(prop.interface@, prop.path@) == Some(
                PropEntryView {
                    interface: prop.interface@,
                    path: prop.path@,
                    value: Some(prop.value@),
                    interface_major: prop.interface_major as int,
                    ownership: prop.ownership,
                },
            ),
            forall|i2: Seq<char>, p2: Seq<char>|
                !(i2 == prop.interface@ && p2 == prop.path@) ==> #[trigger] find_entry(
                    final(self)@,
                    i2,
                    p2,
                ) == find_entry(old(self)@, i2, p2),
    {
        let entry = PropEntry {
            interface: prop.interface,
            path: prop.path,
            value: Some(prop.value),
            interface_major: prop.interface_major,
            ownership: prop.ownership,
        };
        let ghost ev = entry@;
        let ghost olds = self@;
        match self.find_index(entry.interface.as_str(), entry.path.as_str()) {
            Some(i) => {
                self.entries.set(i, entry);
                proof {
                    assert(self@ =~= olds.update(i as int, ev));
                    lemma_update_same_key(olds, i as int, ev);
                    lemma_find_entry_at(self@, i as int);
                }
            },
            None => {
                self.entries.push(entry);
                proof {
                    assert(self@ =~= olds.push(ev));
                    lemma_push_new_key(olds, ev);
                    assert(store_wf(self@)) by {
                        assert forall|x: int, y: int| 0 <= x < y < self@.len() implies !((
                        #[trigger] self@[x]).interface == (#[trigger] self@[y]).interface
                            && self@[x].path == self@[y].path) by {
                            if y < olds.len() {
                                assert(self@[x] == olds[x] && self@[y] == olds[y]);
                            } else {
                                assert(self@[y] == ev && self@[x] == olds[x]);
                                if olds[x].interface == ev.interface && olds[x].path == ev.path {
                                    lemma_find_entry_at(olds, x);
                                }
                            }
                        }
                    }
                    lemma_find_entry_at(self@, self@.len() - 1);
                }
            },
        }
    }

    /// Loads the value of the key iff its recorded major version equals
    /// `expected_major` and it is not an unset marker.  A row with a stale
    /// major version is deleted; every other key is unchanged.
    pub fn load_prop(&mut self, interface: &str, path: &str, expected_major: i32) -> (r: Option<
        AstarteData,
    >)
        requires
            old(self).wf(),
        ensures
            final(self).wf(),
            match r {
                Option::Some(v) => spec_load(old(self)@, interface@, path@, expected_major as int)
                    == Some(v@),
                Option::None => spec_load(
                    old(self)@,
                    interface@,
                    path@,
                    expected_major as int,
                ) is None,
            },
            match old(self).spec_lookup(interface@, path@) {
                Option::Some(e) => {
                    &&& (e.interface_major == expected_major as int) ==> {
                        &&& (match e.value {
                            Option::Some(v) => r matches Some(rv) && rv@ == v,
                            Option::None => r is None,
                        })
                        &&& final(self)@ == old(self)@
                    }
                    &&& (e.interface_major != expected_major as int) ==> r is None && final(self).spec_lookup(interface@, path@) is None
                },
                Option::None => r is None && final(self)@ == old(self)@,
            },
            forall|i2: Seq<char>, p2: Seq<char>|
                !(i2 == interface@ && p2 == path@) ==> #[trigger] find_entry(final(self)@, i2, p2)
                    == find_entry(old(self)@, i2, p2),
    {
        let ghost olds = self@;
        match self.find_index(interface, path) {
            Some(i) => {
                if self.entries[i].interface_major != expected_major {
                    let ghost iv = self@[i as int].interface;
                    let ghost pv = self@[i as int].path;
                    self.entries.remove(i);
                    proof {
                        assert(self@ =~= olds.remove(i as int));
                        lemma_remove_key(olds, i as int);
                    }
                    return None;
                }
                match &self.entries[i].value {
                    Some(v) => Some(clone_data(v)),
                    None => None,
                }
            },
            None => None,
        }
    }

    /// Marks the key as unset: a later load returns nothing.  The row
    /// keeps its major version and ownership; every other key is
    /// unchanged.  A key without a row is left without one.
    pub fn unset_prop(&mut self, interface: &str, path: &str)
        requires
            old(self).wf(),
        ensures
            final(self).wf(),
            match old(self).spec_lookup(interface@, path@) {
                Option::Some(e) => final(self).spec_lookup(interface@, path@) == Some(
                    PropEntryView {
                        interface: e.interface,
                        path: e.path,
                        value: None,
                        interface_major: e.interface_major,
                        ownership: e.ownership,
                    },
                ),
                Option::None => final(self).spec_lookup(interface@, path@) is None,
            },
            forall|i2: Seq<char>, p2: Seq<char>|
                !(i2 == interface@ && p2 == path@) ==> #[trigger] find_entry(final(self)@, i2, p2)
                    == find_entry(old(self)@, i2, p2),
    {
        let ghost olds = self@;
        match self.find_index(interface, path) {
            Some(i) => {
                let entry = PropEntry {
                    interface: self.entries[i].interface.clone(),
                    path: self.entries[i].path.clone(),
                    value: None,
                    interface_major: self.entries[i].interface_major,
                    ownership: self.entries[i].ownership,
                };
                let ghost ev = entry@;
                self.entries.set(i, entry);
                proof {
                    assert(self@ =~= olds.update(i as int, ev));
                    lemma_update_same_key(olds, i as int, ev);
                    lemma_find_entry_at(self@, i as int);
                }
            },
            None => {},
        }
    }

    /// Hard-removes the row of the key, if there is one; every other key
    /// is unchanged.
    pub fn delete_prop(&mut self, interface: &str, path: &str)
        requires
            old(self).wf(),
        ensures
            final(self).wf(),
            final(self).spec_lookup(interface@, path@) is None,
            forall|i2: Seq<char>, p2: Seq<char>|
                !(i2 == interface@ && p2 == path@) ==> #[trigger] find_entry(final(self)@, i2, p2)
                    == find_entry(old(self)@, i2, p2),
    {
        let ghost olds = self@;
        match self.find_index(interface, path) {
            Some(i) => {
                self.entries.remove(i);
                proof {
                    assert(self@ =~= olds.remove(i as int));
                    lemma_remove_key(olds, i as int);
                }
            },
            None => {},
        }
    }
}

/// What loading a key with an expected major version returns: the stored
/// value exactly when the recorded major version matches and the row is
/// not an unset marker.
pub open spec fn spec_load(
    s: Seq<PropEntryView>,
    interface: Seq<char>,
    path: Seq<char>,
    expected_major: int,
) -> Option<DataView> {
    match find_entry(s, interface, path) {
        Option::Some(e) => if e.interface_major == expected_major {
            e.value
        } else {
            None
        },
        Option::None => None,
    }
}

/// Round trip of a stored property: once its row is in the store, a load
/// returns its value exactly when the expected major version matches.
pub proof fn lemma_store_then_load(
    s: Seq<PropEntryView>,
    p: StoredPropView,
    expected_major: int,
)
    requires
        find_entry(s, p.interface, p.path) == Some(
            PropEntryView {
                interface: p.interface,
                path: p.path,
                value: Some(p.value),
                interface_major: p.interface_major,
                ownership: p.ownership,
            },
        ),
    ensures
        spec_load(s, p.interface, p.path, expected_major) == (
        if expected_major == p.interface_major {
            Some(p.value)
        } else {
            Option::<DataView>::None
        }),
{
}

/// The properties of the rows with the given ownership whose value is
/// set, in store order.
pub open spec fn props_of(s: Seq<PropEntryView>, owner: Ownership) -> Seq<StoredPropView>
    decreases s.len(),
{
    if s.len() == 0 {
        Seq::empty()
    } else {
        let rest = props_of(s.drop_first(), owner);
        if s[0].ownership == owner && s[0].value is Some {
            seq![
                StoredPropView {
                    interface: s[0].interface,
                    path: s[0].path,
                    value: s[0].value->0,
                    interface_major: s[0].interface_major,
                    ownership: s[0].ownership,
                },
            ] + rest
        } else {
            rest
        }
    }
}

impl MemoryStore {
    /// The stored device-owned properties, for the resync on connect.
    pub fn device_props(&self) -> (r: Vec<StoredProp>)
        ensures
            r.deep_view() == props_of(self@, Ownership::Device),
    {
        let r = self.collect_props(0, Ownership::Device);
        assert(self@.skip(0) =~= self@);
        r
    }

    /// The stored server-owned properties.
    pub fn server_props(&self) -> (r: Vec<StoredProp>)
        ensures
            r.deep_view() == props_of(self@, Ownership::Server),
    {
        let r = self.collect_props(0, Ownership::Server);
        assert(self@.skip(0) =~= self@);
        r
    }

    /// The set properties with the given ownership among the rows from
    /// index `k` on.
    #[verifier::loop_isolation(false)]
    fn collect_props(&self, k: usize, owner: Ownership) -> (r: Vec<StoredProp>)
        requires
            k <= self@.len(),
        ensures
            r.deep_view() == props_of(self@.skip(k as int), owner),
        decreases self@.len() - k,
    {
        let ghost suffix = self@.skip(k as int);
        if k == self.entries.len() {
            let r: Vec<StoredProp> = Vec::new();
            assert(suffix.len() == 0);
            assert(r.deep_view() =~= props_of(suffix, owner));
            return r;
        }
        let mut rest = self.collect_props(k + 1, owner);
        proof {
            assert(suffix[0] == self@[k as int]);
            assert(suffix.drop_first() =~= self@.skip(k + 1));
        }
        let entry = &self.entries[k];
        let keep = entry.ownership == owner;
        match &entry.value {
            Some(v) => {
                if keep {
                    let prop = StoredProp {
                        interface: entry.interface.clone(),
                        path: entry.path.clone(),
                        value: clone_data(v),
                        interface_major: entry.interface_major,
                        ownership: entry.ownership,
                    };
                    let ghost pv = prop@;
                    let ghost restv = rest.deep_view();
                    rest.insert(0, prop);
                    assert(rest.deep_view() =~= seq![pv] + restv);
                    assert(rest.deep_view() =~= props_of(suffix, owner));
                }
            },
            None => {},
        }
        rest
    }
}

/// Updating a row with one that has the same key keeps the store
/// well-formed and leaves every other key's lookup unchanged.
proof fn lemma_update_same_key(s: Seq<PropEntryView>, i: int, e: PropEntryView)
    requires
        store_wf(s),
        0 <= i < s.len(),
        e.interface == s[i].interface,
        e.path == s[i].path,
    ensures
        store_wf(s.update(i, e)),
        forall|i2: Seq<char>, p2: Seq<char>|
            !(i2 == e.interface && p2 == e.path) ==> #[trigger] find_entry(s.update(i, e), i2, p2)
                == find_entry(s, i2, p2),
    decreases s.len(),
{
    let t = s.update(i, e);
    assert forall|x: int, y: int| 0 <= x < y < t.len() implies !((#[trigger] t[x]).interface == (
    #[trigger] t[y]).interface && t[x].path == t[y].path) by {
        assert(t[x].interface == s[x].interface && t[x].path == s[x].path);
        assert(t[y].interface == s[y].interface && t[y].path == s[y].path);
    }
    assert forall|i2: Seq<char>, p2: Seq<char>| !(i2 == e.interface && p2 == e.path) implies
        #[trigger] find_entry(t, i2, p2) == find_entry(s, i2, p2) by {
        lemma_find_entry_frame(s, t, i2, p2);
    }
}

/// Two stores that agree on which rows match a key agree on its lookup.
proof fn lemma_find_entry_frame(
    s: Seq<PropEntryView>,
    t: Seq<PropEntryView>,
    interface: Seq<char>,
    path: Seq<char>,
)
    requires
        s.len() == t.len(),
        forall|x: int|
            0 <= x < s.len() ==> ((#[trigger] s[x]).interface == interface && s[x].path == path)
                == ((#[trigger] t[x]).interface == interface && t[x].path == path),
        forall|x: int|
            0 <= x < s.len() && (#[trigger] s[x]).interface == interface && s[x].path == path
                ==> s[x] == t[x],
    ensures
        find_entry(t, interface, path) == find_entry(s, interface, path),
    decreases s.len(),
{
    if s.len() > 0 {
        if s[0].interface == interface && s[0].path == path {
        } else {
            assert(forall|x: int|
                0 <= x < s.drop_first().len() ==> #[trigger] s.drop_first()[x] == s[x + 1]);
            assert(forall|x: int|
                0 <= x < t.drop_first().len() ==> #[trigger] t.drop_first()[x] == t[x + 1]);
            lemma_find_entry_frame(s.drop_first(), t.drop_first(), interface, path);
        }
    }
}

/// Appending a row whose key is new leaves every other key's lookup
/// unchanged, and its own key finds the new row.
proof fn lemma_push_new_key(s: Seq<PropEntryView>, e: PropEntryView)
    requires
        find_entry(s, e.interface, e.path) is None,
    ensures
        forall|i2: Seq<char>, p2: Seq<char>|
            !(i2 == e.interface && p2 == e.path) ==> #[trigger] find_entry(s.push(e), i2, p2)
                == find_entry(s, i2, p2),
        find_entry(s.push(e), e.interface, e.path) == Some(e),
    decreases s.len(),
{
    if s.len() == 0 {
        assert forall|i2: Seq<char>, p2: Seq<char>| !(i2 == e.interface && p2 == e.path) implies
            #[trigger] find_entry(s.push(e), i2, p2) == find_entry(s, i2, p2) by {
            assert(s.push(e)[0] == e);
            assert(s.push(e).drop_first() =~= Seq::<PropEntryView>::empty());
            assert(find_entry(Seq::<PropEntryView>::empty(), i2, p2) is None);
        }
        assert(s.push(e)[0] == e);
    } else {
        assert(s.push(e)[0] == s[0]);
        assert(s.push(e).drop_first() =~= s.drop_first().push(e));
        lemma_push_new_key(s.drop_first(), e);
        assert forall|i2: Seq<char>, p2: Seq<char>| !(i2 == e.interface && p2 == e.path) implies
            #[trigger] find_entry(s.push(e), i2, p2) == find_entry(s, i2, p2) by {
            if s[0].interface == i2 && s[0].path == p2 {
            } else {
                assert(find_entry(s.drop_first().push(e), i2, p2) == find_entry(
                    s.drop_first(),
                    i2,
                    p2,
                ));
            }
        }
    }
}

/// Removing a row leaves every other key's lookup unchanged, and its own
/// key no longer finds a row.
proof fn lemma_remove_key(s: Seq<PropEntryView>, i: int)
    requires
        store_wf(s),
        0 <= i < s.len(),
    ensures
        store_wf(s.remove(i)),
        find_entry(s.remove(i), s[i].interface, s[i].path) is None,
        forall|i2: Seq<char>, p2: Seq<char>|
            !(i2 == s[i].interface && p2 == s[i].path) ==> #[trigger] find_entry(
                s.remove(i),
                i2,
                p2,
            ) == find_entry(s, i2, p2),
{
    let t = s.remove(i);
    assert forall|x: int, y: int| 0 <= x < y < t.len() implies !((#[trigger] t[x]).interface == (
    #[trigger] t[y]).interface && t[x].path == t[y].path) by {
        let sx: int = if x < i {
            x
        } else {
            x + 1
        };
        let sy: int = if y < i {
            y
        } else {
            y + 1
        };
        assert(t[x] == s[sx] && t[y] == s[sy]);
    }
    assert forall|x: int|
        0 <= x < t.len() implies !((#[trigger] t[x]).interface == s[i].interface && t[x].path
        == s[i].path) by {
        let sx: int = if x < i {
            x
        } else {
            x + 1
        };
        assert(t[x] == s[sx]);
    }
    lemma_find_entry_absent(t, s[i].interface, s[i].path);
    assert forall|i2: Seq<char>, p2: Seq<char>| !(i2 == s[i].interface && p2 == s[i].path) implies
        #[trigger] find_entry(t, i2, p2) == find_entry(s, i2, p2) by {
        lemma_remove_other_key(s, i, i2, p2);
    }
}

/// Removing a row does not change the lookup of a different key.
proof fn lemma_remove_other_key(s: Seq<PropEntryView>, i: int, interface: Seq<char>, path: Seq<
    char,
>)
    requires
        0 <= i < s.len(),
        !(s[i].interface == interface && s[i].path == path),
    ensures
        find_entry(s.remove(i), interface, path) == find_entry(s, interface, path),
    decreases s.len(),
{
    let t = s.remove(i);
    if i == 0 {
        assert(t =~= s.drop_first());
    } else {
        assert(t[0] == s[0]);
        if s[0].interface == interface && s[0].path == path {
        } else {
            assert(t.drop_first() =~= s.drop_first().remove(i - 1));
            assert(s.drop_first()[i - 1] == s[i]);
            lemma_remove_other_key(s.drop_first(), i - 1, interface, path);
        }
    }
}

} // verus!
