//! Parameterized endpoint patterns.
//!
//! An endpoint is an absolute, slash-separated path whose levels are either
//! literal tokens or `%{name}` parameters.  Mappings use endpoints to address
//! the data of an interface; concrete paths are matched against them.

use vstd::prelude::*;

verus! {

/// One level of an endpoint: a literal token or a `%{name}` parameter.
#[derive(Debug)]
pub enum Level {
    /// A literal path token, e.g. `sensor`.
    Literal(String),
    /// A parameter level `%{name}` that matches any literal token.
    Parameter(String),
}

/// Mathematical value of a [`Level`]: the token or parameter name as a
/// sequence of characters.
pub enum LevelView {
    Literal(Seq<char>),
    Parameter(Seq<char>),
}

impl View for Level {
    type V = LevelView;

    open spec fn view(&self) -> LevelView {
        match self {
            Level::Literal(s) => LevelView::Literal(s@),
            Level::Parameter(s) => LevelView::Parameter(s@),
        }
    }
}

impl DeepView for Level {
    type V = LevelView;

    open spec fn deep_view(&self) -> LevelView {
        self.view()
    }
}

impl Clone for Level {
    fn clone(&self) -> (r: Self)
        ensures
            r@ == self@,
    {
        match self {
            Level::Literal(s) => Level::Literal(s.clone()),
            Level::Parameter(s) => Level::Parameter(s.clone()),
        }
    }
}

/// Error when parsing an endpoint or a concrete path.
#[derive(Debug, Clone, Copy, PartialEq, Eq, Structural)]
pub enum EndpointError {
    /// The path is the empty string.
    Empty,
    /// The path does not start with `/`.
    MissingForwardSlash,
    /// A level is empty, holds a reserved character, or is a malformed
    /// parameter.
    InvalidLevel,
}

/// Characters allowed in a literal level: letters, digits, `_` and `-`.
pub open spec fn is_literal_char(c: char) -> bool {
    ('a' <= c && c <= 'z') || ('A' <= c && c <= 'Z') || ('0' <= c && c <= '9') || c == '_' || c
        == '-'
}

/// Characters allowed in a parameter name: letters, digits and `_`.
pub open spec fn is_ident_char(c: char) -> bool {
    ('a' <= c && c <= 'z') || ('A' <= c && c <= 'Z') || ('0' <= c && c <= '9') || c == '_'
}

/// A valid literal level: non-empty, only literal characters, not starting
/// with `-`.
pub open spec fn is_literal_seg(s: Seq<char>) -> bool {
    &&& s.len() > 0
    &&& s[0] != '-'
    &&& forall|i: int| 0 <= i < s.len() ==> is_literal_char(#[trigger] s[i])
}

/// A valid parameter level: `%{name}` with a non-empty identifier.
pub open spec fn is_param_seg(s: Seq<char>) -> bool {
    &&& s.len() >= 4
    &&& s[0] == '%'
    &&& s[1] == '{'
    &&& s[s.len() - 1] == '}'
    &&& forall|i: int| 2 <= i < s.len() - 1 ==> is_ident_char(#[trigger] s[i])
}

pub open spec fn is_valid_seg(s: Seq<char>) -> bool {
    is_literal_seg(s) || is_param_seg(s)
}

/// The level denoted by a valid segment.
pub open spec fn seg_level(s: Seq<char>) -> LevelView {
    if s.len() > 0 && s[0] == '%' {
        LevelView::Parameter(s.subrange(2, s.len() - 1))
    } else {
        LevelView::Literal(s)
    }
}

/// Index of the first `/` at or after `i`, or the length if there is none.
pub open spec fn find_sep(cs: Seq<char>, i: int) -> int
    decreases cs.len() - i,
{
    if i < 0 || i >= cs.len() {
        cs.len() as int
    } else if cs[i] == '/' {
        i
    } else {
        find_sep(cs, i + 1)
    }
}

pub proof fn lemma_find_sep_bounds(cs: Seq<char>, i: int)
    requires
        0 <= i <= cs.len(),
    ensures
        i <= find_sep(cs, i) <= cs.len(),
        forall|k: int| i <= k < find_sep(cs, i) ==> cs[k] != '/',
        find_sep(cs, i) < cs.len() ==> cs[find_sep(cs, i)] == '/',
    decreases cs.len() - i,
{
    if i < cs.len() && cs[i] != '/' {
        lemma_find_sep_bounds(cs, i + 1);
    }
}

/// Levels of the path suffix that starts at `i`, where `i` is the position
/// just after a `/`; `None` if some segment is invalid.
pub open spec fn parse_from(cs: Seq<char>, i: int) -> Option<Seq<LevelView>>
    decreases cs.len() - i,
    when 0 <= i <= cs.len()
    via parse_from_decreases
{
    let j = find_sep(cs, i);
    let seg = cs.subrange(i, j);
    if !is_valid_seg(seg) {
        None
    } else if j == cs.len() {
        Some(seq![seg_level(seg)])
    } else {
        match parse_from(cs, j + 1) {
            Option::None => None,
            Option::Some(rest) => Some(seq![seg_level(seg)] + rest),
        }
    }
}

#[via_fn]
proof fn parse_from_decreases(cs: Seq<char>, i: int) {
    lemma_find_sep_bounds(cs, i);
}

/// A valid endpoint string: non-empty, absolute, all levels valid.
pub open spec fn valid_endpoint(cs: Seq<char>) -> bool {
    cs.len() > 0 && cs[0] == '/' && parse_from(cs, 1) is Some
}

/// The levels of a valid endpoint string.
pub open spec fn endpoint_levels(cs: Seq<char>) -> Seq<LevelView>
    recommends
        valid_endpoint(cs),
{
    parse_from(cs, 1)->Some_0
}

/// An endpoint pattern: a non-empty sequence of levels.
#[derive(Debug)]
pub struct Endpoint {
    levels: Vec<Level>,
}

impl View for Endpoint {
    type V = Seq<LevelView>;

    closed spec fn view(&self) -> Seq<LevelView> {
        self.levels.deep_view()
    }
}

impl Clone for Endpoint {
    #[verifier::loop_isolation(false)]
    fn clone(&self) -> (r: Self)
        ensures
            r@ == self@,
    {
        let mut levels: Vec<Level> = Vec::new();
        let mut k: usize = 0;
        while k < self.levels.len()
            invariant
                k <= self.levels.len(),
                levels.deep_view() =~= self.levels.deep_view().take(k as int),
            decreases self.levels.len() - k,
        {
            levels.push(self.levels[k].clone());
            k += 1;
        }
        assert(levels.deep_view() =~= self@);
        Endpoint { levels }
    }
}

/// First `/` at or after `i`, or the character length `n` of `s`.
fn find_sep_exec(s: &str, i: usize, n: usize) -> (j: usize)
    requires
        n == s@.len(),
        i <= n,
    ensures
        j == find_sep(s@, i as int),
        i <= j <= n,
    decreases n - i,
{
    proof {
        lemma_find_sep_bounds(s@, i as int);
    }
    if i == n {
        n
    } else if s.get_char(i) == '/' {
        i
    } else {
        find_sep_exec(s, i + 1, n)
    }
}

/// Checks that the characters of `s` in `[i, j)` form a valid literal level.
#[verifier::loop_isolation(false)]
fn check_literal_seg(s: &str, i: usize, j: usize) -> (r: bool)
    requires
        i <= j <= s@.len(),
    ensures
        r == is_literal_seg(s@.subrange(i as int, j as int)),
{
    let ghost seg = s@.subrange(i as int, j as int);
    if i == j {
        return false;
    }
    if s.get_char(i) == '-' {
        assert(seg[0] == '-');
        return false;
    }
    let mut k = i;
    while k < j
        invariant
            i <= k <= j,
            forall|l: int| i <= l < k ==> is_literal_char(#[trigger] s@[l]),
        decreases j - k,
    {
        let c = s.get_char(k);
        if !(('a' <= c && c <= 'z') || ('A' <= c && c <= 'Z') || ('0' <= c && c <= '9') || c == '_'
            || c == '-') {
            assert(seg[k - i] == s@[k as int]);
            return false;
        }
        k += 1;
    }
    assert forall|l: int| 0 <= l < seg.len() implies is_literal_char(#[trigger] seg[l]) by {
        assert(seg[l] == s@[i + l]);
    }
    true
}

/// Checks that the characters of `s` in `[i, j)` form a valid `%{name}`
/// parameter level.
#[verifier::loop_isolation(false)]
fn check_param_seg(s: &str, i: usize, j: usize) -> (r: bool)
    requires
        i <= j <= s@.len(),
    ensures
        r == is_param_seg(s@.subrange(i as int, j as int)),
{
    let ghost seg = s@.subrange(i as int, j as int);
    if j - i < 4 {
        return false;
    }
    if s.get_char(i) != '%' || s.get_char(i + 1) != '{' || s.get_char(j - 1) != '}' {
        assert(seg[0] == s@[i as int] && seg[1] == s@[i + 1] && seg[seg.len() - 1] == s@[j - 1]);
        return false;
    }
    let mut k = i + 2;
    while k < j - 1
        invariant
            i + 2 <= k <= j - 1,
            forall|l: int| i + 2 <= l < k ==> is_ident_char(#[trigger] s@[l]),
        decreases j - k,
    {
        let c = s.get_char(k);
        if !(('a' <= c && c <= 'z') || ('A' <= c && c <= 'Z') || ('0' <= c && c <= '9') || c
            == '_') {
            assert(seg[k - i] == s@[k as int]);
            return false;
        }
        k += 1;
    }
    assert(seg[0] == s@[i as int] && seg[1] == s@[i + 1] && seg[seg.len() - 1] == s@[j - 1]);
    assert forall|l: int| 2 <= l < seg.len() - 1 implies is_ident_char(#[trigger] seg[l]) by {
        assert(seg[l] == s@[i + l]);
    }
    true
}

/// Parses the levels of the path suffix of `s` that starts at `i`.
#[verifier::loop_isolation(false)]
fn parse_from_exec(s: &str, i: usize, n: usize) -> (r: Option<Vec<Level>>)
    requires
        n == s@.len(),
        1 <= i <= n,
    ensures
        match r {
            Option::Some(v) => parse_from(s@, i as int) == Some(v.deep_view()),
            Option::None => parse_from(s@, i as int) is None,
        },
    decreases n - i,
{
    let j = find_sep_exec(s, i, n);
    let ghost seg = s@.subrange(i as int, j as int);
    let level: Level = if check_param_seg(s, i, j) {
        let name = s.substring_char(i + 2, j - 1);
        assert(name@ =~= seg.subrange(2, seg.len() - 1));
        Level::Parameter(name.to_owned())
    } else if check_literal_seg(s, i, j) {
        let tok = s.substring_char(i, j);
        assert(tok@ =~= seg);
        Level::Literal(tok.to_owned())
    } else {
        return None;
    };
    assert(level.deep_view() == seg_level(seg));
    if j == n {
        let v = vec![level];
        assert(v.deep_view() =~= seq![seg_level(seg)]);
        Some(v)
    } else {
        proof {
            lemma_find_sep_bounds(s@, i as int);
        }
        match parse_from_exec(s, j + 1, n) {
            Option::None => None,
            Option::Some(rest) => {
                let ghost rest_view = rest.deep_view();
                let mut v = rest;
                v.insert(0, level);
                assert(v.deep_view() =~= seq![seg_level(seg)] + rest_view);
                Some(v)
            },
        }
    }
}

impl Endpoint {
    /// Parses an endpoint pattern, accepting exactly the valid endpoint
    /// strings.
    pub fn try_from_str(s: &str) -> (r: Result<Endpoint, EndpointError>)
        ensures
            match r {
                Ok(e) => valid_endpoint(s@) && e@ == endpoint_levels(s@) && wf_levels(e@),
                Err(EndpointError::Empty) => s@.len() == 0,
                Err(EndpointError::MissingForwardSlash) => s@.len() > 0 && s@[0] != '/',
                Err(EndpointError::InvalidLevel) => s@.len() > 0 && s@[0] == '/' && parse_from(
                    s@,
                    1,
                ) is None,
            },
            r is Ok <==> valid_endpoint(s@),
    {
        let n = s.unicode_len();
        if n == 0 {
            return Err(EndpointError::Empty);
        }
        if s.get_char(0) != '/' {
            return Err(EndpointError::MissingForwardSlash);
        }
        match parse_from_exec(s, 1, n) {
            Option::Some(levels) => {
                proof {
                    lemma_parse_from_wf(s@, 1);
                }
                Ok(Endpoint { levels })
            },
            Option::None => Err(EndpointError::InvalidLevel),
        }
    }

    /// Number of levels of the endpoint.
    pub fn len(&self) -> (r: usize)
        ensures
            r == self@.len(),
    {
        self.levels.len()
    }

    /// The level at index `k`.
    pub fn level(&self, k: usize) -> (r: &Level)
        requires
            k < self@.len(),
        ensures
            r@ == self@[k as int],
    {
        &self.levels[k]
    }

    /// True if the two endpoints have exactly the same levels.
    #[verifier::loop_isolation(false)]
    pub fn same_levels(&self, other: &Endpoint) -> (r: bool)
        ensures
            r == (self@ == other@),
    {
        if self.levels.len() != other.levels.len() {
            assert(self@.len() != other@.len());
            return false;
        }
        let n = self.levels.len();
        let mut k: usize = 0;
        while k < n
            invariant
                k <= n,
                forall|l: int| 0 <= l < k ==> self@[l] == other@[l],
            decreases n - k,
        {
            if !level_eq(&self.levels[k], &other.levels[k]) {
                assert(self@[k as int] != other@[k as int]);
                return false;
            }
            k += 1;
        }
        assert(self@ =~= other@);
        true
    }

    /// Renders the endpoint back to its textual form.
    pub fn to_string(&self) -> (r: String)
        ensures
            r@ == levels_chars(self@),
    {
        let r = render_from(&self.levels, 0);
        assert(self.levels.deep_view().skip(0) =~= self@);
        r
    }

    /// True if some concrete path is matched by both endpoints, i.e. the two
    /// patterns have the same length and agree on every pair of literal
    /// levels.
    #[verifier::loop_isolation(false)]
    pub fn overlaps(&self, other: &Endpoint) -> (r: bool)
        ensures
            r == levels_overlap(self@, other@),
    {
        if self.levels.len() != other.levels.len() {
            return false;
        }
        let n = self.levels.len();
        let mut k: usize = 0;
        while k < n
            invariant
                k <= n,
                forall|l: int|
                    0 <= l < k ==> (self@[l] is Parameter || other@[l] is Parameter
                        || self@[l]->Literal_0 == other@[l]->Literal_0),
            decreases n - k,
        {
            match (&self.levels[k], &other.levels[k]) {
                (Level::Literal(a), Level::Literal(b)) => {
                    if !a.eq(b) {
                        assert(self@[k as int] is Literal && other@[k as int] is Literal
                            && self@[k as int]->Literal_0 != other@[k as int]->Literal_0);
                        return false;
                    }
                },
                _ => {},
            }
            k += 1;
        }
        true
    }

    /// True if the concrete path is matched by this endpoint: equal lengths,
    /// literal levels equal, and levels of parameters with the same name
    /// equal.
    #[verifier::loop_isolation(false)]
    pub fn matches(&self, path: &MappingPath) -> (r: bool)
        ensures
            r == matches_path(self@, path@),
    {
        if self.levels.len() != path.levels.len() {
            return false;
        }
        let n = self.levels.len();
        let mut k: usize = 0;
        while k < n
            invariant
                k <= n,
                n == self@.len() == path@.len(),
                forall|l: int| 0 <= l < k ==> (self@[l] is Literal ==> self@[l]->Literal_0 == path@[l]),
                forall|l: int, m: int|
                    0 <= l < k && 0 <= m < k && self@[l] is Parameter && self@[m] is Parameter
                        && self@[l]->Parameter_0 == self@[m]->Parameter_0 ==> path@[l] == path@[m],
            decreases n - k,
        {
            match &self.levels[k] {
                Level::Literal(t) => {
                    if !t.eq(&path.levels[k]) {
                        assert(self@[k as int] is Literal);
                        assert(self@[k as int]->Literal_0 != path@[k as int]);
                        return false;
                    }
                },
                Level::Parameter(id) => {
                    let mut l: usize = 0;
                    while l < k
                        invariant
                            l <= k < n,
                            n == self@.len() == path@.len(),
                            self@[k as int] is Parameter && self@[k as int]->Parameter_0 == id@,
                            forall|m: int|
                                0 <= m < l && self@[m] is Parameter && self@[m]->Parameter_0 == id@
                                    ==> path@[m] == path@[k as int],
                        decreases k - l,
                    {
                        match &self.levels[l] {
                            Level::Parameter(other_id) => {
                                if id.eq(other_id) && !path.levels[k].eq(&path.levels[l]) {
                                    assert(self@[l as int] is Parameter);
                                    assert(self@[l as int]->Parameter_0 == id@);
                                    assert(path@[l as int] != path@[k as int]);
                                    return false;
                                }
                            },
                            _ => {},
                        }
                        l += 1;
                    }
                },
            }
            k += 1;
        }
        true
    }
}

/// True if the two levels are the same level.
pub fn level_eq(a: &Level, b: &Level) -> (r: bool)
    ensures
        r == (a@ == b@),
{
    match (a, b) {
        (Level::Literal(x), Level::Literal(y)) => x.eq(y),
        (Level::Parameter(x), Level::Parameter(y)) => x.eq(y),
        _ => false,
    }
}

/// The textual form of one level.
pub open spec fn level_chars(l: LevelView) -> Seq<char> {
    match l {
        LevelView::Literal(t) => t,
        LevelView::Parameter(id) => seq!['%', '{'] + id + seq!['}'],
    }
}

/// The textual form of a level sequence: each level prefixed by `/`.
pub open spec fn levels_chars(ls: Seq<LevelView>) -> Seq<char>
    decreases ls.len(),
{
    if ls.len() == 0 {
        Seq::empty()
    } else {
        seq!['/'] + level_chars(ls[0]) + levels_chars(ls.drop_first())
    }
}

/// Renders the levels from index `k` on.
#[verifier::loop_isolation(false)]
fn render_from(levels: &Vec<Level>, k: usize) -> (r: String)
    requires
        k <= levels.len(),
    ensures
        r@ == levels_chars(levels.deep_view().skip(k as int)),
    decreases levels.len() - k,
{
    let ghost suffix = levels.deep_view().skip(k as int);
    if k == levels.len() {
        assert(suffix.len() == 0);
        return String::new();
    }
    let mut s = String::new();
    s.append("/");
    match &levels[k] {
        Level::Literal(t) => {
            s.append(t.as_str());
        },
        Level::Parameter(id) => {
            s.append("%{");
            s.append(id.as_str());
            s.append("}");
        },
    }
    let rest = render_from(levels, k + 1);
    s.append(rest.as_str());
    proof {
        reveal_strlit("/");
        reveal_strlit("%{");
        reveal_strlit("}");
        assert(suffix[0] == levels.deep_view()[k as int]);
        assert(suffix.drop_first() =~= levels.deep_view().skip(k + 1));
        assert(s@ =~= seq!['/'] + level_chars(suffix[0]) + levels_chars(suffix.drop_first()));
    }
    s
}

/// A concrete path is matched by the pattern: equal lengths, literal levels
/// equal to the path level, and path levels equal under parameters with the
/// same name.
pub open spec fn matches_path(ep: Seq<LevelView>, p: Seq<Seq<char>>) -> bool {
    &&& ep.len() == p.len()
    &&& forall|k: int| 0 <= k < ep.len() ==> (#[trigger] ep[k] is Literal ==> ep[k]->Literal_0 == p[k])
    &&& forall|k: int, l: int|
        0 <= k < ep.len() && 0 <= l < ep.len() && #[trigger] ep[k] is Parameter
            && #[trigger] ep[l] is Parameter && ep[k]->Parameter_0 == ep[l]->Parameter_0 ==> p[k]
            == p[l]
}

/// Two patterns overlap: same length, and at every position at least one
/// level is a parameter or the two literals are equal.
pub open spec fn levels_overlap(a: Seq<LevelView>, b: Seq<LevelView>) -> bool {
    &&& a.len() == b.len()
    &&& forall|k: int|
        0 <= k < a.len() ==> (#[trigger] a[k] is Parameter || #[trigger] b[k] is Parameter
            || a[k]->Literal_0 == b[k]->Literal_0)
}

/// Overlap is reflexive.
pub proof fn lemma_overlap_reflexive(a: Seq<LevelView>)
    ensures
        levels_overlap(a, a),
{
    assert forall|k: int| 0 <= k < a.len() implies (#[trigger] a[k] is Parameter || a[k] is Parameter
        || a[k]->Literal_0 == a[k]->Literal_0) by {}
}

/// Overlap is symmetric.
pub proof fn lemma_overlap_symmetric(a: Seq<LevelView>, b: Seq<LevelView>)
    ensures
        levels_overlap(a, b) == levels_overlap(b, a),
{
}

/// Any two patterns matched by one concrete path overlap.  In a valid
/// interface the mappings are pairwise non-overlapping, so at most one
/// mapping can resolve any concrete path.
pub proof fn lemma_two_matches_overlap(a: Seq<LevelView>, b: Seq<LevelView>, p: Seq<Seq<char>>)
    requires
        matches_path(a, p),
        matches_path(b, p),
    ensures
        levels_overlap(a, b),
{
    assert forall|k: int| 0 <= k < a.len() implies (#[trigger] a[k] is Parameter
        || #[trigger] b[k] is Parameter || a[k]->Literal_0 == b[k]->Literal_0) by {
        if !(a[k] is Parameter) && !(b[k] is Parameter) {
            assert(a[k] is Literal && b[k] is Literal);
        }
    }
}

/// Rendering the parse of a path suffix gives the suffix back, including the
/// `/` that precedes it.
proof fn lemma_parse_renders_input(cs: Seq<char>, i: int)
    requires
        1 <= i <= cs.len(),
        cs[i - 1] == '/',
        parse_from(cs, i) is Some,
    ensures
        levels_chars(parse_from(cs, i)->Some_0) == cs.subrange(i - 1, cs.len() as int),
    decreases cs.len() - i,
{
    lemma_find_sep_bounds(cs, i);
    let j = find_sep(cs, i);
    let seg = cs.subrange(i, j);
    let lvl = seg_level(seg);
    assert(level_chars(lvl) =~= seg);
    if j == cs.len() {
        let ls = seq![lvl];
        assert(ls.drop_first() =~= Seq::<LevelView>::empty());
        assert(levels_chars(Seq::<LevelView>::empty()) == Seq::<char>::empty());
        assert(levels_chars(ls) =~= seq!['/'] + seg);
        assert(levels_chars(ls) =~= cs.subrange(i - 1, cs.len() as int));
    } else {
        lemma_parse_renders_input(cs, j + 1);
        let rest = parse_from(cs, j + 1)->Some_0;
        let ls = seq![lvl] + rest;
        assert(ls.drop_first() =~= rest);
        assert(ls[0] == lvl);
        assert(levels_chars(ls) =~= seq!['/'] + seg + cs.subrange(j, cs.len() as int));
        assert(levels_chars(ls) =~= cs.subrange(i - 1, cs.len() as int));
    }
}

/// Round trip: rendering the levels of a valid endpoint string gives the
/// string back, so `parse` followed by `to_string` is the identity.
pub proof fn lemma_endpoint_round_trip(cs: Seq<char>)
    requires
        valid_endpoint(cs),
    ensures
        levels_chars(endpoint_levels(cs)) == cs,
{
    lemma_parse_renders_input(cs, 1);
    assert(cs.subrange(0, cs.len() as int) =~= cs);
}

/// A well-formed level: its token or name is non-empty and uses only the
/// allowed characters.  Parsed endpoints have well-formed levels, and a
/// sequence of well-formed levels renders to a valid endpoint string.
pub open spec fn wf_level(l: LevelView) -> bool {
    match l {
        LevelView::Literal(t) => is_literal_seg(t),
        LevelView::Parameter(id) => id.len() > 0 && forall|i: int|
            0 <= i < id.len() ==> is_ident_char(#[trigger] id[i]),
    }
}

/// A well-formed level sequence: non-empty, all levels well-formed.
pub open spec fn wf_levels(ls: Seq<LevelView>) -> bool {
    ls.len() > 0 && forall|k: int| 0 <= k < ls.len() ==> wf_level(#[trigger] ls[k])
}

/// The levels of a parsed path suffix are well-formed.
pub proof fn lemma_parse_from_wf(cs: Seq<char>, i: int)
    requires
        0 <= i <= cs.len(),
        parse_from(cs, i) is Some,
    ensures
        wf_levels(parse_from(cs, i)->Some_0),
    decreases cs.len() - i,
{
    lemma_find_sep_bounds(cs, i);
    let j = find_sep(cs, i);
    let seg = cs.subrange(i, j);
    assert(wf_level(seg_level(seg)));
    if j < cs.len() {
        lemma_parse_from_wf(cs, j + 1);
    }
}

/// If there is no separator in `[i, j)` and `j` is a separator or the end,
/// then `j` is the first separator.
proof fn lemma_find_sep_is(cs: Seq<char>, i: int, j: int)
    requires
        0 <= i <= j <= cs.len(),
        forall|k: int| i <= k < j ==> cs[k] != '/',
        j < cs.len() ==> cs[j] == '/',
    ensures
        find_sep(cs, i) == j,
    decreases j - i,
{
    if i < j {
        lemma_find_sep_is(cs, i + 1, j);
    }
}

/// The rendering of a well-formed level has no separator in it.
proof fn lemma_level_chars_no_sep(l: LevelView)
    requires
        wf_level(l),
    ensures
        forall|k: int| 0 <= k < level_chars(l).len() ==> level_chars(l)[k] != '/',
        level_chars(l).len() > 0,
        is_valid_seg(level_chars(l)),
        seg_level(level_chars(l)) == l,
{
    match l {
        LevelView::Literal(t) => {
            assert(level_chars(l) == t);
            assert(forall|k: int| 0 <= k < t.len() ==> is_literal_char(#[trigger] t[k]));
            assert(!(t[0] == '%'));
        },
        LevelView::Parameter(id) => {
            let r = seq!['%', '{'] + id + seq!['}'];
            assert(level_chars(l) == r);
            assert(r.len() == id.len() + 3);
            assert(forall|k: int| 0 <= k < r.len() ==> r[k] != '/') by {
                assert(r[0] == '%' && r[1] == '{' && r[r.len() - 1] == '}');
                assert(forall|k: int| 2 <= k < r.len() - 1 ==> r[k] == id[k - 2]);
            }
            assert(is_param_seg(r)) by {
                assert(forall|k: int| 2 <= k < r.len() - 1 ==> r[k] == id[k - 2]);
            }
            assert(seg_level(r) == LevelView::Parameter(r.subrange(2, r.len() - 1)));
            assert(r.subrange(2, r.len() - 1) =~= id);
        },
    }
}

/// If the tail of `cs` from `i - 1` is the rendering of well-formed levels,
/// parsing from `i` gives those levels back.
proof fn lemma_render_parses_at(cs: Seq<char>, i: int, ls: Seq<LevelView>)
    requires
        wf_levels(ls),
        1 <= i <= cs.len(),
        cs.subrange(i - 1, cs.len() as int) == levels_chars(ls),
    ensures
        parse_from(cs, i) == Some(ls),
    decreases ls.len(),
{
    let tail = cs.subrange(i - 1, cs.len() as int);
    let l0 = level_chars(ls[0]);
    let rest = ls.drop_first();
    lemma_level_chars_no_sep(ls[0]);
    assert(tail == seq!['/'] + l0 + levels_chars(rest));
    let j = i + l0.len();
    assert(tail.len() == 1 + l0.len() + levels_chars(rest).len());
    assert forall|k: int| i <= k < j implies cs[k] != '/' by {
        assert(cs[k] == tail[k - (i - 1)]);
        assert(tail[k - (i - 1)] == l0[k - i]);
    }
    assert forall|k: int| 0 <= k < l0.len() implies cs.subrange(i, j)[k] == l0[k] by {
        assert(cs.subrange(i, j)[k] == cs[i + k]);
        assert(cs[i + k] == tail[k + 1]);
        assert(tail[k + 1] == (seq!['/'] + l0)[k + 1]);
        assert((seq!['/'] + l0)[k + 1] == l0[k]);
    }
    if rest.len() == 0 {
        assert(levels_chars(rest).len() == 0);
        assert(j == cs.len());
        lemma_find_sep_is(cs, i, j);
        let seg = cs.subrange(i, j);
        assert(seg =~= l0);
        assert(seq![seg_level(seg)] =~= ls);
    } else {
        assert(levels_chars(rest).len() > 0);
        assert(levels_chars(rest)[0] == '/');
        assert(cs[j] == tail[j - (i - 1)]);
        assert(tail[j - (i - 1)] == levels_chars(rest)[0]);
        lemma_find_sep_is(cs, i, j);
        let seg = cs.subrange(i, j);
        assert(seg =~= l0);
        assert(forall|k: int| 0 <= k < rest.len() ==> rest[k] == ls[k + 1]);
        assert(wf_levels(rest));
        assert forall|m: int| 0 <= m < cs.len() - j implies cs.subrange(j, cs.len() as int)[m]
            == levels_chars(rest)[m] by {
            assert(cs.subrange(j, cs.len() as int)[m] == cs[j + m]);
            assert(cs[j + m] == tail[j + m - (i - 1)]);
            assert(tail[1 + l0.len() + m] == levels_chars(rest)[m]);
        }
        assert(cs.subrange(j, cs.len() as int) =~= levels_chars(rest));
        lemma_render_parses_at(cs, j + 1, rest);
        assert(parse_from(cs, i) == Some(seq![seg_level(seg)] + rest));
        assert(seq![seg_level(seg)] + rest =~= ls);
    }
}

/// Round trip in the other direction: the rendering of well-formed levels
/// is a valid endpoint string that parses back to the same levels.
pub proof fn lemma_render_parse_round_trip(ls: Seq<LevelView>)
    requires
        wf_levels(ls),
    ensures
        valid_endpoint(levels_chars(ls)),
        endpoint_levels(levels_chars(ls)) == ls,
{
    let cs = levels_chars(ls);
    assert(cs == seq!['/'] + level_chars(ls[0]) + levels_chars(ls.drop_first()));
    assert(cs.len() > 0 && cs[0] == '/');
    assert(cs.subrange(0, cs.len() as int) =~= cs);
    lemma_render_parses_at(cs, 1, ls);
}

/// Error when parsing a concrete path.
#[derive(Debug, Clone, Copy, PartialEq, Eq, Structural)]
pub enum PathError {
    /// The path is not a valid endpoint.
    Endpoint(EndpointError),
    /// The path holds a `%{name}` parameter level, so it is not concrete.
    Parameter,
}

/// A valid concrete path: a valid endpoint whose levels are all literal.
pub open spec fn valid_path(cs: Seq<char>) -> bool {
    valid_endpoint(cs) && forall|k: int|
        0 <= k < endpoint_levels(cs).len() ==> #[trigger] endpoint_levels(cs)[k] is Literal
}

/// The literal levels of a valid concrete path.
pub open spec fn path_levels(cs: Seq<char>) -> Seq<Seq<char>> {
    Seq::new(endpoint_levels(cs).len(), |k: int| endpoint_levels(cs)[k]->Literal_0)
}

/// A concrete path: absolute, slash-separated, with literal levels only.
#[derive(Debug)]
pub struct MappingPath {
    path: String,
    levels: Vec<String>,
}

impl View for MappingPath {
    type V = Seq<Seq<char>>;

    closed spec fn view(&self) -> Seq<Seq<char>> {
        self.levels.deep_view()
    }
}

impl Clone for MappingPath {
    #[verifier::loop_isolation(false)]
    fn clone(&self) -> (r: Self)
        ensures
            r@ == self@,
            r.str_view() == self.str_view(),
    {
        let mut levels: Vec<String> = Vec::new();
        let mut k: usize = 0;
        while k < self.levels.len()
            invariant
                k <= self.levels.len(),
                levels.deep_view() =~= self.levels.deep_view().take(k as int),
            decreases self.levels.len() - k,
        {
            levels.push(self.levels[k].clone());
            k += 1;
        }
        assert(levels.deep_view() =~= self@);
        MappingPath { path: self.path.clone(), levels }
    }
}

impl MappingPath {
    /// The textual form of the path.
    pub closed spec fn str_view(&self) -> Seq<char> {
        self.path@
    }

    /// Parses a concrete path, accepting exactly the valid paths.
    #[verifier::loop_isolation(false)]
    pub fn try_from_str(s: &str) -> (r: Result<MappingPath, PathError>)
        ensures
            match r {
                Ok(p) => valid_path(s@) && p@ == path_levels(s@) && p.str_view() == s@,
                Err(PathError::Parameter) => valid_endpoint(s@) && !valid_path(s@),
                Err(PathError::Endpoint(_)) => !valid_endpoint(s@),
            },
            r is Ok <==> valid_path(s@),
    {
        let endpoint = match Endpoint::try_from_str(s) {
            Ok(e) => e,
            Err(e) => {
                return Err(PathError::Endpoint(e));
            },
        };
        let mut levels: Vec<String> = Vec::new();
        let mut k: usize = 0;
        let n = endpoint.levels.len();
        while k < n
            invariant
                k <= n,
                endpoint@ == endpoint_levels(s@),
                forall|l: int| 0 <= l < k ==> #[trigger] endpoint@[l] is Literal,
                levels.deep_view() =~= path_levels(s@).take(k as int),
            decreases n - k,
        {
            match &endpoint.levels[k] {
                Level::Literal(t) => {
                    levels.push(t.clone());
                },
                Level::Parameter(_) => {
                    assert(endpoint_levels(s@)[k as int] is Parameter);
                    return Err(PathError::Parameter);
                },
            }
            k += 1;
        }
        assert(levels.deep_view() =~= path_levels(s@));
        Ok(MappingPath { path: s.to_owned(), levels })
    }

    /// Number of levels of the path.
    pub fn len(&self) -> (r: usize)
        ensures
            r == self@.len(),
    {
        self.levels.len()
    }

    /// The path as a string slice.
    pub fn as_str(&self) -> (r: &str)
        ensures
            r@ == self.str_view(),
    {
        self.path.as_str()
    }
}

} // verus!
