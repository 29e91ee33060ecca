//! Style queries and selector matching for `.vcss` rules.
//!
//! A selector is a whitespace-separated list of compound selectors
//! (`elem#id.class:state`, or `*`); the last compound must match the queried
//! element and the others must match its ancestors in order (descendant
//! combinator). Unsupported syntax never partially matches.

use vstd::prelude::*;

use crate::strings::{
    chars_eq, chars_of, is_alphanumeric, opt_view, owned, slice_range, split_whitespace,
    strs_view, unicode_alnum, vecs_view, words,
};

verus! {

/// Abstract element description: type, id, classes and states.
#[verifier::ext_equal]
pub struct ScopeSpec {
    /// Element type.
    pub element: Option<Seq<char>>,
    /// Element id.
    pub id: Option<Seq<char>>,
    /// Classes.
    pub classes: Seq<Seq<char>>,
    /// Pseudo states.
    pub states: Seq<Seq<char>>,
}

/// One ancestor in a contextual selector query.
///
/// Ancestors supplied to [`StyleQuery`] are ordered from the root toward the
/// queried element's direct parent.
#[derive(Debug, Clone, PartialEq, Eq)]
pub struct StyleScope {
    /// Optional element type, such as `menu` or `button`.
    pub element: Option<String>,
    /// Element id without `#`.
    pub id: Option<String>,
    /// Class names without `.`.
    pub classes: Vec<String>,
    /// Pseudo states active on this ancestor.
    pub states: Vec<String>,
}

impl View for StyleScope {
    type V = ScopeSpec;

    open spec fn view(&self) -> ScopeSpec {
        ScopeSpec {
            element: opt_view(self.element),
            id: opt_view(self.id),
            classes: strs_view(self.classes@),
            states: strs_view(self.states@),
        }
    }
}

impl Default for StyleScope {
    fn default() -> (r: Self)
        ensures
            r.element is None,
            r.id is None,
            r.classes@.len() == 0,
            r.states@.len() == 0,
    {
        StyleScope { element: None, id: None, classes: Vec::new(), states: Vec::new() }
    }
}

impl StyleScope {
    /// Scope containing one class.
    pub fn class(name: &str) -> (r: Self)
        ensures
            r.element is None,
            r.id is None,
            strs_view(r.classes@) == seq![name@],
            r.states@.len() == 0,
    {
        let mut classes: Vec<String> = Vec::new();
        classes.push(owned(name));
        let r = StyleScope { element: None, id: None, classes, states: Vec::new() };
        assert(strs_view(r.classes@) =~= seq![name@]);
        r
    }

    /// Set the scope element type.
    pub fn with_element(self, element: &str) -> (r: Self)
        ensures
            r@ == (ScopeSpec { element: Some(element@), ..self@ }),
    {
        let mut s = self;
        s.element = Some(owned(element));
        s
    }

    /// Set the scope id.
    pub fn with_id(self, id: &str) -> (r: Self)
        ensures
            r@ == (ScopeSpec { id: Some(id@), ..self@ }),
    {
        let mut s = self;
        s.id = Some(owned(id));
        s
    }

    /// Add a class to the scope.
    pub fn with_class(self, name: &str) -> (r: Self)
        ensures
            r@ == (ScopeSpec { classes: self@.classes.push(name@), ..self@ }),
    {
        let mut s = self;
        s.classes.push(owned(name));
        assert(strs_view(s.classes@) =~= self@.classes.push(name@));
        s
    }

    /// Add a pseudo state to the scope.
    pub fn with_state(self, name: &str) -> (r: Self)
        ensures
            r@ == (ScopeSpec { states: self@.states.push(name@), ..self@ }),
    {
        let mut s = self;
        s.states.push(owned(name));
        assert(strs_view(s.states@) =~= self@.states.push(name@));
        s
    }
}

/// Abstract query: the element itself plus its ancestors, root first.
#[verifier::ext_equal]
pub struct QuerySpec {
    /// The queried element.
    pub own: ScopeSpec,
    /// Ancestors, root to parent.
    pub ancestors: Seq<ScopeSpec>,
}

/// Element query for matching.
#[derive(Debug, Clone)]
pub struct StyleQuery {
    /// Optional element type, such as `button`.
    pub element: Option<String>,
    /// Element id without `#`.
    pub id: Option<String>,
    /// Class names without `.`.
    pub classes: Vec<String>,
    /// Pseudo states: `selected`, `hover`, `disabled`, ...
    pub states: Vec<String>,
    /// Ancestor scopes, ordered root-to-parent, for descendant selectors.
    pub ancestors: Vec<StyleScope>,
}

impl View for StyleQuery {
    type V = QuerySpec;

    open spec fn view(&self) -> QuerySpec {
        QuerySpec {
            own: ScopeSpec {
                element: opt_view(self.element),
                id: opt_view(self.id),
                classes: strs_view(self.classes@),
                states: strs_view(self.states@),
            },
            ancestors: Seq::new(self.ancestors@.len(), |i: int| self.ancestors@[i]@),
        }
    }
}

impl Default for StyleQuery {
    fn default() -> (r: Self)
        ensures
            r.element is None,
            r.id is None,
            r.classes@.len() == 0,
            r.states@.len() == 0,
            r.ancestors@.len() == 0,
    {
        StyleQuery {
            element: None,
            id: None,
            classes: Vec::new(),
            states: Vec::new(),
            ancestors: Vec::new(),
        }
    }
}

impl StyleQuery {
    /// Query for an element with one class.
    pub fn class(name: &str) -> (r: Self)
        ensures
            r@.own.element is None,
            r@.own.id is None,
            r@.own.classes == seq![name@],
            r@.own.states.len() == 0,
            r@.ancestors.len() == 0,
    {
        let mut classes: Vec<String> = Vec::new();
        classes.push(owned(name));
        let r = StyleQuery {
            element: None,
            id: None,
            classes,
            states: Vec::new(),
            ancestors: Vec::new(),
        };
        assert(r@.own.classes =~= seq![name@]);
        r
    }

    /// Add a class.
    pub fn with_class(self, name: &str) -> (r: Self)
        ensures
            r@ == (QuerySpec {
                own: ScopeSpec { classes: self@.own.classes.push(name@), ..self@.own },
                ..self@
            }),
    {
        let mut s = self;
        s.classes.push(owned(name));
        assert(strs_view(s.classes@) =~= self@.own.classes.push(name@));
        assert(s@.ancestors =~= self@.ancestors);
        s
    }

    /// Set the element type used by type selectors.
    pub fn with_element(self, element: &str) -> (r: Self)
        ensures
            r@ == (QuerySpec { own: ScopeSpec { element: Some(element@), ..self@.own }, ..self@ }),
    {
        let mut s = self;
        s.element = Some(owned(element));
        assert(s@.ancestors =~= self@.ancestors);
        s
    }

    /// Add a pseudo state.
    pub fn with_state(self, name: &str) -> (r: Self)
        ensures
            r@ == (QuerySpec {
                own: ScopeSpec { states: self@.own.states.push(name@), ..self@.own },
                ..self@
            }),
    {
        let mut s = self;
        s.states.push(owned(name));
        assert(strs_view(s.states@) =~= self@.own.states.push(name@));
        assert(s@.ancestors =~= self@.ancestors);
        s
    }

    /// Set the id.
    pub fn with_id(self, id: &str) -> (r: Self)
        ensures
            r@ == (QuerySpec { own: ScopeSpec { id: Some(id@), ..self@.own }, ..self@ }),
    {
        let mut s = self;
        s.id = Some(owned(id));
        assert(s@.ancestors =~= self@.ancestors);
        s
    }

    /// Append an ancestor scope (call in root-to-parent order).
    pub fn with_ancestor(self, scope: StyleScope) -> (r: Self)
        ensures
            r@ == (QuerySpec { ancestors: self@.ancestors.push(scope@), ..self@ }),
    {
        let ghost sv = scope@;
        let mut s = self;
        s.ancestors.push(scope);
        assert(s@.ancestors =~= self@.ancestors.push(sv));
        s
    }

    /// Append an ancestor scope containing one class.
    pub fn with_ancestor_class(self, class: &str) -> (r: Self)
        ensures
            r@.own == self@.own,
            r@.ancestors.len() == self@.ancestors.len() + 1,
            r@.ancestors.drop_last() == self@.ancestors,
            r@.ancestors.last().element is None,
            r@.ancestors.last().id is None,
            r@.ancestors.last().classes == seq![class@],
            r@.ancestors.last().states.len() == 0,
    {
        let r = self.with_ancestor(StyleScope::class(class));
        assert(r@.ancestors.drop_last() =~= self@.ancestors);
        r
    }
}

/// A parsed compound selector (`elem#id.class:state`).
#[verifier::ext_equal]
pub struct CompoundSpec {
    /// Required element type.
    pub element: Option<Seq<char>>,
    /// Required ids.
    pub ids: Seq<Seq<char>>,
    /// Required classes.
    pub classes: Seq<Seq<char>>,
    /// Required states.
    pub states: Seq<Seq<char>>,
}

/// Executable form of a compound selector.
pub struct CompoundSelector {
    /// Required element type.
    pub element: Option<Vec<char>>,
    /// Required ids.
    pub ids: Vec<Vec<char>>,
    /// Required classes.
    pub classes: Vec<Vec<char>>,
    /// Required states.
    pub states: Vec<Vec<char>>,
}

impl View for CompoundSelector {
    type V = CompoundSpec;

    open spec fn view(&self) -> CompoundSpec {
        CompoundSpec {
            element: match self.element {
                Some(e) => Some(e@),
                None => None,
            },
            ids: vecs_view(self.ids@),
            classes: vecs_view(self.classes@),
            states: vecs_view(self.states@),
        }
    }
}

/// Characters allowed in selector identifiers.
pub open spec fn ident_char(c: char) -> bool {
    unicode_alnum(c) || c == '-' || c == '_'
}

/// Characters that start a suffix of a compound selector.
pub open spec fn marker_char(c: char) -> bool {
    c == '.' || c == '#' || c == ':'
}

/// End of the maximal identifier run starting at `i`.
pub open spec fn ident_end(s: Seq<char>, i: int) -> int
    decreases s.len() - i,
{
    if 0 <= i < s.len() && ident_char(s[i]) {
        ident_end(s, i + 1)
    } else {
        i
    }
}

/// The identifier run starting at `i` ends at or after `i`, and every
/// character in it is an identifier character.
pub proof fn lemma_ident_end(s: Seq<char>, i: int)
    requires
        0 <= i <= s.len(),
    ensures
        i <= ident_end(s, i) <= s.len(),
        forall|k: int| i <= k < ident_end(s, i) ==> ident_char(#[trigger] s[k]),
        ident_end(s, i) < s.len() ==> !ident_char(s[ident_end(s, i)]),
    decreases s.len() - i,
{
    if i < s.len() && ident_char(s[i]) {
        lemma_ident_end(s, i + 1);
    }
}

/// The empty compound selector.
pub open spec fn empty_compound() -> CompoundSpec {
    CompoundSpec { element: None, ids: seq![], classes: seq![], states: seq![] }
}

/// Adds one `marker ident` suffix to a compound selector.
pub open spec fn add_suffix(c: CompoundSpec, marker: char, ident: Seq<char>) -> CompoundSpec {
    if marker == '.' {
        CompoundSpec { classes: c.classes.push(ident), ..c }
    } else if marker == '#' {
        CompoundSpec { ids: c.ids.push(ident), ..c }
    } else {
        CompoundSpec { states: c.states.push(ident), ..c }
    }
}

/// Parses the suffixes of a compound selector from position `i`.
pub open spec fn parse_suffixes(s: Seq<char>, i: int, acc: CompoundSpec) -> Option<CompoundSpec>
    decreases s.len() - i,
{
    if i < 0 || i >= s.len() {
        Some(acc)
    } else if !marker_char(s[i]) {
        None
    } else {
        let e = ident_end(s, i + 1);
        if e <= i + 1 || e > s.len() {
            None
        } else {
            parse_suffixes(s, e, add_suffix(acc, s[i], s.subrange(i + 1, e)))
        }
    }
}

/// Parses one compound selector; `None` for empty or unsupported syntax.
pub open spec fn parse_compound(s: Seq<char>) -> Option<CompoundSpec> {
    if s.len() == 0 {
        None
    } else if s[0] == '*' {
        parse_suffixes(s, 1, empty_compound())
    } else if marker_char(s[0]) {
        parse_suffixes(s, 0, empty_compound())
    } else {
        let e = ident_end(s, 0);
        if e <= 0 {
            None
        } else {
            parse_suffixes(
                s,
                e,
                CompoundSpec { element: Some(s.subrange(0, e)), ..empty_compound() },
            )
        }
    }
}

/// End of the identifier run starting at `start`.
fn ident_end_exec(s: &[char], start: usize) -> (e: usize)
    requires
        start <= s.len(),
    ensures
        e as int == ident_end(s@, start as int),
{
    let mut e = start;
    while e < s.len() && (is_alphanumeric(s[e]) || s[e] == '-' || s[e] == '_')
        invariant
            start <= e <= s.len(),
            ident_end(s@, start as int) == ident_end(s@, e as int),
        decreases s.len() - e,
    {
        e += 1;
    }
    e
}

/// The identifier starting at `start` and the index just past it; `None`
/// when no identifier character stands there.
pub fn parse_ident_at(s: &[char], start: usize) -> (r: Option<(Vec<char>, usize)>)
    requires
        start <= s.len(),
    ensures
        match r {
            Some((id, e)) => e == ident_end(s@, start as int) && e > start && id@ == s@.subrange(
                start as int,
                e as int,
            ),
            None => ident_end(s@, start as int) == start,
        },
{
    proof {
        lemma_ident_end(s@, start as int);
    }
    let e = ident_end_exec(s, start);
    if e > start {
        Some((slice_range(s, start, e), e))
    } else {
        None
    }
}

/// Parse one compound selector.
pub fn parse_compound_selector(s: &[char]) -> (r: Option<CompoundSelector>)
    ensures
        match r {
            Some(c) => parse_compound(s@) == Some(c@),
            None => parse_compound(s@) is None,
        },
{
    if s.len() == 0 {
        return None;
    }
    let mut parsed = CompoundSelector {
        element: None,
        ids: Vec::new(),
        classes: Vec::new(),
        states: Vec::new(),
    };
    let mut cursor: usize = 0;
    let first = s[0];
    assert(vecs_view(parsed.ids@) =~= seq![]);
    assert(vecs_view(parsed.classes@) =~= seq![]);
    assert(vecs_view(parsed.states@) =~= seq![]);
    assert(parsed@ =~= empty_compound());
    proof {
        lemma_ident_end(s@, 0);
    }
    if first == '*' {
        cursor = 1;
    } else if !(first == '.' || first == '#' || first == ':') {
        let end = ident_end_exec(s, 0);
        if end == 0 {
            return None;
        }
        parsed.element = Some(slice_range(s, 0, end));
        cursor = end;
        assert(parsed@ =~= CompoundSpec {
            element: Some(s@.subrange(0, end as int)),
            ..empty_compound()
        });
    }
    while cursor < s.len()
        invariant
            0 <= cursor <= s.len(),
            parse_compound(s@) == parse_suffixes(s@, cursor as int, parsed@),
        decreases s.len() - cursor,
    {
        let marker = s[cursor];
        if !(marker == '.' || marker == '#' || marker == ':') {
            return None;
        }
        let end = ident_end_exec(s, cursor + 1);
        proof {
            lemma_ident_end(s@, cursor + 1);
        }
        if end == cursor + 1 {
            return None;
        }
        let ident = slice_range(s, cursor + 1, end);
        let ghost before = parsed@;
        if marker == '.' {
            parsed.classes.push(ident);
            assert(vecs_view(parsed.classes@) =~= before.classes.push(
                s@.subrange(cursor + 1, end as int),
            ));
        } else if marker == '#' {
            parsed.ids.push(ident);
            assert(vecs_view(parsed.ids@) =~= before.ids.push(
                s@.subrange(cursor + 1, end as int),
            ));
        } else {
            parsed.states.push(ident);
            assert(vecs_view(parsed.states@) =~= before.states.push(
                s@.subrange(cursor + 1, end as int),
            ));
        }
        assert(parsed@ =~= add_suffix(before, marker, s@.subrange(cursor + 1, end as int)));
        cursor = end;
    }
    Some(parsed)
}

/// Parses every word of a selector; `None` as soon as one word fails.
pub open spec fn parse_all(ws: Seq<Seq<char>>) -> Option<Seq<CompoundSpec>>
    decreases ws.len(),
{
    if ws.len() == 0 {
        Some(seq![])
    } else {
        match (parse_all(ws.drop_last()), parse_compound(ws.last())) {
            (Some(a), Some(c)) => Some(a.push(c)),
            _ => None,
        }
    }
}

/// A selector is its whitespace-separated compounds; it must have at least one.
pub open spec fn parse_selector(s: Seq<char>) -> Option<Seq<CompoundSpec>> {
    match parse_all(words(s)) {
        Some(cs) => if cs.len() > 0 {
            Some(cs)
        } else {
            None
        },
        None => None,
    }
}

/// Parse a whitespace-separated selector into compound selectors.
pub fn parse_selector_chars(s: &[char]) -> (r: Option<Vec<CompoundSelector>>)
    ensures
        match r {
            Some(v) => parse_selector(s@) == Some(Seq::new(v@.len(), |i: int| v@[i]@)),
            None => parse_selector(s@) is None,
        },
{
    let ws = split_whitespace(s);
    let ghost wv = words(s@);
    let mut out: Vec<CompoundSelector> = Vec::new();
    let mut i: usize = 0;
    while i < ws.len()
        invariant
            0 <= i <= ws.len(),
            ws@.len() == wv.len(),
            wv == words(s@),
            forall|k: int| 0 <= k < ws@.len() ==> #[trigger] ws@[k]@ == wv[k],
            parse_all(wv.take(i as int)) == Some(Seq::new(out@.len(), |k: int| out@[k]@)),
        decreases ws.len() - i,
    {
        let ghost prev = Seq::new(out@.len(), |k: int| out@[k]@);
        assert(wv.take(i + 1).drop_last() =~= wv.take(i as int));
        assert(wv.take(i + 1).last() == ws@[i as int]@);
        match parse_compound_selector(ws[i].as_slice()) {
            Some(c) => {
                let ghost cv = c@;
                out.push(c);
                assert(Seq::new(out@.len(), |k: int| out@[k]@) =~= prev.push(cv));
            },
            None => {
                proof {
                    lemma_parse_all_none(wv, i as int);
                }
                return None;
            },
        }
        i += 1;
    }
    assert(wv.take(ws.len() as int) =~= wv);
    if out.len() == 0 {
        return None;
    }
    Some(out)
}

/// Once a word fails to parse, the whole selector fails.
proof fn lemma_parse_all_none(ws: Seq<Seq<char>>, i: int)
    requires
        0 <= i < ws.len(),
        parse_compound(ws[i]) is None,
    ensures
        parse_all(ws) is None,
    decreases ws.len(),
{
    if i < ws.len() - 1 {
        lemma_parse_all_none(ws.drop_last(), i);
    }
}

/// Whether a compound selector matches an element description.
pub open spec fn compound_ok(c: CompoundSpec, s: ScopeSpec) -> bool {
    &&& (c.element matches Some(e) ==> s.element == Some(e))
    &&& (forall|k: int| 0 <= k < c.ids.len() ==> s.id == Some(#[trigger] c.ids[k]))
    &&& (forall|k: int| 0 <= k < c.classes.len() ==> s.classes.contains(#[trigger] c.classes[k]))
    &&& (forall|k: int| 0 <= k < c.states.len() ==> s.states.contains(#[trigger] c.states[k]))
}

/// `idx` places each compound of `cs` on an ancestor, in strictly
/// increasing ancestor order.
pub open spec fn placed(cs: Seq<CompoundSpec>, anc: Seq<ScopeSpec>, idx: Seq<int>) -> bool {
    &&& idx.len() == cs.len()
    &&& forall|j: int| 0 <= j < idx.len() ==> 0 <= #[trigger] idx[j] < anc.len()
    &&& forall|j: int| 0 <= j < idx.len() ==> compound_ok(cs[j], anc[#[trigger] idx[j]])
    &&& forall|a: int, b: int| 0 <= a < b < idx.len() ==> #[trigger] idx[a] < #[trigger] idx[b]
}

/// The compounds `cs` match some ancestors in order (descendant combinators).
pub open spec fn in_context(cs: Seq<CompoundSpec>, anc: Seq<ScopeSpec>) -> bool {
    exists|idx: Seq<int>| placed(cs, anc, idx)
}

/// Leftmost-first placement of `cs` on `anc`.
pub open spec fn greedy_context(cs: Seq<CompoundSpec>, anc: Seq<ScopeSpec>) -> bool
    decreases anc.len(),
{
    if cs.len() == 0 {
        true
    } else if anc.len() == 0 {
        false
    } else if compound_ok(cs[0], anc[0]) {
        greedy_context(cs.drop_first(), anc.drop_first())
    } else {
        greedy_context(cs, anc.drop_first())
    }
}

/// Placing ancestors leftmost-first succeeds exactly when some in-order
/// placement exists.
pub proof fn lemma_greedy_context(cs: Seq<CompoundSpec>, anc: Seq<ScopeSpec>)
    ensures
        greedy_context(cs, anc) == in_context(cs, anc),
    decreases anc.len(),
{
    if cs.len() == 0 {
        let idx: Seq<int> = seq![];
        assert(placed(cs, anc, idx));
    } else if anc.len() == 0 {
        if in_context(cs, anc) {
            let idx = choose|idx: Seq<int>| placed(cs, anc, idx);
            assert(0 <= idx[0] < anc.len());
        }
    } else if compound_ok(cs[0], anc[0]) {
        lemma_greedy_context(cs.drop_first(), anc.drop_first());
        if greedy_context(cs, anc) {
            let idx1 = choose|idx: Seq<int>| placed(cs.drop_first(), anc.drop_first(), idx);
            let idx = seq![0int] + Seq::new(idx1.len(), |j: int| idx1[j] + 1);
            assert forall|j: int| 0 <= j < idx.len() implies compound_ok(
                cs[j],
                anc[#[trigger] idx[j]],
            ) by {
                if j > 0 {
                    assert(idx[j] == idx1[j - 1] + 1);
                    assert(cs.drop_first()[j - 1] == cs[j]);
                    assert(anc.drop_first()[idx1[j - 1]] == anc[idx1[j - 1] + 1]);
                }
            }
            assert forall|a: int, b: int| 0 <= a < b < idx.len() implies #[trigger] idx[a]
                < #[trigger] idx[b] by {
                if a > 0 {
                    assert(idx1[a - 1] < idx1[b - 1]);
                } else {
                    assert(0 <= idx1[b - 1]);
                }
            }
            assert(placed(cs, anc, idx));
        }
        if in_context(cs, anc) {
            let idx = choose|idx: Seq<int>| placed(cs, anc, idx);
            let idx1 = Seq::new((idx.len() - 1) as nat, |j: int| idx[j + 1] - 1);
            assert forall|j: int| 0 <= j < idx1.len() implies 0 <= #[trigger] idx1[j]
                < anc.drop_first().len() by {
                assert(idx[0] < idx[j + 1]);
            }
            assert forall|j: int| 0 <= j < idx1.len() implies compound_ok(
                cs.drop_first()[j],
                anc.drop_first()[#[trigger] idx1[j]],
            ) by {
                assert(idx[0] < idx[j + 1]);
                assert(compound_ok(cs[j + 1], anc[idx[j + 1]]));
            }
            assert forall|a: int, b: int| 0 <= a < b < idx1.len() implies #[trigger] idx1[a]
                < #[trigger] idx1[b] by {
                assert(idx[a + 1] < idx[b + 1]);
            }
            assert(placed(cs.drop_first(), anc.drop_first(), idx1));
        }
    } else {
        lemma_greedy_context(cs, anc.drop_first());
        if greedy_context(cs, anc) {
            let idx1 = choose|idx: Seq<int>| placed(cs, anc.drop_first(), idx);
            let idx = Seq::new(idx1.len(), |j: int| idx1[j] + 1);
            assert forall|j: int| 0 <= j < idx.len() implies compound_ok(
                cs[j],
                anc[#[trigger] idx[j]],
            ) by {
                assert(anc.drop_first()[idx1[j]] == anc[idx1[j] + 1]);
            }
            assert forall|a: int, b: int| 0 <= a < b < idx.len() implies #[trigger] idx[a]
                < #[trigger] idx[b] by {
                assert(idx1[a] < idx1[b]);
            }
            assert(placed(cs, anc, idx));
        }
        if in_context(cs, anc) {
            let idx = choose|idx: Seq<int>| placed(cs, anc, idx);
            assert(idx[0] != 0);
            let idx1 = Seq::new(idx.len(), |j: int| idx[j] - 1);
            assert forall|j: int| 0 <= j < idx1.len() implies 0 <= #[trigger] idx1[j]
                < anc.drop_first().len() by {
                if j > 0 {
                    assert(idx[0] < idx[j]);
                }
            }
            assert forall|j: int| 0 <= j < idx1.len() implies compound_ok(
                cs[j],
                anc.drop_first()[#[trigger] idx1[j]],
            ) by {
                if j > 0 {
                    assert(idx[0] < idx[j]);
                }
                assert(compound_ok(cs[j], anc[idx[j]]));
            }
            assert forall|a: int, b: int| 0 <= a < b < idx1.len() implies #[trigger] idx1[a]
                < #[trigger] idx1[b] by {
                assert(idx[a] < idx[b]);
            }
            assert(placed(cs, anc.drop_first(), idx1));
        }
    }
}

/// Whether `selector` matches the queried element in its ancestor context.
pub open spec fn selector_matches_spec(selector: Seq<char>, q: QuerySpec) -> bool {
    match parse_selector(selector) {
        None => false,
        Some(cs) => compound_ok(cs.last(), q.own) && in_context(cs.drop_last(), q.ancestors),
    }
}

/// Whether an optional string equals `want`.
fn opt_is(o: &Option<String>, want: &[char]) -> (b: bool)
    ensures
        b == (opt_view(*o) == Some(want@)),
{
    match o {
        Some(s) => {
            let v = chars_of(s.as_str());
            chars_eq(v.as_slice(), want)
        },
        None => false,
    }
}

/// Whether `want` is one of the strings of `v`.
fn has_string(v: &Vec<String>, want: &[char]) -> (b: bool)
    ensures
        b == strs_view(v@).contains(want@),
{
    let mut i: usize = 0;
    while i < v.len()
        invariant
            0 <= i <= v.len(),
            forall|k: int| 0 <= k < i ==> v@[k]@ != want@,
        decreases v.len() - i,
    {
        let c = chars_of(v[i].as_str());
        if chars_eq(c.as_slice(), want) {
            assert(strs_view(v@)[i as int] == want@);
            return true;
        }
        i += 1;
    }
    proof {
        if strs_view(v@).contains(want@) {
            let k = choose|k: int| 0 <= k < strs_view(v@).len() && strs_view(v@)[k] == want@;
            assert(v@[k]@ == want@);
        }
    }
    false
}

/// Whether every string of `req` is one of the strings of `have`.
fn all_present(req: &Vec<Vec<char>>, have: &Vec<String>) -> (b: bool)
    ensures
        b == (forall|k: int|
            0 <= k < req@.len() ==> strs_view(have@).contains(#[trigger] vecs_view(req@)[k])),
{
    let mut i: usize = 0;
    while i < req.len()
        invariant
            0 <= i <= req.len(),
            forall|k: int| 0 <= k < i ==> strs_view(have@).contains(#[trigger] vecs_view(req@)[k]),
        decreases req.len() - i,
    {
        if !has_string(have, req[i].as_slice()) {
            assert(vecs_view(req@)[i as int] == req@[i as int]@);
            return false;
        }
        i += 1;
    }
    true
}

/// Whether a compound selector matches an element given by its parts.
pub fn compound_matches(
    sel: &CompoundSelector,
    element: &Option<String>,
    id: &Option<String>,
    classes: &Vec<String>,
    states: &Vec<String>,
) -> (b: bool)
    ensures
        b == compound_ok(
            sel@,
            ScopeSpec {
                element: opt_view(*element),
                id: opt_view(*id),
                classes: strs_view(classes@),
                states: strs_view(states@),
            },
        ),
{
    let ghost sc = ScopeSpec {
        element: opt_view(*element),
        id: opt_view(*id),
        classes: strs_view(classes@),
        states: strs_view(states@),
    };
    if let Some(req) = &sel.element {
        if !opt_is(element, req.as_slice()) {
            return false;
        }
    }
    let ghost c = sel@;
    assert(c.ids == vecs_view(sel.ids@));
    assert(c.classes == vecs_view(sel.classes@));
    assert(c.states == vecs_view(sel.states@));
    let mut i: usize = 0;
    while i < sel.ids.len()
        invariant
            0 <= i <= sel.ids.len(),
            c == sel@,
            sc == (ScopeSpec {
                element: opt_view(*element),
                id: opt_view(*id),
                classes: strs_view(classes@),
                states: strs_view(states@),
            }),
            c.element matches Some(e) ==> opt_view(*element) == Some(e),
            forall|k: int| 0 <= k < i ==> opt_view(*id) == Some(#[trigger] vecs_view(sel.ids@)[k]),
        decreases sel.ids.len() - i,
    {
        let ok = opt_is(id, sel.ids[i].as_slice());
        if !ok {
            assert(c.ids[i as int] == sel.ids@[i as int]@);
            assert(opt_view(*id) != Some(c.ids[i as int]));
            assert(sc.id != Some(c.ids[i as int]));
            assert(!compound_ok(c, sc));
            return false;
        }
        i += 1;
    }
    if !all_present(&sel.classes, classes) {
        assert(!compound_ok(c, sc));
        return false;
    }
    let r = all_present(&sel.states, states);
    assert(r == compound_ok(c, sc));
    r
}

/// First ancestor at or after `start` that `required` matches.
fn find_ancestor(required: &CompoundSelector, ancestors: &Vec<StyleScope>, start: usize) -> (r:
    Option<usize>)
    requires
        start <= ancestors@.len(),
    ensures
        match r {
            Some(p) => start <= p < ancestors@.len() && compound_ok(required@, ancestors@[p as int]@)
                && forall|k: int|
                start <= k < p ==> !compound_ok(required@, #[trigger] ancestors@[k]@),
            None => forall|k: int|
                start <= k < ancestors@.len() ==> !compound_ok(required@, #[trigger] ancestors@[k]@),
        },
{
    let mut p = start;
    while p < ancestors.len()
        invariant
            start <= p <= ancestors@.len(),
            forall|k: int| start <= k < p ==> !compound_ok(required@, #[trigger] ancestors@[k]@),
        decreases ancestors@.len() - p,
    {
        let scope = &ancestors[p];
        if compound_matches(required, &scope.element, &scope.id, &scope.classes, &scope.states) {
            return Some(p);
        }
        p += 1;
    }
    None
}

/// Skipping ancestors that do not match the first compound does not change
/// the leftmost-first placement.
proof fn lemma_greedy_skip(cs: Seq<CompoundSpec>, anc: Seq<ScopeSpec>, from: int, to: int)
    requires
        cs.len() > 0,
        0 <= from <= to <= anc.len(),
        forall|k: int| from <= k < to ==> !compound_ok(cs[0], #[trigger] anc[k]),
    ensures
        greedy_context(cs, anc.skip(from)) == greedy_context(cs, anc.skip(to)),
    decreases to - from,
{
    if from < to {
        assert(anc.skip(from)[0] == anc[from]);
        assert(anc.skip(from).drop_first() =~= anc.skip(from + 1));
        lemma_greedy_skip(cs, anc, from + 1, to);
    }
}

/// With no ancestor left that matches the first compound, placement fails.
proof fn lemma_greedy_no_match(cs: Seq<CompoundSpec>, anc: Seq<ScopeSpec>, from: int)
    requires
        cs.len() > 0,
        0 <= from <= anc.len(),
        forall|k: int| from <= k < anc.len() ==> !compound_ok(cs[0], #[trigger] anc[k]),
    ensures
        !greedy_context(cs, anc.skip(from)),
{
    lemma_greedy_skip(cs, anc, from, anc.len() as int);
    assert(anc.skip(anc.len() as int).len() == 0);
}

/// Whether `selector` matches `query`, including descendant context.
pub fn selector_matches(selector: &str, query: &StyleQuery) -> (b: bool)
    ensures
        b == selector_matches_spec(selector@, query@),
{
    let chars = chars_of(selector);
    let compounds = match parse_selector_chars(chars.as_slice()) {
        Some(c) => c,
        None => return false,
    };
    let ghost cs = Seq::new(compounds@.len(), |i: int| compounds@[i]@);
    let ghost q = query@;
    let n = compounds.len();
    let current = &compounds[n - 1];
    if !compound_matches(current, &query.element, &query.id, &query.classes, &query.states) {
        return false;
    }
    assert(cs.last() == current@);
    let ghost ctx = cs.drop_last();
    proof {
        lemma_greedy_context(ctx, q.ancestors);
    }
    let mut ancestor_start: usize = 0;
    let mut j: usize = 0;
    assert(ctx.skip(0) =~= ctx);
    assert(q.ancestors.skip(0) =~= q.ancestors);
    while j < n - 1
        invariant
            n == compounds@.len(),
            n >= 1,
            cs == Seq::new(compounds@.len(), |i: int| compounds@[i]@),
            ctx == cs.drop_last(),
            q == query@,
            selector_matches_spec(selector@, query@) == in_context(ctx, q.ancestors),
            greedy_context(ctx, q.ancestors) == in_context(ctx, q.ancestors),
            0 <= j <= n - 1,
            ancestor_start <= query.ancestors@.len(),
            greedy_context(ctx, q.ancestors) == greedy_context(
                ctx.skip(j as int),
                q.ancestors.skip(ancestor_start as int),
            ),
        decreases n - 1 - j,
    {
        let required = &compounds[j];
        let ghost rest = ctx.skip(j as int);
        assert(rest[0] == required@);
        let found = find_ancestor(required, &query.ancestors, ancestor_start);
        let p = match found {
            Some(p) => p,
            None => {
                proof {
                    assert forall|k: int| ancestor_start <= k < q.ancestors.len() implies !compound_ok(
                        rest[0],
                        #[trigger] q.ancestors[k],
                    ) by {
                        assert(q.ancestors[k] == query.ancestors@[k]@);
                    }
                    lemma_greedy_no_match(rest, q.ancestors, ancestor_start as int);
                }
                return false;
            },
        };
        proof {
            assert forall|k: int| ancestor_start <= k < p implies !compound_ok(
                rest[0],
                #[trigger] q.ancestors[k],
            ) by {
                assert(q.ancestors[k] == query.ancestors@[k]@);
            }
            lemma_greedy_skip(rest, q.ancestors, ancestor_start as int, p as int);
            assert(q.ancestors.skip(p as int)[0] == q.ancestors[p as int]);
            assert(q.ancestors.skip(p as int).drop_first() =~= q.ancestors.skip(p + 1));
            assert(rest.drop_first() =~= ctx.skip(j + 1));
        }
        assert(p < query.ancestors.len());
        ancestor_start = p + 1;
        j += 1;
    }
    assert(ctx.skip(j as int).len() == 0);
    true
}

/// CSS-like specificity triple: `(ids, classes + states, element types)`,
/// each counter saturating at `u16::MAX`.
pub open spec fn spec_sum(cs: Seq<CompoundSpec>) -> (u16, u16, u16)
    decreases cs.len(),
{
    if cs.len() == 0 {
        (0, 0, 0)
    } else {
        let s = spec_sum(cs.drop_last());
        let c = cs.last();
        (
            sat_add(s.0, (c.ids.len() % 65536) as u16),
            sat_add(s.1, ((c.classes.len() + c.states.len()) % 65536) as u16),
            if c.element is Some {
                sat_add(s.2, 1)
            } else {
                s.2
            },
        )
    }
}

/// `u16::saturating_add`.
pub open spec fn sat_add(a: u16, b: u16) -> u16 {
    if a + b > 65535 {
        65535
    } else {
        (a + b) as u16
    }
}

/// Specificity of a selector string; `(0, 0, 0)` when it does not parse.
pub open spec fn specificity_spec(selector: Seq<char>) -> (u16, u16, u16) {
    match parse_selector(selector) {
        Some(cs) => spec_sum(cs),
        None => (0, 0, 0),
    }
}

/// Truncating conversion of a count to `u16`.
fn count_u16(n: usize) -> (r: u16)
    ensures
        r == (n % 65536) as u16,
{
    (n % 65536) as u16
}

/// Specificity `(ids, classes + states, element types)` of a selector.
pub fn specificity(selector: &str) -> (r: (u16, u16, u16))
    ensures
        r == specificity_spec(selector@),
{
    let chars = chars_of(selector);
    let compounds = match parse_selector_chars(chars.as_slice()) {
        Some(c) => c,
        None => return (0, 0, 0),
    };
    let ghost cs = Seq::new(compounds@.len(), |i: int| compounds@[i]@);
    let mut sum: (u16, u16, u16) = (0, 0, 0);
    let mut i: usize = 0;
    while i < compounds.len()
        invariant
            0 <= i <= compounds@.len(),
            cs == Seq::new(compounds@.len(), |k: int| compounds@[k]@),
            sum == spec_sum(cs.take(i as int)),
        decreases compounds@.len() - i,
    {
        let part = &compounds[i];
        assert(cs.take(i + 1).drop_last() =~= cs.take(i as int));
        assert(cs.take(i + 1).last() == part@);
        let ids = count_u16(part.ids.len());
        let a: usize = part.classes.len() % 65536;
        let b: usize = part.states.len() % 65536;
        let cls16: u16 = ((a + b) % 65536) as u16;
        proof {
            vstd::arithmetic::div_mod::lemma_add_mod_noop(
                part.classes@.len() as int,
                part.states@.len() as int,
                65536,
            );
        }
        sum.0 = sum.0.saturating_add(ids);
        sum.1 = sum.1.saturating_add(cls16);
        if part.element.is_some() {
            sum.2 = sum.2.saturating_add(1);
        }
        i += 1;
    }
    assert(cs.take(compounds@.len() as int) =~= cs);
    sum
}

/// Total number of ids over the compounds.
pub open spec fn total_ids(cs: Seq<CompoundSpec>) -> int
    decreases cs.len(),
{
    if cs.len() == 0 {
        0
    } else {
        total_ids(cs.drop_last()) + cs.last().ids.len()
    }
}

/// Total number of classes and states over the compounds.
pub open spec fn total_classes(cs: Seq<CompoundSpec>) -> int
    decreases cs.len(),
{
    if cs.len() == 0 {
        0
    } else {
        total_classes(cs.drop_last()) + cs.last().classes.len() + cs.last().states.len()
    }
}

/// Number of compounds naming an element type.
pub open spec fn total_elements(cs: Seq<CompoundSpec>) -> int
    decreases cs.len(),
{
    if cs.len() == 0 {
        0
    } else {
        total_elements(cs.drop_last()) + if cs.last().element is Some {
            1int
        } else {
            0int
        }
    }
}

/// `n`, capped at `u16::MAX`.
pub open spec fn capped(n: int) -> int {
    if n > 65535 {
        65535
    } else {
        n
    }
}

/// Summing compound counts: each counter is the capped total over all the
/// compounds (when no single compound has 65536 or more of a kind).
pub proof fn lemma_spec_sum_totals(cs: Seq<CompoundSpec>)
    requires
        forall|k: int|
            0 <= k < cs.len() ==> (#[trigger] cs[k]).ids.len() < 65536 && cs[k].classes.len()
                + cs[k].states.len() < 65536,
    ensures
        spec_sum(cs).0 == capped(total_ids(cs)),
        spec_sum(cs).1 == capped(total_classes(cs)),
        spec_sum(cs).2 == capped(total_elements(cs)),
    decreases cs.len(),
{
    if cs.len() > 0 {
        let d = cs.drop_last();
        assert forall|k: int| 0 <= k < d.len() implies (#[trigger] d[k]).ids.len() < 65536 && d[k].classes.len()
            + d[k].states.len() < 65536 by {
            assert(d[k] == cs[k]);
        }
        lemma_spec_sum_totals(d);
        let c = cs[cs.len() - 1];
        assert(c.ids.len() < 65536 && c.classes.len() + c.states.len() < 65536);
        assert(total_ids(d) >= 0) by {
            lemma_totals_nonneg(d);
        }
        assert(total_classes(d) >= 0) by {
            lemma_totals_nonneg(d);
        }
        assert(total_elements(d) >= 0) by {
            lemma_totals_nonneg(d);
        }
    }
}

proof fn lemma_totals_nonneg(cs: Seq<CompoundSpec>)
    ensures
        total_ids(cs) >= 0,
        total_classes(cs) >= 0,
        total_elements(cs) >= 0,
    decreases cs.len(),
{
    if cs.len() > 0 {
        lemma_totals_nonneg(cs.drop_last());
    }
}

/// The specificity of a selector counts every compound: ids, classes with
/// states, and element types are each summed over all its compounds (each
/// sum capped at `u16::MAX`); a selector that does not parse has none.
pub proof fn lemma_specificity_sums(selector: Seq<char>)
    ensures
        parse_selector(selector) matches Some(cs) ==> ((forall|k: int|
            0 <= k < cs.len() ==> (#[trigger] cs[k]).ids.len() < 65536 && cs[k].classes.len()
                + cs[k].states.len() < 65536) ==> specificity_spec(selector) == (
            capped(total_ids(cs)) as u16,
            capped(total_classes(cs)) as u16,
            capped(total_elements(cs)) as u16,
        )),
        parse_selector(selector) is None ==> specificity_spec(selector) == (0u16, 0u16, 0u16),
{
    if let Some(cs) = parse_selector(selector) {
        if forall|k: int|
            0 <= k < cs.len() ==> (#[trigger] cs[k]).ids.len() < 65536 && cs[k].classes.len()
                + cs[k].states.len() < 65536 {
            lemma_spec_sum_totals(cs);
        }
    }
}

/// Specificity adds up over compounds: the counts of a selector made of
/// the compounds of `a` followed by those of `b` are the capped sums of
/// the counts of each.
pub proof fn lemma_spec_sum_concat(a: Seq<CompoundSpec>, b: Seq<CompoundSpec>)
    ensures
        spec_sum(a + b) == (
            sat_add(spec_sum(a).0, spec_sum(b).0),
            sat_add(spec_sum(a).1, spec_sum(b).1),
            sat_add(spec_sum(a).2, spec_sum(b).2),
        ),
    decreases b.len(),
{
    if b.len() == 0 {
        assert(a + b =~= a);
    } else {
        lemma_spec_sum_concat(a, b.drop_last());
        assert((a + b).drop_last() =~= a + b.drop_last());
        assert((a + b).last() == b.last());
    }
}

/// A selector matches an element only when the element itself carries
/// everything its last compound names (element type, ids, classes,
/// states), and each earlier compound is carried by a distinct ancestor,
/// outermost first; and whenever that holds, it matches.
pub proof fn lemma_selector_match_means(selector: Seq<char>, q: QuerySpec)
    ensures
        parse_selector(selector) is None ==> !selector_matches_spec(selector, q),
        parse_selector(selector) matches Some(cs) ==> (selector_matches_spec(selector, q) <==> {
            let last = cs.last();
            &&& (last.element matches Some(e) ==> q.own.element == Some(e))
            &&& (forall|k: int| 0 <= k < last.ids.len() ==> q.own.id == Some(#[trigger] last.ids[k]))
            &&& (forall|k: int| 0 <= k < last.classes.len() ==> q.own.classes.contains(#[trigger] last.classes[k]))
            &&& (forall|k: int| 0 <= k < last.states.len() ==> q.own.states.contains(#[trigger] last.states[k]))
            &&& exists|idx: Seq<int>|
                {
                    &&& idx.len() == cs.len() - 1
                    &&& forall|j: int| 0 <= j < idx.len() ==> 0 <= #[trigger] idx[j] < q.ancestors.len()
                    &&& forall|j: int| 0 <= j < idx.len() ==> compound_ok(cs[j], q.ancestors[#[trigger] idx[j]])
                    &&& forall|a: int, b: int| 0 <= a < b < idx.len() ==> #[trigger] idx[a] < #[trigger] idx[b]
                }
        }),
{
    if let Some(cs) = parse_selector(selector) {
        let d = cs.drop_last();
        if in_context(d, q.ancestors) {
            let idx = choose|idx: Seq<int>| placed(d, q.ancestors, idx);
            assert forall|j: int| 0 <= j < idx.len() implies compound_ok(cs[j], q.ancestors[#[trigger] idx[j]]) by {
                assert(cs[j] == d[j]);
            }
        }
        if exists|idx: Seq<int>|
            {
                &&& idx.len() == cs.len() - 1
                &&& forall|j: int| 0 <= j < idx.len() ==> 0 <= #[trigger] idx[j] < q.ancestors.len()
                &&& forall|j: int| 0 <= j < idx.len() ==> compound_ok(cs[j], q.ancestors[#[trigger] idx[j]])
                &&& forall|a: int, b: int| 0 <= a < b < idx.len() ==> #[trigger] idx[a] < #[trigger] idx[b]
            } {
            let idx = choose|idx: Seq<int>|
                {
                    &&& idx.len() == cs.len() - 1
                    &&& forall|j: int| 0 <= j < idx.len() ==> 0 <= #[trigger] idx[j] < q.ancestors.len()
                    &&& forall|j: int| 0 <= j < idx.len() ==> compound_ok(cs[j], q.ancestors[#[trigger] idx[j]])
                    &&& forall|a: int, b: int| 0 <= a < b < idx.len() ==> #[trigger] idx[a] < #[trigger] idx[b]
                };
            assert forall|j: int| 0 <= j < idx.len() implies compound_ok(d[j], q.ancestors[#[trigger] idx[j]]) by {
                assert(cs[j] == d[j]);
            }
            assert(placed(d, q.ancestors, idx));
        }
    }
}

} // verus!
