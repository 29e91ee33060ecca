//! In-story glossary (codex) of unlockable terms.
//!
//! The catalog maps term ids to definitions; the unlock set holds ids
//! (unknown ids are kept when merging saves).

use vstd::prelude::*;

use crate::gallery::{copy_strings, has_id, insert_id};
use crate::order::{
    chars_lt, lemma_seq_lt_irreflexive, lemma_seq_lt_total, lemma_seq_lt_transitive, seq_lt,
    sorted_strings, strictly_sorted,
};
use crate::strings::{
    chars_eq, chars_of, contains_chars, contains_seq, lowercase, owned, string_of, strs_view,
    to_lowercase, trim, trim_chars,
};

verus! {

/// Glossary-related errors.
#[derive(Debug, Clone, PartialEq, Eq)]
pub enum GlossaryError {
    /// Entry id is unknown to the catalog.
    NotFound(String),
}

/// Abstract glossary term.
#[verifier::ext_equal]
pub struct TermSpec {
    /// Stable id.
    pub id: Seq<char>,
    /// Display title.
    pub title: Seq<char>,
    /// Body text.
    pub body: Seq<char>,
    /// Category tag.
    pub category: Seq<char>,
    /// Search aliases.
    pub aliases: Seq<Seq<char>>,
    /// Starts unlocked.
    pub unlocked_by_default: bool,
}

/// One glossary term definition.
#[derive(Debug, Clone)]
pub struct GlossaryTerm {
    /// Stable id.
    pub id: String,
    /// Display title.
    pub title: String,
    /// Body text (markdown or plain).
    pub body: String,
    /// Optional category tag.
    pub category: String,
    /// Optional search aliases.
    pub aliases: Vec<String>,
    /// Whether unlocked by default.
    pub unlocked_by_default: bool,
}

impl View for GlossaryTerm {
    type V = TermSpec;

    open spec fn view(&self) -> TermSpec {
        TermSpec {
            id: self.id@,
            title: self.title@,
            body: self.body@,
            category: self.category@,
            aliases: strs_view(self.aliases@),
            unlocked_by_default: self.unlocked_by_default,
        }
    }
}

impl GlossaryTerm {
    /// Create a term (no category, no aliases, locked).
    pub fn new(id: &str, title: &str, body: &str) -> (r: Self)
        ensures
            r@ == (TermSpec {
                id: id@,
                title: title@,
                body: body@,
                category: seq![],
                aliases: seq![],
                unlocked_by_default: false,
            }),
    {
        let r = GlossaryTerm {
            id: owned(id),
            title: owned(title),
            body: owned(body),
            category: String::new(),
            aliases: Vec::new(),
            unlocked_by_default: false,
        };
        assert(strs_view(r.aliases@) =~= seq![]);
        r
    }

    /// Builder: category.
    pub fn with_category(self, category: &str) -> (r: Self)
        ensures
            r@ == (TermSpec { category: category@, ..self@ }),
    {
        let mut s = self;
        s.category = owned(category);
        s
    }

    /// Builder: aliases (replacing any previous ones).
    pub fn with_aliases(self, aliases: &[&str]) -> (r: Self)
        ensures
            r@ == (TermSpec { aliases: Seq::new(aliases@.len(), |i: int| aliases@[i]@), ..self@ }),
    {
        let mut v: Vec<String> = Vec::new();
        let mut k: usize = 0;
        while k < aliases.len()
            invariant
                0 <= k <= aliases@.len(),
                v@.len() == k,
                forall|i: int| 0 <= i < k ==> #[trigger] v@[i]@ == aliases@[i]@,
            decreases aliases@.len() - k,
        {
            v.push(owned(aliases[k]));
            k += 1;
        }
        let mut s = self;
        s.aliases = v;
        assert(strs_view(s.aliases@) =~= Seq::new(aliases@.len(), |i: int| aliases@[i]@));
        s
    }

    /// Builder: default unlocked.
    pub fn default_unlocked(self) -> (r: Self)
        ensures
            r@ == (TermSpec { unlocked_by_default: true, ..self@ }),
    {
        let mut s = self;
        s.unlocked_by_default = true;
        s
    }
}

/// Ids of a sequence of entries.
pub open spec fn term_ids(es: Seq<GlossaryTerm>) -> Seq<Seq<char>> {
    Seq::new(es.len(), |i: int| es[i].id@)
}

/// Catalog (id to definition) held by a sequence of entries with distinct ids.
pub open spec fn terms_of(es: Seq<GlossaryTerm>) -> Map<Seq<char>, TermSpec> {
    Map::new(
        |k: Seq<char>| term_ids(es).contains(k),
        |k: Seq<char>| es[choose|i: int| 0 <= i < es.len() && es[i].id@ == k]@,
    )
}

/// Glossary order: by title, then by id.
pub open spec fn glossary_before(a: TermSpec, b: TermSpec) -> bool {
    seq_lt(a.title, b.title) || (a.title == b.title && seq_lt(a.id, b.id))
}

/// `out` lists exactly the catalog entries whose ids are in `sel`, each
/// once, in gallery order.
pub open spec fn is_listing(
    out: Seq<TermSpec>,
    cat: Map<Seq<char>, TermSpec>,
    sel: Set<Seq<char>>,
) -> bool {
    &&& forall|i: int|
        0 <= i < out.len() ==> sel.contains(#[trigger] out[i].id) && cat.contains_key(out[i].id)
            && cat[out[i].id] == out[i]
    &&& forall|k: Seq<char>|
        sel.contains(k) && #[trigger] cat.contains_key(k) ==> exists|i: int|
            0 <= i < out.len() && (#[trigger] out[i]).id == k
    &&& forall|i: int, j: int|
        0 <= i < j < out.len() ==> glossary_before(#[trigger] out[i], #[trigger] out[j])
}

/// Entry `j` is in the catalog under its own id.
pub proof fn lemma_terms_at(es: Seq<GlossaryTerm>, j: int)
    requires
        term_ids(es).no_duplicates(),
        0 <= j < es.len(),
    ensures
        terms_of(es).contains_key(es[j].id@),
        terms_of(es)[es[j].id@] == es[j]@,
{
    assert(term_ids(es)[j] == es[j].id@);
    let i = choose|i: int| 0 <= i < es.len() && es[i].id@ == es[j].id@;
    assert(term_ids(es)[i] == term_ids(es)[j]);
}

/// Every catalog key is the id of some entry.
pub proof fn lemma_terms_key(es: Seq<GlossaryTerm>, k: Seq<char>)
    requires
        terms_of(es).contains_key(k),
    ensures
        exists|j: int| 0 <= j < es.len() && es[j].id@ == k,
{
    let j = choose|j: int| 0 <= j < term_ids(es).len() && term_ids(es)[j] == k;
    assert(es[j].id@ == k);
}

/// Replacing entry `i` by one with the same id updates the catalog at that id.
proof fn lemma_terms_update(es: Seq<GlossaryTerm>, i: int, e: GlossaryTerm)
    requires
        term_ids(es).no_duplicates(),
        0 <= i < es.len(),
        es[i].id@ == e.id@,
    ensures
        term_ids(es.update(i, e)).no_duplicates(),
        terms_of(es.update(i, e)) == terms_of(es).insert(e.id@, e@),
{
    let es2 = es.update(i, e);
    assert(term_ids(es2) =~= term_ids(es));
    let c1 = terms_of(es2);
    let c2 = terms_of(es).insert(e.id@, e@);
    assert forall|k: Seq<char>| #[trigger] c1.contains_key(k) implies c2.contains_key(k) && c1[k]
        == c2[k] by {
        lemma_terms_key(es2, k);
        let j = choose|j: int| 0 <= j < es2.len() && es2[j].id@ == k;
        if j == i {
            assert(k == e.id@);
        } else {
            assert(es2[j] == es[j]);
            assert(term_ids(es)[j] != term_ids(es)[i]);
            assert(k != e.id@);
            lemma_terms_at(es, j);
        }
    }
    assert forall|k: Seq<char>| #[trigger] c2.contains_key(k) implies c1.contains_key(k) by {
        if k != e.id@ {
            lemma_terms_key(es, k);
            let j = choose|j: int| 0 <= j < es.len() && es[j].id@ == k;
            assert(term_ids(es2)[j] == k);
        } else {
            assert(term_ids(es2)[i] == k);
        }
    }
    assert(c1 =~= c2);
}

/// Appending an entry with a new id adds it to the catalog.
proof fn lemma_terms_push(es: Seq<GlossaryTerm>, e: GlossaryTerm)
    requires
        term_ids(es).no_duplicates(),
        !term_ids(es).contains(e.id@),
    ensures
        term_ids(es.push(e)).no_duplicates(),
        terms_of(es.push(e)) == terms_of(es).insert(e.id@, e@),
{
    let es2 = es.push(e);
    assert(term_ids(es2) =~= term_ids(es).push(e.id@));
    assert forall|a: int, b: int|
        0 <= a < term_ids(es2).len() && 0 <= b < term_ids(es2).len() && a != b implies term_ids(
        es2,
    )[a] != term_ids(es2)[b] by {
        if a == es.len() {
            assert(term_ids(es)[b] == term_ids(es2)[b]);
        } else if b == es.len() {
            assert(term_ids(es)[a] == term_ids(es2)[a]);
        }
    }
    let c1 = terms_of(es2);
    let c2 = terms_of(es).insert(e.id@, e@);
    assert forall|k: Seq<char>| #[trigger] c1.contains_key(k) implies c2.contains_key(k) && c1[k]
        == c2[k] by {
        lemma_terms_key(es2, k);
        let j = choose|j: int| 0 <= j < es2.len() && es2[j].id@ == k;
        if j == es.len() {
            lemma_terms_at(es2, j);
        } else {
            lemma_terms_at(es2, j);
            lemma_terms_at(es, j);
        }
    }
    assert forall|k: Seq<char>| #[trigger] c2.contains_key(k) implies c1.contains_key(k) by {
        if k != e.id@ {
            lemma_terms_key(es, k);
            let j = choose|j: int| 0 <= j < es.len() && es[j].id@ == k;
            assert(term_ids(es2)[j] == k);
        } else {
            assert(term_ids(es2)[es.len() as int] == k);
        }
    }
    assert(c1 =~= c2);
}

/// Runtime gallery catalog and unlock state.
#[derive(Debug, Clone)]
pub struct Glossary {
    terms: Vec<GlossaryTerm>,
    unlocked: Vec<String>,
}

/// Insertion of `x` into a list of indices sorted by gallery order.
fn sorted_insert(es: &Vec<GlossaryTerm>, out: &mut Vec<usize>, x: usize)
    requires
        term_ids(es@).no_duplicates(),
        x < es@.len(),
        forall|i: int| 0 <= i < old(out)@.len() ==> #[trigger] old(out)@[i] < es@.len(),
        !old(out)@.contains(x),
        forall|i: int, j: int|
            0 <= i < j < old(out)@.len() ==> glossary_before(
                es@[#[trigger] old(out)@[i] as int]@,
                es@[#[trigger] old(out)@[j] as int]@,
            ),
    ensures
        final(out)@.to_set() == old(out)@.to_set().insert(x),
        final(out)@.len() == old(out)@.len() + 1,
        forall|i: int| 0 <= i < final(out)@.len() ==> #[trigger] final(out)@[i] < es@.len(),
        forall|i: int, j: int|
            0 <= i < j < final(out)@.len() ==> glossary_before(
                es@[#[trigger] final(out)@[i] as int]@,
                es@[#[trigger] final(out)@[j] as int]@,
            ),
{
    let kx = chars_of(es[x].id.as_str());
    let tx = chars_of(es[x].title.as_str());
    let ghost ex = es@[x as int]@;
    let mut p: usize = 0;
    let mut done = false;
    while p < out.len() && !done
        invariant
            0 <= p <= out@.len(),
            x < es@.len(),
            ex == es@[x as int]@,
            kx@ == ex.id,
            tx@ == ex.title,
            forall|i: int| 0 <= i < out@.len() ==> #[trigger] out@[i] < es@.len(),
            done ==> p < out@.len() && glossary_before(ex, es@[out@[p as int] as int]@),
            forall|i: int| 0 <= i < p ==> !glossary_before(ex, es@[#[trigger] out@[i] as int]@),
        decreases out@.len() - p + if done { 0int } else { 1int },
    {
        let y = out[p];
        let ky = chars_of(es[y].id.as_str());
        let ty = chars_of(es[y].title.as_str());
        let before = chars_lt(tx.as_slice(), ty.as_slice()) || (chars_eq(
            tx.as_slice(),
            ty.as_slice(),
        ) && chars_lt(kx.as_slice(), ky.as_slice()));
        if before {
            done = true;
        } else {
            p += 1;
        }
    }
    let ghost o = out@;
    proof {
        assert forall|i: int| 0 <= i < p implies glossary_before(
            es@[#[trigger] o[i] as int]@,
            ex,
        ) by {
            let y = o[i];
            assert(o.contains(o[i]));
            assert(y != x);
            assert(term_ids(es@)[y as int] != term_ids(es@)[x as int]);
            lemma_glossary_total(ex, es@[y as int]@);
        }
        assert forall|j: int| p <= j < o.len() implies glossary_before(
            ex,
            es@[#[trigger] o[j] as int]@,
        ) by {
            assert(done);
            if j > p {
                lemma_glossary_before_trans(ex, es@[o[p as int] as int]@, es@[o[j] as int]@);
            }
        }
    }
    out.insert(p, x);
    proof {
        let n = out@;
        assert forall|i: int, j: int| 0 <= i < j < n.len() implies glossary_before(
            es@[#[trigger] n[i] as int]@,
            es@[#[trigger] n[j] as int]@,
        ) by {
            if j < p {
                assert(n[i] == o[i] && n[j] == o[j]);
            } else if j == p {
                assert(n[i] == o[i]);
            } else if i == p {
                assert(n[j] == o[j - 1]);
            } else if i < p {
                assert(n[i] == o[i] && n[j] == o[j - 1]);
                lemma_glossary_before_trans(es@[o[i] as int]@, ex, es@[o[j - 1] as int]@);
            } else {
                assert(n[i] == o[i - 1] && n[j] == o[j - 1]);
            }
        }
        assert(n.to_set() =~= o.to_set().insert(x)) by {
            assert forall|v: usize| n.to_set().contains(v) implies o.to_set().insert(x).contains(v) by {
                let k = choose|k: int| 0 <= k < n.len() && n[k] == v;
                if k < p {
                    assert(o[k] == v);
                } else if k > p {
                    assert(o[k - 1] == v);
                }
            }
            assert forall|v: usize| o.to_set().insert(x).contains(v) implies n.to_set().contains(v) by {
                if v == x {
                    assert(n[p as int] == x);
                } else {
                    let k = choose|k: int| 0 <= k < o.len() && o[k] == v;
                    if k < p {
                        assert(n[k] == v);
                    } else {
                        assert(n[k + 1] == v);
                    }
                }
            }
        }
    }
}

/// Glossary order is transitive.
pub proof fn lemma_glossary_before_trans(a: TermSpec, b: TermSpec, c: TermSpec)
    requires
        glossary_before(a, b),
        glossary_before(b, c),
    ensures
        glossary_before(a, c),
{
    if seq_lt(a.title, b.title) && seq_lt(b.title, c.title) {
        lemma_seq_lt_transitive(a.title, b.title, c.title);
    } else if a.title == b.title && b.title == c.title {
        lemma_seq_lt_transitive(a.id, b.id, c.id);
    }
}

/// Terms with different ids are ordered one way or the other.
pub proof fn lemma_glossary_total(a: TermSpec, b: TermSpec)
    requires
        a.id != b.id,
    ensures
        glossary_before(a, b) || glossary_before(b, a),
{
    if a.title == b.title {
        lemma_seq_lt_total(a.id, b.id);
    } else {
        lemma_seq_lt_total(a.title, b.title);
    }
}

/// Sorts the indices `idx` (distinct, in range) by gallery order.
fn sort_by_title(es: &Vec<GlossaryTerm>, idx: &Vec<usize>) -> (out: Vec<usize>)
    requires
        term_ids(es@).no_duplicates(),
        idx@.no_duplicates(),
        forall|i: int| 0 <= i < idx@.len() ==> #[trigger] idx@[i] < es@.len(),
    ensures
        out@.to_set() == idx@.to_set(),
        out@.no_duplicates(),
        forall|i: int| 0 <= i < out@.len() ==> #[trigger] out@[i] < es@.len(),
        forall|i: int, j: int|
            0 <= i < j < out@.len() ==> glossary_before(
                es@[#[trigger] out@[i] as int]@,
                es@[#[trigger] out@[j] as int]@,
            ),
{
    let mut out: Vec<usize> = Vec::new();
    let mut k: usize = 0;
    while k < idx.len()
        invariant
            term_ids(es@).no_duplicates(),
            idx@.no_duplicates(),
            forall|i: int| 0 <= i < idx@.len() ==> #[trigger] idx@[i] < es@.len(),
            0 <= k <= idx@.len(),
            out@.to_set() == idx@.take(k as int).to_set(),
            out@.len() == k,
            forall|i: int| 0 <= i < out@.len() ==> #[trigger] out@[i] < es@.len(),
            forall|i: int, j: int|
                0 <= i < j < out@.len() ==> glossary_before(
                    es@[#[trigger] out@[i] as int]@,
                    es@[#[trigger] out@[j] as int]@,
                ),
        decreases idx@.len() - k,
    {
        let x = idx[k];
        proof {
            if out@.contains(x) {
                assert(out@.to_set().contains(x));
                let m = choose|m: int| 0 <= m < k && idx@.take(k as int)[m] == x;
                assert(idx@[m] == idx@[k as int]);
            }
        }
        sorted_insert(es, &mut out, x);
        proof {
            assert(idx@.take(k + 1) =~= idx@.take(k as int).push(x));
            idx@.take(k as int).lemma_push_to_set_commute(x);
        }
        k += 1;
    }
    proof {
        assert(idx@.take(k as int) =~= idx@);
        lemma_sorted_distinct(es@, out@);
    }
    out
}

/// Indices sorted strictly by gallery order are distinct.
proof fn lemma_sorted_distinct(es: Seq<GlossaryTerm>, out: Seq<usize>)
    requires
        forall|i: int| 0 <= i < out.len() ==> #[trigger] out[i] < es.len(),
        forall|i: int, j: int|
            0 <= i < j < out.len() ==> glossary_before(
                es[#[trigger] out[i] as int]@,
                es[#[trigger] out[j] as int]@,
            ),
    ensures
        out.no_duplicates(),
{
    assert forall|i: int, j: int|
        0 <= i < out.len() && 0 <= j < out.len() && i != j implies out[i] != out[j] by {
        if out[i] == out[j] {
            let a = es[out[i] as int]@;
            lemma_seq_lt_irreflexive(a.id);
            lemma_seq_lt_irreflexive(a.title);
            if i < j {
                assert(glossary_before(es[out[i] as int]@, es[out[j] as int]@));
            } else {
                assert(glossary_before(es[out[j] as int]@, es[out[i] as int]@));
            }
        }
    }
}

impl Glossary {
    /// Entries have distinct ids; the unlock list has no duplicates.
    pub closed spec fn wf(&self) -> bool {
        term_ids(self.terms@).no_duplicates() && strs_view(self.unlocked@).no_duplicates()
    }

    /// Known entries by id.
    pub closed spec fn terms_map(&self) -> Map<Seq<char>, TermSpec> {
        terms_of(self.terms@)
    }

    /// Unlocked ids (possibly including ids unknown to the catalog).
    pub closed spec fn unlocked_ids(&self) -> Set<Seq<char>> {
        strs_view(self.unlocked@).to_set()
    }

    /// Empty glossary.
    pub fn new() -> (g: Self)
        ensures
            g.wf(),
            g.terms_map() == Map::<Seq<char>, TermSpec>::empty(),
            g.unlocked_ids() == Set::<Seq<char>>::empty(),
    {
        let g = Glossary { terms: Vec::new(), unlocked: Vec::new() };
        assert(g.terms_map() =~= Map::<Seq<char>, TermSpec>::empty());
        assert(g.unlocked_ids() =~= Set::<Seq<char>>::empty());
        g
    }

    /// Index of the entry with id `id`.
    fn find(&self, id: &[char]) -> (r: Option<usize>)
        ensures
            match r {
                Some(i) => i < self.terms@.len() && self.terms@[i as int].id@ == id@,
                None => forall|i: int|
                    0 <= i < self.terms@.len() ==> self.terms@[i].id@ != id@,
            },
    {
        let mut i: usize = 0;
        while i < self.terms.len()
            invariant
                0 <= i <= self.terms@.len(),
                forall|k: int| 0 <= k < i ==> self.terms@[k].id@ != id@,
            decreases self.terms@.len() - i,
        {
            let c = chars_of(self.terms[i].id.as_str());
            if chars_eq(c.as_slice(), id) {
                return Some(i);
            }
            i += 1;
        }
        None
    }

    /// Register an entry (replacing one with the same id); it is unlocked
    /// at once when `unlocked_by_default`.
    pub fn register(&mut self, entry: GlossaryTerm)
        requires
            old(self).wf(),
        ensures
            final(self).wf(),
            final(self).terms_map() == old(self).terms_map().insert(entry.id@, entry@),
            final(self).unlocked_ids() == if entry.unlocked_by_default {
                old(self).unlocked_ids().insert(entry.id@)
            } else {
                old(self).unlocked_ids()
            },
    {
        let id = chars_of(entry.id.as_str());
        let auto = entry.unlocked_by_default;
        let ghost e = entry;
        match self.find(id.as_slice()) {
            Some(i) => {
                proof {
                    lemma_terms_update(self.terms@, i as int, e);
                }
                self.terms.set(i, entry);
            },
            None => {
                proof {
                    if term_ids(self.terms@).contains(e.id@) {
                        let k = choose|k: int|
                            0 <= k < term_ids(self.terms@).len() && term_ids(self.terms@)[k]
                                == e.id@;
                        assert(self.terms@[k].id@ == e.id@);
                    }
                    lemma_terms_push(self.terms@, e);
                }
                self.terms.push(entry);
            },
        }
        if auto {
            let s = crate::strings::string_of(id.as_slice());
            insert_id(&mut self.unlocked, s.as_str());
        }
    }

    /// Register many entries, in order.
    pub fn register_all(&mut self, entries: Vec<GlossaryTerm>)
        requires
            old(self).wf(),
        ensures
            final(self).wf(),
            final(self).terms_map() == terms_after(old(self).terms_map(), entries@),
            final(self).unlocked_ids() == unlocked_after(old(self).unlocked_ids(), entries@),
    {
        let mut i: usize = 0;
        let ghost c0 = self.terms_map();
        let ghost u0 = self.unlocked_ids();
        while i < entries.len()
            invariant
                0 <= i <= entries@.len(),
                self.wf(),
                self.terms_map() == terms_after(c0, entries@.take(i as int)),
                self.unlocked_ids() == unlocked_after(u0, entries@.take(i as int)),
            decreases entries@.len() - i,
        {
            assert(entries@.take(i + 1).drop_last() =~= entries@.take(i as int));
            let e = entries[i].clone_term();
            self.register(e);
            i += 1;
        }
        assert(entries@.take(entries@.len() as int) =~= entries@);
    }

    /// Unlock by id: `Ok(true)` if newly unlocked, `Ok(false)` if it already
    /// was, `NotFound` (and no change) for an id unknown to the catalog.
    pub fn unlock(&mut self, id: &str) -> (r: Result<bool, GlossaryError>)
        requires
            old(self).wf(),
        ensures
            final(self).wf(),
            final(self).terms_map() == old(self).terms_map(),
            old(self).terms_map().contains_key(id@) ==> r == Ok::<bool, GlossaryError>(
                !old(self).unlocked_ids().contains(id@),
            ) && final(self).unlocked_ids() == old(self).unlocked_ids().insert(id@),
            !old(self).terms_map().contains_key(id@) ==> (r matches Err(GlossaryError::NotFound(m))
                && m@ == id@) && final(self).unlocked_ids() == old(self).unlocked_ids(),
    {
        let c = chars_of(id);
        match self.find(c.as_slice()) {
            None => {
                proof {
                    if self.terms_map().contains_key(id@) {
                        lemma_terms_key(self.terms@, id@);
                    }
                }
                Err(GlossaryError::NotFound(owned(id)))
            },
            Some(i) => {
                proof {
                    lemma_terms_at(self.terms@, i as int);
                    assert(strs_view(self.unlocked@).to_set().contains(id@) == strs_view(
                        self.unlocked@,
                    ).contains(id@));
                }
                let added = insert_id(&mut self.unlocked, id);
                Ok(added)
            },
        }
    }

    /// Unlock if the id is known; unknown ids are ignored. Returns whether
    /// the id was newly unlocked.
    pub fn unlock_if_known(&mut self, id: &str) -> (r: bool)
        requires
            old(self).wf(),
        ensures
            final(self).wf(),
            final(self).terms_map() == old(self).terms_map(),
            r == (old(self).terms_map().contains_key(id@) && !old(self).unlocked_ids().contains(id@)),
            final(self).unlocked_ids() == if old(self).terms_map().contains_key(id@) {
                old(self).unlocked_ids().insert(id@)
            } else {
                old(self).unlocked_ids()
            },
    {
        match self.unlock(id) {
            Ok(b) => b,
            Err(_) => false,
        }
    }

    /// Whether the id is unlocked.
    pub fn is_unlocked(&self, id: &str) -> (r: bool)
        requires
            self.wf(),
        ensures
            r == self.unlocked_ids().contains(id@),
    {
        let c = chars_of(id);
        let r = has_id(&self.unlocked, c.as_slice());
        assert(strs_view(self.unlocked@).to_set().contains(id@) == strs_view(
            self.unlocked@,
        ).contains(id@));
        r
    }

    /// Whether the id exists in the catalog.
    pub fn contains(&self, id: &str) -> (r: bool)
        requires
            self.wf(),
        ensures
            r == self.terms_map().contains_key(id@),
    {
        let c = chars_of(id);
        match self.find(c.as_slice()) {
            Some(i) => {
                proof {
                    lemma_terms_at(self.terms@, i as int);
                }
                true
            },
            None => {
                proof {
                    if self.terms_map().contains_key(id@) {
                        lemma_terms_key(self.terms@, id@);
                    }
                }
                false
            },
        }
    }

    /// Lookup a term regardless of unlock state (authoring / debug).
    pub fn get_raw(&self, id: &str) -> (r: Option<&GlossaryTerm>)
        requires
            self.wf(),
        ensures
            match r {
                Some(e) => self.terms_map().contains_key(id@) && self.terms_map()[id@] == e@,
                None => !self.terms_map().contains_key(id@),
            },
    {
        let c = chars_of(id);
        match self.find(c.as_slice()) {
            Some(i) => {
                proof {
                    lemma_terms_at(self.terms@, i as int);
                }
                Some(&self.terms[i])
            },
            None => {
                proof {
                    if self.terms_map().contains_key(id@) {
                        lemma_terms_key(self.terms@, id@);
                    }
                }
                None
            },
        }
    }

    /// Indices of the entries whose ids are unlocked.
    fn unlocked_indices(&self) -> (idx: Vec<usize>)
        requires
            self.wf(),
        ensures
            idx@.no_duplicates(),
            forall|i: int| 0 <= i < idx@.len() ==> #[trigger] idx@[i] < self.terms@.len(),
            forall|j: int|
                0 <= j < self.terms@.len() ==> (idx@.contains(j as usize)
                    <==> self.unlocked_ids().contains(#[trigger] self.terms@[j].id@)),
    {
        let mut idx: Vec<usize> = Vec::new();
        let mut j: usize = 0;
        while j < self.terms.len()
            invariant
                self.wf(),
                0 <= j <= self.terms@.len(),
                idx@.no_duplicates(),
                forall|i: int| 0 <= i < idx@.len() ==> #[trigger] idx@[i] < j,
                forall|m: int|
                    0 <= m < j ==> (idx@.contains(m as usize) <==> self.unlocked_ids().contains(
                        #[trigger] self.terms@[m].id@,
                    )),
            decreases self.terms@.len() - j,
        {
            let c = chars_of(self.terms[j].id.as_str());
            let unl = has_id(&self.unlocked, c.as_slice());
            proof {
                assert(strs_view(self.unlocked@).to_set().contains(c@) == strs_view(
                    self.unlocked@,
                ).contains(c@));
            }
            let ghost before = idx@;
            if unl {
                idx.push(j);
                proof {
                    assert forall|a: int, b: int|
                        0 <= a < idx@.len() && 0 <= b < idx@.len() && a != b implies idx@[a]
                        != idx@[b] by {
                        if a == before.len() {
                            assert(before[b] < j);
                        } else if b == before.len() {
                            assert(before[a] < j);
                        }
                    }
                }
            }
            proof {
                assert forall|m: int| 0 <= m < j + 1 implies (idx@.contains(m as usize)
                    <==> self.unlocked_ids().contains(#[trigger] self.terms@[m].id@)) by {
                    if m < j {
                        if before.contains(m as usize) {
                            let q = choose|q: int| 0 <= q < before.len() && before[q] == m as usize;
                            assert(idx@[q] == m as usize);
                        }
                        if idx@.contains(m as usize) {
                            let q = choose|q: int| 0 <= q < idx@.len() && idx@[q] == m as usize;
                            if q < before.len() {
                                assert(before[q] == m as usize);
                            }
                        }
                    } else {
                        if unl {
                            assert(idx@[before.len() as int] == j);
                        } else {
                            if idx@.contains(j) {
                                let q = choose|q: int| 0 <= q < idx@.len() && idx@[q] == j;
                                assert(before[q] < j);
                            }
                        }
                    }
                }
            }
            j += 1;
        }
        idx
    }

    /// Unlocked terms of the catalog, sorted by title then id.
    pub fn list_unlocked(&self) -> (r: Vec<&GlossaryTerm>)
        requires
            self.wf(),
        ensures
            is_listing(
                Seq::new(r@.len(), |i: int| r@[i]@),
                self.terms_map(),
                self.unlocked_ids(),
            ),
    {
        let idx = self.unlocked_indices();
        let order = sort_by_title(&self.terms, &idx);
        let r = self.refs_of(&order);
        proof {
            assert(self.terms@.len() == self.terms.len());
            self.lemma_listing(order@, idx@, self.unlocked_ids());
            assert(Seq::new(r@.len(), |i: int| r@[i]@) =~= Seq::new(
                order@.len(),
                |i: int| self.terms@[order@[i] as int]@,
            ));
        }
        r
    }

    /// References to the entries at the given indices, in order.
    fn refs_of(&self, order: &Vec<usize>) -> (r: Vec<&GlossaryTerm>)
        requires
            forall|i: int| 0 <= i < order@.len() ==> #[trigger] order@[i] < self.terms@.len(),
        ensures
            r@.len() == order@.len(),
            forall|i: int| 0 <= i < r@.len() ==> *#[trigger] r@[i] == self.terms@[order@[i] as int],
    {
        let mut r: Vec<&GlossaryTerm> = Vec::new();
        let mut k: usize = 0;
        while k < order.len()
            invariant
                0 <= k <= order@.len(),
                forall|i: int| 0 <= i < order@.len() ==> #[trigger] order@[i] < self.terms@.len(),
                r@.len() == k,
                forall|i: int| 0 <= i < k ==> *#[trigger] r@[i] == self.terms@[order@[i] as int],
            decreases order@.len() - k,
        {
            r.push(&self.terms[order[k]]);
            k += 1;
        }
        r
    }

    /// A sorted arrangement of exactly the indices of the entries whose ids
    /// are in `sel` lists those entries.
    proof fn lemma_listing(&self, order: Seq<usize>, idx: Seq<usize>, sel: Set<Seq<char>>)
        requires
            self.wf(),
            self.terms@.len() <= usize::MAX,
            order.to_set() == idx.to_set(),
            forall|i: int| 0 <= i < order.len() ==> #[trigger] order[i] < self.terms@.len(),
            forall|j: int|
                0 <= j < self.terms@.len() ==> (idx.contains(j as usize) <==> sel.contains(
                    #[trigger] self.terms@[j].id@,
                )),
            forall|i: int, j: int|
                0 <= i < j < order.len() ==> glossary_before(
                    self.terms@[#[trigger] order[i] as int]@,
                    self.terms@[#[trigger] order[j] as int]@,
                ),
        ensures
            is_listing(
                Seq::new(order.len(), |i: int| self.terms@[order[i] as int]@),
                self.terms_map(),
                sel,
            ),
    {
        let es = self.terms@;
        let out = Seq::new(order.len(), |i: int| es[order[i] as int]@);
        assert forall|i: int| 0 <= i < out.len() implies sel.contains(#[trigger] out[i].id)
            && self.terms_map().contains_key(out[i].id) && self.terms_map()[out[i].id] == out[i] by {
            lemma_terms_at(es, order[i] as int);
            assert(order.to_set().contains(order[i]));
            assert(idx.to_set().contains(order[i]));
        }
        assert forall|k: Seq<char>| sel.contains(k) && #[trigger] self.terms_map().contains_key(
            k,
        ) implies exists|i: int| 0 <= i < out.len() && (#[trigger] out[i]).id == k by {
            lemma_terms_key(es, k);
            let j = choose|j: int| 0 <= j < es.len() && es[j].id@ == k;
            assert(idx.contains(j as usize));
            assert(idx.to_set().contains(j as usize));
            assert(order.to_set().contains(j as usize));
            let i = choose|i: int| 0 <= i < order.len() && order[i] == j as usize;
            assert(out[i].id == k);
        }
    }

    /// Keeps the listed terms whose flag is set, preserving order.
    fn select<'a>(all: &Vec<&'a GlossaryTerm>, keep: &Vec<bool>) -> (r: (Vec<&'a GlossaryTerm>, Ghost<Seq<int>>))
        requires
            keep@.len() == all@.len(),
        ensures
            r.1@.len() == r.0@.len(),
            forall|i: int| 0 <= i < r.1@.len() ==> 0 <= #[trigger] r.1@[i] < all@.len(),
            forall|i: int| 0 <= i < r.1@.len() ==> *#[trigger] r.0@[i] == *all@[r.1@[i]],
            forall|i: int| 0 <= i < r.1@.len() ==> keep@[#[trigger] r.1@[i]],
            forall|a: int, b: int|
                0 <= a < b < r.1@.len() ==> #[trigger] r.1@[a] < #[trigger] r.1@[b],
            forall|m: int|
                0 <= m < all@.len() && #[trigger] keep@[m] ==> exists|i: int|
                    0 <= i < r.1@.len() && r.1@[i] == m,
    {
        let mut r: Vec<&'a GlossaryTerm> = Vec::new();
        let ghost mut pos: Seq<int> = seq![];
        let mut k: usize = 0;
        while k < all.len()
            invariant
                keep@.len() == all@.len(),
                0 <= k <= all@.len(),
                pos.len() == r@.len(),
                forall|i: int| 0 <= i < pos.len() ==> 0 <= #[trigger] pos[i] < k,
                forall|i: int| 0 <= i < pos.len() ==> *#[trigger] r@[i] == *all@[pos[i]],
                forall|i: int| 0 <= i < pos.len() ==> keep@[#[trigger] pos[i]],
                forall|a: int, b: int| 0 <= a < b < pos.len() ==> #[trigger] pos[a] < #[trigger] pos[b],
                forall|m: int|
                    0 <= m < k && #[trigger] keep@[m] ==> exists|i: int|
                        0 <= i < pos.len() && pos[i] == m,
            decreases all@.len() - k,
        {
            let ghost pos0 = pos;
            if keep[k] {
                r.push(all[k]);
                proof {
                    pos = pos.push(k as int);
                }
            }
            proof {
                assert forall|m: int| 0 <= m < k + 1 && #[trigger] keep@[m] implies exists|i: int|
                    0 <= i < pos.len() && pos[i] == m by {
                    if m == k {
                        assert(pos[pos.len() - 1] == k as int);
                    } else {
                        let i0 = choose|i: int| 0 <= i < pos0.len() && pos0[i] == m;
                        assert(pos[i0] == m);
                    }
                }
            }
            k += 1;
        }
        (r, Ghost(pos))
    }

    /// A flagged subsequence of a listing for `sel` is a listing for the
    /// flagged part of `sel`.
    proof fn lemma_select_listing(
        &self,
        src: Seq<TermSpec>,
        out: Seq<TermSpec>,
        pos: Seq<int>,
        keep: Seq<bool>,
        sel: Set<Seq<char>>,
        sel2: Set<Seq<char>>,
    )
        requires
            is_listing(src, self.terms_map(), sel),
            keep.len() == src.len(),
            pos.len() == out.len(),
            forall|i: int| 0 <= i < pos.len() ==> 0 <= #[trigger] pos[i] < src.len(),
            forall|i: int| 0 <= i < pos.len() ==> #[trigger] out[i] == src[pos[i]],
            forall|i: int| 0 <= i < pos.len() ==> keep[#[trigger] pos[i]],
            forall|a: int, b: int| 0 <= a < b < pos.len() ==> #[trigger] pos[a] < #[trigger] pos[b],
            forall|m: int|
                0 <= m < src.len() && #[trigger] keep[m] ==> exists|i: int|
                    0 <= i < pos.len() && pos[i] == m,
            forall|m: int| 0 <= m < src.len() ==> (#[trigger] keep[m] <==> sel2.contains(src[m].id)),
            forall|k: Seq<char>| #[trigger] sel2.contains(k) ==> sel.contains(k),
        ensures
            is_listing(out, self.terms_map(), sel2),
    {
        assert forall|i: int| 0 <= i < out.len() implies sel2.contains(#[trigger] out[i].id)
            && self.terms_map().contains_key(out[i].id) && self.terms_map()[out[i].id] == out[i] by {
            assert(out[i] == src[pos[i]]);
            assert(keep[pos[i]]);
        }
        assert forall|key: Seq<char>| sel2.contains(key) && #[trigger] self.terms_map().contains_key(
            key,
        ) implies exists|i: int| 0 <= i < out.len() && (#[trigger] out[i]).id == key by {
            let m = choose|m: int| 0 <= m < src.len() && (#[trigger] src[m]).id == key;
            assert(keep[m]);
            let i = choose|i: int| 0 <= i < pos.len() && pos[i] == m;
            assert(out[i] == src[m]);
        }
        assert forall|i: int, j: int| 0 <= i < j < out.len() implies glossary_before(
            #[trigger] out[i],
            #[trigger] out[j],
        ) by {
            assert(out[i] == src[pos[i]]);
            assert(out[j] == src[pos[j]]);
        }
    }

    /// Unlocked terms of one category, sorted by title then id.
    pub fn list_by_category(&self, category: &str) -> (r: Vec<&GlossaryTerm>)
        requires
            self.wf(),
        ensures
            is_listing(
                Seq::new(r@.len(), |i: int| r@[i]@),
                self.terms_map(),
                self.unlocked_ids().filter(
                    |k: Seq<char>|
                        self.terms_map().contains_key(k) && self.terms_map()[k].category
                            == category@,
                ),
            ),
    {
        let all = self.list_unlocked();
        let c = chars_of(category);
        let ghost src = Seq::new(all@.len(), |i: int| all@[i]@);
        let ghost sel2 = self.unlocked_ids().filter(
            |k: Seq<char>| self.terms_map().contains_key(k) && self.terms_map()[k].category
                == category@,
        );
        let mut keep: Vec<bool> = Vec::new();
        let mut k: usize = 0;
        while k < all.len()
            invariant
                0 <= k <= all@.len(),
                keep@.len() == k,
                c@ == category@,
                forall|m: int| 0 <= m < k ==> #[trigger] keep@[m] == (all@[m].category@ == category@),
            decreases all@.len() - k,
        {
            let cc = chars_of(all[k].category.as_str());
            keep.push(chars_eq(cc.as_slice(), c.as_slice()));
            k += 1;
        }
        let (r, pos) = Self::select(&all, &keep);
        proof {
            assert forall|m: int| 0 <= m < src.len() implies (#[trigger] keep@[m] <==> sel2.contains(
                src[m].id,
            )) by {
                assert(src[m] == all@[m]@);
            }
            self.lemma_select_listing(
                src,
                Seq::new(r@.len(), |i: int| r@[i]@),
                pos@,
                keep@,
                self.unlocked_ids(),
                sel2,
            );
        }
        r
    }

    /// Lookup a term only if it is unlocked (UI-safe).
    pub fn lookup(&self, id: &str) -> (r: Option<&GlossaryTerm>)
        requires
            self.wf(),
        ensures
            match r {
                Some(t) => self.unlocked_ids().contains(id@) && self.terms_map().contains_key(id@)
                    && self.terms_map()[id@] == t@,
                None => !(self.unlocked_ids().contains(id@) && self.terms_map().contains_key(id@)),
            },
    {
        if self.is_unlocked(id) {
            self.get_raw(id)
        } else {
            None
        }
    }

    /// Case-insensitive search over unlocked titles, bodies and aliases; the
    /// results are sorted by title then id. A blank query lists every
    /// unlocked term.
    pub fn search(&self, query: &str) -> (r: Vec<&GlossaryTerm>)
        requires
            self.wf(),
        ensures
            trim(query@).len() == 0 ==> is_listing(
                Seq::new(r@.len(), |i: int| r@[i]@),
                self.terms_map(),
                self.unlocked_ids(),
            ),
            lowercase(trim(query@)).len() == 0 ==> is_listing(
                Seq::new(r@.len(), |i: int| r@[i]@),
                self.terms_map(),
                self.unlocked_ids(),
            ),
            lowercase(trim(query@)).len() > 0 ==> is_listing(
                Seq::new(r@.len(), |i: int| r@[i]@),
                self.terms_map(),
                self.unlocked_ids().filter(
                    |k: Seq<char>|
                        self.terms_map().contains_key(k) && term_matches(
                            self.terms_map()[k],
                            lowercase(trim(query@)),
                        ),
                ),
            ),
    {
        let qv = chars_of(query);
        let trimmed = trim_chars(qv.as_slice());
        let ts = string_of(trimmed.as_slice());
        let ql = to_lowercase(ts.as_str());
        let q = chars_of(ql.as_str());
        let all = self.list_unlocked();
        if q.len() == 0 {
            return all;
        }
        let ghost qs = lowercase(trim(query@));
        let ghost src = Seq::new(all@.len(), |i: int| all@[i]@);
        let ghost sel2 = self.unlocked_ids().filter(
            |k: Seq<char>| self.terms_map().contains_key(k) && term_matches(self.terms_map()[k], qs),
        );
        let mut keep: Vec<bool> = Vec::new();
        let mut k: usize = 0;
        while k < all.len()
            invariant
                0 <= k <= all@.len(),
                keep@.len() == k,
                q@ == qs,
                forall|m: int| 0 <= m < k ==> #[trigger] keep@[m] == term_matches(all@[m]@, qs),
            decreases all@.len() - k,
        {
            keep.push(term_hit(all[k], q.as_slice()));
            k += 1;
        }
        let (r, pos) = Self::select(&all, &keep);
        proof {
            assert forall|m: int| 0 <= m < src.len() implies (#[trigger] keep@[m] <==> sel2.contains(
                src[m].id,
            )) by {
                assert(src[m] == all@[m]@);
            }
            self.lemma_select_listing(
                src,
                Seq::new(r@.len(), |i: int| r@[i]@),
                pos@,
                keep@,
                self.unlocked_ids(),
                sel2,
            );
        }
        r
    }

    /// Number of unlocked ids and of catalog entries, for progress UI.
    pub fn progress(&self) -> (r: (usize, usize))
        requires
            self.wf(),
        ensures
            r.0 == self.unlocked_ids().len(),
            r.1 == self.terms_map().dom().len(),
    {
        proof {
            strs_view(self.unlocked@).unique_seq_to_set();
            term_ids(self.terms@).unique_seq_to_set();
            assert(self.terms_map().dom() =~= term_ids(self.terms@).to_set());
        }
        (self.unlocked.len(), self.terms.len())
    }

    /// Export the unlock set for embedding in saves.
    pub fn unlock_set(&self) -> (r: Vec<String>)
        requires
            self.wf(),
        ensures
            strs_view(r@).no_duplicates(),
            strictly_sorted(strs_view(r@)),
            strs_view(r@).to_set() == self.unlocked_ids(),
    {
        sorted_strings(&self.unlocked)
    }

    /// Merge unlocks from a save (union); unknown ids are kept.
    pub fn apply_unlock_set(&mut self, set: Vec<String>)
        requires
            old(self).wf(),
        ensures
            final(self).wf(),
            final(self).terms_map() == old(self).terms_map(),
            final(self).unlocked_ids() == old(self).unlocked_ids().union(strs_view(set@).to_set()),
    {
        let ghost u0 = self.unlocked_ids();
        let mut k: usize = 0;
        while k < set.len()
            invariant
                0 <= k <= set@.len(),
                self.wf(),
                self.terms_map() == old(self).terms_map(),
                self.unlocked_ids() == u0.union(strs_view(set@).take(k as int).to_set()),
            decreases set@.len() - k,
        {
            insert_id(&mut self.unlocked, set[k].as_str());
            proof {
                assert(strs_view(set@).take(k + 1) =~= strs_view(set@).take(k as int).push(
                    set@[k as int]@,
                ));
                strs_view(set@).take(k as int).lemma_push_to_set_commute(set@[k as int]@);
                assert(self.unlocked_ids() =~= u0.union(strs_view(set@).take(k + 1).to_set()));
            }
            k += 1;
        }
        assert(strs_view(set@).take(k as int) =~= strs_view(set@));
    }

    /// Clear all unlocks, then re-apply the entries unlocked by default.
    pub fn clear_unlocks(&mut self)
        requires
            old(self).wf(),
        ensures
            final(self).wf(),
            final(self).terms_map() == old(self).terms_map(),
            final(self).unlocked_ids() == old(self).terms_map().dom().filter(
                |k: Seq<char>| old(self).terms_map()[k].unlocked_by_default,
            ),
    {
        let ghost cat = self.terms_map();
        let ghost target = cat.dom().filter(|k: Seq<char>| cat[k].unlocked_by_default);
        self.unlocked = Vec::new();
        let mut j: usize = 0;
        proof {
            assert(self.unlocked_ids() =~= Set::<Seq<char>>::empty());
        }
        while j < self.terms.len()
            invariant
                0 <= j <= self.terms@.len(),
                self.wf(),
                cat == self.terms_map(),
                self.unlocked_ids() == Set::new(
                    |k: Seq<char>|
                        exists|m: int|
                            0 <= m < j && self.terms@[m].id@ == k
                                && self.terms@[m].unlocked_by_default,
                ),
            decreases self.terms@.len() - j,
        {
            let ghost u = self.unlocked_ids();
            if self.terms[j].unlocked_by_default {
                let id = owned(self.terms[j].id.as_str());
                insert_id(&mut self.unlocked, id.as_str());
            }
            proof {
                assert(self.unlocked_ids() =~= Set::new(
                    |k: Seq<char>|
                        exists|m: int|
                            0 <= m < j + 1 && self.terms@[m].id@ == k
                                && self.terms@[m].unlocked_by_default,
                ));
            }
            j += 1;
        }
        proof {
            assert forall|k: Seq<char>| self.unlocked_ids().contains(k) <==> target.contains(k) by {
                if self.unlocked_ids().contains(k) {
                    let m = choose|m: int|
                        0 <= m < j && self.terms@[m].id@ == k
                            && self.terms@[m].unlocked_by_default;
                    lemma_terms_at(self.terms@, m);
                }
                if target.contains(k) {
                    lemma_terms_key(self.terms@, k);
                    let m = choose|m: int| 0 <= m < self.terms@.len() && self.terms@[m].id@ == k;
                    lemma_terms_at(self.terms@, m);
                }
            }
            assert(self.unlocked_ids() =~= target);
        }
    }
}

impl GlossaryTerm {
    /// A field-by-field copy.
    pub fn clone_term(&self) -> (r: Self)
        ensures
            r@ == self@,
    {
        let aliases = copy_strings(&self.aliases);
        let r = GlossaryTerm {
            id: owned(self.id.as_str()),
            title: owned(self.title.as_str()),
            body: owned(self.body.as_str()),
            category: owned(self.category.as_str()),
            aliases,
            unlocked_by_default: self.unlocked_by_default,
        };
        assert(strs_view(r.aliases@) =~= strs_view(self.aliases@));
        r
    }
}

/// Catalog after registering `es` in order.
pub open spec fn terms_after(cat: Map<Seq<char>, TermSpec>, es: Seq<GlossaryTerm>) -> Map<
    Seq<char>,
    TermSpec,
>
    decreases es.len(),
{
    if es.len() == 0 {
        cat
    } else {
        terms_after(cat, es.drop_last()).insert(es.last().id@, es.last()@)
    }
}

/// Unlock set after registering `es` in order.
pub open spec fn unlocked_after(u: Set<Seq<char>>, es: Seq<GlossaryTerm>) -> Set<Seq<char>>
    decreases es.len(),
{
    if es.len() == 0 {
        u
    } else if es.last().unlocked_by_default {
        unlocked_after(u, es.drop_last()).insert(es.last().id@)
    } else {
        unlocked_after(u, es.drop_last())
    }
}

/// Whether a term matches a (lower-cased, non-empty) query: the query
/// occurs in the lower-cased title, body or one of the aliases.
pub open spec fn term_matches(t: TermSpec, q: Seq<char>) -> bool {
    ||| contains_seq(lowercase(t.title), q)
    ||| contains_seq(lowercase(t.body), q)
    ||| exists|a: int| 0 <= a < t.aliases.len() && contains_seq(lowercase(#[trigger] t.aliases[a]), q)
}

/// Whether the lower-cased `s` contains `q`.
fn lower_contains(s: &str, q: &[char]) -> (b: bool)
    ensures
        b == contains_seq(lowercase(s@), q@),
{
    let l = to_lowercase(s);
    let v = chars_of(l.as_str());
    contains_chars(v.as_slice(), q)
}

/// Whether a term matches a query.
fn term_hit(t: &GlossaryTerm, q: &[char]) -> (b: bool)
    ensures
        b == term_matches(t@, q@),
{
    if lower_contains(t.title.as_str(), q) || lower_contains(t.body.as_str(), q) {
        return true;
    }
    let mut a: usize = 0;
    while a < t.aliases.len()
        invariant
            0 <= a <= t.aliases@.len(),
            forall|j: int| 0 <= j < a ==> !contains_seq(lowercase(t.aliases@[j]@), q@),
        decreases t.aliases@.len() - a,
    {
        if lower_contains(t.aliases[a].as_str(), q) {
            assert(t@.aliases[a as int] == t.aliases@[a as int]@);
            return true;
        }
        a += 1;
    }
    assert forall|j: int| 0 <= j < t@.aliases.len() implies !contains_seq(
        lowercase(#[trigger] t@.aliases[j]),
        q@,
    ) by {
        assert(t@.aliases[j] == t.aliases@[j]@);
    }
    false
}

/// Ids unlocked by default in a terms.
pub open spec fn default_ids(cat: Map<Seq<char>, TermSpec>) -> Set<Seq<char>> {
    cat.dom().filter(|k: Seq<char>| cat[k].unlocked_by_default)
}

/// Save / restore of unlocks: when the unlock set saved from one collection
/// (`saved`, whose ids are the unlocked ids `u`) is applied to a cleared
/// collection with the same terms, the ids unlocked afterwards are exactly
/// the defaults and the saved ids, so every id unlocked before saving is
/// unlocked again.
pub proof fn lemma_unlock_roundtrip(cat: Map<Seq<char>, TermSpec>, saved: Seq<Seq<char>>, u: Set<Seq<char>>)
    requires
        saved.to_set() == u,
    ensures
        default_ids(cat).union(saved.to_set()) == default_ids(cat).union(u),
        forall|id: Seq<char>| u.contains(id) ==> #[trigger] default_ids(cat).union(saved.to_set()).contains(id),
{
}

/// The lower-cased query `q` occurs in the lower-cased title, body or
/// one of the lower-cased aliases of `t`.
pub open spec fn mentions(t: TermSpec, q: Seq<char>) -> bool {
    contains_seq(lowercase(t.title), q) || contains_seq(lowercase(t.body), q) || exists|a: int|
        0 <= a < t.aliases.len() && contains_seq(lowercase(#[trigger] t.aliases[a]), q)
}

/// What a non-blank search finds: an unlocked known term is in the result
/// exactly when the lower-cased query occurs in its lower-cased title, its
/// lower-cased body or one of its lower-cased aliases — so the match
/// ignores case in the text searched as well as in the query; and
/// everything found is such a term.
pub proof fn lemma_search_finds(g: Glossary, query: Seq<char>, out: Seq<TermSpec>, k: Seq<char>)
    requires
        g.wf(),
        lowercase(trim(query)).len() > 0,
        is_listing(
            out,
            g.terms_map(),
            g.unlocked_ids().filter(
                |x: Seq<char>|
                    g.terms_map().contains_key(x) && term_matches(g.terms_map()[x], lowercase(trim(query))),
            ),
        ),
        g.unlocked_ids().contains(k),
        g.terms_map().contains_key(k),
    ensures
        (exists|i: int| 0 <= i < out.len() && out[i].id == k) <==> mentions(
            g.terms_map()[k],
            lowercase(trim(query)),
        ),
        forall|i: int|
            0 <= i < out.len() ==> g.unlocked_ids().contains(out[i].id) && mentions(
                #[trigger] out[i],
                lowercase(trim(query)),
            ),
{
    let q = lowercase(trim(query));
    let sel = g.unlocked_ids().filter(
        |x: Seq<char>| g.terms_map().contains_key(x) && term_matches(g.terms_map()[x], q),
    );
    if mentions(g.terms_map()[k], q) {
        assert(sel.contains(k));
    }
    if exists|i: int| 0 <= i < out.len() && out[i].id == k {
        let i = choose|i: int| 0 <= i < out.len() && out[i].id == k;
        assert(sel.contains(out[i].id));
    }
    assert forall|i: int| 0 <= i < out.len() implies g.unlocked_ids().contains(out[i].id)
        && mentions(#[trigger] out[i], q) by {
        assert(sel.contains(out[i].id));
        assert(g.terms_map()[out[i].id] == out[i]);
    }
}

} // verus!
