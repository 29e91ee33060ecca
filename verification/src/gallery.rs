//! Image gallery unlock tracking for CGs and stills.
//!
//! The catalog maps entry ids to definitions; the unlock set holds ids
//! (unknown ids are kept for forward compatibility of saves).

use vstd::prelude::*;

use crate::order::{
    chars_lt, lemma_seq_lt_irreflexive, lemma_seq_lt_total,
    lemma_seq_lt_transitive, seq_lt, sorted_strings, strictly_sorted,
};
use crate::strings::{chars_eq, chars_of, owned, strs_view};

verus! {

/// Gallery-related errors.
#[derive(Debug, Clone, PartialEq, Eq)]
pub enum GalleryError {
    /// Entry id is unknown to the catalog.
    NotFound(String),
}

/// Abstract gallery entry.
#[verifier::ext_equal]
pub struct EntrySpec {
    /// Stable id.
    pub id: Seq<char>,
    /// Display title.
    pub title: Seq<char>,
    /// Asset path.
    pub path: Seq<char>,
    /// Group.
    pub group: Seq<char>,
    /// Sort order (lower first).
    pub sort_order: i32,
    /// Starts unlocked.
    pub unlocked_by_default: bool,
}

/// Static definition of a gallery image.
#[derive(Debug, Clone)]
pub struct GalleryEntry {
    /// Stable id used in unlock sets and saves.
    pub id: String,
    /// Display title.
    pub title: String,
    /// Asset path or handle key.
    pub path: String,
    /// Optional group (chapter, character, etc.).
    pub group: String,
    /// Sort order within the gallery UI (lower first).
    pub sort_order: i32,
    /// Whether the entry starts unlocked.
    pub unlocked_by_default: bool,
}

impl View for GalleryEntry {
    type V = EntrySpec;

    open spec fn view(&self) -> EntrySpec {
        EntrySpec {
            id: self.id@,
            title: self.title@,
            path: self.path@,
            group: self.group@,
            sort_order: self.sort_order,
            unlocked_by_default: self.unlocked_by_default,
        }
    }
}

impl GalleryEntry {
    /// Create a simple gallery entry (no group, order 0, locked).
    pub fn new(id: &str, title: &str, path: &str) -> (r: Self)
        ensures
            r@ == (EntrySpec {
                id: id@,
                title: title@,
                path: path@,
                group: seq![],
                sort_order: 0,
                unlocked_by_default: false,
            }),
    {
        GalleryEntry {
            id: owned(id),
            title: owned(title),
            path: owned(path),
            group: String::new(),
            sort_order: 0,
            unlocked_by_default: false,
        }
    }

    /// Builder: set group.
    pub fn with_group(self, group: &str) -> (r: Self)
        ensures
            r@ == (EntrySpec { group: group@, ..self@ }),
    {
        let mut s = self;
        s.group = owned(group);
        s
    }

    /// Builder: set sort order.
    pub fn with_sort_order(self, sort_order: i32) -> (r: Self)
        ensures
            r@ == (EntrySpec { sort_order, ..self@ }),
    {
        let mut s = self;
        s.sort_order = sort_order;
        s
    }

    /// Builder: unlock by default.
    pub fn default_unlocked(self) -> (r: Self)
        ensures
            r@ == (EntrySpec { unlocked_by_default: true, ..self@ }),
    {
        let mut s = self;
        s.unlocked_by_default = true;
        s
    }
}

/// Ids of a sequence of entries.
pub open spec fn entry_ids(es: Seq<GalleryEntry>) -> Seq<Seq<char>> {
    Seq::new(es.len(), |i: int| es[i].id@)
}

/// Catalog (id to definition) held by a sequence of entries with distinct ids.
pub open spec fn catalog_of(es: Seq<GalleryEntry>) -> Map<Seq<char>, EntrySpec> {
    Map::new(
        |k: Seq<char>| entry_ids(es).contains(k),
        |k: Seq<char>| es[choose|i: int| 0 <= i < es.len() && es[i].id@ == k]@,
    )
}

/// Gallery browser order: by sort order, then by id.
pub open spec fn gallery_before(a: EntrySpec, b: EntrySpec) -> bool {
    a.sort_order < b.sort_order || (a.sort_order == b.sort_order && seq_lt(a.id, b.id))
}

/// `out` lists exactly the catalog entries whose ids are in `sel`, each
/// once, in gallery order.
pub open spec fn is_listing(
    out: Seq<EntrySpec>,
    cat: Map<Seq<char>, EntrySpec>,
    sel: Set<Seq<char>>,
) -> bool {
    &&& forall|i: int|
        0 <= i < out.len() ==> sel.contains(#[trigger] out[i].id) && cat.contains_key(out[i].id)
            && cat[out[i].id] == out[i]
    &&& forall|k: Seq<char>|
        sel.contains(k) && #[trigger] cat.contains_key(k) ==> exists|i: int|
            0 <= i < out.len() && (#[trigger] out[i]).id == k
    &&& forall|i: int, j: int|
        0 <= i < j < out.len() ==> gallery_before(#[trigger] out[i], #[trigger] out[j])
}

/// Entry `j` is in the catalog under its own id.
pub proof fn lemma_catalog_at(es: Seq<GalleryEntry>, j: int)
    requires
        entry_ids(es).no_duplicates(),
        0 <= j < es.len(),
    ensures
        catalog_of(es).contains_key(es[j].id@),
        catalog_of(es)[es[j].id@] == es[j]@,
{
    assert(entry_ids(es)[j] == es[j].id@);
    let i = choose|i: int| 0 <= i < es.len() && es[i].id@ == es[j].id@;
    assert(entry_ids(es)[i] == entry_ids(es)[j]);
}

/// Every catalog key is the id of some entry.
pub proof fn lemma_catalog_key(es: Seq<GalleryEntry>, k: Seq<char>)
    requires
        catalog_of(es).contains_key(k),
    ensures
        exists|j: int| 0 <= j < es.len() && es[j].id@ == k,
{
    let j = choose|j: int| 0 <= j < entry_ids(es).len() && entry_ids(es)[j] == k;
    assert(es[j].id@ == k);
}

/// Replacing entry `i` by one with the same id updates the catalog at that id.
proof fn lemma_catalog_update(es: Seq<GalleryEntry>, i: int, e: GalleryEntry)
    requires
        entry_ids(es).no_duplicates(),
        0 <= i < es.len(),
        es[i].id@ == e.id@,
    ensures
        entry_ids(es.update(i, e)).no_duplicates(),
        catalog_of(es.update(i, e)) == catalog_of(es).insert(e.id@, e@),
{
    let es2 = es.update(i, e);
    assert(entry_ids(es2) =~= entry_ids(es));
    let c1 = catalog_of(es2);
    let c2 = catalog_of(es).insert(e.id@, e@);
    assert forall|k: Seq<char>| #[trigger] c1.contains_key(k) implies c2.contains_key(k) && c1[k]
        == c2[k] by {
        lemma_catalog_key(es2, k);
        let j = choose|j: int| 0 <= j < es2.len() && es2[j].id@ == k;
        if j == i {
            assert(k == e.id@);
        } else {
            assert(es2[j] == es[j]);
            assert(entry_ids(es)[j] != entry_ids(es)[i]);
            assert(k != e.id@);
            lemma_catalog_at(es, j);
        }
    }
    assert forall|k: Seq<char>| #[trigger] c2.contains_key(k) implies c1.contains_key(k) by {
        if k != e.id@ {
            lemma_catalog_key(es, k);
            let j = choose|j: int| 0 <= j < es.len() && es[j].id@ == k;
            assert(entry_ids(es2)[j] == k);
        } else {
            assert(entry_ids(es2)[i] == k);
        }
    }
    assert(c1 =~= c2);
}

/// Appending an entry with a new id adds it to the catalog.
proof fn lemma_catalog_push(es: Seq<GalleryEntry>, e: GalleryEntry)
    requires
        entry_ids(es).no_duplicates(),
        !entry_ids(es).contains(e.id@),
    ensures
        entry_ids(es.push(e)).no_duplicates(),
        catalog_of(es.push(e)) == catalog_of(es).insert(e.id@, e@),
{
    let es2 = es.push(e);
    assert(entry_ids(es2) =~= entry_ids(es).push(e.id@));
    assert forall|a: int, b: int|
        0 <= a < entry_ids(es2).len() && 0 <= b < entry_ids(es2).len() && a != b implies entry_ids(
        es2,
    )[a] != entry_ids(es2)[b] by {
        if a == es.len() {
            assert(entry_ids(es)[b] == entry_ids(es2)[b]);
        } else if b == es.len() {
            assert(entry_ids(es)[a] == entry_ids(es2)[a]);
        }
    }
    let c1 = catalog_of(es2);
    let c2 = catalog_of(es).insert(e.id@, e@);
    assert forall|k: Seq<char>| #[trigger] c1.contains_key(k) implies c2.contains_key(k) && c1[k]
        == c2[k] by {
        lemma_catalog_key(es2, k);
        let j = choose|j: int| 0 <= j < es2.len() && es2[j].id@ == k;
        if j == es.len() {
            lemma_catalog_at(es2, j);
        } else {
            lemma_catalog_at(es2, j);
            lemma_catalog_at(es, j);
        }
    }
    assert forall|k: Seq<char>| #[trigger] c2.contains_key(k) implies c1.contains_key(k) by {
        if k != e.id@ {
            lemma_catalog_key(es, k);
            let j = choose|j: int| 0 <= j < es.len() && es[j].id@ == k;
            assert(entry_ids(es2)[j] == k);
        } else {
            assert(entry_ids(es2)[es.len() as int] == k);
        }
    }
    assert(c1 =~= c2);
}

/// Document format of `gallery.json` sample packs: a list of entries.
#[derive(Debug, Clone)]
pub struct GalleryFile {
    /// Entries list.
    pub entries: Vec<GalleryEntry>,
}

impl Default for GalleryFile {
    fn default() -> (f: Self)
        ensures
            f.entries@.len() == 0,
    {
        GalleryFile { entries: Vec::new() }
    }
}

/// Runtime gallery catalog and unlock state.
#[derive(Debug, Clone)]
pub struct Gallery {
    entries: Vec<GalleryEntry>,
    unlocked: Vec<String>,
}

/// Whether `want` is one of the strings of `v`.
pub fn has_id(v: &Vec<String>, want: &[char]) -> (b: bool)
    ensures
        b == strs_view(v@).contains(want@),
{
    let mut i: usize = 0;
    while i < v.len()
        invariant
            0 <= i <= v.len(),
            forall|k: int| 0 <= k < i ==> v@[k]@ != want@,
        decreases v.len() - i,
    {
        let c = chars_of(v[i].as_str());
        if chars_eq(c.as_slice(), want) {
            assert(strs_view(v@)[i as int] == want@);
            return true;
        }
        i += 1;
    }
    proof {
        if strs_view(v@).contains(want@) {
            let k = choose|k: int| 0 <= k < strs_view(v@).len() && strs_view(v@)[k] == want@;
            assert(v@[k]@ == want@);
        }
    }
    false
}

/// Adds `id` to a duplicate-free list of strings if absent; returns whether
/// it was added.
pub fn insert_id(v: &mut Vec<String>, id: &str) -> (added: bool)
    requires
        strs_view(old(v)@).no_duplicates(),
    ensures
        strs_view(final(v)@).no_duplicates(),
        strs_view(final(v)@).to_set() == strs_view(old(v)@).to_set().insert(id@),
        added == !strs_view(old(v)@).contains(id@),
{
    let c = chars_of(id);
    if has_id(v, c.as_slice()) {
        proof {
            let k = choose|k: int| 0 <= k < strs_view(v@).len() && strs_view(v@)[k] == id@;
            assert(strs_view(v@).to_set().contains(id@));
            assert(strs_view(v@).to_set().insert(id@) =~= strs_view(v@).to_set());
        }
        false
    } else {
        let ghost before = strs_view(v@);
        v.push(owned(id));
        proof {
            assert(strs_view(v@) =~= before.push(id@));
            assert forall|a: int, b: int|
                0 <= a < strs_view(v@).len() && 0 <= b < strs_view(v@).len() && a != b implies strs_view(
                v@,
            )[a] != strs_view(v@)[b] by {
                if a == before.len() {
                    assert(before[b] == strs_view(v@)[b]);
                } else if b == before.len() {
                    assert(before[a] == strs_view(v@)[a]);
                }
            }
            assert(strs_view(v@).to_set() =~= before.to_set().insert(id@)) by {
                before.lemma_push_to_set_commute(id@);
            }
        }
        true
    }
}

/// A copy of a vector of strings.
pub fn copy_strings(v: &Vec<String>) -> (r: Vec<String>)
    ensures
        r@.len() == v@.len(),
        forall|i: int| 0 <= i < v@.len() ==> #[trigger] r@[i]@ == v@[i]@,
{
    let mut r: Vec<String> = Vec::new();
    let mut k: usize = 0;
    while k < v.len()
        invariant
            0 <= k <= v@.len(),
            r@.len() == k,
            forall|i: int| 0 <= i < k ==> #[trigger] r@[i]@ == v@[i]@,
        decreases v@.len() - k,
    {
        r.push(owned(v[k].as_str()));
        k += 1;
    }
    r
}

/// Insertion of `x` into a list of indices sorted by gallery order.
fn sorted_insert(es: &Vec<GalleryEntry>, out: &mut Vec<usize>, x: usize)
    requires
        entry_ids(es@).no_duplicates(),
        x < es@.len(),
        forall|i: int| 0 <= i < old(out)@.len() ==> #[trigger] old(out)@[i] < es@.len(),
        !old(out)@.contains(x),
        forall|i: int, j: int|
            0 <= i < j < old(out)@.len() ==> gallery_before(
                es@[#[trigger] old(out)@[i] as int]@,
                es@[#[trigger] old(out)@[j] as int]@,
            ),
    ensures
        final(out)@.to_set() == old(out)@.to_set().insert(x),
        final(out)@.len() == old(out)@.len() + 1,
        forall|i: int| 0 <= i < final(out)@.len() ==> #[trigger] final(out)@[i] < es@.len(),
        forall|i: int, j: int|
            0 <= i < j < final(out)@.len() ==> gallery_before(
                es@[#[trigger] final(out)@[i] as int]@,
                es@[#[trigger] final(out)@[j] as int]@,
            ),
{
    let kx = chars_of(es[x].id.as_str());
    let ghost ex = es@[x as int]@;
    let mut p: usize = 0;
    let mut done = false;
    while p < out.len() && !done
        invariant
            0 <= p <= out@.len(),
            x < es@.len(),
            ex == es@[x as int]@,
            kx@ == ex.id,
            forall|i: int| 0 <= i < out@.len() ==> #[trigger] out@[i] < es@.len(),
            done ==> p < out@.len() && gallery_before(ex, es@[out@[p as int] as int]@),
            forall|i: int| 0 <= i < p ==> !gallery_before(ex, es@[#[trigger] out@[i] as int]@),
        decreases out@.len() - p + if done { 0int } else { 1int },
    {
        let y = out[p];
        let ky = chars_of(es[y].id.as_str());
        let before = es[x].sort_order < es[y].sort_order || (es[x].sort_order == es[y].sort_order
            && chars_lt(kx.as_slice(), ky.as_slice()));
        if before {
            done = true;
        } else {
            p += 1;
        }
    }
    let ghost o = out@;
    proof {
        assert forall|i: int| 0 <= i < p implies gallery_before(
            es@[#[trigger] o[i] as int]@,
            ex,
        ) by {
            let y = o[i];
            assert(o.contains(o[i]));
            assert(y != x);
            assert(entry_ids(es@)[y as int] != entry_ids(es@)[x as int]);
            lemma_seq_lt_total(ex.id, es@[y as int].id@);
        }
        assert forall|j: int| p <= j < o.len() implies gallery_before(
            ex,
            es@[#[trigger] o[j] as int]@,
        ) by {
            assert(done);
            if j > p {
                lemma_gallery_before_trans(ex, es@[o[p as int] as int]@, es@[o[j] as int]@);
            }
        }
    }
    out.insert(p, x);
    proof {
        let n = out@;
        assert forall|i: int, j: int| 0 <= i < j < n.len() implies gallery_before(
            es@[#[trigger] n[i] as int]@,
            es@[#[trigger] n[j] as int]@,
        ) by {
            if j < p {
                assert(n[i] == o[i] && n[j] == o[j]);
            } else if j == p {
                assert(n[i] == o[i]);
            } else if i == p {
                assert(n[j] == o[j - 1]);
            } else if i < p {
                assert(n[i] == o[i] && n[j] == o[j - 1]);
                lemma_gallery_before_trans(es@[o[i] as int]@, ex, es@[o[j - 1] as int]@);
            } else {
                assert(n[i] == o[i - 1] && n[j] == o[j - 1]);
            }
        }
        assert(n.to_set() =~= o.to_set().insert(x)) by {
            assert forall|v: usize| n.to_set().contains(v) implies o.to_set().insert(x).contains(v) by {
                let k = choose|k: int| 0 <= k < n.len() && n[k] == v;
                if k < p {
                    assert(o[k] == v);
                } else if k > p {
                    assert(o[k - 1] == v);
                }
            }
            assert forall|v: usize| o.to_set().insert(x).contains(v) implies n.to_set().contains(v) by {
                if v == x {
                    assert(n[p as int] == x);
                } else {
                    let k = choose|k: int| 0 <= k < o.len() && o[k] == v;
                    if k < p {
                        assert(n[k] == v);
                    } else {
                        assert(n[k + 1] == v);
                    }
                }
            }
        }
    }
}

/// Gallery order is transitive.
pub proof fn lemma_gallery_before_trans(a: EntrySpec, b: EntrySpec, c: EntrySpec)
    requires
        gallery_before(a, b),
        gallery_before(b, c),
    ensures
        gallery_before(a, c),
{
    if a.sort_order == b.sort_order && b.sort_order == c.sort_order {
        lemma_seq_lt_transitive(a.id, b.id, c.id);
    }
}

/// Sorts the indices `idx` (distinct, in range) by gallery order.
fn sort_by_gallery_order(es: &Vec<GalleryEntry>, idx: &Vec<usize>) -> (out: Vec<usize>)
    requires
        entry_ids(es@).no_duplicates(),
        idx@.no_duplicates(),
        forall|i: int| 0 <= i < idx@.len() ==> #[trigger] idx@[i] < es@.len(),
    ensures
        out@.to_set() == idx@.to_set(),
        out@.no_duplicates(),
        forall|i: int| 0 <= i < out@.len() ==> #[trigger] out@[i] < es@.len(),
        forall|i: int, j: int|
            0 <= i < j < out@.len() ==> gallery_before(
                es@[#[trigger] out@[i] as int]@,
                es@[#[trigger] out@[j] as int]@,
            ),
{
    let mut out: Vec<usize> = Vec::new();
    let mut k: usize = 0;
    while k < idx.len()
        invariant
            entry_ids(es@).no_duplicates(),
            idx@.no_duplicates(),
            forall|i: int| 0 <= i < idx@.len() ==> #[trigger] idx@[i] < es@.len(),
            0 <= k <= idx@.len(),
            out@.to_set() == idx@.take(k as int).to_set(),
            out@.len() == k,
            forall|i: int| 0 <= i < out@.len() ==> #[trigger] out@[i] < es@.len(),
            forall|i: int, j: int|
                0 <= i < j < out@.len() ==> gallery_before(
                    es@[#[trigger] out@[i] as int]@,
                    es@[#[trigger] out@[j] as int]@,
                ),
        decreases idx@.len() - k,
    {
        let x = idx[k];
        proof {
            if out@.contains(x) {
                assert(out@.to_set().contains(x));
                let m = choose|m: int| 0 <= m < k && idx@.take(k as int)[m] == x;
                assert(idx@[m] == idx@[k as int]);
            }
        }
        sorted_insert(es, &mut out, x);
        proof {
            assert(idx@.take(k + 1) =~= idx@.take(k as int).push(x));
            idx@.take(k as int).lemma_push_to_set_commute(x);
        }
        k += 1;
    }
    proof {
        assert(idx@.take(k as int) =~= idx@);
        lemma_sorted_distinct(es@, out@);
    }
    out
}

/// Indices sorted strictly by gallery order are distinct.
proof fn lemma_sorted_distinct(es: Seq<GalleryEntry>, out: Seq<usize>)
    requires
        forall|i: int| 0 <= i < out.len() ==> #[trigger] out[i] < es.len(),
        forall|i: int, j: int|
            0 <= i < j < out.len() ==> gallery_before(
                es[#[trigger] out[i] as int]@,
                es[#[trigger] out[j] as int]@,
            ),
    ensures
        out.no_duplicates(),
{
    assert forall|i: int, j: int|
        0 <= i < out.len() && 0 <= j < out.len() && i != j implies out[i] != out[j] by {
        if out[i] == out[j] {
            let a = es[out[i] as int]@;
            lemma_seq_lt_irreflexive(a.id);
            if i < j {
                assert(gallery_before(es[out[i] as int]@, es[out[j] as int]@));
            } else {
                assert(gallery_before(es[out[j] as int]@, es[out[i] as int]@));
            }
        }
    }
}

impl Gallery {
    /// Entries have distinct ids; the unlock list has no duplicates.
    pub closed spec fn wf(&self) -> bool {
        entry_ids(self.entries@).no_duplicates() && strs_view(self.unlocked@).no_duplicates()
    }

    /// Known entries by id.
    pub closed spec fn catalog(&self) -> Map<Seq<char>, EntrySpec> {
        catalog_of(self.entries@)
    }

    /// Unlocked ids (possibly including ids unknown to the catalog).
    pub closed spec fn unlocked_ids(&self) -> Set<Seq<char>> {
        strs_view(self.unlocked@).to_set()
    }

    /// Empty gallery.
    pub fn new() -> (g: Self)
        ensures
            g.wf(),
            g.catalog() == Map::<Seq<char>, EntrySpec>::empty(),
            g.unlocked_ids() == Set::<Seq<char>>::empty(),
    {
        let g = Gallery { entries: Vec::new(), unlocked: Vec::new() };
        assert(g.catalog() =~= Map::<Seq<char>, EntrySpec>::empty());
        assert(g.unlocked_ids() =~= Set::<Seq<char>>::empty());
        g
    }

    /// Index of the entry with id `id`.
    fn find(&self, id: &[char]) -> (r: Option<usize>)
        ensures
            match r {
                Some(i) => i < self.entries@.len() && self.entries@[i as int].id@ == id@,
                None => forall|i: int|
                    0 <= i < self.entries@.len() ==> self.entries@[i].id@ != id@,
            },
    {
        let mut i: usize = 0;
        while i < self.entries.len()
            invariant
                0 <= i <= self.entries@.len(),
                forall|k: int| 0 <= k < i ==> self.entries@[k].id@ != id@,
            decreases self.entries@.len() - i,
        {
            let c = chars_of(self.entries[i].id.as_str());
            if chars_eq(c.as_slice(), id) {
                return Some(i);
            }
            i += 1;
        }
        None
    }

    /// Register an entry (replacing one with the same id); it is unlocked
    /// at once when `unlocked_by_default`.
    pub fn register(&mut self, entry: GalleryEntry)
        requires
            old(self).wf(),
        ensures
            final(self).wf(),
            final(self).catalog() == old(self).catalog().insert(entry.id@, entry@),
            final(self).unlocked_ids() == if entry.unlocked_by_default {
                old(self).unlocked_ids().insert(entry.id@)
            } else {
                old(self).unlocked_ids()
            },
    {
        let id = chars_of(entry.id.as_str());
        let auto = entry.unlocked_by_default;
        let ghost e = entry;
        match self.find(id.as_slice()) {
            Some(i) => {
                proof {
                    lemma_catalog_update(self.entries@, i as int, e);
                }
                self.entries.set(i, entry);
            },
            None => {
                proof {
                    if entry_ids(self.entries@).contains(e.id@) {
                        let k = choose|k: int|
                            0 <= k < entry_ids(self.entries@).len() && entry_ids(self.entries@)[k]
                                == e.id@;
                        assert(self.entries@[k].id@ == e.id@);
                    }
                    lemma_catalog_push(self.entries@, e);
                }
                self.entries.push(entry);
            },
        }
        if auto {
            let s = crate::strings::string_of(id.as_slice());
            insert_id(&mut self.unlocked, s.as_str());
        }
    }

    /// A gallery holding the entries of a `gallery.json` document, registered
    /// in order.
    pub fn from_file(file: GalleryFile) -> (g: Self)
        ensures
            g.wf(),
            g.catalog() == catalog_after(Map::<Seq<char>, EntrySpec>::empty(), file.entries@),
            g.unlocked_ids() == unlocked_after(Set::<Seq<char>>::empty(), file.entries@),
    {
        let mut g = Gallery::new();
        g.register_all(file.entries);
        g
    }

    /// Register many entries, in order.
    pub fn register_all(&mut self, entries: Vec<GalleryEntry>)
        requires
            old(self).wf(),
        ensures
            final(self).wf(),
            final(self).catalog() == catalog_after(old(self).catalog(), entries@),
            final(self).unlocked_ids() == unlocked_after(old(self).unlocked_ids(), entries@),
    {
        let mut i: usize = 0;
        let ghost c0 = self.catalog();
        let ghost u0 = self.unlocked_ids();
        while i < entries.len()
            invariant
                0 <= i <= entries@.len(),
                self.wf(),
                self.catalog() == catalog_after(c0, entries@.take(i as int)),
                self.unlocked_ids() == unlocked_after(u0, entries@.take(i as int)),
            decreases entries@.len() - i,
        {
            assert(entries@.take(i + 1).drop_last() =~= entries@.take(i as int));
            let e = entries[i].clone_entry();
            self.register(e);
            i += 1;
        }
        assert(entries@.take(entries@.len() as int) =~= entries@);
    }

    /// Unlock by id: `Ok(true)` if newly unlocked, `Ok(false)` if it already
    /// was, `NotFound` (and no change) for an id unknown to the catalog.
    pub fn unlock(&mut self, id: &str) -> (r: Result<bool, GalleryError>)
        requires
            old(self).wf(),
        ensures
            final(self).wf(),
            final(self).catalog() == old(self).catalog(),
            old(self).catalog().contains_key(id@) ==> r == Ok::<bool, GalleryError>(
                !old(self).unlocked_ids().contains(id@),
            ) && final(self).unlocked_ids() == old(self).unlocked_ids().insert(id@),
            !old(self).catalog().contains_key(id@) ==> (r matches Err(GalleryError::NotFound(m))
                && m@ == id@) && final(self).unlocked_ids() == old(self).unlocked_ids(),
    {
        let c = chars_of(id);
        match self.find(c.as_slice()) {
            None => {
                proof {
                    if self.catalog().contains_key(id@) {
                        lemma_catalog_key(self.entries@, id@);
                    }
                }
                Err(GalleryError::NotFound(owned(id)))
            },
            Some(i) => {
                proof {
                    lemma_catalog_at(self.entries@, i as int);
                    assert(strs_view(self.unlocked@).to_set().contains(id@) == strs_view(
                        self.unlocked@,
                    ).contains(id@));
                }
                let added = insert_id(&mut self.unlocked, id);
                Ok(added)
            },
        }
    }

    /// Unlock if the id is known; unknown ids are ignored. Returns whether
    /// the id was newly unlocked.
    pub fn unlock_if_known(&mut self, id: &str) -> (r: bool)
        requires
            old(self).wf(),
        ensures
            final(self).wf(),
            final(self).catalog() == old(self).catalog(),
            r == (old(self).catalog().contains_key(id@) && !old(self).unlocked_ids().contains(id@)),
            final(self).unlocked_ids() == if old(self).catalog().contains_key(id@) {
                old(self).unlocked_ids().insert(id@)
            } else {
                old(self).unlocked_ids()
            },
    {
        match self.unlock(id) {
            Ok(b) => b,
            Err(_) => false,
        }
    }

    /// Whether the id is unlocked.
    pub fn is_unlocked(&self, id: &str) -> (r: bool)
        requires
            self.wf(),
        ensures
            r == self.unlocked_ids().contains(id@),
    {
        let c = chars_of(id);
        let r = has_id(&self.unlocked, c.as_slice());
        assert(strs_view(self.unlocked@).to_set().contains(id@) == strs_view(
            self.unlocked@,
        ).contains(id@));
        r
    }

    /// Whether the id exists in the catalog.
    pub fn contains(&self, id: &str) -> (r: bool)
        requires
            self.wf(),
        ensures
            r == self.catalog().contains_key(id@),
    {
        let c = chars_of(id);
        match self.find(c.as_slice()) {
            Some(i) => {
                proof {
                    lemma_catalog_at(self.entries@, i as int);
                }
                true
            },
            None => {
                proof {
                    if self.catalog().contains_key(id@) {
                        lemma_catalog_key(self.entries@, id@);
                    }
                }
                false
            },
        }
    }

    /// Lookup a definition.
    pub fn get(&self, id: &str) -> (r: Option<&GalleryEntry>)
        requires
            self.wf(),
        ensures
            match r {
                Some(e) => self.catalog().contains_key(id@) && self.catalog()[id@] == e@,
                None => !self.catalog().contains_key(id@),
            },
    {
        let c = chars_of(id);
        match self.find(c.as_slice()) {
            Some(i) => {
                proof {
                    lemma_catalog_at(self.entries@, i as int);
                }
                Some(&self.entries[i])
            },
            None => {
                proof {
                    if self.catalog().contains_key(id@) {
                        lemma_catalog_key(self.entries@, id@);
                    }
                }
                None
            },
        }
    }

    /// Indices of the entries whose ids are unlocked.
    fn unlocked_indices(&self) -> (idx: Vec<usize>)
        requires
            self.wf(),
        ensures
            idx@.no_duplicates(),
            forall|i: int| 0 <= i < idx@.len() ==> #[trigger] idx@[i] < self.entries@.len(),
            forall|j: int|
                0 <= j < self.entries@.len() ==> (idx@.contains(j as usize)
                    <==> self.unlocked_ids().contains(#[trigger] self.entries@[j].id@)),
    {
        let mut idx: Vec<usize> = Vec::new();
        let mut j: usize = 0;
        while j < self.entries.len()
            invariant
                self.wf(),
                0 <= j <= self.entries@.len(),
                idx@.no_duplicates(),
                forall|i: int| 0 <= i < idx@.len() ==> #[trigger] idx@[i] < j,
                forall|m: int|
                    0 <= m < j ==> (idx@.contains(m as usize) <==> self.unlocked_ids().contains(
                        #[trigger] self.entries@[m].id@,
                    )),
            decreases self.entries@.len() - j,
        {
            let c = chars_of(self.entries[j].id.as_str());
            let unl = has_id(&self.unlocked, c.as_slice());
            proof {
                assert(strs_view(self.unlocked@).to_set().contains(c@) == strs_view(
                    self.unlocked@,
                ).contains(c@));
            }
            let ghost before = idx@;
            if unl {
                idx.push(j);
                proof {
                    assert forall|a: int, b: int|
                        0 <= a < idx@.len() && 0 <= b < idx@.len() && a != b implies idx@[a]
                        != idx@[b] by {
                        if a == before.len() {
                            assert(before[b] < j);
                        } else if b == before.len() {
                            assert(before[a] < j);
                        }
                    }
                }
            }
            proof {
                assert forall|m: int| 0 <= m < j + 1 implies (idx@.contains(m as usize)
                    <==> self.unlocked_ids().contains(#[trigger] self.entries@[m].id@)) by {
                    if m < j {
                        if before.contains(m as usize) {
                            let q = choose|q: int| 0 <= q < before.len() && before[q] == m as usize;
                            assert(idx@[q] == m as usize);
                        }
                        if idx@.contains(m as usize) {
                            let q = choose|q: int| 0 <= q < idx@.len() && idx@[q] == m as usize;
                            if q < before.len() {
                                assert(before[q] == m as usize);
                            }
                        }
                    } else {
                        if unl {
                            assert(idx@[before.len() as int] == j);
                        } else {
                            if idx@.contains(j) {
                                let q = choose|q: int| 0 <= q < idx@.len() && idx@[q] == j;
                                assert(before[q] < j);
                            }
                        }
                    }
                }
            }
            j += 1;
        }
        idx
    }

    /// Unlocked entries of the catalog, sorted by sort order then id.
    pub fn list_unlocked(&self) -> (r: Vec<&GalleryEntry>)
        requires
            self.wf(),
        ensures
            is_listing(
                Seq::new(r@.len(), |i: int| r@[i]@),
                self.catalog(),
                self.unlocked_ids(),
            ),
    {
        let idx = self.unlocked_indices();
        let order = sort_by_gallery_order(&self.entries, &idx);
        let r = self.refs_of(&order);
        proof {
            assert(self.entries@.len() == self.entries.len());
            self.lemma_listing(order@, idx@, self.unlocked_ids());
            assert(Seq::new(r@.len(), |i: int| r@[i]@) =~= Seq::new(
                order@.len(),
                |i: int| self.entries@[order@[i] as int]@,
            ));
        }
        r
    }

    /// References to the entries at the given indices, in order.
    fn refs_of(&self, order: &Vec<usize>) -> (r: Vec<&GalleryEntry>)
        requires
            forall|i: int| 0 <= i < order@.len() ==> #[trigger] order@[i] < self.entries@.len(),
        ensures
            r@.len() == order@.len(),
            forall|i: int| 0 <= i < r@.len() ==> *#[trigger] r@[i] == self.entries@[order@[i] as int],
    {
        let mut r: Vec<&GalleryEntry> = Vec::new();
        let mut k: usize = 0;
        while k < order.len()
            invariant
                0 <= k <= order@.len(),
                forall|i: int| 0 <= i < order@.len() ==> #[trigger] order@[i] < self.entries@.len(),
                r@.len() == k,
                forall|i: int| 0 <= i < k ==> *#[trigger] r@[i] == self.entries@[order@[i] as int],
            decreases order@.len() - k,
        {
            r.push(&self.entries[order[k]]);
            k += 1;
        }
        r
    }

    /// A sorted arrangement of exactly the indices of the entries whose ids
    /// are in `sel` lists those entries.
    proof fn lemma_listing(&self, order: Seq<usize>, idx: Seq<usize>, sel: Set<Seq<char>>)
        requires
            self.wf(),
            self.entries@.len() <= usize::MAX,
            order.to_set() == idx.to_set(),
            forall|i: int| 0 <= i < order.len() ==> #[trigger] order[i] < self.entries@.len(),
            forall|j: int|
                0 <= j < self.entries@.len() ==> (idx.contains(j as usize) <==> sel.contains(
                    #[trigger] self.entries@[j].id@,
                )),
            forall|i: int, j: int|
                0 <= i < j < order.len() ==> gallery_before(
                    self.entries@[#[trigger] order[i] as int]@,
                    self.entries@[#[trigger] order[j] as int]@,
                ),
        ensures
            is_listing(
                Seq::new(order.len(), |i: int| self.entries@[order[i] as int]@),
                self.catalog(),
                sel,
            ),
    {
        let es = self.entries@;
        let out = Seq::new(order.len(), |i: int| es[order[i] as int]@);
        assert forall|i: int| 0 <= i < out.len() implies sel.contains(#[trigger] out[i].id)
            && self.catalog().contains_key(out[i].id) && self.catalog()[out[i].id] == out[i] by {
            lemma_catalog_at(es, order[i] as int);
            assert(order.to_set().contains(order[i]));
            assert(idx.to_set().contains(order[i]));
        }
        assert forall|k: Seq<char>| sel.contains(k) && #[trigger] self.catalog().contains_key(
            k,
        ) implies exists|i: int| 0 <= i < out.len() && (#[trigger] out[i]).id == k by {
            lemma_catalog_key(es, k);
            let j = choose|j: int| 0 <= j < es.len() && es[j].id@ == k;
            assert(idx.contains(j as usize));
            assert(idx.to_set().contains(j as usize));
            assert(order.to_set().contains(j as usize));
            let i = choose|i: int| 0 <= i < order.len() && order[i] == j as usize;
            assert(out[i].id == k);
        }
    }

    /// Every catalog entry sorted for the gallery browser, each with its
    /// unlock flag.
    pub fn list_all(&self) -> (r: Vec<(&GalleryEntry, bool)>)
        requires
            self.wf(),
        ensures
            is_listing(
                Seq::new(r@.len(), |i: int| r@[i].0@),
                self.catalog(),
                self.catalog().dom(),
            ),
            forall|i: int|
                0 <= i < r@.len() ==> (#[trigger] r@[i]).1 == self.unlocked_ids().contains(
                    r@[i].0.id@,
                ),
    {
        let mut idx: Vec<usize> = Vec::new();
        let mut j: usize = 0;
        while j < self.entries.len()
            invariant
                0 <= j <= self.entries@.len(),
                idx@ == Seq::new(j as nat, |i: int| i as usize),
            decreases self.entries@.len() - j,
        {
            idx.push(j);
            j += 1;
            assert(idx@ =~= Seq::new(j as nat, |i: int| i as usize));
        }
        proof {
            assert forall|j: int|
                0 <= j < self.entries@.len() implies (idx@.contains(j as usize)
                <==> self.catalog().dom().contains(#[trigger] self.entries@[j].id@)) by {
                assert(idx@[j] == j as usize);
                lemma_catalog_at(self.entries@, j);
            }
        }
        let order = sort_by_gallery_order(&self.entries, &idx);
        let mut r: Vec<(&GalleryEntry, bool)> = Vec::new();
        let mut k: usize = 0;
        while k < order.len()
            invariant
                self.wf(),
                0 <= k <= order@.len(),
                forall|i: int| 0 <= i < order@.len() ==> #[trigger] order@[i] < self.entries@.len(),
                r@.len() == k,
                forall|i: int|
                    0 <= i < k ==> *(#[trigger] r@[i]).0 == self.entries@[order@[i] as int],
                forall|i: int|
                    0 <= i < k ==> (#[trigger] r@[i]).1 == self.unlocked_ids().contains(
                        r@[i].0.id@,
                    ),
            decreases order@.len() - k,
        {
            let e = &self.entries[order[k]];
            let c = chars_of(e.id.as_str());
            let u = has_id(&self.unlocked, c.as_slice());
            proof {
                assert(strs_view(self.unlocked@).to_set().contains(c@) == strs_view(
                    self.unlocked@,
                ).contains(c@));
            }
            r.push((e, u));
            k += 1;
        }
        proof {
            assert(self.entries@.len() == self.entries.len());
            self.lemma_listing(order@, idx@, self.catalog().dom());
            assert(Seq::new(r@.len(), |i: int| r@[i].0@) =~= Seq::new(
                order@.len(),
                |i: int| self.entries@[order@[i] as int]@,
            ));
        }
        r
    }

    /// Unlocked entries of one group, in gallery order.
    pub fn list_unlocked_in_group(&self, group: &str) -> (r: Vec<&GalleryEntry>)
        requires
            self.wf(),
        ensures
            is_listing(
                Seq::new(r@.len(), |i: int| r@[i]@),
                self.catalog(),
                self.unlocked_ids().filter(
                    |k: Seq<char>| self.catalog().contains_key(k) && self.catalog()[k].group == group@,
                ),
            ),
    {
        let all = self.list_unlocked();
        let g = chars_of(group);
        let ghost src = Seq::new(all@.len(), |i: int| all@[i]@);
        let ghost sel = self.unlocked_ids().filter(
            |k: Seq<char>| self.catalog().contains_key(k) && self.catalog()[k].group == group@,
        );
        let mut r: Vec<&GalleryEntry> = Vec::new();
        let ghost pos: Seq<int> = seq![];
        let mut k: usize = 0;
        while k < all.len()
            invariant
                0 <= k <= all@.len(),
                src == Seq::new(all@.len(), |i: int| all@[i]@),
                is_listing(src, self.catalog(), self.unlocked_ids()),
                sel == self.unlocked_ids().filter(
                    |k: Seq<char>| self.catalog().contains_key(k) && self.catalog()[k].group
                        == group@,
                ),
                g@ == group@,
                pos.len() == r@.len(),
                forall|i: int| 0 <= i < pos.len() ==> 0 <= #[trigger] pos[i] < k,
                forall|i: int| 0 <= i < pos.len() ==> *#[trigger] r@[i] == *all@[pos[i]],
                forall|a: int, b: int| 0 <= a < b < pos.len() ==> #[trigger] pos[a] < #[trigger] pos[b],
                forall|i: int| 0 <= i < r@.len() ==> (#[trigger] r@[i]).group@ == group@,
                forall|m: int|
                    0 <= m < k && (#[trigger] all@[m]).group@ == group@ ==> exists|i: int|
                        0 <= i < pos.len() && pos[i] == m,
            decreases all@.len() - k,
        {
            let e = all[k];
            let c = chars_of(e.group.as_str());
            let ghost pos0 = pos;
            if chars_eq(c.as_slice(), g.as_slice()) {
                proof {
                    pos = pos.push(k as int);
                }
                r.push(e);
                proof {
                    assert(pos[pos.len() - 1] == k as int);
                }
            }
            proof {
                assert forall|m: int|
                    0 <= m < k + 1 && (#[trigger] all@[m]).group@ == group@ implies exists|i: int|
                    0 <= i < pos.len() && pos[i] == m by {
                    if m == k {
                        assert(pos[pos.len() - 1] == k as int);
                    } else {
                        let i0 = choose|i: int| 0 <= i < pos0.len() && pos0[i] == m;
                        assert(pos[i0] == m);
                    }
                }
            }
            k += 1;
        }
        proof {
            let out = Seq::new(r@.len(), |i: int| r@[i]@);
            assert forall|i: int| 0 <= i < out.len() implies sel.contains(#[trigger] out[i].id)
                && self.catalog().contains_key(out[i].id) && self.catalog()[out[i].id] == out[i] by {
                assert(out[i] == src[pos[i]]);
            }
            assert forall|key: Seq<char>| sel.contains(key) && #[trigger] self.catalog().contains_key(
                key,
            ) implies exists|i: int| 0 <= i < out.len() && (#[trigger] out[i]).id == key by {
                let m = choose|m: int| 0 <= m < src.len() && (#[trigger] src[m]).id == key;
                assert(all@[m].group@ == group@);
                let i = choose|i: int| 0 <= i < pos.len() && pos[i] == m;
                assert(out[i] == src[m]);
            }
            assert forall|i: int, j: int| 0 <= i < j < out.len() implies gallery_before(
                #[trigger] out[i],
                #[trigger] out[j],
            ) by {
                assert(out[i] == src[pos[i]]);
                assert(out[j] == src[pos[j]]);
            }
        }
        r
    }

    /// Number of unlocked ids and of catalog entries, for progress UI.
    pub fn progress(&self) -> (r: (usize, usize))
        requires
            self.wf(),
        ensures
            r.0 == self.unlocked_ids().len(),
            r.1 == self.catalog().dom().len(),
    {
        proof {
            strs_view(self.unlocked@).unique_seq_to_set();
            entry_ids(self.entries@).unique_seq_to_set();
            assert(self.catalog().dom() =~= entry_ids(self.entries@).to_set());
        }
        (self.unlocked.len(), self.entries.len())
    }

    /// Export the unlock set for embedding in saves.
    pub fn unlock_set(&self) -> (r: Vec<String>)
        requires
            self.wf(),
        ensures
            strs_view(r@).no_duplicates(),
            strictly_sorted(strs_view(r@)),
            strs_view(r@).to_set() == self.unlocked_ids(),
    {
        sorted_strings(&self.unlocked)
    }

    /// Merge unlocks from a save (union); unknown ids are kept.
    pub fn apply_unlock_set(&mut self, set: Vec<String>)
        requires
            old(self).wf(),
        ensures
            final(self).wf(),
            final(self).catalog() == old(self).catalog(),
            final(self).unlocked_ids() == old(self).unlocked_ids().union(strs_view(set@).to_set()),
    {
        let ghost u0 = self.unlocked_ids();
        let mut k: usize = 0;
        while k < set.len()
            invariant
                0 <= k <= set@.len(),
                self.wf(),
                self.catalog() == old(self).catalog(),
                self.unlocked_ids() == u0.union(strs_view(set@).take(k as int).to_set()),
            decreases set@.len() - k,
        {
            insert_id(&mut self.unlocked, set[k].as_str());
            proof {
                assert(strs_view(set@).take(k + 1) =~= strs_view(set@).take(k as int).push(
                    set@[k as int]@,
                ));
                strs_view(set@).take(k as int).lemma_push_to_set_commute(set@[k as int]@);
                assert(self.unlocked_ids() =~= u0.union(strs_view(set@).take(k + 1).to_set()));
            }
            k += 1;
        }
        assert(strs_view(set@).take(k as int) =~= strs_view(set@));
    }

    /// Clear all unlocks, then re-apply the entries unlocked by default.
    pub fn clear_unlocks(&mut self)
        requires
            old(self).wf(),
        ensures
            final(self).wf(),
            final(self).catalog() == old(self).catalog(),
            final(self).unlocked_ids() == old(self).catalog().dom().filter(
                |k: Seq<char>| old(self).catalog()[k].unlocked_by_default,
            ),
    {
        let ghost cat = self.catalog();
        let ghost target = cat.dom().filter(|k: Seq<char>| cat[k].unlocked_by_default);
        self.unlocked = Vec::new();
        let mut j: usize = 0;
        proof {
            assert(self.unlocked_ids() =~= Set::<Seq<char>>::empty());
        }
        while j < self.entries.len()
            invariant
                0 <= j <= self.entries@.len(),
                self.wf(),
                cat == self.catalog(),
                self.unlocked_ids() == Set::new(
                    |k: Seq<char>|
                        exists|m: int|
                            0 <= m < j && self.entries@[m].id@ == k
                                && self.entries@[m].unlocked_by_default,
                ),
            decreases self.entries@.len() - j,
        {
            let ghost u = self.unlocked_ids();
            if self.entries[j].unlocked_by_default {
                let id = owned(self.entries[j].id.as_str());
                insert_id(&mut self.unlocked, id.as_str());
            }
            proof {
                assert(self.unlocked_ids() =~= Set::new(
                    |k: Seq<char>|
                        exists|m: int|
                            0 <= m < j + 1 && self.entries@[m].id@ == k
                                && self.entries@[m].unlocked_by_default,
                ));
            }
            j += 1;
        }
        proof {
            assert forall|k: Seq<char>| self.unlocked_ids().contains(k) <==> target.contains(k) by {
                if self.unlocked_ids().contains(k) {
                    let m = choose|m: int|
                        0 <= m < j && self.entries@[m].id@ == k
                            && self.entries@[m].unlocked_by_default;
                    lemma_catalog_at(self.entries@, m);
                }
                if target.contains(k) {
                    lemma_catalog_key(self.entries@, k);
                    let m = choose|m: int| 0 <= m < self.entries@.len() && self.entries@[m].id@ == k;
                    lemma_catalog_at(self.entries@, m);
                }
            }
            assert(self.unlocked_ids() =~= target);
        }
    }
}

impl GalleryEntry {
    /// A field-by-field copy.
    pub fn clone_entry(&self) -> (r: Self)
        ensures
            r@ == self@,
    {
        GalleryEntry {
            id: owned(self.id.as_str()),
            title: owned(self.title.as_str()),
            path: owned(self.path.as_str()),
            group: owned(self.group.as_str()),
            sort_order: self.sort_order,
            unlocked_by_default: self.unlocked_by_default,
        }
    }
}

/// Catalog after registering `es` in order.
pub open spec fn catalog_after(cat: Map<Seq<char>, EntrySpec>, es: Seq<GalleryEntry>) -> Map<
    Seq<char>,
    EntrySpec,
>
    decreases es.len(),
{
    if es.len() == 0 {
        cat
    } else {
        catalog_after(cat, es.drop_last()).insert(es.last().id@, es.last()@)
    }
}

/// Unlock set after registering `es` in order.
pub open spec fn unlocked_after(u: Set<Seq<char>>, es: Seq<GalleryEntry>) -> Set<Seq<char>>
    decreases es.len(),
{
    if es.len() == 0 {
        u
    } else if es.last().unlocked_by_default {
        unlocked_after(u, es.drop_last()).insert(es.last().id@)
    } else {
        unlocked_after(u, es.drop_last())
    }
}

/// Ids unlocked by default in a catalog.
pub open spec fn default_ids(cat: Map<Seq<char>, EntrySpec>) -> Set<Seq<char>> {
    cat.dom().filter(|k: Seq<char>| cat[k].unlocked_by_default)
}

/// Save / restore of unlocks: when the unlock set saved from one collection
/// (`saved`, whose ids are the unlocked ids `u`) is applied to a cleared
/// collection with the same catalog, the ids unlocked afterwards are exactly
/// the defaults and the saved ids, so every id unlocked before saving is
/// unlocked again.
pub proof fn lemma_unlock_roundtrip(cat: Map<Seq<char>, EntrySpec>, saved: Seq<Seq<char>>, u: Set<Seq<char>>)
    requires
        saved.to_set() == u,
    ensures
        default_ids(cat).union(saved.to_set()) == default_ids(cat).union(u),
        forall|id: Seq<char>| u.contains(id) ==> #[trigger] default_ids(cat).union(saved.to_set()).contains(id),
{
}

} // verus!
