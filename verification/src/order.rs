//! Lexicographic order on character sequences (the order of `String`s by
//! code point, which is also their UTF-8 byte order).

use vstd::prelude::*;

use crate::strings::{chars_of, owned, strs_view};

verus! {

/// `a` sorts strictly before `b`, comparing code points left to right; a
/// proper prefix sorts first.
pub open spec fn seq_lt(a: Seq<char>, b: Seq<char>) -> bool
    decreases a.len(),
{
    if a.len() == 0 {
        b.len() > 0
    } else if b.len() == 0 {
        false
    } else if a[0] < b[0] {
        true
    } else if a[0] == b[0] {
        seq_lt(a.drop_first(), b.drop_first())
    } else {
        false
    }
}

/// No sequence sorts before itself.
pub proof fn lemma_seq_lt_irreflexive(a: Seq<char>)
    ensures
        !seq_lt(a, a),
    decreases a.len(),
{
    if a.len() > 0 {
        lemma_seq_lt_irreflexive(a.drop_first());
    }
}

/// The order is transitive.
pub proof fn lemma_seq_lt_transitive(a: Seq<char>, b: Seq<char>, c: Seq<char>)
    requires
        seq_lt(a, b),
        seq_lt(b, c),
    ensures
        seq_lt(a, c),
    decreases a.len(),
{
    if a.len() > 0 && b.len() > 0 && c.len() > 0 {
        if a[0] == b[0] && b[0] == c[0] {
            lemma_seq_lt_transitive(a.drop_first(), b.drop_first(), c.drop_first());
        }
    }
}

/// Two different sequences are ordered one way or the other.
pub proof fn lemma_seq_lt_total(a: Seq<char>, b: Seq<char>)
    requires
        a != b,
    ensures
        seq_lt(a, b) || seq_lt(b, a),
    decreases a.len(),
{
    if a.len() > 0 && b.len() > 0 && a[0] == b[0] {
        if a.drop_first() == b.drop_first() {
            assert(a =~= seq![a[0]] + a.drop_first());
            assert(b =~= seq![b[0]] + b.drop_first());
        }
        lemma_seq_lt_total(a.drop_first(), b.drop_first());
    } else if a.len() == 0 && b.len() == 0 {
        assert(a =~= b);
    }
}

/// The order is asymmetric.
pub proof fn lemma_seq_lt_asymmetric(a: Seq<char>, b: Seq<char>)
    requires
        seq_lt(a, b),
    ensures
        !seq_lt(b, a),
{
    if seq_lt(b, a) {
        lemma_seq_lt_transitive(a, b, a);
        lemma_seq_lt_irreflexive(a);
    }
}

/// Whether `a` sorts strictly before `b`.
pub fn chars_lt(a: &[char], b: &[char]) -> (r: bool)
    ensures
        r == seq_lt(a@, b@),
{
    let mut i: usize = 0;
    assert(a@.skip(0) =~= a@);
    assert(b@.skip(0) =~= b@);
    while i < a.len() && i < b.len() && a[i] == b[i]
        invariant
            0 <= i <= a.len(),
            i <= b.len(),
            seq_lt(a@, b@) == seq_lt(a@.skip(i as int), b@.skip(i as int)),
        decreases a.len() - i,
    {
        assert(a@.skip(i as int).drop_first() =~= a@.skip(i + 1));
        assert(b@.skip(i as int).drop_first() =~= b@.skip(i + 1));
        i += 1;
    }
    if i == a.len() {
        i < b.len()
    } else if i == b.len() {
        false
    } else {
        assert(a@.skip(i as int)[0] == a@[i as int]);
        assert(b@.skip(i as int)[0] == b@[i as int]);
        a[i] < b[i]
    }
}

/// Sequences in strictly ascending order.
pub open spec fn strictly_sorted(s: Seq<Seq<char>>) -> bool {
    forall|i: int, j: int| 0 <= i < j < s.len() ==> seq_lt(#[trigger] s[i], #[trigger] s[j])
}

/// A copy of distinct strings in ascending order (the iteration order of a
/// `BTreeSet<String>`).
pub fn sorted_strings(v: &Vec<String>) -> (r: Vec<String>)
    requires
        strs_view(v@).no_duplicates(),
    ensures
        strs_view(r@).to_set() == strs_view(v@).to_set(),
        strs_view(r@).no_duplicates(),
        strictly_sorted(strs_view(r@)),
        r@.len() == v@.len(),
{
    let mut out: Vec<String> = Vec::new();
    let mut k: usize = 0;
    while k < v.len()
        invariant
            0 <= k <= v@.len(),
            strs_view(v@).no_duplicates(),
            strs_view(out@).to_set() == strs_view(v@).take(k as int).to_set(),
            out@.len() == k,
            strictly_sorted(strs_view(out@)),
        decreases v@.len() - k,
    {
        let x = chars_of(v[k].as_str());
        let ghost xs = x@;
        let ghost o = strs_view(out@);
        proof {
            assert(!o.contains(xs)) by {
                if o.contains(xs) {
                    assert(o.to_set().contains(xs));
                    assert(strs_view(v@).take(k as int).to_set().contains(xs));
                    let j = choose|j: int| 0 <= j < k && strs_view(v@).take(k as int)[j] == xs;
                    assert(strs_view(v@)[j] == strs_view(v@)[k as int]);
                }
            }
        }
        let mut p: usize = 0;
        let mut found = false;
        while p < out.len() && !found
            invariant
                0 <= p <= out@.len(),
                o == strs_view(out@),
                xs == x@,
                !o.contains(xs),
                strictly_sorted(o),
                forall|i: int| 0 <= i < p ==> seq_lt(#[trigger] o[i], xs),
                found ==> p < o.len() && seq_lt(xs, o[p as int]),
            decreases out@.len() - p, if found {
                0int
            } else {
                1int
            },
        {
            let y = chars_of(out[p].as_str());
            if chars_lt(x.as_slice(), y.as_slice()) {
                found = true;
            } else {
                proof {
                    assert(o[p as int] == y@);
                    assert(xs != o[p as int]);
                    lemma_seq_lt_total(xs, o[p as int]);
                }
                p += 1;
            }
        }
        proof {
            assert forall|i: int| p <= i < o.len() implies seq_lt(xs, #[trigger] o[i]) by {
                if i > p {
                    lemma_seq_lt_transitive(xs, o[p as int], o[i]);
                }
            }
        }
        let s = owned(v[k].as_str());
        out.insert(p, s);
        proof {
            let n = strs_view(out@);
            assert(n =~= o.insert(p as int, xs));
            assert forall|i: int, j: int| 0 <= i < j < n.len() implies seq_lt(
                #[trigger] n[i],
                #[trigger] n[j],
            ) by {
                if j < p {
                } else if j == p {
                } else if i < p {
                    lemma_seq_lt_transitive(n[i], xs, n[j]);
                } else if i == p {
                } else {
                }
            }
            assert(strs_view(v@).take(k + 1) =~= strs_view(v@).take(k as int).push(xs));
            strs_view(v@).take(k as int).lemma_push_to_set_commute(xs);
            assert(n.to_set() =~= o.to_set().insert(xs)) by {
                assert forall|e: Seq<char>| n.contains(e) <==> o.contains(e) || e == xs by {
                    if n.contains(e) {
                        let j = choose|j: int| 0 <= j < n.len() && n[j] == e;
                        if j < p {
                            assert(o[j] == e);
                        } else if j > p {
                            assert(o[j - 1] == e);
                        }
                    }
                    if o.contains(e) {
                        let j = choose|j: int| 0 <= j < o.len() && o[j] == e;
                        if j < p {
                            assert(n[j] == e);
                        } else {
                            assert(n[j + 1] == e);
                        }
                    }
                    if e == xs {
                        assert(n[p as int] == e);
                    }
                }
            }
        }
        k += 1;
    }
    proof {
        assert(strs_view(v@).take(v@.len() as int) =~= strs_view(v@));
        let n = strs_view(out@);
        assert forall|i: int, j: int| 0 <= i < j < n.len() implies n[i] != n[j] by {
            lemma_seq_lt_irreflexive(n[i]);
        }
    }
    out
}

} // verus!
