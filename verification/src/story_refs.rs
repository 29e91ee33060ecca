//! References inside story sources: `id.expression` show targets and the
//! `line:col` positions that parser messages carry.

use vstd::prelude::*;

use crate::strings::{chars_of, slice_range, string_of};
use crate::tags::{find_char, first_char, lemma_first_char};

verus! {

/// The character id of a show/hide target (text before the first `.`).
pub open spec fn target_id(t: Seq<char>) -> Seq<char> {
    t.take(first_char(t, '.') as int)
}

/// The expression of a target (text after the first `.`), if it has one.
pub open spec fn target_expression(t: Seq<char>) -> Option<Seq<char>> {
    if first_char(t, '.') < t.len() {
        Some(t.skip(first_char(t, '.') + 1int))
    } else {
        None
    }
}

/// Splits `aria.happy` into `("aria", Some("happy"))`; a target without a
/// dot is all id.
pub fn split_target(target: &str) -> (r: (String, Option<String>))
    ensures
        r.0@ == target_id(target@),
        match r.1 {
            Some(e) => target_expression(target@) == Some(e@),
            None => target_expression(target@) is None,
        },
{
    let v = chars_of(target);
    let k = find_char(v.as_slice(), '.');
    proof {
        lemma_first_char(v@, '.');
    }
    if k < v.len() {
        let id = slice_range(v.as_slice(), 0, k);
        let ex = slice_range(v.as_slice(), k + 1, v.len());
        assert(id@ =~= target_id(target@));
        assert(ex@ =~= target@.skip(k + 1int));
        (string_of(id.as_slice()), Some(string_of(ex.as_slice())))
    } else {
        assert(v@.take(k as int) =~= v@);
        (String::from_str(target), None)
    }
}

/// Separators between the pieces of a position string.
pub open spec fn is_loc_sep(c: char) -> bool {
    c == ':' || c == ' '
}

/// Index of the first separator in `s`, or `s.len()`.
pub open spec fn first_sep(s: Seq<char>) -> nat
    decreases s.len(),
{
    if s.len() == 0 {
        0
    } else if is_loc_sep(s[0]) {
        0
    } else {
        1 + first_sep(s.drop_first())
    }
}

/// `s` split at every `:` and every space, empty pieces kept
/// (`str::split([':', ' '])`).
pub open spec fn loc_pieces(s: Seq<char>) -> Seq<Seq<char>>
    decreases s.len(),
{
    let k = first_sep(s);
    if k < s.len() {
        seq![s.take(k as int)] + loc_pieces(s.skip(k + 1int))
    } else {
        seq![s]
    }
}

/// Value of a string of decimal digits.
pub open spec fn digits_value(d: Seq<char>) -> nat
    decreases d.len(),
{
    if d.len() == 0 {
        0
    } else {
        digits_value(d.drop_last()) * 10 + ((d.last() as nat) - ('0' as nat)) as nat
    }
}

/// Every character is an ASCII digit.
pub open spec fn all_digits(d: Seq<char>) -> bool {
    forall|k: int| 0 <= k < d.len() ==> '0' <= #[trigger] d[k] <= '9'
}

/// What `u32::from_str` accepts: an optional `+`, then one or more ASCII
/// digits whose value fits in a `u32`.
pub open spec fn parse_u32_spec(p: Seq<char>) -> Option<u32> {
    let d = if p.len() > 0 && p[0] == '+' {
        p.drop_first()
    } else {
        p
    };
    if d.len() > 0 && all_digits(d) && digits_value(d) <= u32::MAX {
        Some(digits_value(d) as u32)
    } else {
        None
    }
}

/// The numbers among `pieces`, in order.
pub open spec fn piece_numbers(pieces: Seq<Seq<char>>) -> Seq<u32>
    decreases pieces.len(),
{
    if pieces.len() == 0 {
        seq![]
    } else {
        let rest = piece_numbers(pieces.drop_first());
        match parse_u32_spec(pieces[0]) {
            Some(n) => seq![n] + rest,
            None => rest,
        }
    }
}

/// The first two numbers of a position string as `(line, column)`; the
/// column is 1 when only one number occurs, and both are 1 when none does.
pub open spec fn line_col(s: Seq<char>) -> (u32, u32) {
    let nums = piece_numbers(loc_pieces(s));
    if nums.len() >= 2 {
        (nums[0], nums[1])
    } else if nums.len() == 1 {
        (nums[0], 1)
    } else {
        (1, 1)
    }
}

/// Parses `p` as `u32::from_str` does.
pub fn parse_u32(p: &[char]) -> (r: Option<u32>)
    ensures
        r == parse_u32_spec(p@),
{
    let start: usize = if p.len() > 0 && p[0] == '+' {
        1
    } else {
        0
    };
    let ghost d = p@.skip(start as int);
    assert(d =~= (if p@.len() > 0 && p@[0] == '+' {
        p@.drop_first()
    } else {
        p@
    }));
    if start >= p.len() {
        return None;
    }
    let limit: u64 = 0x1_0000_0000;
    let mut val: u64 = 0;
    let mut i: usize = start;
    while i < p.len()
        invariant
            start <= i <= p.len(),
            limit == 0x1_0000_0000u64,
            d == p@.skip(start as int),
            d == (if p@.len() > 0 && p@[0] == '+' {
                p@.drop_first()
            } else {
                p@
            }),
            all_digits(p@.subrange(start as int, i as int)),
            val <= limit,
            val < limit ==> val == digits_value(p@.subrange(start as int, i as int)),
            val == limit ==> digits_value(p@.subrange(start as int, i as int)) >= limit,
        decreases p.len() - i,
    {
        let c = p[i];
        if !('0' <= c && c <= '9') {
            assert(d[i - start] == c);
            assert(!all_digits(d));
            return None;
        }
        let ghost pre = p@.subrange(start as int, i as int);
        let ghost next = p@.subrange(start as int, i + 1);
        assert(next.drop_last() =~= pre);
        assert(next.last() == c);
        let dig: u64 = (c as u64) - ('0' as u64);
        if val < limit {
            let nv = val * 10 + dig;
            if nv >= limit {
                val = limit;
            } else {
                val = nv;
            }
        }
        i += 1;
        assert(all_digits(next)) by {
            assert forall|k: int| 0 <= k < next.len() implies '0' <= #[trigger] next[k] <= '9' by {
                if k < pre.len() {
                    assert(next[k] == pre[k]);
                }
            }
        }
    }
    assert(p@.subrange(start as int, p.len() as int) =~= d);
    if val < limit {
        Some(val as u32)
    } else {
        None
    }
}

/// Index of the first `:` or space in `v` at or after `from`, or `v.len()`.
fn find_sep(v: &[char], from: usize) -> (k: usize)
    requires
        from <= v.len(),
    ensures
        k == from + first_sep(v@.skip(from as int)),
        from <= k <= v.len(),
{
    let mut k = from;
    assert(v@.skip(from as int).skip(0) =~= v@.skip(from as int));
    while k < v.len() && v[k] != ':' && v[k] != ' '
        invariant
            from <= k <= v.len(),
            from + first_sep(v@.skip(from as int)) == k + first_sep(v@.skip(k as int)),
        decreases v.len() - k,
    {
        assert(v@.skip(k as int).drop_first() =~= v@.skip(k + 1));
        k += 1;
    }
    if k < v.len() {
        assert(v@.skip(k as int)[0] == v@[k as int]);
    }
    k
}

/// `first_sep` of a suffix is bounded by the suffix.
proof fn lemma_first_sep(s: Seq<char>)
    ensures
        first_sep(s) <= s.len(),
        first_sep(s) < s.len() ==> is_loc_sep(s[first_sep(s) as int]),
    decreases s.len(),
{
    if s.len() > 0 && !is_loc_sep(s[0]) {
        lemma_first_sep(s.drop_first());
    }
}

/// The `(line, column)` of a parser position such as `story.vel:12:3`.
pub fn parse_line_col(s: &str) -> (r: (u32, u32))
    ensures
        r == line_col(s@),
{
    let v = chars_of(s);
    let ghost all = piece_numbers(loc_pieces(v@));
    let mut nums: Vec<u32> = Vec::new();
    let mut i: usize = 0;
    let mut done = false;
    assert(v@.skip(0) =~= v@);
    while !done
        invariant
            i <= v.len(),
            !done ==> all == nums@ + piece_numbers(loc_pieces(v@.skip(i as int))),
            done ==> all == nums@,
        decreases v.len() - i, if done { 0int } else { 1int },
    {
        let k = find_sep(v.as_slice(), i);
        let piece = slice_range(v.as_slice(), i, k);
        let ghost rest = v@.skip(i as int);
        proof {
            lemma_first_sep(rest);
        }
        assert(piece@ =~= rest.take(first_sep(rest) as int));
        let parsed = parse_u32(piece.as_slice());
        let ghost nums0 = nums@;
        match parsed {
            Some(n) => nums.push(n),
            None => {},
        }
        if k < v.len() {
            assert(rest.skip(first_sep(rest) + 1int) =~= v@.skip(k + 1));
            let ghost tail = loc_pieces(v@.skip(k + 1));
            assert(loc_pieces(rest) == seq![piece@] + tail);
            assert((seq![piece@] + tail).drop_first() =~= tail);
            assert(nums@ + piece_numbers(tail) =~= nums0 + piece_numbers(loc_pieces(rest)));
            i = k + 1;
        } else {
            assert(loc_pieces(rest) == seq![rest]);
            assert(piece@ =~= rest);
            let ghost one = seq![rest];
            assert(one.drop_first() =~= Seq::<Seq<char>>::empty());
            assert(piece_numbers(Seq::<Seq<char>>::empty()) =~= Seq::<u32>::empty());
            assert(piece_numbers(one) == match parse_u32_spec(rest) {
                Some(n) => seq![n] + Seq::<u32>::empty(),
                None => Seq::<u32>::empty(),
            });
            assert(nums@ =~= nums0 + piece_numbers(one));
            done = true;
        }
    }
    if nums.len() >= 2 {
        (nums[0], nums[1])
    } else if nums.len() == 1 {
        (nums[0], 1)
    } else {
        (1, 1)
    }
}

} // verus!
