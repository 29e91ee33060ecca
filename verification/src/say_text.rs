//! Say-box text: inline `{…}` tags stripped for display, with the values of
//! `{cps=…}` speed tags collected.

use vstd::prelude::*;

use crate::strings::{chars_of, matches_at, occurs_at, slice_range, string_of, trim, trim_chars};
use crate::tags::{find_char, first_char, lemma_first_char};

verus! {

/// The prefix of a speed tag.
pub open spec fn cps_tag() -> Seq<char> {
    "cps="@
}

/// Plain text of `s` with every closed `{…}` tag removed, and the values of
/// its `cps=` tags (tag text trimmed, prefix dropped), in order. An unclosed
/// `{` is kept as text.
pub open spec fn say_parts(s: Seq<char>) -> (Seq<char>, Seq<Seq<char>>)
    decreases s.len(),
{
    if s.len() == 0 {
        (Seq::empty(), Seq::empty())
    } else if s[0] == '{' && first_char(s, '}') < s.len() {
        let rel = first_char(s, '}');
        let t = trim(s.subrange(1, rel as int));
        let rest = say_parts(s.skip(rel + 1int));
        (
            rest.0,
            if occurs_at(t, cps_tag(), 0) {
                seq![t.skip(cps_tag().len() as int)] + rest.1
            } else {
                rest.1
            },
        )
    } else {
        let rest = say_parts(s.drop_first());
        (seq![s[0]] + rest.0, rest.1)
    }
}

/// Plain say text and the raw values of its `{cps=…}` tags, in order.
pub fn say_markup_parts(markup: &str) -> (r: (String, Vec<String>))
    ensures
        r.0@ == say_parts(markup@).0,
        r.1@.len() == say_parts(markup@).1.len(),
        forall|k: int| 0 <= k < r.1@.len() ==> #[trigger] r.1@[k]@ == say_parts(markup@).1[k],
{
    let v = chars_of(markup);
    let tag = chars_of("cps=");
    let mut plain: Vec<char> = Vec::new();
    let mut cps: Vec<String> = Vec::new();
    let ghost mut cps_v: Seq<Seq<char>> = Seq::empty();
    let mut i: usize = 0;
    assert(v@.skip(0) =~= v@);
    while i < v.len()
        invariant
            0 <= i <= v@.len(),
            v@ == markup@,
            tag@ == cps_tag(),
            cps@.len() == cps_v.len(),
            forall|k: int| 0 <= k < cps@.len() ==> #[trigger] cps@[k]@ == cps_v[k],
            say_parts(markup@).0 == plain@ + say_parts(v@.skip(i as int)).0,
            say_parts(markup@).1 == cps_v + say_parts(v@.skip(i as int)).1,
        decreases v@.len() - i,
    {
        let ghost s = v@.skip(i as int);
        let n = v.len();
        let rest = slice_range(v.as_slice(), i, n);
        assert(rest@ =~= s);
        let rel = find_char(rest.as_slice(), '}');
        proof {
            lemma_first_char(s, '}');
        }
        assert(s[0] == v@[i as int]);
        if v[i] == '{' && rel < rest.len() {
            let inner = slice_range(rest.as_slice(), 1, rel);
            let t = trim_chars(inner.as_slice());
            assert(s.skip(rel + 1int) =~= v@.skip(i + rel + 1));
            if matches_at(t.as_slice(), tag.as_slice(), 0) {
                let m = t.len();
                let val = slice_range(t.as_slice(), tag.len(), m);
                assert(val@ =~= t@.skip(cps_tag().len() as int));
                proof {
                    assert(cps_v + (seq![val@] + say_parts(v@.skip(i + rel + 1)).1) =~= cps_v.push(
                        val@,
                    ) + say_parts(v@.skip(i + rel + 1)).1);
                    cps_v = cps_v.push(val@);
                }
                cps.push(string_of(val.as_slice()));
            }
            i = i + rel + 1;
        } else {
            let ghost p0 = plain@;
            plain.push(v[i]);
            assert(s.drop_first() =~= v@.skip(i + 1));
            assert(p0 + (seq![s[0]] + say_parts(s.drop_first()).0) =~= plain@ + say_parts(
                v@.skip(i + 1),
            ).0);
            i = i + 1;
        }
    }
    assert(v@.skip(i as int).len() == 0);
    assert(plain@ + Seq::<char>::empty() =~= plain@);
    assert(cps_v + Seq::<Seq<char>>::empty() =~= cps_v);
    (string_of(plain.as_slice()), cps)
}

} // verus!
