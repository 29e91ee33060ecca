//! `{name}` placeholders in dialogue replaced by the values of story
//! variables, leaving markup tags such as `{color=#ff0}` or `{/b}` intact.

use vstd::prelude::*;

use crate::strings::{
    chars_of, chars_eq, extend_chars, has_char, slice_range, string_of, trim, trim_chars,
};
use crate::tags::{find_char, first_char, lemma_first_char};

verus! {

/// The display text of the first variable named `key`; empty when unset.
pub open spec fn rendered(vars: Seq<(Seq<char>, Seq<char>)>, key: Seq<char>) -> Seq<char>
    decreases vars.len(),
{
    if vars.len() == 0 {
        Seq::empty()
    } else if vars[0].0 == key {
        vars[0].1
    } else {
        rendered(vars.drop_first(), key)
    }
}

/// A braced name that is markup rather than a variable: empty, holding `=`
/// or `#`, or starting with `/`.
pub open spec fn is_markup_key(k: Seq<char>) -> bool {
    k.len() == 0 || k.contains('=') || k[0] == '/' || k.contains('#')
}

/// `s` with each closed `{name}` replaced by the rendered variable (name
/// trimmed) unless it is markup, which is kept as written. An unclosed `{`
/// keeps the rest of the text as it is.
pub open spec fn interpolated(vars: Seq<(Seq<char>, Seq<char>)>, s: Seq<char>) -> Seq<char>
    decreases s.len(),
{
    if s.len() == 0 {
        s
    } else if s[0] == '{' {
        let rest = s.drop_first();
        let e = first_char(rest, '}');
        if e < rest.len() {
            let name = rest.take(e as int);
            let key = trim(name);
            (if is_markup_key(key) {
                seq!['{'] + name + seq!['}']
            } else {
                rendered(vars, key)
            }) + interpolated(vars, rest.skip(e + 1int))
        } else {
            s
        }
    } else {
        seq![s[0]] + interpolated(vars, s.drop_first())
    }
}

/// Views of `(name, text)` string pairs.
pub open spec fn pairs_view(v: Seq<(String, String)>) -> Seq<(Seq<char>, Seq<char>)> {
    Seq::new(v.len(), |i: int| (v[i].0@, v[i].1@))
}

fn lookup_rendered(vars: &[(String, String)], key: &[char]) -> (r: Vec<char>)
    ensures
        r@ == rendered(pairs_view(vars@), key@),
{
    let ghost pv = pairs_view(vars@);
    let mut i: usize = 0;
    assert(pv.skip(0) =~= pv);
    while i < vars.len()
        invariant
            0 <= i <= vars@.len(),
            pv == pairs_view(vars@),
            rendered(pv, key@) == rendered(pv.skip(i as int), key@),
        decreases vars@.len() - i,
    {
        assert(pv.skip(i as int)[0] == (vars@[i as int].0@, vars@[i as int].1@));
        assert(pv.skip(i as int).drop_first() =~= pv.skip(i + 1));
        let name = chars_of(vars[i].0.as_str());
        if chars_eq(name.as_slice(), key) {
            return chars_of(vars[i].1.as_str());
        }
        i += 1;
    }
    Vec::new()
}

fn markup_key(k: &[char]) -> (b: bool)
    ensures
        b == is_markup_key(k@),
{
    k.len() == 0 || has_char(k, '=') || k[0] == '/' || has_char(k, '#')
}

/// Interpolate `{var}` placeholders in `text` with the display text of the
/// variables `vars` (`(name, text)` pairs, the first of a name winning;
/// an unset variable renders empty).
pub fn interpolate_rendered(text: &str, vars: &[(String, String)]) -> (r: String)
    ensures
        r@ == interpolated(pairs_view(vars@), text@),
{
    let ghost pv = pairs_view(vars@);
    let v = chars_of(text);
    let mut out: Vec<char> = Vec::new();
    let mut i: usize = 0;
    let mut done = false;
    assert(v@.skip(0) =~= v@);
    while i < v.len() && !done
        invariant
            0 <= i <= v@.len(),
            v@ == text@,
            pv == pairs_view(vars@),
            interpolated(pv, text@) == if done {
                out@
            } else {
                out@ + interpolated(pv, v@.skip(i as int))
            },
        decreases v@.len() - i, if done {
            0int
        } else {
            1int
        },
    {
        let ghost s = v@.skip(i as int);
        let ghost o = out@;
        assert(s[0] == v@[i as int]);
        if v[i] == '{' {
            let n = v.len();
            let rest = slice_range(v.as_slice(), i + 1, n);
            assert(rest@ =~= s.drop_first());
            let e = find_char(rest.as_slice(), '}');
            proof {
                lemma_first_char(rest@, '}');
            }
            if e < rest.len() {
                let name = slice_range(rest.as_slice(), 0, e);
                assert(name@ =~= rest@.take(e as int));
                let key = trim_chars(name.as_slice());
                if markup_key(key.as_slice()) {
                    out.push('{');
                    extend_chars(&mut out, name.as_slice());
                    out.push('}');
                    assert(out@ =~= o + (seq!['{'] + name@ + seq!['}']));
                } else {
                    let val = lookup_rendered(vars, key.as_slice());
                    extend_chars(&mut out, val.as_slice());
                }
                assert(rest@.skip(e + 1int) =~= v@.skip(i + e + 2));
                i = i + e + 2;
            } else {
                out.push('{');
                extend_chars(&mut out, rest.as_slice());
                assert(out@ =~= o + s) by {
                    assert(s =~= seq!['{'] + s.drop_first());
                }
                done = true;
            }
        } else {
            out.push(v[i]);
            assert(s.drop_first() =~= v@.skip(i + 1));
            assert(out@ + interpolated(pv, v@.skip(i + 1)) =~= o + (seq![s[0]] + interpolated(
                pv,
                s.drop_first(),
            )));
            i = i + 1;
        }
    }
    if !done {
        assert(v@.skip(i as int).len() == 0);
        assert(out@ + Seq::<char>::empty() =~= out@);
    }
    string_of(out.as_slice())
}

} // verus!
