//! Attribute bodies of inline markup tags (`{ruby text=かな}`,
//! `{icon id=star}`): quote trimming, `key=value` parts and lookups.

use vstd::prelude::*;

use crate::strings::{
    has_char, has_whitespace, is_whitespace, is_ws, slice_range, split_whitespace, str_eq, trim,
    trim_chars, words,
};

verus! {

/// `s` without its leading `"` characters.
pub open spec fn trim_quotes_left(s: Seq<char>) -> Seq<char>
    decreases s.len(),
{
    if s.len() > 0 && s[0] == '"' {
        trim_quotes_left(s.drop_first())
    } else {
        s
    }
}

/// `s` without its trailing `"` characters.
pub open spec fn trim_quotes_right(s: Seq<char>) -> Seq<char>
    decreases s.len(),
{
    if s.len() > 0 && s.last() == '"' {
        trim_quotes_right(s.drop_last())
    } else {
        s
    }
}

/// `str::trim_matches('"')`.
pub open spec fn trim_quotes(s: Seq<char>) -> Seq<char> {
    trim_quotes_right(trim_quotes_left(s))
}

/// `s` with `"` trimmed from both ends.
pub fn trim_quote_chars(v: &[char]) -> (r: Vec<char>)
    ensures
        r@ == trim_quotes(v@),
{
    let mut i: usize = 0;
    assert(v@.skip(0) =~= v@);
    while i < v.len() && v[i] == '"'
        invariant
            0 <= i <= v.len(),
            trim_quotes_left(v@) == trim_quotes_left(v@.skip(i as int)),
        decreases v.len() - i,
    {
        assert(v@.skip(i as int).drop_first() =~= v@.skip(i + 1));
        i += 1;
    }
    if i < v.len() {
        assert(v@.skip(i as int)[0] == v@[i as int]);
    }
    assert(v@.skip(i as int) =~= v@.subrange(i as int, v.len() as int));
    let mut e: usize = v.len();
    while e > i && v[e - 1] == '"'
        invariant
            i <= e <= v.len(),
            trim_quotes(v@) == trim_quotes_right(v@.subrange(i as int, e as int)),
        decreases e,
    {
        assert(v@.subrange(i as int, e as int).drop_last() =~= v@.subrange(i as int, e - 1));
        e -= 1;
    }
    slice_range(v, i, e)
}

/// Index of the first `c` in `s`, or `s.len()` when there is none.
pub open spec fn first_char(s: Seq<char>, c: char) -> nat
    decreases s.len(),
{
    if s.len() == 0 {
        0
    } else if s[0] == c {
        0
    } else {
        1 + first_char(s.drop_first(), c)
    }
}

/// `first_char` is the index of the first occurrence, or the length.
pub proof fn lemma_first_char(s: Seq<char>, c: char)
    ensures
        first_char(s, c) <= s.len(),
        first_char(s, c) < s.len() ==> s[first_char(s, c) as int] == c,
        forall|k: int| 0 <= k < first_char(s, c) ==> s[k] != c,
        first_char(s, c) == s.len() <==> !s.contains(c),
    decreases s.len(),
{
    if s.len() > 0 && s[0] != c {
        lemma_first_char(s.drop_first(), c);
        assert forall|k: int| 0 <= k < first_char(s, c) implies s[k] != c by {
            if k > 0 {
                assert(s[k] == s.drop_first()[k - 1]);
            }
        }
        if s.drop_first().contains(c) {
            let k = choose|k: int| 0 <= k < s.drop_first().len() && s.drop_first()[k] == c;
            assert(s[k + 1] == c);
        }
        if s.contains(c) {
            let k = choose|k: int| 0 <= k < s.len() && s[k] == c;
            assert(s.drop_first()[k - 1] == c);
        }
    }
}

/// Position of the first `c` in `v`, or `v.len()`.
pub fn find_char(v: &[char], c: char) -> (i: usize)
    ensures
        i == first_char(v@, c),
{
    let mut i: usize = 0;
    assert(v@.skip(0) =~= v@);
    while i < v.len() && v[i] != c
        invariant
            0 <= i <= v.len(),
            first_char(v@, c) == i + first_char(v@.skip(i as int), c),
        decreases v.len() - i,
    {
        assert(v@.skip(i as int).drop_first() =~= v@.skip(i + 1));
        i += 1;
    }
    if i < v.len() {
        assert(v@.skip(i as int)[0] == v@[i as int]);
    }
    i
}

/// The key of a `key=value` part (everything before the first `=`).
pub open spec fn part_key(p: Seq<char>) -> Seq<char> {
    p.take(first_char(p, '=') as int)
}

/// The value of a `key=value` part (everything after the first `=`).
pub open spec fn part_value(p: Seq<char>) -> Seq<char> {
    p.skip(first_char(p, '=') + 1int)
}

/// The part has an `=`.
pub open spec fn is_pair(p: Seq<char>) -> bool {
    first_char(p, '=') < p.len()
}

/// The value of the first `key=…` part among `parts`, quotes trimmed.
pub open spec fn lookup_pair(parts: Seq<Seq<char>>, key: Seq<char>) -> Option<Seq<char>>
    decreases parts.len(),
{
    if parts.len() == 0 {
        None
    } else if is_pair(parts[0]) && part_key(parts[0]) == key {
        Some(trim_quotes(part_value(parts[0])))
    } else {
        lookup_pair(parts.drop_first(), key)
    }
}

/// `s` contains a whitespace character.
pub open spec fn has_ws(s: Seq<char>) -> bool {
    exists|k: int| 0 <= k < s.len() && is_ws(#[trigger] s[k])
}

/// Attribute `key` of a tag body: the first whitespace-separated
/// `key=value` part; for `value`, a bare body without `=` or whitespace
/// counts too. Quotes around the value are trimmed.
pub open spec fn attr_of(attrs: Seq<char>, key: Seq<char>) -> Option<Seq<char>> {
    match lookup_pair(words(attrs), key) {
        Some(v) => Some(v),
        None => if key == "value"@ && attrs.len() > 0 && !attrs.contains('=') && !has_ws(attrs) {
            Some(trim_quotes(attrs))
        } else {
            None
        },
    }
}

/// Splits a part at its first `=`: `(is_pair, key, value)`.
pub fn split_pair(p: &[char]) -> (r: (bool, Vec<char>, Vec<char>))
    ensures
        r.0 == is_pair(p@),
        r.0 ==> r.1@ == part_key(p@) && r.2@ == part_value(p@),
{
    let e = find_char(p, '=');
    proof {
        lemma_first_char(p@, '=');
    }
    if e < p.len() {
        (true, slice_range(p, 0, e), slice_range(p, e + 1, p.len()))
    } else {
        (false, Vec::new(), Vec::new())
    }
}

fn lookup_pair_in(parts: &Vec<Vec<char>>, key: &[char]) -> (r: Option<Vec<char>>)
    ensures
        match r {
            Some(v) => lookup_pair(vecs_of(parts@), key@) == Some(v@),
            None => lookup_pair(vecs_of(parts@), key@) is None,
        },
{
    let mut i: usize = 0;
    let ghost ps = vecs_of(parts@);
    assert(ps.skip(0) =~= ps);
    while i < parts.len()
        invariant
            0 <= i <= parts.len(),
            ps == vecs_of(parts@),
            lookup_pair(ps, key@) == lookup_pair(ps.skip(i as int), key@),
        decreases parts.len() - i,
    {
        let part = &parts[i];
        assert(ps.skip(i as int)[0] == part@);
        assert(ps.skip(i as int).drop_first() =~= ps.skip(i + 1));
        let (ok, k, v) = split_pair(part.as_slice());
        if ok && crate::strings::chars_eq(k.as_slice(), key) {
            return Some(trim_quote_chars(v.as_slice()));
        }
        i += 1;
    }
    None
}

/// Views of character vectors.
pub open spec fn vecs_of(v: Seq<Vec<char>>) -> Seq<Seq<char>> {
    Seq::new(v.len(), |i: int| v[i]@)
}

/// Attribute `key` of the tag body `attrs` (see [`attr_of`]).
pub fn attr(attrs: &[char], key: &str) -> (r: Option<Vec<char>>)
    ensures
        match r {
            Some(v) => attr_of(attrs@, key@) == Some(v@),
            None => attr_of(attrs@, key@) is None,
        },
{
    let parts = split_whitespace(attrs);
    assert(vecs_of(parts@) =~= words(attrs@));
    let kv = crate::strings::chars_of(key);
    match lookup_pair_in(&parts, kv.as_slice()) {
        Some(v) => Some(v),
        None => {
            if str_eq(key, "value") && attrs.len() > 0 && !has_char(attrs, '=') && !has_whitespace(
                attrs,
            ) {
                Some(trim_quote_chars(attrs))
            } else {
                None
            }
        },
    }
}

/// Index of the first whitespace character of `s`, or `s.len()`.
pub open spec fn first_ws(s: Seq<char>) -> nat
    decreases s.len(),
{
    if s.len() == 0 {
        0
    } else if is_ws(s[0]) {
        0
    } else {
        1 + first_ws(s.drop_first())
    }
}

/// `first_ws` is the index of the first whitespace character, or the length.
pub proof fn lemma_first_ws(s: Seq<char>)
    ensures
        first_ws(s) <= s.len(),
        first_ws(s) < s.len() ==> is_ws(s[first_ws(s) as int]),
        forall|k: int| 0 <= k < first_ws(s) ==> !is_ws(s[k]),
        first_ws(s) == s.len() <==> !has_ws(s),
    decreases s.len(),
{
    if s.len() > 0 && !is_ws(s[0]) {
        lemma_first_ws(s.drop_first());
        assert forall|k: int| 0 <= k < first_ws(s) implies !is_ws(s[k]) by {
            if k > 0 {
                assert(s[k] == s.drop_first()[k - 1]);
            }
        }
        if has_ws(s.drop_first()) {
            let k = choose|k: int| 0 <= k < s.drop_first().len() && is_ws(s.drop_first()[k]);
            assert(is_ws(s[k + 1]));
        }
        if has_ws(s) {
            let k = choose|k: int| 0 <= k < s.len() && is_ws(#[trigger] s[k]);
            assert(is_ws(s.drop_first()[k - 1]));
        }
    } else if s.len() > 0 {
        assert(is_ws(s[0]));
    }
}

/// Position of the first whitespace character in `v`, or `v.len()`.
fn find_ws(v: &[char]) -> (i: usize)
    ensures
        i == first_ws(v@),
{
    let mut i: usize = 0;
    assert(v@.skip(0) =~= v@);
    while i < v.len() && !is_whitespace(v[i])
        invariant
            0 <= i <= v.len(),
            first_ws(v@) == i + first_ws(v@.skip(i as int)),
        decreases v.len() - i,
    {
        assert(v@.skip(i as int).drop_first() =~= v@.skip(i + 1));
        i += 1;
    }
    if i < v.len() {
        assert(v@.skip(i as int)[0] == v@[i as int]);
    }
    i
}

/// A markup tag body split into its name and its attributes: the tag is
/// trimmed; with whitespace, the name is the first word and the attributes
/// the trimmed rest; without whitespace but with `=` (`color=#ff0000`), the
/// two sides of the first `=`; otherwise the whole tag is the name.
pub open spec fn tag_parts(tag: Seq<char>) -> (Seq<char>, Seq<char>) {
    let t = trim(tag);
    if has_ws(t) {
        (t.take(first_ws(t) as int), trim(t.skip(first_ws(t) as int)))
    } else if t.contains('=') {
        (t.take(first_char(t, '=') as int), t.skip(first_char(t, '=') + 1int))
    } else {
        (t, seq![])
    }
}

/// Splits a markup tag body into name and attributes (see [`tag_parts`]).
pub fn split_tag(tag: &[char]) -> (r: (Vec<char>, Vec<char>))
    ensures
        (r.0@, r.1@) == tag_parts(tag@),
{
    let t = trim_chars(tag);
    let w = find_ws(t.as_slice());
    proof {
        lemma_first_ws(t@);
        lemma_first_char(t@, '=');
    }
    if w < t.len() {
        let name = slice_range(t.as_slice(), 0, w);
        let rest = slice_range(t.as_slice(), w, t.len());
        assert(rest@ =~= t@.skip(w as int));
        (name, trim_chars(rest.as_slice()))
    } else {
        let e = find_char(t.as_slice(), '=');
        if e < t.len() {
            let name = slice_range(t.as_slice(), 0, e);
            let value = slice_range(t.as_slice(), e + 1, t.len());
            assert(value@ =~= t@.skip(e + 1int));
            (name, value)
        } else {
            (t, Vec::new())
        }
    }
}

/// Attribute `key` of a markup tag's attributes: the first whitespace
/// separated `key=value` part, quotes trimmed; for `value`, attributes that
/// start with `#` or `"`, or that are one non-empty word, count whole.
pub open spec fn markup_attr(attrs: Seq<char>, key: Seq<char>) -> Option<Seq<char>> {
    match lookup_pair(words(attrs), key) {
        Some(v) => Some(v),
        None => if key == "value"@ && attrs.len() > 0 && (attrs[0] == '#' || attrs[0] == '"'
            || !has_ws(attrs)) {
            Some(trim_quotes(attrs))
        } else {
            None
        },
    }
}

/// Attribute `key` of markup tag attributes (see [`markup_attr`]).
pub fn attr_str(attrs: &[char], key: &str) -> (r: Option<Vec<char>>)
    ensures
        match r {
            Some(v) => markup_attr(attrs@, key@) == Some(v@),
            None => markup_attr(attrs@, key@) is None,
        },
{
    let parts = split_whitespace(attrs);
    assert(vecs_of(parts@) =~= words(attrs@));
    let kv = crate::strings::chars_of(key);
    match lookup_pair_in(&parts, kv.as_slice()) {
        Some(v) => Some(v),
        None => {
            if str_eq(key, "value") && attrs.len() > 0 && (attrs[0] == '#' || attrs[0] == '"'
                || !has_whitespace(attrs)) {
                Some(trim_quote_chars(attrs))
            } else {
                None
            }
        },
    }
}

/// A bare tag argument: attributes without `=`, quotes trimmed.
pub open spec fn unnamed_arg(attrs: Seq<char>) -> Option<Seq<char>> {
    if attrs.contains('=') || attrs.len() == 0 {
        None
    } else {
        Some(trim_quotes(attrs))
    }
}

/// The bare argument of a tag (`{icon star}`), if it has one.
pub fn first_unnamed_str(attrs: &[char]) -> (r: Option<Vec<char>>)
    ensures
        match r {
            Some(v) => unnamed_arg(attrs@) == Some(v@),
            None => unnamed_arg(attrs@) is None,
        },
{
    if has_char(attrs, '=') || attrs.len() == 0 {
        None
    } else {
        Some(trim_quote_chars(attrs))
    }
}

} // verus!
