//! Inline icon placeholders `{icon=name}`: naming an icon from a tag body,
//! the name to glyph fallback map, and expansion of placeholders in text.

use vstd::prelude::*;

use crate::strings::{
    chars_of, extend_chars, find_from, has_char, is_whitespace, is_ws, occurs_at, owned, push_str, slice_range,
    split_whitespace, str_eq, string_of, strs_view, words,
};
use crate::tags::{
    find_char, first_char, is_pair, lemma_first_char, part_key, part_value, split_pair,
    trim_quote_chars, trim_quotes, vecs_of,
};

verus! {

/// Keys that name an icon inside a tag body.
pub open spec fn is_name_key(k: Seq<char>) -> bool {
    k == "id"@ || k == "name"@ || k == "value"@
}

/// The value of the last `id=`, `name=` or `value=` part, quotes trimmed
/// (`acc` when there is none).
pub open spec fn last_name(parts: Seq<Seq<char>>, acc: Option<Seq<char>>) -> Option<Seq<char>>
    decreases parts.len(),
{
    if parts.len() == 0 {
        acc
    } else {
        let p = parts[0];
        last_name(
            parts.drop_first(),
            if is_pair(p) && is_name_key(part_key(p)) {
                Some(trim_quotes(part_value(p)))
            } else {
                acc
            },
        )
    }
}

/// The icon named by a tag body: a bare body is the name (quotes trimmed);
/// otherwise the last `id=`/`name=`/`value=` part, else the text after the
/// first `=` when what precedes it is `icon` or nothing, else `icon`.
pub open spec fn icon_name_of(attrs: Seq<char>) -> Seq<char> {
    if !attrs.contains('=') && attrs.len() > 0 {
        trim_quotes(attrs)
    } else {
        let n = last_name(words(attrs), None);
        let n2 = match n {
            Some(v) => Some(v),
            None => if attrs.contains('=') && (part_key(attrs) == "icon"@ || part_key(attrs).len()
                == 0) {
                Some(part_value(attrs))
            } else {
                None
            },
        };
        match n2 {
            Some(v) => v,
            None => "icon"@,
        }
    }
}

fn last_name_in(parts: &Vec<Vec<char>>) -> (r: Option<Vec<char>>)
    ensures
        match r {
            Some(v) => last_name(vecs_of(parts@), None) == Some(v@),
            None => last_name(vecs_of(parts@), None) is None,
        },
{
    let ghost ps = vecs_of(parts@);
    let mut acc: Option<Vec<char>> = None;
    let mut i: usize = 0;
    assert(ps.skip(0) =~= ps);
    while i < parts.len()
        invariant
            0 <= i <= parts.len(),
            ps == vecs_of(parts@),
            last_name(ps, None) == last_name(
                ps.skip(i as int),
                match acc {
                    Some(v) => Some(v@),
                    None => None,
                },
            ),
        decreases parts.len() - i,
    {
        let part = &parts[i];
        assert(ps.skip(i as int)[0] == part@);
        assert(ps.skip(i as int).drop_first() =~= ps.skip(i + 1));
        let (ok, k, v) = split_pair(part.as_slice());
        if ok {
            let ks = string_of(k.as_slice());
            if str_eq(ks.as_str(), "id") || str_eq(ks.as_str(), "name") || str_eq(
                ks.as_str(),
                "value",
            ) {
                acc = Some(trim_quote_chars(v.as_slice()));
            }
        }
        i += 1;
    }
    acc
}

/// Name of the icon in a tag body (see [`icon_name_of`]).
pub fn icon_name(attrs: &[char]) -> (r: Vec<char>)
    ensures
        r@ == icon_name_of(attrs@),
{
    let has_eq = has_char(attrs, '=');
    proof {
        lemma_first_char(attrs@, '=');
    }
    if !has_eq && attrs.len() > 0 {
        return trim_quote_chars(attrs);
    }
    let parts = split_whitespace(attrs);
    assert(vecs_of(parts@) =~= words(attrs@));
    match last_name_in(&parts) {
        Some(v) => v,
        None => {
            if has_eq {
                let (_, k, v) = split_pair(attrs);
                let ks = string_of(k.as_slice());
                if str_eq(ks.as_str(), "icon") || k.len() == 0 {
                    return v;
                }
            }
            chars_of("icon")
        },
    }
}

/// Format icon markup: `{icon=NAME}`.
pub fn format_icon_markup(name: &str) -> (s: String)
    ensures
        s@ == "{icon="@ + name@ + "}"@,
{
    let mut s = String::new();
    push_str(&mut s, "{icon=");
    push_str(&mut s, name);
    push_str(&mut s, "}");
    s
}

/// Map from names (in order of insertion, later ones winning) to glyphs.
pub open spec fn map_of(names: Seq<Seq<char>>, glyphs: Seq<char>) -> Map<Seq<char>, char>
    decreases names.len(),
{
    if names.len() == 0 || glyphs.len() == 0 {
        Map::empty()
    } else {
        map_of(names.drop_last(), glyphs.drop_last()).insert(names.last(), glyphs.last())
    }
}

/// No name occurs twice.
pub open spec fn distinct(names: Seq<Seq<char>>) -> bool {
    forall|i: int, j: int| 0 <= i < j < names.len() ==> names[i] != names[j]
}

proof fn lemma_map_of(names: Seq<Seq<char>>, glyphs: Seq<char>)
    requires
        names.len() == glyphs.len(),
        distinct(names),
    ensures
        forall|n: Seq<char>| #[trigger]
            map_of(names, glyphs).contains_key(n) <==> names.contains(n),
        forall|k: int|
            0 <= k < names.len() ==> #[trigger] map_of(names, glyphs)[names[k]] == glyphs[k],
    decreases names.len(),
{
    if names.len() > 0 {
        let nd = names.drop_last();
        let gd = glyphs.drop_last();
        lemma_map_of(nd, gd);
        let m = map_of(names, glyphs);
        let md = map_of(nd, gd);
        assert(m == md.insert(names.last(), glyphs.last()));
        assert forall|n: Seq<char>| #[trigger] m.contains_key(n) <==> names.contains(n) by {
            if names.contains(n) && n != names.last() {
                let k = choose|k: int| 0 <= k < names.len() && names[k] == n;
                assert(k < names.len() - 1);
                assert(nd[k] == n);
                assert(nd.contains(n));
            }
            if nd.contains(n) {
                let k = choose|k: int| 0 <= k < nd.len() && nd[k] == n;
                assert(names[k] == n);
            }
            if n == names.last() {
                assert(names[names.len() - 1] == n);
            }
        }
        assert forall|k: int| 0 <= k < names.len() implies #[trigger] m[names[k]] == glyphs[k] by {
            if k < names.len() - 1 {
                assert(nd[k] == names[k]);
                assert(names[k] != names[names.len() - 1]);
                assert(md[nd[k]] == gd[k]);
            }
        }
    }
}

/// Simple name to glyph fallback map for CPU layout without texture atlases.
#[derive(Debug, Clone)]
pub struct IconGlyphMap {
    names: Vec<String>,
    glyphs: Vec<char>,
}

impl IconGlyphMap {
    /// The names and glyphs line up and no name occurs twice.
    pub closed spec fn wf(&self) -> bool {
        self.names@.len() == self.glyphs@.len() && distinct(strs_view(self.names@))
    }

    /// The map from icon names to glyphs.
    pub closed spec fn entries(&self) -> Map<Seq<char>, char> {
        map_of(strs_view(self.names@), self.glyphs@)
    }

    /// Empty map.
    pub fn new() -> (m: Self)
        ensures
            m.wf(),
            m.entries() == Map::<Seq<char>, char>::empty(),
    {
        IconGlyphMap { names: Vec::new(), glyphs: Vec::new() }
    }

    fn position(&self, name: &str) -> (r: Option<usize>)
        requires
            self.wf(),
        ensures
            match r {
                Some(k) => k < self.names@.len() && self.names@[k as int]@ == name@,
                None => !strs_view(self.names@).contains(name@),
            },
    {
        let mut k: usize = 0;
        while k < self.names.len()
            invariant
                self.wf(),
                0 <= k <= self.names@.len(),
                forall|j: int| 0 <= j < k ==> self.names@[j]@ != name@,
            decreases self.names@.len() - k,
        {
            if str_eq(self.names[k].as_str(), name) {
                return Some(k);
            }
            k += 1;
        }
        proof {
            if strs_view(self.names@).contains(name@) {
                let j = choose|j: int|
                    0 <= j < strs_view(self.names@).len() && strs_view(self.names@)[j] == name@;
                assert(self.names@[j]@ == name@);
            }
        }
        None
    }

    /// Insert mapping (replacing the glyph of a name already present).
    pub fn insert(&mut self, name: &str, glyph: char)
        requires
            old(self).wf(),
        ensures
            final(self).wf(),
            final(self).entries() == old(self).entries().insert(name@, glyph),
    {
        let ghost ns = strs_view(self.names@);
        let ghost gs = self.glyphs@;
        proof {
            lemma_map_of(ns, gs);
        }
        match self.position(name) {
            Some(k) => {
                self.glyphs.set(k, glyph);
                proof {
                    lemma_map_of(ns, self.glyphs@);
                    assert(ns[k as int] == name@);
                    assert(map_of(ns, self.glyphs@) =~= map_of(ns, gs).insert(name@, glyph));
                }
            },
            None => {
                self.names.push(owned(name));
                self.glyphs.push(glyph);
                proof {
                    let ns2 = strs_view(self.names@);
                    assert(ns2.drop_last() =~= ns);
                    assert(self.glyphs@.drop_last() =~= gs);
                    assert(ns2 =~= ns.push(name@));
                    assert forall|i: int, j: int| 0 <= i < j < ns2.len() implies ns2[i]
                        != ns2[j] by {
                        if j == ns2.len() - 1 {
                            assert(ns[i] == ns2[i]);
                        }
                    }
                }
            },
        }
    }

    /// Built-in defaults.
    pub fn with_defaults() -> (m: Self)
        ensures
            m.wf(),
            m.entries() == Map::<Seq<char>, char>::empty().insert("heart"@, '♥').insert(
                "star"@,
                '★',
            ).insert("coin"@, '◎').insert("key"@, '⚷').insert("sword"@, '⚔').insert(
                "warning"@,
                '⚠',
            ).insert("check"@, '✓'),
    {
        let mut m = Self::new();
        m.insert("heart", '♥');
        m.insert("star", '★');
        m.insert("coin", '◎');
        m.insert("key", '⚷');
        m.insert("sword", '⚔');
        m.insert("warning", '⚠');
        m.insert("check", '✓');
        m
    }

    /// Lookup glyph; default `◆`.
    pub fn glyph(&self, name: &str) -> (c: char)
        requires
            self.wf(),
        ensures
            c == glyph_in(self.entries(), name@),
    {
        proof {
            lemma_map_of(strs_view(self.names@), self.glyphs@);
        }
        match self.position(name) {
            Some(k) => {
                assert(strs_view(self.names@)[k as int] == name@);
                self.glyphs[k]
            },
            None => '◆',
        }
    }
}

/// The glyph for `name`, `◆` when it has none.
pub open spec fn glyph_in(m: Map<Seq<char>, char>, name: Seq<char>) -> char {
    if m.contains_key(name) {
        m[name]
    } else {
        '◆'
    }
}

/// The opening of an icon placeholder, `{icon`.
pub open spec fn icon_open() -> Seq<char> {
    seq!['{', 'i', 'c', 'o', 'n']
}

/// The first index at or after `i` where `p` occurs in `s`.
pub open spec fn first_at(s: Seq<char>, p: Seq<char>, i: nat) -> Option<nat>
    decreases s.len() + 1 - i,
{
    if i > s.len() {
        None
    } else if occurs_at(s, p, i as int) {
        Some(i)
    } else {
        first_at(s, p, i + 1)
    }
}

pub proof fn lemma_first_at_bound(s: Seq<char>, p: Seq<char>, i: nat)
    ensures
        first_at(s, p, i) matches Some(k) ==> i <= k && occurs_at(s, p, k as int),
    decreases s.len() + 1 - i,
{
    if i <= s.len() && !occurs_at(s, p, i as int) {
        lemma_first_at_bound(s, p, i + 1);
    }
}

pub proof fn lemma_first_at_found(s: Seq<char>, p: Seq<char>, from: nat, k: nat)
    requires
        from <= k,
        occurs_at(s, p, k as int),
        forall|j: int| from <= j < k ==> !occurs_at(s, p, j),
    ensures
        first_at(s, p, from) == Some(k),
    decreases k - from,
{
    if from < k {
        lemma_first_at_found(s, p, from + 1, k);
    }
}

pub proof fn lemma_first_at_none(s: Seq<char>, p: Seq<char>, from: nat)
    requires
        forall|j: int| from <= j ==> !occurs_at(s, p, j),
    ensures
        first_at(s, p, from) is None,
    decreases s.len() + 1 - from,
{
    if from <= s.len() {
        lemma_first_at_none(s, p, from + 1);
    }
}

/// `s` without its leading `=` and whitespace characters.
pub open spec fn trim_eq_ws_left(s: Seq<char>) -> Seq<char>
    decreases s.len(),
{
    if s.len() > 0 && (s[0] == '=' || is_ws(s[0])) {
        trim_eq_ws_left(s.drop_first())
    } else {
        s
    }
}

/// The attribute part of a placeholder body such as `icon=sword` or
/// `icon id=sword`: the leading `icon` dropped, then leading `=` and
/// whitespace.
pub open spec fn icon_attrs_of(body: Seq<char>) -> Seq<char> {
    trim_eq_ws_left(
        if body.len() >= 4 && body.take(4) == seq!['i', 'c', 'o', 'n'] {
            body.skip(4)
        } else {
            body
        },
    )
}

/// `s` with each `{icon…}` placeholder replaced by its glyph in `m`. From a
/// placeholder that is never closed on, the text is kept as it is.
pub open spec fn expanded(m: Map<Seq<char>, char>, s: Seq<char>) -> Seq<char>
    decreases s.len(),
{
    match first_at(s, icon_open(), 0) {
        None => s,
        Some(i) => {
            let after = s.skip(i + 1int);
            let e = first_char(after, '}');
            if e >= after.len() {
                s
            } else {
                proof {
                    lemma_first_at_bound(s, icon_open(), 0);
                }
                s.take(i as int).push(glyph_in(m, icon_name_of(icon_attrs_of(after.take(e as int)))))
                    + expanded(m, after.skip(e + 1int))
            }
        },
    }
}

fn icon_body_attrs(body: &[char]) -> (r: Vec<char>)
    ensures
        r@ == icon_attrs_of(body@),
{
    let mut i: usize = 0;
    if body.len() >= 4 && body[0] == 'i' && body[1] == 'c' && body[2] == 'o' && body[3] == 'n' {
        i = 4;
        assert(body@.take(4) =~= seq!['i', 'c', 'o', 'n']);
    } else {
        proof {
            if body@.len() >= 4 && body@.take(4) == seq!['i', 'c', 'o', 'n'] {
                assert(body@[0] == body@.take(4)[0]);
                assert(body@[1] == body@.take(4)[1]);
                assert(body@[2] == body@.take(4)[2]);
                assert(body@[3] == body@.take(4)[3]);
            }
        }
        assert(body@.skip(0) =~= body@);
    }
    let ghost start = body@.skip(i as int);
    while i < body.len() && (body[i] == '=' || is_whitespace(body[i]))
        invariant
            0 <= i <= body.len(),
            icon_attrs_of(body@) == trim_eq_ws_left(body@.skip(i as int)),
        decreases body.len() - i,
    {
        assert(body@.skip(i as int).drop_first() =~= body@.skip(i + 1));
        i += 1;
    }
    if i < body.len() {
        assert(body@.skip(i as int)[0] == body@[i as int]);
    }
    slice_range(body, i, body.len())
}

impl IconGlyphMap {
    /// Replace `{icon=…}` placeholders in plain text with glyphs (no nested
    /// tags); an unterminated placeholder and what follows it are kept.
    pub fn expand_plain(&self, input: &str) -> (s: String)
        requires
            self.wf(),
        ensures
            s@ == expanded(self.entries(), input@),
    {
        let pat: [char; 5] = ['{', 'i', 'c', 'o', 'n'];
        assert(pat@ =~= icon_open());
        let ghost m = self.entries();
        let mut out: Vec<char> = Vec::new();
        let mut rest: Vec<char> = chars_of(input);
        let mut done = false;
        while !done
            invariant
                self.wf(),
                m == self.entries(),
                pat@ == icon_open(),
                expanded(m, input@) == if done {
                    out@
                } else {
                    out@ + expanded(m, rest@)
                },
            decreases rest@.len(), if done {
                0int
            } else {
                1int
            },
        {
            match find_from(rest.as_slice(), pat.as_slice(), 0) {
                None => {
                    proof {
                        lemma_first_at_none(rest@, icon_open(), 0);
                    }
                    extend_chars(&mut out, rest.as_slice());
                    done = true;
                },
                Some(start) => {
                    proof {
                        lemma_first_at_found(rest@, icon_open(), 0, start as nat);
                        assert(icon_open().len() == 5);
                        assert(start + 5 <= rest@.len());
                    }
                    let head = slice_range(rest.as_slice(), 0, start);
                    assert(head@ =~= rest@.take(start as int));
                    let n = rest.len();
                    let after = slice_range(rest.as_slice(), start + 1, n);
                    assert(after@ =~= rest@.skip(start + 1));
                    let end = find_char(after.as_slice(), '}');
                    proof {
                        lemma_first_char(after@, '}');
                    }
                    if end < after.len() {
                        let body = slice_range(after.as_slice(), 0, end);
                        assert(body@ =~= after@.take(end as int));
                        let attrs = icon_body_attrs(body.as_slice());
                        let name = icon_name(attrs.as_slice());
                        let nm = string_of(name.as_slice());
                        let g = self.glyph(nm.as_str());
                        let ghost out0 = out@;
                        extend_chars(&mut out, head.as_slice());
                        out.push(g);
                        let next = slice_range(after.as_slice(), end + 1, after.len());
                        assert(next@ =~= after@.skip(end + 1));
                        assert(out@ =~= out0 + rest@.take(start as int).push(g));
                        rest = next;
                    } else {
                        extend_chars(&mut out, rest.as_slice());
                        done = true;
                    }
                },
            }
        }
        string_of(out.as_slice())
    }
}

/// After inserting a glyph for a name, looking the name up gives that glyph,
/// and every other name gives what it gave before.
pub proof fn lemma_glyph_after_insert(m: Map<Seq<char>, char>, name: Seq<char>, g: char, other: Seq<char>)
    ensures
        glyph_in(m.insert(name, g), name) == g,
        other != name ==> glyph_in(m.insert(name, g), other) == glyph_in(m, other),
{
}

/// Text without an `{icon` placeholder comes out of expansion unchanged.
pub proof fn lemma_expand_without_placeholder(m: Map<Seq<char>, char>, s: Seq<char>)
    requires
        !crate::strings::contains_seq(s, icon_open()),
    ensures
        expanded(m, s) == s,
{
    lemma_first_at_none(s, icon_open(), 0);
}

/// The raw value of the last `size=` part, if any.
pub open spec fn last_size(parts: Seq<Seq<char>>, acc: Option<Seq<char>>) -> Option<Seq<char>>
    decreases parts.len(),
{
    if parts.len() == 0 {
        acc
    } else {
        let p = parts[0];
        last_size(
            parts.drop_first(),
            if is_pair(p) && part_key(p) == "size"@ {
                Some(part_value(p))
            } else {
                acc
            },
        )
    }
}

/// The size text of a tag body: the value of its last `size=` part; a bare
/// body (no `=`, not empty) has none.
pub open spec fn icon_size_text_of(attrs: Seq<char>) -> Option<Seq<char>> {
    if !attrs.contains('=') && attrs.len() > 0 {
        None
    } else {
        last_size(words(attrs), None)
    }
}

/// Size text of the icon in a tag body (see [`icon_size_text_of`]).
pub fn icon_size_text(attrs: &[char]) -> (r: Option<Vec<char>>)
    ensures
        match r {
            Some(v) => icon_size_text_of(attrs@) == Some(v@),
            None => icon_size_text_of(attrs@) is None,
        },
{
    if !has_char(attrs, '=') && attrs.len() > 0 {
        return None;
    }
    let parts = split_whitespace(attrs);
    assert(vecs_of(parts@) =~= words(attrs@));
    let ghost ps = vecs_of(parts@);
    let mut acc: Option<Vec<char>> = None;
    let mut i: usize = 0;
    assert(ps.skip(0) =~= ps);
    while i < parts.len()
        invariant
            0 <= i <= parts.len(),
            ps == vecs_of(parts@),
            last_size(ps, None) == last_size(
                ps.skip(i as int),
                match acc {
                    Some(v) => Some(v@),
                    None => None,
                },
            ),
        decreases parts.len() - i,
    {
        let part = &parts[i];
        assert(ps.skip(i as int)[0] == part@);
        assert(ps.skip(i as int).drop_first() =~= ps.skip(i + 1));
        let (ok, k, v) = split_pair(part.as_slice());
        if ok {
            let ks = string_of(k.as_slice());
            if str_eq(ks.as_str(), "size") {
                acc = Some(v);
            }
        }
        i += 1;
    }
    acc
}

} // verus!
