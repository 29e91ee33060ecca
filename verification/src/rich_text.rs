//! Rich-text markup (`{color=#ff5577}text{/color}`, `{pause=0.5}`,
//! `{icon=star}`, `{ruby text=かな}漢字{/ruby}`, `{link href=…}…{/link}`):
//! spans with the stack of style tags open around them. Numeric attributes
//! (pause, speed, size, shake, wave) are kept as their text.

use vstd::prelude::*;

use crate::icons::{first_at, lemma_first_at_bound, lemma_first_at_found, lemma_first_at_none};
use crate::strings::{
    chars_eq, chars_of, extend_chars, find_from, owned, push_str, slice_range, string_of, strs_view, trim,
    trim_chars,
};
use crate::tags::{attr_str, first_unnamed_str, markup_attr, split_tag, tag_parts, unnamed_arg};
use crate::text_kinds::MarkupError;
use vstd::string::StringSliceAdditionalSpecFns;
use vstd::utf8::{encode_scalar, encode_utf8};

verus! {

/// A style tag open around text.
#[derive(Debug)]
pub enum StyleMod {
    /// `{color=…}` with its color text.
    Color(String),
    /// `{b}` / `{bold}`.
    Bold,
    /// `{i}` / `{italic}`.
    Italic,
    /// `{size …}` with its attribute text.
    Size(String),
    /// `{shake …}` with its attribute text.
    Shake(String),
    /// `{wave …}` with its attribute text.
    Wave(String),
}

/// A style tag as plain values.
pub enum ModSpec {
    /// Color text.
    Color(Seq<char>),
    /// Bold.
    Bold,
    /// Italic.
    Italic,
    /// Size attributes.
    Size(Seq<char>),
    /// Shake attributes.
    Shake(Seq<char>),
    /// Wave attributes.
    Wave(Seq<char>),
}

/// One span of rich text.
#[derive(Debug)]
pub enum RichSpan {
    /// Text with the style tags open around it, outermost first.
    Text {
        /// Content.
        text: String,
        /// Open style tags.
        style: Vec<StyleMod>,
    },
    /// `{pause …}` with its attribute text.
    Pause {
        /// Attributes.
        attrs: String,
    },
    /// `{speed …}` with its attribute text.
    Speed {
        /// Attributes.
        attrs: String,
    },
    /// Inline icon.
    Icon {
        /// Icon id.
        id: String,
    },
    /// Ruby annotation.
    Ruby {
        /// Base text.
        base: String,
        /// Ruby text.
        ruby: String,
        /// Open style tags.
        style: Vec<StyleMod>,
    },
    /// Link.
    Link {
        /// Target.
        href: String,
        /// Label.
        label: String,
    },
}

/// A parsed rich text.
#[derive(Debug)]
pub struct RichText {
    /// Spans in order.
    pub spans: Vec<RichSpan>,
}

/// A span as plain values.
pub enum SpanSpec {
    /// Text and style.
    Text(Seq<char>, Seq<ModSpec>),
    /// Pause attributes.
    Pause(Seq<char>),
    /// Speed attributes.
    Speed(Seq<char>),
    /// Icon id.
    Icon(Seq<char>),
    /// Ruby base, ruby text, style.
    Ruby(Seq<char>, Seq<char>, Seq<ModSpec>),
    /// Link target and label.
    Link(Seq<char>, Seq<char>),
}

/// A markup error as plain values: unclosed at a byte position, or an
/// unknown tag at the byte position after it.
pub enum MarkupErrSpec {
    /// Unclosed tag.
    Unclosed(nat),
    /// Unknown tag.
    UnknownTag(Seq<char>, nat),
}

/// Plain values of a style tag.
pub open spec fn mod_view(m: StyleMod) -> ModSpec {
    match m {
        StyleMod::Color(s) => ModSpec::Color(s@),
        StyleMod::Bold => ModSpec::Bold,
        StyleMod::Italic => ModSpec::Italic,
        StyleMod::Size(s) => ModSpec::Size(s@),
        StyleMod::Shake(s) => ModSpec::Shake(s@),
        StyleMod::Wave(s) => ModSpec::Wave(s@),
    }
}

/// Plain values of a list of style tags.
pub open spec fn mods_view(ms: Seq<StyleMod>) -> Seq<ModSpec> {
    Seq::new(ms.len(), |k: int| mod_view(ms[k]))
}

/// Plain values of a span.
pub open spec fn span_view(s: RichSpan) -> SpanSpec {
    match s {
        RichSpan::Text { text, style } => SpanSpec::Text(text@, mods_view(style@)),
        RichSpan::Pause { attrs } => SpanSpec::Pause(attrs@),
        RichSpan::Speed { attrs } => SpanSpec::Speed(attrs@),
        RichSpan::Icon { id } => SpanSpec::Icon(id@),
        RichSpan::Ruby { base, ruby, style } => SpanSpec::Ruby(base@, ruby@, mods_view(style@)),
        RichSpan::Link { href, label } => SpanSpec::Link(href@, label@),
    }
}

/// Plain values of spans.
pub open spec fn spans_view(ss: Seq<RichSpan>) -> Seq<SpanSpec> {
    Seq::new(ss.len(), |k: int| span_view(ss[k]))
}

/// Plain values of a markup error.
pub open spec fn err_view(e: MarkupError) -> MarkupErrSpec {
    match e {
        MarkupError::Unclosed(at) => MarkupErrSpec::Unclosed(at as nat),
        MarkupError::UnknownTag(t, at) => MarkupErrSpec::UnknownTag(t@, at as nat),
        MarkupError::BadAttr(t, at) => MarkupErrSpec::UnknownTag(t@, at as nat),
    }
}

/// Byte offset of character `k` of `s` in its UTF-8 encoding.
pub open spec fn byte_at(s: Seq<char>, k: int) -> nat {
    encode_utf8(s.take(k)).len()
}

/// Each byte of a character's UTF-8 encoding read as a character (as the
/// markup reader copies plain text byte by byte).
pub open spec fn bytes_as_chars(c: char) -> Seq<char> {
    Seq::new(encode_scalar(c as u32).len(), |k: int| encode_scalar(c as u32)[k] as char)
}

/// The pending text flushed as a span, if any.
pub open spec fn flush(spans: Seq<SpanSpec>, buf: Seq<char>, style: Seq<ModSpec>) -> Seq<SpanSpec> {
    if buf.len() > 0 {
        spans.push(SpanSpec::Text(buf, style))
    } else {
        spans
    }
}

/// The first of several optional values, or a default.
pub open spec fn first_of(a: Option<Seq<char>>, b: Option<Seq<char>>, d: Seq<char>) -> Seq<char> {
    match a {
        Some(v) => v,
        None => match b {
            Some(v) => v,
            None => d,
        },
    }
}

/// The icon id of an `{icon …}` tag.
pub open spec fn icon_id(attrs: Seq<char>) -> Seq<char> {
    match markup_attr(attrs, "id"@) {
        Some(v) => v,
        None => first_of(markup_attr(attrs, "name"@), unnamed_arg(attrs), "icon"@),
    }
}

/// The ruby text of a `{ruby …}` tag.
pub open spec fn ruby_text(attrs: Seq<char>) -> Seq<char> {
    match markup_attr(attrs, "text"@) {
        Some(v) => v,
        None => match markup_attr(attrs, "rt"@) {
            Some(v) => v,
            None => first_of(markup_attr(attrs, "value"@), unnamed_arg(attrs), seq![]),
        },
    }
}

/// The visible text of spans: text, link labels and ruby bases.
pub open spec fn plain_of(ss: Seq<SpanSpec>) -> Seq<char>
    decreases ss.len(),
{
    if ss.len() == 0 {
        seq![]
    } else {
        plain_of(ss.drop_last()) + match ss.last() {
            SpanSpec::Text(t, _) => t,
            SpanSpec::Link(_, label) => label,
            SpanSpec::Ruby(base, _, _) => base,
            _ => seq![],
        }
    }
}

/// The icon ids of spans, in order.
pub open spec fn icons_of(ss: Seq<SpanSpec>) -> Seq<Seq<char>>
    decreases ss.len(),
{
    if ss.len() == 0 {
        seq![]
    } else {
        icons_of(ss.drop_last()) + match ss.last() {
            SpanSpec::Icon(id) => seq![id],
            _ => seq![],
        }
    }
}

/// Reading markup from character `k` with open style tags `mods`, pending
/// text `buf` and the spans so far.
pub open spec fn rich_from(
    s: Seq<char>,
    k: int,
    mods: Seq<ModSpec>,
    buf: Seq<char>,
    spans: Seq<SpanSpec>,
) -> Result<Seq<SpanSpec>, MarkupErrSpec>
    decreases s.len() - k, 2int,
{
    if k < 0 || k >= s.len() {
        Ok(flush(spans, buf, mods))
    } else if s[k] != '{' {
        rich_from(s, k + 1, mods, buf + bytes_as_chars(s[k]), spans)
    } else {
        rich_tag(s, k, mods, flush(spans, buf, mods))
    }
}

/// Reading the tag that opens at character `k` (a `{`), with the pending
/// text already flushed into `sp`.
pub open spec fn rich_tag(s: Seq<char>, k: int, mods: Seq<ModSpec>, sp: Seq<SpanSpec>) -> Result<
    Seq<SpanSpec>,
    MarkupErrSpec,
>
    decreases s.len() - k, 1int,
{
    if k < 0 || k >= s.len() {
        Ok(sp)
    } else {
        match first_at(s, "}"@, k as nat) {
            None => Err(MarkupErrSpec::Unclosed(byte_at(s, k))),
            Some(close) => {
                proof {
                    lemma_first_at_bound(s, "}"@, k as nat);
                    reveal_strlit("}");
                }
                let tag = s.subrange(k + 1, close as int);
                let k2: int = close + 1int;
                if tag.len() > 0 && tag[0] == '/' {
                    if mods.len() > 0 {
                        rich_from(s, k2, mods.drop_last(), seq![], sp)
                    } else {
                        Err(MarkupErrSpec::UnknownTag(seq!['/'] + trim(tag.skip(1)), byte_at(s, k2)))
                    }
                } else {
                    rich_named(s, k, k2, mods, sp, tag_parts(tag).0, tag_parts(tag).1)
                }
            },
        }
    }
}

/// Reading on after a tag named `name` with attributes `attrs`, opened at
/// character `k` and closed before character `k2`.
pub open spec fn rich_named(
    s: Seq<char>,
    k: int,
    k2: int,
    mods: Seq<ModSpec>,
    sp: Seq<SpanSpec>,
    name: Seq<char>,
    attrs: Seq<char>,
) -> Result<Seq<SpanSpec>, MarkupErrSpec>
    decreases s.len() - k, 0int,
{
    if !(0 <= k < k2 <= s.len()) {
        Ok(sp)
    } else {
        let at = byte_at(s, k2);
        if name == "pause"@ {
            rich_from(s, k2, mods, seq![], sp.push(SpanSpec::Pause(attrs)))
        } else if name == "speed"@ {
            rich_from(s, k2, mods, seq![], sp.push(SpanSpec::Speed(attrs)))
        } else if name == "icon"@ {
            rich_from(s, k2, mods, seq![], sp.push(SpanSpec::Icon(icon_id(attrs))))
        } else if name == "ruby"@ {
            match markup_attr(attrs, "base"@) {
                Some(base) => rich_from(
                    s,
                    k2,
                    mods,
                    seq![],
                    sp.push(SpanSpec::Ruby(base, ruby_text(attrs), mods)),
                ),
                None => match first_at(s, "{/ruby}"@, k2 as nat) {
                    None => Err(MarkupErrSpec::Unclosed(at)),
                    Some(e) => {
                        proof {
                            lemma_first_at_bound(s, "{/ruby}"@, k2 as nat);
                            reveal_strlit("{/ruby}");
                        }
                        rich_from(
                            s,
                            e + 7int,
                            mods,
                            seq![],
                            sp.push(SpanSpec::Ruby(s.subrange(k2, e as int), ruby_text(attrs), mods)),
                        )
                    },
                },
            }
        } else if name == "color"@ {
            rich_from(
                s,
                k2,
                mods.push(
                    ModSpec::Color(first_of(markup_attr(attrs, "value"@), unnamed_arg(attrs), "#ffffff"@)),
                ),
                seq![],
                sp,
            )
        } else if name == "b"@ || name == "bold"@ {
            rich_from(s, k2, mods.push(ModSpec::Bold), seq![], sp)
        } else if name == "i"@ || name == "italic"@ {
            rich_from(s, k2, mods.push(ModSpec::Italic), seq![], sp)
        } else if name == "size"@ {
            rich_from(s, k2, mods.push(ModSpec::Size(attrs)), seq![], sp)
        } else if name == "shake"@ {
            rich_from(s, k2, mods.push(ModSpec::Shake(attrs)), seq![], sp)
        } else if name == "wave"@ {
            rich_from(s, k2, mods.push(ModSpec::Wave(attrs)), seq![], sp)
        } else if name == "link"@ {
            let href = match markup_attr(attrs, "href"@) {
                Some(v) => v,
                None => "#"@,
            };
            match first_at(s, "{/link}"@, k2 as nat) {
                None => Err(MarkupErrSpec::Unclosed(at)),
                Some(e) => {
                    proof {
                        lemma_first_at_bound(s, "{/link}"@, k2 as nat);
                        reveal_strlit("{/link}");
                    }
                    rich_from(
                        s,
                        e + 7int,
                        mods,
                        seq![],
                        sp.push(SpanSpec::Link(href, s.subrange(k2, e as int))),
                    )
                },
            }
        } else {
            Err(MarkupErrSpec::UnknownTag(name, at))
        }
    }
}

/// The spans of a markup text, or its first error.
pub open spec fn rich_spans(s: Seq<char>) -> Result<Seq<SpanSpec>, MarkupErrSpec> {
    rich_from(s, 0, seq![], seq![], seq![])
}

/// Encoding a concatenation encodes each part.
pub proof fn lemma_encode_concat(a: Seq<char>, b: Seq<char>)
    ensures
        encode_utf8(a + b) == encode_utf8(a) + encode_utf8(b),
    decreases a.len(),
{
    if a.len() == 0 {
        assert(a + b =~= b);
        assert(encode_utf8(a) =~= Seq::<u8>::empty());
        assert(encode_utf8(a) + encode_utf8(b) =~= encode_utf8(b));
    } else {
        assert((a + b).drop_first() =~= a.drop_first() + b);
        assert((a + b)[0] == a[0]);
        lemma_encode_concat(a.drop_first(), b);
        assert(encode_utf8(a + b) =~= encode_scalar(a[0] as u32) + (encode_utf8(a.drop_first())
            + encode_utf8(b)));
    }
}

/// The encoding of the first `k + 1` characters is that of the first `k`
/// followed by the encoding of character `k`.
pub proof fn lemma_encode_take(s: Seq<char>, k: int)
    requires
        0 <= k < s.len(),
    ensures
        encode_utf8(s.take(k + 1)) == encode_utf8(s.take(k)) + encode_scalar(s[k] as u32),
{
    assert(s.take(k + 1) =~= s.take(k) + seq![s[k]]);
    lemma_encode_concat(s.take(k), seq![s[k]]);
    let one = seq![s[k]];
    assert(one[0] == s[k]);
    assert(one.drop_first() =~= Seq::<char>::empty());
    assert(encode_utf8(one.drop_first()) =~= Seq::<u8>::empty());
    assert(encode_utf8(one) =~= encode_scalar(s[k] as u32));
}

/// The encoding of a prefix is a prefix of the encoding.
pub proof fn lemma_encode_prefix(s: Seq<char>, k: int)
    requires
        0 <= k <= s.len(),
    ensures
        encode_utf8(s) == encode_utf8(s.take(k)) + encode_utf8(s.skip(k)),
{
    assert(s =~= s.take(k) + s.skip(k));
    lemma_encode_concat(s.take(k), s.skip(k));
}

/// Number of bytes in the UTF-8 encoding of `c`.
fn utf8_width(c: char) -> (w: usize)
    ensures
        w == encode_scalar(c as u32).len(),
{
    let u = c as u32;
    if u <= 0x7F {
        1
    } else if u <= 0x7FF {
        2
    } else if u <= 0xFFFF {
        3
    } else {
        4
    }
}

/// Byte offset of character `k`, counted from character `from` at byte
/// `base` (see [`byte_at`]).
fn byte_pos_from(v: &[char], from: usize, base: usize, k: usize, total: usize) -> (b: usize)
    requires
        from <= k <= v@.len(),
        base == byte_at(v@, from as int),
        total == encode_utf8(v@).len(),
    ensures
        b == byte_at(v@, k as int),
        b <= total,
{
    let mut b = base;
    let mut j = from;
    proof {
        lemma_encode_prefix(v@, j as int);
    }
    while j < k
        invariant
            from <= j <= k,
            k <= v@.len(),
            b == byte_at(v@, j as int),
            total == encode_utf8(v@).len(),
            b <= total,
        decreases k - j,
    {
        proof {
            lemma_encode_take(v@, j as int);
            lemma_encode_prefix(v@, j + 1);
        }
        b = b + utf8_width(v[j]);
        j += 1;
    }
    b
}

/// A copy of a list of style tags.
fn copy_mods(ms: &Vec<StyleMod>) -> (r: Vec<StyleMod>)
    ensures
        mods_view(r@) == mods_view(ms@),
{
    let mut r: Vec<StyleMod> = Vec::new();
    let mut k: usize = 0;
    while k < ms.len()
        invariant
            0 <= k <= ms@.len(),
            mods_view(r@) == mods_view(ms@.take(k as int)),
        decreases ms@.len() - k,
    {
        let m = match &ms[k] {
            StyleMod::Color(s) => StyleMod::Color(owned(s.as_str())),
            StyleMod::Bold => StyleMod::Bold,
            StyleMod::Italic => StyleMod::Italic,
            StyleMod::Size(s) => StyleMod::Size(owned(s.as_str())),
            StyleMod::Shake(s) => StyleMod::Shake(owned(s.as_str())),
            StyleMod::Wave(s) => StyleMod::Wave(owned(s.as_str())),
        };
        assert(mod_view(m) == mod_view(ms@[k as int]));
        let ghost r0 = r@;
        let ghost mv = mod_view(m);
        r.push(m);
        assert(mods_view(r@) =~= mods_view(r0).push(mv));
        assert(mods_view(ms@.take(k + 1)) =~= mods_view(ms@.take(k as int)).push(mod_view(ms@[k as int])));
        k += 1;
    }
    assert(ms@.take(ms@.len() as int) =~= ms@);
    r
}

/// Pushes the pending text as a span (see [`flush`]).
fn flush_exec(spans: &mut Vec<RichSpan>, buf: &Vec<char>, mods: &Vec<StyleMod>)
    ensures
        spans_view(final(spans)@) == flush(spans_view(old(spans)@), buf@, mods_view(mods@)),
{
    if buf.len() > 0 {
        let ghost before = spans_view(spans@);
        let style = copy_mods(mods);
        let text = string_of(buf.as_slice());
        let ghost item = SpanSpec::Text(buf@, mods_view(style@));
        spans.push(RichSpan::Text { text, style });
        assert(spans_view(spans@) =~= before.push(item));
    }
}

/// Appends the bytes of character `k` (found at byte `bpos`), each as a
/// character.
fn push_char_bytes(buf: &mut Vec<char>, bytes: &[u8], v: &[char], k: usize, bpos: usize) -> (w: usize)
    requires
        k < v@.len(),
        bytes@ == encode_utf8(v@),
        bpos == byte_at(v@, k as int),
    ensures
        final(buf)@ == old(buf)@ + bytes_as_chars(v@[k as int]),
        w == encode_scalar(v@[k as int] as u32).len(),
        bpos + w == byte_at(v@, k + 1),
        bpos + w <= bytes@.len(),
{
    let c = v[k];
    let w = utf8_width(c);
    let ghost enc = encode_scalar(c as u32);
    proof {
        lemma_encode_take(v@, k as int);
        lemma_encode_prefix(v@, k + 1);
        assert(encode_utf8(v@.take(k + 1)).len() == bpos + w);
        assert(bytes@.len() >= bpos + w);
        assert(bytes@.subrange(bpos as int, bpos + w) =~= enc);
    }
    let ghost buf0 = buf@;
    let n = bytes.len();
    let mut q: usize = 0;
    while q < w
        invariant
            0 <= q <= w,
            n == bytes@.len(),
            w == enc.len(),
            enc == encode_scalar(c as u32),
            bpos + w <= bytes@.len(),
            bytes@.subrange(bpos as int, bpos + w) == enc,
            buf@ == buf0 + bytes_as_chars(c).take(q as int),
        decreases w - q,
    {
        assert(bytes@[bpos + q] == enc[q as int]);
        buf.push(bytes[bpos + q] as char);
        q += 1;
        assert(buf@ =~= buf0 + bytes_as_chars(c).take(q as int));
    }
    assert(bytes_as_chars(c).take(w as int) =~= bytes_as_chars(c));
    w
}

/// Handles a tag named `name` with attributes `attrs`, opened at character
/// `k` and closed before character `k2` (byte `at`); gives the character and
/// byte to read on from (see [`rich_named`]).
fn read_named(
    v: &Vec<char>,
    k: usize,
    k2: usize,
    at: usize,
    total: usize,
    name: &Vec<char>,
    attrs: &Vec<char>,
    mods: &mut Vec<StyleMod>,
    spans: &mut Vec<RichSpan>,
) -> (r: Result<(usize, usize), MarkupError>)
    requires
        k < k2 <= v@.len(),
        at == byte_at(v@, k2 as int),
        total == encode_utf8(v@).len(),
    ensures
        match r {
            Ok((k3, b3)) => k2 <= k3 <= v@.len() && b3 == byte_at(v@, k3 as int) && rich_named(
                v@,
                k as int,
                k2 as int,
                mods_view(old(mods)@),
                spans_view(old(spans)@),
                name@,
                attrs@,
            ) == rich_from(
                v@,
                k3 as int,
                mods_view(final(mods)@),
                seq![],
                spans_view(final(spans)@),
            ),
            Err(e) => rich_named(
                v@,
                k as int,
                k2 as int,
                mods_view(old(mods)@),
                spans_view(old(spans)@),
                name@,
                attrs@,
            ) == Err::<Seq<SpanSpec>, MarkupErrSpec>(err_view(e)) && !(e is BadAttr),
        },
{
    proof {
        reveal_strlit("{/ruby}");
        reveal_strlit("{/link}");
    }
    assert("{/ruby}"@.len() == 7 && "{/link}"@.len() == 7);
    let n = v.len();
    assert(n == v@.len());
    let ghost sp = spans_view(spans@);
    let ghost m0 = mods_view(mods@);
    let nm = name.as_slice();
    if chars_eq(nm, chars_of("pause").as_slice()) {
        spans.push(RichSpan::Pause { attrs: string_of(attrs.as_slice()) });
        assert(spans_view(spans@) =~= sp.push(SpanSpec::Pause(attrs@)));
        Ok((k2, at))
    } else if chars_eq(nm, chars_of("speed").as_slice()) {
        spans.push(RichSpan::Speed { attrs: string_of(attrs.as_slice()) });
        assert(spans_view(spans@) =~= sp.push(SpanSpec::Speed(attrs@)));
        Ok((k2, at))
    } else if chars_eq(nm, chars_of("icon").as_slice()) {
        let id: Vec<char> = match attr_str(attrs.as_slice(), "id") {
            Some(x) => x,
            None => match attr_str(attrs.as_slice(), "name") {
                Some(x) => x,
                None => match first_unnamed_str(attrs.as_slice()) {
                    Some(x) => x,
                    None => chars_of("icon"),
                },
            },
        };
        assert(id@ == icon_id(attrs@));
        spans.push(RichSpan::Icon { id: string_of(id.as_slice()) });
        assert(spans_view(spans@) =~= sp.push(SpanSpec::Icon(id@)));
        Ok((k2, at))
    } else if chars_eq(nm, chars_of("ruby").as_slice()) {
        let ruby: Vec<char> = match attr_str(attrs.as_slice(), "text") {
            Some(x) => x,
            None => match attr_str(attrs.as_slice(), "rt") {
                Some(x) => x,
                None => match attr_str(attrs.as_slice(), "value") {
                    Some(x) => x,
                    None => match first_unnamed_str(attrs.as_slice()) {
                        Some(x) => x,
                        None => Vec::new(),
                    },
                },
            },
        };
        assert(ruby@ == ruby_text(attrs@));
        match attr_str(attrs.as_slice(), "base") {
            Some(base) => {
                let style = copy_mods(mods);
                let ghost item = SpanSpec::Ruby(base@, ruby@, mods_view(style@));
                spans.push(
                    RichSpan::Ruby {
                        base: string_of(base.as_slice()),
                        ruby: string_of(ruby.as_slice()),
                        style,
                    },
                );
                assert(spans_view(spans@) =~= sp.push(item));
                Ok((k2, at))
            },
            None => {
                let ruby_end = chars_of("{/ruby}");
                match find_from(v.as_slice(), ruby_end.as_slice(), k2) {
                    None => {
                        proof {
                            lemma_first_at_none(v@, "{/ruby}"@, k2 as nat);
                        }
                        Err(MarkupError::Unclosed(at))
                    },
                    Some(e) => {
                        proof {
                            lemma_first_at_found(v@, "{/ruby}"@, k2 as nat, e as nat);
                        }
                        let base = slice_range(v.as_slice(), k2, e);
                        let style = copy_mods(mods);
                        let ghost item = SpanSpec::Ruby(base@, ruby@, mods_view(style@));
                        spans.push(
                            RichSpan::Ruby {
                                base: string_of(base.as_slice()),
                                ruby: string_of(ruby.as_slice()),
                                style,
                            },
                        );
                        assert(spans_view(spans@) =~= sp.push(item));
                        let b3 = byte_pos_from(v.as_slice(), k2, at, e + 7, total);
                        Ok((e + 7, b3))
                    },
                }
            },
        }
    } else if chars_eq(nm, chars_of("color").as_slice()) {
        let hex: Vec<char> = match attr_str(attrs.as_slice(), "value") {
            Some(x) => x,
            None => match first_unnamed_str(attrs.as_slice()) {
                Some(x) => x,
                None => chars_of("#ffffff"),
            },
        };
        let ghost hv = hex@;
        mods.push(StyleMod::Color(string_of(hex.as_slice())));
        assert(mods_view(mods@) =~= m0.push(ModSpec::Color(hv)));
        Ok((k2, at))
    } else if chars_eq(nm, chars_of("b").as_slice()) || chars_eq(nm, chars_of("bold").as_slice()) {
        mods.push(StyleMod::Bold);
        assert(mods_view(mods@) =~= m0.push(ModSpec::Bold));
        Ok((k2, at))
    } else if chars_eq(nm, chars_of("i").as_slice()) || chars_eq(nm, chars_of("italic").as_slice()) {
        mods.push(StyleMod::Italic);
        assert(mods_view(mods@) =~= m0.push(ModSpec::Italic));
        Ok((k2, at))
    } else if chars_eq(nm, chars_of("size").as_slice()) {
        mods.push(StyleMod::Size(string_of(attrs.as_slice())));
        assert(mods_view(mods@) =~= m0.push(ModSpec::Size(attrs@)));
        Ok((k2, at))
    } else if chars_eq(nm, chars_of("shake").as_slice()) {
        mods.push(StyleMod::Shake(string_of(attrs.as_slice())));
        assert(mods_view(mods@) =~= m0.push(ModSpec::Shake(attrs@)));
        Ok((k2, at))
    } else if chars_eq(nm, chars_of("wave").as_slice()) {
        mods.push(StyleMod::Wave(string_of(attrs.as_slice())));
        assert(mods_view(mods@) =~= m0.push(ModSpec::Wave(attrs@)));
        Ok((k2, at))
    } else if chars_eq(nm, chars_of("link").as_slice()) {
        let href: Vec<char> = match attr_str(attrs.as_slice(), "href") {
            Some(x) => x,
            None => chars_of("#"),
        };
        let link_end = chars_of("{/link}");
        match find_from(v.as_slice(), link_end.as_slice(), k2) {
            None => {
                proof {
                    lemma_first_at_none(v@, "{/link}"@, k2 as nat);
                }
                Err(MarkupError::Unclosed(at))
            },
            Some(e) => {
                proof {
                    lemma_first_at_found(v@, "{/link}"@, k2 as nat, e as nat);
                }
                let label = slice_range(v.as_slice(), k2, e);
                spans.push(
                    RichSpan::Link {
                        href: string_of(href.as_slice()),
                        label: string_of(label.as_slice()),
                    },
                );
                assert(spans_view(spans@) =~= sp.push(SpanSpec::Link(href@, label@)));
                let b3 = byte_pos_from(v.as_slice(), k2, at, e + 7, total);
                Ok((e + 7, b3))
            },
        }
    } else {
        Err(MarkupError::UnknownTag(string_of(nm), at))
    }
}

/// Handles the tag opening at character `k` (a `{`, at byte `bpos`), the
/// pending text already flushed; gives the character and byte to read on
/// from (see [`rich_tag`]).
fn read_tag(
    v: &Vec<char>,
    k: usize,
    bpos: usize,
    total: usize,
    mods: &mut Vec<StyleMod>,
    spans: &mut Vec<RichSpan>,
) -> (r: Result<(usize, usize), MarkupError>)
    requires
        k < v@.len(),
        v@[k as int] == '{',
        bpos == byte_at(v@, k as int),
        total == encode_utf8(v@).len(),
    ensures
        match r {
            Ok((k3, b3)) => k < k3 <= v@.len() && b3 == byte_at(v@, k3 as int) && rich_tag(
                v@,
                k as int,
                mods_view(old(mods)@),
                spans_view(old(spans)@),
            ) == rich_from(
                v@,
                k3 as int,
                mods_view(final(mods)@),
                seq![],
                spans_view(final(spans)@),
            ),
            Err(e) => rich_tag(v@, k as int, mods_view(old(mods)@), spans_view(old(spans)@))
                == Err::<Seq<SpanSpec>, MarkupErrSpec>(err_view(e)) && !(e is BadAttr),
        },
{
    proof {
        reveal_strlit("}");
    }
    assert("}"@.len() == 1);
    let n = v.len();
    assert(n == v@.len());
    let close_pat = chars_of("}");
    match find_from(v.as_slice(), close_pat.as_slice(), k) {
        None => {
            proof {
                lemma_first_at_none(v@, "}"@, k as nat);
            }
            Err(MarkupError::Unclosed(bpos))
        },
        Some(close) => {
            proof {
                lemma_first_at_found(v@, "}"@, k as nat, close as nat);
            }
            assert(close + 1 <= v@.len());
            assert(close != k) by {
                if close == k {
                    assert(v@.subrange(k as int, k + 1)[0] == v@[k as int]);
                }
            }
            let tag = slice_range(v.as_slice(), k + 1, close);
            let k2 = close + 1;
            proof {
                lemma_encode_prefix(v@, k as int);
            }
            let at = byte_pos_from(v.as_slice(), k, bpos, k2, total);
            if tag.len() > 0 && tag[0] == '/' {
                if mods.len() > 0 {
                    let ghost m0 = mods@;
                    mods.pop();
                    assert(mods_view(mods@) =~= mods_view(m0).drop_last());
                    Ok((k2, at))
                } else {
                    let rest = slice_range(tag.as_slice(), 1, tag.len());
                    assert(rest@ =~= tag@.skip(1));
                    let t = trim_chars(rest.as_slice());
                    let mut name: Vec<char> = Vec::new();
                    name.push('/');
                    extend_chars(&mut name, t.as_slice());
                    assert(name@ =~= seq!['/'] + trim(tag@.skip(1)));
                    Err(MarkupError::UnknownTag(string_of(name.as_slice()), at))
                }
            } else {
                let (name, attrs) = split_tag(tag.as_slice());
                read_named(v, k, k2, at, total, &name, &attrs, mods, spans)
            }
        },
    }
}

impl RichText {
    /// The text without tags: text spans, link labels and ruby bases.
    pub fn plain(&self) -> (r: String)
        ensures
            r@ == plain_of(spans_view(self.spans@)),
    {
        let mut out = String::new();
        let mut k: usize = 0;
        while k < self.spans.len()
            invariant
                k <= self.spans@.len(),
                out@ == plain_of(spans_view(self.spans@.take(k as int))),
            decreases self.spans@.len() - k,
        {
            let ghost before = spans_view(self.spans@.take(k as int));
            assert(spans_view(self.spans@.take(k + 1)).drop_last() =~= before);
            match &self.spans[k] {
                RichSpan::Text { text, .. } => push_str(&mut out, text.as_str()),
                RichSpan::Link { label, .. } => push_str(&mut out, label.as_str()),
                RichSpan::Ruby { base, .. } => push_str(&mut out, base.as_str()),
                _ => {},
            }
            k += 1;
            assert(out@ =~= plain_of(spans_view(self.spans@.take(k as int))));
        }
        assert(self.spans@.take(k as int) =~= self.spans@);
        out
    }

    /// Number of characters of [`RichText::plain`] (what a typewriter shows).
    pub fn char_count(&self) -> (n: usize)
        ensures
            n == plain_of(spans_view(self.spans@)).len(),
    {
        let p = self.plain();
        let v = chars_of(p.as_str());
        v.len()
    }

    /// The icon ids, in order.
    pub fn icon_ids(&self) -> (r: Vec<String>)
        ensures
            strs_view(r@) == icons_of(spans_view(self.spans@)),
    {
        let mut out: Vec<String> = Vec::new();
        let mut k: usize = 0;
        while k < self.spans.len()
            invariant
                k <= self.spans@.len(),
                strs_view(out@) == icons_of(spans_view(self.spans@.take(k as int))),
            decreases self.spans@.len() - k,
        {
            let ghost before = spans_view(self.spans@.take(k as int));
            let ghost o0 = strs_view(out@);
            assert(spans_view(self.spans@.take(k + 1)).drop_last() =~= before);
            match &self.spans[k] {
                RichSpan::Icon { id } => {
                    out.push(owned(id.as_str()));
                    assert(strs_view(out@) =~= o0.push(id@));
                },
                _ => {},
            }
            k += 1;
            assert(strs_view(out@) =~= icons_of(spans_view(self.spans@.take(k as int))));
        }
        assert(self.spans@.take(k as int) =~= self.spans@);
        out
    }
}

/// Reads rich-text markup into spans (see [`rich_spans`]): plain text (each
/// byte of a non-ASCII character copied as a character of its own), pause,
/// speed, icon, ruby and link spans, and the style tags open around text;
/// errors give byte positions.
pub fn parse_rich_text(input: &str) -> (r: Result<RichText, MarkupError>)
    ensures
        match r {
            Ok(t) => rich_spans(input@) == Ok::<Seq<SpanSpec>, MarkupErrSpec>(spans_view(t.spans@)),
            Err(e) => rich_spans(input@) == Err::<Seq<SpanSpec>, MarkupErrSpec>(err_view(e))
                && !(e is BadAttr),
        },
{
    let v = chars_of(input);
    let bytes = input.as_bytes();
    let total = bytes.len();
    proof {
        assert(v@.take(0) =~= Seq::<char>::empty());
        assert(encode_utf8(Seq::<char>::empty()) =~= Seq::<u8>::empty());
    }
    let mut k: usize = 0;
    let mut bpos: usize = 0;
    let mut mods: Vec<StyleMod> = Vec::new();
    let mut buf: Vec<char> = Vec::new();
    let mut spans: Vec<RichSpan> = Vec::new();
    assert(mods_view(mods@) =~= Seq::<ModSpec>::empty());
    assert(spans_view(spans@) =~= Seq::<SpanSpec>::empty());
    while k < v.len()
        invariant
            v@ == input@,
            bytes@ == encode_utf8(v@),
            total == bytes@.len(),
            k <= v@.len(),
            bpos == byte_at(v@, k as int),
            rich_spans(v@) == rich_from(v@, k as int, mods_view(mods@), buf@, spans_view(spans@)),
        decreases v@.len() - k,
    {
        if v[k] != '{' {
            let w = push_char_bytes(&mut buf, bytes, v.as_slice(), k, bpos);
            bpos = bpos + w;
            k += 1;
        } else {
            flush_exec(&mut spans, &buf, &mods);
            buf = Vec::new();
            match read_tag(&v, k, bpos, total, &mut mods, &mut spans) {
                Ok((k3, b3)) => {
                    k = k3;
                    bpos = b3;
                },
                Err(e) => {
                    return Err(e);
                },
            }
        }
    }
    flush_exec(&mut spans, &buf, &mods);
    Ok(RichText { spans })
}

/// Each character's UTF-8 bytes, each read as a character, in order.
pub open spec fn bytes_text(s: Seq<char>) -> Seq<char>
    decreases s.len(),
{
    if s.len() == 0 {
        seq![]
    } else {
        bytes_as_chars(s[0]) + bytes_text(s.drop_first())
    }
}

/// Reading text without tags from `k` adds its bytes to the pending text
/// and flushes it at the end.
pub proof fn lemma_untagged_from(s: Seq<char>, k: int, mods: Seq<ModSpec>, buf: Seq<char>, spans: Seq<SpanSpec>)
    requires
        0 <= k <= s.len(),
        forall|j: int| k <= j < s.len() ==> s[j] != '{',
    ensures
        rich_from(s, k, mods, buf, spans) == Ok::<Seq<SpanSpec>, MarkupErrSpec>(
            flush(spans, buf + bytes_text(s.skip(k)), mods),
        ),
    decreases s.len() - k,
{
    if k == s.len() {
        assert(s.skip(k) =~= Seq::<char>::empty());
        assert(buf + bytes_text(s.skip(k)) =~= buf);
    } else {
        lemma_untagged_from(s, k + 1, mods, buf + bytes_as_chars(s[k]), spans);
        assert(s.skip(k).drop_first() =~= s.skip(k + 1));
        assert(s.skip(k)[0] == s[k]);
        assert(buf + bytes_as_chars(s[k]) + bytes_text(s.skip(k + 1)) =~= buf + bytes_text(s.skip(k)));
    }
}

/// Markup without tags is one unstyled text span holding its bytes read as
/// characters (none for empty input).
pub proof fn lemma_untagged(s: Seq<char>)
    requires
        !s.contains('{'),
    ensures
        rich_spans(s) == Ok::<Seq<SpanSpec>, MarkupErrSpec>(
            if bytes_text(s).len() > 0 {
                seq![SpanSpec::Text(bytes_text(s), seq![])]
            } else {
                seq![]
            },
        ),
{
    assert forall|j: int| 0 <= j < s.len() implies s[j] != '{' by {
        if s[j] == '{' {
            assert(s.contains('{'));
        }
    }
    lemma_untagged_from(s, 0, seq![], seq![], seq![]);
    assert(s.skip(0) =~= s);
    assert(Seq::<char>::empty() + bytes_text(s) =~= bytes_text(s));
    assert(Seq::<SpanSpec>::empty().push(SpanSpec::Text(bytes_text(s), seq![])) =~= seq![
        SpanSpec::Text(bytes_text(s), seq![]),
    ]);
}

} // verus!
