//! Ruby (furigana) tags: reading `{ruby text=かな base=仮名}` bodies and
//! writing ruby markup.

use vstd::prelude::*;

use crate::strings::{chars_of, has_char, push_str, str_eq, string_of};
use crate::tags::{attr, attr_of, trim_quote_chars, trim_quotes};

verus! {

/// A bare tag body (no `=`, not empty) taken as the value, quotes trimmed.
pub open spec fn unnamed_of(attrs: Seq<char>) -> Option<Seq<char>> {
    if attrs.contains('=') || attrs.len() == 0 {
        None
    } else {
        Some(trim_quotes(attrs))
    }
}

/// The ruby text of a tag body: attribute `text`, else `rt`, else `value`,
/// else a bare body.
pub open spec fn ruby_text_of(attrs: Seq<char>) -> Option<Seq<char>> {
    match attr_of(attrs, "text"@) {
        Some(v) => Some(v),
        None => match attr_of(attrs, "rt"@) {
            Some(v) => Some(v),
            None => match attr_of(attrs, "value"@) {
                Some(v) => Some(v),
                None => unnamed_of(attrs),
            },
        },
    }
}

/// `(base, ruby)` of a `ruby` tag: `None` for another tag or a body without
/// ruby text; the base is attribute `base`, empty when absent.
pub open spec fn ruby_tag(tag: Seq<char>, attrs: Seq<char>) -> Option<(Seq<char>, Seq<char>)> {
    if tag != "ruby"@ {
        None
    } else {
        match ruby_text_of(attrs) {
            None => None,
            Some(r) => Some(
                (
                    match attr_of(attrs, "base"@) {
                        Some(b) => b,
                        None => Seq::<char>::empty(),
                    },
                    r,
                ),
            ),
        }
    }
}

fn unnamed(attrs: &[char]) -> (r: Option<Vec<char>>)
    ensures
        match r {
            Some(v) => unnamed_of(attrs@) == Some(v@),
            None => unnamed_of(attrs@) is None,
        },
{
    if has_char(attrs, '=') || attrs.len() == 0 {
        None
    } else {
        Some(trim_quote_chars(attrs))
    }
}

fn ruby_text(attrs: &[char]) -> (r: Option<Vec<char>>)
    ensures
        match r {
            Some(v) => ruby_text_of(attrs@) == Some(v@),
            None => ruby_text_of(attrs@) is None,
        },
{
    match attr(attrs, "text") {
        Some(v) => Some(v),
        None => match attr(attrs, "rt") {
            Some(v) => Some(v),
            None => match attr(attrs, "value") {
                Some(v) => Some(v),
                None => unnamed(attrs),
            },
        },
    }
}

/// Parse `{ruby base=漢字 text=かんじ}` or `{ruby=かんじ}` tag bodies into
/// `(base, ruby)`. Returns `None` if the tag is not a ruby tag.
pub fn parse_ruby_tag(tag_name: &str, attrs: &str) -> (r: Option<(String, String)>)
    ensures
        match r {
            Some(p) => ruby_tag(tag_name@, attrs@) == Some((p.0@, p.1@)),
            None => ruby_tag(tag_name@, attrs@) is None,
        },
{
    if !str_eq(tag_name, "ruby") {
        return None;
    }
    let a = chars_of(attrs);
    match ruby_text(a.as_slice()) {
        None => None,
        Some(rt) => {
            let base: Vec<char> = match attr(a.as_slice(), "base") {
                Some(b) => b,
                None => Vec::new(),
            };
            Some((string_of(base.as_slice()), string_of(rt.as_slice())))
        },
    }
}

/// The markup `{ruby text=RUBY}BASE{/ruby}`.
pub open spec fn ruby_markup(base: Seq<char>, ruby: Seq<char>) -> Seq<char> {
    "{ruby text="@ + ruby + "}"@ + base + "{/ruby}"@
}

/// Format a ruby span as markup.
pub fn format_ruby_markup(base: &str, ruby: &str) -> (s: String)
    ensures
        s@ == ruby_markup(base@, ruby@),
{
    let mut s = String::new();
    push_str(&mut s, "{ruby text=");
    push_str(&mut s, ruby);
    push_str(&mut s, "}");
    push_str(&mut s, base);
    push_str(&mut s, "{/ruby}");
    s
}

} // verus!
