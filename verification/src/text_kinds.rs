//! Text alignment, font weight, markup errors and the CPU glyph atlas.

use vstd::prelude::*;

use crate::strings::{decimal, push_decimal, push_str};

verus! {

/// Horizontal alignment.
#[derive(Debug, Clone, Copy, PartialEq, Eq, Structural)]
pub enum TextAlign {
    /// Left.
    Left,
    /// Center.
    Center,
    /// Right.
    Right,
}

impl Default for TextAlign {
    fn default() -> (a: Self)
        ensures
            a == TextAlign::Left,
    {
        TextAlign::Left
    }
}

/// Font weight.
#[derive(Debug, Clone, Copy, PartialEq, Eq, Structural)]
pub enum FontWeight {
    /// Thin.
    Thin,
    /// Regular.
    Regular,
    /// Bold.
    Bold,
}

impl Default for FontWeight {
    fn default() -> (w: Self)
        ensures
            w == FontWeight::Regular,
    {
        FontWeight::Regular
    }
}

/// Markup parse error.
#[derive(Debug, Clone)]
pub enum MarkupError {
    /// Unclosed tag.
    Unclosed(usize),
    /// Unknown tag.
    UnknownTag(String, usize),
    /// Bad attribute.
    BadAttr(String, usize),
}

/// The message of a markup error.
pub open spec fn markup_error_text(e: MarkupError) -> Seq<char> {
    match e {
        MarkupError::Unclosed(at) => "unclosed tag at "@ + decimal(at as nat),
        MarkupError::UnknownTag(t, at) => "unknown tag '"@ + t@ + "' at "@ + decimal(at as nat),
        MarkupError::BadAttr(t, at) => "bad attribute in '"@ + t@ + "' at "@ + decimal(at as nat),
    }
}

impl MarkupError {
    /// The error's message.
    pub fn message(&self) -> (s: String)
        ensures
            s@ == markup_error_text(*self),
    {
        let mut s = String::new();
        match self {
            MarkupError::Unclosed(at) => {
                push_str(&mut s, "unclosed tag at ");
                push_decimal(&mut s, *at);
            },
            MarkupError::UnknownTag(t, at) => {
                push_str(&mut s, "unknown tag '");
                push_str(&mut s, t.as_str());
                push_str(&mut s, "' at ");
                push_decimal(&mut s, *at);
            },
            MarkupError::BadAttr(t, at) => {
                push_str(&mut s, "bad attribute in '");
                push_str(&mut s, t.as_str());
                push_str(&mut s, "' at ");
                push_decimal(&mut s, *at);
            },
        }
        s
    }
}

/// CPU glyph atlas (RGBA8) for texture upload.
#[derive(Debug, Clone)]
pub struct GlyphAtlas {
    /// Pixel width.
    pub width: u32,
    /// Pixel height.
    pub height: u32,
    /// RGBA8 packed rows.
    pub rgba: Vec<u8>,
    /// Packed glyph count (codepoint x size keys).
    pub glyph_keys: usize,
}

} // verus!
