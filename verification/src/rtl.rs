//! Bidirectional marks and simple right-to-left display helpers.
//!
//! This is not the Unicode Bidirectional Algorithm: lines that are mostly
//! right-to-left are reversed character by character and tagged with a mark.

use vstd::prelude::*;

use crate::strings::{ascii_alphabetic, chars_of, is_ascii_alpha, push_char, push_str, string_of};

verus! {

/// Unicode bidirectional marks and controls handled in narrative text.
#[derive(Debug, Clone, Copy, PartialEq, Eq, Structural)]
pub enum BidiMark {
    /// U+200E LEFT-TO-RIGHT MARK.
    Lrm,
    /// U+200F RIGHT-TO-LEFT MARK.
    Rlm,
    /// U+202A LEFT-TO-RIGHT EMBEDDING.
    Lre,
    /// U+202B RIGHT-TO-LEFT EMBEDDING.
    Rle,
    /// U+202C POP DIRECTIONAL FORMATTING.
    Pdf,
    /// U+2066 LEFT-TO-RIGHT ISOLATE.
    Lri,
    /// U+2067 RIGHT-TO-LEFT ISOLATE.
    Rli,
    /// U+2069 POP DIRECTIONAL ISOLATE.
    Pdi,
}

/// The codepoint of a mark.
pub open spec fn mark_char(m: BidiMark) -> char {
    match m {
        BidiMark::Lrm => '\u{200E}',
        BidiMark::Rlm => '\u{200F}',
        BidiMark::Lre => '\u{202A}',
        BidiMark::Rle => '\u{202B}',
        BidiMark::Pdf => '\u{202C}',
        BidiMark::Lri => '\u{2066}',
        BidiMark::Rli => '\u{2067}',
        BidiMark::Pdi => '\u{2069}',
    }
}

/// Whether `c` is the codepoint of one of the handled marks.
pub open spec fn is_mark_char(c: char) -> bool {
    exists|m: BidiMark| mark_char(m) == c
}

impl BidiMark {
    /// Codepoint of the mark.
    pub fn as_char(self) -> (c: char)
        ensures
            c == mark_char(self),
    {
        match self {
            BidiMark::Lrm => '\u{200E}',
            BidiMark::Rlm => '\u{200F}',
            BidiMark::Lre => '\u{202A}',
            BidiMark::Rle => '\u{202B}',
            BidiMark::Pdf => '\u{202C}',
            BidiMark::Lri => '\u{2066}',
            BidiMark::Rli => '\u{2067}',
            BidiMark::Pdi => '\u{2069}',
        }
    }

    /// The mark whose codepoint is `c`, if any.
    pub fn from_char(c: char) -> (r: Option<BidiMark>)
        ensures
            match r {
                Some(m) => mark_char(m) == c,
                None => !is_mark_char(c),
            },
    {
        let r = if c == '\u{200E}' {
            Some(BidiMark::Lrm)
        } else if c == '\u{200F}' {
            Some(BidiMark::Rlm)
        } else if c == '\u{202A}' {
            Some(BidiMark::Lre)
        } else if c == '\u{202B}' {
            Some(BidiMark::Rle)
        } else if c == '\u{202C}' {
            Some(BidiMark::Pdf)
        } else if c == '\u{2066}' {
            Some(BidiMark::Lri)
        } else if c == '\u{2067}' {
            Some(BidiMark::Rli)
        } else if c == '\u{2069}' {
            Some(BidiMark::Pdi)
        } else {
            None
        };
        proof {
            if r is None {
                assert forall|m: BidiMark| mark_char(m) != c by {
                    match m {
                        BidiMark::Lrm => {},
                        BidiMark::Rlm => {},
                        BidiMark::Lre => {},
                        BidiMark::Rle => {},
                        BidiMark::Pdf => {},
                        BidiMark::Lri => {},
                        BidiMark::Rli => {},
                        BidiMark::Pdi => {},
                    }
                }
            }
        }
        r
    }
}


/// `s` without the handled bidi marks.
pub open spec fn stripped(s: Seq<char>) -> Seq<char>
    decreases s.len(),
{
    if s.len() == 0 {
        s
    } else if is_mark_char(s.last()) {
        stripped(s.drop_last())
    } else {
        stripped(s.drop_last()).push(s.last())
    }
}

/// Strip bidi control characters for measurement or plain storage.
pub fn strip_bidi_marks(input: &str) -> (r: String)
    ensures
        r@ == stripped(input@),
{
    let v = chars_of(input);
    let mut out = String::new();
    let mut i: usize = 0;
    while i < v.len()
        invariant
            0 <= i <= v.len(),
            v@ == input@,
            out@ == stripped(v@.take(i as int)),
        decreases v.len() - i,
    {
        let c = v[i];
        let m = BidiMark::from_char(c);
        assert(v@.take(i + 1).drop_last() =~= v@.take(i as int));
        assert(v@.take(i + 1).last() == c);
        if m.is_none() {
            push_char(&mut out, c);
        }
        i += 1;
    }
    assert(v@.take(v.len() as int) =~= v@);
    out
}

/// The right-to-left blocks recognised by the heuristic (Hebrew, Arabic,
/// Syriac, Arabic supplement and extended, Arabic presentation forms).
pub open spec fn rtl_char(c: char) -> bool {
    ('\u{0590}' <= c <= '\u{05FF}') || ('\u{0600}' <= c <= '\u{06FF}') || ('\u{0700}' <= c
        <= '\u{074F}') || ('\u{0750}' <= c <= '\u{077F}') || ('\u{08A0}' <= c <= '\u{08FF}')
        || ('\u{FB50}' <= c <= '\u{FDFF}') || ('\u{FE70}' <= c <= '\u{FEFF}')
}

/// Whether a character is in a common right-to-left block (heuristic).
pub fn is_rtl_char(c: char) -> (b: bool)
    ensures
        b == rtl_char(c),
{
    ('\u{0590}' <= c && c <= '\u{05FF}') || ('\u{0600}' <= c && c <= '\u{06FF}') || (
    '\u{0700}' <= c && c <= '\u{074F}') || ('\u{0750}' <= c && c <= '\u{077F}') || ('\u{08A0}'
        <= c && c <= '\u{08FF}') || ('\u{FB50}' <= c && c <= '\u{FDFF}') || ('\u{FE70}' <= c && c
        <= '\u{FEFF}')
}

/// Number of right-to-left characters in `s`.
pub open spec fn rtl_count(s: Seq<char>) -> nat
    decreases s.len(),
{
    if s.len() == 0 {
        0
    } else {
        rtl_count(s.drop_last()) + if rtl_char(s.last()) {
            1nat
        } else {
            0nat
        }
    }
}

/// Number of ASCII letters in `s` (strong left-to-right letters).
pub open spec fn ltr_count(s: Seq<char>) -> nat
    decreases s.len(),
{
    if s.len() == 0 {
        0
    } else {
        ltr_count(s.drop_last()) + if !rtl_char(s.last()) && is_ascii_alpha(s.last()) {
            1nat
        } else {
            0nat
        }
    }
}

/// A line is mostly right-to-left when it has more right-to-left characters
/// than ASCII letters.
pub open spec fn mostly_rtl(s: Seq<char>) -> bool {
    rtl_count(s) > ltr_count(s)
}

/// Detect whether a string is predominantly right-to-left.
pub fn is_mostly_rtl(input: &str) -> (b: bool)
    ensures
        b == mostly_rtl(input@),
{
    let v = chars_of(input);
    let mut rtl: usize = 0;
    let mut ltr: usize = 0;
    let mut i: usize = 0;
    while i < v.len()
        invariant
            0 <= i <= v.len(),
            v@ == input@,
            rtl == rtl_count(v@.take(i as int)),
            ltr == ltr_count(v@.take(i as int)),
            rtl + ltr <= i,
        decreases v.len() - i,
    {
        let c = v[i];
        assert(v@.take(i + 1).drop_last() =~= v@.take(i as int));
        assert(v@.take(i + 1).last() == c);
        if is_rtl_char(c) {
            rtl += 1;
        } else if ascii_alphabetic(c) {
            ltr += 1;
        }
        i += 1;
    }
    assert(v@.take(v.len() as int) =~= v@);
    rtl > ltr
}

/// The display order produced for a simple right-to-left run: marks
/// removed, characters reversed.
pub open spec fn display_reversed(s: Seq<char>) -> Seq<char> {
    stripped(s).reverse()
}

/// Reverse the display order of a line (not a full bidi implementation).
pub fn reverse_display_order(input: &str) -> (r: String)
    ensures
        r@ == display_reversed(input@),
{
    let cleaned = strip_bidi_marks(input);
    let v = chars_of(cleaned.as_str());
    let mut rev: Vec<char> = Vec::new();
    let mut i: usize = v.len();
    while i > 0
        invariant
            i <= v.len(),
            rev@.len() == v.len() - i,
            forall|k: int| 0 <= k < rev@.len() ==> rev@[k] == v@[v.len() - 1 - k],
        decreases i,
    {
        i -= 1;
        rev.push(v[i]);
    }
    let r = string_of(rev.as_slice());
    assert(r@ =~= v@.reverse());
    r
}

/// `s` wrapped on both sides by the base-direction mark.
pub open spec fn wrapped(s: Seq<char>, base_rtl: bool) -> Seq<char> {
    let m = if base_rtl {
        mark_char(BidiMark::Rlm)
    } else {
        mark_char(BidiMark::Lrm)
    };
    seq![m] + s + seq![m]
}

/// Wrap text with RLM (right-to-left base) or LRM (left-to-right base).
pub fn wrap_for_base_direction(input: &str, base_rtl: bool) -> (r: String)
    ensures
        r@ == wrapped(input@, base_rtl),
{
    let mark = if base_rtl {
        BidiMark::Rlm.as_char()
    } else {
        BidiMark::Lrm.as_char()
    };
    let mut out = String::new();
    push_char(&mut out, mark);
    push_str(&mut out, input);
    push_char(&mut out, mark);
    assert(out@ =~= wrapped(input@, base_rtl));
    out
}

/// What a line looks like once prepared for display.
pub open spec fn prepared_line(s: Seq<char>) -> Seq<char> {
    if mostly_rtl(s) {
        wrapped(display_reversed(s), true)
    } else {
        s
    }
}

/// Prepare a line for layout: mostly right-to-left lines are reversed and
/// tagged with RLM; other lines are unchanged.
pub fn prepare_line_for_display(input: &str) -> (r: String)
    ensures
        r@ == prepared_line(input@),
{
    if is_mostly_rtl(input) {
        let rev = reverse_display_order(input);
        wrap_for_base_direction(rev.as_str(), true)
    } else {
        String::from_str(input)
    }
}

/// Stripping marks is idempotent, and its result holds no mark.
pub proof fn lemma_stripped_has_no_marks(s: Seq<char>)
    ensures
        forall|k: int| 0 <= k < stripped(s).len() ==> !is_mark_char(#[trigger] stripped(s)[k]),
        stripped(stripped(s)) == stripped(s),
    decreases s.len(),
{
    if s.len() > 0 {
        lemma_stripped_has_no_marks(s.drop_last());
    }
    lemma_filter_keeps_all(stripped(s));
}

/// Stripping a sequence that holds no mark keeps it unchanged.
proof fn lemma_filter_keeps_all(t: Seq<char>)
    requires
        forall|k: int| 0 <= k < t.len() ==> !is_mark_char(#[trigger] t[k]),
    ensures
        stripped(t) == t,
    decreases t.len(),
{
    if t.len() > 0 {
        assert(!is_mark_char(t[t.len() - 1]));
        lemma_filter_keeps_all(t.drop_last());
        assert(t.drop_last().push(t.last()) =~= t);
    }
}

/// Reversing the display order twice gives back the line without its marks.
pub proof fn lemma_display_reversed_twice(s: Seq<char>)
    ensures
        display_reversed(display_reversed(s)) == stripped(s),
{
    lemma_stripped_has_no_marks(s);
    let r = stripped(s).reverse();
    assert forall|k: int| 0 <= k < r.len() implies !is_mark_char(#[trigger] r[k]) by {
        assert(r[k] == stripped(s)[r.len() - 1 - k]);
    }
    lemma_filter_keeps_all(r);
    assert(r.reverse() =~= stripped(s));
}

/// A character of one of the right-to-left scripts the heuristic knows:
/// Hebrew, Arabic, Syriac, Arabic Supplement, Arabic Extended-A, Arabic
/// Presentation Forms-A and -B.
pub open spec fn in_rtl_script(c: char) -> bool {
    let u = c as u32;
    ||| 0x0590 <= u <= 0x05FF
    ||| 0x0600 <= u <= 0x06FF
    ||| 0x0700 <= u <= 0x074F
    ||| 0x0750 <= u <= 0x077F
    ||| 0x08A0 <= u <= 0x08FF
    ||| 0xFB50 <= u <= 0xFDFF
    ||| 0xFE70 <= u <= 0xFEFF
}

/// Every character of those scripts counts as right-to-left, and no other
/// character does (an ASCII letter in particular counts as left-to-right).
pub proof fn lemma_rtl_chars(c: char)
    ensures
        rtl_char(c) <==> in_rtl_script(c),
        is_ascii_alpha(c) ==> !rtl_char(c),
{
}

/// Counts of a line written in one of those scripts: every character is
/// right-to-left and none is an ASCII letter.
proof fn lemma_rtl_script_counts(s: Seq<char>)
    requires
        forall|k: int| 0 <= k < s.len() ==> in_rtl_script(#[trigger] s[k]),
    ensures
        rtl_count(s) == s.len(),
        ltr_count(s) == 0,
    decreases s.len(),
{
    if s.len() > 0 {
        lemma_rtl_script_counts(s.drop_last());
        lemma_rtl_chars(s.last());
        assert(in_rtl_script(s[s.len() - 1]));
    }
}

/// A non-empty line written in a right-to-left script (Hebrew, Arabic, …)
/// is mostly right-to-left, so preparing it for display reverses it and
/// wraps it in right-to-left marks.
pub proof fn lemma_rtl_script_line(s: Seq<char>)
    requires
        s.len() > 0,
        forall|k: int| 0 <= k < s.len() ==> in_rtl_script(#[trigger] s[k]),
    ensures
        mostly_rtl(s),
        prepared_line(s) == wrapped(display_reversed(s), true),
{
    lemma_rtl_script_counts(s);
}

/// Counts of a line of ASCII letters: none is right-to-left.
proof fn lemma_ascii_counts(s: Seq<char>)
    requires
        forall|k: int| 0 <= k < s.len() ==> is_ascii_alpha(#[trigger] s[k]),
    ensures
        rtl_count(s) == 0,
        ltr_count(s) == s.len(),
    decreases s.len(),
{
    if s.len() > 0 {
        lemma_ascii_counts(s.drop_last());
        lemma_rtl_chars(s.last());
        assert(is_ascii_alpha(s[s.len() - 1]));
    }
}

/// A line of ASCII letters is not mostly right-to-left and is displayed as
/// it is.
pub proof fn lemma_ascii_line(s: Seq<char>)
    requires
        forall|k: int| 0 <= k < s.len() ==> is_ascii_alpha(#[trigger] s[k]),
    ensures
        !mostly_rtl(s),
        prepared_line(s) == s,
{
    lemma_ascii_counts(s);
}

/// A line with no character of a right-to-left script has no
/// right-to-left characters.
proof fn lemma_no_rtl_count(s: Seq<char>)
    requires
        forall|k: int| 0 <= k < s.len() ==> !in_rtl_script(#[trigger] s[k]),
    ensures
        rtl_count(s) == 0,
    decreases s.len(),
{
    if s.len() > 0 {
        lemma_no_rtl_count(s.drop_last());
        lemma_rtl_chars(s.last());
        assert(!in_rtl_script(s[s.len() - 1]));
    }
}

/// A line with no character of a right-to-left script (an empty line, a
/// line of digits and punctuation, English text) is not mostly
/// right-to-left and is displayed as it is.
pub proof fn lemma_no_rtl_line(s: Seq<char>)
    requires
        forall|k: int| 0 <= k < s.len() ==> !in_rtl_script(#[trigger] s[k]),
    ensures
        !mostly_rtl(s),
        prepared_line(s) == s,
{
    lemma_no_rtl_count(s);
}

} // verus!
