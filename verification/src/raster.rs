//! CPU rasterizer helpers for 0x00RRGGBB pixel buffers: rectangle fills and
//! a 5x7 bitmap font with word wrapping.

use vstd::prelude::*;

use crate::strings::{
    ascii_upper, chars_of, extend_chars, is_ws, slice_range, split_whitespace, split_ws_from, to_ascii_upper, words,
};

verus! {

/// Pack R, G, B into a softbuffer-style `0x00RRGGBB` pixel.
pub fn pack_rgb(r: u8, g: u8, b: u8) -> (p: u32)
    ensures
        p == r as int * 65536 + g as int * 256 + b as int,
{
    let p = (r as u32) << 16 | (g as u32) << 8 | b as u32;
    assert(p == r as int * 65536 + g as int * 256 + b as int) by (bit_vector)
        requires
            p == (r as u32) << 16 | (g as u32) << 8 | b as u32,
    ;
    p
}

/// Number of pixels of `b` that differ from `clear`.
pub open spec fn painted_count(b: Seq<u32>, clear: u32) -> nat
    decreases b.len(),
{
    if b.len() == 0 {
        0
    } else {
        painted_count(b.drop_last(), clear) + if b.last() != clear {
            1nat
        } else {
            0nat
        }
    }
}

/// Count non-background pixels (any not equal to the clear color).
pub fn count_painted_pixels(buf: &[u32], clear: u32) -> (n: usize)
    ensures
        n == painted_count(buf@, clear),
{
    let mut n: usize = 0;
    let mut i: usize = 0;
    while i < buf.len()
        invariant
            0 <= i <= buf@.len(),
            n == painted_count(buf@.take(i as int), clear),
            n <= i,
        decreases buf@.len() - i,
    {
        assert(buf@.take(i + 1).drop_last() =~= buf@.take(i as int));
        if buf[i] != clear {
            n += 1;
        }
        i += 1;
    }
    assert(buf@.take(i as int) =~= buf@);
    n
}

/// `v` clamped to `0..=hi`.
pub open spec fn clamp_to(v: int, hi: int) -> int {
    if v < 0 {
        0
    } else if v > hi {
        hi
    } else {
        v
    }
}

/// Pixel `i` of a buffer `w` pixels wide lies in the rectangle
/// `[x0, x1) x [y0, y1)`.
pub open spec fn in_rect(i: int, w: int, x0: int, y0: int, x1: int, y1: int) -> bool {
    w > 0 && y0 <= i / w < y1 && x0 <= i % w < x1
}

/// The buffer after filling a rectangle clipped to the `w x h` surface.
pub open spec fn filled(
    b: Seq<u32>,
    w: u32,
    h: u32,
    x0: int,
    y0: int,
    x1: int,
    y1: int,
    color: u32,
) -> Seq<u32> {
    let cx0 = clamp_to(x0, w as int);
    let cy0 = clamp_to(y0, h as int);
    let cx1 = clamp_to(x1, w as int);
    let cy1 = clamp_to(y1, h as int);
    Seq::new(b.len(), |i: int| if in_rect(i, w as int, cx0, cy0, cx1, cy1) { color } else { b[i] })
}

/// A surface `w x h` fits in a buffer of `len` pixels, with room for `u32`
/// row offsets and `i32` coordinates.
pub open spec fn surface_ok(len: int, w: u32, h: u32) -> bool {
    &&& w <= i32::MAX
    &&& h <= i32::MAX
    &&& (w as int) * (h as int) <= u32::MAX
    &&& (w as int) * (h as int) <= len
}

/// The rows touched by a fill of `[x0, x1) x [y0, y1)`, clipped to a `w x h`
/// surface, lie inside a buffer of `len` pixels, and their row offsets fit in
/// a `u32`.
pub open spec fn rect_fits(len: int, w: u32, h: u32, x0: int, y0: int, x1: int, y1: int) -> bool {
    let cx0 = clamp_to(x0, w as int);
    let cy0 = clamp_to(y0, h as int);
    let cx1 = clamp_to(x1, w as int);
    let cy1 = clamp_to(y1, h as int);
    cx0 < cx1 && cy0 < cy1 ==> (cy1 - 1) * w <= u32::MAX && (cy1 - 1) * w + cx1 <= len
}

/// On a surface that fits its buffer, every rectangle fits.
pub proof fn lemma_surface_fits(len: int, w: u32, h: u32, x0: int, y0: int, x1: int, y1: int)
    requires
        surface_ok(len, w, h),
    ensures
        rect_fits(len, w, h, x0, y0, x1, y1),
{
    let cx1 = clamp_to(x1, w as int);
    let cy1 = clamp_to(y1, h as int);
    if cy1 >= 1 {
        assert((cy1 - 1) * w + cx1 <= (h as int - 1) * w + w) by (nonlinear_arith)
            requires
                1 <= cy1 <= h,
                0 <= cx1 <= w,
        ;
        assert((h as int - 1) * w + w == (w as int) * (h as int)) by (nonlinear_arith);
    }
}

/// `i32::clamp(v, 0, hi)` for `hi >= 0`.
fn clamp_i32(v: i32, hi: i32) -> (r: i32)
    requires
        hi >= 0,
    ensures
        r as int == clamp_to(v as int, hi as int),
{
    if v < 0 {
        0
    } else if v > hi {
        hi
    } else {
        v
    }
}

/// Row and column of pixel `i` in a buffer `w` wide.
proof fn lemma_row_col(i: int, w: int, y: int, x: int)
    requires
        w > 0,
        0 <= x < w,
        y >= 0,
    ensures
        (i == y * w + x) <==> (i / w == y && i % w == x),
{
    if i == y * w + x {
        vstd::arithmetic::div_mod::lemma_fundamental_div_mod_converse(i, w, y, x);
    }
    if i / w == y && i % w == x {
        vstd::arithmetic::div_mod::lemma_fundamental_div_mod(i, w);
        assert(i == w * y + x);
        assert(w * y == y * w) by (nonlinear_arith);
    }
}

/// Fill a rectangle in the output buffer (clipped to the surface).
pub fn fill_rect(
    buf: &mut [u32],
    out_w: u32,
    out_h: u32,
    x0: i32,
    y0: i32,
    x1: i32,
    y1: i32,
    color: u32,
)
    requires
        out_w <= i32::MAX,
        out_h <= i32::MAX,
        rect_fits(old(buf)@.len() as int, out_w, out_h, x0 as int, y0 as int, x1 as int, y1 as int),
    ensures
        final(buf)@ == filled(
            old(buf)@,
            out_w,
            out_h,
            x0 as int,
            y0 as int,
            x1 as int,
            y1 as int,
            color,
        ),
{
    let w = out_w as i32;
    let h = out_h as i32;
    let x0 = clamp_i32(x0, w);
    let y0 = clamp_i32(y0, h);
    let x1 = clamp_i32(x1, w);
    let y1 = clamp_i32(y1, h);
    let ghost b0 = buf@;
    let ghost wi = out_w as int;
    let mut y = y0;
    if x0 >= x1 || y0 >= y1 {
        assert(buf@ =~= filled(b0, out_w, out_h, x0 as int, y0 as int, x1 as int, y1 as int, color));
        return;
    }
    while y < y1
        invariant
            y0 <= y <= y1,
            0 <= x0 < x1 <= out_w,
            0 <= y0,
            y1 <= out_h,
            wi == out_w as int,
            buf@.len() == b0.len(),
            (y1 - 1) * wi <= u32::MAX,
            (y1 - 1) * wi + x1 <= b0.len(),
            buf@ == Seq::new(
                b0.len(),
                |i: int| if in_rect(i, wi, x0 as int, y0 as int, x1 as int, y as int) {
                    color
                } else {
                    b0[i]
                },
            ),
        decreases y1 - y,
    {
        proof {
            assert(y * wi <= (y1 - 1) * wi) by (nonlinear_arith)
                requires
                    y <= y1 - 1,
                    wi >= 0,
            ;
        }
        let row = (y as u32 * out_w) as usize;
        let mut x = x0;
        while x < x1
            invariant
                0 <= y0 <= y < y1,
                0 <= x0 <= x <= x1,
                x1 <= out_w,
                wi == out_w as int,
                row == y * wi,
                row + x1 <= b0.len(),
                buf@.len() == b0.len(),
                buf@ == Seq::new(
                    b0.len(),
                    |i: int|
                        if in_rect(i, wi, x0 as int, y0 as int, x1 as int, y as int) || (wi > 0
                            && i / wi == y && x0 <= i % wi < x) {
                            color
                        } else {
                            b0[i]
                        },
                ),
            decreases x1 - x,
        {
            let k = row + x as usize;
            let ghost before = buf@;
            buf[k] = color;
            proof {
                assert forall|i: int| 0 <= i < b0.len() implies #[trigger] buf@[i] == (if in_rect(
                    i,
                    wi,
                    x0 as int,
                    y0 as int,
                    x1 as int,
                    y as int,
                ) || (wi > 0 && i / wi == y && x0 <= i % wi < x + 1) {
                    color
                } else {
                    b0[i]
                }) by {
                    lemma_row_col(i, wi, y as int, x as int);
                }
                assert(buf@ =~= Seq::new(
                    b0.len(),
                    |i: int|
                        if in_rect(i, wi, x0 as int, y0 as int, x1 as int, y as int) || (wi > 0
                            && i / wi == y && x0 <= i % wi < x + 1) {
                            color
                        } else {
                            b0[i]
                        },
                ));
            }
            x += 1;
        }
        proof {
            assert(buf@ =~= Seq::new(
                b0.len(),
                |i: int| if in_rect(i, wi, x0 as int, y0 as int, x1 as int, y + 1) {
                    color
                } else {
                    b0[i]
                },
            ));
        }
        y += 1;
    }
    assert(buf@ =~= filled(b0, out_w, out_h, x0 as int, y0 as int, x1 as int, y1 as int, color));
}

/// Accented letters and typographic punctuation folded onto the characters
/// the bitmap font draws.
pub open spec fn fold_accent(c: char) -> char {
    match c {
        'á' | 'à' | 'ä' | 'â' | 'Á' => 'a',
        'é' | 'è' | 'ë' | 'ê' | 'É' => 'e',
        'í' | 'ì' | 'ï' | 'î' | 'Í' => 'i',
        'ó' | 'ò' | 'ö' | 'ô' | 'Ó' => 'o',
        'ú' | 'ù' | 'ü' | 'û' | 'Ú' => 'u',
        'ñ' | 'Ñ' => 'n',
        '¿' => '?',
        '¡' => '!',
        '…' => '.',
        '—' | '–' => '-',
        '“' | '”' | '„' => '"',
        '‘' | '’' => '\'',
        _ => c,
    }
}

/// Rows of the 5x7 bitmap for an (upper-case) character; bit 4 is the
/// leftmost column. Characters without a bitmap get a hollow box.
pub open spec fn glyph_table(u: char) -> Seq<u8> {
    match u {
        ' ' => seq![0, 0, 0, 0, 0, 0, 0],
        'A' => seq![0x0E, 0x11, 0x11, 0x1F, 0x11, 0x11, 0x11],
        'B' => seq![0x1E, 0x11, 0x11, 0x1E, 0x11, 0x11, 0x1E],
        'C' => seq![0x0E, 0x11, 0x10, 0x10, 0x10, 0x11, 0x0E],
        'D' => seq![0x1E, 0x11, 0x11, 0x11, 0x11, 0x11, 0x1E],
        'E' => seq![0x1F, 0x10, 0x10, 0x1E, 0x10, 0x10, 0x1F],
        'F' => seq![0x1F, 0x10, 0x10, 0x1E, 0x10, 0x10, 0x10],
        'G' => seq![0x0E, 0x11, 0x10, 0x17, 0x11, 0x11, 0x0E],
        'H' => seq![0x11, 0x11, 0x11, 0x1F, 0x11, 0x11, 0x11],
        'I' => seq![0x0E, 0x04, 0x04, 0x04, 0x04, 0x04, 0x0E],
        'J' => seq![0x01, 0x01, 0x01, 0x01, 0x11, 0x11, 0x0E],
        'K' => seq![0x11, 0x12, 0x14, 0x18, 0x14, 0x12, 0x11],
        'L' => seq![0x10, 0x10, 0x10, 0x10, 0x10, 0x10, 0x1F],
        'M' => seq![0x11, 0x1B, 0x15, 0x15, 0x11, 0x11, 0x11],
        'N' => seq![0x11, 0x19, 0x15, 0x13, 0x11, 0x11, 0x11],
        'O' => seq![0x0E, 0x11, 0x11, 0x11, 0x11, 0x11, 0x0E],
        'P' => seq![0x1E, 0x11, 0x11, 0x1E, 0x10, 0x10, 0x10],
        'Q' => seq![0x0E, 0x11, 0x11, 0x11, 0x15, 0x12, 0x0D],
        'R' => seq![0x1E, 0x11, 0x11, 0x1E, 0x14, 0x12, 0x11],
        'S' => seq![0x0E, 0x11, 0x10, 0x0E, 0x01, 0x11, 0x0E],
        'T' => seq![0x1F, 0x04, 0x04, 0x04, 0x04, 0x04, 0x04],
        'U' => seq![0x11, 0x11, 0x11, 0x11, 0x11, 0x11, 0x0E],
        'V' => seq![0x11, 0x11, 0x11, 0x11, 0x11, 0x0A, 0x04],
        'W' => seq![0x11, 0x11, 0x11, 0x15, 0x15, 0x1B, 0x11],
        'X' => seq![0x11, 0x11, 0x0A, 0x04, 0x0A, 0x11, 0x11],
        'Y' => seq![0x11, 0x11, 0x0A, 0x04, 0x04, 0x04, 0x04],
        'Z' => seq![0x1F, 0x01, 0x02, 0x04, 0x08, 0x10, 0x1F],
        '0' => seq![0x0E, 0x11, 0x13, 0x15, 0x19, 0x11, 0x0E],
        '1' => seq![0x04, 0x0C, 0x04, 0x04, 0x04, 0x04, 0x0E],
        '2' => seq![0x0E, 0x11, 0x01, 0x06, 0x08, 0x10, 0x1F],
        '3' => seq![0x1F, 0x01, 0x02, 0x06, 0x01, 0x11, 0x0E],
        '4' => seq![0x02, 0x06, 0x0A, 0x12, 0x1F, 0x02, 0x02],
        '5' => seq![0x1F, 0x10, 0x1E, 0x01, 0x01, 0x11, 0x0E],
        '6' => seq![0x06, 0x08, 0x10, 0x1E, 0x11, 0x11, 0x0E],
        '7' => seq![0x1F, 0x01, 0x02, 0x04, 0x08, 0x08, 0x08],
        '8' => seq![0x0E, 0x11, 0x11, 0x0E, 0x11, 0x11, 0x0E],
        '9' => seq![0x0E, 0x11, 0x11, 0x0F, 0x01, 0x02, 0x0C],
        '.' => seq![0x00, 0x00, 0x00, 0x00, 0x00, 0x0C, 0x0C],
        ',' => seq![0x00, 0x00, 0x00, 0x00, 0x0C, 0x04, 0x08],
        '!' => seq![0x04, 0x04, 0x04, 0x04, 0x04, 0x00, 0x04],
        '?' => seq![0x0E, 0x11, 0x01, 0x02, 0x04, 0x00, 0x04],
        ':' => seq![0x00, 0x0C, 0x0C, 0x00, 0x0C, 0x0C, 0x00],
        '-' => seq![0x00, 0x00, 0x00, 0x1F, 0x00, 0x00, 0x00],
        '\'' => seq![0x0C, 0x0C, 0x08, 0x00, 0x00, 0x00, 0x00],
        '"' => seq![0x1B, 0x1B, 0x12, 0x00, 0x00, 0x00, 0x00],
        '(' | '[' => seq![0x02, 0x04, 0x08, 0x08, 0x08, 0x04, 0x02],
        ')' | ']' => seq![0x08, 0x04, 0x02, 0x02, 0x02, 0x04, 0x08],
        '/' => seq![0x01, 0x01, 0x02, 0x04, 0x08, 0x10, 0x10],
        '>' => seq![0x08, 0x04, 0x02, 0x01, 0x02, 0x04, 0x08],
        '|' => seq![0x04, 0x04, 0x04, 0x04, 0x04, 0x04, 0x04],
        _ => seq![0x1F, 0x11, 0x11, 0x11, 0x11, 0x11, 0x1F],
    }
}

/// The bitmap drawn for `c`: accents folded, then upper-cased.
pub open spec fn glyph_rows(c: char) -> Seq<u8> {
    glyph_table(ascii_upper(fold_accent(c)))
}

fn fold_accent_char(c: char) -> (r: char)
    ensures
        r == fold_accent(c),
{
    match c {
        'á' | 'à' | 'ä' | 'â' | 'Á' => 'a',
        'é' | 'è' | 'ë' | 'ê' | 'É' => 'e',
        'í' | 'ì' | 'ï' | 'î' | 'Í' => 'i',
        'ó' | 'ò' | 'ö' | 'ô' | 'Ó' => 'o',
        'ú' | 'ù' | 'ü' | 'û' | 'Ú' => 'u',
        'ñ' | 'Ñ' => 'n',
        '¿' => '?',
        '¡' => '!',
        '…' => '.',
        '—' | '–' => '-',
        '“' | '”' | '„' => '"',
        '‘' | '’' => '\'',
        _ => c,
    }
}

fn glyph_of_upper(u: char) -> (rows: [u8; 7])
    ensures
        rows@ == glyph_table(u),
{
    let rows: [u8; 7] = match u {
        ' ' => [0, 0, 0, 0, 0, 0, 0],
        'A' => [0x0E, 0x11, 0x11, 0x1F, 0x11, 0x11, 0x11],
        'B' => [0x1E, 0x11, 0x11, 0x1E, 0x11, 0x11, 0x1E],
        'C' => [0x0E, 0x11, 0x10, 0x10, 0x10, 0x11, 0x0E],
        'D' => [0x1E, 0x11, 0x11, 0x11, 0x11, 0x11, 0x1E],
        'E' => [0x1F, 0x10, 0x10, 0x1E, 0x10, 0x10, 0x1F],
        'F' => [0x1F, 0x10, 0x10, 0x1E, 0x10, 0x10, 0x10],
        'G' => [0x0E, 0x11, 0x10, 0x17, 0x11, 0x11, 0x0E],
        'H' => [0x11, 0x11, 0x11, 0x1F, 0x11, 0x11, 0x11],
        'I' => [0x0E, 0x04, 0x04, 0x04, 0x04, 0x04, 0x0E],
        'J' => [0x01, 0x01, 0x01, 0x01, 0x11, 0x11, 0x0E],
        'K' => [0x11, 0x12, 0x14, 0x18, 0x14, 0x12, 0x11],
        'L' => [0x10, 0x10, 0x10, 0x10, 0x10, 0x10, 0x1F],
        'M' => [0x11, 0x1B, 0x15, 0x15, 0x11, 0x11, 0x11],
        'N' => [0x11, 0x19, 0x15, 0x13, 0x11, 0x11, 0x11],
        'O' => [0x0E, 0x11, 0x11, 0x11, 0x11, 0x11, 0x0E],
        'P' => [0x1E, 0x11, 0x11, 0x1E, 0x10, 0x10, 0x10],
        'Q' => [0x0E, 0x11, 0x11, 0x11, 0x15, 0x12, 0x0D],
        'R' => [0x1E, 0x11, 0x11, 0x1E, 0x14, 0x12, 0x11],
        'S' => [0x0E, 0x11, 0x10, 0x0E, 0x01, 0x11, 0x0E],
        'T' => [0x1F, 0x04, 0x04, 0x04, 0x04, 0x04, 0x04],
        'U' => [0x11, 0x11, 0x11, 0x11, 0x11, 0x11, 0x0E],
        'V' => [0x11, 0x11, 0x11, 0x11, 0x11, 0x0A, 0x04],
        'W' => [0x11, 0x11, 0x11, 0x15, 0x15, 0x1B, 0x11],
        'X' => [0x11, 0x11, 0x0A, 0x04, 0x0A, 0x11, 0x11],
        'Y' => [0x11, 0x11, 0x0A, 0x04, 0x04, 0x04, 0x04],
        'Z' => [0x1F, 0x01, 0x02, 0x04, 0x08, 0x10, 0x1F],
        '0' => [0x0E, 0x11, 0x13, 0x15, 0x19, 0x11, 0x0E],
        '1' => [0x04, 0x0C, 0x04, 0x04, 0x04, 0x04, 0x0E],
        '2' => [0x0E, 0x11, 0x01, 0x06, 0x08, 0x10, 0x1F],
        '3' => [0x1F, 0x01, 0x02, 0x06, 0x01, 0x11, 0x0E],
        '4' => [0x02, 0x06, 0x0A, 0x12, 0x1F, 0x02, 0x02],
        '5' => [0x1F, 0x10, 0x1E, 0x01, 0x01, 0x11, 0x0E],
        '6' => [0x06, 0x08, 0x10, 0x1E, 0x11, 0x11, 0x0E],
        '7' => [0x1F, 0x01, 0x02, 0x04, 0x08, 0x08, 0x08],
        '8' => [0x0E, 0x11, 0x11, 0x0E, 0x11, 0x11, 0x0E],
        '9' => [0x0E, 0x11, 0x11, 0x0F, 0x01, 0x02, 0x0C],
        '.' => [0x00, 0x00, 0x00, 0x00, 0x00, 0x0C, 0x0C],
        ',' => [0x00, 0x00, 0x00, 0x00, 0x0C, 0x04, 0x08],
        '!' => [0x04, 0x04, 0x04, 0x04, 0x04, 0x00, 0x04],
        '?' => [0x0E, 0x11, 0x01, 0x02, 0x04, 0x00, 0x04],
        ':' => [0x00, 0x0C, 0x0C, 0x00, 0x0C, 0x0C, 0x00],
        '-' => [0x00, 0x00, 0x00, 0x1F, 0x00, 0x00, 0x00],
        '\'' => [0x0C, 0x0C, 0x08, 0x00, 0x00, 0x00, 0x00],
        '"' => [0x1B, 0x1B, 0x12, 0x00, 0x00, 0x00, 0x00],
        '(' | '[' => [0x02, 0x04, 0x08, 0x08, 0x08, 0x04, 0x02],
        ')' | ']' => [0x08, 0x04, 0x02, 0x02, 0x02, 0x04, 0x08],
        '/' => [0x01, 0x01, 0x02, 0x04, 0x08, 0x10, 0x10],
        '>' => [0x08, 0x04, 0x02, 0x01, 0x02, 0x04, 0x08],
        '|' => [0x04, 0x04, 0x04, 0x04, 0x04, 0x04, 0x04],
        _ => [0x1F, 0x11, 0x11, 0x11, 0x11, 0x11, 0x1F],
    };
    proof {
        assert(rows@ =~= glyph_table(u));
    }
    rows
}

/// 5x7 glyph rows for `c` (accents folded, upper-cased).
fn glyph(c: char) -> (rows: [u8; 7])
    ensures
        rows@ == glyph_rows(c),
{
    glyph_of_upper(to_ascii_upper(fold_accent_char(c)))
}

/// The scale actually used: at least one pixel per font cell.
pub open spec fn pen_scale(scale: i32) -> int {
    if scale < 1 {
        1
    } else {
        scale as int
    }
}

/// Cell `col` (0 = leftmost) of a glyph row is lit.
pub open spec fn cell_on(bits: u8, col: int) -> bool {
    bits & (1u8 << ((4 - col) as u8)) != 0
}

/// The buffer after drawing the first `n` cells (row-major, 5 per row) of a
/// glyph whose top-left corner is `(x, y)`, each lit cell an `s x s` square.
pub open spec fn glyph_cells(
    b: Seq<u32>,
    w: u32,
    h: u32,
    x: int,
    y: int,
    rows: Seq<u8>,
    color: u32,
    s: int,
    n: nat,
) -> Seq<u32>
    decreases n,
{
    if n == 0 {
        b
    } else {
        let k = n - 1;
        let prev = glyph_cells(b, w, h, x, y, rows, color, s, (n - 1) as nat);
        let row = k / 5;
        let col = k % 5;
        if cell_on(rows[row], col) {
            filled(prev, w, h, x + col * s, y + row * s, x + col * s + s, y + row * s + s, color)
        } else {
            prev
        }
    }
}

/// The buffer after drawing character `c` at `(x, y)` with cell size `s`.
pub open spec fn char_drawn(
    b: Seq<u32>,
    w: u32,
    h: u32,
    x: int,
    y: int,
    c: char,
    color: u32,
    s: int,
) -> Seq<u32> {
    glyph_cells(b, w, h, x, y, glyph_rows(c), color, s, 35)
}

/// A glyph at `(x, y)` with cell size `s` has all its coordinates in `i32`.
pub open spec fn pen_ok(x: int, y: int, s: int) -> bool {
    &&& 1 <= s
    &&& 6 * s <= i32::MAX
    &&& x + 6 * s <= i32::MAX
    &&& y + 7 * s <= i32::MAX
    &&& i32::MIN <= x
    &&& i32::MIN <= y
}

fn draw_char(
    buf: &mut [u32],
    out_w: u32,
    out_h: u32,
    x: i32,
    y: i32,
    c: char,
    color: u32,
    scale: i32,
)
    requires
        surface_ok(old(buf)@.len() as int, out_w, out_h),
        pen_ok(x as int, y as int, pen_scale(scale)),
    ensures
        final(buf)@.len() == old(buf)@.len(),
        final(buf)@ == char_drawn(
            old(buf)@,
            out_w,
            out_h,
            x as int,
            y as int,
            c,
            color,
            pen_scale(scale),
        ),
{
    let rows = glyph(c);
    let s: i32 = if scale < 1 {
        1
    } else {
        scale
    };
    let ghost b0 = buf@;
    let mut k: u32 = 0;
    while k < 35
        invariant
            k <= 35,
            s == pen_scale(scale),
            rows@ == glyph_rows(c),
            rows@.len() == 7,
            buf@.len() == b0.len(),
            surface_ok(b0.len() as int, out_w, out_h),
            pen_ok(x as int, y as int, s as int),
            buf@ == glyph_cells(b0, out_w, out_h, x as int, y as int, rows@, color, s as int, k as nat),
        decreases 35 - k,
    {
        let row: u32 = k / 5;
        let col: u32 = k % 5;
        let bits: u8 = rows[row as usize];
        let shift: u8 = 4 - col as u8;
        if bits & (1u8 << shift) != 0 {
            proof {
                assert(col * s <= 4 * s) by (nonlinear_arith)
                    requires
                        col <= 4,
                        s >= 1,
                ;
                assert(row * s <= 6 * s) by (nonlinear_arith)
                    requires
                        row <= 6,
                        s >= 1,
                ;
                assert(col * s >= 0 && row * s >= 0) by (nonlinear_arith)
                    requires
                        s >= 1,
                ;
            }
            let cx: i32 = col as i32 * s;
            let cy: i32 = row as i32 * s;
            proof {
                lemma_surface_fits(
                    b0.len() as int,
                    out_w,
                    out_h,
                    x + cx,
                    y + cy,
                    x + cx + s,
                    y + cy + s,
                );
            }
            fill_rect(buf, out_w, out_h, x + cx, y + cy, x + cx + s, y + cy + s, color);
        }
        k += 1;
    }
}

/// The buffer after drawing `cs` on one line from pen position `x`: newlines
/// are skipped, the pen advances `6 s` after each glyph, and drawing stops as
/// soon as the pen has passed `w - 8`.
pub open spec fn line_drawn(
    b: Seq<u32>,
    w: u32,
    h: u32,
    x: int,
    y: int,
    cs: Seq<char>,
    color: u32,
    s: int,
) -> Seq<u32>
    decreases cs.len(),
{
    if cs.len() == 0 {
        b
    } else if cs[0] == '\n' {
        line_drawn(b, w, h, x, y, cs.drop_first(), color, s)
    } else {
        let b2 = char_drawn(b, w, h, x, y, cs[0], color, s);
        if x + 6 * s > w - 8 {
            b2
        } else {
            line_drawn(b2, w, h, x + 6 * s, y, cs.drop_first(), color, s)
        }
    }
}

/// A line drawn from `(x, y)` keeps every pen position in `i32`: the pen
/// never goes past the larger of `x` and `w - 8` before its last advance.
pub open spec fn line_ok(x: int, y: int, w: u32, s: int) -> bool {
    pen_ok(x, y, s) && pen_ok(w - 8, y, s)
}

fn draw_line_chars(
    buf: &mut [u32],
    out_w: u32,
    out_h: u32,
    x: i32,
    y: i32,
    cs: &[char],
    color: u32,
    scale: i32,
)
    requires
        surface_ok(old(buf)@.len() as int, out_w, out_h),
        line_ok(x as int, y as int, out_w, pen_scale(scale)),
    ensures
        final(buf)@.len() == old(buf)@.len(),
        final(buf)@ == line_drawn(
            old(buf)@,
            out_w,
            out_h,
            x as int,
            y as int,
            cs@,
            color,
            pen_scale(scale),
        ),
{
    let s: i32 = if scale < 1 {
        1
    } else {
        scale
    };
    let advance: i32 = 6 * s;
    let ghost b0 = buf@;
    let ghost x0 = x as int;
    let mut px: i32 = x;
    let mut i: usize = 0;
    let mut done = false;
    assert(cs@.skip(0) =~= cs@);
    while i < cs.len() && !done
        invariant
            0 <= i <= cs@.len(),
            s == pen_scale(scale),
            advance == 6 * s,
            buf@.len() == b0.len(),
            surface_ok(b0.len() as int, out_w, out_h),
            pen_ok(out_w - 8, y as int, s as int),
            !done ==> pen_ok(px as int, y as int, s as int),
            line_drawn(b0, out_w, out_h, x0, y as int, cs@, color, s as int) == if done {
                buf@
            } else {
                line_drawn(buf@, out_w, out_h, px as int, y as int, cs@.skip(i as int), color, s as int)
            },
        decreases cs@.len() - i,
    {
        let ch = cs[i];
        assert(cs@.skip(i as int)[0] == ch);
        assert(cs@.skip(i as int).drop_first() =~= cs@.skip(i + 1));
        if ch != '\n' {
            draw_char(buf, out_w, out_h, px, y, ch, color, scale);
            px = px + advance;
            if px > out_w as i32 - 8 {
                done = true;
            }
        }
        i += 1;
    }
    if !done {
        assert(cs@.skip(i as int).len() == 0);
    }
}

/// Draw a single line of text (no wrap).
pub fn draw_text_line(
    buf: &mut [u32],
    out_w: u32,
    out_h: u32,
    x: i32,
    y: i32,
    text: &str,
    color: u32,
    scale: i32,
)
    requires
        surface_ok(old(buf)@.len() as int, out_w, out_h),
        line_ok(x as int, y as int, out_w, pen_scale(scale)),
    ensures
        final(buf)@ == line_drawn(
            old(buf)@,
            out_w,
            out_h,
            x as int,
            y as int,
            text@,
            color,
            pen_scale(scale),
        ),
{
    let cs = chars_of(text);
    draw_line_chars(buf, out_w, out_h, x, y, cs.as_slice(), color, scale);
}

/// Total number of characters in `ws`.
pub open spec fn total_len(ws: Seq<Seq<char>>) -> nat
    decreases ws.len(),
{
    if ws.len() == 0 {
        0
    } else {
        ws[0].len() + total_len(ws.drop_first())
    }
}

proof fn lemma_total_push(ws: Seq<Seq<char>>, w: Seq<char>)
    ensures
        total_len(ws.push(w)) == total_len(ws) + w.len(),
    decreases ws.len(),
{
    if ws.len() > 0 {
        assert(ws.push(w).drop_first() =~= ws.drop_first().push(w));
        lemma_total_push(ws.drop_first(), w);
        assert(ws.push(w)[0] == ws[0]);
    } else {
        assert(ws.push(w).drop_first() =~= Seq::<Seq<char>>::empty());
        assert(total_len(ws.push(w).drop_first()) == 0);
    }
}

proof fn lemma_split_total(s: Seq<char>, cur: Seq<char>, acc: Seq<Seq<char>>)
    ensures
        total_len(split_ws_from(s, cur, acc)) <= total_len(acc) + cur.len() + s.len(),
    decreases s.len(),
{
    if s.len() == 0 {
        if cur.len() > 0 {
            lemma_total_push(acc, cur);
        }
    } else if is_ws(s[0]) {
        if cur.len() > 0 {
            lemma_total_push(acc, cur);
            lemma_split_total(s.drop_first(), seq![], acc.push(cur));
        } else {
            lemma_split_total(s.drop_first(), seq![], acc);
        }
    } else {
        lemma_split_total(s.drop_first(), cur.push(s[0]), acc);
    }
}

/// The words of a text hold no more characters than the text.
proof fn lemma_words_total(s: Seq<char>)
    ensures
        total_len(words(s)) <= s.len(),
{
    lemma_split_total(s, seq![], seq![]);
}

/// Characters per wrapped line for a box `max_w` pixels wide: as many
/// `6 s`-pixel advances as fit, and never fewer than four.
pub open spec fn wrap_width(max_w: i32, s: int) -> int {
    if max_w < 0 {
        4
    } else if (max_w as int) / (6 * s) < 4 {
        4
    } else {
        (max_w as int) / (6 * s)
    }
}

/// Drawing the leading `mc`-character pieces of a word too long for a line,
/// one line each: the buffer, pen row and left-over piece afterwards.
pub open spec fn chunks_out(
    b: Seq<u32>,
    w: u32,
    h: u32,
    x0: int,
    color: u32,
    s: int,
    y: int,
    rest: Seq<char>,
    mc: int,
) -> (Seq<u32>, int, Seq<char>)
    decreases rest.len(),
{
    if mc > 0 && rest.len() > mc {
        chunks_out(
            line_drawn(b, w, h, x0, y, rest.take(mc), color, s),
            w,
            h,
            x0,
            color,
            s,
            y + 9 * s,
            rest.skip(mc),
            mc,
        )
    } else {
        (b, y, rest)
    }
}

/// One word of wrapping: it joins the pending line when the result has at
/// most `mc` characters; otherwise the pending line is drawn and the word
/// starts the next one, split into `mc`-character pieces while too long.
pub open spec fn word_out(
    b: Seq<u32>,
    w: u32,
    h: u32,
    x0: int,
    color: u32,
    s: int,
    y: int,
    line: Seq<char>,
    word: Seq<char>,
    mc: int,
) -> (Seq<u32>, int, Seq<char>) {
    let trial = if line.len() == 0 {
        word
    } else {
        line + seq![' '] + word
    };
    if trial.len() > mc {
        if line.len() > 0 {
            chunks_out(
                line_drawn(b, w, h, x0, y, line, color, s),
                w,
                h,
                x0,
                color,
                s,
                y + 9 * s,
                word,
                mc,
            )
        } else {
            chunks_out(b, w, h, x0, color, s, y, word, mc)
        }
    } else {
        (b, y, trial)
    }
}

/// The pending line, if any, drawn at row `y`.
pub open spec fn flush_line(
    b: Seq<u32>,
    w: u32,
    h: u32,
    x0: int,
    color: u32,
    s: int,
    y: int,
    line: Seq<char>,
) -> Seq<u32> {
    if line.len() > 0 {
        line_drawn(b, w, h, x0, y, line, color, s)
    } else {
        b
    }
}

/// The buffer after wrapping the words `ws` from pen row `y` with pending
/// line `line`: words are taken in order until the pen row passes `h - 16`
/// after a word, and the pending line is drawn last.
pub open spec fn wrap_out(
    b: Seq<u32>,
    w: u32,
    h: u32,
    x0: int,
    color: u32,
    s: int,
    ws: Seq<Seq<char>>,
    y: int,
    line: Seq<char>,
    mc: int,
) -> Seq<u32>
    decreases ws.len(),
{
    if ws.len() == 0 {
        flush_line(b, w, h, x0, color, s, y, line)
    } else {
        let r = word_out(b, w, h, x0, color, s, y, line, ws[0], mc);
        if r.1 > h - 16 {
            flush_line(r.0, w, h, x0, color, s, r.1, r.2)
        } else {
            wrap_out(r.0, w, h, x0, color, s, ws.drop_first(), r.1, r.2, mc)
        }
    }
}

/// Pen row and left-over piece after the `mc`-character pieces of a word
/// too long for a line are drawn, one row each (see [`chunks_out`]).
pub open spec fn chunks_pos(s: int, y: int, rest: Seq<char>, mc: int) -> (int, Seq<char>)
    decreases rest.len(),
{
    if mc > 0 && rest.len() > mc {
        chunks_pos(s, y + 9 * s, rest.skip(mc), mc)
    } else {
        (y, rest)
    }
}

/// Every row on which a piece of a too-long word is drawn can move on by
/// one line without leaving `i32`.
pub open spec fn chunks_fit(s: int, y: int, rest: Seq<char>, mc: int) -> bool
    decreases rest.len(),
{
    if mc > 0 && rest.len() > mc {
        y + 9 * s <= i32::MAX && chunks_fit(s, y + 9 * s, rest.skip(mc), mc)
    } else {
        true
    }
}

/// Pen row and pending line after one word of wrapping (see [`word_out`]).
pub open spec fn word_pos(s: int, y: int, line: Seq<char>, word: Seq<char>, mc: int) -> (
    int,
    Seq<char>,
) {
    let trial = if line.len() == 0 {
        word
    } else {
        line + seq![' '] + word
    };
    if trial.len() > mc {
        if line.len() > 0 {
            chunks_pos(s, y + 9 * s, word, mc)
        } else {
            chunks_pos(s, y, word, mc)
        }
    } else {
        (y, trial)
    }
}

/// The rows one word of wrapping moves through stay in `i32`.
pub open spec fn word_fits(s: int, y: int, line: Seq<char>, word: Seq<char>, mc: int) -> bool {
    let trial = if line.len() == 0 {
        word
    } else {
        line + seq![' '] + word
    };
    if trial.len() > mc {
        if line.len() > 0 {
            y + 9 * s <= i32::MAX && chunks_fit(s, y + 9 * s, word, mc)
        } else {
            chunks_fit(s, y, word, mc)
        }
    } else {
        true
    }
}

/// Every pen row that wrapping the words `ws` reaches stays in `i32`: each
/// row it moves on from has room for a line below, and the row of the last
/// pending line has room for a glyph (words stop once a row passes
/// `h - 16`, as in [`wrap_out`]).
pub open spec fn wrap_fits(h: u32, s: int, ws: Seq<Seq<char>>, y: int, line: Seq<char>, mc: int) -> bool
    decreases ws.len(),
{
    if ws.len() == 0 {
        line.len() > 0 ==> y + 7 * s <= i32::MAX
    } else {
        let p = word_pos(s, y, line, ws[0], mc);
        word_fits(s, y, line, ws[0], mc) && if p.0 > h - 16 {
            p.1.len() > 0 ==> p.0 + 7 * s <= i32::MAX
        } else {
            wrap_fits(h, s, ws.drop_first(), p.0, p.1, mc)
        }
    }
}

/// Column positions of wrapped text stay in `i32`: a line advance, the
/// first glyph at `x0`, and a glyph after the right edge check.
pub open spec fn wrap_ok(x0: int, w: u32, s: int) -> bool {
    &&& 9 * s <= i32::MAX
    &&& x0 + 6 * s <= i32::MAX
    &&& w - 8 + 6 * s <= i32::MAX
}

/// The pen row and left-over piece of [`chunks_out`] are [`chunks_pos`].
proof fn lemma_chunks_pos(
    b: Seq<u32>,
    w: u32,
    h: u32,
    x0: int,
    color: u32,
    s: int,
    y: int,
    rest: Seq<char>,
    mc: int,
)
    ensures
        chunks_out(b, w, h, x0, color, s, y, rest, mc).1 == chunks_pos(s, y, rest, mc).0,
        chunks_out(b, w, h, x0, color, s, y, rest, mc).2 == chunks_pos(s, y, rest, mc).1,
    decreases rest.len(),
{
    if mc > 0 && rest.len() > mc {
        lemma_chunks_pos(
            line_drawn(b, w, h, x0, y, rest.take(mc), color, s),
            w,
            h,
            x0,
            color,
            s,
            y + 9 * s,
            rest.skip(mc),
            mc,
        );
    }
}

/// The pen row and pending line of [`word_out`] are [`word_pos`].
proof fn lemma_word_pos(
    b: Seq<u32>,
    w: u32,
    h: u32,
    x0: int,
    color: u32,
    s: int,
    y: int,
    line: Seq<char>,
    word: Seq<char>,
    mc: int,
)
    ensures
        word_out(b, w, h, x0, color, s, y, line, word, mc).1 == word_pos(s, y, line, word, mc).0,
        word_out(b, w, h, x0, color, s, y, line, word, mc).2 == word_pos(s, y, line, word, mc).1,
{
    lemma_chunks_pos(line_drawn(b, w, h, x0, y, line, color, s), w, h, x0, color, s, y + 9 * s, word, mc);
    lemma_chunks_pos(b, w, h, x0, color, s, y, word, mc);
}

/// Characters per wrapped line for a box `max_w` pixels wide and pen scale
/// `scale` (see [`wrap_width`]).
fn wrap_chars(max_w: i32, scale: i32) -> (mc: usize)
    requires
        9 * pen_scale(scale) <= i32::MAX,
    ensures
        mc as int == wrap_width(max_w, pen_scale(scale)),
        mc >= 4,
{
    let s: i32 = if scale < 1 {
        1
    } else {
        scale
    };
    let advance: i32 = 6 * s;
    if max_w < 0 {
        4
    } else {
        let q: u32 = (max_w as u32) / (advance as u32);
        if q < 4 {
            4
        } else {
            q as usize
        }
    }
}

/// Whether every pen row of wrapping `text` from row `y0` stays in `i32`
/// (see [`wrap_fits`]).
pub fn wrap_rows_fit(out_h: u32, y0: i32, max_w: i32, text: &str, scale: i32) -> (r: bool)
    requires
        out_h <= i32::MAX,
        9 * pen_scale(scale) <= i32::MAX,
    ensures
        r == wrap_fits(
            out_h,
            pen_scale(scale),
            words(text@),
            y0 as int,
            seq![],
            wrap_width(max_w, pen_scale(scale)),
        ),
{
    let s: i64 = if scale < 1 {
        1
    } else {
        scale as i64
    };
    let max_chars = wrap_chars(max_w, scale);
    let cs = chars_of(text);
    let ws = split_whitespace(cs.as_slice());
    let ghost wsv = words(text@);
    let ghost si = pen_scale(scale);
    let ghost mc = max_chars as int;
    let ghost goal = wrap_fits(out_h, si, wsv, y0 as int, seq![], mc);
    let limit: i64 = 0x7fff_ffff;
    assert(wsv.skip(0) =~= wsv);
    let mut y: i64 = y0 as i64;
    let mut line: Vec<char> = Vec::new();
    let mut i: usize = 0;
    while i < ws.len()
        invariant
            0 <= i <= ws@.len(),
            ws@.len() == wsv.len(),
            forall|k: int| 0 <= k < ws@.len() ==> #[trigger] ws@[k]@ == wsv[k],
            s == si,
            1 <= si,
            9 * si <= i32::MAX,
            limit == i32::MAX,
            mc == max_chars,
            max_chars >= 4,
            out_h <= i32::MAX,
            i32::MIN <= y <= i32::MAX,
            line@.len() <= max_chars,
            wsv == words(text@),
            si == pen_scale(scale),
            mc == wrap_width(max_w, si),
            goal == wrap_fits(out_h, si, wsv.skip(i as int), y as int, line@, mc),
            goal == wrap_fits(out_h, si, wsv, y0 as int, seq![], mc),
        decreases ws@.len() - i,
    {
        let word: &Vec<char> = &ws[i];
        let ghost wd = wsv[i as int];
        let ghost p = word_pos(si, y as int, line@, wd, mc);
        let ghost fits = word_fits(si, y as int, line@, wd, mc);
        proof {
            assert(word@ == wd);
            assert(wsv.skip(i as int)[0] == wd);
            assert(wsv.skip(i as int).drop_first() =~= wsv.skip(i + 1));
        }
        assert(goal ==> fits);
        let too_long = if line.len() == 0 {
            word.len() > max_chars
        } else {
            word.len() >= max_chars - line.len()
        };
        assert(too_long == ((if line@.len() == 0 {
            wd
        } else {
            line@ + seq![' '] + wd
        }).len() > mc));
        if too_long {
            if line.len() > 0 {
                if y + 9 * s > limit {
                    return false;
                }
                y = y + 9 * s;
            }
            let mut rest: Vec<char> = slice_range(word.as_slice(), 0, word.len());
            assert(rest@ =~= wd);
            while rest.len() > max_chars
                invariant
                    s == si,
                    1 <= si,
                    9 * si <= i32::MAX,
                    limit == i32::MAX,
                    mc == max_chars,
                    max_chars >= 4,
                    i32::MIN <= y <= i32::MAX,
                    p == chunks_pos(si, y as int, rest@, mc),
                    fits == chunks_fit(si, y as int, rest@, mc),
                    goal ==> fits,
                    wsv == words(text@),
                    si == pen_scale(scale),
                    mc == wrap_width(max_w, si),
                    goal == wrap_fits(out_h, si, wsv, y0 as int, seq![], mc),
                decreases rest@.len(),
            {
                if y + 9 * s > limit {
                    return false;
                }
                y = y + 9 * s;
                rest = slice_range(rest.as_slice(), max_chars, rest.len());
            }
            line = rest;
        } else {
            if line.len() > 0 {
                line.push(' ');
            }
            extend_chars(&mut line, word.as_slice());
            assert(line@ == p.1);
        }
        assert(y as int == p.0);
        assert(line@ == p.1);
        if y > out_h as i64 - 16 {
            return line.len() == 0 || y + 7 * s <= limit;
        }
        i += 1;
    }
    assert(wsv.skip(i as int).len() == 0);
    line.len() == 0 || y + 7 * s <= limit
}

/// Draw wrapped text within `max_w` pixels.
pub fn draw_text_wrapped(
    buf: &mut [u32],
    out_w: u32,
    out_h: u32,
    x0: i32,
    y0: i32,
    max_w: i32,
    text: &str,
    color: u32,
    scale: i32,
)
    requires
        surface_ok(old(buf)@.len() as int, out_w, out_h),
        wrap_ok(x0 as int, out_w, pen_scale(scale)),
        wrap_fits(
            out_h,
            pen_scale(scale),
            words(text@),
            y0 as int,
            seq![],
            wrap_width(max_w, pen_scale(scale)),
        ),
    ensures
        final(buf)@ == wrap_out(
            old(buf)@,
            out_w,
            out_h,
            x0 as int,
            color,
            pen_scale(scale),
            words(text@),
            y0 as int,
            seq![],
            wrap_width(max_w, pen_scale(scale)),
        ),
{
    let s: i32 = if scale < 1 {
        1
    } else {
        scale
    };
    let line_h: i32 = 9 * s;
    let max_chars = wrap_chars(max_w, scale);
    let cs = chars_of(text);
    let ws = split_whitespace(cs.as_slice());
    let ghost wsv = words(text@);
    let ghost b0 = buf@;
    let ghost mc = max_chars as int;
    let ghost si = s as int;
    proof {
        assert(wsv.skip(0) =~= wsv);
    }
    let mut y: i32 = y0;
    let mut line: Vec<char> = Vec::new();
    let mut i: usize = 0;
    let mut stop = false;
    while i < ws.len() && !stop
        invariant
            0 <= i <= ws@.len(),
            ws@.len() == wsv.len(),
            forall|k: int| 0 <= k < ws@.len() ==> #[trigger] ws@[k]@ == wsv[k],
            si == s,
            s == pen_scale(scale),
            line_h == 9 * s,
            mc == max_chars,
            mc == wrap_width(max_w, si),
            max_chars >= 4,
            buf@.len() == b0.len(),
            surface_ok(b0.len() as int, out_w, out_h),
            wrap_ok(x0 as int, out_w, si),
            y0 <= y,
            line@.len() <= max_chars,
            !stop ==> wrap_fits(out_h, si, wsv.skip(i as int), y as int, line@, mc),
            stop ==> (line@.len() > 0 ==> y + 7 * si <= i32::MAX),
            wrap_out(b0, out_w, out_h, x0 as int, color, si, wsv, y0 as int, seq![], mc) == if stop {
                flush_line(buf@, out_w, out_h, x0 as int, color, si, y as int, line@)
            } else {
                wrap_out(
                    buf@,
                    out_w,
                    out_h,
                    x0 as int,
                    color,
                    si,
                    wsv.skip(i as int),
                    y as int,
                    line@,
                    mc,
                )
            },
        decreases ws@.len() - i,
    {
        let word: &Vec<char> = &ws[i];
        let ghost wd = wsv[i as int];
        proof {
            assert(word@ == wd);
            assert(wsv.skip(i as int)[0] == wd);
            assert(wsv.skip(i as int).drop_first() =~= wsv.skip(i + 1));
            lemma_word_pos(buf@, out_w, out_h, x0 as int, color, si, y as int, line@, wd, mc);
        }
        let ghost r = word_out(buf@, out_w, out_h, x0 as int, color, si, y as int, line@, wd, mc);
        let ghost fits = word_fits(si, y as int, line@, wd, mc);
        assert(fits);
        let too_long = if line.len() == 0 {
            word.len() > max_chars
        } else {
            word.len() >= max_chars - line.len()
        };
        if too_long {
            if line.len() > 0 {
                draw_line_chars(buf, out_w, out_h, x0, y, line.as_slice(), color, scale);
                y = y + line_h;
            }
            let mut rest: Vec<char> = slice_range(word.as_slice(), 0, word.len());
            assert(rest@ =~= wd);
            while rest.len() > max_chars
                invariant
                    si == s,
                    s == pen_scale(scale),
                    line_h == 9 * s,
                    mc == max_chars,
                    max_chars >= 4,
                    buf@.len() == b0.len(),
                    surface_ok(b0.len() as int, out_w, out_h),
                    wrap_ok(x0 as int, out_w, si),
                    y0 <= y,
                    chunks_fit(si, y as int, rest@, mc),
                    r == chunks_out(buf@, out_w, out_h, x0 as int, color, si, y as int, rest@, mc),
                decreases rest@.len(),
            {
                let take = slice_range(rest.as_slice(), 0, max_chars);
                assert(take@ =~= rest@.take(mc));
                draw_line_chars(buf, out_w, out_h, x0, y, take.as_slice(), color, scale);
                y = y + line_h;
                rest = slice_range(rest.as_slice(), max_chars, rest.len());
            }
            line = rest;
        } else {
            if line.len() > 0 {
                line.push(' ');
            }
            extend_chars(&mut line, word.as_slice());
        }
        assert(buf@ == r.0);
        assert(y as int == r.1);
        assert(line@ == r.2);
        if y > out_h as i32 - 16 {
            stop = true;
        }
        i += 1;
    }
    if !stop {
        assert(wsv.skip(i as int).len() == 0);
    }
    if line.len() > 0 {
        draw_line_chars(buf, out_w, out_h, x0, y, line.as_slice(), color, scale);
    }
}

/// Filling the same rectangle twice with one color leaves what one fill
/// leaves.
pub proof fn lemma_fill_idempotent(
    b: Seq<u32>,
    w: u32,
    h: u32,
    x0: int,
    y0: int,
    x1: int,
    y1: int,
    color: u32,
)
    ensures
        filled(filled(b, w, h, x0, y0, x1, y1, color), w, h, x0, y0, x1, y1, color) == filled(
            b,
            w,
            h,
            x0,
            y0,
            x1,
            y1,
            color,
        ),
{
    assert(filled(filled(b, w, h, x0, y0, x1, y1, color), w, h, x0, y0, x1, y1, color) =~= filled(
        b,
        w,
        h,
        x0,
        y0,
        x1,
        y1,
        color,
    ));
}

} // verus!
