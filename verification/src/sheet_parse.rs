//! The block structure of a style sheet (`.vcss`): `@import` lines, rule
//! blocks with their selectors and `name: value` declarations, the bodies
//! of `@svg` and `@keyframes` blocks, and `@script` blocks parsed and
//! merged, with the line of each error. Values and keyframe bodies are kept
//! as text.

use vstd::prelude::*;

use indexmap::IndexMap;

use crate::po::{inserted, new_table, table_entries, table_insert, table_len};
use crate::strings::{
    ascii_lower, chars_of, is_ws, occurs_at, push_str, slice_range, string_of, to_ascii_lower,
    trim, trim_chars, trim_left,
};
use crate::script_parse::{
    empty_module, err_v, lemma_encode_len, merge_module, merged, module_view, parse_script, script_of,
    ModuleSpec, ScriptModule,
};
use crate::style_check::{check_report, SheetCounts, StyleCheckReport, StyleParseError};
use vstd::utf8::encode_utf8;
use crate::style_text::{
    extract_import_path, import_path, strip_comments, stripped_from, ScanMode,
};
use crate::strings::{decimal, strs_view};
use crate::tags::{find_char, first_char, lemma_first_char};

verus! {

/// Number of newlines in `s`.
pub open spec fn newlines(s: Seq<char>) -> nat
    decreases s.len(),
{
    if s.len() == 0 {
        0
    } else {
        newlines(s.drop_last()) + if s.last() == '\n' {
            1nat
        } else {
            0nat
        }
    }
}

/// `s` with ASCII letters lower-cased (`str::to_ascii_lowercase`).
pub open spec fn lower_ascii(s: Seq<char>) -> Seq<char> {
    Seq::new(s.len(), |k: int| ascii_lower(s[k]))
}

/// A property name as stored: custom properties (`--x`) as written, other
/// names lower-cased.
pub open spec fn prop_name(name: Seq<char>) -> Seq<char> {
    if occurs_at(name, "--"@, 0) {
        name
    } else {
        lower_ascii(name)
    }
}

/// One `name: value` part starting on line `base_line` added to the
/// declarations `m`: the line of the part is that of its first non-blank
/// character; a blank part adds nothing; the value is the text after the
/// first `:`, as written.
pub open spec fn part_into(raw: Seq<char>, base_line: int, m: Seq<(Seq<char>, Seq<char>)>) -> Result<
    Seq<(Seq<char>, Seq<char>)>,
    (int, Seq<char>),
> {
    let lead = raw.take(raw.len() - trim_left(raw).len());
    let line = base_line + newlines(lead);
    let part = trim(raw);
    if part.len() == 0 {
        Ok(m)
    } else if first_char(part, ':') >= part.len() {
        Err((line, "expected `property: value` in `"@ + part + "`"@))
    } else {
        let name = prop_name(trim(part.take(first_char(part, ':') as int)));
        if name.len() == 0 {
            Err((line, "empty property name"@))
        } else {
            Ok(inserted(m, name, part.skip(first_char(part, ':') + 1int)))
        }
    }
}

/// Reading declarations from character `i` on line `line`; the current part
/// starts at `start` on line `part_line`. Parts end at `;` outside strings
/// and brackets.
pub open spec fn decls_from(
    b: Seq<char>,
    i: int,
    line: int,
    start: int,
    part_line: int,
    quote: Option<char>,
    escaped: bool,
    nest: nat,
    m: Seq<(Seq<char>, Seq<char>)>,
) -> Result<Seq<(Seq<char>, Seq<char>)>, (int, Seq<char>)>
    decreases b.len() - i,
{
    if i < 0 || i >= b.len() || start < 0 || start > i {
        part_into(b.subrange(start, b.len() as int), part_line, m)
    } else {
        let c = b[i];
        let l = line + if c == '\n' {
            1int
        } else {
            0int
        };
        if escaped {
            decls_from(b, i + 1, l, start, part_line, quote, false, nest, m)
        } else if quote is Some {
            if c == '\\' {
                decls_from(b, i + 1, l, start, part_line, quote, true, nest, m)
            } else if Some(c) == quote {
                decls_from(b, i + 1, l, start, part_line, None, false, nest, m)
            } else {
                decls_from(b, i + 1, l, start, part_line, quote, false, nest, m)
            }
        } else if c == '"' || c == '\'' {
            decls_from(b, i + 1, l, start, part_line, Some(c), false, nest, m)
        } else if c == '(' || c == '[' || c == '{' {
            decls_from(b, i + 1, l, start, part_line, None, false, nest + 1, m)
        } else if c == ')' || c == ']' || c == '}' {
            decls_from(
                b,
                i + 1,
                l,
                start,
                part_line,
                None,
                false,
                if nest > 0 {
                    (nest - 1) as nat
                } else {
                    0
                },
                m,
            )
        } else if c == ';' && nest == 0 {
            match part_into(b.subrange(start, i), part_line, m) {
                Err(e) => Err(e),
                Ok(m2) => decls_from(b, i + 1, l, i + 1, l, None, false, nest, m2),
            }
        } else {
            decls_from(b, i + 1, l, start, part_line, None, false, nest, m)
        }
    }
}

/// The declarations of a rule body starting on line `base_line`, in first
/// appearance order (a repeated name keeps its place and takes the later
/// value), or the first error.
pub open spec fn declarations(body: Seq<char>, base_line: int) -> Result<
    Seq<(Seq<char>, Seq<char>)>,
    (int, Seq<char>),
> {
    decls_from(body, 0, base_line, 0, base_line, None, false, 0, seq![])
}

/// Newlines in `v[from..to]`.
fn count_newlines(v: &[char], from: usize, to: usize) -> (n: usize)
    requires
        from <= to <= v.len(),
    ensures
        n == newlines(v@.subrange(from as int, to as int)),
        n <= to - from,
{
    let mut n: usize = 0;
    let mut k = from;
    while k < to
        invariant
            from <= k <= to,
            to <= v.len(),
            n == newlines(v@.subrange(from as int, k as int)),
            n <= k - from,
        decreases to - k,
    {
        assert(v@.subrange(from as int, k + 1).drop_last() =~= v@.subrange(from as int, k as int));
        if v[k] == '\n' {
            n += 1;
        }
        k += 1;
    }
    n
}

/// A style error at a line.
fn at_line(line: usize, msg: String) -> (e: StyleParseError)
    ensures
        e == (StyleParseError::AtLine { line, msg }),
{
    StyleParseError::AtLine { line, msg }
}

/// `name` as stored (see [`prop_name`]).
fn prop_name_exec(name: &[char]) -> (r: Vec<char>)
    ensures
        r@ == prop_name(name@),
{
    if name.len() >= 2 && name[0] == '-' && name[1] == '-' {
        proof {
            reveal_strlit("--");
            assert(name@.subrange(0, 2) =~= "--"@);
        }
        return slice_range(name, 0, name.len());
    }
    proof {
        reveal_strlit("--");
        if occurs_at(name@, "--"@, 0) {
            assert(name@.subrange(0, 2)[0] == name@[0]);
            assert(name@.subrange(0, 2)[1] == name@[1]);
        }
    }
    let mut r: Vec<char> = Vec::new();
    let mut k: usize = 0;
    while k < name.len()
        invariant
            0 <= k <= name.len(),
            r@ == lower_ascii(name@.take(k as int)),
        decreases name.len() - k,
    {
        r.push(to_ascii_lower(name[k]));
        k += 1;
        assert(r@ =~= lower_ascii(name@.take(k as int)));
    }
    assert(name@.take(name.len() as int) =~= name@);
    r
}

/// Adds one `name: value` part to the declarations (see [`part_into`]).
fn declaration_part(raw: &[char], base_line: usize, map: &mut IndexMap<String, String>) -> (r: Result<
    (),
    StyleParseError,
>)
    requires
        base_line + raw@.len() <= usize::MAX,
    ensures
        match part_into(raw@, base_line as int, table_entries(*old(map))) {
            Ok(m) => r is Ok && table_entries(*final(map)) == m,
            Err((l, msg)) => r matches Err(StyleParseError::AtLine { line, msg: m2 }) && line == l
                && m2@ == msg,
        },
{
    let t = trim_chars(raw);
    let mut lead_end: usize = 0;
    assert(raw@.skip(0) =~= raw@);
    while lead_end < raw.len() && crate::strings::is_whitespace(raw[lead_end])
        invariant
            0 <= lead_end <= raw.len(),
            trim_left(raw@) == trim_left(raw@.skip(lead_end as int)),
        decreases raw.len() - lead_end,
    {
        assert(raw@.skip(lead_end as int).drop_first() =~= raw@.skip(lead_end + 1));
        lead_end += 1;
    }
    proof {
        if lead_end < raw.len() {
            assert(raw@.skip(lead_end as int)[0] == raw@[lead_end as int]);
        }
        assert(raw@.skip(0) =~= raw@);
    }
    assert(trim_left(raw@) == raw@.skip(lead_end as int));
    assert(raw@.take(raw@.len() - trim_left(raw@).len()) =~= raw@.subrange(0, lead_end as int));
    let line = base_line + count_newlines(raw, 0, lead_end);
    if t.len() == 0 {
        return Ok(());
    }
    let k = find_char(t.as_slice(), ':');
    proof {
        lemma_first_char(t@, ':');
    }
    if k >= t.len() {
        let mut msg = String::new();
        push_str(&mut msg, "expected `property: value` in `");
        let ts = string_of(t.as_slice());
        push_str(&mut msg, ts.as_str());
        push_str(&mut msg, "`");
        assert(msg@ =~= "expected `property: value` in `"@ + t@ + "`"@);
        return Err(at_line(line, msg));
    }
    let before = slice_range(t.as_slice(), 0, k);
    assert(before@ =~= t@.take(k as int));
    let nt = trim_chars(before.as_slice());
    let name = prop_name_exec(nt.as_slice());
    if name.len() == 0 {
        let mut msg = String::new();
        push_str(&mut msg, "empty property name");
        assert(msg@ =~= "empty property name"@);
        return Err(at_line(line, msg));
    }
    let value = slice_range(t.as_slice(), k + 1, t.len());
    assert(value@ =~= t@.skip(k + 1int));
    table_insert(map, string_of(name.as_slice()), string_of(value.as_slice()));
    Ok(())
}

/// Reads the declarations of a rule body starting on line `base_line` (see
/// [`declarations`]).
pub fn parse_declarations(body: &[char], base_line: usize) -> (r: Result<
    IndexMap<String, String>,
    StyleParseError,
>)
    requires
        base_line + body@.len() <= usize::MAX,
    ensures
        match declarations(body@, base_line as int) {
            Ok(m) => r matches Ok(t) && table_entries(t) == m,
            Err((l, msg)) => r matches Err(StyleParseError::AtLine { line, msg: m2 }) && line == l
                && m2@ == msg,
        },
{
    let mut map = new_table();
    let mut start: usize = 0;
    let mut part_line = base_line;
    let mut line = base_line;
    let mut quote: Option<char> = None;
    let mut escaped = false;
    let mut nest: usize = 0;
    let mut i: usize = 0;
    while i < body.len()
        invariant
            0 <= start <= i <= body.len(),
            nest <= i,
            base_line + body@.len() <= usize::MAX,
            line <= base_line + i,
            part_line <= base_line + start,
            declarations(body@, base_line as int) == decls_from(
                body@,
                i as int,
                line as int,
                start as int,
                part_line as int,
                quote,
                escaped,
                nest as nat,
                table_entries(map),
            ),
        decreases body.len() - i,
    {
        let c = body[i];
        if c == '\n' {
            line += 1;
        }
        if escaped {
            escaped = false;
        } else if quote.is_some() {
            if c == '\\' {
                escaped = true;
            } else if Some(c) == quote {
                quote = None;
            }
        } else if c == '"' || c == '\'' {
            quote = Some(c);
        } else if c == '(' || c == '[' || c == '{' {
            nest += 1;
        } else if c == ')' || c == ']' || c == '}' {
            if nest > 0 {
                nest -= 1;
            }
        } else if c == ';' && nest == 0 {
            let raw = slice_range(body, start, i);
            match declaration_part(raw.as_slice(), part_line, &mut map) {
                Err(e) => {
                    return Err(e);
                },
                Ok(()) => {},
            }
            start = i + 1;
            part_line = line;
        }
        i += 1;
    }
    let raw = slice_range(body, start, body.len());
    match declaration_part(raw.as_slice(), part_line, &mut map) {
        Err(e) => Err(e),
        Ok(()) => Ok(map),
    }
}

/// ASCII whitespace (`u8::is_ascii_whitespace` on the text's bytes).
pub open spec fn ascii_ws(c: char) -> bool {
    c == ' ' || c == '\t' || c == '\n' || c == '\x0C' || c == '\r'
}

/// The first character at or after `i` that is not ASCII whitespace.
pub open spec fn skip_ascii_ws(t: Seq<char>, i: int) -> int
    decreases t.len() - i,
{
    if 0 <= i < t.len() && ascii_ws(t[i]) {
        skip_ascii_ws(t, i + 1)
    } else {
        i
    }
}

/// The first `c` at or after `i`, or `t.len()`.
pub open spec fn find_at(t: Seq<char>, i: int, c: char) -> int
    decreases t.len() - i,
{
    if 0 <= i < t.len() && t[i] != c {
        find_at(t, i + 1, c)
    } else {
        i
    }
}

/// Where the block whose body starts at `i` closes: the index of the `}`
/// that brings the brace depth to zero (braces inside strings do not
/// count), or `t.len()` when the block never closes.
pub open spec fn block_close(t: Seq<char>, i: int, depth: int, quote: Option<char>, escaped: bool) -> int
    decreases t.len() - i,
{
    if i < 0 || i >= t.len() {
        t.len() as int
    } else {
        let c = t[i];
        if escaped {
            block_close(t, i + 1, depth, quote, false)
        } else if quote is Some {
            if c == '\\' {
                block_close(t, i + 1, depth, quote, true)
            } else if Some(c) == quote {
                block_close(t, i + 1, depth, None, false)
            } else {
                block_close(t, i + 1, depth, quote, false)
            }
        } else if c == '"' || c == '\'' {
            block_close(t, i + 1, depth, Some(c), false)
        } else if c == '{' {
            block_close(t, i + 1, depth + 1, None, false)
        } else if c == '}' {
            if depth - 1 <= 0 {
                i
            } else {
                block_close(t, i + 1, depth - 1, None, false)
            }
        } else {
            block_close(t, i + 1, depth, None, false)
        }
    }
}

/// The pieces of `s` between commas.
pub open spec fn comma_pieces(s: Seq<char>) -> Seq<Seq<char>>
    decreases s.len(),
{
    if first_char(s, ',') < s.len() {
        seq![s.take(first_char(s, ',') as int)] + comma_pieces(s.skip(first_char(s, ',') + 1int))
    } else {
        seq![s]
    }
}

/// The trimmed pieces that are not blank.
pub open spec fn nonblank(ps: Seq<Seq<char>>) -> Seq<Seq<char>>
    decreases ps.len(),
{
    if ps.len() == 0 {
        seq![]
    } else {
        (if trim(ps[0]).len() > 0 {
            seq![trim(ps[0])]
        } else {
            seq![]
        }) + nonblank(ps.drop_first())
    }
}

/// The selectors of a rule header: its comma-separated parts, trimmed, blank
/// ones dropped.
pub open spec fn selector_list(s: Seq<char>) -> Seq<Seq<char>> {
    nonblank(comma_pieces(s))
}

/// The first error in the declarations of the stops of a `@keyframes` body,
/// read from character `i` on line `line`: each stop is an offset text, then
/// a `{ … }` block of declarations, read on the line where the block ends.
/// A stop without a block ends the body.
pub open spec fn stops_error(b: Seq<char>, i: int, line: int) -> Option<(int, Seq<char>)>
    decreases b.len() - i,
{
    let j = skip_ascii_ws(b, i);
    if i < 0 || i > b.len() || j < i || j >= b.len() {
        None
    } else {
        let l = line + newlines(b.subrange(i, j));
        let k = find_at(b, j, '{');
        if k >= b.len() || k < j {
            None
        } else {
            let r = block_close(b, k + 1, 1, None, false);
            if r <= k || r > b.len() {
                None
            } else {
                let l2 = l + newlines(b.subrange(j, k)) + newlines(b.subrange(k + 1, r));
                match declarations(trim(b.subrange(k + 1, r)), l2) {
                    Err(e) => Some(e),
                    Ok(_) => if r < b.len() {
                        stops_error(b, r + 1, l2)
                    } else {
                        None
                    },
                }
            }
        }
    }
}

/// A style sheet's structure as plain values.
#[verifier::ext_equal]
pub struct SheetSpec {
    /// Rules: selectors and declarations.
    pub rules: Seq<(Seq<Seq<char>>, Seq<(Seq<char>, Seq<char>)>)>,
    /// `@keyframes` bodies by name.
    pub keyframes: Seq<(Seq<char>, Seq<char>)>,
    /// `@script` bodies in order.
    pub scripts: Seq<Seq<char>>,
    /// `@import` paths in order.
    pub imports: Seq<Seq<char>>,
    /// `@svg` bodies by name.
    pub svgs: Seq<(Seq<char>, Seq<char>)>,
    /// The `@script` blocks parsed and merged in order.
    pub script: ModuleSpec,
}

/// An error reading a sheet: of its structure at a line, or of one of its
/// `@script` blocks (the script's line and message).
pub enum SheetError {
    /// Structure error.
    At(int, Seq<char>),
    /// Script error.
    Script(int, Seq<char>),
}

/// The plain values of a sheet error.
pub open spec fn sheet_err(e: StyleParseError) -> SheetError {
    match e {
        StyleParseError::AtLine { line, msg } => SheetError::At(line as int, msg@),
        StyleParseError::Script(se) => SheetError::Script(err_v(se).0, err_v(se).1),
    }
}

/// The text after `p` if `s` starts with `p`.
pub open spec fn after_prefix(s: Seq<char>, p: Seq<char>) -> Option<Seq<char>> {
    if occurs_at(s, p, 0) {
        Some(s.skip(p.len() as int))
    } else {
        None
    }
}

/// One block with header `sel` (on line `sl`) and body `body` added to the
/// sheet.
pub open spec fn block_into(acc: SheetSpec, sel: Seq<char>, sl: int, body: Seq<char>) -> Result<
    SheetSpec,
    SheetError,
> {
    if sel == "@script"@ || occurs_at(sel, "@script "@, 0) {
        match script_of(encode_utf8(body)) {
            Err(e) => Err(SheetError::Script(e.0, e.1)),
            Ok(m) => Ok(SheetSpec { scripts: acc.scripts.push(body), script: merged(acc.script, m), ..acc }),
        }
    } else if after_prefix(sel, "@svg"@) is Some {
        let name = trim(after_prefix(sel, "@svg"@).unwrap());
        if name.len() == 0 {
            Err(SheetError::At(sl, "@svg needs a name"@))
        } else {
            Ok(SheetSpec { svgs: inserted(acc.svgs, name, body), ..acc })
        }
    } else if after_prefix(sel, "@keyframes"@) is Some {
        let name = trim(after_prefix(sel, "@keyframes"@).unwrap());
        if name.len() == 0 {
            Err(SheetError::At(sl, "@keyframes needs a name"@))
        } else {
            match stops_error(body, 0, sl) {
                Some(e) => Err(SheetError::At(e.0, e.1)),
                None => Ok(SheetSpec { keyframes: inserted(acc.keyframes, name, body), ..acc }),
            }
        }
    } else if selector_list(sel).len() == 0 {
        Err(SheetError::At(sl, "empty selector"@))
    } else {
        match declarations(body, sl) {
            Err(e) => Err(SheetError::At(e.0, e.1)),
            Ok(d) => Ok(SheetSpec { rules: acc.rules.push((selector_list(sel), d)), ..acc }),
        }
    }
}

/// Reading the sheet from character `i` on line `line`.
pub open spec fn sheet_from(t: Seq<char>, i: int, line: int, acc: SheetSpec) -> Result<
    SheetSpec,
    SheetError,
>
    decreases t.len() - i,
{
    let j = skip_ascii_ws(t, i);
    if i < 0 || i > t.len() || j < i || j >= t.len() {
        Ok(acc)
    } else {
        let l = line + newlines(t.subrange(i, j));
        if occurs_at(t, "@import"@, j) {
            let k = find_at(t, j, ';');
            if k >= t.len() || k < j {
                Err(SheetError::At(l, "@import needs trailing `;`"@))
            } else {
                let stmt = trim(t.subrange(j, k));
                match import_path(stmt) {
                    None => Err(SheetError::At(l, "bad @import `"@ + stmt + "`"@)),
                    Some(p) => sheet_from(
                        t,
                        k + 1,
                        l + newlines(t.subrange(j, k)),
                        SheetSpec { imports: acc.imports.push(p), ..acc },
                    ),
                }
            }
        } else {
            let k = find_at(t, j, '{');
            if k >= t.len() || k < j {
                Err(SheetError::At(l, "expected `{{` after selectors"@))
            } else {
                let r = block_close(t, k + 1, 1, None, false);
                if r >= t.len() || r <= k {
                    Err(SheetError::At(l, "unclosed rule block"@))
                } else {
                    match block_into(acc, trim(t.subrange(j, k)), l, trim(t.subrange(k + 1, r))) {
                        Err(e) => Err(e),
                        Ok(acc2) => sheet_from(
                            t,
                            r + 1,
                            l + newlines(t.subrange(j, k)) + newlines(t.subrange(k + 1, r)),
                            acc2,
                        ),
                    }
                }
            }
        }
    }
}

/// The empty sheet.
pub open spec fn empty_sheet() -> SheetSpec {
    SheetSpec {
        rules: seq![],
        keyframes: seq![],
        scripts: seq![],
        imports: seq![],
        svgs: seq![],
        script: ModuleSpec { globals: seq![], functions: seq![], handlers: seq![] },
    }
}

/// The structure of a style sheet's source, comments stripped, or the first
/// error with its line.
pub open spec fn sheet_outline(source: Seq<char>) -> Result<SheetSpec, SheetError> {
    sheet_from(stripped_from(source, ScanMode::Code), 0, 1, empty_sheet())
}

/// The selectors of a rule header (see [`selector_list`]).
pub fn split_selectors(sel: &[char]) -> (r: Vec<String>)
    ensures
        strs_view(r@) == selector_list(sel@),
{
    let mut out: Vec<String> = Vec::new();
    let mut rest: Vec<char> = slice_range(sel, 0, sel.len());
    assert(rest@ =~= sel@);
    let mut done = false;
    while !done
        invariant
            !done ==> selector_list(sel@) == strs_view(out@) + nonblank(comma_pieces(rest@)),
            done ==> selector_list(sel@) == strs_view(out@),
        decreases rest@.len(), if done { 0int } else { 1int },
    {
        let k = find_char(rest.as_slice(), ',');
        proof {
            lemma_first_char(rest@, ',');
        }
        let piece = slice_range(rest.as_slice(), 0, k);
        let tp = trim_chars(piece.as_slice());
        let ghost out0 = strs_view(out@);
        let ghost ps = comma_pieces(rest@);
        assert(piece@ =~= rest@.take(k as int));
        assert(ps[0] == piece@);
        if tp.len() > 0 {
            out.push(string_of(tp.as_slice()));
            assert(strs_view(out@) =~= out0 + seq![tp@]);
        } else {
            assert(strs_view(out@) =~= out0);
        }
        assert(nonblank(ps) == (if trim(ps[0]).len() > 0 {
            seq![trim(ps[0])]
        } else {
            seq![]
        }) + nonblank(ps.drop_first()));
        if k < rest.len() {
            let next = slice_range(rest.as_slice(), k + 1, rest.len());
            assert(next@ =~= rest@.skip(k + 1int));
            assert(ps.drop_first() =~= comma_pieces(next@));
            proof {
                if tp.len() > 0 {
                    assert(strs_view(out@) + nonblank(comma_pieces(next@)) =~= out0 + (seq![tp@]
                        + nonblank(ps.drop_first())));
                } else {
                    assert(strs_view(out@) + nonblank(comma_pieces(next@)) =~= out0 + (
                    Seq::<Seq<char>>::empty() + nonblank(ps.drop_first())));
                }
            }
            rest = next;
        } else {
            assert(ps.drop_first() =~= Seq::<Seq<char>>::empty());
            assert(nonblank(ps.drop_first()) =~= Seq::<Seq<char>>::empty());
            proof {
                if tp.len() > 0 {
                    assert(strs_view(out@) =~= out0 + (seq![tp@] + Seq::<Seq<char>>::empty()));
                } else {
                    assert(strs_view(out@) =~= out0 + (Seq::<Seq<char>>::empty()
                        + Seq::<Seq<char>>::empty()));
                }
            }
            done = true;
        }
    }
    out
}

/// One rule of a sheet: its selectors and its declarations (values as
/// written).
#[derive(Debug)]
pub struct RuleOutline {
    /// Selectors, in order.
    pub selectors: Vec<String>,
    /// Declarations by property name, in first appearance order.
    pub declarations: IndexMap<String, String>,
}

/// A style sheet's structure: rules, `@keyframes` and `@svg` bodies by name,
/// `@script` bodies and `@import` paths in order.
#[derive(Debug)]
pub struct SheetOutline {
    /// Rules in cascade order.
    pub rules: Vec<RuleOutline>,
    /// `@keyframes` bodies by name.
    pub keyframes: IndexMap<String, String>,
    /// `@script` bodies in order.
    pub scripts: Vec<String>,
    /// `@import` paths in order.
    pub imports: Vec<String>,
    /// `@svg` bodies by name.
    pub svgs: IndexMap<String, String>,
    /// The `@script` blocks, parsed and merged.
    pub script: ScriptModule,
}

/// The plain values of a rule list.
pub open spec fn rules_view(rs: Seq<RuleOutline>) -> Seq<(Seq<Seq<char>>, Seq<(Seq<char>, Seq<char>)>)> {
    Seq::new(rs.len(), |k: int| (strs_view(rs[k].selectors@), table_entries(rs[k].declarations)))
}

/// The plain values of a sheet outline.
pub open spec fn outline_view(o: SheetOutline) -> SheetSpec {
    SheetSpec {
        rules: rules_view(o.rules@),
        keyframes: table_entries(o.keyframes),
        scripts: strs_view(o.scripts@),
        imports: strs_view(o.imports@),
        svgs: table_entries(o.svgs),
        script: module_view(o.script),
    }
}

/// Whether `s` starts with `p`.
fn starts_with(s: &[char], p: &str) -> (b: bool)
    ensures
        b == occurs_at(s@, p@, 0),
{
    let pv = chars_of(p);
    if pv.len() > s.len() {
        return false;
    }
    let head = slice_range(s, 0, pv.len());
    crate::strings::chars_eq(head.as_slice(), pv.as_slice())
}

/// A style error with a fixed message.
fn error_text(line: usize, text: &str) -> (e: StyleParseError)
    ensures
        e matches StyleParseError::AtLine { line: l, msg } && l == line && msg@ == text@,
{
    let mut msg = String::new();
    push_str(&mut msg, text);
    assert(msg@ =~= text@);
    at_line(line, msg)
}

/// Adds one block to the sheet (see [`block_into`]).
fn add_block(out: &mut SheetOutline, sel: &[char], sl: usize, body: &[char]) -> (r: Result<
    (),
    StyleParseError,
>)
    requires
        sl + 2 * body@.len() < usize::MAX,
        4 * body@.len() < usize::MAX,
    ensures
        match block_into(outline_view(*old(out)), sel@, sl as int, body@) {
            Ok(o) => r is Ok && outline_view(*final(out)) == o,
            Err(e) => r matches Err(x) && sheet_err(x) == e,
        },
{
    let ghost o0 = outline_view(*out);
    proof {
        reveal_strlit("@script");
        reveal_strlit("@script ");
        reveal_strlit("@svg");
    }
    let is_script = (sel.len() == 7 && starts_with(sel, "@script")) || starts_with(sel, "@script ");
    assert(is_script == (sel@ == "@script"@ || occurs_at(sel@, "@script "@, 0))) by {
        if sel@.len() == 7 && occurs_at(sel@, "@script"@, 0) {
            assert(sel@ =~= sel@.subrange(0, 7));
        }
        if sel@ == "@script"@ {
            assert(sel@.subrange(0, 7) =~= sel@);
        }
    }
    if is_script {
        let text = string_of(body);
        proof {
            lemma_encode_len(body@);
        }
        match parse_script(text.as_str()) {
            Err(e) => {
                return Err(StyleParseError::Script(e));
            },
            Ok(m) => {
                let ghost mv = module_view(m);
                merge_module(&mut out.script, m);
                out.scripts.push(text);
                assert(strs_view(out.scripts@) =~= o0.scripts.push(body@));
                assert(outline_view(*out) =~= (SheetSpec {
                    scripts: o0.scripts.push(body@),
                    script: merged(o0.script, mv),
                    ..o0
                }));
                return Ok(());
            },
        }
    }
    if starts_with(sel, "@svg") {
        let rest = slice_range(sel, 4, sel.len());
        assert(rest@ =~= sel@.skip(4));
        let name = trim_chars(rest.as_slice());
        if name.len() == 0 {
            return Err(error_text(sl, "@svg needs a name"));
        }
        table_insert(&mut out.svgs, string_of(name.as_slice()), string_of(body));
        return Ok(());
    }
    if starts_with(sel, "@keyframes") {
        proof {
            reveal_strlit("@keyframes");
        }
        let rest = slice_range(sel, 10, sel.len());
        assert(rest@ =~= sel@.skip(10));
        let name = trim_chars(rest.as_slice());
        if name.len() == 0 {
            return Err(error_text(sl, "@keyframes needs a name"));
        }
        match check_stops(body, sl) {
            Some(e) => {
                return Err(e);
            },
            None => {},
        }
        table_insert(&mut out.keyframes, string_of(name.as_slice()), string_of(body));
        return Ok(());
    }
    let selectors = split_selectors(sel);
    if selectors.len() == 0 {
        return Err(error_text(sl, "empty selector"));
    }
    match parse_declarations(body, sl) {
        Err(e) => Err(e),
        Ok(d) => {
            let ghost item = (strs_view(selectors@), table_entries(d));
            out.rules.push(RuleOutline { selectors, declarations: d });
            assert(rules_view(out.rules@) =~= o0.rules.push(item));
            Ok(())
        },
    }
}

/// Trimming never makes a text longer.
proof fn lemma_trim_len(s: Seq<char>)
    ensures
        trim(s).len() <= s.len(),
{
    lemma_trim_left_len(s);
    lemma_trim_right_len(trim_left(s));
}

proof fn lemma_trim_left_len(s: Seq<char>)
    ensures
        trim_left(s).len() <= s.len(),
    decreases s.len(),
{
    if s.len() > 0 && is_ws(s[0]) {
        lemma_trim_left_len(s.drop_first());
    }
}

proof fn lemma_trim_right_len(s: Seq<char>)
    ensures
        crate::strings::trim_right(s).len() <= s.len(),
    decreases s.len(),
{
    if s.len() > 0 && is_ws(s.last()) {
        lemma_trim_right_len(s.drop_last());
    }
}

/// Stripping comments never makes a text longer.
proof fn lemma_stripped_len(s: Seq<char>, m: ScanMode)
    ensures
        stripped_from(s, m).len() <= s.len(),
    decreases s.len(),
{
    if s.len() > 0 {
        let r = s.drop_first();
        lemma_stripped_len(r, ScanMode::Code);
        lemma_stripped_len(r, ScanMode::Line);
        lemma_stripped_len(r, ScanMode::Comment(false));
        lemma_stripped_len(r, ScanMode::Comment(true));
        lemma_stripped_len(r, ScanMode::Quote(s[0]));
        match m {
            ScanMode::Quote(q) => {
                lemma_stripped_len(r, ScanMode::Escape(q));
                lemma_stripped_len(r, ScanMode::Quote(q));
            },
            ScanMode::Escape(q) => {
                lemma_stripped_len(r, ScanMode::Quote(q));
            },
            _ => {},
        }
        if r.len() > 0 {
            lemma_stripped_len(r.drop_first(), ScanMode::Comment(false));
            lemma_stripped_len(r.drop_first(), ScanMode::Line);
        }
    }
}

/// The first character at or after `i` that is not ASCII whitespace.
fn skip_ascii_ws_exec(t: &[char], i: usize) -> (j: usize)
    requires
        i <= t@.len(),
    ensures
        j as int == skip_ascii_ws(t@, i as int),
        i <= j <= t@.len(),
{
    let mut j = i;
    while j < t.len() && (t[j] == ' ' || t[j] == '\t' || t[j] == '\n' || t[j] == '\x0C' || t[j]
        == '\r')
        invariant
            i <= j <= t@.len(),
            skip_ascii_ws(t@, j as int) == skip_ascii_ws(t@, i as int),
        decreases t@.len() - j,
    {
        j += 1;
    }
    j
}

/// The first `c` at or after `i`, or `t.len()`.
fn find_at_exec(t: &[char], i: usize, c: char) -> (k: usize)
    requires
        i <= t@.len(),
    ensures
        k as int == find_at(t@, i as int, c),
        i <= k <= t@.len(),
{
    let mut k = i;
    while k < t.len() && t[k] != c
        invariant
            i <= k <= t@.len(),
            find_at(t@, k as int, c) == find_at(t@, i as int, c),
        decreases t@.len() - k,
    {
        k += 1;
    }
    k
}

/// Where the block whose body starts at `i` closes (see [`block_close`]).
fn block_close_exec(t: &[char], i: usize) -> (r: usize)
    requires
        i <= t@.len(),
        t@.len() < usize::MAX,
    ensures
        r as int == block_close(t@, i as int, 1, None, false),
        i <= r <= t@.len(),
{
    let mut k = i;
    let mut depth: usize = 1;
    let mut quote: Option<char> = None;
    let mut escaped = false;
    while k < t.len()
        invariant
            i <= k <= t@.len(),
            t@.len() < usize::MAX,
            1 <= depth <= k - i + 1,
            block_close(t@, k as int, depth as int, quote, escaped) == block_close(
                t@,
                i as int,
                1,
                None,
                false,
            ),
        decreases t@.len() - k,
    {
        let c = t[k];
        if escaped {
            escaped = false;
        } else if quote.is_some() {
            if c == '\\' {
                escaped = true;
            } else if Some(c) == quote {
                quote = None;
            }
        } else if c == '"' || c == '\'' {
            quote = Some(c);
        } else if c == '{' {
            depth += 1;
        } else if c == '}' {
            if depth <= 1 {
                return k;
            }
            depth -= 1;
        }
        k += 1;
    }
    k
}

/// Reads the structure of a style sheet (see [`sheet_outline`]): `@import`
/// paths, rules with selectors and declarations, the bodies of `@svg` and
/// `@keyframes` blocks, and the `@script` blocks (kept as text, and parsed
/// and merged); or the first error: of the structure with its line, or of
/// a script.
pub fn parse_stylesheet(source: &str) -> (r: Result<SheetOutline, StyleParseError>)
    requires
        4 * source@.len() < usize::MAX,
    ensures
        match sheet_outline(source@) {
            Ok(o) => r matches Ok(x) && outline_view(x) == o,
            Err(e) => r matches Err(x) && sheet_err(x) == e,
        },
{
    let stripped = strip_comments(source);
    proof {
        lemma_stripped_len(source@, ScanMode::Code);
    }
    let t = chars_of(stripped.as_str());
    let mut out = SheetOutline {
        rules: Vec::new(),
        keyframes: new_table(),
        scripts: Vec::new(),
        imports: Vec::new(),
        svgs: new_table(),
        script: empty_module(),
    };
    assert(outline_view(out) =~= empty_sheet());
    let mut i: usize = 0;
    let mut line: usize = 1;
    let import_pat = chars_of("@import");
    while i <= t.len()
        invariant
            t@ == stripped_from(source@, ScanMode::Code),
            4 * t@.len() < usize::MAX,
            import_pat@ == "@import"@,
            i <= t@.len() + 1,
            i <= t@.len() ==> line <= i + 1,
            sheet_outline(source@) == if i <= t@.len() {
                sheet_from(t@, i as int, line as int, outline_view(out))
            } else {
                Ok::<SheetSpec, SheetError>(outline_view(out))
            },
        decreases t@.len() + 1 - i,
    {
        let j = skip_ascii_ws_exec(t.as_slice(), i);
        if j >= t.len() {
            return Ok(out);
        }
        let l = line + count_newlines(t.as_slice(), i, j);
        if crate::strings::matches_at(t.as_slice(), import_pat.as_slice(), j) {
            let k = find_at_exec(t.as_slice(), j, ';');
            if k >= t.len() {
                return Err(error_text(l, "@import needs trailing `;`"));
            }
            let raw = slice_range(t.as_slice(), j, k);
            let stmt = trim_chars(raw.as_slice());
            let ss = string_of(stmt.as_slice());
            match extract_import_path(ss.as_str()) {
                None => {
                    let mut msg = String::new();
                    push_str(&mut msg, "bad @import `");
                    push_str(&mut msg, ss.as_str());
                    push_str(&mut msg, "`");
                    assert(msg@ =~= "bad @import `"@ + stmt@ + "`"@);
                    return Err(at_line(l, msg));
                },
                Some(p) => {
                    let ghost o0 = outline_view(out);
                    out.imports.push(p);
                    assert(outline_view(out) =~= SheetSpec { imports: o0.imports.push(p@), ..o0 });
                },
            }
            line = l + count_newlines(t.as_slice(), j, k);
            i = k + 1;
        } else {
            let k = find_at_exec(t.as_slice(), j, '{');
            if k >= t.len() {
                return Err(error_text(l, "expected `{{` after selectors"));
            }
            let r = block_close_exec(t.as_slice(), k + 1);
            if r >= t.len() {
                return Err(error_text(l, "unclosed rule block"));
            }
            let sel_raw = slice_range(t.as_slice(), j, k);
            let sel = trim_chars(sel_raw.as_slice());
            let body_raw = slice_range(t.as_slice(), k + 1, r);
            let body = trim_chars(body_raw.as_slice());
            proof {
                lemma_trim_len(body_raw@);
            }
            match add_block(&mut out, sel.as_slice(), l, body.as_slice()) {
                Err(e) => {
                    return Err(e);
                },
                Ok(()) => {},
            }
            line = l + count_newlines(t.as_slice(), j, k) + count_newlines(t.as_slice(), k + 1, r);
            i = r + 1;
        }
    }
    Ok(out)
}

/// Checks the declarations of the stops of a `@keyframes` body starting on
/// line `base_line` (see [`stops_error`]).
fn check_stops(b: &[char], base_line: usize) -> (r: Option<StyleParseError>)
    requires
        base_line + 2 * b@.len() <= usize::MAX,
        b@.len() < usize::MAX,
    ensures
        match stops_error(b@, 0, base_line as int) {
            None => r is None,
            Some((l, msg)) => r matches Some(StyleParseError::AtLine { line, msg: m2 }) && line == l
                && m2@ == msg,
        },
{
    let mut i: usize = 0;
    let mut line = base_line;
    while i < b.len()
        invariant
            i <= b@.len(),
            b@.len() < usize::MAX,
            base_line + 2 * b@.len() <= usize::MAX,
            line <= base_line + i,
            stops_error(b@, 0, base_line as int) == stops_error(b@, i as int, line as int),
        decreases b@.len() - i,
    {
        let j = skip_ascii_ws_exec(b, i);
        if j >= b.len() {
            return None;
        }
        let l = line + count_newlines(b, i, j);
        let k = find_at_exec(b, j, '{');
        if k >= b.len() {
            return None;
        }
        let r = block_close_exec(b, k + 1);
        let l2 = l + count_newlines(b, j, k) + count_newlines(b, k + 1, r);
        let raw = slice_range(b, k + 1, r);
        let stop_body = trim_chars(raw.as_slice());
        proof {
            lemma_trim_len(raw@);
        }
        match parse_declarations(stop_body.as_slice(), l2) {
            Err(e) => {
                return Some(e);
            },
            Ok(_) => {},
        }
        if r >= b.len() {
            return None;
        }
        i = r + 1;
        line = l2;
    }
    None
}

/// The message of a sheet error.
pub open spec fn sheet_error_text(e: SheetError) -> Seq<char> {
    match e {
        SheetError::At(l, m) => "style parse error at line "@ + decimal(l as nat) + ": "@ + m,
        SheetError::Script(l, m) => if l < 0 {
            "style script error: vcss script runtime: "@ + m
        } else {
            "style script error: vcss script parse at "@ + decimal(l as nat) + ": "@ + m
        },
    }
}

/// Checks a style sheet's source: its counts of rules, keyframe sets,
/// script functions and imports when it parses (see [`sheet_outline`]),
/// zero counts and the error's message when it does not.
pub fn check_stylesheet(source: &str) -> (r: StyleCheckReport)
    requires
        4 * source@.len() < usize::MAX,
    ensures
        match sheet_outline(source@) {
            Ok(o) => r.ok && r.error is None && r.rules == o.rules.len() && r.keyframes
                == o.keyframes.len() && r.functions == o.script.functions.len() && r.imports
                == o.imports.len(),
            Err(e) => !r.ok && r.rules == 0 && r.keyframes == 0 && r.functions == 0 && r.imports == 0
                && (r.error matches Some(m) && m@ == sheet_error_text(e)),
        },
{
    match parse_stylesheet(source) {
        Ok(s) => {
            let c = SheetCounts {
                rules: s.rules.len(),
                keyframes: table_len(&s.keyframes),
                functions: s.script.functions.len(),
                imports: s.imports.len(),
            };
            check_report(Ok(c))
        },
        Err(e) => {
            let ghost ge = e;
            proof {
                match ge {
                    StyleParseError::Script(se) => match se {
                        crate::style_check::ScriptError::Parse { line, msg } => {
                            assert(crate::style_check::script_error_text(se) == "vcss script parse at "@
                                + decimal(line as nat) + ": "@ + msg@);
                        },
                        _ => {},
                    },
                    _ => {},
                }
            }
            let r = check_report(Err(e));
            proof {
                reveal_strlit("style script error: ");
                reveal_strlit("vcss script parse at ");
                reveal_strlit("vcss script runtime: ");
                reveal_strlit("style script error: vcss script parse at ");
                reveal_strlit("style script error: vcss script runtime: ");
                match ge {
                    StyleParseError::Script(se) => match se {
                        crate::style_check::ScriptError::Parse { line, msg } => {
                            assert(r.error->0@ =~= sheet_error_text(sheet_err(ge)));
                        },
                        crate::style_check::ScriptError::Runtime(m) => {
                            assert(r.error->0@ =~= sheet_error_text(sheet_err(ge)));
                        },
                    },
                    _ => {
                        assert(r.error->0@ =~= sheet_error_text(sheet_err(ge)));
                    },
                }
            }
            r
        },
    }
}

} // verus!
