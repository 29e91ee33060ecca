//! Style sheet source text: comment stripping that respects quoted strings,
//! `@import` paths, top-level commas of values, time suffixes and `#` ids.

use vstd::prelude::*;

use crate::strings::{chars_of, occurs_at, slice_range, trim, trim_chars};
use crate::tags::{find_char, first_char, lemma_first_char};

verus! {

/// Where the comment scanner is.
#[derive(Debug, Clone, Copy, PartialEq, Eq, Structural)]
pub enum ScanMode {
    /// Ordinary text.
    Code,
    /// Inside a string opened by the quote character.
    Quote(char),
    /// Right after a backslash inside a string.
    Escape(char),
    /// Inside a block comment; whether the previous comment character was
    /// `*`.
    Comment(bool),
    /// Inside a line comment.
    Line,
}

/// The text from `s` on, read in mode `m`: comments become a space (the
/// newlines inside them are kept), strings are copied as they are.
pub open spec fn stripped_from(s: Seq<char>, m: ScanMode) -> Seq<char>
    decreases s.len(),
{
    if s.len() == 0 {
        s
    } else {
        let c = s[0];
        let r = s.drop_first();
        match m {
            ScanMode::Code => if c == '"' || c == '\'' {
                seq![c] + stripped_from(r, ScanMode::Quote(c))
            } else if c != '/' {
                seq![c] + stripped_from(r, ScanMode::Code)
            } else if r.len() > 0 && r[0] == '*' {
                seq![' '] + stripped_from(r.drop_first(), ScanMode::Comment(false))
            } else if r.len() > 0 && r[0] == '/' {
                seq![' '] + stripped_from(r.drop_first(), ScanMode::Line)
            } else {
                seq!['/'] + stripped_from(r, ScanMode::Code)
            },
            ScanMode::Quote(q) => if c == '\\' {
                seq![c] + stripped_from(r, ScanMode::Escape(q))
            } else if c == q {
                seq![c] + stripped_from(r, ScanMode::Code)
            } else {
                seq![c] + stripped_from(r, ScanMode::Quote(q))
            },
            ScanMode::Escape(q) => seq![c] + stripped_from(r, ScanMode::Quote(q)),
            ScanMode::Comment(star) => if star && c == '/' {
                stripped_from(r, ScanMode::Code)
            } else if c == '\n' {
                seq!['\n'] + stripped_from(r, ScanMode::Comment(c == '*'))
            } else {
                stripped_from(r, ScanMode::Comment(c == '*'))
            },
            ScanMode::Line => if c == '\n' {
                seq!['\n'] + stripped_from(r, ScanMode::Code)
            } else {
                stripped_from(r, ScanMode::Line)
            },
        }
    }
}

/// Strip `/* … */` and `//` comments, preserving newlines for line numbers.
pub fn strip_comments(source: &str) -> (r: String)
    ensures
        r@ == stripped_from(source@, ScanMode::Code),
{
    let v = chars_of(source);
    let mut out: Vec<char> = Vec::new();
    let mut mode = ScanMode::Code;
    let mut i: usize = 0;
    assert(v@.skip(0) =~= v@);
    while i < v.len()
        invariant
            0 <= i <= v@.len(),
            v@ == source@,
            stripped_from(source@, ScanMode::Code) == out@ + stripped_from(v@.skip(i as int), mode),
        decreases v@.len() - i,
    {
        let ghost s = v@.skip(i as int);
        let ghost o = out@;
        let c = v[i];
        assert(s[0] == c);
        assert(s.drop_first() =~= v@.skip(i + 1));
        let mut step: usize = 1;
        let ghost m0 = mode;
        let ghost mut pre: Seq<char> = Seq::empty();
        match mode {
            ScanMode::Code => {
                if c == '"' || c == '\'' {
                    out.push(c);
                    mode = ScanMode::Quote(c);
                    proof {
                        pre = seq![c];
                    }
                } else if c != '/' {
                    out.push(c);
                    proof {
                        pre = seq![c];
                    }
                } else if i + 1 < v.len() && v[i + 1] == '*' {
                    out.push(' ');
                    mode = ScanMode::Comment(false);
                    step = 2;
                    assert(s.drop_first()[0] == v@[i + 1]);
                    assert(s.drop_first().drop_first() =~= v@.skip(i + 2));
                    proof {
                        pre = seq![' '];
                    }
                } else if i + 1 < v.len() && v[i + 1] == '/' {
                    out.push(' ');
                    mode = ScanMode::Line;
                    step = 2;
                    assert(s.drop_first()[0] == v@[i + 1]);
                    assert(s.drop_first().drop_first() =~= v@.skip(i + 2));
                    proof {
                        pre = seq![' '];
                    }
                } else {
                    out.push('/');
                    if i + 1 < v.len() {
                        assert(s.drop_first()[0] == v@[i + 1]);
                    }
                    proof {
                        pre = seq!['/'];
                    }
                }
            },
            ScanMode::Quote(q) => {
                out.push(c);
                if c == '\\' {
                    mode = ScanMode::Escape(q);
                } else if c == q {
                    mode = ScanMode::Code;
                }
                proof {
                    pre = seq![c];
                }
            },
            ScanMode::Escape(q) => {
                out.push(c);
                mode = ScanMode::Quote(q);
                proof {
                    pre = seq![c];
                }
            },
            ScanMode::Comment(star) => {
                if c == '\n' {
                    out.push('\n');
                    proof {
                        pre = seq!['\n'];
                    }
                }
                if star && c == '/' {
                    mode = ScanMode::Code;
                } else {
                    mode = ScanMode::Comment(c == '*');
                }
            },
            ScanMode::Line => {
                if c == '\n' {
                    out.push('\n');
                    mode = ScanMode::Code;
                    proof {
                        pre = seq!['\n'];
                    }
                }
            },
        }
        assert(out@ =~= o + pre);
        assert(v@.skip(i + 1) == s.drop_first());
        assert(stripped_from(s, m0) == pre + stripped_from(v@.skip(i + step), mode)) by {
            assert(Seq::<char>::empty() + stripped_from(v@.skip(i + step), mode) =~= stripped_from(
                v@.skip(i + step),
                mode,
            ));
        }
        assert(o + (pre + stripped_from(v@.skip(i + step), mode)) =~= out@ + stripped_from(
            v@.skip(i + step),
            mode,
        ));
        i = i + step;
    }
    assert(v@.skip(i as int).len() == 0);
    assert(out@ + Seq::<char>::empty() =~= out@);
    crate::strings::string_of(out.as_slice())
}

/// A `"` or `'` character.
pub open spec fn is_quote_mark(c: char) -> bool {
    c == '"' || c == '\''
}

/// `s` without leading quote marks.
pub open spec fn trim_marks_left(s: Seq<char>) -> Seq<char>
    decreases s.len(),
{
    if s.len() > 0 && is_quote_mark(s[0]) {
        trim_marks_left(s.drop_first())
    } else {
        s
    }
}

/// `s` without trailing quote marks.
pub open spec fn trim_marks_right(s: Seq<char>) -> Seq<char>
    decreases s.len(),
{
    if s.len() > 0 && is_quote_mark(s.last()) {
        trim_marks_right(s.drop_last())
    } else {
        s
    }
}

fn trim_marks(v: &[char]) -> (r: Vec<char>)
    ensures
        r@ == trim_marks_right(trim_marks_left(v@)),
{
    let mut i: usize = 0;
    assert(v@.skip(0) =~= v@);
    while i < v.len() && (v[i] == '"' || v[i] == '\'')
        invariant
            0 <= i <= v.len(),
            trim_marks_left(v@) == trim_marks_left(v@.skip(i as int)),
        decreases v.len() - i,
    {
        assert(v@.skip(i as int).drop_first() =~= v@.skip(i + 1));
        i += 1;
    }
    if i < v.len() {
        assert(v@.skip(i as int)[0] == v@[i as int]);
    }
    assert(v@.skip(i as int) =~= v@.subrange(i as int, v.len() as int));
    let mut e: usize = v.len();
    while e > i && (v[e - 1] == '"' || v[e - 1] == '\'')
        invariant
            i <= e <= v.len(),
            trim_marks_right(trim_marks_left(v@)) == trim_marks_right(
                v@.subrange(i as int, e as int),
            ),
        decreases e,
    {
        assert(v@.subrange(i as int, e as int).drop_last() =~= v@.subrange(i as int, e - 1));
        e -= 1;
    }
    slice_range(v, i, e)
}

/// The text after an opening quote up to the matching one (or the end).
pub open spec fn quoted_part(rest: Seq<char>, q: char) -> Seq<char> {
    let body = rest.drop_first();
    body.take(first_char(body, q) as int)
}

/// The path of an `@import` statement: `@import "p"`, `@import 'p'` or
/// `@import url(p)` (quotes around `p` dropped inside `url(...)`).
pub open spec fn import_path(stmt: Seq<char>) -> Option<Seq<char>> {
    if !occurs_at(stmt, "@import"@, 0) {
        None
    } else {
        let rest = trim(stmt.skip("@import"@.len() as int));
        if rest.len() > 0 && rest[0] == '"' {
            Some(quoted_part(rest, '"'))
        } else if rest.len() > 0 && rest[0] == '\'' {
            Some(quoted_part(rest, '\''))
        } else if occurs_at(rest, "url("@, 0) && rest.len() >= "url("@.len() + 1 && rest.last()
            == ')' {
            Some(
                trim_marks_right(
                    trim_marks_left(trim(rest.subrange("url("@.len() as int, rest.len() - 1))),
                ),
            )
        } else {
            None
        }
    }
}

fn quoted_part_exec(rest: &[char], q: char) -> (r: Vec<char>)
    requires
        rest@.len() > 0,
    ensures
        r@ == quoted_part(rest@, q),
{
    let n = rest.len();
    let body = slice_range(rest, 1, n);
    assert(body@ =~= rest@.drop_first());
    let e = find_char(body.as_slice(), q);
    proof {
        lemma_first_char(body@, q);
    }
    let r = slice_range(body.as_slice(), 0, e);
    assert(r@ =~= body@.take(e as int));
    r
}

/// Path of an `@import` statement (see [`import_path`]).
pub fn extract_import_path(stmt: &str) -> (r: Option<String>)
    ensures
        match r {
            Some(p) => import_path(stmt@) == Some(p@),
            None => import_path(stmt@) is None,
        },
{
    let v = chars_of(stmt);
    let tag = chars_of("@import");
    if !crate::strings::matches_at(v.as_slice(), tag.as_slice(), 0) {
        return None;
    }
    let n = v.len();
    let after = slice_range(v.as_slice(), tag.len(), n);
    assert(after@ =~= stmt@.skip("@import"@.len() as int));
    let rest = trim_chars(after.as_slice());
    if rest.len() > 0 && rest[0] == '"' {
        let p = quoted_part_exec(rest.as_slice(), '"');
        return Some(crate::strings::string_of(p.as_slice()));
    }
    if rest.len() > 0 && rest[0] == '\'' {
        let p = quoted_part_exec(rest.as_slice(), '\'');
        return Some(crate::strings::string_of(p.as_slice()));
    }
    let url = chars_of("url(");
    if crate::strings::matches_at(rest.as_slice(), url.as_slice(), 0) && rest.len() > url.len()
        && rest[rest.len() - 1] == ')' {
        let m = rest.len() - 1;
        let inner = slice_range(rest.as_slice(), url.len(), m);
        let t = trim_chars(inner.as_slice());
        let p = trim_marks(t.as_slice());
        return Some(crate::strings::string_of(p.as_slice()));
    }
    None
}

/// Where the top-level comma scanner is: inside a string (its quote), right
/// after a backslash in a string, and how deep in brackets.
pub open spec fn comma_from(
    s: Seq<char>,
    i: int,
    quote: Option<char>,
    escaped: bool,
    depth: nat,
) -> Option<int>
    decreases s.len() - i,
{
    if i < 0 || i >= s.len() {
        None
    } else {
        let c = s[i];
        if escaped {
            comma_from(s, i + 1, quote, false, depth)
        } else if quote is Some {
            if c == '\\' {
                comma_from(s, i + 1, quote, true, depth)
            } else if Some(c) == quote {
                comma_from(s, i + 1, None, false, depth)
            } else {
                comma_from(s, i + 1, quote, false, depth)
            }
        } else if c == '"' || c == '\'' {
            comma_from(s, i + 1, Some(c), false, depth)
        } else if c == '(' || c == '[' || c == '{' {
            comma_from(s, i + 1, None, false, depth + 1)
        } else if c == ')' || c == ']' || c == '}' {
            comma_from(s, i + 1, None, false, if depth > 0 { (depth - 1) as nat } else { 0 })
        } else if c == ',' && depth == 0 {
            Some(i)
        } else {
            comma_from(s, i + 1, None, false, depth)
        }
    }
}

/// The first comma of `s` outside strings and brackets (a closing bracket
/// never takes the depth below zero).
pub open spec fn top_level_comma(s: Seq<char>) -> Option<int> {
    comma_from(s, 0, None, false, 0)
}

/// A found top-level comma lies inside `s` and is a comma.
proof fn lemma_comma_from(s: Seq<char>, i: int, quote: Option<char>, escaped: bool, depth: nat)
    ensures
        comma_from(s, i, quote, escaped, depth) matches Some(k) ==> i <= k < s.len() && s[k]
            == ',',
    decreases s.len() - i,
{
    if 0 <= i < s.len() {
        let c = s[i];
        if escaped {
            lemma_comma_from(s, i + 1, quote, false, depth);
        } else if quote is Some {
            if c == '\\' {
                lemma_comma_from(s, i + 1, quote, true, depth);
            } else if Some(c) == quote {
                lemma_comma_from(s, i + 1, None, false, depth);
            } else {
                lemma_comma_from(s, i + 1, quote, false, depth);
            }
        } else if c == '"' || c == '\'' {
            lemma_comma_from(s, i + 1, Some(c), false, depth);
        } else if c == '(' || c == '[' || c == '{' {
            lemma_comma_from(s, i + 1, None, false, depth + 1);
        } else if c == ')' || c == ']' || c == '}' {
            lemma_comma_from(
                s,
                i + 1,
                None,
                false,
                if depth > 0 { (depth - 1) as nat } else { 0 },
            );
        } else if !(c == ',' && depth == 0) {
            lemma_comma_from(s, i + 1, None, false, depth);
        }
    }
}

/// Splits a value at its first top-level comma: the text before it and,
/// when there is one, the text after it.
pub fn split_top_level_comma(input: &[char]) -> (r: (Vec<char>, Option<Vec<char>>))
    ensures
        match top_level_comma(input@) {
            Some(k) => r.0@ == input@.take(k) && (r.1 matches Some(rest) && rest@ == input@.skip(
                k + 1,
            )),
            None => r.0@ == input@ && r.1 is None,
        },
{
    let mut quote: Option<char> = None;
    let mut escaped = false;
    let mut depth: usize = 0;
    let mut i: usize = 0;
    while i < input.len()
        invariant
            0 <= i <= input.len(),
            depth <= i,
            !(quote is Some) ==> !escaped,
            top_level_comma(input@) == comma_from(input@, i as int, quote, escaped, depth as nat),
        decreases input.len() - i,
    {
        let c = input[i];
        if escaped {
            escaped = false;
        } else if quote.is_some() {
            if c == '\\' {
                escaped = true;
            } else if Some(c) == quote {
                quote = None;
            }
        } else if c == '"' || c == '\'' {
            quote = Some(c);
        } else if c == '(' || c == '[' || c == '{' {
            depth += 1;
        } else if c == ')' || c == ']' || c == '}' {
            if depth > 0 {
                depth -= 1;
            }
        } else if c == ',' && depth == 0 {
            proof {
                lemma_comma_from(input@, 0, None, false, 0);
            }
            let before = slice_range(input, 0, i);
            let after = slice_range(input, i + 1, input.len());
            assert(before@ =~= input@.take(i as int));
            assert(after@ =~= input@.skip(i + 1int));
            return (before, Some(after));
        }
        i += 1;
    }
    assert(input@.subrange(0, input.len() as int) =~= input@);
    (slice_range(input, 0, input.len()), None)
}

/// A time token carries a unit: it ends in `ms` or in `s`.
pub open spec fn has_time_unit(raw: Seq<char>) -> bool {
    raw.len() >= 1 && raw.last() == 's'
}

/// Whether a time token ends in `ms` or `s`.
pub fn has_time_suffix(raw: &[char]) -> (b: bool)
    ensures
        b == has_time_unit(raw@),
        b <==> (occurs_at(raw@, "ms"@, raw@.len() - 2) || occurs_at(raw@, "s"@, raw@.len() - 1)),
{
    proof {
        reveal_strlit("ms");
        reveal_strlit("s");
        if raw@.len() >= 1 && raw@.last() == 's' {
            assert(raw@.subrange(raw@.len() - 1, raw@.len() as int) =~= "s"@);
        }
        if occurs_at(raw@, "ms"@, raw@.len() - 2) {
            assert(raw@.subrange(raw@.len() - 2, raw@.len() as int)[1] == raw@.last());
        }
        if occurs_at(raw@, "s"@, raw@.len() - 1) {
            assert(raw@.subrange(raw@.len() - 1, raw@.len() as int)[0] == raw@.last());
        }
    }
    raw.len() >= 1 && raw[raw.len() - 1] == 's'
}

/// `s` without its leading `#` characters.
pub open spec fn drop_hashes(s: Seq<char>) -> Seq<char>
    decreases s.len(),
{
    if s.len() > 0 && s[0] == '#' {
        drop_hashes(s.drop_first())
    } else {
        s
    }
}

/// An element id as written in scripts: trimmed, leading `#`s dropped.
pub fn strip_hash(s: &str) -> (r: String)
    ensures
        r@ == drop_hashes(trim(s@)),
{
    let t = trim_chars(chars_of(s).as_slice());
    let mut i: usize = 0;
    assert(t@.skip(0) =~= t@);
    while i < t.len() && t[i] == '#'
        invariant
            0 <= i <= t.len(),
            drop_hashes(t@) == drop_hashes(t@.skip(i as int)),
        decreases t.len() - i,
    {
        assert(t@.skip(i as int).drop_first() =~= t@.skip(i + 1));
        i += 1;
    }
    if i < t.len() {
        assert(t@.skip(i as int)[0] == t@[i as int]);
    }
    assert(t@.skip(i as int) =~= t@.subrange(i as int, t.len() as int));
    crate::strings::string_of(slice_range(t.as_slice(), i, t.len()).as_slice())
}

} // verus!
