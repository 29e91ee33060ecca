//! Tokens of the style sheet script language (`@script` blocks): names,
//! number literals (kept as written), quoted strings with escapes, and
//! punctuation, with the line each token starts on.

use vstd::prelude::*;

use crate::strings::{push_char, push_str, string_of};
use crate::style_check::ScriptError;
use vstd::string::StringSliceAdditionalSpecFns;

verus! {

/// Punctuation and operators of the script language.
#[derive(Debug, Clone, Copy, PartialEq, Eq, Structural)]
pub enum ScriptPunct {
    /// `(`
    LParen,
    /// `)`
    RParen,
    /// `{`
    LBrace,
    /// `}`
    RBrace,
    /// `[`
    LBracket,
    /// `]`
    RBracket,
    /// `,`
    Comma,
    /// `:`
    Colon,
    /// `;`
    Semi,
    /// `.`
    Dot,
    /// `+`
    Plus,
    /// `-`
    Minus,
    /// `*`
    Star,
    /// `/`
    Slash,
    /// `%`
    Percent,
    /// `=`
    Assign,
    /// `==`
    EqEq,
    /// `!=`
    Ne,
    /// `<`
    Lt,
    /// `<=`
    Le,
    /// `>`
    Gt,
    /// `>=`
    Ge,
    /// `&&`
    AndAnd,
    /// `||`
    OrOr,
    /// `!`
    Bang,
}

/// One script token.
#[derive(Debug, Clone)]
pub enum ScriptToken {
    /// A name or keyword.
    Ident(String),
    /// A number literal as written (digits, an optional fraction; a
    /// trailing `s` unit dropped); the parser reads its value.
    Number(String),
    /// A quoted string, escapes resolved.
    Str(String),
    /// Punctuation or an operator.
    Punct(ScriptPunct),
    /// End of input.
    Eof,
}

/// A token as plain values.
pub enum TokenSpec {
    /// A name or keyword.
    Ident(Seq<char>),
    /// A number literal as written.
    Number(Seq<char>),
    /// A quoted string.
    Str(Seq<char>),
    /// Punctuation or an operator.
    Punct(ScriptPunct),
    /// End of input.
    Eof,
}

/// The plain values of a token.
pub open spec fn token_view(t: ScriptToken) -> TokenSpec {
    match t {
        ScriptToken::Ident(s) => TokenSpec::Ident(s@),
        ScriptToken::Number(s) => TokenSpec::Number(s@),
        ScriptToken::Str(s) => TokenSpec::Str(s@),
        ScriptToken::Punct(p) => TokenSpec::Punct(p),
        ScriptToken::Eof => TokenSpec::Eof,
    }
}

/// ASCII whitespace (`u8::is_ascii_whitespace`).
pub open spec fn ws_b(c: u8) -> bool {
    c == 32 || c == 9 || c == 10 || c == 12 || c == 13
}

/// ASCII digit.
pub open spec fn digit_b(c: u8) -> bool {
    48 <= c <= 57
}

/// ASCII letter.
pub open spec fn alpha_b(c: u8) -> bool {
    (65 <= c <= 90) || (97 <= c <= 122)
}

/// ASCII letter or digit.
pub open spec fn alnum_b(c: u8) -> bool {
    digit_b(c) || alpha_b(c)
}

/// 1 when byte `i` of `s` is a newline, else 0.
pub open spec fn nl(s: Seq<u8>, i: int) -> int {
    if 0 <= i < s.len() && s[i] == 10 {
        1
    } else {
        0
    }
}

/// Skipping whitespace and comments from byte `i` on line `line`: mode 0
/// between tokens, 1 inside a `//` comment, 2 inside a `/* */` comment.
/// Gives the position of the next token and its line. An unterminated block
/// comment runs to the end.
pub open spec fn skip_from(s: Seq<u8>, i: int, line: int, mode: int) -> (int, int)
    decreases s.len() - i, mode,
{
    if i < 0 || i > s.len() || mode < 0 {
        (i, line)
    } else if mode == 1 {
        if i < s.len() && s[i] != 10 {
            skip_from(s, i + 1, line, 1)
        } else {
            skip_from(s, i, line, 0)
        }
    } else if mode == 2 {
        if i + 1 < s.len() && !(s[i] == 42 && s[i + 1] == 47) {
            skip_from(s, i + 1, line + nl(s, i), 2)
        } else {
            let i1 = if i < s.len() {
                i + 1
            } else {
                i
            };
            let l1 = line + nl(s, i);
            let i2 = if i1 < s.len() {
                i1 + 1
            } else {
                i1
            };
            skip_from(s, i2, l1 + nl(s, i1), 0)
        }
    } else if i < s.len() && ws_b(s[i]) {
        skip_from(s, i + 1, line + nl(s, i), 0)
    } else if i + 1 < s.len() && s[i] == 47 && s[i + 1] == 47 {
        skip_from(s, i + 2, line, 1)
    } else if i + 1 < s.len() && s[i] == 47 && s[i + 1] == 42 {
        skip_from(s, i + 2, line, 2)
    } else {
        (i, line)
    }
}

/// The character a backslash escape stands for.
pub open spec fn escape_char(e: u8) -> char {
    if e == 110 {
        '\n'
    } else if e == 116 {
        '\t'
    } else if e == 92 {
        '\\'
    } else if e == 34 {
        '"'
    } else if e == 39 {
        '\''
    } else {
        e as char
    }
}

/// Reading a string body from byte `k` up to the closing `quote`: the end
/// position, the line there, and the characters read (each byte taken as a
/// character, escapes resolved).
pub open spec fn str_from(s: Seq<u8>, k: int, line: int, quote: u8, acc: Seq<char>) -> (
    int,
    int,
    Seq<char>,
)
    decreases s.len() - k,
{
    if k < 0 || k >= s.len() || s[k] == quote {
        (k, line, acc)
    } else if s[k] == 92 && k + 1 < s.len() {
        str_from(s, k + 2, line + nl(s, k) + nl(s, k + 1), quote, acc.push(escape_char(s[k + 1])))
    } else {
        str_from(s, k + 1, line + nl(s, k), quote, acc.push(s[k] as char))
    }
}

/// End of the run of digits from `k`.
pub open spec fn digits_end(s: Seq<u8>, k: int) -> int
    decreases s.len() - k,
{
    if 0 <= k < s.len() && digit_b(s[k]) {
        digits_end(s, k + 1)
    } else {
        k
    }
}

/// End of the run of name characters (letters, digits, `_`) from `k`.
pub open spec fn name_end(s: Seq<u8>, k: int) -> int
    decreases s.len() - k,
{
    if 0 <= k < s.len() && (alnum_b(s[k]) || s[k] == 95) {
        name_end(s, k + 1)
    } else {
        k
    }
}

/// Bytes `[a, b)` of `s` as characters.
pub open spec fn text_of(s: Seq<u8>, a: int, b: int) -> Seq<char> {
    Seq::new((b - a) as nat, |k: int| s[a + k] as char)
}

/// A two-byte operator.
pub open spec fn two_byte_op(c: u8, n: u8) -> Option<ScriptPunct> {
    if c == 61 && n == 61 {
        Some(ScriptPunct::EqEq)
    } else if c == 33 && n == 61 {
        Some(ScriptPunct::Ne)
    } else if c == 60 && n == 61 {
        Some(ScriptPunct::Le)
    } else if c == 62 && n == 61 {
        Some(ScriptPunct::Ge)
    } else if c == 38 && n == 38 {
        Some(ScriptPunct::AndAnd)
    } else if c == 124 && n == 124 {
        Some(ScriptPunct::OrOr)
    } else {
        None
    }
}

/// A one-byte punctuation mark or operator.
pub open spec fn one_byte_op(c: u8) -> Option<ScriptPunct> {
    if c == 40 {
        Some(ScriptPunct::LParen)
    } else if c == 41 {
        Some(ScriptPunct::RParen)
    } else if c == 123 {
        Some(ScriptPunct::LBrace)
    } else if c == 125 {
        Some(ScriptPunct::RBrace)
    } else if c == 91 {
        Some(ScriptPunct::LBracket)
    } else if c == 93 {
        Some(ScriptPunct::RBracket)
    } else if c == 44 {
        Some(ScriptPunct::Comma)
    } else if c == 58 {
        Some(ScriptPunct::Colon)
    } else if c == 59 {
        Some(ScriptPunct::Semi)
    } else if c == 46 {
        Some(ScriptPunct::Dot)
    } else if c == 43 {
        Some(ScriptPunct::Plus)
    } else if c == 45 {
        Some(ScriptPunct::Minus)
    } else if c == 42 {
        Some(ScriptPunct::Star)
    } else if c == 47 {
        Some(ScriptPunct::Slash)
    } else if c == 37 {
        Some(ScriptPunct::Percent)
    } else if c == 61 {
        Some(ScriptPunct::Assign)
    } else if c == 60 {
        Some(ScriptPunct::Lt)
    } else if c == 62 {
        Some(ScriptPunct::Gt)
    } else if c == 33 {
        Some(ScriptPunct::Bang)
    } else {
        None
    }
}

/// The byte at `k`, or 0 past the end.
pub open spec fn peek_at(s: Seq<u8>, k: int) -> u8 {
    if 0 <= k < s.len() {
        s[k]
    } else {
        0
    }
}

/// The next token from byte `i` on line `line`: the token, the line it
/// starts on, and the position and line after it; or the line and message
/// of a lexical error.
pub open spec fn next_token(s: Seq<u8>, i: int, line: int) -> Result<
    (TokenSpec, int, int, int),
    (int, Seq<char>),
> {
    let (j, l) = skip_from(s, i, line, 0);
    if j >= s.len() || j < 0 {
        Ok((TokenSpec::Eof, l, j, l))
    } else {
        let c = s[j];
        if c == 34 || c == 39 {
            let (k, l2, body) = str_from(s, j + 1, l, c, seq![]);
            if k >= s.len() {
                Err((l, "unterminated string"@))
            } else {
                Ok((TokenSpec::Str(body), l, k + 1, l2))
            }
        } else if digit_b(c) || (c == 46 && j + 1 < s.len() && digit_b(s[j + 1])) {
            let k1 = digits_end(s, j);
            let k = if peek_at(s, k1) == 46 {
                digits_end(s, k1 + 1)
            } else {
                k1
            };
            if peek_at(s, k) == 115 && (k + 1 >= s.len() || !alnum_b(s[k + 1])) {
                Ok((TokenSpec::Number(text_of(s, j, k)), l, k + 1, l))
            } else {
                Ok((TokenSpec::Number(text_of(s, j, k)), l, k, l))
            }
        } else if alpha_b(c) || c == 95 || c == 36 {
            let k = name_end(s, j + 1);
            Ok((TokenSpec::Ident(text_of(s, j, k)), l, k, l))
        } else {
            match two_byte_op(c, peek_at(s, j + 1)) {
                Some(p) => Ok((TokenSpec::Punct(p), l, j + 2, l)),
                None => match one_byte_op(c) {
                    Some(p) => Ok((TokenSpec::Punct(p), l, j + 1, l)),
                    None => Err((l, "unexpected character `"@ + seq![c as char] + "`"@)),
                },
            }
        }
    }
}

/// Skipping never moves back nor past the end, and counts at most one line
/// per byte skipped.
pub proof fn lemma_skip_from(s: Seq<u8>, i: int, line: int, mode: int)
    requires
        0 <= i <= s.len(),
        0 <= mode <= 2,
    ensures
        i <= skip_from(s, i, line, mode).0 <= s.len(),
        line <= skip_from(s, i, line, mode).1 <= line + skip_from(s, i, line, mode).0 - i,
    decreases s.len() - i, mode,
{
    if mode == 1 {
        if i < s.len() && s[i] != 10 {
            lemma_skip_from(s, i + 1, line, 1);
        } else {
            lemma_skip_from(s, i, line, 0);
        }
    } else if mode == 2 {
        if i + 1 < s.len() && !(s[i] == 42 && s[i + 1] == 47) {
            lemma_skip_from(s, i + 1, line + nl(s, i), 2);
        } else {
            let i1 = if i < s.len() {
                i + 1
            } else {
                i
            };
            let i2 = if i1 < s.len() {
                i1 + 1
            } else {
                i1
            };
            lemma_skip_from(s, i2, line + nl(s, i) + nl(s, i1), 0);
        }
    } else if i < s.len() && ws_b(s[i]) {
        lemma_skip_from(s, i + 1, line + nl(s, i), 0);
    } else if i + 1 < s.len() && s[i] == 47 && s[i + 1] == 47 {
        lemma_skip_from(s, i + 2, line, 1);
    } else if i + 1 < s.len() && s[i] == 47 && s[i + 1] == 42 {
        lemma_skip_from(s, i + 2, line, 2);
    }
}

/// A string body ends inside the input or at its end, with at most one line
/// per byte read.
pub proof fn lemma_str_from(s: Seq<u8>, k: int, line: int, quote: u8, acc: Seq<char>)
    requires
        0 <= k <= s.len(),
    ensures
        k <= str_from(s, k, line, quote, acc).0 <= s.len(),
        line <= str_from(s, k, line, quote, acc).1 <= line + str_from(s, k, line, quote, acc).0
            - k,
    decreases s.len() - k,
{
    if k < s.len() && s[k] != quote {
        if s[k] == 92 && k + 1 < s.len() {
            lemma_str_from(s, k + 2, line + nl(s, k) + nl(s, k + 1), quote, acc.push(escape_char(s[k + 1])));
        } else {
            lemma_str_from(s, k + 1, line + nl(s, k), quote, acc.push(s[k] as char));
        }
    }
}

/// Runs of digits and names end inside the input.
pub proof fn lemma_runs(s: Seq<u8>, k: int)
    requires
        0 <= k <= s.len(),
    ensures
        k <= digits_end(s, k) <= s.len(),
        k <= name_end(s, k) <= s.len(),
    decreases s.len() - k,
{
    if k < s.len() {
        lemma_runs(s, k + 1);
    }
}

/// A token other than the end moves forward, stays inside the input, and
/// counts at most one line per byte.
pub proof fn lemma_next_token(s: Seq<u8>, i: int, line: int)
    requires
        0 <= i <= s.len(),
    ensures
        next_token(s, i, line) matches Ok((t, tl, i2, l2)) ==> (t is Eof ==> i2 == s.len() && l2
            == tl) && (!(t is Eof) ==> i < i2 <= s.len()) && line <= l2 <= line + i2 - i && line
            <= tl <= l2,
{
    lemma_skip_from(s, i, line, 0);
    let (j, l) = skip_from(s, i, line, 0);
    if j < s.len() {
        let c = s[j];
        if c == 34 || c == 39 {
            lemma_str_from(s, j + 1, l, c, seq![]);
        } else {
            lemma_runs(s, j);
            lemma_runs(s, j + 1);
            let k1 = digits_end(s, j);
            if k1 < s.len() {
                lemma_runs(s, k1 + 1);
            }
        }
    }
}

/// All tokens from byte `i` on, ending with the end token; or the first
/// lexical error.
pub open spec fn tokens_from(s: Seq<u8>, i: int, line: int) -> Result<Seq<(TokenSpec, int)>, (int, Seq<char>)>
    decreases s.len() - i,
{
    if i < 0 || i > s.len() {
        Ok(seq![])
    } else {
        match next_token(s, i, line) {
            Err(e) => Err(e),
            Ok((t, tl, i2, l2)) => if t is Eof {
                Ok(seq![(t, tl)])
            } else {
                proof {
                    lemma_next_token(s, i, line);
                }
                match tokens_from(s, i2, l2) {
                    Err(e) => Err(e),
                    Ok(rest) => Ok(seq![(t, tl)] + rest),
                }
            },
        }
    }
}

/// The tokens of a script: from the first byte, on line 1.
pub open spec fn script_tokens(s: Seq<u8>) -> Result<Seq<(TokenSpec, int)>, (int, Seq<char>)> {
    tokens_from(s, 0, 1)
}

/// Skip whitespace and `//` / `/* */` comments from byte `i` on line
/// `line`; gives the position of the next token and its line.
pub fn skip_ws_comments(src: &[u8], start: usize, start_line: usize) -> (r: (usize, usize))
    requires
        start <= src@.len(),
        start_line + (src@.len() - start) <= usize::MAX,
    ensures
        (r.0 as int, r.1 as int) == skip_from(src@, start as int, start_line as int, 0),
{
    let ghost s = src@;
    let ghost i0 = start as int;
    let ghost line0 = start_line as int;
    let ghost goal = skip_from(s, i0, line0, 0);
    let mut i = start;
    let mut line = start_line;
    let mut mode: u8 = 0;
    loop
        invariant
            s == src@,
            i0 == start,
            line0 == start_line,
            goal == skip_from(s, i0, line0, 0),
            i <= src@.len(),
            mode <= 2,
            line + (src@.len() - i) <= usize::MAX,
            goal == skip_from(s, i as int, line as int, mode as int),
        decreases src@.len() - i, mode,
    {
        let n = src.len();
        if mode == 1 {
            if i < n && src[i] != 10 {
                i += 1;
            } else {
                mode = 0;
            }
        } else if mode == 2 {
            if i < n && i + 1 < n && !(src[i] == 42 && src[i + 1] == 47) {
                if src[i] == 10 {
                    line += 1;
                }
                i += 1;
            } else {
                if i < n {
                    if src[i] == 10 {
                        line += 1;
                    }
                    i += 1;
                }
                if i < n {
                    if src[i] == 10 {
                        line += 1;
                    }
                    i += 1;
                }
                mode = 0;
            }
        } else if i < n && (src[i] == 32 || src[i] == 9 || src[i] == 10 || src[i] == 12 || src[i]
            == 13) {
            if src[i] == 10 {
                line += 1;
            }
            i += 1;
        } else if i < n && i + 1 < n && src[i] == 47 && src[i + 1] == 47 {
            i += 2;
            mode = 1;
        } else if i < n && i + 1 < n && src[i] == 47 && src[i + 1] == 42 {
            i += 2;
            mode = 2;
        } else {
            return (i, line);
        }
    }
}

/// The characters of bytes `[a, b)`.
fn text_range(src: &[u8], a: usize, b: usize) -> (r: String)
    requires
        a <= b <= src@.len(),
    ensures
        r@ == text_of(src@, a as int, b as int),
{
    let mut out = String::new();
    let mut k = a;
    while k < b
        invariant
            a <= k <= b,
            b <= src@.len(),
            out@ == text_of(src@, a as int, k as int),
        decreases b - k,
    {
        push_char(&mut out, src[k] as char);
        k += 1;
        assert(out@ =~= text_of(src@, a as int, k as int));
    }
    out
}

/// End of the run of digits from `k`.
fn digits_end_exec(src: &[u8], k: usize) -> (e: usize)
    requires
        k <= src@.len(),
    ensures
        e as int == digits_end(src@, k as int),
{
    let mut e = k;
    while e < src.len() && 48 <= src[e] && src[e] <= 57
        invariant
            k <= e <= src@.len(),
            digits_end(src@, e as int) == digits_end(src@, k as int),
        decreases src@.len() - e,
    {
        e += 1;
    }
    e
}

/// End of the run of name characters from `k`.
fn name_end_exec(src: &[u8], k: usize) -> (e: usize)
    requires
        k <= src@.len(),
    ensures
        e as int == name_end(src@, k as int),
{
    let mut e = k;
    while e < src.len() && ((48 <= src[e] && src[e] <= 57) || (65 <= src[e] && src[e] <= 90) || (
    97 <= src[e] && src[e] <= 122) || src[e] == 95)
        invariant
            k <= e <= src@.len(),
            name_end(src@, e as int) == name_end(src@, k as int),
        decreases src@.len() - e,
    {
        e += 1;
    }
    e
}

/// The character an escape byte stands for.
fn escape_exec(e: u8) -> (c: char)
    ensures
        c == escape_char(e),
{
    if e == 110 {
        '\n'
    } else if e == 116 {
        '\t'
    } else if e == 92 {
        '\\'
    } else if e == 34 {
        '"'
    } else if e == 39 {
        '\''
    } else {
        e as char
    }
}

/// A two-byte operator.
fn two_byte_exec(c: u8, n: u8) -> (r: Option<ScriptPunct>)
    ensures
        r == two_byte_op(c, n),
{
    if c == 61 && n == 61 {
        Some(ScriptPunct::EqEq)
    } else if c == 33 && n == 61 {
        Some(ScriptPunct::Ne)
    } else if c == 60 && n == 61 {
        Some(ScriptPunct::Le)
    } else if c == 62 && n == 61 {
        Some(ScriptPunct::Ge)
    } else if c == 38 && n == 38 {
        Some(ScriptPunct::AndAnd)
    } else if c == 124 && n == 124 {
        Some(ScriptPunct::OrOr)
    } else {
        None
    }
}

/// A one-byte punctuation mark or operator.
fn one_byte_exec(c: u8) -> (r: Option<ScriptPunct>)
    ensures
        r == one_byte_op(c),
{
    if c == 40 {
        Some(ScriptPunct::LParen)
    } else if c == 41 {
        Some(ScriptPunct::RParen)
    } else if c == 123 {
        Some(ScriptPunct::LBrace)
    } else if c == 125 {
        Some(ScriptPunct::RBrace)
    } else if c == 91 {
        Some(ScriptPunct::LBracket)
    } else if c == 93 {
        Some(ScriptPunct::RBracket)
    } else if c == 44 {
        Some(ScriptPunct::Comma)
    } else if c == 58 {
        Some(ScriptPunct::Colon)
    } else if c == 59 {
        Some(ScriptPunct::Semi)
    } else if c == 46 {
        Some(ScriptPunct::Dot)
    } else if c == 43 {
        Some(ScriptPunct::Plus)
    } else if c == 45 {
        Some(ScriptPunct::Minus)
    } else if c == 42 {
        Some(ScriptPunct::Star)
    } else if c == 47 {
        Some(ScriptPunct::Slash)
    } else if c == 37 {
        Some(ScriptPunct::Percent)
    } else if c == 61 {
        Some(ScriptPunct::Assign)
    } else if c == 60 {
        Some(ScriptPunct::Lt)
    } else if c == 62 {
        Some(ScriptPunct::Gt)
    } else if c == 33 {
        Some(ScriptPunct::Bang)
    } else {
        None
    }
}

/// A script parse error at `line`.
fn parse_error(line: usize, msg: String) -> (e: ScriptError)
    ensures
        e == (ScriptError::Parse { line, msg }),
{
    ScriptError::Parse { line, msg }
}

/// The next token from byte `i` on line `line` (see [`next_token`]): the
/// token, its line, and the position and line after it.
pub fn next_tok(src: &[u8], i: usize, line: usize) -> (r: Result<
    (ScriptToken, usize, usize, usize),
    ScriptError,
>)
    requires
        i <= src@.len(),
        line + (src@.len() - i) <= usize::MAX,
    ensures
        match r {
            Ok((t, tl, i2, l2)) => next_token(src@, i as int, line as int) == Ok::<
                (TokenSpec, int, int, int),
                (int, Seq<char>),
            >((token_view(t), tl as int, i2 as int, l2 as int)),
            Err(ScriptError::Parse { line: el, msg }) => next_token(src@, i as int, line as int)
                == Err::<(TokenSpec, int, int, int), (int, Seq<char>)>((el as int, msg@)),
            Err(ScriptError::Runtime(_)) => false,
        },
{
    proof {
        lemma_skip_from(src@, i as int, line as int, 0);
    }
    let (j, l) = skip_ws_comments(src, i, line);
    let n = src.len();
    if j >= n {
        return Ok((ScriptToken::Eof, l, j, l));
    }
    let c = src[j];
    if c == 34 || c == 39 {
        let mut k = j + 1;
        let mut l2 = l;
        let mut body = String::new();
        let ghost goal = str_from(src@, (j + 1) as int, l as int, c, seq![]);
        while k < n && src[k] != c
            invariant
                j + 1 <= k <= n,
                n == src@.len(),
                l2 + (n - k) <= usize::MAX,
                goal == str_from(src@, k as int, l2 as int, c, body@),
            decreases n - k,
        {
            let ch = src[k];
            if ch == 10 {
                l2 += 1;
            }
            k += 1;
            if ch == 92 && k < n {
                let e = src[k];
                if e == 10 {
                    l2 += 1;
                }
                k += 1;
                push_char(&mut body, escape_exec(e));
            } else {
                push_char(&mut body, ch as char);
            }
        }
        if k >= n {
            let mut msg = String::new();
            push_str(&mut msg, "unterminated string");
            assert(msg@ =~= "unterminated string"@);
            return Err(parse_error(l, msg));
        }
        return Ok((ScriptToken::Str(body), l, k + 1, l2));
    }
    if (48 <= c && c <= 57) || (c == 46 && j + 1 < n && 48 <= src[j + 1] && src[j + 1] <= 57) {
        proof {
            lemma_runs(src@, j as int);
        }
        let k1 = digits_end_exec(src, j);
        let k = if k1 < n && src[k1] == 46 {
            proof {
                lemma_runs(src@, k1 + 1);
            }
            digits_end_exec(src, k1 + 1)
        } else {
            k1
        };
        let text = text_range(src, j, k);
        if k < n && src[k] == 115 && (k + 1 >= n || !((48 <= src[k + 1] && src[k + 1] <= 57) || (65
            <= src[k + 1] && src[k + 1] <= 90) || (97 <= src[k + 1] && src[k + 1] <= 122))) {
            return Ok((ScriptToken::Number(text), l, k + 1, l));
        }
        return Ok((ScriptToken::Number(text), l, k, l));
    }
    if (65 <= c && c <= 90) || (97 <= c && c <= 122) || c == 95 || c == 36 {
        proof {
            lemma_runs(src@, j + 1);
        }
        let k = name_end_exec(src, j + 1);
        return Ok((ScriptToken::Ident(text_range(src, j, k)), l, k, l));
    }
    let nb: u8 = if j + 1 < n {
        src[j + 1]
    } else {
        0
    };
    assert(nb == peek_at(src@, j + 1));
    assert(!(c == 34 || c == 39));
    assert(!(digit_b(c) || (c == 46 && j + 1 < n && digit_b(src@[j + 1]))));
    assert(!(alpha_b(c) || c == 95 || c == 36));
    match two_byte_exec(c, nb) {
        Some(p) => Ok((ScriptToken::Punct(p), l, j + 2, l)),
        None => match one_byte_exec(c) {
            Some(p) => Ok((ScriptToken::Punct(p), l, j + 1, l)),
            None => {
                let mut msg = String::new();
                push_str(&mut msg, "unexpected character `");
                push_char(&mut msg, c as char);
                push_str(&mut msg, "`");
                assert(msg@ =~= "unexpected character `"@ + seq![c as char] + "`"@);
                Err(parse_error(l, msg))
            },
        },
    }
}

/// Tokens with their lines, as plain values.
pub open spec fn tokens_view(v: Seq<(ScriptToken, usize)>) -> Seq<(TokenSpec, int)> {
    Seq::new(v.len(), |k: int| (token_view(v[k].0), v[k].1 as int))
}

/// `done` tokens followed by what lexing from a position gives.
pub open spec fn after_tokens(
    done: Seq<(TokenSpec, int)>,
    rest: Result<Seq<(TokenSpec, int)>, (int, Seq<char>)>,
) -> Result<Seq<(TokenSpec, int)>, (int, Seq<char>)> {
    match rest {
        Ok(r) => Ok(done + r),
        Err(e) => Err(e),
    }
}

/// All tokens of a script, ending with the end token, each with the line it
/// starts on; or the first lexical error (see [`script_tokens`]).
pub fn lex_script(source: &str) -> (r: Result<Vec<(ScriptToken, usize)>, ScriptError>)
    requires
        source.spec_bytes().len() < usize::MAX,
    ensures
        match r {
            Ok(v) => script_tokens(source.spec_bytes()) == Ok::<
                Seq<(TokenSpec, int)>,
                (int, Seq<char>),
            >(tokens_view(v@)),
            Err(ScriptError::Parse { line, msg }) => script_tokens(source.spec_bytes()) == Err::<
                Seq<(TokenSpec, int)>,
                (int, Seq<char>),
            >((line as int, msg@)),
            Err(ScriptError::Runtime(_)) => false,
        },
{
    let src = source.as_bytes();
    let ghost s = src@;
    let mut out: Vec<(ScriptToken, usize)> = Vec::new();
    let mut i: usize = 0;
    let mut line: usize = 1;
    assert(tokens_view(out@) =~= Seq::<(TokenSpec, int)>::empty());
    assert(after_tokens(tokens_view(out@), tokens_from(s, 0, 1)) =~= tokens_from(s, 0, 1));
    loop
        invariant
            s == src@,
            s == source.spec_bytes(),
            i <= s.len(),
            line + (s.len() - i) <= usize::MAX,
            script_tokens(s) == after_tokens(tokens_view(out@), tokens_from(s, i as int, line as int)),
        decreases s.len() - i,
    {
        proof {
            lemma_next_token(s, i as int, line as int);
        }
        let ghost before = tokens_view(out@);
        match next_tok(src, i, line) {
            Err(e) => {
                return Err(e);
            },
            Ok((t, tl, i2, l2)) => {
                let is_end = match t {
                    ScriptToken::Eof => true,
                    _ => false,
                };
                out.push((t, tl));
                assert(tokens_view(out@) =~= before.push((token_view(t), tl as int)));
                if is_end {
                    assert(tokens_view(out@) =~= before + seq![(token_view(t), tl as int)]);
                    return Ok(out);
                }
                let ghost rest = tokens_from(s, i2 as int, l2 as int);
                assert(after_tokens(tokens_view(out@), rest) =~= after_tokens(
                    before,
                    match rest {
                        Err(e) => Err(e),
                        Ok(r) => Ok(seq![(token_view(t), tl as int)] + r),
                    },
                )) by {
                    match rest {
                        Ok(r) => {
                            assert(tokens_view(out@) + r =~= before + (seq![(token_view(t), tl as int)] + r));
                        },
                        Err(e) => {},
                    }
                }
                i = i2;
                line = l2;
            },
        }
    }
}

} // verus!
