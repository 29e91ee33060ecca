//! The parser of the style sheet script language (`@script` blocks):
//! top-level `let`, `fn` and `on(…)`, statements (`let`, assignment, `for`,
//! `if`/`else`, `return`, expressions) and expressions with the usual
//! precedence. Number literals stay as written; an error gives the line of
//! the token after the offending one and what was expected (a token shown
//! by its kind and its text as written).
//!
//! In the spec functions below, a branch that gives the error `(0, "")`
//! is never taken: each parsing step that succeeds moves past at least one
//! token (the parsing functions' contracts state it), and those branches
//! only make the measure of the recursion visible.

use vstd::prelude::*;

use crate::script_lex::{lex_script, script_tokens, token_view, tokens_view, ScriptPunct, ScriptToken, TokenSpec};
use crate::player::{key_pos, lemma_key_pos};
use crate::strings::{owned, push_str, str_eq};
use crate::style_check::{BinOp, EventHandler, ScriptError, UnaryOp};
use vstd::string::StringSliceAdditionalSpecFns;

verus! {

/// Expression.
#[derive(Debug)]
pub enum Expr {
    /// `null` / `undefined`.
    Null,
    /// Number literal, as written.
    Number(String),
    /// String literal.
    String(String),
    /// `true` / `false`.
    Bool(bool),
    /// Identifier.
    Ident(String),
    /// `[a, b]`.
    Array(Vec<Expr>),
    /// `{ a: 1, b: "x" }`.
    Object(Vec<(String, Expr)>),
    /// `-e` / `!e`.
    Unary {
        /// Operator.
        op: UnaryOp,
        /// Operand.
        expr: Box<Expr>,
    },
    /// Binary operation.
    Binary {
        /// Left operand.
        left: Box<Expr>,
        /// Operator.
        op: BinOp,
        /// Right operand.
        right: Box<Expr>,
    },
    /// `name(args)`.
    Call {
        /// Callee.
        name: String,
        /// Arguments.
        args: Vec<Expr>,
    },
    /// `base.key` or `base[index]`.
    Index {
        /// Base.
        base: Box<Expr>,
        /// Index (a string for the `.key` form).
        index: Box<Expr>,
        /// Whether written `.key`.
        dot: bool,
    },
}

/// An expression as plain values.
pub enum ExprSpec {
    /// Null.
    Null,
    /// Number text.
    Number(Seq<char>),
    /// String.
    Str(Seq<char>),
    /// Boolean.
    Bool(bool),
    /// Identifier.
    Ident(Seq<char>),
    /// Array.
    Array(Seq<ExprSpec>),
    /// Object.
    Object(Seq<(Seq<char>, ExprSpec)>),
    /// Unary.
    Unary(UnaryOp, Box<ExprSpec>),
    /// Binary.
    Binary(Box<ExprSpec>, BinOp, Box<ExprSpec>),
    /// Call.
    Call(Seq<char>, Seq<ExprSpec>),
    /// Index, and whether written `.key`.
    Index(Box<ExprSpec>, Box<ExprSpec>, bool),
}

/// Plain values of an expression.
pub open spec fn expr_view(e: Expr) -> ExprSpec
    decreases e,
{
    match e {
        Expr::Null => ExprSpec::Null,
        Expr::Number(s) => ExprSpec::Number(s@),
        Expr::String(s) => ExprSpec::Str(s@),
        Expr::Bool(b) => ExprSpec::Bool(b),
        Expr::Ident(s) => ExprSpec::Ident(s@),
        Expr::Array(v) => ExprSpec::Array(
            Seq::new(
                v@.len(),
                |k: int|
                    if 0 <= k < v@.len() {
                        expr_view(v@[k])
                    } else {
                        ExprSpec::Null
                    },
            ),
        ),
        Expr::Object(v) => ExprSpec::Object(
            Seq::new(
                v@.len(),
                |k: int|
                    if 0 <= k < v@.len() {
                        (v@[k].0@, expr_view(v@[k].1))
                    } else {
                        (seq![], ExprSpec::Null)
                    },
            ),
        ),
        Expr::Unary { op, expr } => ExprSpec::Unary(op, Box::new(expr_view(*expr))),
        Expr::Binary { left, op, right } => ExprSpec::Binary(
            Box::new(expr_view(*left)),
            op,
            Box::new(expr_view(*right)),
        ),
        Expr::Call { name, args } => ExprSpec::Call(
            name@,
            Seq::new(
                args@.len(),
                |k: int|
                    if 0 <= k < args@.len() {
                        expr_view(args@[k])
                    } else {
                        ExprSpec::Null
                    },
            ),
        ),
        Expr::Index { base, index, dot } => ExprSpec::Index(
            Box::new(expr_view(*base)),
            Box::new(expr_view(*index)),
            dot,
        ),
    }
}

/// Plain values of a list of expressions.
pub open spec fn exprs_view(v: Seq<Expr>) -> Seq<ExprSpec> {
    Seq::new(v.len(), |k: int| expr_view(v[k]))
}

/// Plain values of key/expression pairs.
pub open spec fn pairs_view(v: Seq<(String, Expr)>) -> Seq<(Seq<char>, ExprSpec)> {
    Seq::new(v.len(), |k: int| (v[k].0@, expr_view(v[k].1)))
}

/// The token at position `i` (the end token past the last).
pub open spec fn peek(t: Seq<(TokenSpec, int)>, i: int) -> TokenSpec {
    if 0 <= i < t.len() {
        t[i].0
    } else {
        TokenSpec::Eof
    }
}

/// The line of the token at position `i` (1 past the last).
pub open spec fn line_at(t: Seq<(TokenSpec, int)>, i: int) -> int {
    if 0 <= i < t.len() {
        t[i].1
    } else {
        1
    }
}

/// The position after taking the token at `i` (taking nothing past the
/// last).
pub open spec fn next_pos(t: Seq<(TokenSpec, int)>, i: int) -> int {
    if 0 <= i < t.len() {
        i + 1
    } else {
        i
    }
}

/// Position `j` is after `i` and within the tokens.
pub open spec fn after(t: Seq<(TokenSpec, int)>, i: int, j: int) -> bool {
    i < j <= t.len()
}

/// Name of a punctuation token.
pub open spec fn punct_name(p: ScriptPunct) -> Seq<char> {
    match p {
        ScriptPunct::LParen => "LParen"@,
        ScriptPunct::RParen => "RParen"@,
        ScriptPunct::LBrace => "LBrace"@,
        ScriptPunct::RBrace => "RBrace"@,
        ScriptPunct::LBracket => "LBracket"@,
        ScriptPunct::RBracket => "RBracket"@,
        ScriptPunct::Comma => "Comma"@,
        ScriptPunct::Colon => "Colon"@,
        ScriptPunct::Semi => "Semi"@,
        ScriptPunct::Dot => "Dot"@,
        ScriptPunct::Plus => "Plus"@,
        ScriptPunct::Minus => "Minus"@,
        ScriptPunct::Star => "Star"@,
        ScriptPunct::Slash => "Slash"@,
        ScriptPunct::Percent => "Percent"@,
        ScriptPunct::Assign => "Assign"@,
        ScriptPunct::EqEq => "EqEq"@,
        ScriptPunct::Ne => "Ne"@,
        ScriptPunct::Lt => "Lt"@,
        ScriptPunct::Le => "Le"@,
        ScriptPunct::Gt => "Gt"@,
        ScriptPunct::Ge => "Ge"@,
        ScriptPunct::AndAnd => "AndAnd"@,
        ScriptPunct::OrOr => "OrOr"@,
        ScriptPunct::Bang => "Bang"@,
    }
}

/// How a token is shown in an error: its kind, and its text as written.
pub open spec fn tok_text(t: TokenSpec) -> Seq<char> {
    match t {
        TokenSpec::Ident(s) => "Ident(\""@ + s + "\")"@,
        TokenSpec::Number(s) => "Number("@ + s + ")"@,
        TokenSpec::Str(s) => "String(\""@ + s + "\")"@,
        TokenSpec::Punct(p) => punct_name(p),
        TokenSpec::Eof => "Eof"@,
    }
}

/// Taking punctuation `p` at `i`: the position after it, or the error.
pub open spec fn expect_at(t: Seq<(TokenSpec, int)>, i: int, p: ScriptPunct) -> Result<int, (int, Seq<char>)> {
    let n = next_pos(t, i);
    if peek(t, i) == TokenSpec::Punct(p) {
        Ok(n)
    } else {
        Err((line_at(t, n), "expected "@ + punct_name(p) + ", got "@ + tok_text(peek(t, i))))
    }
}

/// Taking a name at `i`: the name and the position after it, or the error.
pub open spec fn ident_at(t: Seq<(TokenSpec, int)>, i: int) -> Result<(Seq<char>, int), (int, Seq<char>)> {
    let n = next_pos(t, i);
    match peek(t, i) {
        TokenSpec::Ident(s) => Ok((s, n)),
        other => Err((line_at(t, n), "expected identifier, got "@ + tok_text(other))),
    }
}

/// The operator of precedence level `lvl` (0 `||`, 1 `&&`, 2 equality,
/// 3 comparison, 4 additive, 5 multiplicative) a token stands for, if any.
pub open spec fn level_op(lvl: int, tok: TokenSpec) -> Option<BinOp> {
    match tok {
        TokenSpec::Punct(p) => if lvl == 0 {
            if p == ScriptPunct::OrOr { Some(BinOp::Or) } else { None }
        } else if lvl == 1 {
            if p == ScriptPunct::AndAnd { Some(BinOp::And) } else { None }
        } else if lvl == 2 {
            if p == ScriptPunct::EqEq {
                Some(BinOp::Eq)
            } else if p == ScriptPunct::Ne {
                Some(BinOp::Ne)
            } else {
                None
            }
        } else if lvl == 3 {
            if p == ScriptPunct::Lt {
                Some(BinOp::Lt)
            } else if p == ScriptPunct::Le {
                Some(BinOp::Le)
            } else if p == ScriptPunct::Gt {
                Some(BinOp::Gt)
            } else if p == ScriptPunct::Ge {
                Some(BinOp::Ge)
            } else {
                None
            }
        } else if lvl == 4 {
            if p == ScriptPunct::Plus {
                Some(BinOp::Add)
            } else if p == ScriptPunct::Minus {
                Some(BinOp::Sub)
            } else {
                None
            }
        } else {
            if p == ScriptPunct::Star {
                Some(BinOp::Mul)
            } else if p == ScriptPunct::Slash {
                Some(BinOp::Div)
            } else if p == ScriptPunct::Percent {
                Some(BinOp::Mod)
            } else {
                None
            }
        },
        _ => None,
    }
}

/// Parsing an expression at `i` (`||` has the loosest binding).
pub open spec fn expr_at(t: Seq<(TokenSpec, int)>, i: int) -> Result<(ExprSpec, int), (int, Seq<char>)>
    decreases t.len() - i, 30int,
{
    bin_at(t, i, 0)
}

/// Parsing operands joined by operators of level `lvl` and tighter, left
/// to right.
pub open spec fn bin_at(t: Seq<(TokenSpec, int)>, i: int, lvl: int) -> Result<(ExprSpec, int), (int, Seq<char>)>
    decreases t.len() - i, 20 - 2 * lvl,
{
    if lvl < 0 || lvl > 5 {
        Err((0, seq![]))
    } else {
        let first = if lvl < 5 {
            bin_at(t, i, lvl + 1)
        } else {
            unary_at(t, i)
        };
        match first {
            Err(e) => Err(e),
            Ok((left, j)) => if after(t, i, j) {
                bin_tail(t, j, lvl, left)
            } else {
                Err((0, seq![]))
            },
        }
    }
}

/// After `left`, operators of level `lvl` each followed by an operand.
pub open spec fn bin_tail(t: Seq<(TokenSpec, int)>, i: int, lvl: int, left: ExprSpec) -> Result<
    (ExprSpec, int),
    (int, Seq<char>),
>
    decreases t.len() - i, 20 - 2 * lvl,
{
    if lvl < 0 || lvl > 5 || i < 0 {
        Err((0, seq![]))
    } else {
        match level_op(lvl, peek(t, i)) {
            None => Ok((left, i)),
            Some(op) => {
                let n = next_pos(t, i);
                let rhs = if lvl < 5 {
                    bin_at(t, n, lvl + 1)
                } else {
                    unary_at(t, n)
                };
                match rhs {
                    Err(e) => Err(e),
                    Ok((right, j)) => if after(t, i, j) {
                        bin_tail(t, j, lvl, ExprSpec::Binary(Box::new(left), op, Box::new(right)))
                    } else {
                        Err((0, seq![]))
                    },
                }
            },
        }
    }
}

/// Parsing `-e`, `!e` or a postfix expression.
pub open spec fn unary_at(t: Seq<(TokenSpec, int)>, i: int) -> Result<(ExprSpec, int), (int, Seq<char>)>
    decreases t.len() - i, 5int,
{
    if i < 0 {
        Err((0, seq![]))
    } else if peek(t, i) == TokenSpec::Punct(ScriptPunct::Minus) || peek(t, i) == TokenSpec::Punct(
        ScriptPunct::Bang,
    ) {
        let op = if peek(t, i) == TokenSpec::Punct(ScriptPunct::Minus) {
            UnaryOp::Neg
        } else {
            UnaryOp::Not
        };
        match unary_at(t, next_pos(t, i)) {
            Err(e) => Err(e),
            Ok((e, j)) => Ok((ExprSpec::Unary(op, Box::new(e)), j)),
        }
    } else {
        match primary_at(t, i) {
            Err(e) => Err(e),
            Ok((e, j)) => if after(t, i, j) {
                postfix_tail(t, j, e)
            } else {
                Err((0, seq![]))
            },
        }
    }
}

/// After `e`, calls `(args)`, `.key` and `[index]`.
pub open spec fn postfix_tail(t: Seq<(TokenSpec, int)>, i: int, e: ExprSpec) -> Result<
    (ExprSpec, int),
    (int, Seq<char>),
>
    decreases t.len() - i, 4int,
{
    if i < 0 {
        Err((0, seq![]))
    } else {
        let n = next_pos(t, i);
        match peek(t, i) {
            TokenSpec::Punct(ScriptPunct::LParen) => match e {
                ExprSpec::Ident(name) => {
                    let args = if peek(t, n) == TokenSpec::Punct(ScriptPunct::RParen) {
                        Ok((Seq::<ExprSpec>::empty(), n))
                    } else {
                        list_at(t, n, seq![], false)
                    };
                    match args {
                        Err(er) => Err(er),
                        Ok((a, j)) => match expect_at(t, j, ScriptPunct::RParen) {
                            Err(er) => Err(er),
                            Ok(k) => if after(t, i, k) {
                                postfix_tail(t, k, ExprSpec::Call(name, a))
                            } else {
                                Err((0, seq![]))
                            },
                        },
                    }
                },
                _ => Err((line_at(t, i), "can only call identifiers"@)),
            },
            TokenSpec::Punct(ScriptPunct::Dot) => match ident_at(t, n) {
                Err(er) => Err(er),
                Ok((key, j)) => if after(t, i, j) {
                    postfix_tail(
                        t,
                        j,
                        ExprSpec::Index(Box::new(e), Box::new(ExprSpec::Str(key)), true),
                    )
                } else {
                    Err((0, seq![]))
                },
            },
            TokenSpec::Punct(ScriptPunct::LBracket) => match expr_at(t, n) {
                Err(er) => Err(er),
                Ok((idx, j)) => match expect_at(t, j, ScriptPunct::RBracket) {
                    Err(er) => Err(er),
                    Ok(k) => if after(t, i, k) {
                        postfix_tail(t, k, ExprSpec::Index(Box::new(e), Box::new(idx), false))
                    } else {
                        Err((0, seq![]))
                    },
                },
            },
            _ => Ok((e, i)),
        }
    }
}

/// Comma-separated expressions from `i`, after `acc`; with `trailing`, a
/// comma right before `]` ends the list.
pub open spec fn list_at(t: Seq<(TokenSpec, int)>, i: int, acc: Seq<ExprSpec>, trailing: bool) -> Result<
    (Seq<ExprSpec>, int),
    (int, Seq<char>),
>
    decreases t.len() - i, 31int,
{
    match expr_at(t, i) {
        Err(e) => Err(e),
        Ok((a, j)) => {
            let acc2 = acc.push(a);
            if peek(t, j) == TokenSpec::Punct(ScriptPunct::Comma) {
                let j2 = next_pos(t, j);
                if trailing && peek(t, j2) == TokenSpec::Punct(ScriptPunct::RBracket) {
                    Ok((acc2, j2))
                } else if after(t, i, j2) {
                    list_at(t, j2, acc2, trailing)
                } else {
                    Err((0, seq![]))
                }
            } else {
                Ok((acc2, j))
            }
        },
    }
}

/// `key: value` pairs of an object literal from `i`, after `acc`; a comma
/// right before `}` ends them.
pub open spec fn pairs_at(t: Seq<(TokenSpec, int)>, i: int, acc: Seq<(Seq<char>, ExprSpec)>) -> Result<
    (Seq<(Seq<char>, ExprSpec)>, int),
    (int, Seq<char>),
>
    decreases t.len() - i, 31int,
{
    let n = next_pos(t, i);
    let key = match peek(t, i) {
        TokenSpec::Ident(s) => Some(s),
        TokenSpec::Str(s) => Some(s),
        _ => None,
    };
    match key {
        None => Err((line_at(t, n), "object key expected, got "@ + tok_text(peek(t, i)))),
        Some(k) => match expect_at(t, n, ScriptPunct::Colon) {
            Err(e) => Err(e),
            Ok(m) => if m < i {
                Err((0, seq![]))
            } else {
                match expr_at(t, m) {
                    Err(e) => Err(e),
                    Ok((v, j)) => {
                        let acc2 = acc.push((k, v));
                        if peek(t, j) == TokenSpec::Punct(ScriptPunct::Comma) {
                            let j2 = next_pos(t, j);
                            if peek(t, j2) == TokenSpec::Punct(ScriptPunct::RBrace) {
                                Ok((acc2, j2))
                            } else if after(t, i, j2) {
                                pairs_at(t, j2, acc2)
                            } else {
                                Err((0, seq![]))
                            }
                        } else {
                            Ok((acc2, j))
                        }
                    },
                }
            },
        },
    }
}

/// Parsing a literal, a name, `( e )`, an array or an object literal.
pub open spec fn primary_at(t: Seq<(TokenSpec, int)>, i: int) -> Result<(ExprSpec, int), (int, Seq<char>)>
    decreases t.len() - i, 3int,
{
    let n = next_pos(t, i);
    if !after(t, i, n) {
        Err((line_at(t, n), "unexpected token in expression: "@ + tok_text(peek(t, i))))
    } else {
        match peek(t, i) {
            TokenSpec::Number(s) => Ok((ExprSpec::Number(s), n)),
            TokenSpec::Str(s) => Ok((ExprSpec::Str(s), n)),
            TokenSpec::Ident(s) => Ok(
                (
                    if s == "true"@ {
                        ExprSpec::Bool(true)
                    } else if s == "false"@ {
                        ExprSpec::Bool(false)
                    } else if s == "null"@ || s == "undefined"@ {
                        ExprSpec::Null
                    } else {
                        ExprSpec::Ident(s)
                    },
                    n,
                ),
            ),
            TokenSpec::Punct(ScriptPunct::LParen) => match expr_at(t, n) {
                Err(e) => Err(e),
                Ok((e, j)) => match expect_at(t, j, ScriptPunct::RParen) {
                    Err(er) => Err(er),
                    Ok(k) => Ok((e, k)),
                },
            },
            TokenSpec::Punct(ScriptPunct::LBracket) => {
                let items = if peek(t, n) == TokenSpec::Punct(ScriptPunct::RBracket) {
                    Ok((Seq::<ExprSpec>::empty(), n))
                } else {
                    list_at(t, n, seq![], true)
                };
                match items {
                    Err(e) => Err(e),
                    Ok((v, j)) => match expect_at(t, j, ScriptPunct::RBracket) {
                        Err(er) => Err(er),
                        Ok(k) => Ok((ExprSpec::Array(v), k)),
                    },
                }
            },
            TokenSpec::Punct(ScriptPunct::LBrace) => {
                let ps = if peek(t, n) == TokenSpec::Punct(ScriptPunct::RBrace) {
                    Ok((Seq::<(Seq<char>, ExprSpec)>::empty(), n))
                } else {
                    pairs_at(t, n, seq![])
                };
                match ps {
                    Err(e) => Err(e),
                    Ok((v, j)) => match expect_at(t, j, ScriptPunct::RBrace) {
                        Err(er) => Err(er),
                        Ok(k) => Ok((ExprSpec::Object(v), k)),
                    },
                }
            },
            other => Err((line_at(t, n), "unexpected token in expression: "@ + tok_text(other))),
        }
    }
}

/// Plain values of a script error: its line and message.
pub open spec fn err_v(e: ScriptError) -> (int, Seq<char>) {
    match e {
        ScriptError::Parse { line, msg } => (line as int, msg@),
        ScriptError::Runtime(m) => (-1, m@),
    }
}

/// Plain values of an expression parse result.
pub open spec fn res_expr(r: Result<(Expr, usize), ScriptError>) -> Result<(ExprSpec, int), (int, Seq<char>)> {
    match r {
        Ok((e, j)) => Ok((expr_view(e), j as int)),
        Err(e) => Err(err_v(e)),
    }
}

/// Plain values of a list parse result.
pub open spec fn res_list(r: Result<(Vec<Expr>, usize), ScriptError>) -> Result<(Seq<ExprSpec>, int), (int, Seq<char>)> {
    match r {
        Ok((v, j)) => Ok((exprs_view(v@), j as int)),
        Err(e) => Err(err_v(e)),
    }
}

/// Plain values of a pairs parse result.
pub open spec fn res_pairs(r: Result<(Vec<(String, Expr)>, usize), ScriptError>) -> Result<
    (Seq<(Seq<char>, ExprSpec)>, int),
    (int, Seq<char>),
> {
    match r {
        Ok((v, j)) => Ok((pairs_view(v@), j as int)),
        Err(e) => Err(err_v(e)),
    }
}

/// Whether the token at `i` is punctuation `p`.
fn is_punct(toks: &Vec<(ScriptToken, usize)>, i: usize, p: ScriptPunct) -> (b: bool)
    ensures
        b == (peek(tokens_view(toks@), i as int) == TokenSpec::Punct(p)),
{
    if i < toks.len() {
        match &toks[i].0 {
            ScriptToken::Punct(q) => *q == p,
            _ => false,
        }
    } else {
        false
    }
}

/// Whether the token at `i` is the name `w`.
fn is_word(toks: &Vec<(ScriptToken, usize)>, i: usize, w: &str) -> (b: bool)
    ensures
        b == (peek(tokens_view(toks@), i as int) == TokenSpec::Ident(w@)),
{
    if i < toks.len() {
        match &toks[i].0 {
            ScriptToken::Ident(s) => str_eq(s.as_str(), w),
            _ => false,
        }
    } else {
        false
    }
}

/// The line of the token at `i` (see [`line_at`]).
fn line_of(toks: &Vec<(ScriptToken, usize)>, i: usize) -> (l: usize)
    ensures
        l as int == line_at(tokens_view(toks@), i as int),
{
    if i < toks.len() {
        toks[i].1
    } else {
        1
    }
}

/// The position after the token at `i` (see [`next_pos`]).
fn next_of(toks: &Vec<(ScriptToken, usize)>, i: usize) -> (n: usize)
    requires
    ensures
        n as int == next_pos(tokens_view(toks@), i as int),
{
    if i < toks.len() {
        i + 1
    } else {
        i
    }
}

/// Name of a punctuation token (see [`punct_name`]).
fn punct_text(p: ScriptPunct) -> (s: String)
    ensures
        s@ == punct_name(p),
{
    match p {
        ScriptPunct::LParen => owned("LParen"),
        ScriptPunct::RParen => owned("RParen"),
        ScriptPunct::LBrace => owned("LBrace"),
        ScriptPunct::RBrace => owned("RBrace"),
        ScriptPunct::LBracket => owned("LBracket"),
        ScriptPunct::RBracket => owned("RBracket"),
        ScriptPunct::Comma => owned("Comma"),
        ScriptPunct::Colon => owned("Colon"),
        ScriptPunct::Semi => owned("Semi"),
        ScriptPunct::Dot => owned("Dot"),
        ScriptPunct::Plus => owned("Plus"),
        ScriptPunct::Minus => owned("Minus"),
        ScriptPunct::Star => owned("Star"),
        ScriptPunct::Slash => owned("Slash"),
        ScriptPunct::Percent => owned("Percent"),
        ScriptPunct::Assign => owned("Assign"),
        ScriptPunct::EqEq => owned("EqEq"),
        ScriptPunct::Ne => owned("Ne"),
        ScriptPunct::Lt => owned("Lt"),
        ScriptPunct::Le => owned("Le"),
        ScriptPunct::Gt => owned("Gt"),
        ScriptPunct::Ge => owned("Ge"),
        ScriptPunct::AndAnd => owned("AndAnd"),
        ScriptPunct::OrOr => owned("OrOr"),
        ScriptPunct::Bang => owned("Bang"),
    }
}

/// `prefix` followed by how the token at `i` is shown (see [`tok_text`]).
fn with_tok_text(prefix: &str, toks: &Vec<(ScriptToken, usize)>, i: usize) -> (s: String)
    ensures
        s@ == prefix@ + tok_text(peek(tokens_view(toks@), i as int)),
{
    let mut s = owned(prefix);
    if i < toks.len() {
        match &toks[i].0 {
            ScriptToken::Ident(x) => {
                push_str(&mut s, "Ident(\"");
                push_str(&mut s, x.as_str());
                push_str(&mut s, "\")");
                assert(s@ =~= prefix@ + ("Ident(\""@ + x@ + "\")"@));
            },
            ScriptToken::Number(x) => {
                push_str(&mut s, "Number(");
                push_str(&mut s, x.as_str());
                push_str(&mut s, ")");
                assert(s@ =~= prefix@ + ("Number("@ + x@ + ")"@));
            },
            ScriptToken::Str(x) => {
                push_str(&mut s, "String(\"");
                push_str(&mut s, x.as_str());
                push_str(&mut s, "\")");
                assert(s@ =~= prefix@ + ("String(\""@ + x@ + "\")"@));
            },
            ScriptToken::Punct(p) => {
                let n = punct_text(*p);
                push_str(&mut s, n.as_str());
            },
            ScriptToken::Eof => {
                push_str(&mut s, "Eof");
            },
        }
    } else {
        push_str(&mut s, "Eof");
    }
    s
}

/// A parse error at `line`.
fn perr(line: usize, msg: String) -> (e: ScriptError)
    ensures
        err_v(e) == (line as int, msg@),
{
    ScriptError::Parse { line, msg }
}

/// Takes punctuation `p` at `i` (see [`expect_at`]).
fn expect_p(toks: &Vec<(ScriptToken, usize)>, i: usize, p: ScriptPunct) -> (r: Result<usize, ScriptError>)
    requires
    ensures
        match r {
            Ok(n) => expect_at(tokens_view(toks@), i as int, p) == Ok::<int, (int, Seq<char>)>(n as int),
            Err(e) => expect_at(tokens_view(toks@), i as int, p) == Err::<int, (int, Seq<char>)>(err_v(e)),
        },
{
    let n = next_of(toks, i);
    if is_punct(toks, i, p) {
        Ok(n)
    } else {
        let mut msg = owned("expected ");
        let pn = punct_text(p);
        push_str(&mut msg, pn.as_str());
        let tail = with_tok_text(", got ", toks, i);
        push_str(&mut msg, tail.as_str());
        assert(msg@ =~= "expected "@ + punct_name(p) + ", got "@ + tok_text(peek(tokens_view(toks@), i as int)));
        Err(perr(line_of(toks, n), msg))
    }
}

/// Takes a name at `i` (see [`ident_at`]).
fn expect_ident(toks: &Vec<(ScriptToken, usize)>, i: usize) -> (r: Result<(String, usize), ScriptError>)
    requires
    ensures
        match r {
            Ok((s, n)) => ident_at(tokens_view(toks@), i as int) == Ok::<(Seq<char>, int), (int, Seq<char>)>(
                (s@, n as int),
            ),
            Err(e) => ident_at(tokens_view(toks@), i as int) == Err::<(Seq<char>, int), (int, Seq<char>)>(
                err_v(e),
            ),
        },
{
    let n = next_of(toks, i);
    if i < toks.len() {
        match &toks[i].0 {
            ScriptToken::Ident(s) => {
                return Ok((owned(s.as_str()), n));
            },
            _ => {},
        }
    }
    let msg = with_tok_text("expected identifier, got ", toks, i);
    Err(perr(line_of(toks, n), msg))
}

/// The operator of level `lvl` at `i`, if any (see [`level_op`]).
fn op_of(toks: &Vec<(ScriptToken, usize)>, i: usize, lvl: usize) -> (r: Option<BinOp>)
    ensures
        r == level_op(lvl as int, peek(tokens_view(toks@), i as int)),
{
    if i >= toks.len() {
        return None;
    }
    match &toks[i].0 {
        ScriptToken::Punct(p) => {
            let p = *p;
            if lvl == 0 {
                if p == ScriptPunct::OrOr { Some(BinOp::Or) } else { None }
            } else if lvl == 1 {
                if p == ScriptPunct::AndAnd { Some(BinOp::And) } else { None }
            } else if lvl == 2 {
                if p == ScriptPunct::EqEq {
                    Some(BinOp::Eq)
                } else if p == ScriptPunct::Ne {
                    Some(BinOp::Ne)
                } else {
                    None
                }
            } else if lvl == 3 {
                if p == ScriptPunct::Lt {
                    Some(BinOp::Lt)
                } else if p == ScriptPunct::Le {
                    Some(BinOp::Le)
                } else if p == ScriptPunct::Gt {
                    Some(BinOp::Gt)
                } else if p == ScriptPunct::Ge {
                    Some(BinOp::Ge)
                } else {
                    None
                }
            } else if lvl == 4 {
                if p == ScriptPunct::Plus {
                    Some(BinOp::Add)
                } else if p == ScriptPunct::Minus {
                    Some(BinOp::Sub)
                } else {
                    None
                }
            } else {
                if p == ScriptPunct::Star {
                    Some(BinOp::Mul)
                } else if p == ScriptPunct::Slash {
                    Some(BinOp::Div)
                } else if p == ScriptPunct::Percent {
                    Some(BinOp::Mod)
                } else {
                    None
                }
            }
        },
        _ => None,
    }
}

/// Parses an expression at `i` (see [`expr_at`]).
pub fn parse_expr(toks: &Vec<(ScriptToken, usize)>, i: usize) -> (r: Result<(Expr, usize), ScriptError>)
    requires
        i <= toks@.len(),
    ensures
        res_expr(r) == expr_at(tokens_view(toks@), i as int),
        r matches Ok((_, j)) ==> i < j <= toks@.len(),
    decreases toks@.len() - i, 30int,
{
    parse_bin(toks, i, 0)
}

/// Parses operands joined by operators of level `lvl` and tighter (see
/// [`bin_at`]).
fn parse_bin(toks: &Vec<(ScriptToken, usize)>, i: usize, lvl: usize) -> (r: Result<(Expr, usize), ScriptError>)
    requires
        i <= toks@.len(),
        lvl <= 5,
    ensures
        res_expr(r) == bin_at(tokens_view(toks@), i as int, lvl as int),
        r matches Ok((_, j)) ==> i < j <= toks@.len(),
    decreases toks@.len() - i, 20 - 2 * lvl,
{
    let first = if lvl < 5 {
        parse_bin(toks, i, lvl + 1)
    } else {
        parse_unary(toks, i)
    };
    match first {
        Err(e) => Err(e),
        Ok((left, j)) => parse_bin_tail(toks, j, lvl, left),
    }
}

/// After `left`, operators of level `lvl` each followed by an operand (see
/// [`bin_tail`]).
fn parse_bin_tail(toks: &Vec<(ScriptToken, usize)>, i: usize, lvl: usize, left: Expr) -> (r: Result<(Expr, usize), ScriptError>)
    requires
        i <= toks@.len(),
        lvl <= 5,
    ensures
        res_expr(r) == bin_tail(tokens_view(toks@), i as int, lvl as int, expr_view(left)),
        r matches Ok((_, j)) ==> i <= j <= toks@.len(),
    decreases toks@.len() - i, 20 - 2 * lvl,
{
    match op_of(toks, i, lvl) {
        None => Ok((left, i)),
        Some(op) => {
            let n = next_of(toks, i);
            let rhs = if lvl < 5 {
                parse_bin(toks, n, lvl + 1)
            } else {
                parse_unary(toks, n)
            };
            match rhs {
                Err(e) => Err(e),
                Ok((right, j)) => {
                    let e = Expr::Binary { left: Box::new(left), op, right: Box::new(right) };
                    parse_bin_tail(toks, j, lvl, e)
                },
            }
        },
    }
}

/// Parses `-e`, `!e` or a postfix expression (see [`unary_at`]).
fn parse_unary(toks: &Vec<(ScriptToken, usize)>, i: usize) -> (r: Result<(Expr, usize), ScriptError>)
    requires
        i <= toks@.len(),
    ensures
        res_expr(r) == unary_at(tokens_view(toks@), i as int),
        r matches Ok((_, j)) ==> i < j <= toks@.len(),
    decreases toks@.len() - i, 5int,
{
    let neg = is_punct(toks, i, ScriptPunct::Minus);
    if neg || is_punct(toks, i, ScriptPunct::Bang) {
        let op = if neg {
            UnaryOp::Neg
        } else {
            UnaryOp::Not
        };
        match parse_unary(toks, next_of(toks, i)) {
            Err(e) => Err(e),
            Ok((e, j)) => Ok((Expr::Unary { op, expr: Box::new(e) }, j)),
        }
    } else {
        match parse_primary(toks, i) {
            Err(e) => Err(e),
            Ok((e, j)) => postfix(toks, j, e),
        }
    }
}

/// After `e`, calls, `.key` and `[index]` (see [`postfix_tail`]).
fn postfix(toks: &Vec<(ScriptToken, usize)>, i: usize, e: Expr) -> (r: Result<(Expr, usize), ScriptError>)
    requires
        i <= toks@.len(),
    ensures
        res_expr(r) == postfix_tail(tokens_view(toks@), i as int, expr_view(e)),
        r matches Ok((_, j)) ==> i <= j <= toks@.len(),
    decreases toks@.len() - i, 4int,
{
    let ghost t = tokens_view(toks@);
    let ghost e0 = expr_view(e);
    if is_punct(toks, i, ScriptPunct::LParen) {
        let n = next_of(toks, i);
        match e {
            Expr::Ident(name) => {
                let args = if is_punct(toks, n, ScriptPunct::RParen) {
                    Ok((Vec::new(), n))
                } else {
                    parse_list(toks, n, Vec::new(), false)
                };
                proof {
                    assert(exprs_view(Seq::<Expr>::empty()) =~= Seq::<ExprSpec>::empty());
                }
                match args {
                    Err(er) => Err(er),
                    Ok((a, j)) => match expect_p(toks, j, ScriptPunct::RParen) {
                        Err(er) => Err(er),
                        Ok(k) => {
                            let c = Expr::Call { name, args: a };
                            proof {
                                if let ExprSpec::Call(_, s) = expr_view(c) {
                                    assert(s =~= exprs_view(a@));
                                }
                            }
                            assert(expr_view(c) == ExprSpec::Call(name@, exprs_view(a@)));
                            let r = postfix(toks, k, c);
                            assert(res_expr(r) == postfix_tail(t, i as int, e0));
                            r
                        },
                    },
                }
            },
            _ => {
                assert(!(expr_view(e) is Ident));
                Err(perr(line_of(toks, i), owned("can only call identifiers")))
            },
        }
    } else if is_punct(toks, i, ScriptPunct::Dot) {
        match expect_ident(toks, next_of(toks, i)) {
            Err(er) => Err(er),
            Ok((key, j)) => {
                let ghost kv = key@;
                let x = Expr::Index { base: Box::new(e), index: Box::new(Expr::String(key)), dot: true };
                assert(expr_view(Expr::String(key)) == ExprSpec::Str(kv));
                assert(expr_view(x) == ExprSpec::Index(Box::new(e0), Box::new(ExprSpec::Str(kv)), true));
                assert(ident_at(t, i + 1) == Ok::<(Seq<char>, int), (int, Seq<char>)>((kv, j as int)));
                assert(after(t, i as int, j as int));
                let r = postfix(toks, j, x);
                assert(res_expr(r) == postfix_tail(t, i as int, e0));
                r
            },
        }
    } else if is_punct(toks, i, ScriptPunct::LBracket) {
        match parse_expr(toks, next_of(toks, i)) {
            Err(er) => Err(er),
            Ok((idx, j)) => match expect_p(toks, j, ScriptPunct::RBracket) {
                Err(er) => Err(er),
                Ok(k) => {
                    let x = Expr::Index { base: Box::new(e), index: Box::new(idx), dot: false };
                    let r = postfix(toks, k, x);
                    assert(res_expr(r) == postfix_tail(t, i as int, e0));
                    r
                },
            },
        }
    } else {
        Ok((e, i))
    }
}

/// Comma-separated expressions (see [`list_at`]).
fn parse_list(toks: &Vec<(ScriptToken, usize)>, i: usize, acc: Vec<Expr>, trailing: bool) -> (r: Result<
    (Vec<Expr>, usize),
    ScriptError,
>)
    requires
        i <= toks@.len(),
    ensures
        res_list(r) == list_at(tokens_view(toks@), i as int, exprs_view(acc@), trailing),
        r matches Ok((_, j)) ==> i < j <= toks@.len(),
    decreases toks@.len() - i, 31int,
{
    match parse_expr(toks, i) {
        Err(e) => Err(e),
        Ok((a, j)) => {
            let mut acc2 = acc;
            let ghost before = exprs_view(acc2@);
            let ghost av = expr_view(a);
            acc2.push(a);
            assert(exprs_view(acc2@) =~= before.push(av));
            if is_punct(toks, j, ScriptPunct::Comma) {
                let j2 = next_of(toks, j);
                if trailing && is_punct(toks, j2, ScriptPunct::RBracket) {
                    Ok((acc2, j2))
                } else {
                    parse_list(toks, j2, acc2, trailing)
                }
            } else {
                Ok((acc2, j))
            }
        },
    }
}

/// `key: value` pairs of an object literal (see [`pairs_at`]).
fn parse_pairs(toks: &Vec<(ScriptToken, usize)>, i: usize, acc: Vec<(String, Expr)>) -> (r: Result<
    (Vec<(String, Expr)>, usize),
    ScriptError,
>)
    requires
        i <= toks@.len(),
    ensures
        res_pairs(r) == pairs_at(tokens_view(toks@), i as int, pairs_view(acc@)),
        r matches Ok((_, j)) ==> i < j <= toks@.len(),
    decreases toks@.len() - i, 31int,
{
    let n = next_of(toks, i);
    let mut key: Option<String> = None;
    if i < toks.len() {
        match &toks[i].0 {
            ScriptToken::Ident(s) => {
                key = Some(owned(s.as_str()));
            },
            ScriptToken::Str(s) => {
                key = Some(owned(s.as_str()));
            },
            _ => {},
        }
    }
    match key {
        None => {
            let msg = with_tok_text("object key expected, got ", toks, i);
            Err(perr(line_of(toks, n), msg))
        },
        Some(k) => match expect_p(toks, n, ScriptPunct::Colon) {
            Err(e) => Err(e),
            Ok(m) => match parse_expr(toks, m) {
                Err(e) => Err(e),
                Ok((v, j)) => {
                    let mut acc2 = acc;
                    let ghost before = pairs_view(acc2@);
                    let ghost item = (k@, expr_view(v));
                    acc2.push((k, v));
                    assert(pairs_view(acc2@) =~= before.push(item));
                    if is_punct(toks, j, ScriptPunct::Comma) {
                        let j2 = next_of(toks, j);
                        if is_punct(toks, j2, ScriptPunct::RBrace) {
                            Ok((acc2, j2))
                        } else {
                            parse_pairs(toks, j2, acc2)
                        }
                    } else {
                        Ok((acc2, j))
                    }
                },
            },
        },
    }
}

/// Parses a literal, a name, `( e )`, an array or an object (see
/// [`primary_at`]).
fn parse_primary(toks: &Vec<(ScriptToken, usize)>, i: usize) -> (r: Result<(Expr, usize), ScriptError>)
    requires
        i <= toks@.len(),
    ensures
        res_expr(r) == primary_at(tokens_view(toks@), i as int),
        r matches Ok((_, j)) ==> i < j <= toks@.len(),
    decreases toks@.len() - i, 3int,
{
    let n = next_of(toks, i);
    if i >= toks.len() {
        let msg = with_tok_text("unexpected token in expression: ", toks, i);
        return Err(perr(line_of(toks, n), msg));
    }
    proof {
        reveal_strlit("true");
        reveal_strlit("false");
        reveal_strlit("null");
        reveal_strlit("undefined");
    }
    match &toks[i].0 {
        ScriptToken::Number(s) => Ok((Expr::Number(owned(s.as_str())), n)),
        ScriptToken::Str(s) => Ok((Expr::String(owned(s.as_str())), n)),
        ScriptToken::Ident(s) => {
            let e = if str_eq(s.as_str(), "true") {
                Expr::Bool(true)
            } else if str_eq(s.as_str(), "false") {
                Expr::Bool(false)
            } else if str_eq(s.as_str(), "null") || str_eq(s.as_str(), "undefined") {
                Expr::Null
            } else {
                Expr::Ident(owned(s.as_str()))
            };
            Ok((e, n))
        },
        ScriptToken::Punct(ScriptPunct::LParen) => match parse_expr(toks, n) {
            Err(e) => Err(e),
            Ok((e, j)) => match expect_p(toks, j, ScriptPunct::RParen) {
                Err(er) => Err(er),
                Ok(k) => Ok((e, k)),
            },
        },
        ScriptToken::Punct(ScriptPunct::LBracket) => {
            let items = if is_punct(toks, n, ScriptPunct::RBracket) {
                Ok((Vec::new(), n))
            } else {
                parse_list(toks, n, Vec::new(), true)
            };
            proof {
                assert(exprs_view(Seq::<Expr>::empty()) =~= Seq::<ExprSpec>::empty());
            }
            match items {
                Err(e) => Err(e),
                Ok((v, j)) => match expect_p(toks, j, ScriptPunct::RBracket) {
                    Err(er) => Err(er),
                    Ok(k) => {
                        let a = Expr::Array(v);
                        proof {
                            if let ExprSpec::Array(s) = expr_view(a) {
                                assert(s =~= exprs_view(v@));
                            }
                        }
                        assert(expr_view(a) == ExprSpec::Array(exprs_view(v@)));
                        Ok((a, k))
                    },
                },
            }
        },
        ScriptToken::Punct(ScriptPunct::LBrace) => {
            let ps = if is_punct(toks, n, ScriptPunct::RBrace) {
                Ok((Vec::new(), n))
            } else {
                parse_pairs(toks, n, Vec::new())
            };
            proof {
                assert(pairs_view(Seq::<(String, Expr)>::empty()) =~= Seq::<(Seq<char>, ExprSpec)>::empty());
            }
            match ps {
                Err(e) => Err(e),
                Ok((v, j)) => match expect_p(toks, j, ScriptPunct::RBrace) {
                    Err(er) => Err(er),
                    Ok(k) => {
                        let o = Expr::Object(v);
                        proof {
                            if let ExprSpec::Object(s) = expr_view(o) {
                                assert(s =~= pairs_view(v@));
                            }
                        }
                        assert(expr_view(o) == ExprSpec::Object(pairs_view(v@)));
                        Ok((o, k))
                    },
                },
            }
        },
        _ => {
            let msg = with_tok_text("unexpected token in expression: ", toks, i);
            Err(perr(line_of(toks, n), msg))
        },
    }
}

/// Statement.
#[derive(Debug)]
pub enum Stmt {
    /// `let x = expr;`
    Let {
        /// Name.
        name: String,
        /// Initial value.
        value: Expr,
    },
    /// `x = expr;`
    Assign {
        /// Name.
        name: String,
        /// Value.
        value: Expr,
    },
    /// Expression statement.
    Expr(Expr),
    /// `for (let i = a; cond; update) { … }`
    For {
        /// Loop variable.
        var: String,
        /// Initial value.
        init: Expr,
        /// Condition.
        cond: Expr,
        /// Update (`i++` reads as `i = i + 1`).
        update: Box<Stmt>,
        /// Body.
        body: Vec<Stmt>,
    },
    /// `if (cond) { … } else { … }`
    If {
        /// Condition.
        cond: Expr,
        /// Then branch.
        then_body: Vec<Stmt>,
        /// Else branch (an `else if` is one nested `if`).
        else_body: Vec<Stmt>,
    },
    /// `return expr;`
    Return(Option<Expr>),
}

/// A statement as plain values.
pub enum StmtSpec {
    /// Let.
    Let(Seq<char>, ExprSpec),
    /// Assignment.
    Assign(Seq<char>, ExprSpec),
    /// Expression.
    Expr(ExprSpec),
    /// Loop variable, initial value, condition, update, body.
    For(Seq<char>, ExprSpec, ExprSpec, Box<StmtSpec>, Seq<StmtSpec>),
    /// Condition, then branch, else branch.
    If(ExprSpec, Seq<StmtSpec>, Seq<StmtSpec>),
    /// Return.
    Return(Option<ExprSpec>),
}

/// Plain values of a statement.
pub open spec fn stmt_view(s: Stmt) -> StmtSpec
    decreases s,
{
    match s {
        Stmt::Let { name, value } => StmtSpec::Let(name@, expr_view(value)),
        Stmt::Assign { name, value } => StmtSpec::Assign(name@, expr_view(value)),
        Stmt::Expr(e) => StmtSpec::Expr(expr_view(e)),
        Stmt::For { var, init, cond, update, body } => StmtSpec::For(
            var@,
            expr_view(init),
            expr_view(cond),
            Box::new(stmt_view(*update)),
            Seq::new(
                body@.len(),
                |k: int|
                    if 0 <= k < body@.len() {
                        stmt_view(body@[k])
                    } else {
                        StmtSpec::Return(None)
                    },
            ),
        ),
        Stmt::If { cond, then_body, else_body } => StmtSpec::If(
            expr_view(cond),
            Seq::new(
                then_body@.len(),
                |k: int|
                    if 0 <= k < then_body@.len() {
                        stmt_view(then_body@[k])
                    } else {
                        StmtSpec::Return(None)
                    },
            ),
            Seq::new(
                else_body@.len(),
                |k: int|
                    if 0 <= k < else_body@.len() {
                        stmt_view(else_body@[k])
                    } else {
                        StmtSpec::Return(None)
                    },
            ),
        ),
        Stmt::Return(e) => StmtSpec::Return(
            match e {
                Some(x) => Some(expr_view(x)),
                None => None,
            },
        ),
    }
}

/// Plain values of statements.
pub open spec fn stmts_view(v: Seq<Stmt>) -> Seq<StmtSpec> {
    Seq::new(v.len(), |k: int| stmt_view(v[k]))
}

/// The position after an optional `;` at `j`.
pub open spec fn eat_semi(t: Seq<(TokenSpec, int)>, j: int) -> int {
    if peek(t, j) == TokenSpec::Punct(ScriptPunct::Semi) {
        next_pos(t, j)
    } else {
        j
    }
}

/// A statement ending with an optional `;`.
pub open spec fn with_semi(
    t: Seq<(TokenSpec, int)>,
    r: Result<(ExprSpec, int), (int, Seq<char>)>,
    make: spec_fn(ExprSpec) -> StmtSpec,
) -> Result<(StmtSpec, int), (int, Seq<char>)> {
    match r {
        Err(e) => Err(e),
        Ok((e, c)) => Ok((make(e), eat_semi(t, c))),
    }
}

/// Parsing a statement at `i`.
pub open spec fn stmt_at(t: Seq<(TokenSpec, int)>, i: int) -> Result<(StmtSpec, int), (int, Seq<char>)>
    decreases t.len() - i, 40int,
{
    let tok = peek(t, i);
    let n = next_pos(t, i);
    if i < 0 {
        Err((0, seq![]))
    } else if tok == TokenSpec::Ident("let"@) {
        match ident_at(t, n) {
            Err(e) => Err(e),
            Ok((name, a)) => match expect_at(t, a, ScriptPunct::Assign) {
                Err(e) => Err(e),
                Ok(b) => if b < i {
                    Err((0, seq![]))
                } else {
                    with_semi(t, expr_at(t, b), |v: ExprSpec| StmtSpec::Let(name, v))
                },
            },
        }
    } else if tok == TokenSpec::Ident("for"@) {
        for_at(t, i)
    } else if tok == TokenSpec::Ident("if"@) {
        if_at(t, i)
    } else if tok == TokenSpec::Ident("return"@) {
        if peek(t, n) == TokenSpec::Punct(ScriptPunct::Semi) || peek(t, n) == TokenSpec::Punct(
            ScriptPunct::RBrace,
        ) {
            Ok((StmtSpec::Return(None), eat_semi(t, n)))
        } else if n < i {
            Err((0, seq![]))
        } else {
            with_semi(t, expr_at(t, n), |v: ExprSpec| StmtSpec::Return(Some(v)))
        }
    } else {
        match tok {
            TokenSpec::Ident(name) => if peek(t, n) == TokenSpec::Punct(ScriptPunct::Assign) {
                let m = next_pos(t, n);
                if m < i {
                    Err((0, seq![]))
                } else {
                    with_semi(t, expr_at(t, m), |v: ExprSpec| StmtSpec::Assign(name, v))
                }
            } else {
                with_semi(t, expr_at(t, i), |v: ExprSpec| StmtSpec::Expr(v))
            },
            _ => with_semi(t, expr_at(t, i), |v: ExprSpec| StmtSpec::Expr(v)),
        }
    }
}

/// Parsing `for (…; …; …) { … }` at `i`.
pub open spec fn for_at(t: Seq<(TokenSpec, int)>, i: int) -> Result<(StmtSpec, int), (int, Seq<char>)>
    decreases t.len() - i, 39int,
{
    let n = next_pos(t, i);
    if i < 0 {
        Err((0, seq![]))
    } else {
        match expect_at(t, n, ScriptPunct::LParen) {
            Err(e) => Err(e),
            Ok(a) => {
                let a2 = if peek(t, a) == TokenSpec::Ident("let"@) {
                    next_pos(t, a)
                } else {
                    a
                };
                match ident_at(t, a2) {
                    Err(e) => Err(e),
                    Ok((var, b)) => match expect_at(t, b, ScriptPunct::Assign) {
                        Err(e) => Err(e),
                        Ok(c) => if c < i {
                            Err((0, seq![]))
                        } else {
                            match expr_at(t, c) {
                                Err(e) => Err(e),
                                Ok((init, d)) => if !after(t, i, d) {
                                    Err((0, seq![]))
                                } else {
                                    match expect_at(t, d, ScriptPunct::Semi) {
                                        Err(e) => Err(e),
                                        Ok(e1) => match expr_at(t, e1) {
                                            Err(e) => Err(e),
                                            Ok((cond, f)) => if !after(t, i, f) {
                                                Err((0, seq![]))
                                            } else {
                                                match expect_at(t, f, ScriptPunct::Semi) {
                                                    Err(e) => Err(e),
                                                    Ok(g) => match update_at(t, g) {
                                                        Err(e) => Err(e),
                                                        Ok((u, k)) => if !after(t, i, k) {
                                                            Err((0, seq![]))
                                                        } else {
                                                            match expect_at(t, k, ScriptPunct::RParen) {
                                                                Err(e) => Err(e),
                                                                Ok(m) => match block_at(t, m) {
                                                                    Err(e) => Err(e),
                                                                    Ok((body, p)) => Ok(
                                                                        (
                                                                            StmtSpec::For(
                                                                                var,
                                                                                init,
                                                                                cond,
                                                                                Box::new(u),
                                                                                body,
                                                                            ),
                                                                            p,
                                                                        ),
                                                                    ),
                                                                },
                                                            }
                                                        },
                                                    },
                                                }
                                            },
                                        },
                                    }
                                },
                            }
                        },
                    },
                }
            },
        }
    }
}

/// The update of a `for`: `i++` (as `i = i + 1`) or `i = expr`.
pub open spec fn update_at(t: Seq<(TokenSpec, int)>, g: int) -> Result<(StmtSpec, int), (int, Seq<char>)>
    decreases t.len() - g, 38int,
{
    match ident_at(t, g) {
        Err(e) => Err(e),
        Ok((un, h)) => if peek(t, h) == TokenSpec::Punct(ScriptPunct::Plus) {
            let h2 = next_pos(t, h);
            let h3 = if peek(t, h2) == TokenSpec::Punct(ScriptPunct::Plus) {
                next_pos(t, h2)
            } else {
                h2
            };
            Ok(
                (
                    StmtSpec::Assign(
                        un,
                        ExprSpec::Binary(
                            Box::new(ExprSpec::Ident(un)),
                            BinOp::Add,
                            Box::new(ExprSpec::Number("1"@)),
                        ),
                    ),
                    h3,
                ),
            )
        } else {
            match expect_at(t, h, ScriptPunct::Assign) {
                Err(e) => Err(e),
                Ok(h2) => if h2 < g {
                    Err((0, seq![]))
                } else {
                    match expr_at(t, h2) {
                        Err(e) => Err(e),
                        Ok((v, h3)) => Ok((StmtSpec::Assign(un, v), h3)),
                    }
                },
            }
        },
    }
}

/// Parsing `if (cond) { … }` with an optional `else { … }` or `else if`.
pub open spec fn if_at(t: Seq<(TokenSpec, int)>, i: int) -> Result<(StmtSpec, int), (int, Seq<char>)>
    decreases t.len() - i, 39int,
{
    let n = next_pos(t, i);
    if i < 0 {
        Err((0, seq![]))
    } else {
        match expect_at(t, n, ScriptPunct::LParen) {
            Err(e) => Err(e),
            Ok(a) => if a < i {
                Err((0, seq![]))
            } else {
                match expr_at(t, a) {
                    Err(e) => Err(e),
                    Ok((c, b)) => if !after(t, i, b) {
                        Err((0, seq![]))
                    } else {
                        match expect_at(t, b, ScriptPunct::RParen) {
                            Err(e) => Err(e),
                            Ok(d) => match block_at(t, d) {
                                Err(e) => Err(e),
                                Ok((tb, e1)) => if !after(t, i, e1) {
                                    Err((0, seq![]))
                                } else if peek(t, e1) == TokenSpec::Ident("else"@) {
                                    let f = next_pos(t, e1);
                                    if peek(t, f) == TokenSpec::Ident("if"@) {
                                        match if_at(t, f) {
                                            Err(e) => Err(e),
                                            Ok((s, g)) => Ok((StmtSpec::If(c, tb, seq![s]), g)),
                                        }
                                    } else {
                                        match block_at(t, f) {
                                            Err(e) => Err(e),
                                            Ok((eb, g)) => Ok((StmtSpec::If(c, tb, eb), g)),
                                        }
                                    }
                                } else {
                                    Ok((StmtSpec::If(c, tb, seq![]), e1))
                                },
                            },
                        }
                    },
                }
            },
        }
    }
}

/// Parsing `{ statements }` at `i`.
pub open spec fn block_at(t: Seq<(TokenSpec, int)>, i: int) -> Result<(Seq<StmtSpec>, int), (int, Seq<char>)>
    decreases t.len() - i, 37int,
{
    match expect_at(t, i, ScriptPunct::LBrace) {
        Err(e) => Err(e),
        Ok(a) => if !after(t, i, a) {
            Err((0, seq![]))
        } else {
            match items_at(t, a, seq![]) {
                Err(e) => Err(e),
                Ok((body, b)) => match expect_at(t, b, ScriptPunct::RBrace) {
                    Err(e) => Err(e),
                    Ok(c) => Ok((body, c)),
                },
            }
        },
    }
}

/// Statements from `i` up to a `}` or the end, after `acc`.
pub open spec fn items_at(t: Seq<(TokenSpec, int)>, i: int, acc: Seq<StmtSpec>) -> Result<
    (Seq<StmtSpec>, int),
    (int, Seq<char>),
>
    decreases t.len() - i, 41int,
{
    if peek(t, i) == TokenSpec::Punct(ScriptPunct::RBrace) || peek(t, i) == TokenSpec::Eof {
        Ok((acc, i))
    } else {
        match stmt_at(t, i) {
            Err(e) => Err(e),
            Ok((s, j)) => if after(t, i, j) {
                items_at(t, j, acc.push(s))
            } else {
                Err((0, seq![]))
            },
        }
    }
}

/// Plain values of a statement parse result.
pub open spec fn res_stmt(r: Result<(Stmt, usize), ScriptError>) -> Result<(StmtSpec, int), (int, Seq<char>)> {
    match r {
        Ok((s, j)) => Ok((stmt_view(s), j as int)),
        Err(e) => Err(err_v(e)),
    }
}

/// Plain values of a statements parse result.
pub open spec fn res_stmts(r: Result<(Vec<Stmt>, usize), ScriptError>) -> Result<(Seq<StmtSpec>, int), (int, Seq<char>)> {
    match r {
        Ok((v, j)) => Ok((stmts_view(v@), j as int)),
        Err(e) => Err(err_v(e)),
    }
}

/// The position after an optional `;` (see [`eat_semi`]).
fn skip_semi(toks: &Vec<(ScriptToken, usize)>, j: usize) -> (k: usize)
    ensures
        k as int == eat_semi(tokens_view(toks@), j as int),
{
    if is_punct(toks, j, ScriptPunct::Semi) {
        next_of(toks, j)
    } else {
        j
    }
}

/// Parses a statement at `i` (see [`stmt_at`]).
fn parse_stmt(toks: &Vec<(ScriptToken, usize)>, i: usize) -> (r: Result<(Stmt, usize), ScriptError>)
    requires
        i <= toks@.len(),
    ensures
        res_stmt(r) == stmt_at(tokens_view(toks@), i as int),
        r matches Ok((_, j)) ==> i < j <= toks@.len(),
    decreases toks@.len() - i, 40int,
{
    let ghost t = tokens_view(toks@);
    proof {
        reveal_strlit("let");
        reveal_strlit("for");
        reveal_strlit("if");
        reveal_strlit("return");
    }
    let n = next_of(toks, i);
    if is_word(toks, i, "let") {
        match expect_ident(toks, n) {
            Err(e) => Err(e),
            Ok((name, a)) => match expect_p(toks, a, ScriptPunct::Assign) {
                Err(e) => Err(e),
                Ok(b) => match parse_expr(toks, b) {
                    Err(e) => Err(e),
                    Ok((v, c)) => Ok((Stmt::Let { name, value: v }, skip_semi(toks, c))),
                },
            },
        }
    } else if is_word(toks, i, "for") {
        parse_for(toks, i)
    } else if is_word(toks, i, "if") {
        parse_if(toks, i)
    } else if is_word(toks, i, "return") {
        if is_punct(toks, n, ScriptPunct::Semi) || is_punct(toks, n, ScriptPunct::RBrace) {
            Ok((Stmt::Return(None), skip_semi(toks, n)))
        } else {
            match parse_expr(toks, n) {
                Err(e) => Err(e),
                Ok((v, c)) => Ok((Stmt::Return(Some(v)), skip_semi(toks, c))),
            }
        }
    } else {
        let mut name: Option<String> = None;
        if i < toks.len() {
            match &toks[i].0 {
                ScriptToken::Ident(s) => {
                    name = Some(owned(s.as_str()));
                },
                _ => {},
            }
        }
        match name {
            Some(nm) => {
                if is_punct(toks, n, ScriptPunct::Assign) {
                    let m = next_of(toks, n);
                    match parse_expr(toks, m) {
                        Err(e) => Err(e),
                        Ok((v, c)) => Ok((Stmt::Assign { name: nm, value: v }, skip_semi(toks, c))),
                    }
                } else {
                    match parse_expr(toks, i) {
                        Err(e) => Err(e),
                        Ok((v, c)) => Ok((Stmt::Expr(v), skip_semi(toks, c))),
                    }
                }
            },
            None => match parse_expr(toks, i) {
                Err(e) => Err(e),
                Ok((v, c)) => Ok((Stmt::Expr(v), skip_semi(toks, c))),
            },
        }
    }
}

/// Parses the update of a `for` (see [`update_at`]).
fn parse_update(toks: &Vec<(ScriptToken, usize)>, g: usize) -> (r: Result<(Stmt, usize), ScriptError>)
    requires
        g <= toks@.len(),
    ensures
        res_stmt(r) == update_at(tokens_view(toks@), g as int),
        r matches Ok((_, j)) ==> g < j <= toks@.len(),
    decreases toks@.len() - g, 38int,
{
    proof {
        reveal_strlit("1");
    }
    match expect_ident(toks, g) {
        Err(e) => Err(e),
        Ok((un, h)) => if is_punct(toks, h, ScriptPunct::Plus) {
            let h2 = next_of(toks, h);
            let h3 = if is_punct(toks, h2, ScriptPunct::Plus) {
                next_of(toks, h2)
            } else {
                h2
            };
            let ident = Expr::Ident(owned(un.as_str()));
            let one = Expr::Number(owned("1"));
            let ghost uv = un@;
            assert(expr_view(ident) == ExprSpec::Ident(uv));
            assert(expr_view(one) == ExprSpec::Number("1"@));
            let value = Expr::Binary { left: Box::new(ident), op: BinOp::Add, right: Box::new(one) };
            assert(expr_view(value) == ExprSpec::Binary(
                Box::new(ExprSpec::Ident(uv)),
                BinOp::Add,
                Box::new(ExprSpec::Number("1"@)),
            ));
            let s = Stmt::Assign { name: un, value };
            Ok((s, h3))
        } else {
            match expect_p(toks, h, ScriptPunct::Assign) {
                Err(e) => Err(e),
                Ok(h2) => match parse_expr(toks, h2) {
                    Err(e) => Err(e),
                    Ok((v, h3)) => Ok((Stmt::Assign { name: un, value: v }, h3)),
                },
            }
        },
    }
}

/// Parses `for (…; …; …) { … }` at `i` (see [`for_at`]).
fn parse_for(toks: &Vec<(ScriptToken, usize)>, i: usize) -> (r: Result<(Stmt, usize), ScriptError>)
    requires
        i <= toks@.len(),
        peek(tokens_view(toks@), i as int) == TokenSpec::Ident("for"@),
    ensures
        res_stmt(r) == for_at(tokens_view(toks@), i as int),
        r matches Ok((_, j)) ==> i < j <= toks@.len(),
    decreases toks@.len() - i, 39int,
{
    proof {
        reveal_strlit("let");
    }
    let n = next_of(toks, i);
    let a = match expect_p(toks, n, ScriptPunct::LParen) {
        Err(e) => {
            return Err(e);
        },
        Ok(a) => a,
    };
    let a2 = if is_word(toks, a, "let") {
        next_of(toks, a)
    } else {
        a
    };
    let (var, b) = match expect_ident(toks, a2) {
        Err(e) => {
            return Err(e);
        },
        Ok(x) => x,
    };
    let c = match expect_p(toks, b, ScriptPunct::Assign) {
        Err(e) => {
            return Err(e);
        },
        Ok(c) => c,
    };
    let (init, d) = match parse_expr(toks, c) {
        Err(e) => {
            return Err(e);
        },
        Ok(x) => x,
    };
    let e1 = match expect_p(toks, d, ScriptPunct::Semi) {
        Err(e) => {
            return Err(e);
        },
        Ok(e1) => e1,
    };
    let (cond, f) = match parse_expr(toks, e1) {
        Err(e) => {
            return Err(e);
        },
        Ok(x) => x,
    };
    let g = match expect_p(toks, f, ScriptPunct::Semi) {
        Err(e) => {
            return Err(e);
        },
        Ok(g) => g,
    };
    let (u, k) = match parse_update(toks, g) {
        Err(e) => {
            return Err(e);
        },
        Ok(x) => x,
    };
    let m = match expect_p(toks, k, ScriptPunct::RParen) {
        Err(e) => {
            return Err(e);
        },
        Ok(m) => m,
    };
    match parse_block(toks, m) {
        Err(e) => Err(e),
        Ok((body, p)) => {
            let s = Stmt::For { var, init, cond, update: Box::new(u), body };
            proof {
                if let StmtSpec::For(_, _, _, _, bs) = stmt_view(s) {
                    assert(bs =~= stmts_view(body@));
                }
            }
            Ok((s, p))
        },
    }
}

/// Parses an `if` at `i` (see [`if_at`]).
fn parse_if(toks: &Vec<(ScriptToken, usize)>, i: usize) -> (r: Result<(Stmt, usize), ScriptError>)
    requires
        i <= toks@.len(),
        peek(tokens_view(toks@), i as int) == TokenSpec::Ident("if"@),
    ensures
        res_stmt(r) == if_at(tokens_view(toks@), i as int),
        r matches Ok((_, j)) ==> i < j <= toks@.len(),
    decreases toks@.len() - i, 39int,
{
    proof {
        reveal_strlit("else");
        reveal_strlit("if");
    }
    let n = next_of(toks, i);
    let a = match expect_p(toks, n, ScriptPunct::LParen) {
        Err(e) => {
            return Err(e);
        },
        Ok(a) => a,
    };
    let (c, b) = match parse_expr(toks, a) {
        Err(e) => {
            return Err(e);
        },
        Ok(x) => x,
    };
    let d = match expect_p(toks, b, ScriptPunct::RParen) {
        Err(e) => {
            return Err(e);
        },
        Ok(d) => d,
    };
    let (tb, e1) = match parse_block(toks, d) {
        Err(e) => {
            return Err(e);
        },
        Ok(x) => x,
    };
    let ghost tbv = stmts_view(tb@);
    let (eb, g) = if is_word(toks, e1, "else") {
        let f = next_of(toks, e1);
        if is_word(toks, f, "if") {
            match parse_if(toks, f) {
                Err(e) => {
                    return Err(e);
                },
                Ok((s, g)) => {
                    let ghost sv = stmt_view(s);
                    let mut v: Vec<Stmt> = Vec::new();
                    v.push(s);
                    assert(stmts_view(v@) =~= seq![sv]);
                    (v, g)
                },
            }
        } else {
            match parse_block(toks, f) {
                Err(e) => {
                    return Err(e);
                },
                Ok(x) => x,
            }
        }
    } else {
        let v: Vec<Stmt> = Vec::new();
        assert(stmts_view(v@) =~= Seq::<StmtSpec>::empty());
        (v, e1)
    };
    let ghost ebv = stmts_view(eb@);
    let s = Stmt::If { cond: c, then_body: tb, else_body: eb };
    proof {
        if let StmtSpec::If(_, x, y) = stmt_view(s) {
            assert(x =~= tbv);
            assert(y =~= ebv);
        }
    }
    Ok((s, g))
}

/// Parses `{ statements }` at `i` (see [`block_at`]).
fn parse_block(toks: &Vec<(ScriptToken, usize)>, i: usize) -> (r: Result<(Vec<Stmt>, usize), ScriptError>)
    requires
        i <= toks@.len(),
    ensures
        res_stmts(r) == block_at(tokens_view(toks@), i as int),
        r matches Ok((_, j)) ==> i < j <= toks@.len(),
    decreases toks@.len() - i, 37int,
{
    match expect_p(toks, i, ScriptPunct::LBrace) {
        Err(e) => Err(e),
        Ok(a) => {
            assert(stmts_view(Seq::<Stmt>::empty()) =~= Seq::<StmtSpec>::empty());
            match parse_items(toks, a, Vec::new()) {
                Err(e) => Err(e),
                Ok((body, b)) => match expect_p(toks, b, ScriptPunct::RBrace) {
                    Err(e) => Err(e),
                    Ok(c) => Ok((body, c)),
                },
            }
        },
    }
}

/// Statements up to a `}` or the end (see [`items_at`]).
fn parse_items(toks: &Vec<(ScriptToken, usize)>, i: usize, acc: Vec<Stmt>) -> (r: Result<(Vec<Stmt>, usize), ScriptError>)
    requires
        i <= toks@.len(),
    ensures
        res_stmts(r) == items_at(tokens_view(toks@), i as int, stmts_view(acc@)),
        r matches Ok((_, j)) ==> i <= j <= toks@.len(),
    decreases toks@.len() - i, 41int,
{
    let at_end = i >= toks.len() || match &toks[i].0 {
        ScriptToken::Eof => true,
        ScriptToken::Punct(ScriptPunct::RBrace) => true,
        _ => false,
    };
    if at_end {
        Ok((acc, i))
    } else {
        match parse_stmt(toks, i) {
            Err(e) => Err(e),
            Ok((s, j)) => {
                let mut acc2 = acc;
                let ghost before = stmts_view(acc2@);
                let ghost sv = stmt_view(s);
                acc2.push(s);
                assert(stmts_view(acc2@) =~= before.push(sv));
                parse_items(toks, j, acc2)
            },
        }
    }
}

/// Function definition.
#[derive(Debug)]
pub struct Function {
    /// Parameter names.
    pub params: Vec<String>,
    /// Body.
    pub body: Vec<Stmt>,
}

/// A parsed script: top-level `let`s and functions (later ones with the
/// same name replace earlier ones in place) and `on(…)` registrations.
#[derive(Debug)]
pub struct ScriptModule {
    /// Top-level `let` initializers.
    pub globals: Vec<(String, Expr)>,
    /// Named functions.
    pub functions: Vec<(String, Function)>,
    /// `on(event, fn)` registrations, in order.
    pub handlers: Vec<EventHandler>,
}

/// A script as plain values.
#[verifier::ext_equal]
pub struct ModuleSpec {
    /// Globals.
    pub globals: Seq<(Seq<char>, ExprSpec)>,
    /// Functions: name, parameters, body.
    pub functions: Seq<(Seq<char>, (Seq<Seq<char>>, Seq<StmtSpec>))>,
    /// Handlers: event, function name.
    pub handlers: Seq<(Seq<char>, Seq<char>)>,
}

/// Plain values of a script.
pub open spec fn module_view(m: ScriptModule) -> ModuleSpec {
    ModuleSpec {
        globals: pairs_view(m.globals@),
        functions: Seq::new(m.functions@.len(), |k: int| (m.functions@[k].0@, fn_view(m.functions@[k].1))),
        handlers: Seq::new(m.handlers@.len(), |k: int| (m.handlers@[k].event@, m.handlers@[k].fn_name@)),
    }
}

/// Inserting into a name-keyed list: a present name keeps its place and
/// takes the new value; a new name goes last.
#[verifier::opaque]
pub open spec fn put_entry<V>(es: Seq<(Seq<char>, V)>, k: Seq<char>, v: V) -> Seq<(Seq<char>, V)> {
    let j = key_pos(Seq::new(es.len(), |x: int| es[x].0), k);
    if j >= 0 {
        es.update(j, (k, v))
    } else {
        es.push((k, v))
    }
}

/// Event name with `.` and `-` turned into `_`.
pub open spec fn underscored(s: Seq<char>) -> Seq<char> {
    Seq::new(s.len(), |k: int| if s[k] == '.' || s[k] == '-' { '_' } else { s[k] })
}

/// Parameter names from `i`, comma-separated, after `acc`.
pub open spec fn params_at(t: Seq<(TokenSpec, int)>, i: int, acc: Seq<Seq<char>>) -> Result<
    (Seq<Seq<char>>, int),
    (int, Seq<char>),
>
    decreases t.len() - i,
{
    match ident_at(t, i) {
        Err(e) => Err(e),
        Ok((p, j)) => if peek(t, j) == TokenSpec::Punct(ScriptPunct::Comma) && after(t, i, next_pos(t, j)) {
            params_at(t, next_pos(t, j), acc.push(p))
        } else if peek(t, j) == TokenSpec::Punct(ScriptPunct::Comma) {
            Err((0, seq![]))
        } else {
            Ok((acc.push(p), j))
        },
    }
}

/// A parameter list up to `)`.
pub open spec fn fn_params(t: Seq<(TokenSpec, int)>, i: int) -> Result<(Seq<Seq<char>>, int), (int, Seq<char>)> {
    if peek(t, i) == TokenSpec::Punct(ScriptPunct::RParen) {
        Ok((seq![], i))
    } else {
        params_at(t, i, seq![])
    }
}

/// `name(params) { body }` after `fn`: parameters, body, position after.
#[verifier::opaque]
pub open spec fn fn_rest(t: Seq<(TokenSpec, int)>, b: int) -> Result<
    ((Seq<Seq<char>>, Seq<StmtSpec>), int),
    (int, Seq<char>),
> {
    match expect_at(t, b, ScriptPunct::LParen) {
        Err(e) => Err(e),
        Ok(c) => match fn_params(t, c) {
            Err(e) => Err(e),
            Ok((ps, d)) => match expect_at(t, d, ScriptPunct::RParen) {
                Err(e) => Err(e),
                Ok(e1) => match block_at(t, e1) {
                    Err(e) => Err(e),
                    Ok((body, f)) => Ok(((ps, body), f)),
                },
            },
        },
    }
}

/// A top-level `let name = expr;` at `i`, added to `m`.
#[verifier::opaque]
pub open spec fn let_item(t: Seq<(TokenSpec, int)>, i: int, m: ModuleSpec) -> Result<(ModuleSpec, int), (int, Seq<char>)> {
    match ident_at(t, next_pos(t, i)) {
        Err(e) => Err(e),
        Ok((name, a)) => match expect_at(t, a, ScriptPunct::Assign) {
            Err(e) => Err(e),
            Ok(b) => match expr_at(t, b) {
                Err(e) => Err(e),
                Ok((v, c)) => Ok((ModuleSpec { globals: put_entry(m.globals, name, v), ..m }, eat_semi(t, c))),
            },
        },
    }
}

/// A top-level `fn name(params) { body }` at `i`, added to `m`.
#[verifier::opaque]
pub open spec fn fn_item(t: Seq<(TokenSpec, int)>, i: int, m: ModuleSpec) -> Result<(ModuleSpec, int), (int, Seq<char>)> {
    match ident_at(t, next_pos(t, i)) {
        Err(e) => Err(e),
        Ok((name, a)) => match fn_rest(t, a) {
            Err(e) => Err(e),
            Ok((f, e1)) => Ok((ModuleSpec { functions: put_entry(m.functions, name, f), ..m }, e1)),
        },
    }
}

/// A top-level `on(event, handler)` at `i`, added to `m`; an inline
/// `fn` handler becomes the function `__on_<event>`.
#[verifier::opaque]
pub open spec fn on_item(t: Seq<(TokenSpec, int)>, i: int, m: ModuleSpec) -> Result<(ModuleSpec, int), (int, Seq<char>)> {
    match expect_at(t, next_pos(t, i), ScriptPunct::LParen) {
        Err(e) => Err(e),
        Ok(a) => {
            let b = next_pos(t, a);
            let event = match peek(t, a) {
                TokenSpec::Str(s) => Some(s),
                TokenSpec::Ident(s) => Some(s),
                _ => None,
            };
            match event {
                None => Err((line_at(t, b), "on() event must be string, got "@ + tok_text(peek(t, a)))),
                Some(ev) => match expect_at(t, b, ScriptPunct::Comma) {
                    Err(e) => Err(e),
                    Ok(c) => {
                        let handler: Result<(Seq<char>, int, ModuleSpec), (int, Seq<char>)> = match peek(t, c) {
                            TokenSpec::Ident(s) => if s != "fn"@ && s != "function"@ {
                                Ok((s, next_pos(t, c), m))
                            } else {
                                let inline = "__on_"@ + underscored(ev);
                                match fn_rest(t, next_pos(t, c)) {
                                    Err(e) => Err(e),
                                    Ok((f, k)) => Ok(
                                        (inline, k, ModuleSpec { functions: put_entry(m.functions, inline, f), ..m }),
                                    ),
                                }
                            },
                            other => Err((line_at(t, c), "on() handler must be fn name, got "@ + tok_text(other))),
                        };
                        match handler {
                            Err(e) => Err(e),
                            Ok((fname, d, m2)) => match expect_at(t, d, ScriptPunct::RParen) {
                                Err(e) => Err(e),
                                Ok(e1) => Ok(
                                    (ModuleSpec { handlers: m2.handlers.push((ev, fname)), ..m2 }, eat_semi(t, e1)),
                                ),
                            },
                        }
                    },
                },
            }
        },
    }
}

/// Parsing top-level items from `i` into `m`.
pub open spec fn module_at(t: Seq<(TokenSpec, int)>, i: int, m: ModuleSpec) -> Result<ModuleSpec, (int, Seq<char>)>
    decreases t.len() - i,
{
    let tok = peek(t, i);
    let n = next_pos(t, i);
    if tok == TokenSpec::Eof {
        Ok(m)
    } else if tok == TokenSpec::Ident("let"@) || tok == TokenSpec::Ident("fn"@) || tok == TokenSpec::Ident(
        "function"@,
    ) || tok == TokenSpec::Ident("on"@) {
        let r = if tok == TokenSpec::Ident("let"@) {
            let_item(t, i, m)
        } else if tok == TokenSpec::Ident("on"@) {
            on_item(t, i, m)
        } else {
            fn_item(t, i, m)
        };
        match r {
            Err(e) => Err(e),
            Ok((m2, j)) => if after(t, i, j) {
                module_at(t, j, m2)
            } else {
                Err((0, seq![]))
            },
        }
    } else if tok == TokenSpec::Punct(ScriptPunct::Semi) {
        if after(t, i, n) {
            module_at(t, n, m)
        } else {
            Err((0, seq![]))
        }
    } else {
        Err((line_at(t, i), "expected let/fn/on at top level, got "@ + tok_text(tok)))
    }
}

/// The script parsed from its tokens.
pub open spec fn script_module(toks: Seq<(TokenSpec, int)>) -> Result<ModuleSpec, (int, Seq<char>)> {
    module_at(toks, 0, ModuleSpec { globals: seq![], functions: seq![], handlers: seq![] })
}

/// The script parsed from its text: the lexer's error, or the parse of
/// its tokens.
pub open spec fn script_of(src: Seq<u8>) -> Result<ModuleSpec, (int, Seq<char>)> {
    match script_tokens(src) {
        Err(e) => Err(e),
        Ok(ts) => script_module(ts),
    }
}

/// Plain values of a function.
pub open spec fn fn_view(f: Function) -> (Seq<Seq<char>>, Seq<StmtSpec>) {
    (Seq::new(f.params@.len(), |q: int| f.params@[q]@), stmts_view(f.body@))
}

/// Position of the entry named `k` among `names` (see [`key_pos`]).
fn find_name(names: &Vec<&String>, k: &str) -> (r: Option<usize>)
    ensures
        match r {
            Some(j) => key_pos(Seq::new(names@.len(), |x: int| names@[x]@), k@) == j,
            None => key_pos(Seq::new(names@.len(), |x: int| names@[x]@), k@) < 0,
        },
{
    let ghost keys = Seq::new(names@.len(), |x: int| names@[x]@);
    let mut found: Option<usize> = None;
    let mut i: usize = 0;
    while i < names.len()
        invariant
            i <= names@.len(),
            keys == Seq::new(names@.len(), |x: int| names@[x]@),
            match found {
                Some(j) => key_pos(keys.take(i as int), k@) == j,
                None => key_pos(keys.take(i as int), k@) < 0,
            },
        decreases names@.len() - i,
    {
        assert(keys.take(i + 1).drop_last() =~= keys.take(i as int));
        if found.is_none() && str_eq(names[i].as_str(), k) {
            found = Some(i);
        }
        i += 1;
    }
    assert(keys.take(i as int) =~= keys);
    found
}

/// Adds a global (see [`put_entry`]).
fn put_global(es: &mut Vec<(String, Expr)>, k: String, v: Expr)
    ensures
        pairs_view(final(es)@) == put_entry(pairs_view(old(es)@), k@, expr_view(v)),
{
    proof {
        reveal(put_entry);
    }
    let ghost before = pairs_view(es@);
    let mut names: Vec<&String> = Vec::new();
    let mut i: usize = 0;
    while i < es.len()
        invariant
            i <= es@.len(),
            names@.len() == i,
            forall|x: int| 0 <= x < i ==> names@[x]@ == es@[x].0@,
        decreases es@.len() - i,
    {
        names.push(&es[i].0);
        i += 1;
    }
    assert(Seq::new(names@.len(), |x: int| names@[x]@) =~= Seq::new(before.len(), |x: int| before[x].0));
    let pos = find_name(&names, k.as_str());
    let ghost item = (k@, expr_view(v));
    match pos {
        Some(j) => {
            proof {
                lemma_key_pos(Seq::new(before.len(), |x: int| before[x].0), k@);
            }
            es.set(j, (k, v));
            assert(pairs_view(es@) =~= before.update(j as int, item));
        },
        None => {
            es.push((k, v));
            assert(pairs_view(es@) =~= before.push(item));
        },
    }
}

/// Adds a function (see [`put_entry`]).
fn put_function(es: &mut Vec<(String, Function)>, k: String, f: Function)
    ensures
        Seq::new(final(es)@.len(), |x: int| (final(es)@[x].0@, fn_view(final(es)@[x].1))) == put_entry(
            Seq::new(old(es)@.len(), |x: int| (old(es)@[x].0@, fn_view(old(es)@[x].1))),
            k@,
            fn_view(f),
        ),
{
    proof {
        reveal(put_entry);
    }
    let ghost before = Seq::new(es@.len(), |x: int| (es@[x].0@, fn_view(es@[x].1)));
    let mut names: Vec<&String> = Vec::new();
    let mut i: usize = 0;
    while i < es.len()
        invariant
            i <= es@.len(),
            names@.len() == i,
            forall|x: int| 0 <= x < i ==> names@[x]@ == es@[x].0@,
        decreases es@.len() - i,
    {
        names.push(&es[i].0);
        i += 1;
    }
    assert(Seq::new(names@.len(), |x: int| names@[x]@) =~= Seq::new(before.len(), |x: int| before[x].0));
    let pos = find_name(&names, k.as_str());
    let ghost item = (k@, fn_view(f));
    match pos {
        Some(j) => {
            proof {
                lemma_key_pos(Seq::new(before.len(), |x: int| before[x].0), k@);
            }
            es.set(j, (k, f));
            assert(Seq::new(es@.len(), |x: int| (es@[x].0@, fn_view(es@[x].1))) =~= before.update(j as int, item));
        },
        None => {
            es.push((k, f));
            assert(Seq::new(es@.len(), |x: int| (es@[x].0@, fn_view(es@[x].1))) =~= before.push(item));
        },
    }
}

/// Parameter names (see [`fn_params`]).
fn parse_params(toks: &Vec<(ScriptToken, usize)>, i: usize) -> (r: Result<(Vec<String>, usize), ScriptError>)
    requires
        i <= toks@.len(),
    ensures
        match r {
            Ok((ps, j)) => fn_params(tokens_view(toks@), i as int) == Ok::<(Seq<Seq<char>>, int), (int, Seq<char>)>(
                (Seq::new(ps@.len(), |q: int| ps@[q]@), j as int),
            ) && i <= j <= toks@.len(),
            Err(e) => fn_params(tokens_view(toks@), i as int) == Err::<(Seq<Seq<char>>, int), (int, Seq<char>)>(
                err_v(e),
            ),
        },
{
    let ghost t = tokens_view(toks@);
    let mut ps: Vec<String> = Vec::new();
    if is_punct(toks, i, ScriptPunct::RParen) {
        assert(Seq::new(ps@.len(), |q: int| ps@[q]@) =~= Seq::<Seq<char>>::empty());
        return Ok((ps, i));
    }
    let mut k = i;
    assert(Seq::new(ps@.len(), |q: int| ps@[q]@) =~= Seq::<Seq<char>>::empty());
    loop
        invariant
            i <= k <= toks@.len(),
            fn_params(t, i as int) == params_at(t, k as int, Seq::new(ps@.len(), |q: int| ps@[q]@)),
            t == tokens_view(toks@),
        decreases toks@.len() - k,
    {
        let ghost before = Seq::new(ps@.len(), |q: int| ps@[q]@);
        match expect_ident(toks, k) {
            Err(e) => {
                return Err(e);
            },
            Ok((p, j)) => {
                let ghost pv = p@;
                ps.push(p);
                assert(Seq::new(ps@.len(), |q: int| ps@[q]@) =~= before.push(pv));
                if is_punct(toks, j, ScriptPunct::Comma) {
                    k = next_of(toks, j);
                } else {
                    return Ok((ps, j));
                }
            },
        }
    }
}

/// `(params) { body }` of a function (see [`fn_rest`]).
fn parse_fn_rest(toks: &Vec<(ScriptToken, usize)>, b: usize) -> (r: Result<(Function, usize), ScriptError>)
    requires
        b <= toks@.len(),
    ensures
        match r {
            Ok((f, j)) => fn_rest(tokens_view(toks@), b as int) == Ok::<
                ((Seq<Seq<char>>, Seq<StmtSpec>), int),
                (int, Seq<char>),
            >((fn_view(f), j as int)) && b < j <= toks@.len(),
            Err(e) => fn_rest(tokens_view(toks@), b as int) == Err::<
                ((Seq<Seq<char>>, Seq<StmtSpec>), int),
                (int, Seq<char>),
            >(err_v(e)),
        },
{
    proof {
        reveal(fn_rest);
    }
    let c = match expect_p(toks, b, ScriptPunct::LParen) {
        Err(e) => {
            return Err(e);
        },
        Ok(c) => c,
    };
    let (params, d) = match parse_params(toks, c) {
        Err(e) => {
            return Err(e);
        },
        Ok(x) => x,
    };
    let e1 = match expect_p(toks, d, ScriptPunct::RParen) {
        Err(e) => {
            return Err(e);
        },
        Ok(e1) => e1,
    };
    match parse_block(toks, e1) {
        Err(e) => Err(e),
        Ok((body, f)) => Ok((Function { params, body }, f)),
    }
}

/// Result of a top-level item as plain values.
pub open spec fn item_res(r: Result<usize, ScriptError>, m: ScriptModule) -> Result<(ModuleSpec, int), (int, Seq<char>)> {
    match r {
        Ok(j) => Ok((module_view(m), j as int)),
        Err(e) => Err(err_v(e)),
    }
}

/// A top-level `let` (see [`let_item`]).
fn parse_let_item(toks: &Vec<(ScriptToken, usize)>, i: usize, m: &mut ScriptModule) -> (r: Result<usize, ScriptError>)
    requires
        i < toks@.len(),
    ensures
        item_res(r, *final(m)) == let_item(tokens_view(toks@), i as int, module_view(*old(m))),
        r matches Ok(j) ==> i < j <= toks@.len(),
{
    proof {
        reveal(let_item);
    }
    let ghost mv = module_view(*m);
    let n = next_of(toks, i);
    let (name, a) = match expect_ident(toks, n) {
        Err(e) => {
            return Err(e);
        },
        Ok(x) => x,
    };
    let b = match expect_p(toks, a, ScriptPunct::Assign) {
        Err(e) => {
            return Err(e);
        },
        Ok(b) => b,
    };
    let (v, c) = match parse_expr(toks, b) {
        Err(e) => {
            return Err(e);
        },
        Ok(x) => x,
    };
    let ghost nv = name@;
    let ghost vv = expr_view(v);
    put_global(&mut m.globals, name, v);
    assert(module_view(*m) =~= (ModuleSpec { globals: put_entry(mv.globals, nv, vv), ..mv }));
    Ok(skip_semi(toks, c))
}

/// A top-level `fn` (see [`fn_item`]).
fn parse_fn_item(toks: &Vec<(ScriptToken, usize)>, i: usize, m: &mut ScriptModule) -> (r: Result<usize, ScriptError>)
    requires
        i < toks@.len(),
    ensures
        item_res(r, *final(m)) == fn_item(tokens_view(toks@), i as int, module_view(*old(m))),
        r matches Ok(j) ==> i < j <= toks@.len(),
{
    proof {
        reveal(fn_item);
    }
    let ghost mv = module_view(*m);
    let n = next_of(toks, i);
    let (name, a) = match expect_ident(toks, n) {
        Err(e) => {
            return Err(e);
        },
        Ok(x) => x,
    };
    let (f, e1) = match parse_fn_rest(toks, a) {
        Err(e) => {
            return Err(e);
        },
        Ok(x) => x,
    };
    let ghost nv = name@;
    let ghost fv = fn_view(f);
    put_function(&mut m.functions, name, f);
    assert(module_view(*m) =~= (ModuleSpec { functions: put_entry(mv.functions, nv, fv), ..mv }));
    Ok(e1)
}

/// `__on_` followed by the event name with `.` and `-` as `_`.
fn inline_name(ev: &str) -> (s: String)
    ensures
        s@ == "__on_"@ + underscored(ev@),
{
    let mut inline = owned("__on_");
    let evc = crate::strings::chars_of(ev);
    let mut q: usize = 0;
    let ghost pre = inline@;
    while q < evc.len()
        invariant
            q <= evc@.len(),
            evc@ == ev@,
            pre == "__on_"@,
            inline@ == pre + underscored(ev@).take(q as int),
        decreases evc@.len() - q,
    {
        let ch = evc[q];
        let o = if ch == '.' || ch == '-' {
            '_'
        } else {
            ch
        };
        crate::strings::push_char(&mut inline, o);
        q += 1;
        assert(inline@ =~= pre + underscored(ev@).take(q as int));
    }
    assert(underscored(ev@).take(q as int) =~= underscored(ev@));
    inline
}

/// A top-level `on(…)` (see [`on_item`]).
fn parse_on_item(toks: &Vec<(ScriptToken, usize)>, i: usize, m: &mut ScriptModule) -> (r: Result<usize, ScriptError>)
    requires
        i < toks@.len(),
    ensures
        item_res(r, *final(m)) == on_item(tokens_view(toks@), i as int, module_view(*old(m))),
        r matches Ok(j) ==> i < j <= toks@.len(),
{
    proof {
        reveal(on_item);
    }
    proof {
        reveal_strlit("fn");
        reveal_strlit("function");
    }
    let ghost mv = module_view(*m);
    let n = next_of(toks, i);
    let a = match expect_p(toks, n, ScriptPunct::LParen) {
        Err(e) => {
            return Err(e);
        },
        Ok(a) => a,
    };
    let b = next_of(toks, a);
    let mut event: Option<String> = None;
    if a < toks.len() {
        match &toks[a].0 {
            ScriptToken::Str(s) => {
                event = Some(owned(s.as_str()));
            },
            ScriptToken::Ident(s) => {
                event = Some(owned(s.as_str()));
            },
            _ => {},
        }
    }
    let ev = match event {
        None => {
            let msg = with_tok_text("on() event must be string, got ", toks, a);
            return Err(perr(line_of(toks, b), msg));
        },
        Some(ev) => ev,
    };
    let c = match expect_p(toks, b, ScriptPunct::Comma) {
        Err(e) => {
            return Err(e);
        },
        Ok(c) => c,
    };
    let mut hname: Option<String> = None;
    if c < toks.len() {
        match &toks[c].0 {
            ScriptToken::Ident(s) => {
                hname = Some(owned(s.as_str()));
            },
            _ => {},
        }
    }
    let (fname, d) = match hname {
        None => {
            let msg = with_tok_text("on() handler must be fn name, got ", toks, c);
            return Err(perr(line_of(toks, c), msg));
        },
        Some(s) => if !str_eq(s.as_str(), "fn") && !str_eq(s.as_str(), "function") {
            (s, next_of(toks, c))
        } else {
            let inline = inline_name(ev.as_str());
            let (f, k) = match parse_fn_rest(toks, next_of(toks, c)) {
                Err(e) => {
                    return Err(e);
                },
                Ok(x) => x,
            };
            let ghost fv = fn_view(f);
            put_function(&mut m.functions, owned(inline.as_str()), f);
            assert(module_view(*m) =~= (ModuleSpec { functions: put_entry(mv.functions, inline@, fv), ..mv }));
            (inline, k)
        },
    };
    let ghost m2 = module_view(*m);
    let e1 = match expect_p(toks, d, ScriptPunct::RParen) {
        Err(e) => {
            return Err(e);
        },
        Ok(e1) => e1,
    };
    let ghost pair = (ev@, fname@);
    m.handlers.push(EventHandler { event: ev, fn_name: fname });
    assert(module_view(*m) =~= (ModuleSpec { handlers: m2.handlers.push(pair), ..m2 }));
    Ok(skip_semi(toks, e1))
}

/// Parses the tokens of a script (see [`script_module`]).
pub fn parse_tokens(toks: &Vec<(ScriptToken, usize)>) -> (r: Result<ScriptModule, ScriptError>)
    ensures
        match r {
            Ok(m) => script_module(tokens_view(toks@)) == Ok::<ModuleSpec, (int, Seq<char>)>(module_view(m)),
            Err(e) => script_module(tokens_view(toks@)) == Err::<ModuleSpec, (int, Seq<char>)>(err_v(e)),
        },
{
    let ghost t = tokens_view(toks@);
    proof {
        reveal_strlit("let");
        reveal_strlit("fn");
        reveal_strlit("function");
        reveal_strlit("on");
    }
    let mut m = ScriptModule { globals: Vec::new(), functions: Vec::new(), handlers: Vec::new() };
    assert(module_view(m) =~= (ModuleSpec { globals: seq![], functions: seq![], handlers: seq![] }));
    let mut i: usize = 0;
    loop
        invariant
            i <= toks@.len(),
            t == tokens_view(toks@),
            script_module(t) == module_at(t, i as int, module_view(m)),
        decreases toks@.len() - i,
    {
        let at_end = i >= toks.len() || match &toks[i].0 {
            ScriptToken::Eof => true,
            _ => false,
        };
        if at_end {
            return Ok(m);
        }
        let r = if is_word(toks, i, "let") {
            parse_let_item(toks, i, &mut m)
        } else if is_word(toks, i, "on") {
            parse_on_item(toks, i, &mut m)
        } else if is_word(toks, i, "fn") || is_word(toks, i, "function") {
            parse_fn_item(toks, i, &mut m)
        } else if is_punct(toks, i, ScriptPunct::Semi) {
            Ok(i + 1)
        } else {
            let msg = with_tok_text("expected let/fn/on at top level, got ", toks, i);
            return Err(perr(line_of(toks, i), msg));
        };
        match r {
            Err(e) => {
                return Err(e);
            },
            Ok(j) => {
                i = j;
            },
        }
    }
}

/// Parses an `@script` body (see [`script_of`]): its tokens, then its
/// top-level items.
pub fn parse_script(source: &str) -> (r: Result<ScriptModule, ScriptError>)
    requires
        source.spec_bytes().len() < usize::MAX,
    ensures
        match r {
            Ok(m) => script_of(source.spec_bytes()) == Ok::<ModuleSpec, (int, Seq<char>)>(module_view(m)),
            Err(e) => script_of(source.spec_bytes()) == Err::<ModuleSpec, (int, Seq<char>)>(err_v(e)),
        },
{
    match lex_script(source) {
        Err(e) => Err(e),
        Ok(toks) => parse_tokens(&toks),
    }
}

/// `b`'s entries put into `a` in order (see [`put_entry`]).
pub open spec fn put_all<V>(a: Seq<(Seq<char>, V)>, b: Seq<(Seq<char>, V)>) -> Seq<(Seq<char>, V)>
    decreases b.len(),
{
    if b.len() == 0 {
        a
    } else {
        put_entry(put_all(a, b.drop_last()), b.last().0, b.last().1)
    }
}

/// Script `b` merged into `a`: its globals and functions put in order,
/// its handlers appended.
pub open spec fn merged(a: ModuleSpec, b: ModuleSpec) -> ModuleSpec {
    ModuleSpec {
        globals: put_all(a.globals, b.globals),
        functions: put_all(a.functions, b.functions),
        handlers: a.handlers + b.handlers,
    }
}

/// Merges `other` into `m` (see [`merged`]).
pub fn merge_module(m: &mut ScriptModule, other: ScriptModule)
    ensures
        module_view(*final(m)) == merged(module_view(*old(m)), module_view(other)),
{
    let ghost m0 = module_view(*m);
    let ghost o = module_view(other);
    let mut gs = other.globals;
    let mut fs = other.functions;
    let mut hs = other.handlers;
    let ghost g_all = pairs_view(gs@);
    let mut c: usize = 0;
    let gn = gs.len();
    while gs.len() > 0
        invariant
            c + gs@.len() == gn,
            g_all == o.globals,
            c + gs@.len() == g_all.len(),
            pairs_view(gs@) == g_all.skip(c as int),
            pairs_view(m.globals@) == put_all(m0.globals, g_all.take(c as int)),
            m.functions == old(m).functions,
            m.handlers == old(m).handlers,
        decreases gs@.len(),
    {
        let ghost before = pairs_view(gs@);
        let (k, v) = gs.remove(0);
        assert(pairs_view(gs@) =~= before.drop_first());
        assert(g_all.take(c + 1).drop_last() =~= g_all.take(c as int));
        assert(g_all[c as int] == before[0]);
        put_global(&mut m.globals, k, v);
        c += 1;
        assert(pairs_view(gs@) =~= g_all.skip(c as int));
    }
    assert(g_all.take(c as int) =~= g_all);
    let ghost f_all = Seq::new(fs@.len(), |x: int| (fs@[x].0@, fn_view(fs@[x].1)));
    assert(f_all =~= o.functions);
    let mut d: usize = 0;
    let fnn = fs.len();
    while fs.len() > 0
        invariant
            d + fs@.len() == fnn,
            f_all == o.functions,
            d + fs@.len() == f_all.len(),
            Seq::new(fs@.len(), |x: int| (fs@[x].0@, fn_view(fs@[x].1))) == f_all.skip(d as int),
            Seq::new(m.functions@.len(), |x: int| (m.functions@[x].0@, fn_view(m.functions@[x].1)))
                == put_all(m0.functions, f_all.take(d as int)),
            pairs_view(m.globals@) == put_all(m0.globals, o.globals),
            m.handlers == old(m).handlers,
        decreases fs@.len(),
    {
        let ghost before = Seq::new(fs@.len(), |x: int| (fs@[x].0@, fn_view(fs@[x].1)));
        let (k, f) = fs.remove(0);
        assert(Seq::new(fs@.len(), |x: int| (fs@[x].0@, fn_view(fs@[x].1))) =~= before.drop_first());
        assert(f_all.take(d + 1).drop_last() =~= f_all.take(d as int));
        assert(f_all[d as int] == before[0]);
        put_function(&mut m.functions, k, f);
        d += 1;
        assert(Seq::new(fs@.len(), |x: int| (fs@[x].0@, fn_view(fs@[x].1))) =~= f_all.skip(d as int));
    }
    assert(f_all.take(d as int) =~= f_all);
    let ghost h0 = Seq::new(m.handlers@.len(), |k: int| (m.handlers@[k].event@, m.handlers@[k].fn_name@));
    let ghost h1 = Seq::new(hs@.len(), |k: int| (hs@[k].event@, hs@[k].fn_name@));
    m.handlers.append(&mut hs);
    assert(Seq::new(m.handlers@.len(), |k: int| (m.handlers@[k].event@, m.handlers@[k].fn_name@)) =~= h0 + h1);
    assert(module_view(*m) =~= merged(m0, o));
}

/// An empty script.
pub fn empty_module() -> (m: ScriptModule)
    ensures
        module_view(m) == (ModuleSpec { globals: seq![], functions: seq![], handlers: seq![] }),
{
    let m = ScriptModule { globals: Vec::new(), functions: Vec::new(), handlers: Vec::new() };
    assert(module_view(m) =~= (ModuleSpec { globals: seq![], functions: seq![], handlers: seq![] }));
    m
}

/// The UTF-8 encoding of a text takes at most four bytes per character.
pub proof fn lemma_encode_len(s: Seq<char>)
    ensures
        vstd::utf8::encode_utf8(s).len() <= 4 * s.len(),
    decreases s.len(),
{
    if s.len() > 0 {
        lemma_encode_len(s.drop_first());
        assert(vstd::utf8::encode_scalar(s[0] as u32).len() <= 4);
    }
}

/// No two entries share a name.
pub open spec fn names_distinct<V>(es: Seq<(Seq<char>, V)>) -> bool {
    forall|i: int, j: int| 0 <= i < j < es.len() ==> es[i].0 != es[j].0
}

/// Putting an entry keeps names distinct, and the entry is then present
/// with its value.
pub proof fn lemma_put_entry_distinct<V>(es: Seq<(Seq<char>, V)>, k: Seq<char>, v: V)
    requires
        names_distinct(es),
    ensures
        names_distinct(put_entry(es, k, v)),
        exists|j: int| 0 <= j < put_entry(es, k, v).len() && put_entry(es, k, v)[j] == (k, v),
{
    reveal(put_entry);
    let names = Seq::new(es.len(), |x: int| es[x].0);
    lemma_key_pos(names, k);
    let j = key_pos(names, k);
    let r = put_entry(es, k, v);
    if j >= 0 {
        assert(names[j] == es[j].0);
        assert forall|a: int, b: int| 0 <= a < b < r.len() implies r[a].0 != r[b].0 by {
            if a == j {
                assert(names[b] == es[b].0);
            } else if b == j {
                assert(names[a] == es[a].0);
            }
        }
        assert(r[j] == (k, v));
    } else {
        assert forall|a: int, b: int| 0 <= a < b < r.len() implies r[a].0 != r[b].0 by {
            if b == es.len() {
                assert(names[a] == es[a].0);
            }
        }
        assert(r[es.len() as int] == (k, v));
    }
}

/// Merging keeps names distinct: a script's globals and functions, and a
/// sheet's merged script, never hold two entries of one name.
pub proof fn lemma_put_all_distinct<V>(a: Seq<(Seq<char>, V)>, b: Seq<(Seq<char>, V)>)
    requires
        names_distinct(a),
    ensures
        names_distinct(put_all(a, b)),
    decreases b.len(),
{
    if b.len() > 0 {
        lemma_put_all_distinct(a, b.drop_last());
        lemma_put_entry_distinct(put_all(a, b.drop_last()), b.last().0, b.last().1);
    }
}

/// A parsed script never holds two globals, or two functions, of one name
/// (a later definition replaces the earlier one in place).
pub proof fn lemma_module_names_distinct(t: Seq<(TokenSpec, int)>, i: int, m: ModuleSpec)
    requires
        names_distinct(m.globals),
        names_distinct(m.functions),
    ensures
        module_at(t, i, m) matches Ok(r) ==> names_distinct(r.globals) && names_distinct(r.functions),
    decreases t.len() - i,
{
    reveal(let_item);
    reveal(fn_item);
    reveal(on_item);
    let tok = peek(t, i);
    let n = next_pos(t, i);
    if tok == TokenSpec::Eof {
    } else if tok == TokenSpec::Ident("let"@) || tok == TokenSpec::Ident("fn"@) || tok == TokenSpec::Ident(
        "function"@,
    ) || tok == TokenSpec::Ident("on"@) {
        let r = if tok == TokenSpec::Ident("let"@) {
            let_item(t, i, m)
        } else if tok == TokenSpec::Ident("on"@) {
            on_item(t, i, m)
        } else {
            fn_item(t, i, m)
        };
        if let Ok((m2, j)) = r {
            if tok == TokenSpec::Ident("let"@) {
                if let Ok((name, a)) = ident_at(t, n) {
                    if let Ok(b) = expect_at(t, a, ScriptPunct::Assign) {
                        if let Ok((v, c)) = expr_at(t, b) {
                            lemma_put_entry_distinct(m.globals, name, v);
                        }
                    }
                }
            } else if tok == TokenSpec::Ident("on"@) {
                if let Ok(a) = expect_at(t, n, ScriptPunct::LParen) {
                    let b = next_pos(t, a);
                    let ev = match peek(t, a) {
                        TokenSpec::Str(s) => s,
                        TokenSpec::Ident(s) => s,
                        _ => seq![],
                    };
                    if let Ok(c) = expect_at(t, b, ScriptPunct::Comma) {
                        if let Ok((f, k)) = fn_rest(t, next_pos(t, c)) {
                            lemma_put_entry_distinct(m.functions, "__on_"@ + underscored(ev), f);
                        }
                    }
                }
            } else {
                if let Ok((name, a)) = ident_at(t, n) {
                    if let Ok((f, e1)) = fn_rest(t, a) {
                        lemma_put_entry_distinct(m.functions, name, f);
                    }
                }
            }
            if after(t, i, j) {
                lemma_module_names_distinct(t, j, m2);
            }
        }
    } else if tok == TokenSpec::Punct(ScriptPunct::Semi) {
        if after(t, i, n) {
            lemma_module_names_distinct(t, n, m);
        }
    }
}

/// The script of a text never holds two globals, or two functions, of one
/// name.
pub proof fn lemma_script_names_distinct(src: Seq<u8>)
    ensures
        script_of(src) matches Ok(r) ==> names_distinct(r.globals) && names_distinct(r.functions),
{
    if let Ok(ts) = script_tokens(src) {
        lemma_module_names_distinct(ts, 0, ModuleSpec { globals: seq![], functions: seq![], handlers: seq![] });
    }
}

/// The written symbol of a binary operator.
pub open spec fn op_symbol(op: BinOp) -> ScriptPunct {
    match op {
        BinOp::Add => ScriptPunct::Plus,
        BinOp::Sub => ScriptPunct::Minus,
        BinOp::Mul => ScriptPunct::Star,
        BinOp::Div => ScriptPunct::Slash,
        BinOp::Mod => ScriptPunct::Percent,
        BinOp::Lt => ScriptPunct::Lt,
        BinOp::Le => ScriptPunct::Le,
        BinOp::Gt => ScriptPunct::Gt,
        BinOp::Ge => ScriptPunct::Ge,
        BinOp::Eq => ScriptPunct::EqEq,
        BinOp::Ne => ScriptPunct::Ne,
        BinOp::And => ScriptPunct::AndAnd,
        BinOp::Or => ScriptPunct::OrOr,
    }
}

/// How tightly an operator binds: `||` 0, `&&` 1, `==`/`!=` 2, comparisons
/// 3, `+`/`-` 4, `*`/`/`/`%` 5.
pub open spec fn op_rank(op: BinOp) -> int {
    match op {
        BinOp::Or => 0,
        BinOp::And => 1,
        BinOp::Eq | BinOp::Ne => 2,
        BinOp::Lt | BinOp::Le | BinOp::Gt | BinOp::Ge => 3,
        BinOp::Add | BinOp::Sub => 4,
        BinOp::Mul | BinOp::Div | BinOp::Mod => 5,
    }
}

/// A plain name (not a literal keyword).
pub open spec fn plain_name(a: Seq<char>) -> bool {
    a != "true"@ && a != "false"@ && a != "null"@ && a != "undefined"@
}

/// A token that ends an expression: `;` or the end.
pub open spec fn ends_expr(tok: TokenSpec) -> bool {
    tok == TokenSpec::Punct(ScriptPunct::Semi) || tok == TokenSpec::Eof
}

/// An operator token belongs to exactly one level, where it stands for
/// that operator.
proof fn lemma_level_of(op: BinOp, lvl: int)
    requires
        0 <= lvl <= 5,
    ensures
        level_op(lvl, TokenSpec::Punct(op_symbol(op))) == if lvl == op_rank(op) {
            Some(op)
        } else {
            None::<BinOp>
        },
{
}

/// No level reads an ending token as an operator.
proof fn lemma_tail_at_end(t: Seq<(TokenSpec, int)>, k: int, lvl: int, e: ExprSpec)
    requires
        0 <= k,
        0 <= lvl <= 5,
        ends_expr(peek(t, k)),
    ensures
        bin_tail(t, k, lvl, e) == Ok::<(ExprSpec, int), (int, Seq<char>)>((e, k)),
{
}

/// A plain name followed by a token that is not `(`, `.` or `[` is an
/// operand by itself.
proof fn lemma_name_operand(t: Seq<(TokenSpec, int)>, k: int, a: Seq<char>)
    requires
        0 <= k,
        k + 1 < t.len() || (k + 1 == t.len() && k < t.len()),
        peek(t, k) == TokenSpec::Ident(a),
        plain_name(a),
        peek(t, k + 1) != TokenSpec::Punct(ScriptPunct::LParen),
        peek(t, k + 1) != TokenSpec::Punct(ScriptPunct::Dot),
        peek(t, k + 1) != TokenSpec::Punct(ScriptPunct::LBracket),
    ensures
        unary_at(t, k) == Ok::<(ExprSpec, int), (int, Seq<char>)>((ExprSpec::Ident(a), k + 1)),
{
    assert(primary_at(t, k) == Ok::<(ExprSpec, int), (int, Seq<char>)>((ExprSpec::Ident(a), k + 1)));
    assert(postfix_tail(t, k + 1, ExprSpec::Ident(a)) == Ok::<(ExprSpec, int), (int, Seq<char>)>(
        (ExprSpec::Ident(a), k + 1),
    ));
}

/// A lone name before an ending token parses at every level as that name.
proof fn lemma_lone_name(t: Seq<(TokenSpec, int)>, k: int, b: Seq<char>, lvl: int)
    requires
        0 <= k,
        k < t.len(),
        peek(t, k) == TokenSpec::Ident(b),
        plain_name(b),
        ends_expr(peek(t, k + 1)),
        0 <= lvl <= 5,
    ensures
        bin_at(t, k, lvl) == Ok::<(ExprSpec, int), (int, Seq<char>)>((ExprSpec::Ident(b), k + 1)),
    decreases 5 - lvl,
{
    lemma_name_operand(t, k, b);
    if lvl < 5 {
        lemma_lone_name(t, k, b, lvl + 1);
    }
    lemma_tail_at_end(t, k + 1, lvl, ExprSpec::Ident(b));
}

/// `a op b` before an ending token, read from level `lvl`.
proof fn lemma_binary_at(t: Seq<(TokenSpec, int)>, i: int, a: Seq<char>, op: BinOp, b: Seq<char>, lvl: int)
    requires
        0 <= i,
        i + 2 < t.len(),
        peek(t, i) == TokenSpec::Ident(a),
        peek(t, i + 1) == TokenSpec::Punct(op_symbol(op)),
        peek(t, i + 2) == TokenSpec::Ident(b),
        ends_expr(peek(t, i + 3)),
        plain_name(a),
        plain_name(b),
        0 <= lvl <= 5,
    ensures
        lvl > op_rank(op) ==> bin_at(t, i, lvl) == Ok::<(ExprSpec, int), (int, Seq<char>)>(
            (ExprSpec::Ident(a), i + 1),
        ),
        lvl <= op_rank(op) ==> bin_at(t, i, lvl) == Ok::<(ExprSpec, int), (int, Seq<char>)>(
            (ExprSpec::Binary(Box::new(ExprSpec::Ident(a)), op, Box::new(ExprSpec::Ident(b))), i + 3),
        ),
    decreases 5 - lvl,
{
    let bin = ExprSpec::Binary(Box::new(ExprSpec::Ident(a)), op, Box::new(ExprSpec::Ident(b)));
    lemma_name_operand(t, i, a);
    lemma_level_of(op, lvl);
    if lvl < 5 {
        lemma_binary_at(t, i, a, op, b, lvl + 1);
    }
    let first = if lvl < 5 {
        bin_at(t, i, lvl + 1)
    } else {
        unary_at(t, i)
    };
    if lvl < op_rank(op) {
        assert(first == Ok::<(ExprSpec, int), (int, Seq<char>)>((bin, i + 3)));
        lemma_tail_at_end(t, i + 3, lvl, bin);
        assert(after(t, i, i + 3));
    } else {
        assert(first == Ok::<(ExprSpec, int), (int, Seq<char>)>((ExprSpec::Ident(a), i + 1)));
        assert(after(t, i, i + 1));
        if lvl == op_rank(op) {
            assert(level_op(lvl, peek(t, i + 1)) == Some(op));
            assert(next_pos(t, i + 1) == i + 2);
            let rhs = if lvl < 5 {
                bin_at(t, i + 2, lvl + 1)
            } else {
                unary_at(t, i + 2)
            };
            if lvl < 5 {
                lemma_lone_name(t, i + 2, b, lvl + 1);
            } else {
                lemma_name_operand(t, i + 2, b);
            }
            assert(rhs == Ok::<(ExprSpec, int), (int, Seq<char>)>((ExprSpec::Ident(b), i + 3)));
            lemma_tail_at_end(t, i + 3, lvl, bin);
            assert(after(t, i + 1, i + 3));
            assert(bin_tail(t, i + 1, lvl, ExprSpec::Ident(a)) == Ok::<(ExprSpec, int), (int, Seq<char>)>(
                (bin, i + 3),
            ));
        } else {
            assert(level_op(lvl, peek(t, i + 1)) is None);
            assert(bin_tail(t, i + 1, lvl, ExprSpec::Ident(a)) == Ok::<(ExprSpec, int), (int, Seq<char>)>(
                (ExprSpec::Ident(a), i + 1),
            ));
        }
    }
}

/// Every binary operator parses as itself: the tokens `a`, the operator's
/// symbol and `b`, before `;` or the end, read as one expression give the
/// node joining `a` and `b` by that operator (so `a - b` is a subtraction,
/// `a < b` a less-than, and so on).
pub proof fn lemma_binary_operator(t: Seq<(TokenSpec, int)>, i: int, a: Seq<char>, op: BinOp, b: Seq<char>)
    requires
        0 <= i,
        i + 2 < t.len(),
        peek(t, i) == TokenSpec::Ident(a),
        peek(t, i + 1) == TokenSpec::Punct(op_symbol(op)),
        peek(t, i + 2) == TokenSpec::Ident(b),
        ends_expr(peek(t, i + 3)),
        plain_name(a),
        plain_name(b),
    ensures
        expr_at(t, i) == Ok::<(ExprSpec, int), (int, Seq<char>)>(
            (ExprSpec::Binary(Box::new(ExprSpec::Ident(a)), op, Box::new(ExprSpec::Ident(b))), i + 3),
        ),
{
    lemma_binary_at(t, i, a, op, b, 0);
}

/// The token at `k` ends an operand read at level `lvl` or tighter: it is
/// `;`, the end, or the symbol of an operator binding more loosely.
pub open spec fn stops_at(tok: TokenSpec, stop: Option<BinOp>, lvl: int) -> bool {
    match stop {
        None => ends_expr(tok),
        Some(o) => tok == TokenSpec::Punct(op_symbol(o)) && op_rank(o) < lvl,
    }
}

proof fn lemma_tail_stop(t: Seq<(TokenSpec, int)>, k: int, lvl: int, e: ExprSpec, stop: Option<BinOp>)
    requires
        0 <= k,
        0 <= lvl <= 5,
        stops_at(peek(t, k), stop, lvl),
    ensures
        bin_tail(t, k, lvl, e) == Ok::<(ExprSpec, int), (int, Seq<char>)>((e, k)),
{
    if let Some(o) = stop {
        lemma_level_of(o, lvl);
    }
}

proof fn lemma_name_before(t: Seq<(TokenSpec, int)>, k: int, b: Seq<char>, stop: Option<BinOp>, lvl: int)
    requires
        0 <= k < t.len(),
        peek(t, k) == TokenSpec::Ident(b),
        plain_name(b),
        stops_at(peek(t, k + 1), stop, lvl),
        0 <= lvl <= 5,
    ensures
        bin_at(t, k, lvl) == Ok::<(ExprSpec, int), (int, Seq<char>)>((ExprSpec::Ident(b), k + 1)),
    decreases 5 - lvl,
{
    lemma_name_operand(t, k, b);
    if lvl < 5 {
        lemma_name_before(t, k, b, stop, lvl + 1);
    }
    lemma_tail_stop(t, k + 1, lvl, ExprSpec::Ident(b), stop);
}

/// `a o1 b o2 c` before an ending token, read from level `lvl`.
proof fn lemma_two_ops_at(
    t: Seq<(TokenSpec, int)>,
    i: int,
    a: Seq<char>,
    o1: BinOp,
    b: Seq<char>,
    o2: BinOp,
    c: Seq<char>,
    lvl: int,
)
    requires
        0 <= i,
        i + 4 < t.len(),
        peek(t, i) == TokenSpec::Ident(a),
        peek(t, i + 1) == TokenSpec::Punct(op_symbol(o1)),
        peek(t, i + 2) == TokenSpec::Ident(b),
        peek(t, i + 3) == TokenSpec::Punct(op_symbol(o2)),
        peek(t, i + 4) == TokenSpec::Ident(c),
        ends_expr(peek(t, i + 5)),
        plain_name(a),
        plain_name(b),
        plain_name(c),
        0 <= lvl <= 5,
    ensures
        ({
            let inner_r = ExprSpec::Binary(Box::new(ExprSpec::Ident(b)), o2, Box::new(ExprSpec::Ident(c)));
            let inner_l = ExprSpec::Binary(Box::new(ExprSpec::Ident(a)), o1, Box::new(ExprSpec::Ident(b)));
            let whole = if op_rank(o1) < op_rank(o2) {
                ExprSpec::Binary(Box::new(ExprSpec::Ident(a)), o1, Box::new(inner_r))
            } else {
                ExprSpec::Binary(Box::new(inner_l), o2, Box::new(ExprSpec::Ident(c)))
            };
            let lo = if op_rank(o1) < op_rank(o2) {
                op_rank(o1)
            } else {
                op_rank(o2)
            };
            &&& lvl <= lo ==> bin_at(t, i, lvl) == Ok::<(ExprSpec, int), (int, Seq<char>)>((whole, i + 5))
            &&& (op_rank(o1) >= op_rank(o2) && op_rank(o2) < lvl <= op_rank(o1)) ==> bin_at(t, i, lvl) == Ok::<
                (ExprSpec, int),
                (int, Seq<char>),
            >((inner_l, i + 3))
            &&& lvl > op_rank(o1) ==> bin_at(t, i, lvl) == Ok::<(ExprSpec, int), (int, Seq<char>)>(
                (ExprSpec::Ident(a), i + 1),
            )
        }),
    decreases 5 - lvl,
{
    let r1 = op_rank(o1);
    let r2 = op_rank(o2);
    let inner_r = ExprSpec::Binary(Box::new(ExprSpec::Ident(b)), o2, Box::new(ExprSpec::Ident(c)));
    let inner_l = ExprSpec::Binary(Box::new(ExprSpec::Ident(a)), o1, Box::new(ExprSpec::Ident(b)));
    let whole = if r1 < r2 {
        ExprSpec::Binary(Box::new(ExprSpec::Ident(a)), o1, Box::new(inner_r))
    } else {
        ExprSpec::Binary(Box::new(inner_l), o2, Box::new(ExprSpec::Ident(c)))
    };
    lemma_name_operand(t, i, a);
    lemma_level_of(o1, lvl);
    lemma_level_of(o2, lvl);
    if lvl < 5 {
        lemma_two_ops_at(t, i, a, o1, b, o2, c, lvl + 1);
    }
    let first = if lvl < 5 {
        bin_at(t, i, lvl + 1)
    } else {
        unary_at(t, i)
    };
    if lvl > r1 {
        assert(first == Ok::<(ExprSpec, int), (int, Seq<char>)>((ExprSpec::Ident(a), i + 1)));
        assert(after(t, i, i + 1));
        lemma_tail_stop(t, i + 1, lvl, ExprSpec::Ident(a), Some(o1));
    } else if lvl == r1 {
        assert(first == Ok::<(ExprSpec, int), (int, Seq<char>)>((ExprSpec::Ident(a), i + 1)));
        assert(after(t, i, i + 1));
        assert(next_pos(t, i + 1) == i + 2);
        if r1 < r2 {
            // The right operand is `b o2 c`, which binds more tightly.
            lemma_binary_at(t, i + 2, b, o2, c, lvl + 1);
            lemma_tail_at_end(t, i + 5, lvl, whole);
            assert(after(t, i + 1, i + 5));
        } else {
            if lvl < 5 {
                lemma_name_before(t, i + 2, b, Some(o2), lvl + 1);
            } else {
                lemma_name_operand(t, i + 2, b);
            }
            assert(after(t, i + 1, i + 3));
            if r2 == r1 {
                assert(next_pos(t, i + 3) == i + 4);
                if lvl < 5 {
                    lemma_lone_name(t, i + 4, c, lvl + 1);
                } else {
                    lemma_name_operand(t, i + 4, c);
                }
                lemma_tail_at_end(t, i + 5, lvl, whole);
                assert(after(t, i + 3, i + 5));
                assert(bin_tail(t, i + 3, lvl, inner_l) == Ok::<(ExprSpec, int), (int, Seq<char>)>((whole, i + 5)));
            } else {
                lemma_tail_stop(t, i + 3, lvl, inner_l, Some(o2));
            }
        }
    } else if r1 >= r2 && lvl > r2 {
        assert(first == Ok::<(ExprSpec, int), (int, Seq<char>)>((inner_l, i + 3)));
        assert(after(t, i, i + 3));
        lemma_tail_stop(t, i + 3, lvl, inner_l, Some(o2));
    } else if r1 >= r2 && lvl == r2 {
        assert(first == Ok::<(ExprSpec, int), (int, Seq<char>)>((inner_l, i + 3)));
        assert(after(t, i, i + 3));
        assert(next_pos(t, i + 3) == i + 4);
        if lvl < 5 {
            lemma_lone_name(t, i + 4, c, lvl + 1);
        } else {
            lemma_name_operand(t, i + 4, c);
        }
        lemma_tail_at_end(t, i + 5, lvl, whole);
        assert(after(t, i + 3, i + 5));
        assert(bin_tail(t, i + 3, lvl, inner_l) == Ok::<(ExprSpec, int), (int, Seq<char>)>((whole, i + 5)));
    } else {
        assert(first == Ok::<(ExprSpec, int), (int, Seq<char>)>((whole, i + 5)));
        assert(after(t, i, i + 5));
        lemma_tail_at_end(t, i + 5, lvl, whole);
    }
}

/// Operators group by precedence and then from the left: in `a o1 b o2 c`,
/// `b o2 c` is grouped first when `o2` binds more tightly than `o1`
/// (`a + b * c` is `a + (b * c)`); otherwise `a o1 b` is
/// (`a * b + c` is `(a * b) + c`, `a - b - c` is `(a - b) - c`).
pub proof fn lemma_precedence(
    t: Seq<(TokenSpec, int)>,
    i: int,
    a: Seq<char>,
    o1: BinOp,
    b: Seq<char>,
    o2: BinOp,
    c: Seq<char>,
)
    requires
        0 <= i,
        i + 4 < t.len(),
        peek(t, i) == TokenSpec::Ident(a),
        peek(t, i + 1) == TokenSpec::Punct(op_symbol(o1)),
        peek(t, i + 2) == TokenSpec::Ident(b),
        peek(t, i + 3) == TokenSpec::Punct(op_symbol(o2)),
        peek(t, i + 4) == TokenSpec::Ident(c),
        ends_expr(peek(t, i + 5)),
        plain_name(a),
        plain_name(b),
        plain_name(c),
    ensures
        expr_at(t, i) == Ok::<(ExprSpec, int), (int, Seq<char>)>(
            (
                if op_rank(o1) < op_rank(o2) {
                    ExprSpec::Binary(
                        Box::new(ExprSpec::Ident(a)),
                        o1,
                        Box::new(ExprSpec::Binary(Box::new(ExprSpec::Ident(b)), o2, Box::new(ExprSpec::Ident(c)))),
                    )
                } else {
                    ExprSpec::Binary(
                        Box::new(ExprSpec::Binary(Box::new(ExprSpec::Ident(a)), o1, Box::new(ExprSpec::Ident(b)))),
                        o2,
                        Box::new(ExprSpec::Ident(c)),
                    )
                },
                i + 5,
            ),
        ),
{
    lemma_two_ops_at(t, i, a, o1, b, o2, c, 0);
}

/// `-x` is a negation and `!x` a logical not of `x`.
pub proof fn lemma_unary_operator(t: Seq<(TokenSpec, int)>, i: int, x: Seq<char>)
    requires
        0 <= i,
        i + 1 < t.len(),
        peek(t, i) == TokenSpec::Punct(ScriptPunct::Minus) || peek(t, i) == TokenSpec::Punct(ScriptPunct::Bang),
        peek(t, i + 1) == TokenSpec::Ident(x),
        plain_name(x),
        ends_expr(peek(t, i + 2)),
    ensures
        expr_at(t, i) == Ok::<(ExprSpec, int), (int, Seq<char>)>(
            (
                ExprSpec::Unary(
                    if peek(t, i) == TokenSpec::Punct(ScriptPunct::Minus) {
                        UnaryOp::Neg
                    } else {
                        UnaryOp::Not
                    },
                    Box::new(ExprSpec::Ident(x)),
                ),
                i + 2,
            ),
        ),
{
    let e = ExprSpec::Unary(
        if peek(t, i) == TokenSpec::Punct(ScriptPunct::Minus) {
            UnaryOp::Neg
        } else {
            UnaryOp::Not
        },
        Box::new(ExprSpec::Ident(x)),
    );
    lemma_name_operand(t, i + 1, x);
    assert(unary_at(t, i) == Ok::<(ExprSpec, int), (int, Seq<char>)>((e, i + 2)));
    lemma_unary_levels(t, i, e, 5);
    assert(bin_at(t, i, 0) == Ok::<(ExprSpec, int), (int, Seq<char>)>((e, i + 2))) by {
        lemma_unary_levels(t, i, e, 0);
    }
}

proof fn lemma_unary_levels(t: Seq<(TokenSpec, int)>, i: int, e: ExprSpec, lvl: int)
    requires
        0 <= i,
        i + 1 < t.len(),
        unary_at(t, i) == Ok::<(ExprSpec, int), (int, Seq<char>)>((e, i + 2)),
        ends_expr(peek(t, i + 2)),
        0 <= lvl <= 5,
    ensures
        bin_at(t, i, lvl) == Ok::<(ExprSpec, int), (int, Seq<char>)>((e, i + 2)),
    decreases 5 - lvl,
{
    if lvl < 5 {
        lemma_unary_levels(t, i, e, lvl + 1);
    }
    lemma_tail_at_end(t, i + 2, lvl, e);
    assert(after(t, i, i + 2));
}

/// A script of one `let name = expr;` holds that one global and nothing
/// else.
pub proof fn lemma_single_let(t: Seq<(TokenSpec, int)>, name: Seq<char>, e: ExprSpec, j: int)
    requires
        3 < j,
        j + 1 < t.len(),
        peek(t, 0) == TokenSpec::Ident("let"@),
        peek(t, 1) == TokenSpec::Ident(name),
        peek(t, 2) == TokenSpec::Punct(ScriptPunct::Assign),
        expr_at(t, 3) == Ok::<(ExprSpec, int), (int, Seq<char>)>((e, j)),
        peek(t, j) == TokenSpec::Punct(ScriptPunct::Semi),
        peek(t, j + 1) == TokenSpec::Eof,
    ensures
        script_module(t) == Ok::<ModuleSpec, (int, Seq<char>)>(
            ModuleSpec { globals: seq![(name, e)], functions: seq![], handlers: seq![] },
        ),
{
    reveal(let_item);
    reveal(put_entry);
    reveal_strlit("let");
    let m0 = ModuleSpec { globals: seq![], functions: seq![], handlers: seq![] };
    let m1 = ModuleSpec { globals: put_entry(m0.globals, name, e), ..m0 };
    assert(put_entry(m0.globals, name, e) =~= seq![(name, e)]);
    assert(let_item(t, 0, m0) == Ok::<(ModuleSpec, int), (int, Seq<char>)>((m1, j + 1)));
    assert(module_at(t, j + 1, m1) == Ok::<ModuleSpec, (int, Seq<char>)>(m1));
    assert(after(t, 0, j + 1));
}

/// A lone literal or name before `;` or the end: a number keeps its text,
/// a string its contents, `true`/`false` are booleans, `null` and
/// `undefined` are null, any other name is a name.
pub proof fn lemma_literal(t: Seq<(TokenSpec, int)>, i: int)
    requires
        0 <= i,
        i + 1 < t.len(),
        ends_expr(peek(t, i + 1)),
        peek(t, i) is Number || peek(t, i) is Str || peek(t, i) is Ident,
    ensures
        expr_at(t, i) == Ok::<(ExprSpec, int), (int, Seq<char>)>(
            (
                match peek(t, i) {
                    TokenSpec::Number(x) => ExprSpec::Number(x),
                    TokenSpec::Str(x) => ExprSpec::Str(x),
                    TokenSpec::Ident(x) => if x == "true"@ {
                        ExprSpec::Bool(true)
                    } else if x == "false"@ {
                        ExprSpec::Bool(false)
                    } else if x == "null"@ || x == "undefined"@ {
                        ExprSpec::Null
                    } else {
                        ExprSpec::Ident(x)
                    },
                    _ => ExprSpec::Null,
                },
                i + 1,
            ),
        ),
{
    let e = match peek(t, i) {
        TokenSpec::Number(x) => ExprSpec::Number(x),
        TokenSpec::Str(x) => ExprSpec::Str(x),
        TokenSpec::Ident(x) => if x == "true"@ {
            ExprSpec::Bool(true)
        } else if x == "false"@ {
            ExprSpec::Bool(false)
        } else if x == "null"@ || x == "undefined"@ {
            ExprSpec::Null
        } else {
            ExprSpec::Ident(x)
        },
        _ => ExprSpec::Null,
    };
    assert(primary_at(t, i) == Ok::<(ExprSpec, int), (int, Seq<char>)>((e, i + 1)));
    assert(postfix_tail(t, i + 1, e) == Ok::<(ExprSpec, int), (int, Seq<char>)>((e, i + 1)));
    assert(unary_at(t, i) == Ok::<(ExprSpec, int), (int, Seq<char>)>((e, i + 1)));
    lemma_operand_levels(t, i, e, 0);
}

proof fn lemma_operand_levels(t: Seq<(TokenSpec, int)>, i: int, e: ExprSpec, lvl: int)
    requires
        0 <= i,
        i + 1 < t.len(),
        unary_at(t, i) == Ok::<(ExprSpec, int), (int, Seq<char>)>((e, i + 1)),
        ends_expr(peek(t, i + 1)),
        0 <= lvl <= 5,
    ensures
        bin_at(t, i, lvl) == Ok::<(ExprSpec, int), (int, Seq<char>)>((e, i + 1)),
    decreases 5 - lvl,
{
    if lvl < 5 {
        lemma_operand_levels(t, i, e, lvl + 1);
    }
    lemma_tail_at_end(t, i + 1, lvl, e);
    assert(after(t, i, i + 1));
}

} // verus!
