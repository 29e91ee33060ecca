//! Style sheet errors and the check summary shown by tooling, with the
//! operators and event handlers of the sheet's script part.

use vstd::prelude::*;

use crate::strings::{decimal, push_decimal, push_str};

verus! {

/// Script parse/eval error.
#[derive(Debug, Clone)]
pub enum ScriptError {
    /// Parse failure.
    Parse {
        /// 1-based line within the script block (approx).
        line: usize,
        /// Detail.
        msg: String,
    },
    /// Runtime failure.
    Runtime(String),
}

/// The message of a script error.
pub open spec fn script_error_text(e: ScriptError) -> Seq<char> {
    match e {
        ScriptError::Parse { line, msg } => "vcss script parse at "@ + decimal(line as nat) + ": "@
            + msg@,
        ScriptError::Runtime(m) => "vcss script runtime: "@ + m@,
    }
}

impl ScriptError {
    /// Appends the error's message to `s`.
    pub fn write_message(&self, s: &mut String)
        ensures
            final(s)@ == old(s)@ + script_error_text(*self),
    {
        match self {
            ScriptError::Parse { line, msg } => {
                push_str(s, "vcss script parse at ");
                push_decimal(s, *line);
                push_str(s, ": ");
                push_str(s, msg.as_str());
            },
            ScriptError::Runtime(m) => {
                push_str(s, "vcss script runtime: ");
                push_str(s, m.as_str());
            },
        }
    }

    /// The error's message.
    pub fn message(&self) -> (s: String)
        ensures
            s@ == script_error_text(*self),
    {
        let mut s = String::new();
        self.write_message(&mut s);
        s
    }
}

/// Style sheet parse error.
#[derive(Debug, Clone)]
pub enum StyleParseError {
    /// Message with line.
    AtLine {
        /// 1-based line.
        line: usize,
        /// Detail.
        msg: String,
    },
    /// Error of the sheet's `@script` part.
    Script(ScriptError),
}

/// The message of a style parse error.
pub open spec fn style_error_text(e: StyleParseError) -> Seq<char> {
    match e {
        StyleParseError::AtLine { line, msg } => "style parse error at line "@ + decimal(
            line as nat,
        ) + ": "@ + msg@,
        StyleParseError::Script(se) => "style script error: "@ + script_error_text(se),
    }
}

impl StyleParseError {
    /// The error's message.
    pub fn message(&self) -> (s: String)
        ensures
            s@ == style_error_text(*self),
    {
        let mut s = String::new();
        match self {
            StyleParseError::AtLine { line, msg } => {
                push_str(&mut s, "style parse error at line ");
                push_decimal(&mut s, *line);
                push_str(&mut s, ": ");
                push_str(&mut s, msg.as_str());
            },
            StyleParseError::Script(se) => {
                push_str(&mut s, "style script error: ");
                se.write_message(&mut s);
            },
        }
        s
    }
}

/// Registered event handler reference.
#[derive(Debug, Clone)]
pub struct EventHandler {
    /// Event name (`menu.open`, `hand.deal`, ...).
    pub event: String,
    /// Function name to call.
    pub fn_name: String,
}

/// Unary ops.
#[derive(Debug, Clone, Copy, PartialEq, Eq, Structural)]
pub enum UnaryOp {
    /// -
    Neg,
    /// !
    Not,
}

/// Binary ops.
#[derive(Debug, Clone, Copy, PartialEq, Eq, Structural)]
pub enum BinOp {
    /// +
    Add,
    /// -
    Sub,
    /// *
    Mul,
    /// /
    Div,
    /// %
    Mod,
    /// <
    Lt,
    /// <=
    Le,
    /// >
    Gt,
    /// >=
    Ge,
    /// ==
    Eq,
    /// !=
    Ne,
    /// &&
    And,
    /// ||
    Or,
}

/// Counts of a parsed sheet: rules, keyframe sets, script functions,
/// imports.
#[derive(Debug, Clone, Copy)]
pub struct SheetCounts {
    /// Rules count.
    pub rules: usize,
    /// Keyframes count.
    pub keyframes: usize,
    /// Script functions.
    pub functions: usize,
    /// Import paths.
    pub imports: usize,
}

/// Parse summary for CLI / tooling.
#[derive(Debug, Clone)]
pub struct StyleCheckReport {
    /// Rules count.
    pub rules: usize,
    /// Keyframes count.
    pub keyframes: usize,
    /// Script functions.
    pub functions: usize,
    /// Import paths.
    pub imports: usize,
    /// Whether parse succeeded.
    pub ok: bool,
    /// Error message if any.
    pub error: Option<String>,
}

/// The check summary of a parse outcome: the sheet's counts when it parsed,
/// zero counts and the error's message when it did not.
pub fn check_report(parsed: Result<SheetCounts, StyleParseError>) -> (r: StyleCheckReport)
    ensures
        match parsed {
            Ok(c) => r.rules == c.rules && r.keyframes == c.keyframes && r.functions == c.functions
                && r.imports == c.imports && r.ok && r.error is None,
            Err(e) => r.rules == 0 && r.keyframes == 0 && r.functions == 0 && r.imports == 0
                && !r.ok && (r.error matches Some(m) && m@ == style_error_text(e)),
        },
{
    match parsed {
        Ok(c) => StyleCheckReport {
            rules: c.rules,
            keyframes: c.keyframes,
            functions: c.functions,
            imports: c.imports,
            ok: true,
            error: None,
        },
        Err(e) => StyleCheckReport {
            rules: 0,
            keyframes: 0,
            functions: 0,
            imports: 0,
            ok: false,
            error: Some(e.message()),
        },
    }
}

} // verus!
