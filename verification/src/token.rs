//! The argument token produced by the lexer, its mathematical view, and the
//! error kinds raised when a delimiter is left open.

use vstd::prelude::*;

verus! {

/// Mathematical view of one argument token: the accumulated text as a
/// sequence of characters, plus the two delimiter flags.
#[verifier::ext_equal]
pub struct ArgView {
    pub data: Seq<char>,
    pub is_quoted: bool,
    pub is_braced: bool,
}

/// A single command argument produced by the lexer.
///
/// `data` holds the literal content with the delimiters stripped; escape
/// sequences inside quotes are kept verbatim. `is_quoted` is true iff the
/// token came from a double-quoted span, `is_braced` iff it came from a
/// brace-delimited span; the two are never both true.
#[derive(Debug)]
pub struct CmdArg {
    pub data: String,
    pub is_quoted: bool,
    pub is_braced: bool,
}

impl View for CmdArg {
    type V = ArgView;

    open spec fn view(&self) -> ArgView {
        ArgView { data: self.data@, is_quoted: self.is_quoted, is_braced: self.is_braced }
    }
}

impl PartialEq for CmdArg {
    fn eq(&self, other: &CmdArg) -> (r: bool) {
        self.data == other.data && self.is_quoted == other.is_quoted && self.is_braced
            == other.is_braced
    }
}

impl vstd::std_specs::cmp::PartialEqSpecImpl for CmdArg {
    open spec fn obeys_eq_spec() -> bool {
        true
    }

    open spec fn eq_spec(&self, other: &CmdArg) -> bool {
        self@ == other@
    }
}

/// The error raised when the input ends while a delimiter is still open.
/// Each kind names the delimiter that was left open, so a caller can report
/// which one it was.
#[derive(Debug, Clone, Copy, PartialEq, Eq, Structural)]
pub enum SplitError {
    /// A double quote was opened and never closed.
    UnterminatedQuote,
    /// A backslash inside a quoted span had no following character.
    UnterminatedEscape,
    /// A brace was opened and never closed.
    UnterminatedBrace,
}

impl SplitError {
    /// A human-readable description of the error.
    pub fn message(&self) -> (m: &'static str)
        ensures
            *self is UnterminatedQuote ==> m@ == "incomplete quoted value"@,
            *self is UnterminatedEscape ==> m@ == "invalid escape sequence"@,
            *self is UnterminatedBrace ==> m@ == "unclosed brace"@,
    {
        match self {
            SplitError::UnterminatedQuote => "incomplete quoted value",
            SplitError::UnterminatedEscape => "invalid escape sequence",
            SplitError::UnterminatedBrace => "unclosed brace",
        }
    }
}

} // verus!
