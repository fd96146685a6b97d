//! A lexer for command strings written in a shell-like syntax.
//!
//! An input string is split on whitespace into argument tokens, except that
//! double-quoted spans and brace-delimited spans stay atomic: a quoted span
//! becomes a literal token flagged `is_quoted`, and a braced span becomes a
//! token flagged `is_braced` so a caller can treat it as a substitutable
//! expression rather than literal text.

pub mod laws;
pub mod lexer;
pub mod token;
