//! Errors reported while reading a program.
use vstd::prelude::*;

use crate::lexer::scanner::LexError;
use crate::lexer::Span;

verus! {

/// A syntax error: what went wrong and where.
#[derive(Debug, Clone)]
pub struct ParseError {
    pub message: String,
    pub span: Span,
}

impl ParseError {
    /// The same error reported by the scanner, as a syntax error.
    pub fn from_lex(e: LexError) -> (r: ParseError)
        ensures
            r.message@ == e.message@,
            r.span == e.span,
    {
        ParseError { message: e.message, span: e.span }
    }
}

} // verus!
