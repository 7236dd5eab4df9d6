use vstd::prelude::*;
use super::token::SourceLocation;

verus! {

/// Why tokenizing stopped.
#[derive(Debug, Clone, Copy, PartialEq, Eq, Structural)]
pub enum LexingError {
    /// A string literal reached the end of input before its closing quote.
    UnterminatedString,
    /// A character that starts no token.
    UnknownLexme(char),
    /// An integer literal whose value does not fit in an `i32`.
    IntegerOverflow,
}

/// A lexical error with the range of source text it covers.
#[derive(Debug, Clone, Copy, PartialEq, Eq, Structural)]
pub struct LexerError {
    pub error: LexingError,
    pub start: SourceLocation,
    pub end: SourceLocation,
}

impl LexerError {
    pub fn new(error: LexingError, start: SourceLocation, end: SourceLocation) -> (r: LexerError)
        ensures
            r == (LexerError { error, start, end }),
    {
        LexerError { error, start, end }
    }
}

} // verus!
