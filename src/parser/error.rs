use vstd::prelude::*;
use super::ast::Node;
use crate::lexer::token::SourceLocation;

verus! {

/// The token that the grammar required where parsing failed.
#[derive(Debug, Clone, Copy, PartialEq, Eq, Structural)]
pub enum ExpectedToken {
    ClosingParen,
    OpenParen,
    OpenBrace,
    CloseBrace,
    Identifier,
    Equals,
    Expression,
}

/// A syntax error, with the range of source text it concerns (none at the end of
/// input).
#[derive(Debug, Clone, PartialEq)]
pub enum ParsingError {
    /// The grammar required a token that is not there; the range is that of the
    /// token found in its place.
    ExpectedToken(ExpectedToken, Option<(SourceLocation, SourceLocation)>),
    /// A failure that no expected token describes, with a description of it.
    Unknown(String, Option<(SourceLocation, SourceLocation)>),
}

/// Every syntax error of a program, in order, with the statements that parsed.
#[derive(Debug, PartialEq)]
pub struct ParserError {
    pub errors: Vec<ParsingError>,
    pub recovered: Vec<Node>,
}

impl ParserError {
    pub fn new(errors: Vec<ParsingError>, recovered: Vec<Node>) -> (r: ParserError)
        ensures
            r.errors@ == errors@,
            r.recovered@ == recovered@,
    {
        ParserError { errors, recovered }
    }
}

} // verus!
