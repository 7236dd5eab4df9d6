pub mod ast;
pub mod error;
pub mod grammar;
pub mod parser;
pub mod scanner;

use vstd::prelude::*;
use crate::lexer::token::Token;
use self::ast::Node;
use self::error::ParserError;
use self::grammar::program_of;
use self::parser::Parser;

verus! {

/// Parses a whole token sequence. Fails when any syntax error was met, with every
/// error in order and the statements that did parse.
pub fn parse(tokens: Vec<Token>) -> (r: Result<Vec<Node>, ParserError>)
    ensures
        ({
            let (nodes, errors) = program_of(tokens@);
            match r {
                Ok(statements) => errors.len() == 0 && statements@ == nodes,
                Err(e) => errors.len() > 0 && e.errors@ == errors && e.recovered@ == nodes,
            }
        }),
{
    Parser::new(tokens).parse()
}

} // verus!
