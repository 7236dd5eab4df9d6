pub mod driver;
pub mod error;
pub mod lexer;
pub mod parser;

use vstd::prelude::*;
use crate::error::ShabaCompilerError;
use crate::lexer::lexer::{lex, token_views};
use crate::lexer::token::Token;
use crate::parser::ast::Node;
use crate::parser::grammar::program_of;

verus! {

/// Tokenizes `source`, then parses the tokens.
///
/// A lexical error ends the work at once. Otherwise the statements are those of the
/// tokens that the text denotes, and parsing fails exactly when it met a syntax
/// error.
pub fn parse_source(source: &str) -> (r: Result<Vec<Node>, ShabaCompilerError>)
    requires
        source@.len() < usize::MAX,
    ensures
        match r {
            Err(ShabaCompilerError::DriverError(_)) => false,
            Err(ShabaCompilerError::LexerError(e)) => lex(source@) == Err::<
                Seq<crate::lexer::token::TokenView>,
                crate::lexer::error::LexerError,
            >(e),
            Err(ShabaCompilerError::ParserError(e)) => exists|tokens: Seq<Token>|
                lex(source@) == Ok::<
                    Seq<crate::lexer::token::TokenView>,
                    crate::lexer::error::LexerError,
                >(token_views(tokens)) && program_of(tokens).1.len() > 0 && program_of(tokens).1
                    == e.errors@ && program_of(tokens).0 == e.recovered@,
            Ok(statements) => exists|tokens: Seq<Token>|
                lex(source@) == Ok::<
                    Seq<crate::lexer::token::TokenView>,
                    crate::lexer::error::LexerError,
                >(token_views(tokens)) && program_of(tokens).1.len() == 0 && program_of(tokens).0
                    == statements@,
        },
{
    let tokens = match crate::lexer::lexer::tokenize(source) {
        Ok(tokens) => tokens,
        Err(e) => return Err(ShabaCompilerError::LexerError(e)),
    };
    match crate::parser::parse(tokens) {
        Ok(statements) => Ok(statements),
        Err(e) => Err(ShabaCompilerError::ParserError(e)),
    }
}

} // verus!
