pub mod error;
pub mod lexer;
pub mod source;
pub mod token;

pub use self::lexer::tokenize;
