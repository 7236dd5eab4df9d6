use vstd::prelude::*;
use crate::driver::DriverError;
use crate::lexer::error::LexerError;
use crate::parser::error::ParserError;

verus! {

/// Any error of the front end.
#[derive(Debug)]
pub enum ShabaCompilerError {
    DriverError(DriverError),
    LexerError(LexerError),
    ParserError(ParserError),
}

impl From<DriverError> for ShabaCompilerError {
    fn from(e: DriverError) -> (r: ShabaCompilerError)
        ensures
            r == ShabaCompilerError::DriverError(e),
    {
        ShabaCompilerError::DriverError(e)
    }
}

impl vstd::std_specs::convert::FromSpecImpl<DriverError> for ShabaCompilerError {
    open spec fn obeys_from_spec() -> bool {
        true
    }

    open spec fn from_spec(e: DriverError) -> ShabaCompilerError {
        ShabaCompilerError::DriverError(e)
    }
}

impl From<LexerError> for ShabaCompilerError {
    fn from(e: LexerError) -> (r: ShabaCompilerError)
        ensures
            r == ShabaCompilerError::LexerError(e),
    {
        ShabaCompilerError::LexerError(e)
    }
}

impl vstd::std_specs::convert::FromSpecImpl<LexerError> for ShabaCompilerError {
    open spec fn obeys_from_spec() -> bool {
        true
    }

    open spec fn from_spec(e: LexerError) -> ShabaCompilerError {
        ShabaCompilerError::LexerError(e)
    }
}

impl From<ParserError> for ShabaCompilerError {
    fn from(e: ParserError) -> (r: ShabaCompilerError)
        ensures
            r == ShabaCompilerError::ParserError(e),
    {
        ShabaCompilerError::ParserError(e)
    }
}

impl vstd::std_specs::convert::FromSpecImpl<ParserError> for ShabaCompilerError {
    open spec fn obeys_from_spec() -> bool {
        true
    }

    open spec fn from_spec(e: ParserError) -> ShabaCompilerError {
        ShabaCompilerError::ParserError(e)
    }
}

} // verus!
