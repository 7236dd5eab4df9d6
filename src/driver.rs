use vstd::prelude::*;

verus! {

/// Why the source text could not be obtained.
#[derive(Debug, Clone, Copy, PartialEq, Eq, Structural)]
pub enum DriverError {
    MissingFileFlag,
    UnableToRead,
}

impl DriverError {
    /// A sentence that describes the error.
    pub fn message(&self) -> (r: &'static str)
        ensures
            r@ == (match self {
                DriverError::MissingFileFlag => "Missing `--file` flag"@,
                DriverError::UnableToRead => "Unable to read file"@,
            }),
    {
        match self {
            DriverError::MissingFileFlag => "Missing `--file` flag",
            DriverError::UnableToRead => "Unable to read file",
        }
    }
}

} // verus!
