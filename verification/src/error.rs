//! Errors the engine reports to its callers.

use vstd::prelude::*;

verus! {

/// Everything that can go wrong inside the engine.
///
/// `InvalidToken` marks a malformed move character met while applying or
/// replaying a solution; whitespace is a separator, never an error.
/// `ConfigError` marks a requested board extent below the 2 x 2 minimum,
/// rejected at the construction boundary so that the engine itself never
/// sees invalid dimensions.
#[derive(Debug, Copy, Clone, PartialEq, Eq, Structural)]
pub enum Error {
    InvalidToken,
    ConfigError,
}

impl Error {
    /// A short description of the error, for display by the caller.
    pub fn msg(&self) -> (r: &'static str)
        ensures
            *self is InvalidToken ==> r@ == "invalid character in solution"@,
            *self is ConfigError ==> r@ == "minimum supported size is 2"@,
    {
        match self {
            Error::InvalidToken => "invalid character in solution",
            Error::ConfigError => "minimum supported size is 2",
        }
    }
}

} // verus!
