//! The one error of the library: a status code.

use vstd::prelude::*;

verus! {

/// Code of the error for text that holds a NUL, which the bus cannot take.
pub const ENCODING: isize = 0;

/// Code of the error for a length that the bus cannot take.
pub const CONVERSION: isize = 1;

/// Code of the error for a write that stored another number of bytes than asked.
pub const SHORT_WRITE: isize = -2;

/// A failed operation, with the status code that tells why. Codes that the
/// bus reports are passed through as they came.
#[derive(Debug, Clone, Copy, PartialEq, Eq)]
pub struct Error {
    code: isize,
}

impl Error {
    /// The error with the given code, in contracts.
    pub closed spec fn spec_new(code: isize) -> Error {
        Error { code }
    }

    /// The code of this error, in contracts.
    pub closed spec fn spec_code(&self) -> isize {
        self.code
    }

    /// The error with the given code.
    #[verifier::when_used_as_spec(spec_new)]
    pub fn new(code: isize) -> (e: Self)
        ensures
            e == Error::new(code),
            e.code() == code,
    {
        Self { code }
    }

    /// The code of this error.
    #[verifier::when_used_as_spec(spec_code)]
    pub fn code(&self) -> (code: isize)
        ensures
            code == self.code(),
    {
        self.code
    }

    /// An error is its code, and nothing more.
    pub broadcast proof fn lemma_code(code: isize)
        ensures
            (#[trigger] Error::new(code)).code() == code,
    {
    }

    /// Errors with the same code are the same error.
    pub proof fn lemma_same_code(self, other: Error)
        requires
            self.code() == other.code(),
        ensures
            self == other,
    {
    }
}

} // verus!
