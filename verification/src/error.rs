//! Status codes of the engine interface and their translation to typed errors.
//!
//! Every engine entry point returns a signed status code: `0` is success,
//! negative values index a fixed taxonomy, and `RC_INSUFFICIENT_BUFFER` is
//! reserved to mean "the supplied buffer was too small; the required size has
//! been written back through the length out-parameter".

use vstd::prelude::*;

verus! {

/// Status code of a successful engine call.
pub const RC_SUCCESS: i32 = 0;

/// The authentication tag of a ciphertext did not verify.
pub const RC_AUTH_FAILURE: i32 = -2;

/// The supplied output buffer was too small; the required size is reported.
pub const RC_INSUFFICIENT_BUFFER: i32 = -10;

/// An argument was rejected (bad length, bad flag, embedded NUL, ...).
pub const RC_BAD_PARAMETER: i32 = -32;

/// The operation is not valid in the current state of the object.
pub const RC_INVALID_STATE: i32 = -40;

/// The engine does not implement the requested algorithm or capability.
pub const RC_NOT_IMPLEMENTED: i32 = -50;

/// A typed engine failure: the meaning of a raw status code.
#[derive(Clone, Copy, Debug, PartialEq, Eq, Structural)]
pub enum Error {
    /// An argument was invalid, detected either before or during a call.
    BadParameter,
    /// A buffer was too small even after the resize-and-retry protocol.
    InsufficientBuffer,
    /// The operation was attempted in a state that forbids it.
    InvalidState,
    /// Authentication or verification failed (for instance a tag mismatch).
    CryptoFailure,
    /// Any other non-zero status, carrying the raw code for diagnostics.
    Generic(i32),
}

/// The typed outcome that a raw non-zero status code denotes.
pub open spec fn spec_error_of_rc(rc: i32) -> Error {
    if rc == RC_AUTH_FAILURE {
        Error::CryptoFailure
    } else if rc == RC_INSUFFICIENT_BUFFER {
        Error::InsufficientBuffer
    } else if rc == RC_BAD_PARAMETER {
        Error::BadParameter
    } else if rc == RC_INVALID_STATE {
        Error::InvalidState
    } else {
        Error::Generic(rc)
    }
}

impl Error {
    /// Translate a raw status code into its typed error.
    pub fn from_rc(rc: i32) -> (r: Error)
        requires
            rc != RC_SUCCESS,
        ensures
            r == spec_error_of_rc(rc),
    {
        if rc == RC_AUTH_FAILURE {
            Error::CryptoFailure
        } else if rc == RC_INSUFFICIENT_BUFFER {
            Error::InsufficientBuffer
        } else if rc == RC_BAD_PARAMETER {
            Error::BadParameter
        } else if rc == RC_INVALID_STATE {
            Error::InvalidState
        } else {
            Error::Generic(rc)
        }
    }
}

} // verus!
