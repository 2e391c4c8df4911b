//! Errors of the version negotiation.
pub mod errors;
pub mod versions;

use crate::error::ErrorKind;
use vstd::prelude::*;
use vstd::std_specs::convert::FromSpecImpl;

verus! {

/// Why an `ApiVersions` request cannot be served.
#[derive(Debug)]
pub enum ResponseApiError {
    UnsupportedKey(u16),
    UnsupportedVersion(u16),
}

/// Errors of reading a request.
#[derive(Debug)]
pub enum CodecError {
    UnexpectedEof,
    InvalidData(ErrorKind),
}

/// The Kafka error code of a `ResponseApiError`.
pub open spec fn response_error_code(e: ResponseApiError) -> u16 {
    match e {
        ResponseApiError::UnsupportedKey(_) => 36,
        ResponseApiError::UnsupportedVersion(_) => 35,
    }
}

impl From<ResponseApiError> for u16 {
    /// The Kafka error code: 36 for an unsupported key, 35 for an
    /// unsupported version.
    fn from(e: ResponseApiError) -> (r: u16) {
        match e {
            ResponseApiError::UnsupportedKey(_) => 36,
            ResponseApiError::UnsupportedVersion(_) => 35,
        }
    }
}

impl FromSpecImpl<ResponseApiError> for u16 {
    open spec fn obeys_from_spec() -> bool {
        true
    }

    open spec fn from_spec(e: ResponseApiError) -> u16 {
        response_error_code(e)
    }
}

} // verus!
