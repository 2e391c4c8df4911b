use crate::error::ErrorKind;
use vstd::prelude::*;

verus! {

/// Why a request asks for what the broker does not serve.
#[derive(Debug)]
pub enum ApiErrors {
    UnsupportedKey(u16),
    /// The requested version, then the API key.
    UnsupportedVersion(u16, u16),
}

impl ApiErrors {
    /// The Kafka error code of this error.
    pub open spec fn spec_error_code(&self) -> u16 {
        match self {
            ApiErrors::UnsupportedKey(_) => 36,
            ApiErrors::UnsupportedVersion(_, _) => 35,
        }
    }

    /// The Kafka error code: 36 for an unsupported key, 35 for an
    /// unsupported version.
    pub fn into_error_code(&self) -> (code: u16)
        ensures
            code == self.spec_error_code(),
    {
        match self {
            ApiErrors::UnsupportedKey(_) => 36,
            ApiErrors::UnsupportedVersion(_, _) => 35,
        }
    }
}

/// Errors of decoding a request.
#[derive(Debug)]
pub enum CodecError {
    UnexpectedEof,
    InvalidData(ErrorKind),
    /// Bytes that were meant to be text but are not valid UTF-8.
    Utf8Error(Vec<u8>),
}

} // verus!
