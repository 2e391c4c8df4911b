use vstd::prelude::*;

verus! {

/// What went wrong while reading from the input.
#[derive(Debug, Clone, Copy, PartialEq, Eq)]
pub enum ErrorKind {
    /// The input ended before the value was complete.
    UnexpectedEof,
    /// Any other failure of the underlying reader.
    Other,
}

/// The errors of request handling.
#[derive(Debug)]
pub enum RequestError {
    /// A record batch names a compression codec that does not exist.
    InvalidCompression(u8),
    /// Reading the input failed.
    Io(ErrorKind),
    /// Bytes that were meant to be text but are not valid UTF-8.
    Utf8(Vec<u8>),
    /// A number conversion that cannot fail did.
    NumConversion(std::convert::Infallible),
    /// A protocol-level error.
    Kafka(KafkaError),
    /// The input breaks the wire format.
    Protocol(String),
    /// Another error, tagged with the request it happened in.
    Request { api_key: u16, correlation_id: u32, source: Box<RequestError> },
}

/// Protocol-level errors, each with its Kafka error code.
#[derive(Debug, Clone, Copy, PartialEq, Eq)]
pub enum KafkaError {
    UnsupportedKey(u16),
    UnsupportedVersion(u16, u16),
    UnknownTopicOrPartition(u16),
}

/// How a read of the wire format fails, as a mathematical value.
pub enum ParseFail {
    /// The input ends too early.
    Eof,
    /// These bytes should be text but are not valid UTF-8.
    Utf8(Seq<u8>),
    /// A compact length byte is zero, so the length minus one is negative.
    ZeroLength,
    /// A record batch names this compression codec, which does not exist.
    Compression(u8),
    /// Some other failure.
    Other,
}

impl RequestError {
    /// The reading failure that this error reports.
    pub open spec fn fail(self) -> ParseFail {
        match self {
            RequestError::Io(ErrorKind::UnexpectedEof) => ParseFail::Eof,
            RequestError::Utf8(b) => ParseFail::Utf8(b@),
            RequestError::Protocol(_) => ParseFail::ZeroLength,
            RequestError::InvalidCompression(c) => ParseFail::Compression(c),
            _ => ParseFail::Other,
        }
    }
}

impl RequestError {
    /// Wraps this error with the request it happened in.
    pub fn with_request_context(self, api_key: u16, correlation_id: u32) -> (r: Self)
        ensures
            r == (RequestError::Request { api_key, correlation_id, source: Box::new(self) }),
    {
        Self::Request { api_key, correlation_id, source: Box::new(self) }
    }
}

impl KafkaError {
    /// The Kafka error code of this error.
    pub open spec fn spec_error_code(&self) -> u16 {
        match self {
            KafkaError::UnsupportedKey(_) => 36,
            KafkaError::UnsupportedVersion(_, _) => 35,
            KafkaError::UnknownTopicOrPartition(_) => 3,
        }
    }

    /// The Kafka error code of this error: 36 for an unsupported key, 35
    /// for an unsupported version, 3 for an unknown topic or partition.
    pub fn into_error_code(&self) -> (code: u16)
        ensures
            code == self.spec_error_code(),
    {
        match self {
            Self::UnsupportedKey(_) => 36,
            Self::UnsupportedVersion(_, _) => 35,
            Self::UnknownTopicOrPartition(_) => 3,
        }
    }
}

} // verus!
