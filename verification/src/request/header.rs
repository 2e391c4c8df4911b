use crate::error::ErrorKind;
use crate::protocol::reader::{spec_u16, spec_u32, Bytes16, Bytes32, StreamReader};
use vstd::prelude::*;
use vstd::std_specs::convert::FromSpecImpl;

verus! {

/// A request header with the frame size, read without the client id and
/// tag buffer.
pub struct RequestHeader {
    pub api_key: i16,
    pub api_version: i16,
    pub correlation_id: i32,
    pub msg_size: i32,
    pub client_id: Option<Vec<u8>>,
    pub tag_buffer: Option<Vec<u8>>,
}

/// A header field that could not be read.
#[derive(Debug, Clone, Copy, PartialEq, Eq)]
pub enum HeaderError {
    /// Reading the field from the input failed in this way.
    ReadElement(ErrorKind),
}

/// The header made of (frame size, API key, API version, correlation id).
pub open spec fn header_of(header: (i32, i16, i16, i32)) -> RequestHeader {
    RequestHeader {
        msg_size: header.0,
        api_key: header.1,
        api_version: header.2,
        correlation_id: header.3,
        client_id: None,
        tag_buffer: None,
    }
}

impl From<(i32, i16, i16, i32)> for RequestHeader {
    fn from(header: (i32, i16, i16, i32)) -> (r: Self) {
        let (msg_size, api_key, api_version, correlation_id) = header;
        Self { msg_size, api_key, api_version, correlation_id, client_id: None, tag_buffer: None }
    }
}

impl FromSpecImpl<(i32, i16, i16, i32)> for RequestHeader {
    open spec fn obeys_from_spec() -> bool {
        true
    }

    open spec fn from_spec(header: (i32, i16, i16, i32)) -> RequestHeader {
        header_of(header)
    }
}

/// The big-endian two's-complement 16-bit integer at `pos`, which must be
/// there.
pub open spec fn spec_i16_at(s: Seq<u8>, pos: int) -> i16 {
    (spec_u16(s, pos)->Ok_0.0) as i16
}

/// The big-endian two's-complement 32-bit integer at `pos`, which must be
/// there.
pub open spec fn spec_i32_at(s: Seq<u8>, pos: int) -> i32 {
    (spec_u32(s, pos)->Ok_0.0) as i32
}

impl RequestHeader {
    /// Reads the frame size, API key, API version and correlation id at the
    /// start of `input`.
    pub fn parse_request(input: &[u8]) -> (r: Self)
        requires
            input@.len() >= 12,
        ensures
            r == header_of(
                (
                    spec_i32_at(input@, 0),
                    spec_i16_at(input@, 4),
                    spec_i16_at(input@, 6),
                    spec_i32_at(input@, 8),
                ),
            ),
    {
        let msg_size = match Bytes32::from_stream(input, 0) {
            Ok((v, _)) => v.0 as i32,
            Err(_) => 0,
        };
        let api_key = match Bytes16::from_stream(input, 4) {
            Ok((v, _)) => v.0 as i16,
            Err(_) => 0,
        };
        let api_ver = match Bytes16::from_stream(input, 6) {
            Ok((v, _)) => v.0 as i16,
            Err(_) => 0,
        };
        let correlation_id = match Bytes32::from_stream(input, 8) {
            Ok((v, _)) => v.0 as i32,
            Err(_) => 0,
        };
        Self::from((msg_size, api_key, api_ver, correlation_id))
    }

    /// 0 when the API version is between 0 and 4, else 35.
    pub fn check_version(&self) -> (r: i16)
        ensures
            r == if 0 <= self.api_version <= 4 { 0i16 } else { 35i16 },
    {
        match self.api_version {
            0..=4 => 0,
            _ => 35,
        }
    }
}

} // verus!
