use crate::error::RequestError;
use crate::protocol::reader::{
    read_text, read_view, spec_string, spec_u16, spec_u32, spec_u8, then, Bytes16, Bytes32,
    Bytes8, SpecRead, StreamReader,
};
use crate::protocol::reader::{be_value, lemma_string_at, lemma_u16_at, lemma_u8_at, lemma_wide_at};
use vstd::prelude::*;
use vstd::utf8::decode_utf8;

verus! {

/// A request header: API key and version, correlation id, client id and
/// tag buffer.
#[derive(Debug)]
pub struct ApiReqHeader {
    pub key: u16,
    pub version: u16,
    pub correlation_id: u32,
    pub client: ApiReqClient,
    pub tag_buffer: u8,
}

/// A client id: its two-byte length and its text.
#[derive(Debug)]
pub struct ApiReqClient(pub u16, pub String);

impl View for ApiReqClient {
    type V = (u16, Seq<char>);

    open spec fn view(&self) -> Self::V {
        (self.0, self.1@)
    }
}

impl View for ApiReqHeader {
    type V = (u16, u16, u32, (u16, Seq<char>), u8);

    open spec fn view(&self) -> Self::V {
        (self.key, self.version, self.correlation_id, self.client@, self.tag_buffer)
    }
}

/// A request header at `pos`.
pub open spec fn spec_api_req_header(input: Seq<u8>, pos: int) -> SpecRead<<ApiReqHeader as View>::V> {
    then(spec_u16(input, pos), |key: u16, p1: int|
    then(spec_u16(input, p1), |version: u16, p2: int|
    then(spec_u32(input, p2), |correlation_id: u32, p3: int|
    then(spec_string(input, p3), |client: (u16, Seq<char>), p4: int|
    then(spec_u8(input, p4), |tag_buffer: u8, p5: int|
        Ok(((key, version, correlation_id, client, tag_buffer), p5))
    )))))
}

impl ApiReqHeader {
    /// Reads a request header at `pos`.
    pub fn from_socket(input: &[u8], pos: usize) -> (r: Result<(Self, usize), RequestError>)
        ensures
            read_view(r) == spec_api_req_header(input@, pos as int),
    {
        let (key, p) = match Bytes16::from_stream(input, pos) {
            Ok(v) => v,
            Err(e) => return Err(e),
        };
        let (version, p) = match Bytes16::from_stream(input, p) {
            Ok(v) => v,
            Err(e) => return Err(e),
        };
        let (correlation_id, p) = match Bytes32::from_stream(input, p) {
            Ok(v) => v,
            Err(e) => return Err(e),
        };
        let (client, p) = match ApiReqClient::from_socket(input, p) {
            Ok(v) => v,
            Err(e) => return Err(e),
        };
        let (tag_buffer, p) = match Bytes8::from_stream(input, p) {
            Ok(v) => v,
            Err(e) => return Err(e),
        };
        Ok(
            (
                Self {
                    key: key.0,
                    version: version.0,
                    correlation_id: correlation_id.0,
                    client,
                    tag_buffer: tag_buffer.0,
                },
                p,
            ),
        )
    }
}

impl ApiReqClient {
    /// Reads a client id at `pos`: a two-byte length, then that many
    /// bytes of UTF-8.
    pub fn from_socket(input: &[u8], pos: usize) -> (r: Result<(Self, usize), RequestError>)
        ensures
            read_view(r) == spec_string(input@, pos as int),
    {
        let (length, p) = match Bytes16::from_stream(input, pos) {
            Ok(v) => v,
            Err(e) => return Err(e),
        };
        proof {
            crate::protocol::reader::lemma_be_value_bound(input@.subrange(pos as int, pos + 2));
            reveal_with_fuel(crate::protocol::reader::byte_bound, 3);
        }
        let (text, p) = match read_text(input, p, length.0 as usize) {
            Ok(v) => v,
            Err(e) => return Err(e),
        };
        Ok((Self(length.0, text), p))
    }
}

/// A request header is laid out from `pos` as: the API key (two bytes),
/// the API version (two bytes), the correlation id (four bytes), each
/// big-endian; the client id, a string whose two-byte length `n` is at
/// `pos + 8`; the tag buffer, one byte at `pos + 10 + n`.
pub proof fn lemma_api_req_header_layout(s: Seq<u8>, pos: int)
    requires
        spec_api_req_header(s, pos) is Ok,
    ensures
        ({
            let ((key, version, correlation_id, client, tag_buffer), end) = spec_api_req_header(s, pos)->Ok_0;
            let n = s[pos + 8] * 256 + s[pos + 9];
            &&& 0 <= pos && end == pos + 11 + n && end <= s.len()
            &&& key as int == s[pos] * 256 + s[pos + 1]
            &&& version as int == s[pos + 2] * 256 + s[pos + 3]
            &&& correlation_id as int == be_value(s.subrange(pos + 4, pos + 8))
            &&& client.0 as int == n
            &&& client.1 == decode_utf8(s.subrange(pos + 10, pos + 10 + n))
            &&& tag_buffer == s[pos + 10 + n]
        }),
{
    lemma_u16_at(s, pos);
    lemma_u16_at(s, pos + 2);
    lemma_wide_at(s, pos + 4);
    lemma_string_at(s, pos + 8);
    let n = s[pos + 8] * 256 + s[pos + 9];
    lemma_u8_at(s, pos + 10 + n);
}

} // verus!
