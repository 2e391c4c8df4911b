use super::head::{spec_api_req_header, ApiReqHeader};
use crate::error::RequestError;
use crate::protocol::reader::{
    read_text, read_view, spec_compact_string, spec_u32, spec_u8, then, zero_length, Bytes32,
    Bytes8, SpecRead, StreamReader,
};
use crate::protocol::reader::{be_value, lemma_compact_string_at, lemma_u8_at, lemma_wide_at};
use vstd::prelude::*;
use vstd::utf8::decode_utf8;

verus! {

/// An `ApiVersions` request with the size of its frame.
#[derive(Debug)]
pub struct ApiVersionsReq {
    pub size: u32,
    pub header: ApiReqHeader,
    pub content: ApiReqBody,
}

/// The body of an `ApiVersions` request.
#[derive(Debug)]
pub struct ApiReqBody {
    pub client: ApiReqContent,
    pub version: ApiReqContent,
    pub tag_buffer: u8,
}

/// A compact string: its length byte (one more than the bytes of text)
/// and its text.
#[derive(Debug)]
pub struct ApiReqContent(pub u8, pub String);

impl View for ApiReqContent {
    type V = (u8, Seq<char>);

    open spec fn view(&self) -> Self::V {
        (self.0, self.1@)
    }
}

impl View for ApiReqBody {
    type V = ((u8, Seq<char>), (u8, Seq<char>), u8);

    open spec fn view(&self) -> Self::V {
        (self.client@, self.version@, self.tag_buffer)
    }
}

impl View for ApiVersionsReq {
    type V = (u32, <ApiReqHeader as View>::V, <ApiReqBody as View>::V);

    open spec fn view(&self) -> Self::V {
        (self.size, self.header@, self.content@)
    }
}

/// An `ApiVersions` request body at `pos`.
pub open spec fn spec_api_req_body(input: Seq<u8>, pos: int) -> SpecRead<<ApiReqBody as View>::V> {
    then(spec_compact_string(input, pos), |client: (u8, Seq<char>), p1: int|
    then(spec_compact_string(input, p1), |version: (u8, Seq<char>), p2: int|
    then(spec_u8(input, p2), |tag_buffer: u8, p3: int|
        Ok(((client, version, tag_buffer), p3))
    )))
}

/// An `ApiVersions` request at `pos`: the frame size, the header, the body.
pub open spec fn spec_api_versions_req(input: Seq<u8>, pos: int) -> SpecRead<<ApiVersionsReq as View>::V> {
    then(spec_u32(input, pos), |size: u32, p1: int|
    then(spec_api_req_header(input, p1), |header: <ApiReqHeader as View>::V, p2: int|
    then(spec_api_req_body(input, p2), |content: <ApiReqBody as View>::V, p3: int|
        Ok(((size, header, content), p3))
    )))
}

impl ApiVersionsReq {
    /// Reads the frame size, the header and the body at `pos`.
    pub fn from_socket(input: &[u8], pos: usize) -> (r: Result<(Self, usize), RequestError>)
        ensures
            read_view(r) == spec_api_versions_req(input@, pos as int),
    {
        let (size, p) = match Bytes32::from_stream(input, pos) {
            Ok(v) => v,
            Err(e) => return Err(e),
        };
        let (header, p) = match ApiReqHeader::from_socket(input, p) {
            Ok(v) => v,
            Err(e) => return Err(e),
        };
        let (content, p) = match ApiReqBody::from_socket(input, p) {
            Ok(v) => v,
            Err(e) => return Err(e),
        };
        Ok((Self { size: size.0, header, content }, p))
    }
}

impl ApiReqBody {
    /// Reads the client name, the client version and the tag buffer at `pos`.
    pub fn from_socket(input: &[u8], pos: usize) -> (r: Result<(Self, usize), RequestError>)
        ensures
            read_view(r) == spec_api_req_body(input@, pos as int),
    {
        let (client, p) = match ApiReqContent::from_socket(input, pos) {
            Ok(v) => v,
            Err(e) => return Err(e),
        };
        let (version, p) = match ApiReqContent::from_socket(input, p) {
            Ok(v) => v,
            Err(e) => return Err(e),
        };
        let (tag_buffer, p) = match Bytes8::from_stream(input, p) {
            Ok(v) => v,
            Err(e) => return Err(e),
        };
        Ok((Self { client, version, tag_buffer: tag_buffer.0 }, p))
    }
}

impl ApiReqContent {
    /// Reads a compact string at `pos`. A length byte of zero is reported
    /// as `RequestError::Protocol`.
    pub fn from_socket(input: &[u8], pos: usize) -> (r: Result<(Self, usize), RequestError>)
        ensures
            read_view(r) == spec_compact_string(input@, pos as int),
    {
        let (length, p) = match Bytes8::from_stream(input, pos) {
            Ok(v) => v,
            Err(e) => return Err(e),
        };
        proof {
            crate::protocol::reader::lemma_be_value_bound(input@.subrange(pos as int, pos + 1));
            reveal_with_fuel(crate::protocol::reader::byte_bound, 2);
        }
        if length.0 == 0 {
            return Err(zero_length());
        }
        let (text, p) = match read_text(input, p, (length.0 - 1) as usize) {
            Ok(v) => v,
            Err(e) => return Err(e),
        };
        Ok((Self(length.0, text), p))
    }
}

/// An `ApiVersions` request body is laid out from `pos` as: the client
/// software name, a compact string whose length byte `n` is at `pos`; the
/// client software version, a compact string whose length byte `m` is at
/// `pos + n`; the tag buffer, one byte at `pos + n + m`.
pub proof fn lemma_api_req_body_layout(s: Seq<u8>, pos: int)
    requires
        spec_api_req_body(s, pos) is Ok,
    ensures
        ({
            let ((client, version, tag_buffer), end) = spec_api_req_body(s, pos)->Ok_0;
            let n = s[pos] as int;
            let m = s[pos + n] as int;
            &&& 0 <= pos && n >= 1 && m >= 1 && end == pos + n + m + 1 && end <= s.len()
            &&& client == (s[pos], decode_utf8(s.subrange(pos + 1, pos + n)))
            &&& version == (s[pos + n], decode_utf8(s.subrange(pos + n + 1, pos + n + m)))
            &&& tag_buffer == s[pos + n + m]
        }),
{
    lemma_compact_string_at(s, pos);
    let n = s[pos] as int;
    lemma_compact_string_at(s, pos + n);
    let m = s[pos + n] as int;
    lemma_u8_at(s, pos + n + m);
}

/// An `ApiVersions` request is laid out from `pos` as: the frame size,
/// four bytes big-endian; the header at `pos + 4`; the body right after
/// the header.
pub proof fn lemma_api_versions_req_layout(s: Seq<u8>, pos: int)
    requires
        spec_api_versions_req(s, pos) is Ok,
    ensures
        ({
            let ((size, header, body), end) = spec_api_versions_req(s, pos)->Ok_0;
            let (h, q) = spec_api_req_header(s, pos + 4)->Ok_0;
            &&& 0 <= pos
            &&& size as int == be_value(s.subrange(pos, pos + 4))
            &&& spec_api_req_header(s, pos + 4) is Ok
            &&& header == h
            &&& spec_api_req_body(s, q) == Ok::<(<ApiReqBody as View>::V, int), crate::error::ParseFail>((body, end))
        }),
{
    lemma_wide_at(s, pos);
}

} // verus!
