//! An older reader of `ApiVersions` requests, with the errors of
//! `CodecError`.
use crate::error::{ErrorKind, ParseFail, RequestError};
use crate::protocol::reader::{
    read_text, spec_compact_string, spec_string, spec_u16, spec_u32, spec_u8, then, Bytes16,
    Bytes32, Bytes8, SpecRead, StreamReader,
};
use crate::utils::CodecError;
use crate::protocol::reader::{be_value, lemma_compact_string_at, lemma_string_at, lemma_u16_at, lemma_u8_at, lemma_wide_at};
use vstd::prelude::*;
use vstd::utf8::decode_utf8;

verus! {

#[derive(Debug)]
pub struct RequestApiVersion {
    pub msg_size: u32,
    pub header: RequestHeader,
    pub api_version: ApiVersion,
}

#[derive(Debug)]
pub struct RequestHeader {
    pub key: u16,
    pub version: u16,
    pub correlation_id: u32,
    pub client: ClientId,
    pub tag_buffer: u8,
}

#[derive(Debug)]
pub struct ClientId {
    pub length: u16,
    pub content: String,
}

#[derive(Debug)]
pub struct ClientSoftwareVersion {
    pub length: u8,
    pub content: String,
}

#[derive(Debug)]
pub struct ApiVersion {
    pub client: ApiVersionClientId,
    pub software_version: ClientSoftwareVersion,
    pub tag_buffer: u8,
}

#[derive(Debug)]
pub struct ApiVersionClientId {
    pub length: u8,
    pub content: String,
}

pub struct Header {
    pub api_key: i16,
    pub api_version: i16,
    pub correlation_id: i32,
    pub msg_size: u32,
    pub client_id: Option<Vec<u8>>,
    pub tag_buffer: Option<Vec<u8>>,
}

impl Header {
    /// 0 when the API version is between 0 and 4, else 35.
    pub fn check_version(&self) -> (r: i16)
        ensures
            r == if 0 <= self.api_version <= 4 { 0i16 } else { 35i16 },
    {
        match self.api_version {
            0..=4 => 0,
            _ => 35,
        }
    }
}

impl View for ClientId {
    type V = (u16, Seq<char>);

    open spec fn view(&self) -> Self::V {
        (self.length, self.content@)
    }
}

impl View for ClientSoftwareVersion {
    type V = (u8, Seq<char>);

    open spec fn view(&self) -> Self::V {
        (self.length, self.content@)
    }
}

impl View for ApiVersionClientId {
    type V = (u8, Seq<char>);

    open spec fn view(&self) -> Self::V {
        (self.length, self.content@)
    }
}

impl View for RequestHeader {
    type V = (u16, u16, u32, (u16, Seq<char>), u8);

    open spec fn view(&self) -> Self::V {
        (self.key, self.version, self.correlation_id, self.client@, self.tag_buffer)
    }
}

impl View for ApiVersion {
    type V = ((u8, Seq<char>), (u8, Seq<char>), u8);

    open spec fn view(&self) -> Self::V {
        (self.client@, self.software_version@, self.tag_buffer)
    }
}

impl View for RequestApiVersion {
    type V = (u32, <RequestHeader as View>::V, <ApiVersion as View>::V);

    open spec fn view(&self) -> Self::V {
        (self.msg_size, self.header@, self.api_version@)
    }
}

/// The error that these readers report for a reading failure: an input
/// that ends early is invalid data, and text that is not UTF-8 is
/// reported as an unexpected end.
pub open spec fn codec_fail(e: CodecError, f: ParseFail) -> bool {
    match f {
        ParseFail::Eof => e == CodecError::InvalidData(ErrorKind::UnexpectedEof),
        ParseFail::Utf8(_) => e == CodecError::UnexpectedEof,
        _ => false,
    }
}

/// An executable reading outcome with these errors matches a mathematical one.
pub open spec fn codec_read<T: View>(r: Result<(T, usize), CodecError>, s: SpecRead<T::V>) -> bool {
    match (r, s) {
        (Ok((v, p)), Ok((w, q))) => v@ == w && p == q,
        (Err(e), Err(f)) => codec_fail(e, f),
        _ => false,
    }
}

/// The `CodecError` for an error of the primitive readers.
fn codec_error(e: RequestError) -> (c: CodecError)
    requires
        e.fail() is Eof || e.fail() is Utf8,
    ensures
        codec_fail(c, e.fail()),
{
    match e {
        RequestError::Utf8(_) => CodecError::UnexpectedEof,
        _ => CodecError::InvalidData(ErrorKind::UnexpectedEof),
    }
}

/// An `ApiVersions` request at `pos`: the frame size, the header, then
/// the client name, the client software version and the tag buffer.
pub open spec fn spec_request_api_version(input: Seq<u8>, pos: int) -> SpecRead<<RequestApiVersion as View>::V> {
    then(spec_u32(input, pos), |msg_size: u32, p1: int|
    then(spec_u16(input, p1), |key: u16, p2: int|
    then(spec_u16(input, p2), |version: u16, p3: int|
    then(spec_u32(input, p3), |correlation_id: u32, p4: int|
    then(spec_string(input, p4), |client: (u16, Seq<char>), p5: int|
    then(spec_u8(input, p5), |tag_buffer: u8, p6: int|
    then(spec_compact_string(input, p6), |api_client: (u8, Seq<char>), p7: int|
    then(spec_compact_string(input, p7), |software_version: (u8, Seq<char>), p8: int|
    then(spec_u8(input, p8), |api_tag_buffer: u8, p9: int|
        Ok((
            (msg_size, (key, version, correlation_id, client, tag_buffer), (api_client, software_version, api_tag_buffer)),
            p9,
        ))
    )))))))))
}

/// Reads a compact string at `pos`, whose length byte is not zero.
fn read_compact(input: &[u8], pos: usize) -> (r: Result<(u8, String, usize), CodecError>)
    requires
        spec_compact_string(input@, pos as int) != Err::<((u8, Seq<char>), int), ParseFail>(ParseFail::ZeroLength),
    ensures
        match (r, spec_compact_string(input@, pos as int)) {
            (Ok((n, t, p)), Ok((w, q))) => (n, t@) == w && p == q,
            (Err(e), Err(f)) => codec_fail(e, f),
            _ => false,
        },
{
    let (length, p) = match Bytes8::from_stream(input, pos) {
        Ok(v) => v,
        Err(e) => return Err(codec_error(e)),
    };
    proof {
        crate::protocol::reader::lemma_be_value_bound(input@.subrange(pos as int, pos + 1));
        reveal_with_fuel(crate::protocol::reader::byte_bound, 2);
    }
    let (content, p) = match read_text(input, p, (length.0 - 1) as usize) {
        Ok(v) => v,
        Err(e) => return Err(codec_error(e)),
    };
    Ok((length.0, content, p))
}

impl ApiVersionClientId {
    /// Reads the client name: a length byte, then one byte less of UTF-8.
    pub fn read_client(input: &[u8], pos: usize) -> (r: Result<(Self, usize), CodecError>)
        requires
            spec_compact_string(input@, pos as int) != Err::<((u8, Seq<char>), int), ParseFail>(ParseFail::ZeroLength),
        ensures
            codec_read(r, spec_compact_string(input@, pos as int)),
    {
        match read_compact(input, pos) {
            Ok((length, content, p)) => Ok((Self { length, content }, p)),
            Err(e) => Err(e),
        }
    }
}

impl ClientSoftwareVersion {
    /// Reads the client software version: a length byte, then one byte
    /// less of UTF-8.
    pub fn read_client(input: &[u8], pos: usize) -> (r: Result<(Self, usize), CodecError>)
        requires
            spec_compact_string(input@, pos as int) != Err::<((u8, Seq<char>), int), ParseFail>(ParseFail::ZeroLength),
        ensures
            codec_read(r, spec_compact_string(input@, pos as int)),
    {
        match read_compact(input, pos) {
            Ok((length, content, p)) => Ok((Self { length, content }, p)),
            Err(e) => Err(e),
        }
    }
}

impl ClientId {
    /// Reads the client id: a two-byte length, then that many bytes of
    /// UTF-8.
    pub fn read_client(input: &[u8], pos: usize) -> (r: Result<(Self, usize), CodecError>)
        ensures
            codec_read(r, spec_string(input@, pos as int)),
    {
        let (length, p) = match Bytes16::from_stream(input, pos) {
            Ok(v) => v,
            Err(e) => return Err(codec_error(e)),
        };
        proof {
            crate::protocol::reader::lemma_be_value_bound(input@.subrange(pos as int, pos + 2));
            reveal_with_fuel(crate::protocol::reader::byte_bound, 3);
        }
        let (content, p) = match read_text(input, p, length.0 as usize) {
            Ok(v) => v,
            Err(e) => return Err(codec_error(e)),
        };
        Ok((Self { length: length.0, content }, p))
    }
}

impl RequestApiVersion {
    /// Reads a whole `ApiVersions` request at `pos`; its two compact
    /// strings must not have a zero length byte.
    pub fn from_socket(input: &[u8], pos: usize) -> (r: Result<(Self, usize), CodecError>)
        requires
            spec_request_api_version(input@, pos as int) != Err::<(<RequestApiVersion as View>::V, int), ParseFail>(
                ParseFail::ZeroLength,
            ),
        ensures
            codec_read(r, spec_request_api_version(input@, pos as int)),
    {
        let (msg_size, p) = match Bytes32::from_stream(input, pos) {
            Ok(v) => v,
            Err(e) => return Err(codec_error(e)),
        };
        let (api_key, p) = match Bytes16::from_stream(input, p) {
            Ok(v) => v,
            Err(e) => return Err(codec_error(e)),
        };
        let (api_version, p) = match Bytes16::from_stream(input, p) {
            Ok(v) => v,
            Err(e) => return Err(codec_error(e)),
        };
        let (correlation_id, p) = match Bytes32::from_stream(input, p) {
            Ok(v) => v,
            Err(e) => return Err(codec_error(e)),
        };
        let (header_client, p) = match ClientId::read_client(input, p) {
            Ok(v) => v,
            Err(e) => return Err(e),
        };
        let (tag_buffer, p) = match Bytes8::from_stream(input, p) {
            Ok(v) => v,
            Err(e) => return Err(codec_error(e)),
        };
        let (api_version_client, p) = match ApiVersionClientId::read_client(input, p) {
            Ok(v) => v,
            Err(e) => return Err(e),
        };
        let (software_version, p) = match ClientSoftwareVersion::read_client(input, p) {
            Ok(v) => v,
            Err(e) => return Err(e),
        };
        let (api_tag_buffer, p) = match Bytes8::from_stream(input, p) {
            Ok(v) => v,
            Err(e) => return Err(codec_error(e)),
        };
        Ok(
            (
                RequestApiVersion {
                    msg_size: msg_size.0,
                    header: RequestHeader {
                        key: api_key.0,
                        version: api_version.0,
                        correlation_id: correlation_id.0,
                        client: header_client,
                        tag_buffer: tag_buffer.0,
                    },
                    api_version: ApiVersion {
                        client: api_version_client,
                        software_version,
                        tag_buffer: api_tag_buffer.0,
                    },
                },
                p,
            ),
        )
    }
}

/// An `ApiVersions` request is laid out from `pos` as: the frame size
/// (four bytes), the API key (two), the API version (two), the
/// correlation id (four), each big-endian; the client id, a string whose
/// two-byte length `n` is at `pos + 12`; the tag buffer at `pos + 14 + n`;
/// the client software name, a compact string whose length byte `a` is at
/// `pos + 15 + n`; the client software version, a compact string whose
/// length byte `b` is at `pos + 15 + n + a`; the tag buffer at
/// `pos + 15 + n + a + b`.
pub proof fn lemma_request_api_version_layout(s: Seq<u8>, pos: int)
    requires
        spec_request_api_version(s, pos) is Ok,
    ensures
        ({
            let ((msg_size, header, body), end) = spec_request_api_version(s, pos)->Ok_0;
            let n = s[pos + 12] * 256 + s[pos + 13];
            let a = s[pos + 15 + n] as int;
            let b = s[pos + 15 + n + a] as int;
            &&& 0 <= pos && a >= 1 && b >= 1 && end == pos + 16 + n + a + b && end <= s.len()
            &&& msg_size as int == be_value(s.subrange(pos, pos + 4))
            &&& header.0 as int == s[pos + 4] * 256 + s[pos + 5]
            &&& header.1 as int == s[pos + 6] * 256 + s[pos + 7]
            &&& header.2 as int == be_value(s.subrange(pos + 8, pos + 12))
            &&& header.3.0 as int == n
            &&& header.3.1 == decode_utf8(s.subrange(pos + 14, pos + 14 + n))
            &&& header.4 == s[pos + 14 + n]
            &&& body.0 == (s[pos + 15 + n], decode_utf8(s.subrange(pos + 16 + n, pos + 15 + n + a)))
            &&& body.1 == (s[pos + 15 + n + a], decode_utf8(s.subrange(pos + 16 + n + a, pos + 15 + n + a + b)))
            &&& body.2 == s[pos + 15 + n + a + b]
        }),
{
    lemma_wide_at(s, pos);
    lemma_u16_at(s, pos + 4);
    lemma_u16_at(s, pos + 6);
    lemma_wide_at(s, pos + 8);
    lemma_string_at(s, pos + 12);
    let n = s[pos + 12] * 256 + s[pos + 13];
    lemma_u8_at(s, pos + 14 + n);
    lemma_compact_string_at(s, pos + 15 + n);
    let a = s[pos + 15 + n] as int;
    lemma_compact_string_at(s, pos + 15 + n + a);
    let b = s[pos + 15 + n + a] as int;
    lemma_u8_at(s, pos + 15 + n + a + b);
}

} // verus!
