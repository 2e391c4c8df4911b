use crate::error::RequestError;
use crate::protocol::reader::{
    spec_compact_string, spec_u8, then, Bytes8, BytesCompactString, SpecRead, StreamReader,
};
use crate::protocol::reader::{lemma_compact_string_at, lemma_u8_at};
use vstd::prelude::*;
use vstd::utf8::decode_utf8;

verus! {

/// The body of an `ApiVersions` request.
#[derive(Debug)]
pub struct ApiVersionsRequest {
    pub client: BytesCompactString,
    pub version: BytesCompactString,
    pub tag_buffer: Bytes8,
}

impl View for ApiVersionsRequest {
    type V = ((u8, Seq<char>), (u8, Seq<char>), u8);

    open spec fn view(&self) -> Self::V {
        (self.client@, self.version@, self.tag_buffer@)
    }
}

impl StreamReader for ApiVersionsRequest {
    open spec fn spec_from_stream(input: Seq<u8>, pos: int) -> SpecRead<Self::V> {
        then(spec_compact_string(input, pos), |client: (u8, Seq<char>), p1: int|
        then(spec_compact_string(input, p1), |version: (u8, Seq<char>), p2: int|
        then(spec_u8(input, p2), |tag_buffer: u8, p3: int|
            Ok(((client, version, tag_buffer), p3))
        )))
    }

    fn from_stream(input: &[u8], pos: usize) -> (r: Result<(Self, usize), RequestError>) {
        let (client, p) = match BytesCompactString::from_stream(input, pos) {
            Ok(v) => v,
            Err(e) => return Err(e),
        };
        let (version, p) = match BytesCompactString::from_stream(input, p) {
            Ok(v) => v,
            Err(e) => return Err(e),
        };
        let (tag_buffer, p) = match Bytes8::from_stream(input, p) {
            Ok(v) => v,
            Err(e) => return Err(e),
        };
        Ok((Self { client, version, tag_buffer }, p))
    }
}

/// An `ApiVersions` request body is laid out from `pos` as: the client
/// software name, a compact string whose length byte `n` is at `pos`; the
/// client software version, a compact string whose length byte `m` is
/// right after the name, at `pos + n`; the tag buffer, one byte at
/// `pos + n + m`.
pub proof fn lemma_api_versions_request_layout(s: Seq<u8>, pos: int)
    requires
        ApiVersionsRequest::spec_from_stream(s, pos) is Ok,
    ensures
        ({
            let ((client, version, tag_buffer), end) = ApiVersionsRequest::spec_from_stream(s, pos)->Ok_0;
            let n = s[pos] as int;
            let m = s[pos + n] as int;
            &&& 0 <= pos && n >= 1 && m >= 1 && end == pos + n + m + 1 && end <= s.len()
            &&& client == (s[pos], decode_utf8(s.subrange(pos + 1, pos + n)))
            &&& version == (s[pos + n], decode_utf8(s.subrange(pos + n + 1, pos + n + m)))
            &&& tag_buffer == s[pos + n + m]
        }),
{
    lemma_compact_string_at(s, pos);
    let n = s[pos] as int;
    lemma_compact_string_at(s, pos + n);
    let m = s[pos + n] as int;
    lemma_u8_at(s, pos + n + m);
}

} // verus!
