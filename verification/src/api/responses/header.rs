use crate::api::requests::RequestHeader;
use crate::api::responses::traits::{ResponseBytes, ResponseHeader};
use crate::buffer::{be32, put_u32, put_u8};
use crate::error::ParseFail;
use crate::protocol::reader::{lemma_u32_written, spec_u32};
use bytes::BytesMut;
use vstd::prelude::*;

verus! {

/// The response header without tagged fields.
#[derive(Debug)]
pub struct ResHeaderV0 {
    pub correalation_id: u32,
}

/// The response header with a tag buffer.
#[derive(Debug)]
pub struct ResHeaderV1 {
    pub correalation_id: u32,
    pub tag_buffer: u8,
}

impl ResponseBytes for ResHeaderV0 {
    open spec fn spec_to_bytes(&self) -> Seq<u8> {
        be32(self.correalation_id)
    }

    open spec fn writable(&self) -> bool {
        true
    }

    fn to_bytes(&self) -> (r: BytesMut) {
        let mut buf = BytesMut::with_capacity(4);
        put_u32(&mut buf, self.correalation_id);
        buf
    }
}

impl ResponseBytes for ResHeaderV1 {
    open spec fn spec_to_bytes(&self) -> Seq<u8> {
        be32(self.correalation_id).push(self.tag_buffer)
    }

    open spec fn writable(&self) -> bool {
        true
    }

    fn to_bytes(&self) -> (r: BytesMut) {
        let mut buf = BytesMut::with_capacity(5);
        put_u32(&mut buf, self.correalation_id);
        put_u8(&mut buf, self.tag_buffer);
        buf
    }
}

impl ResponseHeader for ResHeaderV0 {
    /// Echoes the correlation id of the request.
    fn from_request(header: &RequestHeader) -> (r: Self)
        ensures
            r.correalation_id == header.correlation_id@,
    {
        Self { correalation_id: header.correlation_id.0 }
    }
}

impl ResponseHeader for ResHeaderV1 {
    /// Echoes the correlation id and the tag buffer of the request.
    fn from_request(header: &RequestHeader) -> (r: Self)
        ensures
            r.correalation_id == header.correlation_id@,
            r.tag_buffer == header.tag_buffer@,
    {
        Self { correalation_id: header.correlation_id.0, tag_buffer: header.tag_buffer.0 }
    }
}

/// Read back with the big-endian reader, both headers start with the
/// correlation id; the header with tagged fields then holds its tag
/// buffer.
pub proof fn lemma_header_layout(h0: ResHeaderV0, h1: ResHeaderV1)
    ensures
        h0.spec_to_bytes().len() == 4,
        spec_u32(h0.spec_to_bytes(), 0) == Ok::<(u32, int), ParseFail>((h0.correalation_id, 4)),
        h1.spec_to_bytes().len() == 5,
        spec_u32(h1.spec_to_bytes(), 0) == Ok::<(u32, int), ParseFail>((h1.correalation_id, 4)),
        h1.spec_to_bytes()[4] == h1.tag_buffer,
{
    let b0 = h0.spec_to_bytes();
    let b1 = h1.spec_to_bytes();
    assert(b0.subrange(0, 4) =~= be32(h0.correalation_id));
    lemma_u32_written(b0, 0, h0.correalation_id);
    assert(b1.subrange(0, 4) =~= be32(h1.correalation_id));
    lemma_u32_written(b1, 0, h1.correalation_id);
}

} // verus!
