pub mod body;
pub mod header;
pub mod traits;

pub use self::body::api_versions::ApiVersionsBody;
pub use self::body::describe_topics_partitions::DescribeTopicBody;
pub use self::header::{ResHeaderV0, ResHeaderV1};
pub use self::traits::{ResponseBody, ResponseBytes, ResponseHeader};

use crate::buffer::{be32, extend_buf, put_u32};
use crate::error::ParseFail;
use crate::protocol::reader::{lemma_u32_roundtrip, spec_u32};
use bytes::BytesMut;
use vstd::prelude::*;

verus! {

/// A response: its header and body, by API.
pub enum Response {
    DescribeTopic(ResHeaderV1, DescribeTopicBody),
    ApiVersions(ResHeaderV0, ApiVersionsBody),
}

/// A frame: the four-byte size of the header and body, then both.
pub open spec fn spec_frame(header: Seq<u8>, body: Seq<u8>) -> Seq<u8> {
    be32(((header.len() as u32) + (body.len() as u32)) as u32) + header + body
}

/// A frame can be written: the two lengths, each cut to 32 bits, add up
/// without overflow, and the frame fits an allocation.
pub open spec fn frame_writable(header: Seq<u8>, body: Seq<u8>) -> bool {
    &&& (header.len() as u32) + (body.len() as u32) <= u32::MAX
    &&& 4 + header.len() + body.len() <= isize::MAX
}

impl ResponseBytes for Response {
    open spec fn spec_to_bytes(&self) -> Seq<u8> {
        match self {
            Response::DescribeTopic(h, b) => spec_frame(h.spec_to_bytes(), b.spec_to_bytes()),
            Response::ApiVersions(h, b) => spec_frame(h.spec_to_bytes(), b.spec_to_bytes()),
        }
    }

    open spec fn writable(&self) -> bool {
        match self {
            Response::DescribeTopic(h, b) => h.writable() && b.writable() && frame_writable(
                h.spec_to_bytes(),
                b.spec_to_bytes(),
            ),
            Response::ApiVersions(h, b) => h.writable() && b.writable() && frame_writable(
                h.spec_to_bytes(),
                b.spec_to_bytes(),
            ),
        }
    }

    fn to_bytes(&self) -> (r: BytesMut) {
        let mut bytes = BytesMut::new();
        let (header, body) = match self {
            Response::DescribeTopic(res_header, res_body) => (res_header.to_bytes(), res_body.to_bytes()),
            Response::ApiVersions(res_header, res_body) => (res_header.to_bytes(), res_body.to_bytes()),
        };
        put_u32(&mut bytes, header.len() as u32 + body.len() as u32);
        extend_buf(&mut bytes, header);
        extend_buf(&mut bytes, body);
        bytes
    }
}

/// The size field of a frame, read back, is the number of bytes that
/// follow it, and those bytes are the header and then the body (for a
/// header and body of fewer than 2^32 bytes together: the size field is
/// cut to 32 bits).
pub proof fn lemma_frame_size(header: Seq<u8>, body: Seq<u8>)
    requires
        header.len() + body.len() <= u32::MAX,
    ensures
        spec_u32(spec_frame(header, body), 0) == Ok::<(u32, int), ParseFail>(
            ((spec_frame(header, body).len() - 4) as u32, 4),
        ),
        spec_frame(header, body).subrange(4, spec_frame(header, body).len() as int) == header + body,
{
    let n = ((header.len() as u32) + (body.len() as u32)) as u32;
    lemma_u32_roundtrip(Seq::empty(), n, header + body);
    assert(Seq::<u8>::empty() + be32(n) + (header + body) =~= spec_frame(header, body));
    assert(spec_frame(header, body).subrange(4, spec_frame(header, body).len() as int) =~= header + body);
}

} // verus!
