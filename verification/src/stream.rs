//! Answering one request frame of a connection.
pub mod request;
pub mod res;
pub mod response;
use crate::api::capabilites::api_table;
use crate::api::requests::body::describe_topics_partitions::ReqTopicParition;
use crate::api::requests::{answers, ApiVersionsRequest, IntoResponse, ReqDescribeTopicPartitions, Request, RequestBodyView, RequestHeader};
use crate::api::responses::body::api_versions::{count_byte, spec_api_error_code, ApiVersionsVer};
use crate::api::responses::body::describe_topics_partitions::{utf8_bytes, TopicResponse};
use crate::api::responses::traits::all_bytes;
use crate::api::responses::{spec_frame, Response, ResponseBytes};
use crate::buffer::{be16, be32, buf_bytes};
use crate::error::{ParseFail, RequestError};
use crate::protocol::reader::{be_value, lemma_u32_roundtrip, spec_u32, spec_compact_string, spec_elems, spec_take, spec_uint, StreamReader};
use bytes::BytesMut;
use vstd::prelude::*;

verus! {

/// The wire form of one API entry of an `ApiVersions` response.
pub open spec fn entry_bytes(e: (u16, u16, u16)) -> Seq<u8> {
    be16(e.0) + be16(e.1) + be16(e.2) + seq![0u8]
}

/// The wire forms of API entries, one after the other.
pub open spec fn entries_bytes(t: Seq<(u16, u16, u16)>) -> Seq<u8>
    decreases t.len(),
{
    if t.len() == 0 {
        Seq::empty()
    } else {
        entries_bytes(t.drop_last()) + entry_bytes(t.last())
    }
}

/// The frame that answers an `ApiVersions` request: the correlation id;
/// the error code; the supported APIs when the version is served, none
/// otherwise; a zero throttle time; the tag buffer of the request body.
pub open spec fn api_versions_response(
    header: <RequestHeader as View>::V,
    body: <ApiVersionsRequest as View>::V,
) -> Seq<u8> {
    let code = spec_api_error_code(header.0, header.1);
    let entries = if code == 0 { api_table() } else { Seq::empty() };
    spec_frame(
        be32(header.2),
        be16(code) + seq![count_byte(entries.len())] + entries_bytes(entries) + be32(0) + seq![body.2],
    )
}

/// The wire form of a topic that the broker does not know.
pub open spec fn unknown_topic_bytes(name: Seq<char>) -> Seq<u8> {
    be16(3) + seq![count_byte(utf8_bytes(name).len())] + utf8_bytes(name) + Seq::new(16, |j: int| 0u8)
        + seq![0u8] + seq![count_byte(0)] + seq![0u8]
}

/// The wire forms of unknown topics, one after the other.
pub open spec fn unknown_topics_bytes(names: Seq<Seq<char>>) -> Seq<u8>
    decreases names.len(),
{
    if names.len() == 0 {
        Seq::empty()
    } else {
        unknown_topics_bytes(names.drop_last()) + unknown_topic_bytes(names.last())
    }
}

/// The frame that answers a `DescribeTopicPartitions` request: the
/// correlation id and tag buffer; a zero throttle time; each requested
/// topic, in order, as unknown; no next cursor; the tag buffer of the
/// request body.
pub open spec fn describe_response(
    header: <RequestHeader as View>::V,
    body: <ReqDescribeTopicPartitions as View>::V,
) -> Seq<u8> {
    let names = body.0.1.map_values(|t: ((u8, Seq<char>), u8)| t.0.1);
    spec_frame(
        be32(header.2).push(header.4),
        be32(0) + seq![count_byte(names.len())] + unknown_topics_bytes(names) + seq![0xffu8, body.3],
    )
}

/// The frame that answers a request.
pub open spec fn spec_response(req: <Request as View>::V) -> Seq<u8> {
    match req.1 {
        RequestBodyView::ApiVersion(b) => api_versions_response(req.0, b),
        RequestBodyView::DescribeTopicPartitions(b) => describe_response(req.0, b),
    }
}

proof fn lemma_versions_bytes(vs: Seq<ApiVersionsVer>, t: Seq<(u16, u16, u16)>)
    requires
        vs.len() == t.len(),
        forall|i: int| 0 <= i < vs.len() ==> #[trigger] vs[i].entry() == t[i] && vs[i].tag_buffer == 0,
    ensures
        all_bytes(vs) == entries_bytes(t),
    decreases vs.len(),
{
    if vs.len() > 0 {
        lemma_versions_bytes(vs.drop_last(), t.drop_last());
        assert(vs.last().entry() == t.last());
        assert(vs.last().spec_to_bytes() == entry_bytes(t.last()));
    }
}

proof fn lemma_topics_bytes(ts: Seq<TopicResponse>, names: Seq<Seq<char>>)
    requires
        ts.len() == names.len(),
        forall|i: int| 0 <= i < ts.len() ==> {
            let t = #[trigger] ts[i];
            &&& t.error_code == 3
            &&& t.name@ == names[i]
            &&& t.topic_id@ == Seq::new(16, |j: int| 0u8)
            &&& t.partitions@.len() == 0
            &&& t.tag_buffer == 0
        },
    ensures
        all_bytes(ts) == unknown_topics_bytes(names),
    decreases ts.len(),
{
    if ts.len() > 0 {
        lemma_topics_bytes(ts.drop_last(), names.drop_last());
        let t = ts.last();
        assert(ts[ts.len() - 1] == t);
        assert(t.partitions@ =~= Seq::<crate::api::responses::body::describe_topics_partitions::PartitionV0Entry>::empty());
        assert(t.spec_to_bytes() =~= unknown_topic_bytes(names.last()));
    }
}

proof fn lemma_topics_len(names: Seq<Seq<char>>)
    requires
        forall|i: int| 0 <= i < names.len() ==> utf8_bytes(#[trigger] names[i]).len() < 255,
    ensures
        unknown_topics_bytes(names).len() <= 277 * names.len(),
    decreases names.len(),
{
    if names.len() > 0 {
        lemma_topics_len(names.drop_last());
        assert(utf8_bytes(names[names.len() - 1]).len() < 255);
    }
}

/// The text of a compact string has fewer than 255 bytes of UTF-8.
proof fn lemma_compact_string_short(s: Seq<u8>, pos: int)
    requires
        spec_compact_string(s, pos) is Ok,
    ensures
        utf8_bytes(spec_compact_string(s, pos)->Ok_0.0.1).len() < 255,
{
    let (n, p) = spec_uint(s, pos, 1)->Ok_0;
    let b = spec_take(s, p, n - 1)->Ok_0.0;
    crate::protocol::reader::lemma_be_value_bound(s.subrange(pos, pos + 1));
    reveal_with_fuel(crate::protocol::reader::byte_bound, 2);
    vstd::utf8::decode_utf8_encode_utf8(b);
}

proof fn lemma_topic_elems(s: Seq<u8>, pos: int, n: nat)
    requires
        spec_elems::<ReqTopicParition>(s, pos, n) is Ok,
    ensures
        ({
            let xs = spec_elems::<ReqTopicParition>(s, pos, n)->Ok_0.0;
            &&& xs.len() == n
            &&& forall|i: int| 0 <= i < n ==> utf8_bytes((#[trigger] xs[i]).0.1).len() < 255
        }),
    decreases n,
{
    if n > 0 {
        lemma_topic_elems(s, pos, (n - 1) as nat);
        let (xs, p) = spec_elems::<ReqTopicParition>(s, pos, (n - 1) as nat)->Ok_0;
        assert(ReqTopicParition::spec_from_stream(s, p) is Ok);
        lemma_compact_string_short(s, p);
        let ys = spec_elems::<ReqTopicParition>(s, pos, n)->Ok_0.0;
        assert forall|i: int| 0 <= i < n implies utf8_bytes((#[trigger] ys[i]).0.1).len() < 255 by {
            if i < n - 1 {
                assert(ys[i] == xs[i]);
            }
        }
    }
}

proof fn lemma_api_versions_frame(rv: <Request as View>::V, resp: Response)
    requires
        answers(rv, resp),
        rv.1 is ApiVersion,
    ensures
        resp.writable(),
        resp.spec_to_bytes() == spec_response(rv),
{
    if let (RequestBodyView::ApiVersion(b), Response::ApiVersions(h, body)) = (rv.1, resp) {
        let code = spec_api_error_code(rv.0.0, rv.0.1);
        let entries = if code == 0 { api_table() } else { Seq::empty() };
        lemma_versions_bytes(body.versions@, entries);
        reveal_with_fuel(entries_bytes, 3);
        assert(all_bytes(body.versions@).len() <= 14);
        assert(body.spec_to_bytes() =~= be16(code) + seq![count_byte(entries.len())] + entries_bytes(entries)
            + be32(0) + seq![b.2]);
    }
}

proof fn lemma_describe_frame(rv: <Request as View>::V, resp: Response)
    requires
        answers(rv, resp),
        rv.1 matches RequestBodyView::DescribeTopicPartitions(b) && {
            &&& b.0.1.len() <= 254
            &&& forall|i: int| 0 <= i < b.0.1.len() ==> utf8_bytes((#[trigger] b.0.1[i]).0.1).len() < 255
        },
    ensures
        resp.writable(),
        resp.spec_to_bytes() == spec_response(rv),
{
    if let (RequestBodyView::DescribeTopicPartitions(b), Response::DescribeTopic(h, body)) = (rv.1, resp) {
        let names = b.0.1.map_values(|t: ((u8, Seq<char>), u8)| t.0.1);
        let ts = body.topics@;
        assert forall|i: int| 0 <= i < names.len() implies utf8_bytes(#[trigger] names[i]).len() < 255 by {
            assert(names[i] == b.0.1[i].0.1);
        }
        lemma_topics_bytes(ts, names);
        lemma_topics_len(names);
        assert forall|i: int| 0 <= i < ts.len() implies #[trigger] ts[i].writable() by {
            let t = ts[i];
            assert(t.name@ == names[i]);
            assert(t.partitions@ =~= Seq::empty());
            assert(t.spec_to_bytes().len() == 22 + utf8_bytes(t.name@).len());
        }
        assert(body.spec_to_bytes() =~= be32(0) + seq![count_byte(names.len())] + unknown_topics_bytes(names)
            + seq![0xffu8, b.3]);
    }
}

proof fn lemma_request_names(s: Seq<u8>)
    requires
        Request::spec_from_stream(s, 0) is Ok,
    ensures
        Request::spec_from_stream(s, 0)->Ok_0.0.1 matches RequestBodyView::DescribeTopicPartitions(b) ==> {
            &&& b.0.1.len() <= 254
            &&& forall|i: int| 0 <= i < b.0.1.len() ==> utf8_bytes((#[trigger] b.0.1[i]).0.1).len() < 255
        },
{
    let (h, p) = RequestHeader::spec_from_stream(s, 0)->Ok_0;
    if h.0 != 18 {
        let (n, q) = spec_uint(s, p, 1)->Ok_0;
        crate::protocol::reader::lemma_be_value_bound(s.subrange(p, p + 1));
        reveal_with_fuel(crate::protocol::reader::byte_bound, 2);
        lemma_topic_elems(s, q, (n - 1) as nat);
    }
}

/// Answers one request frame: reads the request at the start of `frame`
/// and writes the frame of its response.
pub fn respond(frame: &[u8]) -> (r: Result<BytesMut, RequestError>)
    ensures
        match r {
            Ok(bytes) => {
                &&& Request::spec_from_stream(frame@, 0) is Ok
                &&& buf_bytes(bytes) == spec_response(Request::spec_from_stream(frame@, 0)->Ok_0.0)
            },
            Err(e) => Request::spec_from_stream(frame@, 0) == Err::<(<Request as View>::V, int), ParseFail>(
                e.fail(),
            ),
        },
{
    let (req, _) = match Request::from_stream(frame, 0) {
        Ok(v) => v,
        Err(e) => return Err(e),
    };
    let resp = req.into_response();
    proof {
        lemma_request_names(frame@);
        if req@.1 is ApiVersion {
            lemma_api_versions_frame(req@, resp);
        } else {
            lemma_describe_frame(req@, resp);
        }
    }
    Ok(resp.to_bytes())
}

/// The response frame to a request carries, right after its size field,
/// the correlation id of the request.
pub proof fn lemma_response_correlation(req: <Request as View>::V)
    ensures
        spec_u32(spec_response(req), 4) == Ok::<(u32, int), ParseFail>((req.0.2, 8)),
{
    let r = spec_response(req);
    let size = r.subrange(0, 4);
    match req.1 {
        RequestBodyView::ApiVersion(b) => {
            let rest = r.subrange(8, r.len() as int);
            assert(size + be32(req.0.2) + rest =~= r);
            lemma_u32_roundtrip(size, req.0.2, rest);
        },
        RequestBodyView::DescribeTopicPartitions(b) => {
            let rest = r.subrange(8, r.len() as int);
            assert(size + be32(req.0.2) + rest =~= r);
            lemma_u32_roundtrip(size, req.0.2, rest);
        },
    }
}

/// The name of an unknown topic in a response reads back, with the compact
/// string reader, as the name that was asked for (for a name of fewer than
/// 255 bytes: a longer one has its length byte cut).
pub proof fn lemma_topic_name_reads_back(name: Seq<char>, after: Seq<u8>)
    requires
        utf8_bytes(name).len() < 255,
    ensures
        spec_compact_string(unknown_topic_bytes(name) + after, 2) == Ok::<((u8, Seq<char>), int), ParseFail>(
            ((count_byte(utf8_bytes(name).len()), name), 3 + utf8_bytes(name).len() as int),
        ),
{
    let enc = utf8_bytes(name);
    let s = unknown_topic_bytes(name) + after;
    let len = enc.len();
    vstd::utf8::encode_utf8_valid_utf8(name);
    vstd::utf8::encode_utf8_decode_utf8(name);
    assert(s.subrange(2, 3) =~= seq![count_byte(len)]);
    assert(s.subrange(2, 3).drop_last() =~= Seq::<u8>::empty());
    assert(s.subrange(3, 3 + len as int) =~= enc);
    assert(count_byte(len) as int == len + 1);
    assert(be_value(s.subrange(2, 3)) == len + 1) by {
        reveal_with_fuel(be_value, 2);
    }
}

} // verus!
