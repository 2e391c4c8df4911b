use crate::error::RequestError;
use crate::protocol::reader::{
    spec_compact_array, spec_compact_string, spec_u32, spec_u8, then, Bytes32, Bytes8,
    BytesCompactArray, BytesCompactString, SpecRead, StreamReader,
};
use crate::error::ParseFail;
use crate::protocol::reader::{be_value, lemma_compact_string_at, lemma_elems_count, lemma_u8_at, lemma_wide_at, spec_elems};
use vstd::prelude::*;
use vstd::utf8::decode_utf8;

verus! {

/// The body of a `DescribeTopicPartitions` request.
#[derive(Debug)]
pub struct ReqDescribeTopicPartitions {
    pub topics: BytesCompactArray<ReqTopicParition>,
    pub partition_limit: Bytes32,
    pub cursor: Bytes8,
    pub tag_buffer: Bytes8,
}

/// One topic that a `DescribeTopicPartitions` request asks about.
#[derive(Debug)]
pub struct ReqTopicParition {
    pub name: BytesCompactString,
    pub tag_buffer: Bytes8,
}

impl View for ReqTopicParition {
    type V = ((u8, Seq<char>), u8);

    open spec fn view(&self) -> Self::V {
        (self.name@, self.tag_buffer@)
    }
}

impl View for ReqDescribeTopicPartitions {
    type V = ((u8, Seq<((u8, Seq<char>), u8)>), u32, u8, u8);

    open spec fn view(&self) -> Self::V {
        (self.topics@, self.partition_limit@, self.cursor@, self.tag_buffer@)
    }
}

impl StreamReader for ReqTopicParition {
    open spec fn spec_from_stream(input: Seq<u8>, pos: int) -> SpecRead<Self::V> {
        then(spec_compact_string(input, pos), |name: (u8, Seq<char>), p1: int|
        then(spec_u8(input, p1), |tag_buffer: u8, p2: int|
            Ok(((name, tag_buffer), p2))
        ))
    }

    fn from_stream(input: &[u8], pos: usize) -> (r: Result<(Self, usize), RequestError>) {
        let (name, p) = match BytesCompactString::from_stream(input, pos) {
            Ok(v) => v,
            Err(e) => return Err(e),
        };
        let (tag_buffer, p) = match Bytes8::from_stream(input, p) {
            Ok(v) => v,
            Err(e) => return Err(e),
        };
        Ok((Self { name, tag_buffer }, p))
    }
}

impl StreamReader for ReqDescribeTopicPartitions {
    open spec fn spec_from_stream(input: Seq<u8>, pos: int) -> SpecRead<Self::V> {
        then(spec_compact_array::<ReqTopicParition>(input, pos),
            |topics: (u8, Seq<((u8, Seq<char>), u8)>), p1: int|
        then(spec_u32(input, p1), |partition_limit: u32, p2: int|
        then(spec_u8(input, p2), |cursor: u8, p3: int|
        then(spec_u8(input, p3), |tag_buffer: u8, p4: int|
            Ok(((topics, partition_limit, cursor, tag_buffer), p4))
        ))))
    }

    fn from_stream(input: &[u8], pos: usize) -> (r: Result<(Self, usize), RequestError>) {
        let (topics, p) = match BytesCompactArray::<ReqTopicParition>::from_stream(input, pos) {
            Ok(v) => v,
            Err(e) => return Err(e),
        };
        let (partition_limit, p) = match Bytes32::from_stream(input, p) {
            Ok(v) => v,
            Err(e) => return Err(e),
        };
        let (cursor, p) = match Bytes8::from_stream(input, p) {
            Ok(v) => v,
            Err(e) => return Err(e),
        };
        let (tag_buffer, p) = match Bytes8::from_stream(input, p) {
            Ok(v) => v,
            Err(e) => return Err(e),
        };
        Ok((Self { topics, partition_limit, cursor, tag_buffer }, p))
    }
}

/// A requested topic is laid out from `pos` as: its name, a compact string
/// whose length byte `n` is at `pos`; its tag buffer, one byte at
/// `pos + n`.
pub proof fn lemma_topic_request_layout(s: Seq<u8>, pos: int)
    requires
        ReqTopicParition::spec_from_stream(s, pos) is Ok,
    ensures
        ({
            let ((name, tag_buffer), end) = ReqTopicParition::spec_from_stream(s, pos)->Ok_0;
            let n = s[pos] as int;
            &&& 0 <= pos && n >= 1 && end == pos + n + 1 && end <= s.len()
            &&& name == (s[pos], decode_utf8(s.subrange(pos + 1, pos + n)))
            &&& tag_buffer == s[pos + n]
        }),
{
    lemma_compact_string_at(s, pos);
    lemma_u8_at(s, pos + s[pos] as int);
}

/// A `DescribeTopicPartitions` request body is laid out from `pos` as:
/// the count byte of topics `c` at `pos` (one more than the number of
/// topics), then the topics one after the other; then the partition
/// limit (four bytes, big-endian), the cursor and the tag buffer (one
/// byte each).
pub proof fn lemma_describe_request_layout(s: Seq<u8>, pos: int)
    requires
        ReqDescribeTopicPartitions::spec_from_stream(s, pos) is Ok,
    ensures
        ({
            let ((topics, partition_limit, cursor, tag_buffer), end) =
                ReqDescribeTopicPartitions::spec_from_stream(s, pos)->Ok_0;
            let c = s[pos];
            let q = spec_elems::<ReqTopicParition>(s, pos + 1, (c - 1) as nat)->Ok_0.1;
            &&& 0 <= pos < s.len() && c >= 1
            &&& topics.0 == c
            &&& topics.1.len() == c - 1
            &&& spec_elems::<ReqTopicParition>(s, pos + 1, (c - 1) as nat) == Ok::<(Seq<((u8, Seq<char>), u8)>, int), ParseFail>(
                (topics.1, q),
            )
            &&& partition_limit as int == be_value(s.subrange(q, q + 4))
            &&& cursor == s[q + 4]
            &&& tag_buffer == s[q + 5]
            &&& end == q + 6 && end <= s.len()
        }),
{
    lemma_u8_at(s, pos);
    let c = s[pos];
    lemma_elems_count::<ReqTopicParition>(s, pos + 1, (c - 1) as nat);
    let q = spec_elems::<ReqTopicParition>(s, pos + 1, (c - 1) as nat)->Ok_0.1;
    lemma_wide_at(s, q);
    lemma_u8_at(s, q + 4);
    lemma_u8_at(s, q + 5);
}

} // verus!
