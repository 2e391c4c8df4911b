use crate::api::requests::{ReqDescribeTopicPartitions, RequestHeader};
use crate::api::responses::body::api_versions::{count_byte, count_fits};
use crate::api::responses::traits::{
    all_bytes, all_writable, fold_bytes, ResponseBody, ResponseBytes,
};
use crate::buffer::{be16, be32, buf_bytes, extend_buf, put_u16, put_u32, put_u8};
use crate::error::KafkaError;
use crate::error::ParseFail;
use crate::protocol::reader::{be_value, lemma_u16_written, lemma_u32_written, spec_compact_string, spec_u16, spec_u32};
use crate::api::responses::traits::{lemma_all_bytes_fixed, lemma_all_bytes_len};
use bytes::BytesMut;
use vstd::prelude::*;
use vstd::string::StringSliceAdditionalSpecFns;

verus! {

/// The body of a `DescribeTopicPartitions` response.
#[derive(Debug)]
pub struct DescribeTopicBody {
    pub throttle_time: u32,
    pub topics: Vec<TopicResponse>,
    pub next_cursor: Option<u8>,
    pub tag_buffer: u8,
}

/// What the response says of one topic.
#[derive(Debug)]
pub struct TopicResponse {
    pub error_code: u16,
    pub name: String,
    pub topic_id: [u8; 16],
    pub is_internal: bool,
    pub partitions: Vec<PartitionV0Entry>,
    pub topic_authorized_operations: u32,
    pub tag_buffer: u8,
}

/// What the response says of one partition.
#[derive(Debug)]
pub struct PartitionV0Entry {
    pub error_code: u16,
    pub index: u32,
    pub leader_id: u32,
    pub leader_epoch: u32,
    pub replica_nodes: Vec<ResponseTopicNodes>,
    pub isr_nodes: Vec<ResponseTopicISRNode>,
    pub elligible_leader_replicas: u8,
    pub last_known_elr: u8,
    pub offline_replicas: u8,
    pub tag_buffer: u8,
}

#[derive(Debug)]
pub struct ResponseTopicNodes(pub u32);

#[derive(Debug)]
pub struct ResponseTopicISRNode(pub u32);

/// The UTF-8 bytes of a text.
pub open spec fn utf8_bytes(s: Seq<char>) -> Seq<u8> {
    vstd::utf8::encode_utf8(s)
}

impl ResponseBytes for ResponseTopicNodes {
    open spec fn spec_to_bytes(&self) -> Seq<u8> {
        be32(self.0)
    }

    open spec fn writable(&self) -> bool {
        true
    }

    fn to_bytes(&self) -> (r: BytesMut) {
        let mut bytes = BytesMut::with_capacity(4);
        put_u32(&mut bytes, self.0);
        bytes
    }
}

impl ResponseBytes for ResponseTopicISRNode {
    open spec fn spec_to_bytes(&self) -> Seq<u8> {
        be32(self.0)
    }

    open spec fn writable(&self) -> bool {
        true
    }

    fn to_bytes(&self) -> (r: BytesMut) {
        let mut bytes = BytesMut::with_capacity(4);
        put_u32(&mut bytes, self.0);
        bytes
    }
}

impl ResponseBytes for PartitionV0Entry {
    /// The error code, index, leader id and leader epoch; the compact
    /// count of replica nodes; the replica nodes; the in-sync nodes (with
    /// no count in front); three zero bytes; the tag buffer.
    open spec fn spec_to_bytes(&self) -> Seq<u8> {
        be16(self.error_code) + be32(self.index) + be32(self.leader_id) + be32(self.leader_epoch)
            + seq![count_byte(self.replica_nodes@.len())] + all_bytes(self.replica_nodes@)
            + all_bytes(self.isr_nodes@) + seq![0u8, 0u8, 0u8, self.tag_buffer]
    }

    open spec fn writable(&self) -> bool {
        &&& count_fits(self.replica_nodes@.len())
        &&& self.spec_to_bytes().len() <= isize::MAX
    }

    fn to_bytes(&self) -> (r: BytesMut) {
        let mut bytes = BytesMut::new();
        put_u16(&mut bytes, self.error_code);
        put_u32(&mut bytes, self.index);
        put_u32(&mut bytes, self.leader_id);
        put_u32(&mut bytes, self.leader_epoch);
        put_u8(&mut bytes, self.replica_nodes.len() as u8 + 1);
        let topic_nodes = fold_bytes(&self.replica_nodes);
        extend_buf(&mut bytes, topic_nodes);
        let isr_nodes = fold_bytes(&self.isr_nodes);
        extend_buf(&mut bytes, isr_nodes);
        put_u8(&mut bytes, 0);
        put_u8(&mut bytes, 0);
        put_u8(&mut bytes, 0);
        put_u8(&mut bytes, self.tag_buffer);
        assert(buf_bytes(bytes) =~= self.spec_to_bytes());
        bytes
    }
}

impl ResponseBytes for TopicResponse {
    /// The error code; the name as a compact string; the topic id; the
    /// `is_internal` flag as one byte (0, as no topic is internal here);
    /// the compact count of partitions; the partitions; the tag buffer.
    open spec fn spec_to_bytes(&self) -> Seq<u8> {
        be16(self.error_code) + seq![count_byte(utf8_bytes(self.name@).len())] + utf8_bytes(self.name@)
            + self.topic_id@ + seq![0u8] + seq![count_byte(self.partitions@.len())]
            + all_bytes(self.partitions@) + seq![self.tag_buffer]
    }

    open spec fn writable(&self) -> bool {
        &&& count_fits(utf8_bytes(self.name@).len())
        &&& count_fits(self.partitions@.len())
        &&& all_writable(self.partitions@)
        &&& self.spec_to_bytes().len() <= isize::MAX
    }

    fn to_bytes(&self) -> (r: BytesMut) {
        let mut bytes = BytesMut::new();
        put_u16(&mut bytes, self.error_code);
        let name = self.name.as_str();
        put_u8(&mut bytes, (name.len() as u8) + 1);
        bytes.extend_from_slice(name.as_bytes());
        bytes.extend_from_slice(self.topic_id.as_slice());
        put_u8(&mut bytes, 0);
        let partition_len = self.partitions.len() as u8;
        put_u8(&mut bytes, partition_len + 1);
        let partition_bytes = fold_bytes(&self.partitions);
        extend_buf(&mut bytes, partition_bytes);
        put_u8(&mut bytes, self.tag_buffer);
        assert(buf_bytes(bytes) =~= self.spec_to_bytes());
        bytes
    }
}

impl ResponseBytes for DescribeTopicBody {
    /// The throttle time; the compact count of topics; the topics; the
    /// next cursor, or `0xff` for none; the tag buffer.
    open spec fn spec_to_bytes(&self) -> Seq<u8> {
        be32(self.throttle_time) + seq![count_byte(self.topics@.len())] + all_bytes(self.topics@)
            + seq![
            match self.next_cursor {
                Some(c) => c,
                None => 0xffu8,
            },
            self.tag_buffer,
        ]
    }

    open spec fn writable(&self) -> bool {
        &&& count_fits(self.topics@.len())
        &&& all_writable(self.topics@)
        &&& self.spec_to_bytes().len() <= isize::MAX
    }

    fn to_bytes(&self) -> (r: BytesMut) {
        let mut bytes = BytesMut::new();
        put_u32(&mut bytes, self.throttle_time);
        put_u8(&mut bytes, self.topics.len() as u8 + 1);
        let topics_bytes = fold_bytes(&self.topics);
        extend_buf(&mut bytes, topics_bytes);
        put_u8(&mut bytes, self.next_cursor.unwrap_or(0xff));
        put_u8(&mut bytes, self.tag_buffer);
        assert(buf_bytes(bytes) =~= self.spec_to_bytes());
        bytes
    }
}

impl ResponseBody<ReqDescribeTopicPartitions> for DescribeTopicBody {
    /// Answers a `DescribeTopicPartitions` request: every requested topic,
    /// in order, as unknown (error code 3), with a zero id, not internal,
    /// no partitions and no authorized operations; no next cursor.
    fn from_request(_header: &RequestHeader, req_body: &ReqDescribeTopicPartitions) -> (r: Self)
        ensures
            r.throttle_time == 0,
            r.topics@.len() == req_body.topics.1@.len(),
            forall|i: int| 0 <= i < r.topics@.len() ==> {
                let t = #[trigger] r.topics@[i];
                &&& t.error_code == 3
                &&& t.name@ == req_body.topics.1@[i].name.1@
                &&& t.topic_id@ == Seq::new(16, |j: int| 0u8)
                &&& !t.is_internal
                &&& t.partitions@.len() == 0
                &&& t.topic_authorized_operations == 0
                &&& t.tag_buffer == 0
            },
            r.next_cursor is None,
            r.tag_buffer == req_body.tag_buffer@,
    {
        let mut topics: Vec<TopicResponse> = Vec::new();
        let requested = &req_body.topics.1;
        let mut i: usize = 0;
        while i < requested.len()
            invariant
                i <= requested@.len(),
                topics@.len() == i,
                forall|k: int| 0 <= k < i ==> {
                    let t = #[trigger] topics@[k];
                    &&& t.error_code == 3
                    &&& t.name@ == requested@[k].name.1@
                    &&& t.topic_id@ == Seq::new(16, |j: int| 0u8)
                    &&& !t.is_internal
                    &&& t.partitions@.len() == 0
                    &&& t.topic_authorized_operations == 0
                    &&& t.tag_buffer == 0
                },
            decreases requested.len() - i,
        {
            let topic = &requested[i];
            let topic_id = [0u8; 16];
            assert(topic_id@ =~= Seq::new(16, |j: int| 0u8));
            topics.push(
                TopicResponse {
                    error_code: KafkaError::UnknownTopicOrPartition(0).into_error_code(),
                    name: topic.name.1.clone(),
                    topic_id,
                    is_internal: false,
                    partitions: Vec::new(),
                    topic_authorized_operations: 0,
                    tag_buffer: 0,
                },
            );
            i = i + 1;
        }
        Self { throttle_time: 0, topics, next_cursor: None, tag_buffer: req_body.tag_buffer.0 }
    }
}

/// The sum of the sizes of `parts`.
pub open spec fn sum_sizes(parts: Seq<PartitionV0Entry>) -> int
    decreases parts.len(),
{
    if parts.len() == 0 {
        0
    } else {
        sum_sizes(parts.drop_last()) + parts.last().spec_size()
    }
}

proof fn lemma_sum_sizes_prefix(parts: Seq<PartitionV0Entry>, i: int, j: int)
    requires
        0 <= i <= j <= parts.len(),
    ensures
        0 <= sum_sizes(parts.take(i)) <= sum_sizes(parts.take(j)),
    decreases j - i,
{
    if i < j {
        lemma_sum_sizes_prefix(parts, i, j - 1);
        assert(parts.take(j).drop_last() =~= parts.take(j - 1));
    } else {
        lemma_sum_sizes_nonneg(parts.take(i));
    }
}

proof fn lemma_sum_sizes_nonneg(parts: Seq<PartitionV0Entry>)
    ensures
        sum_sizes(parts) >= 0,
    decreases parts.len(),
{
    if parts.len() > 0 {
        lemma_sum_sizes_nonneg(parts.drop_last());
    }
}

impl TopicResponse {
    /// 26, plus the byte length of the name cut to 32 bits, plus the sizes
    /// of the partitions.
    pub open spec fn spec_size(&self) -> int {
        26 + ((utf8_bytes(self.name@).len() as usize) as u32) + sum_sizes(self.partitions@)
    }

    pub fn size(&self) -> (n: u32)
        requires
            self.spec_size() <= u32::MAX,
        ensures
            n == self.spec_size(),
    {
        let mut partition_sum: u32 = 0;
        let mut i: usize = 0;
        assert(self.partitions@.take(0) =~= Seq::<PartitionV0Entry>::empty());
        while i < self.partitions.len()
            invariant
                i <= self.partitions@.len(),
                self.spec_size() <= u32::MAX,
                partition_sum == sum_sizes(self.partitions@.take(i as int)),
            decreases self.partitions.len() - i,
        {
            proof {
                assert(self.partitions@.take(i + 1).drop_last() =~= self.partitions@.take(i as int));
                lemma_sum_sizes_prefix(self.partitions@, i + 1, self.partitions@.len() as int);
                lemma_sum_sizes_prefix(self.partitions@, i as int, i + 1);
                assert(self.partitions@.take(self.partitions@.len() as int) =~= self.partitions@);
            }
            partition_sum = partition_sum + self.partitions[i].size();
            i = i + 1;
        }
        assert(self.partitions@.take(i as int) =~= self.partitions@);
        let name = self.name.as_str();
        let name_len = name.len();
        assert(name@ == self.name@);
        assert(name.spec_bytes() == utf8_bytes(self.name@));
        26 + #[verifier::truncate] (name_len as u32) + partition_sum
    }
}

impl PartitionV0Entry {
    /// 20, plus four for each replica node and each in-sync node.
    pub open spec fn spec_size(&self) -> int {
        (20 + 4 * self.replica_nodes@.len() + 4 * self.isr_nodes@.len()) as int
    }

    pub fn size(&self) -> (n: u32)
        requires
            self.spec_size() <= u32::MAX,
        ensures
            n == self.spec_size(),
    {
        let replica_nodes_sum = self.replica_nodes.len() as u32 * 4;
        let isr_nodes_sum = self.isr_nodes.len() as u32 * 4;
        20 + replica_nodes_sum + isr_nodes_sum
    }
}

/// Read back with the big-endian readers, a partition entry holds: the
/// error code at 0; the index at 2, the leader id at 6 and the leader
/// epoch at 10; the count byte of replica nodes (their number plus one)
/// at 14; the `i`-th replica node at `15 + 4 * i`; then the `j`-th
/// in-sync node at `15 + 4 * r + 4 * j`, where `r` is the number of
/// replica nodes; then three zero bytes and the tag buffer.
pub proof fn lemma_partition_layout(p: PartitionV0Entry)
    ensures
        ({
            let b = p.spec_to_bytes();
            let r = p.replica_nodes@.len() as int;
            let q = p.isr_nodes@.len() as int;
            let t = 15 + 4 * r + 4 * q;
            &&& b.len() == t + 4
            &&& spec_u16(b, 0) == Ok::<(u16, int), ParseFail>((p.error_code, 2))
            &&& spec_u32(b, 2) == Ok::<(u32, int), ParseFail>((p.index, 6))
            &&& spec_u32(b, 6) == Ok::<(u32, int), ParseFail>((p.leader_id, 10))
            &&& spec_u32(b, 10) == Ok::<(u32, int), ParseFail>((p.leader_epoch, 14))
            &&& b[14] == count_byte(p.replica_nodes@.len())
            &&& forall|i: int| 0 <= i < r ==> spec_u32(b, 15 + 4 * i) == Ok::<(u32, int), ParseFail>(
                ((#[trigger] p.replica_nodes@[i]).0, 19 + 4 * i),
            )
            &&& forall|j: int| 0 <= j < q ==> spec_u32(b, 15 + 4 * r + 4 * j) == Ok::<(u32, int), ParseFail>(
                ((#[trigger] p.isr_nodes@[j]).0, 19 + 4 * r + 4 * j),
            )
            &&& b[t] == 0 && b[t + 1] == 0 && b[t + 2] == 0
            &&& b[t + 3] == p.tag_buffer
        }),
{
    let b = p.spec_to_bytes();
    let rs = p.replica_nodes@;
    let is = p.isr_nodes@;
    let r = rs.len() as int;
    let q = is.len() as int;
    lemma_all_bytes_len(rs, 4);
    lemma_all_bytes_len(is, 4);
    assert(b.subrange(0, 2) =~= be16(p.error_code));
    lemma_u16_written(b, 0, p.error_code);
    assert(b.subrange(2, 6) =~= be32(p.index));
    lemma_u32_written(b, 2, p.index);
    assert(b.subrange(6, 10) =~= be32(p.leader_id));
    lemma_u32_written(b, 6, p.leader_id);
    assert(b.subrange(10, 14) =~= be32(p.leader_epoch));
    lemma_u32_written(b, 10, p.leader_epoch);
    assert(b.subrange(15, 15 + 4 * r) =~= all_bytes(rs));
    assert(b.subrange(15 + 4 * r, 15 + 4 * r + 4 * q) =~= all_bytes(is));
    assert forall|i: int| 0 <= i < r implies spec_u32(b, 15 + 4 * i) == Ok::<(u32, int), ParseFail>(
        ((#[trigger] p.replica_nodes@[i]).0, 19 + 4 * i),
    ) by {
        lemma_all_bytes_fixed(rs, 4, i);
        assert(b.subrange(15 + 4 * i, 19 + 4 * i) =~= all_bytes(rs).subrange(4 * i, 4 * i + 4));
        lemma_u32_written(b, 15 + 4 * i, rs[i].0);
    }
    assert forall|j: int| 0 <= j < q implies spec_u32(b, 15 + 4 * r + 4 * j) == Ok::<(u32, int), ParseFail>(
        ((#[trigger] p.isr_nodes@[j]).0, 19 + 4 * r + 4 * j),
    ) by {
        lemma_all_bytes_fixed(is, 4, j);
        assert(b.subrange(15 + 4 * r + 4 * j, 19 + 4 * r + 4 * j) =~= all_bytes(is).subrange(4 * j, 4 * j + 4));
        lemma_u32_written(b, 15 + 4 * r + 4 * j, is[j].0);
    }
}

/// A topic entry holds: the error code at 0; the name at 2, which reads
/// back with the compact-string reader as the name itself (for a name of
/// fewer than 255 bytes); the topic id in the 16 bytes after the name;
/// one zero byte for `is_internal`; the count byte of partitions (their
/// number plus one); the partitions; the tag buffer last.
pub proof fn lemma_topic_layout(t: TopicResponse)
    requires
        utf8_bytes(t.name@).len() < 255,
    ensures
        ({
            let b = t.spec_to_bytes();
            let l = utf8_bytes(t.name@).len() as int;
            &&& spec_u16(b, 0) == Ok::<(u16, int), ParseFail>((t.error_code, 2))
            &&& spec_compact_string(b, 2) == Ok::<((u8, Seq<char>), int), ParseFail>(
                (((l + 1) as u8, t.name@), 3 + l),
            )
            &&& b.subrange(3 + l, 19 + l) == t.topic_id@
            &&& b[19 + l] == 0
            &&& b[20 + l] == count_byte(t.partitions@.len())
            &&& b.subrange(21 + l, b.len() - 1) == all_bytes(t.partitions@)
            &&& b[b.len() - 1] == t.tag_buffer
        }),
{
    let b = t.spec_to_bytes();
    let enc = utf8_bytes(t.name@);
    let l = enc.len() as int;
    assert(b.subrange(0, 2) =~= be16(t.error_code));
    lemma_u16_written(b, 0, t.error_code);
    vstd::utf8::encode_utf8_valid_utf8(t.name@);
    vstd::utf8::encode_utf8_decode_utf8(t.name@);
    assert(b.subrange(2, 3) =~= seq![count_byte(enc.len())]);
    assert(b.subrange(2, 3).drop_last() =~= Seq::<u8>::empty());
    assert(b.subrange(3, 3 + l) =~= enc);
    assert(be_value(b.subrange(2, 3)) == l + 1) by {
        reveal_with_fuel(be_value, 2);
    }
    assert(b.subrange(3 + l, 19 + l) =~= t.topic_id@);
    assert(b.subrange(21 + l, b.len() - 1) =~= all_bytes(t.partitions@));
}

/// A `DescribeTopicPartitions` response body holds: the throttle time at
/// 0; the count byte of topics (their number plus one) at 4; the topics;
/// then the next cursor (`0xff` for none) and the tag buffer.
pub proof fn lemma_describe_body_layout(d: DescribeTopicBody)
    ensures
        ({
            let b = d.spec_to_bytes();
            &&& spec_u32(b, 0) == Ok::<(u32, int), ParseFail>((d.throttle_time, 4))
            &&& b[4] == count_byte(d.topics@.len())
            &&& b.subrange(5, b.len() - 2) == all_bytes(d.topics@)
            &&& b[b.len() - 2] == match d.next_cursor {
                Some(c) => c,
                None => 0xffu8,
            }
            &&& b[b.len() - 1] == d.tag_buffer
        }),
{
    let b = d.spec_to_bytes();
    assert(b.subrange(0, 4) =~= be32(d.throttle_time));
    lemma_u32_written(b, 0, d.throttle_time);
    assert(b.subrange(5, b.len() - 2) =~= all_bytes(d.topics@));
}

} // verus!
