//! Record batches of the cluster metadata log.
use crate::error::{ParseFail, RequestError};
use crate::protocol::reader::{be_value, lemma_u16_at, lemma_u8_at, lemma_wide_at, lemma_elems_fixed, spec_elems, spec_u128, spec_u16, spec_u32, spec_u64, spec_u8, then, Bytes128, Bytes16, Bytes32, Bytes64, Bytes8, SpecRead, StreamReader, lemma_elems_err};
use vstd::prelude::*;
use vstd::std_specs::convert::TryFromSpecImpl;

verus! {

pub struct RecordBatch {
    pub base_offset: Bytes64,
    pub batch_len: Bytes32,
    pub partition_leader_epoch: Bytes32,
    pub magic_byte: Bytes8,
    pub crc: Bytes32,
    pub attributes: RecordAttributes,
    pub last_offset_delta: Bytes32,
    pub base_timestamp: Bytes64,
    pub max_timestamp: Bytes64,
    pub producer_id: Bytes64,
    pub producer_epoch: Bytes16,
    pub base_sequence: Bytes32,
    pub records_length: Bytes32,
    pub records: Vec<RecordElement>,
}

pub struct RecordElement {
    pub len: Bytes8,
    pub attributes: Bytes8,
    pub delta_timestamp: Bytes8,
    pub offset_delta: Bytes8,
    pub key_len: Bytes8,
    pub value_len: Bytes8,
    pub value: RecordValue,
    pub headers_array_count: Bytes8,
}

pub struct RecordValue {
    pub frame_version: Bytes8,
    pub types: Bytes8,
    pub version: Bytes8,
    pub name_len: Bytes8,
    pub name: Bytes128,
    pub feature_level: Bytes16,
    pub tagged_fields_count: Bytes8,
}

#[derive(Debug, Clone, Copy, PartialEq, Eq)]
pub struct RecordAttributes {
    pub compression: Compression,
    pub timestamp_type: bool,
    pub is_transactional: bool,
    pub is_control_batch: bool,
    pub has_delete_horizon_ms: bool,
}

#[derive(Debug, Clone, Copy, PartialEq, Eq)]
pub enum Compression {
    Uncompressed,
    Gzip,
    Snappy,
    Lz4,
    Zstd,
}

/// The mathematical value of a [`RecordValue`].
pub struct RecordValueView {
    pub frame_version: u8,
    pub types: u8,
    pub version: u8,
    pub name_len: u8,
    pub name: u128,
    pub feature_level: u16,
    pub tagged_fields_count: u8,
}

/// The mathematical value of a [`RecordElement`].
pub struct RecordElementView {
    pub len: u8,
    pub attributes: u8,
    pub delta_timestamp: u8,
    pub offset_delta: u8,
    pub key_len: u8,
    pub value_len: u8,
    pub value: RecordValueView,
    pub headers_array_count: u8,
}

/// The mathematical value of a [`RecordBatch`].
pub struct RecordBatchView {
    pub base_offset: u64,
    pub batch_len: u32,
    pub partition_leader_epoch: u32,
    pub magic_byte: u8,
    pub crc: u32,
    pub attributes: RecordAttributes,
    pub last_offset_delta: u32,
    pub base_timestamp: u64,
    pub max_timestamp: u64,
    pub producer_id: u64,
    pub producer_epoch: u16,
    pub base_sequence: u32,
    pub records_length: u32,
    pub records: Seq<RecordElementView>,
}

impl View for RecordValue {
    type V = RecordValueView;

    open spec fn view(&self) -> RecordValueView {
        RecordValueView {
            frame_version: self.frame_version@,
            types: self.types@,
            version: self.version@,
            name_len: self.name_len@,
            name: self.name@,
            feature_level: self.feature_level@,
            tagged_fields_count: self.tagged_fields_count@,
        }
    }
}

impl View for RecordElement {
    type V = RecordElementView;

    open spec fn view(&self) -> RecordElementView {
        RecordElementView {
            len: self.len@,
            attributes: self.attributes@,
            delta_timestamp: self.delta_timestamp@,
            offset_delta: self.offset_delta@,
            key_len: self.key_len@,
            value_len: self.value_len@,
            value: self.value@,
            headers_array_count: self.headers_array_count@,
        }
    }
}

impl View for RecordBatch {
    type V = RecordBatchView;

    open spec fn view(&self) -> RecordBatchView {
        RecordBatchView {
            base_offset: self.base_offset@,
            batch_len: self.batch_len@,
            partition_leader_epoch: self.partition_leader_epoch@,
            magic_byte: self.magic_byte@,
            crc: self.crc@,
            attributes: self.attributes,
            last_offset_delta: self.last_offset_delta@,
            base_timestamp: self.base_timestamp@,
            max_timestamp: self.max_timestamp@,
            producer_id: self.producer_id@,
            producer_epoch: self.producer_epoch@,
            base_sequence: self.base_sequence@,
            records_length: self.records_length@,
            records: self.records@.map_values(|r: RecordElement| r@),
        }
    }
}

impl View for RecordAttributes {
    type V = RecordAttributes;

    open spec fn view(&self) -> RecordAttributes {
        *self
    }
}

/// The codec that a compression code names, if any.
pub open spec fn compression_of(code: u8) -> Option<Compression> {
    if code == 0 {
        Some(Compression::Uncompressed)
    } else if code == 1 {
        Some(Compression::Gzip)
    } else if code == 2 {
        Some(Compression::Snappy)
    } else if code == 3 {
        Some(Compression::Lz4)
    } else if code == 4 {
        Some(Compression::Zstd)
    } else {
        None
    }
}

impl TryFrom<u8> for Compression {
    type Error = RequestError;

    fn try_from(val: u8) -> (r: Result<Compression, RequestError>) {
        match val {
            0 => Ok(Compression::Uncompressed),
            1 => Ok(Compression::Gzip),
            2 => Ok(Compression::Snappy),
            3 => Ok(Compression::Lz4),
            4 => Ok(Compression::Zstd),
            _ => Err(RequestError::InvalidCompression(val)),
        }
    }
}

impl TryFromSpecImpl<u8> for Compression {
    open spec fn obeys_try_from_spec() -> bool {
        true
    }

    open spec fn try_from_spec(val: u8) -> Result<Compression, RequestError> {
        match compression_of(val) {
            Some(c) => Ok(c),
            None => Err(RequestError::InvalidCompression(val)),
        }
    }
}

/// The attributes that the two-byte field `val` holds: the codec in the
/// lowest three bits, then one flag per bit.
pub open spec fn spec_attributes(val: u16) -> Result<RecordAttributes, ParseFail> {
    match compression_of((val & 0b0111) as u8) {
        Some(compression) => Ok(
            RecordAttributes {
                compression,
                timestamp_type: (val & 0b1000) != 0,
                is_transactional: (val & 0b1_0000) != 0,
                is_control_batch: (val & 0b10_0000) != 0,
                has_delete_horizon_ms: (val & 0b100_0000) != 0,
            },
        ),
        None => Err(ParseFail::Compression((val & 0b0111) as u8)),
    }
}

impl StreamReader for RecordAttributes {
    open spec fn spec_from_stream(input: Seq<u8>, pos: int) -> SpecRead<RecordAttributes> {
        then(
            spec_u16(input, pos),
            |val: u16, p: int|
                match spec_attributes(val) {
                    Ok(a) => Ok((a, p)),
                    Err(f) => Err(f),
                },
        )
    }

    fn from_stream(input: &[u8], pos: usize) -> (r: Result<(Self, usize), RequestError>) {
        let (raw, p) = match Bytes16::from_stream(input, pos) {
            Ok(v) => v,
            Err(e) => return Err(e),
        };
        let val = raw.0;
        let compression = (val & 0b0111) as u8;
        let timestamp_type = (val & 0b1000) != 0;
        let is_transactional = (val & 0b1_0000) != 0;
        let is_control_batch = (val & 0b10_0000) != 0;
        let has_delete_horizon_ms = (val & 0b100_0000) != 0;
        let compression = match Compression::try_from(compression) {
            Ok(v) => v,
            Err(e) => return Err(e),
        };
        Ok(
            (
                Self {
                    compression,
                    timestamp_type,
                    is_transactional,
                    is_control_batch,
                    has_delete_horizon_ms,
                },
                p,
            ),
        )
    }
}

impl StreamReader for RecordValue {
    open spec fn spec_from_stream(input: Seq<u8>, pos: int) -> SpecRead<RecordValueView> {
        then(spec_u8(input, pos), |frame_version: u8, p1: int|
        then(spec_u8(input, p1), |types: u8, p2: int|
        then(spec_u8(input, p2), |version: u8, p3: int|
        then(spec_u8(input, p3), |name_len: u8, p4: int|
        then(spec_u128(input, p4), |name: u128, p5: int|
        then(spec_u16(input, p5), |feature_level: u16, p6: int|
        then(spec_u8(input, p6), |tagged_fields_count: u8, p7: int|
            Ok((
                RecordValueView {
                    frame_version,
                    types,
                    version,
                    name_len,
                    name,
                    feature_level,
                    tagged_fields_count,
                },
                p7,
            ))
        )))))))
    }

    fn from_stream(input: &[u8], pos: usize) -> (r: Result<(Self, usize), RequestError>) {
        let (frame_version, p) = match Bytes8::from_stream(input, pos) {
            Ok(v) => v,
            Err(e) => return Err(e),
        };
        let (types, p) = match Bytes8::from_stream(input, p) {
            Ok(v) => v,
            Err(e) => return Err(e),
        };
        let (version, p) = match Bytes8::from_stream(input, p) {
            Ok(v) => v,
            Err(e) => return Err(e),
        };
        let (name_len, p) = match Bytes8::from_stream(input, p) {
            Ok(v) => v,
            Err(e) => return Err(e),
        };
        let (name, p) = match Bytes128::from_stream(input, p) {
            Ok(v) => v,
            Err(e) => return Err(e),
        };
        let (feature_level, p) = match Bytes16::from_stream(input, p) {
            Ok(v) => v,
            Err(e) => return Err(e),
        };
        let (tagged_fields_count, p) = match Bytes8::from_stream(input, p) {
            Ok(v) => v,
            Err(e) => return Err(e),
        };
        Ok(
            (
                Self {
                    frame_version,
                    types,
                    version,
                    name_len,
                    name,
                    feature_level,
                    tagged_fields_count,
                },
                p,
            ),
        )
    }
}


impl StreamReader for RecordElement {
    open spec fn spec_from_stream(input: Seq<u8>, pos: int) -> SpecRead<RecordElementView> {
        then(spec_u8(input, pos), |len: u8, p1: int|
        then(spec_u8(input, p1), |attributes: u8, p2: int|
        then(spec_u8(input, p2), |delta_timestamp: u8, p3: int|
        then(spec_u8(input, p3), |offset_delta: u8, p4: int|
        then(spec_u8(input, p4), |key_len: u8, p5: int|
        then(spec_u8(input, p5), |value_len: u8, p6: int|
        then(RecordValue::spec_from_stream(input, p6), |value: RecordValueView, p7: int|
        then(spec_u8(input, p7), |headers_array_count: u8, p8: int|
            Ok((
                RecordElementView {
                    len,
                    attributes,
                    delta_timestamp,
                    offset_delta,
                    key_len,
                    value_len,
                    value,
                    headers_array_count,
                },
                p8,
            ))
        ))))))))
    }

    fn from_stream(input: &[u8], pos: usize) -> (r: Result<(Self, usize), RequestError>) {
        let (len, p) = match Bytes8::from_stream(input, pos) {
            Ok(v) => v,
            Err(e) => return Err(e),
        };
        let (attributes, p) = match Bytes8::from_stream(input, p) {
            Ok(v) => v,
            Err(e) => return Err(e),
        };
        let (delta_timestamp, p) = match Bytes8::from_stream(input, p) {
            Ok(v) => v,
            Err(e) => return Err(e),
        };
        let (offset_delta, p) = match Bytes8::from_stream(input, p) {
            Ok(v) => v,
            Err(e) => return Err(e),
        };
        let (key_len, p) = match Bytes8::from_stream(input, p) {
            Ok(v) => v,
            Err(e) => return Err(e),
        };
        let (value_len, p) = match Bytes8::from_stream(input, p) {
            Ok(v) => v,
            Err(e) => return Err(e),
        };
        let (value, p) = match RecordValue::from_stream(input, p) {
            Ok(v) => v,
            Err(e) => return Err(e),
        };
        let (headers_array_count, p) = match Bytes8::from_stream(input, p) {
            Ok(v) => v,
            Err(e) => return Err(e),
        };
        Ok(
            (
                RecordElement {
                    len,
                    attributes,
                    delta_timestamp,
                    offset_delta,
                    key_len,
                    value_len,
                    value,
                    headers_array_count,
                },
                p,
            ),
        )
    }
}

impl StreamReader for RecordBatch {
    open spec fn spec_from_stream(input: Seq<u8>, pos: int) -> SpecRead<RecordBatchView> {
        then(spec_u64(input, pos), |base_offset: u64, p1: int|
        then(spec_u32(input, p1), |batch_len: u32, p2: int|
        then(spec_u32(input, p2), |partition_leader_epoch: u32, p3: int|
        then(spec_u8(input, p3), |magic_byte: u8, p4: int|
        then(spec_u32(input, p4), |crc: u32, p5: int|
        then(RecordAttributes::spec_from_stream(input, p5), |attributes: RecordAttributes, p6: int|
        then(spec_u32(input, p6), |last_offset_delta: u32, p7: int|
        then(spec_u64(input, p7), |base_timestamp: u64, p8: int|
        then(spec_u64(input, p8), |max_timestamp: u64, p9: int|
        then(spec_u64(input, p9), |producer_id: u64, p10: int|
        then(spec_u16(input, p10), |producer_epoch: u16, p11: int|
        then(spec_u32(input, p11), |base_sequence: u32, p12: int|
        then(spec_u32(input, p12), |records_length: u32, p13: int|
        then(spec_elems::<RecordElement>(input, p13, records_length as nat),
            |records: Seq<RecordElementView>, p14: int|
            Ok((
                RecordBatchView {
                    base_offset,
                    batch_len,
                    partition_leader_epoch,
                    magic_byte,
                    crc,
                    attributes,
                    last_offset_delta,
                    base_timestamp,
                    max_timestamp,
                    producer_id,
                    producer_epoch,
                    base_sequence,
                    records_length,
                    records,
                },
                p14,
            ))
        ))))))))))))))
    }

    fn from_stream(input: &[u8], pos: usize) -> (r: Result<(Self, usize), RequestError>) {
        let (base_offset, p) = match Bytes64::from_stream(input, pos) {
            Ok(v) => v,
            Err(e) => return Err(e),
        };
        let (batch_len, p) = match Bytes32::from_stream(input, p) {
            Ok(v) => v,
            Err(e) => return Err(e),
        };
        let (partition_leader_epoch, p) = match Bytes32::from_stream(input, p) {
            Ok(v) => v,
            Err(e) => return Err(e),
        };
        let (magic_byte, p) = match Bytes8::from_stream(input, p) {
            Ok(v) => v,
            Err(e) => return Err(e),
        };
        let (crc, p) = match Bytes32::from_stream(input, p) {
            Ok(v) => v,
            Err(e) => return Err(e),
        };
        let (attributes, p) = match RecordAttributes::from_stream(input, p) {
            Ok(v) => v,
            Err(e) => return Err(e),
        };
        let (last_offset_delta, p) = match Bytes32::from_stream(input, p) {
            Ok(v) => v,
            Err(e) => return Err(e),
        };
        let (base_timestamp, p) = match Bytes64::from_stream(input, p) {
            Ok(v) => v,
            Err(e) => return Err(e),
        };
        let (max_timestamp, p) = match Bytes64::from_stream(input, p) {
            Ok(v) => v,
            Err(e) => return Err(e),
        };
        let (producer_id, p) = match Bytes64::from_stream(input, p) {
            Ok(v) => v,
            Err(e) => return Err(e),
        };
        let (producer_epoch, p) = match Bytes16::from_stream(input, p) {
            Ok(v) => v,
            Err(e) => return Err(e),
        };
        let (base_sequence, p) = match Bytes32::from_stream(input, p) {
            Ok(v) => v,
            Err(e) => return Err(e),
        };
        let (records_length, p) = match Bytes32::from_stream(input, p) {
            Ok(v) => v,
            Err(e) => return Err(e),
        };
        let (records, p) = match read_elements(input, p, records_length.0) {
            Ok(v) => v,
            Err(e) => return Err(e),
        };
        Ok(
            (
                RecordBatch {
                    base_offset,
                    batch_len,
                    partition_leader_epoch,
                    magic_byte,
                    crc,
                    attributes,
                    last_offset_delta,
                    base_timestamp,
                    max_timestamp,
                    producer_id,
                    producer_epoch,
                    base_sequence,
                    records_length,
                    records,
                },
                p,
            ),
        )
    }
}

/// Reads `count` records one after the other from `pos`.
fn read_elements(input: &[u8], pos: usize, count: u32) -> (r: Result<(Vec<RecordElement>, usize), RequestError>)
    ensures
        match r {
            Ok((v, p)) => spec_elems::<RecordElement>(input@, pos as int, count as nat)
                == Ok::<(Seq<RecordElementView>, int), ParseFail>((v@.map_values(|e: RecordElement| e@), p as int)),
            Err(e) => spec_elems::<RecordElement>(input@, pos as int, count as nat)
                == Err::<(Seq<RecordElementView>, int), ParseFail>(e.fail()),
        },
{
    let mut records: Vec<RecordElement> = Vec::new();
    let mut cur = pos;
    let mut i: u32 = 0;
    assert(records@.map_values(|e: RecordElement| e@) =~= Seq::<RecordElementView>::empty());
    while i < count
        invariant
            i <= count,
            spec_elems::<RecordElement>(input@, pos as int, i as nat)
                == Ok::<(Seq<RecordElementView>, int), ParseFail>(
                (records@.map_values(|e: RecordElement| e@), cur as int),
            ),
        decreases count - i,
    {
        let res = RecordElement::from_stream(input, cur);
        let (record, next) = match res {
            Ok(x) => x,
            Err(e) => {
                proof {
                    lemma_elems_err::<RecordElement>(input@, pos as int, (i + 1) as nat, count as nat);
                }
                return Err(e);
            },
        };
        proof {
            let ghost old_view = records@.map_values(|e: RecordElement| e@);
            assert(records@.push(record).map_values(|e: RecordElement| e@) =~= old_view.push(record@));
        }
        records.push(record);
        cur = next;
        i = i + 1;
    }
    Ok((records, cur))
}

/// A record value always takes 23 bytes.
pub proof fn lemma_record_value_size(s: Seq<u8>, pos: int)
    requires
        RecordValue::spec_from_stream(s, pos) is Ok,
    ensures
        RecordValue::spec_from_stream(s, pos)->Ok_0.1 == pos + 23,
        pos + 23 <= s.len(),
{
}

/// A record always takes 30 bytes.
pub proof fn lemma_record_element_size(s: Seq<u8>, pos: int)
    requires
        RecordElement::spec_from_stream(s, pos) is Ok,
    ensures
        RecordElement::spec_from_stream(s, pos)->Ok_0.1 == pos + 30,
        pos + 30 <= s.len(),
{
    lemma_record_value_size(s, pos + 6);
}

/// `n` records take 30 bytes each.
pub proof fn lemma_records_size(s: Seq<u8>, pos: int, n: nat)
    requires
        spec_elems::<RecordElement>(s, pos, n) is Ok,
    ensures
        spec_elems::<RecordElement>(s, pos, n)->Ok_0.1 == pos + 30 * n,
        n > 0 ==> pos + 30 * n <= s.len(),
        spec_elems::<RecordElement>(s, pos, n)->Ok_0.0.len() == n,
    decreases n,
{
    if n > 0 {
        lemma_records_size(s, pos, (n - 1) as nat);
        let p = spec_elems::<RecordElement>(s, pos, (n - 1) as nat)->Ok_0.1;
        lemma_record_element_size(s, p);
    }
}

/// A record batch takes 61 bytes of header, then 30 bytes for each record.
pub proof fn lemma_record_batch_size(s: Seq<u8>, pos: int)
    requires
        RecordBatch::spec_from_stream(s, pos) is Ok,
    ensures
        ({
            let (b, p) = RecordBatch::spec_from_stream(s, pos)->Ok_0;
            &&& p == pos + 61 + 30 * b.records_length
            &&& p <= s.len()
            &&& b.records.len() == b.records_length
        }),
{
    let (n, p13) = (spec_u32(s, pos + 57)->Ok_0.0, pos + 61);
    lemma_records_size(s, p13, n as nat);
}

/// The record batches one after the other from `pos`, up to the first
/// one that cannot be read.
pub open spec fn spec_batches(s: Seq<u8>, pos: int) -> Seq<RecordBatchView>
    decreases s.len() - pos,
{
    match RecordBatch::spec_from_stream(s, pos) {
        Ok((b, p)) => if pos < p <= s.len() {
            seq![b] + spec_batches(s, p)
        } else {
            seq![b]
        },
        Err(_) => Seq::empty(),
    }
}

/// Reads record batches from the start of `input` until one cannot be
/// read, as the metadata log is read.
pub fn read_batches(input: &[u8]) -> (r: Vec<RecordBatch>)
    ensures
        r@.map_values(|b: RecordBatch| b@) == spec_batches(input@, 0),
{
    let mut batches: Vec<RecordBatch> = Vec::new();
    let mut pos: usize = 0;
    assert(batches@.map_values(|b: RecordBatch| b@) =~= Seq::<RecordBatchView>::empty());
    loop
        invariant
            pos <= input@.len(),
            spec_batches(input@, 0) == batches@.map_values(|b: RecordBatch| b@) + spec_batches(input@, pos as int),
        decreases input@.len() - pos,
    {
        match RecordBatch::from_stream(input, pos) {
            Ok((batch, p)) => {
                proof {
                    lemma_record_batch_size(input@, pos as int);
                    let ghost before = batches@.map_values(|b: RecordBatch| b@);
                    assert(batches@.push(batch).map_values(|b: RecordBatch| b@) =~= before.push(batch@));
                    assert(spec_batches(input@, pos as int) == seq![batch@] + spec_batches(input@, p as int));
                    assert(before + (seq![batch@] + spec_batches(input@, p as int)) =~= before.push(batch@)
                        + spec_batches(input@, p as int));
                }
                batches.push(batch);
                pos = p;
            },
            Err(_) => {
                assert(spec_batches(input@, pos as int) =~= Seq::<RecordBatchView>::empty());
                assert(batches@.map_values(|b: RecordBatch| b@) + Seq::<RecordBatchView>::empty()
                    =~= batches@.map_values(|b: RecordBatch| b@));
                return batches;
            },
        }
    }
}

proof fn lemma_attribute_bits(v: u16)
    ensures
        v & 7 == v % 8,
        (v & 0b1000) != 0 <==> (v / 8) % 2 == 1,
        (v & 0b1_0000) != 0 <==> (v / 16) % 2 == 1,
        (v & 0b10_0000) != 0 <==> (v / 32) % 2 == 1,
        (v & 0b100_0000) != 0 <==> (v / 64) % 2 == 1,
{
    assert(v & 7 == v % 8) by (bit_vector);
    assert((v & 0b1000) != 0 <==> (v / 8) % 2 == 1) by (bit_vector);
    assert((v & 0b1_0000) != 0 <==> (v / 16) % 2 == 1) by (bit_vector);
    assert((v & 0b10_0000) != 0 <==> (v / 32) % 2 == 1) by (bit_vector);
    assert((v & 0b100_0000) != 0 <==> (v / 64) % 2 == 1) by (bit_vector);
}

/// The attributes field is the big-endian number `v` of the two bytes at
/// `pos`. Its lowest three bits name the codec (0 none, 1 gzip, 2 snappy,
/// 3 lz4, 4 zstd; 5 to 7 are refused), and bits 3, 4, 5 and 6 are the
/// timestamp-type, transactional, control-batch and delete-horizon flags.
/// The field takes two bytes.
pub proof fn lemma_attributes_layout(s: Seq<u8>, pos: int)
    requires
        0 <= pos,
        pos + 2 <= s.len(),
    ensures
        ({
            let v = s[pos] * 256 + s[pos + 1];
            let code = v % 8;
            &&& (RecordAttributes::spec_from_stream(s, pos) is Ok <==> code <= 4)
            &&& code > 4 ==> RecordAttributes::spec_from_stream(s, pos) == Err::<(RecordAttributes, int), ParseFail>(
                ParseFail::Compression(code as u8),
            )
            &&& RecordAttributes::spec_from_stream(s, pos) matches Ok((a, p)) ==> {
                &&& p == pos + 2
                &&& (a.compression == Compression::Uncompressed <==> code == 0)
                &&& (a.compression == Compression::Gzip <==> code == 1)
                &&& (a.compression == Compression::Snappy <==> code == 2)
                &&& (a.compression == Compression::Lz4 <==> code == 3)
                &&& (a.compression == Compression::Zstd <==> code == 4)
                &&& a.timestamp_type == ((v / 8) % 2 == 1)
                &&& a.is_transactional == ((v / 16) % 2 == 1)
                &&& a.is_control_batch == ((v / 32) % 2 == 1)
                &&& a.has_delete_horizon_ms == ((v / 64) % 2 == 1)
            }
        }),
{
    lemma_u16_at(s, pos);
    let val = spec_u16(s, pos)->Ok_0.0;
    lemma_attribute_bits(val);
    assert((val & 7) as u8 == val % 8);
}

/// A record value is laid out from `pos` as: frame version, type, version
/// and name length, one byte each; the name, a big-endian number of 16
/// bytes; the feature level, two bytes big-endian; the count of tagged
/// fields, one byte. It takes 23 bytes.
pub proof fn lemma_record_value_layout(s: Seq<u8>, pos: int)
    requires
        RecordValue::spec_from_stream(s, pos) is Ok,
    ensures
        ({
            let (v, p) = RecordValue::spec_from_stream(s, pos)->Ok_0;
            &&& 0 <= pos && p == pos + 23 && p <= s.len()
            &&& v.frame_version == s[pos]
            &&& v.types == s[pos + 1]
            &&& v.version == s[pos + 2]
            &&& v.name_len == s[pos + 3]
            &&& v.name as int == be_value(s.subrange(pos + 4, pos + 20))
            &&& v.feature_level as int == s[pos + 20] * 256 + s[pos + 21]
            &&& v.tagged_fields_count == s[pos + 22]
        }),
{
    lemma_u8_at(s, pos);
    lemma_u8_at(s, pos + 1);
    lemma_u8_at(s, pos + 2);
    lemma_u8_at(s, pos + 3);
    lemma_wide_at(s, pos + 4);
    lemma_u16_at(s, pos + 20);
    lemma_u8_at(s, pos + 22);
}

/// A record is laid out from `pos` as: length, attributes, timestamp
/// delta, offset delta, key length and value length, one byte each; the
/// value, read at `pos + 6`; the count of headers, one byte at `pos + 29`.
/// It takes 30 bytes.
pub proof fn lemma_record_element_layout(s: Seq<u8>, pos: int)
    requires
        RecordElement::spec_from_stream(s, pos) is Ok,
    ensures
        ({
            let (e, p) = RecordElement::spec_from_stream(s, pos)->Ok_0;
            &&& 0 <= pos && p == pos + 30 && p <= s.len()
            &&& e.len == s[pos]
            &&& e.attributes == s[pos + 1]
            &&& e.delta_timestamp == s[pos + 2]
            &&& e.offset_delta == s[pos + 3]
            &&& e.key_len == s[pos + 4]
            &&& e.value_len == s[pos + 5]
            &&& RecordValue::spec_from_stream(s, pos + 6) is Ok
            &&& e.value == RecordValue::spec_from_stream(s, pos + 6)->Ok_0.0
            &&& e.headers_array_count == s[pos + 29]
        }),
{
    lemma_u8_at(s, pos);
    lemma_u8_at(s, pos + 1);
    lemma_u8_at(s, pos + 2);
    lemma_u8_at(s, pos + 3);
    lemma_u8_at(s, pos + 4);
    lemma_u8_at(s, pos + 5);
    assert(RecordValue::spec_from_stream(s, pos + 6) is Ok);
    lemma_record_value_layout(s, pos + 6);
    lemma_u8_at(s, pos + 29);
}

/// The `n` records read from `pos` are the records at `pos`, `pos + 30`,
/// `pos + 60`, and so on.
pub proof fn lemma_records_at(s: Seq<u8>, pos: int, n: nat)
    requires
        spec_elems::<RecordElement>(s, pos, n) is Ok,
    ensures
        spec_elems::<RecordElement>(s, pos, n)->Ok_0.0.len() == n,
        forall|i: int| 0 <= i < n ==> #[trigger] RecordElement::spec_from_stream(s, pos + 30 * i)
            == Ok::<(RecordElementView, int), ParseFail>(
            (spec_elems::<RecordElement>(s, pos, n)->Ok_0.0[i], pos + 30 * i + 30),
        ),
{
    lemma_record_sizes(s);
    lemma_elems_fixed::<RecordElement>(s, pos, n, 30);
}

proof fn lemma_record_sizes(s: Seq<u8>)
    ensures
        forall|q: int| #[trigger] RecordElement::spec_from_stream(s, q) is Ok
            ==> RecordElement::spec_from_stream(s, q)->Ok_0.1 == q + 30,
{
    assert forall|q: int| #[trigger] RecordElement::spec_from_stream(s, q) is Ok
        implies RecordElement::spec_from_stream(s, q)->Ok_0.1 == q + 30 by {
        lemma_record_element_size(s, q);
    }
}

/// A record batch is laid out from `pos` as: base offset (8 bytes), batch
/// length (4), partition leader epoch (4), magic byte (1), CRC (4), the
/// attributes (2, read at `pos + 21`), last offset delta (4), base
/// timestamp (8), max timestamp (8), producer id (8), producer epoch (2),
/// base sequence (4), the count of records (4), each a big-endian number;
/// then that many records, 30 bytes each, from `pos + 61`.
pub proof fn lemma_record_batch_layout(s: Seq<u8>, pos: int)
    requires
        RecordBatch::spec_from_stream(s, pos) is Ok,
    ensures
        ({
            let (b, p) = RecordBatch::spec_from_stream(s, pos)->Ok_0;
            &&& 0 <= pos && pos + 61 <= p <= s.len()
            &&& b.base_offset as int == be_value(s.subrange(pos, pos + 8))
            &&& b.batch_len as int == be_value(s.subrange(pos + 8, pos + 12))
            &&& b.partition_leader_epoch as int == be_value(s.subrange(pos + 12, pos + 16))
            &&& b.magic_byte == s[pos + 16]
            &&& b.crc as int == be_value(s.subrange(pos + 17, pos + 21))
            &&& RecordAttributes::spec_from_stream(s, pos + 21) is Ok
            &&& b.attributes == RecordAttributes::spec_from_stream(s, pos + 21)->Ok_0.0
            &&& b.last_offset_delta as int == be_value(s.subrange(pos + 23, pos + 27))
            &&& b.base_timestamp as int == be_value(s.subrange(pos + 27, pos + 35))
            &&& b.max_timestamp as int == be_value(s.subrange(pos + 35, pos + 43))
            &&& b.producer_id as int == be_value(s.subrange(pos + 43, pos + 51))
            &&& b.producer_epoch as int == s[pos + 51] * 256 + s[pos + 52]
            &&& b.base_sequence as int == be_value(s.subrange(pos + 53, pos + 57))
            &&& b.records_length as int == be_value(s.subrange(pos + 57, pos + 61))
            &&& b.records.len() == b.records_length
            &&& p == pos + 61 + 30 * b.records_length
            &&& forall|i: int| 0 <= i < b.records.len() ==> #[trigger] RecordElement::spec_from_stream(
                s,
                pos + 61 + 30 * i,
            ) == Ok::<(RecordElementView, int), ParseFail>((b.records[i], pos + 61 + 30 * i + 30))
        }),
{
    lemma_wide_at(s, pos);
    lemma_wide_at(s, pos + 8);
    lemma_wide_at(s, pos + 12);
    lemma_u8_at(s, pos + 16);
    lemma_wide_at(s, pos + 17);
    lemma_wide_at(s, pos + 23);
    lemma_wide_at(s, pos + 27);
    lemma_wide_at(s, pos + 35);
    lemma_wide_at(s, pos + 43);
    lemma_u16_at(s, pos + 51);
    lemma_wide_at(s, pos + 53);
    lemma_wide_at(s, pos + 57);
    lemma_record_batch_size(s, pos);
    let n = spec_u32(s, pos + 57)->Ok_0.0;
    lemma_records_at(s, pos + 61, n as nat);
}

} // verus!
