use kafka_broker::error::RequestError;
use kafka_broker::protocol::metadata::{
    read_batches, Compression, RecordAttributes, RecordBatch, RecordElement, RecordValue,
};
use kafka_broker::protocol::reader::StreamReader;

fn record() -> Vec<u8> {
    let mut r = vec![29u8, 0, 0, 0, 1, 22];
    r.extend_from_slice(&[1, 12, 0, 20]);
    r.extend_from_slice(&[0u8; 15]);
    r.push(b'x');
    r.extend_from_slice(&[0, 17, 0, 0]);
    r
}

fn batch(attributes: u16, records: u32) -> Vec<u8> {
    let mut b = Vec::new();
    b.extend_from_slice(&1u64.to_be_bytes());
    b.extend_from_slice(&79u32.to_be_bytes());
    b.extend_from_slice(&2u32.to_be_bytes());
    b.push(2);
    b.extend_from_slice(&0xdead_beefu32.to_be_bytes());
    b.extend_from_slice(&attributes.to_be_bytes());
    b.extend_from_slice(&3u32.to_be_bytes());
    b.extend_from_slice(&10u64.to_be_bytes());
    b.extend_from_slice(&11u64.to_be_bytes());
    b.extend_from_slice(&u64::MAX.to_be_bytes());
    b.extend_from_slice(&0xffffu16.to_be_bytes());
    b.extend_from_slice(&4u32.to_be_bytes());
    b.extend_from_slice(&records.to_be_bytes());
    for _ in 0..records {
        b.extend_from_slice(&record());
    }
    b
}

#[test]
fn compression_codes() {
    assert_eq!(Compression::try_from(0u8).unwrap(), Compression::Uncompressed);
    assert_eq!(Compression::try_from(1u8).unwrap(), Compression::Gzip);
    assert_eq!(Compression::try_from(2u8).unwrap(), Compression::Snappy);
    assert_eq!(Compression::try_from(3u8).unwrap(), Compression::Lz4);
    assert_eq!(Compression::try_from(4u8).unwrap(), Compression::Zstd);
    match Compression::try_from(5u8) {
        Err(RequestError::InvalidCompression(5)) => {}
        _ => panic!("code 5 names no codec"),
    }
}

#[test]
fn attributes_flags() {
    let (a, end) = RecordAttributes::from_stream(&[0, 0b0101_1010], 0).unwrap();
    assert_eq!(end, 2);
    assert_eq!(
        a,
        RecordAttributes {
            compression: Compression::Snappy,
            timestamp_type: true,
            is_transactional: true,
            is_control_batch: false,
            has_delete_horizon_ms: true,
        }
    );
    match RecordAttributes::from_stream(&[0, 7], 0) {
        Err(RequestError::InvalidCompression(7)) => {}
        _ => panic!("codec 7 does not exist"),
    }
}

#[test]
fn record_value_and_element() {
    let r = record();
    let (e, end) = RecordElement::from_stream(&r, 0).unwrap();
    assert_eq!(end, 30);
    assert_eq!(e.len.0, 29);
    assert_eq!(e.value_len.0, 22);
    assert_eq!(e.value.frame_version.0, 1);
    assert_eq!(e.value.types.0, 12);
    assert_eq!(e.value.name_len.0, 20);
    assert_eq!(e.value.name.0, b'x' as u128);
    assert_eq!(e.value.feature_level.0, 17);
    let (v, end) = RecordValue::from_stream(&r, 6).unwrap();
    assert_eq!(end, 29);
    assert_eq!(v.feature_level.0, 17);
}

#[test]
fn record_batch_with_records() {
    let b = batch(0, 2);
    let (rb, end) = RecordBatch::from_stream(&b, 0).unwrap();
    assert_eq!(end, 61 + 60);
    assert_eq!(rb.base_offset.0, 1);
    assert_eq!(rb.batch_len.0, 79);
    assert_eq!(rb.crc.0, 0xdead_beef);
    assert_eq!(rb.attributes.compression, Compression::Uncompressed);
    assert_eq!(rb.producer_id.0, u64::MAX);
    assert_eq!(rb.producer_epoch.0, 0xffff);
    assert_eq!(rb.records_length.0, 2);
    assert_eq!(rb.records.len(), 2);
}

#[test]
fn record_batch_with_a_missing_record() {
    let b = batch(0, 2);
    match RecordBatch::from_stream(&b[..b.len() - 1], 0) {
        Err(RequestError::Io(_)) => {}
        _ => panic!("expected an unexpected end"),
    }
}

#[test]
fn read_batches_stops_at_the_first_unreadable_batch() {
    let mut log = batch(0, 1);
    log.extend_from_slice(&batch(1, 0));
    log.extend_from_slice(&batch(6, 0));
    log.extend_from_slice(&batch(0, 0));
    let batches = read_batches(&log);
    assert_eq!(batches.len(), 2);
    assert_eq!(batches[0].records.len(), 1);
    assert_eq!(batches[1].attributes.compression, Compression::Gzip);
    assert!(read_batches(&[]).is_empty());
}
