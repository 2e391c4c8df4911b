use kafka_broker::error::{ErrorKind, RequestError};
use kafka_broker::protocol::reader::{
    Bytes128, Bytes16, Bytes32, Bytes64, Bytes8, BytesCompactString, BytesString, BytesUUID,
    StreamReader,
};

#[test]
fn reads_big_endian_integers() {
    let input = [1u8, 2, 3, 4, 5, 6, 7, 8, 9, 10, 11, 12, 13, 14, 15, 16];
    assert_eq!(Bytes8::from_stream(&input, 0).unwrap().0 .0, 1);
    assert_eq!(Bytes16::from_stream(&input, 0).unwrap().0 .0, 0x0102);
    assert_eq!(Bytes32::from_stream(&input, 1).unwrap().0 .0, 0x0203_0405);
    let (v, end) = Bytes64::from_stream(&input, 8).unwrap();
    assert_eq!(v.0, 0x090a_0b0c_0d0e_0f10);
    assert_eq!(end, 16);
    let (v, end) = Bytes128::from_stream(&input, 0).unwrap();
    assert_eq!(v.0, 0x0102_0304_0506_0708_090a_0b0c_0d0e_0f10);
    assert_eq!(end, 16);
    let (id, _) = BytesUUID::from_stream(&input, 0).unwrap();
    assert_eq!(id.0, input);
}

#[test]
fn short_input_is_unexpected_eof() {
    let input = [1u8, 2, 3];
    match Bytes32::from_stream(&input, 0) {
        Err(RequestError::Io(ErrorKind::UnexpectedEof)) => {}
        _ => panic!("expected an unexpected end"),
    }
    match Bytes8::from_stream(&input, 3) {
        Err(RequestError::Io(ErrorKind::UnexpectedEof)) => {}
        _ => panic!("expected an unexpected end"),
    }
}

#[test]
fn reads_strings() {
    let input = [0u8, 3, b'a', b'b', b'c', 4, b'x', b'y', b'z'];
    let (s, end) = BytesString::from_stream(&input, 0).unwrap();
    assert_eq!(s.0, 3);
    assert_eq!(s.1, "abc");
    assert_eq!(end, 5);
    let (c, end) = BytesCompactString::from_stream(&input, 5).unwrap();
    assert_eq!(c.0, 4);
    assert_eq!(c.1, "xyz");
    assert_eq!(end, 9);
}

#[test]
fn reads_multibyte_utf8() {
    let mut input = vec![0u8, 2];
    input.extend_from_slice("é".as_bytes());
    let (s, _) = BytesString::from_stream(&input, 0).unwrap();
    assert_eq!(s.1, "é");
}

#[test]
fn invalid_utf8_is_reported_with_its_bytes() {
    let input = [0u8, 2, 0xff, 0xfe];
    match BytesString::from_stream(&input, 0) {
        Err(RequestError::Utf8(bytes)) => assert_eq!(bytes, vec![0xff, 0xfe]),
        _ => panic!("expected a UTF-8 error"),
    }
}

#[test]
fn zero_compact_length_is_a_protocol_error() {
    let input = [0u8, 1, 2];
    match BytesCompactString::from_stream(&input, 0) {
        Err(RequestError::Protocol(_)) => {}
        _ => panic!("expected a protocol error"),
    }
}

#[test]
fn compact_string_of_length_one_is_empty() {
    let input = [1u8];
    let (c, end) = BytesCompactString::from_stream(&input, 0).unwrap();
    assert_eq!(c.1, "");
    assert_eq!(end, 1);
}
