use kafka_broker::api::capabilites::apis;
use kafka_broker::api::requests::body::describe_topics_partitions::ReqTopicParition;
use kafka_broker::api::requests::{
    ApiVersionsRequest, IntoResponse, ReqDescribeTopicPartitions, Request, RequestHeader,
};
use kafka_broker::api::responses::body::api_versions::ApiVersionsVer;
use kafka_broker::api::responses::body::describe_topics_partitions::{
    PartitionV0Entry, ResponseTopicISRNode, ResponseTopicNodes, TopicResponse,
};
use kafka_broker::api::responses::{
    ApiVersionsBody, DescribeTopicBody, ResHeaderV0, ResHeaderV1, Response, ResponseBody,
    ResponseBytes, ResponseHeader,
};
use kafka_broker::error::{KafkaError, RequestError};
use kafka_broker::protocol::reader::{
    Bytes16, Bytes32, Bytes8, BytesCompactArray, BytesCompactString, BytesString, StreamReader,
};
use kafka_broker::stream::respond;

fn header(key: u16, version: u16) -> RequestHeader {
    RequestHeader {
        key: Bytes16(key),
        version: Bytes16(version),
        correlation_id: Bytes32(7),
        client: BytesString(0, String::new()),
        tag_buffer: Bytes8(0),
    }
}

#[test]
fn the_table_of_apis() {
    let table = apis();
    assert_eq!(table.len(), 2);
    assert_eq!(table[0].key, 18);
    assert_eq!(table[0].name, "ApiVersions");
    assert_eq!(table[0].version_range, 0..=4);
    assert_eq!(table[1].key, 75);
    assert_eq!(table[1].name, "DescribeTopicPartitions");
    assert_eq!(table[1].version_range, 0..=0);
}

#[test]
fn check_version_accepts_served_versions() {
    assert!(header(18, 0).check_version().is_ok());
    assert!(header(18, 4).check_version().is_ok());
    assert!(header(75, 0).check_version().is_ok());
}

#[test]
fn check_version_rejects_unknown_keys_and_versions() {
    assert_eq!(header(1, 0).check_version(), Err(KafkaError::UnsupportedKey(1)));
    assert_eq!(header(18, 5).check_version(), Err(KafkaError::UnsupportedVersion(18, 5)));
    assert_eq!(header(75, 1).check_version(), Err(KafkaError::UnsupportedVersion(75, 1)));
}

#[test]
fn kafka_error_codes() {
    assert_eq!(KafkaError::UnsupportedKey(1).into_error_code(), 36);
    assert_eq!(KafkaError::UnsupportedVersion(1, 2).into_error_code(), 35);
    assert_eq!(KafkaError::UnknownTopicOrPartition(0).into_error_code(), 3);
}

#[test]
fn request_context_wraps_the_error() {
    let e = RequestError::Kafka(KafkaError::UnsupportedKey(3)).with_request_context(3, 11);
    match e {
        RequestError::Request { api_key, correlation_id, source } => {
            assert_eq!(api_key, 3);
            assert_eq!(correlation_id, 11);
            assert!(matches!(*source, RequestError::Kafka(KafkaError::UnsupportedKey(3))));
        }
        _ => panic!("expected a wrapped error"),
    }
}

#[test]
fn response_headers_echo_the_request() {
    let h = header(18, 4);
    let v0 = ResHeaderV0::from_request(&h);
    assert_eq!(&v0.to_bytes()[..], &[0, 0, 0, 7]);
    let mut h1 = header(75, 0);
    h1.tag_buffer = Bytes8(9);
    let v1 = ResHeaderV1::from_request(&h1);
    assert_eq!(&v1.to_bytes()[..], &[0, 0, 0, 7, 9]);
}

#[test]
fn api_versions_body_for_a_served_version() {
    let body = ApiVersionsBody::from_request(
        &header(18, 3),
        &ApiVersionsRequest {
            client: BytesCompactString(1, String::new()),
            version: BytesCompactString(1, String::new()),
            tag_buffer: Bytes8(0),
        },
    );
    assert_eq!(body.error_code, 0);
    assert_eq!(body.versions.len(), 2);
    assert_eq!(
        &body.to_bytes()[..],
        &[0, 0, 3, 0, 18, 0, 0, 0, 4, 0, 0, 75, 0, 0, 0, 0, 0, 0, 0, 0, 0, 0]
    );
}

#[test]
fn api_versions_body_for_an_unserved_version() {
    let body = ApiVersionsBody::from_request(
        &header(18, 9),
        &ApiVersionsRequest {
            client: BytesCompactString(1, String::new()),
            version: BytesCompactString(1, String::new()),
            tag_buffer: Bytes8(2),
        },
    );
    assert_eq!(body.error_code, 35);
    assert!(body.versions.is_empty());
    assert_eq!(&body.to_bytes()[..], &[0, 35, 1, 0, 0, 0, 0, 2]);
}

#[test]
fn api_versions_ver_from_api_info() {
    let table = apis();
    let v = ApiVersionsVer::from(&table[0]);
    assert_eq!(v.api_key, 18);
    assert_eq!(v.version_range, 0..=4);
    assert_eq!(&v.to_bytes()[..], &[0, 18, 0, 0, 0, 4, 0]);
}

fn describe_request(names: &[&str]) -> ReqDescribeTopicPartitions {
    let topics: Vec<ReqTopicParition> = names
        .iter()
        .map(|n| ReqTopicParition {
            name: BytesCompactString(n.len() as u8 + 1, n.to_string()),
            tag_buffer: Bytes8(0),
        })
        .collect();
    ReqDescribeTopicPartitions {
        topics: BytesCompactArray(Bytes8(topics.len() as u8 + 1), topics),
        partition_limit: Bytes32(100),
        cursor: Bytes8(0xff),
        tag_buffer: Bytes8(0),
    }
}

#[test]
fn describe_topic_body_lists_unknown_topics() {
    let body = DescribeTopicBody::from_request(&header(75, 0), &describe_request(&["foo", "ba"]));
    assert_eq!(body.topics.len(), 2);
    assert_eq!(body.topics[0].name, "foo");
    assert_eq!(body.topics[0].error_code, 3);
    assert_eq!(body.topics[1].name, "ba");
    assert!(body.next_cursor.is_none());
    let bytes = body.to_bytes();
    assert_eq!(bytes.len(), 4 + 1 + 25 + 24 + 2);
    assert_eq!(&bytes[..5], &[0, 0, 0, 0, 3]);
    assert_eq!(&bytes[bytes.len() - 2..], &[0xff, 0]);
}

#[test]
fn topic_response_bytes() {
    let t = TopicResponse {
        error_code: 3,
        name: "foo".to_string(),
        topic_id: [0u8; 16],
        is_internal: false,
        partitions: Vec::new(),
        topic_authorized_operations: 0,
        tag_buffer: 0,
    };
    let mut expected = vec![0, 3, 4, b'f', b'o', b'o'];
    expected.extend_from_slice(&[0u8; 16]);
    expected.extend_from_slice(&[0, 1, 0]);
    assert_eq!(&t.to_bytes()[..], &expected[..]);
    assert_eq!(t.size(), 29);
}

#[test]
fn partition_bytes_and_sizes() {
    let p = PartitionV0Entry {
        error_code: 1,
        index: 2,
        leader_id: 3,
        leader_epoch: 4,
        replica_nodes: vec![ResponseTopicNodes(5)],
        isr_nodes: vec![ResponseTopicISRNode(6), ResponseTopicISRNode(7)],
        elligible_leader_replicas: 9,
        last_known_elr: 9,
        offline_replicas: 9,
        tag_buffer: 8,
    };
    assert_eq!(p.size(), 32);
    assert_eq!(
        &p.to_bytes()[..],
        &[0, 1, 0, 0, 0, 2, 0, 0, 0, 3, 0, 0, 0, 4, 2, 0, 0, 0, 5, 0, 0, 0, 6, 0, 0, 0, 7, 0, 0, 0, 8]
    );
    let t = TopicResponse {
        error_code: 0,
        name: "ab".to_string(),
        topic_id: [1u8; 16],
        is_internal: false,
        partitions: vec![p],
        topic_authorized_operations: 0,
        tag_buffer: 0,
    };
    assert_eq!(t.size(), 26 + 2 + 32);
}

fn api_versions_frame(version: u16) -> Vec<u8> {
    let mut v = vec![0, 18];
    v.extend_from_slice(&version.to_be_bytes());
    v.extend_from_slice(&[0, 0, 0, 7, 0, 9]);
    v.extend_from_slice(b"kafka-cli");
    v.push(0);
    v.push(10);
    v.extend_from_slice(b"kafka-cli");
    v.push(4);
    v.extend_from_slice(b"0.1");
    v.push(0);
    v
}

#[test]
fn respond_to_api_versions() {
    let out = respond(&api_versions_frame(4)).unwrap();
    assert_eq!(
        &out[..],
        &[
            0, 0, 0, 26, // size
            0, 0, 0, 7, // correlation id
            0, 0, // error code
            3, // two APIs
            0, 18, 0, 0, 0, 4, 0, // ApiVersions 0..=4
            0, 75, 0, 0, 0, 0, 0, // DescribeTopicPartitions 0..=0
            0, 0, 0, 0, // throttle time
            0, // tag buffer
        ]
    );
}

#[test]
fn respond_to_an_unsupported_version() {
    let out = respond(&api_versions_frame(7)).unwrap();
    assert_eq!(&out[..], &[0, 0, 0, 12, 0, 0, 0, 7, 0, 35, 1, 0, 0, 0, 0, 0]);
}

#[test]
fn respond_to_describe_topic_partitions() {
    let mut frame = vec![0, 75, 0, 0, 0, 0, 0, 9, 0, 0, 0];
    frame.extend_from_slice(&[2, 4, b'f', b'o', b'o', 0, 0, 0, 0, 100, 0xff, 0]);
    let out = respond(&frame).unwrap();
    let mut expected = vec![0, 0, 0, 37, 0, 0, 0, 9, 0, 0, 0, 0, 0, 2, 0, 3, 4, b'f', b'o', b'o'];
    expected.extend_from_slice(&[0u8; 16]);
    expected.extend_from_slice(&[0, 1, 0, 0xff, 0]);
    assert_eq!(&out[..], &expected[..]);
}

#[test]
fn respond_to_a_short_frame() {
    let frame = api_versions_frame(4);
    match respond(&frame[..5]) {
        Err(RequestError::Io(_)) => {}
        _ => panic!("expected an unexpected end"),
    }
}

#[test]
fn request_into_response() {
    let frame = api_versions_frame(4);
    let (req, end) = Request::from_stream(&frame, 0).unwrap();
    assert_eq!(end, frame.len());
    match req.into_response() {
        Response::ApiVersions(h, body) => {
            assert_eq!(h.correalation_id, 7);
            assert_eq!(body.versions.len(), 2);
        }
        _ => panic!("expected an ApiVersions response"),
    }
}

#[test]
fn response_frame_size() {
    let body = DescribeTopicBody {
        throttle_time: 0,
        topics: Vec::new(),
        next_cursor: Some(3),
        tag_buffer: 1,
    };
    let r = Response::DescribeTopic(ResHeaderV1 { correalation_id: 2, tag_buffer: 4 }, body);
    assert_eq!(&r.to_bytes()[..], &[0, 0, 0, 12, 0, 0, 0, 2, 4, 0, 0, 0, 0, 1, 3, 1]);
}
