use kafka_broker::stream::request::{
    ApiVersion, ApiVersionClientId, ClientId, ClientSoftwareVersion, Header, RequestApiVersion,
    RequestHeader,
};
use kafka_broker::stream::response::{
    ResponseApiVersion, ResponseBody, ResponseHeader, ResponseVersion,
};
use kafka_broker::utils::CodecError;
use kafka_broker::error::ErrorKind;

fn request(key: u16, version: u16) -> RequestApiVersion {
    RequestApiVersion {
        msg_size: 0,
        header: RequestHeader {
            key,
            version,
            correlation_id: 77,
            client: ClientId { length: 0, content: String::new() },
            tag_buffer: 5,
        },
        api_version: ApiVersion {
            client: ApiVersionClientId { length: 1, content: String::new() },
            software_version: ClientSoftwareVersion { length: 1, content: String::new() },
            tag_buffer: 0,
        },
    }
}

#[test]
fn response_size_counts_each_field() {
    let resp = ResponseApiVersion {
        header: ResponseHeader { correlation_id: 1 },
        body: ResponseBody {
            error_code: 0,
            versions: vec![
                ResponseVersion { api_key: 18, version_range: (0, 4), tag_buffer: 0 },
                ResponseVersion { api_key: 75, version_range: (0, 0), tag_buffer: 0 },
            ],
            throttle_time_ms: 0,
            tag_buffer: 0,
        },
    };
    assert_eq!(resp.size(), 26);
    let buf = resp.into_bytes();
    assert_eq!(buf.len(), 30);
}

#[test]
fn response_to_supported_request() {
    let resp = ResponseApiVersion::from(request(18, 4));
    assert_eq!(resp.header.correlation_id, 77);
    assert_eq!(resp.body.error_code, 0);
    assert_eq!(resp.body.versions.len(), 1);
    assert_eq!(resp.body.versions[0].api_key, 18);
    assert_eq!(resp.body.versions[0].version_range, (0, 4));
    assert_eq!(resp.body.versions[0].tag_buffer, 5);
    assert_eq!(resp.body.tag_buffer, 5);
}

#[test]
fn response_to_unsupported_key() {
    let resp = ResponseApiVersion::from(request(75, 0));
    assert_eq!(resp.body.error_code, 36);
    assert_eq!(resp.body.versions[0].api_key, 75);
}

#[test]
fn response_to_unsupported_version() {
    let resp = ResponseApiVersion::from(request(18, 5));
    assert_eq!(resp.body.error_code, 35);
}

#[test]
fn stream_header_check_version() {
    let mut h = Header { api_key: 18, api_version: 4, correlation_id: 1, msg_size: 0, client_id: None, tag_buffer: None };
    assert_eq!(h.check_version(), 0);
    h.api_version = 5;
    assert_eq!(h.check_version(), 35);
    h.api_version = -1;
    assert_eq!(h.check_version(), 35);
}

fn api_versions_frame() -> Vec<u8> {
    let mut v = vec![0, 0, 0, 35, 0, 18, 0, 4, 0, 0, 0, 9, 0, 3];
    v.extend_from_slice(b"cli");
    v.push(0);
    v.push(4);
    v.extend_from_slice(b"app");
    v.push(4);
    v.extend_from_slice(b"1.0");
    v.push(0);
    v
}

#[test]
fn read_request_api_version() {
    let frame = api_versions_frame();
    let (req, end) = RequestApiVersion::from_socket(&frame, 0).unwrap();
    assert_eq!(end, frame.len());
    assert_eq!(req.msg_size, 35);
    assert_eq!(req.header.key, 18);
    assert_eq!(req.header.version, 4);
    assert_eq!(req.header.correlation_id, 9);
    assert_eq!(req.header.client.length, 3);
    assert_eq!(req.header.client.content, "cli");
    assert_eq!(req.api_version.client.length, 4);
    assert_eq!(req.api_version.client.content, "app");
    assert_eq!(req.api_version.software_version.content, "1.0");
}

#[test]
fn read_request_api_version_errors() {
    let frame = api_versions_frame();
    match RequestApiVersion::from_socket(&frame[..10], 0) {
        Err(CodecError::InvalidData(ErrorKind::UnexpectedEof)) => {}
        _ => panic!("a short frame is invalid data"),
    }
    let mut bad = frame.clone();
    bad[14] = 0xff;
    match RequestApiVersion::from_socket(&bad, 0) {
        Err(CodecError::UnexpectedEof) => {}
        _ => panic!("text that is not UTF-8 is reported as an unexpected end"),
    }
}
