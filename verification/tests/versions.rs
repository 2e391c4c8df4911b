use kafka_broker::request::header::RequestHeader as SignedHeader;
use kafka_broker::requests::{ApiReqBody, ApiReqClient, ApiReqContent, ApiReqHeader, ApiVersionsReq};
use kafka_broker::responses::ApiVersionsRes;
use kafka_broker::utils::errors::ApiErrors;
use kafka_broker::utils::versions::{api_capabilities, ApiReqVersion};
use kafka_broker::utils::ResponseApiError;

#[test]
fn capabilities_map() {
    let caps = api_capabilities();
    assert_eq!(caps.len(), 2);
    assert_eq!(caps[&18].0, "ApiVersions");
    assert_eq!(caps[&18].1, 0..=4);
    assert_eq!(caps[&75].0, "DescribeTopicPartitions");
    assert_eq!(caps[&75].1, 0..=0);
}

#[test]
fn api_req_version_check() {
    assert!(ApiReqVersion::new(18, 4).check().is_ok());
    assert!(ApiReqVersion::new(75, 0).check().is_ok());
    assert!(matches!(ApiReqVersion::new(19, 0).check(), Err(ApiErrors::UnsupportedKey(19))));
    assert!(matches!(ApiReqVersion::new(18, 5).check(), Err(ApiErrors::UnsupportedVersion(5, 18))));
    assert!(matches!(ApiReqVersion::new(75, 1).check(), Err(ApiErrors::UnsupportedVersion(1, 75))));
    assert_eq!(ApiErrors::UnsupportedKey(1).into_error_code(), 36);
    assert_eq!(ApiErrors::UnsupportedVersion(1, 1).into_error_code(), 35);
}

#[test]
fn response_api_error_codes() {
    let k: u16 = ResponseApiError::UnsupportedKey(1).into();
    let v: u16 = ResponseApiError::UnsupportedVersion(9).into();
    assert_eq!(k, 36);
    assert_eq!(v, 35);
}

fn frame(key: u16, version: u16) -> Vec<u8> {
    let mut v = vec![0, 0, 0, 24];
    v.extend_from_slice(&key.to_be_bytes());
    v.extend_from_slice(&version.to_be_bytes());
    v.extend_from_slice(&[0, 0, 0, 5, 0, 2, b'i', b'd', 3]);
    v.extend_from_slice(&[3, b'c', b'l', 2, b'v', 0]);
    v
}

#[test]
fn read_api_versions_req() {
    let f = frame(18, 2);
    let (req, end) = ApiVersionsReq::from_socket(&f, 0).unwrap();
    assert_eq!(end, f.len());
    assert_eq!(req.size, 24);
    assert_eq!(req.header.key, 18);
    assert_eq!(req.header.version, 2);
    assert_eq!(req.header.correlation_id, 5);
    assert_eq!(req.header.client.1, "id");
    assert_eq!(req.header.tag_buffer, 3);
    assert_eq!(req.content.client.1, "cl");
    assert_eq!(req.content.version.1, "v");
    let (c, _) = ApiReqClient::from_socket(&[0, 1, b'a'], 0).unwrap();
    assert_eq!(c.1, "a");
    let (h, _) = ApiReqHeader::from_socket(&f, 4).unwrap();
    assert_eq!(h.key, 18);
    let (b, _) = ApiReqBody::from_socket(&f, 17).unwrap();
    assert_eq!(b.tag_buffer, 0);
    let (t, _) = ApiReqContent::from_socket(&[1], 0).unwrap();
    assert_eq!(t.1, "");
}

#[test]
fn api_versions_res_lists_every_api_once() {
    let (req, _) = ApiVersionsReq::from_socket(&frame(18, 2), 0).unwrap();
    let res: ApiVersionsRes = req.into();
    assert_eq!(res.size, 26);
    assert_eq!(res.header.correlation_id, 5);
    assert_eq!(res.body.error_code, 0);
    assert_eq!(res.body.tag_buffer, 3);
    let mut keys: Vec<u16> = res.body.versions.iter().map(|v| v.api_key).collect();
    keys.sort();
    assert_eq!(keys, vec![18, 75]);
    for v in &res.body.versions {
        let expected = if v.api_key == 18 { 0..=4 } else { 0..=0 };
        assert_eq!(v.version_range, expected);
    }
    let bytes = res.into_bytes();
    assert_eq!(bytes.len(), 30);
    assert_eq!(&bytes[..10], &[0, 0, 0, 26, 0, 0, 0, 5, 0, 0]);
    assert_eq!(&bytes[bytes.len() - 5..], &[0, 0, 0, 0, 0]);
}

#[test]
fn api_versions_res_for_other_requests() {
    let (req, _) = ApiVersionsReq::from_socket(&frame(75, 0), 0).unwrap();
    let res: ApiVersionsRes = req.into();
    assert_eq!(res.body.error_code, 0);
    assert!(res.body.versions.is_empty());
    assert_eq!(res.size, 12);
    let (req, _) = ApiVersionsReq::from_socket(&frame(18, 8), 0).unwrap();
    let res: ApiVersionsRes = req.into();
    assert_eq!(res.body.error_code, 35);
    assert!(res.body.versions.is_empty());
    assert_eq!(&res.into_bytes()[..], &[0, 0, 0, 12, 0, 0, 0, 5, 0, 35, 1, 0, 0, 0, 0, 0]);
}

#[test]
fn signed_header() {
    let input = [0xffu8, 0xff, 0xff, 0xfe, 0, 18, 0x80, 0, 0, 0, 1, 0];
    let h = SignedHeader::parse_request(&input);
    assert_eq!(h.msg_size, -2);
    assert_eq!(h.api_key, 18);
    assert_eq!(h.api_version, i16::MIN);
    assert_eq!(h.correlation_id, 256);
    assert!(h.client_id.is_none() && h.tag_buffer.is_none());
    assert_eq!(h.check_version(), 35);
    let h = SignedHeader::from((1, 18, 3, 4));
    assert_eq!(h.check_version(), 0);
}
