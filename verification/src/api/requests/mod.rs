pub mod body;
pub mod header;
pub mod traits;

pub use self::body::api_versions::ApiVersionsRequest;
pub use self::body::describe_topics_partitions::ReqDescribeTopicPartitions;
pub use self::header::RequestHeader;
pub use self::traits::IntoResponse;

use crate::api::responses::{ApiVersionsBody, DescribeTopicBody, ResHeaderV0, ResHeaderV1, Response, ResponseBody, ResponseHeader};
use crate::api::responses::body::api_versions::spec_api_error_code;
use crate::api::capabilites::api_table;
use crate::error::RequestError;
use crate::protocol::reader::{then, SpecRead, StreamReader};
use vstd::prelude::*;

verus! {

/// The body of a request, by API.
#[derive(Debug)]
pub enum RequestBody {
    ApiVersion(ApiVersionsRequest),
    DescribeTopicPartitions(ReqDescribeTopicPartitions),
}

/// A request: header and body.
#[derive(Debug)]
pub struct Request {
    header: RequestHeader,
    body: RequestBody,
}

/// The mathematical value of a request body.
pub enum RequestBodyView {
    ApiVersion(<ApiVersionsRequest as View>::V),
    DescribeTopicPartitions(<ReqDescribeTopicPartitions as View>::V),
}

impl View for RequestBody {
    type V = RequestBodyView;

    open spec fn view(&self) -> RequestBodyView {
        match self {
            RequestBody::ApiVersion(b) => RequestBodyView::ApiVersion(b@),
            RequestBody::DescribeTopicPartitions(b) => RequestBodyView::DescribeTopicPartitions(b@),
        }
    }
}

impl View for Request {
    type V = (<RequestHeader as View>::V, RequestBodyView);

    closed spec fn view(&self) -> Self::V {
        (self.header@, self.body@)
    }
}

impl StreamReader for Request {
    /// The header, then the body that the API key names: key 18 is
    /// `ApiVersions`; every other key is read as `DescribeTopicPartitions`.
    open spec fn spec_from_stream(input: Seq<u8>, pos: int) -> SpecRead<Self::V> {
        then(RequestHeader::spec_from_stream(input, pos), |header: <RequestHeader as View>::V, p1: int|
            if header.0 == 18 {
                then(ApiVersionsRequest::spec_from_stream(input, p1), |b: <ApiVersionsRequest as View>::V, p2: int|
                    Ok(((header, RequestBodyView::ApiVersion(b)), p2)))
            } else {
                then(ReqDescribeTopicPartitions::spec_from_stream(input, p1),
                    |b: <ReqDescribeTopicPartitions as View>::V, p2: int|
                    Ok(((header, RequestBodyView::DescribeTopicPartitions(b)), p2)))
            }
        )
    }

    fn from_stream(input: &[u8], pos: usize) -> (r: Result<(Self, usize), RequestError>) {
        let (header, p) = match RequestHeader::from_stream(input, pos) {
            Ok(v) => v,
            Err(e) => return Err(e),
        };
        let (body, p) = if header.key.0 == 18 {
            match ApiVersionsRequest::from_stream(input, p) {
                Ok((b, q)) => (RequestBody::ApiVersion(b), q),
                Err(e) => return Err(e),
            }
        } else {
            match ReqDescribeTopicPartitions::from_stream(input, p) {
                Ok((b, q)) => (RequestBody::DescribeTopicPartitions(b), q),
                Err(e) => return Err(e),
            }
        };
        Ok((Self { header, body }, p))
    }
}

/// `resp` answers the request `req`: an `ApiVersions` request with a
/// header that echoes its correlation id and the body of
/// `ApiVersionsBody::from_request`; a `DescribeTopicPartitions` request
/// with a header that echoes its correlation id and tag buffer and the body
/// of `DescribeTopicBody::from_request`.
pub open spec fn answers(req: <Request as View>::V, resp: Response) -> bool {
    match (req.1, resp) {
        (RequestBodyView::ApiVersion(b), Response::ApiVersions(h, body)) => {
            &&& h.correalation_id == req.0.2
            &&& body.error_code == spec_api_error_code(req.0.0, req.0.1)
            &&& body.versions@.len() == if body.error_code == 0 { api_table().len() } else { 0 }
            &&& forall|i: int| 0 <= i < body.versions@.len() ==> {
                &&& #[trigger] body.versions@[i].entry() == api_table()[i]
                &&& !body.versions@[i].version_range@.exhausted
                &&& body.versions@[i].tag_buffer == 0
            }
            &&& body.throttle_time == 0
            &&& body.tag_buffer == b.2
        },
        (RequestBodyView::DescribeTopicPartitions(b), Response::DescribeTopic(h, body)) => {
            &&& h.correalation_id == req.0.2
            &&& h.tag_buffer == req.0.4
            &&& body.throttle_time == 0
            &&& body.topics@.len() == b.0.1.len()
            &&& forall|i: int| 0 <= i < body.topics@.len() ==> {
                let t = #[trigger] body.topics@[i];
                &&& t.error_code == 3
                &&& t.name@ == b.0.1[i].0.1
                &&& t.topic_id@ == Seq::new(16, |j: int| 0u8)
                &&& !t.is_internal
                &&& t.partitions@.len() == 0
                &&& t.topic_authorized_operations == 0
                &&& t.tag_buffer == 0
            }
            &&& body.next_cursor is None
            &&& body.tag_buffer == b.3
        },
        _ => false,
    }
}

impl IntoResponse for Request {
    /// The response that answers this request.
    fn into_response(&self) -> (r: Response)
        ensures
            answers(self@, r),
    {
        match &self.body {
            RequestBody::ApiVersion(api_versions_request) => {
                let header = ResHeaderV0::from_request(&self.header);
                let body = ApiVersionsBody::from_request(&self.header, &api_versions_request);
                Response::ApiVersions(header, body)
            },
            RequestBody::DescribeTopicPartitions(req_describe_topic_partitions) => {
                let header = ResHeaderV1::from_request(&self.header);
                let body = DescribeTopicBody::from_request(&self.header, &req_describe_topic_partitions);
                Response::DescribeTopic(header, body)
            },
        }
    }
}

/// A request is its header, read at `pos`, then its body, read where the
/// header ends: an `ApiVersions` body exactly when the API key in the two
/// bytes at `pos` is 18, a `DescribeTopicPartitions` body otherwise.
pub proof fn lemma_request_layout(s: Seq<u8>, pos: int)
    requires
        Request::spec_from_stream(s, pos) is Ok,
    ensures
        ({
            let ((header, body), end) = Request::spec_from_stream(s, pos)->Ok_0;
            let (h, q) = RequestHeader::spec_from_stream(s, pos)->Ok_0;
            &&& RequestHeader::spec_from_stream(s, pos) is Ok
            &&& header == h
            &&& (body is ApiVersion <==> s[pos] * 256 + s[pos + 1] == 18)
            &&& body matches RequestBodyView::ApiVersion(b) ==> ApiVersionsRequest::spec_from_stream(s, q)
                == Ok::<(<ApiVersionsRequest as View>::V, int), crate::error::ParseFail>((b, end))
            &&& body matches RequestBodyView::DescribeTopicPartitions(b) ==> ReqDescribeTopicPartitions::spec_from_stream(
                s,
                q,
            ) == Ok::<(<ReqDescribeTopicPartitions as View>::V, int), crate::error::ParseFail>((b, end))
        }),
{
    crate::api::requests::header::lemma_request_header_layout(s, pos);
}

} // verus!
