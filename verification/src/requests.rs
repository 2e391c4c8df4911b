//! An older reader of `ApiVersions` requests, frame size included.
pub mod head;
pub mod request;

pub use self::head::{ApiReqClient, ApiReqHeader};
pub use self::request::{ApiReqBody, ApiReqContent, ApiVersionsReq};
