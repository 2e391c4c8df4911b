//! A small Kafka broker core: wire-format readers for requests and
//! metadata records, the version negotiation rules, and the writers
//! that build `ApiVersions` and `DescribeTopicPartitions` responses.

pub mod api;
pub mod buffer;
pub mod error;
pub mod protocol;
pub mod request;
pub mod requests;
pub mod responses;
pub mod stream;
pub mod utils;
