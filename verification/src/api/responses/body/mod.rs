pub mod api_versions;
pub mod describe_topics_partitions;
