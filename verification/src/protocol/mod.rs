pub mod metadata;
pub mod reader;
