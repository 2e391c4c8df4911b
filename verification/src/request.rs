//! A minimal reader of request headers with signed fields.
pub mod header;
