pub mod capabilites;
pub mod requests;
pub mod responses;
