//! A small HTTP server side: requests parsed from text, responses written
//! as bytes, and the decisions of a static-file server.

pub mod headers;
pub mod request;
pub mod response;
pub mod server;
