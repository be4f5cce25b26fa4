//! A user-space fragment of a TCP/IP stack: bit-exact header codecs, the
//! Internet checksum, and a stateless responder for ARP and TCP frames.

pub mod error;
pub mod types;
pub mod protocols;
pub mod checksum;
pub mod responder;
pub mod decoder;
pub mod packet_builder;
pub mod http;
pub mod text;
