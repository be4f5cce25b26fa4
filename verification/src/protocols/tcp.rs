//! The transport layer: the TCP header and its flag bits.

pub mod tcp_flags;
pub mod tcp_header;
