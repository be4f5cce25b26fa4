//! The network layer: IPv4 and IPv6 addresses and headers.

pub mod ipv4_address;
pub mod ipv6_address;
pub mod ipv4_header;
pub mod ipv6_header;
