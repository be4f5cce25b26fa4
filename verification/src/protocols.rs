//! The header variants and the small values they are made of.

pub mod arp_header;
pub mod ether_type;
pub mod ethernet_header;
pub mod header;
pub mod ip;
pub mod mac_address;
pub mod tcp;
