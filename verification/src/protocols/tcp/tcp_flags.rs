//! The bits of the TCP flags byte.

use vstd::prelude::*;

verus! {

pub const TCP_FIN: u8 = 0b0000_0001;

pub const TCP_SYN: u8 = 0b0000_0010;

pub const TCP_RST: u8 = 0b0000_0100;

pub const TCP_PSH: u8 = 0b0000_1000;

pub const TCP_ACK: u8 = 0b0001_0000;

pub const TCP_URG: u8 = 0b0010_0000;

pub const TCP_ECE: u8 = 0b0100_0000;

pub const TCP_CWR: u8 = 0b1000_0000;

/// Whether the bit that `mask` names (a power of two) is set in `flags`.
pub open spec fn flag_set(flags: u8, mask: u8) -> bool {
    (flags as int / mask as int) % 2 == 1
}

/// Whether the bit that `mask` names is set in `flags`.
pub fn has_flag(flags: u8, mask: u8) -> (set: bool)
    requires
        mask > 0,
    ensures
        set == flag_set(flags, mask),
{
    (flags / mask) % 2 == 1
}

} // verus!
