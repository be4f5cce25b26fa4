//! The faults that end the processing of one frame.

use vstd::prelude::*;

verus! {

/// Why a frame could not be processed. Each fault concerns a single frame;
/// nothing about it carries over to the next one.
#[derive(Clone, Copy, Debug, PartialEq, Eq, Structural)]
pub enum DecodeError {
    /// More bits were asked for than the buffer still holds.
    BufferUnderrun,
    /// An ethertype, version or protocol number outside the known set.
    UnrecognizedTag,
    /// A protocol that is recognised but not implemented.
    UnsupportedProtocol,
    /// A stored checksum differs from the one computed over the header.
    ChecksumMismatch,
}

} // verus!
