//! Decoding from a buffer of bytes.

use vstd::prelude::*;
use crate::error::DecodeError;
use crate::responder::{decode_frame, frame_of, Frame, LinkMode};
use crate::types::bit_spec::bytes_bits;
use crate::types::bit_stream::{BitStream, Bits};
use crate::types::bit_utils::BitUtils;
use crate::types::byte_object::ByteObject;

verus! {

/// Something that makes a `T` of the bytes at the start of a buffer.
pub trait Decoder<T> {
    /// What the decoder makes of `buf`.
    spec fn decoded(&self, buf: Seq<u8>) -> Result<T, DecodeError>;

    /// Decodes the value at the start of `buf`.
    fn decode(&self, buf: &[u8]) -> (value: Result<T, DecodeError>)
        ensures
            value == self.decoded(buf@),
    ;
}

/// Decodes any header or address from the bytes it starts with.
pub struct HeaderDecoder;

impl<T: ByteObject> Decoder<T> for HeaderDecoder {
    open spec fn decoded(&self, buf: Seq<u8>) -> Result<T, DecodeError> {
        T::decoding(bytes_bits(buf))
    }

    fn decode(&self, buf: &[u8]) -> (value: Result<T, DecodeError>) {
        let mut stream = BitStream::new(Bits::from_vec(BitUtils::u8s_to_bits(buf)));
        assert(stream.unread() =~= bytes_bits(buf@));
        T::from_stream(&mut stream)
    }
}

/// Decodes whole frames of an interface with the given framing.
pub struct FrameDecoder {
    pub mode: LinkMode,
}

impl Decoder<Frame> for FrameDecoder {
    open spec fn decoded(&self, buf: Seq<u8>) -> Result<Frame, DecodeError> {
        frame_of(bytes_bits(buf), self.mode)
    }

    fn decode(&self, buf: &[u8]) -> (value: Result<Frame, DecodeError>) {
        decode_frame(buf, self.mode)
    }
}

} // verus!
