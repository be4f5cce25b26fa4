//! The codec contract that every header variant and every address meets.

use vstd::prelude::*;
use crate::error::DecodeError;
use crate::types::bit_stream::{BitStream, Bits};

verus! {

/// A value with a fixed layout on the wire. Decoding reads it from the
/// unread bits of a cursor; encoding spells it out bit for bit.
pub trait ByteObject: Sized {
    /// The wire layout of the value. Fields wider than their slot lose
    /// their high bits.
    spec fn encoding(&self) -> Seq<bool>;

    /// What decoding makes of a run of bits that starts with the value.
    spec fn decoding(bits: Seq<bool>) -> Result<Self, DecodeError>;

    /// How many of the bits a successful decoding consumes.
    spec fn decoded_len(bits: Seq<bool>) -> nat;

    /// The value meets the invariant of its type: every field fits the
    /// width that the layout gives it.
    spec fn valid(&self) -> bool;

    /// How many bits behind the encoding a decoder consumes and drops.
    spec fn discarded(&self) -> nat;

    /// Reads one value from the cursor. On success exactly the bits of the
    /// value are consumed; on failure the cursor stays where it was.
    fn from_stream(src: &mut BitStream) -> (decoded: Result<Self, DecodeError>)
        requires
            old(src).wf(),
        ensures
            final(src).wf(),
            final(src).bits() == old(src).bits(),
            decoded == Self::decoding(old(src).unread()),
            decoded is Ok ==> final(src).pos() == old(src).pos() + Self::decoded_len(
                old(src).unread(),
            ),
            decoded is Err ==> final(src).pos() == old(src).pos(),
    ;

    /// The value in its wire layout.
    fn to_bits(&self) -> (bits: Bits)
        ensures
            bits@ == self.encoding(),
    ;

    /// Appends the wire layout of the value to `dst` and returns the number
    /// of bits that were added.
    fn append_to(&self, dst: &mut BitStream) -> (added: usize)
        requires
            old(dst).wf(),
        ensures
            final(dst).wf(),
            final(dst).bits() == old(dst).bits() + self.encoding(),
            final(dst).pos() == old(dst).pos(),
            added == self.encoding().len(),
    {
        let bits = self.to_bits();
        let added = bits.len();
        dst.append(bits);
        added
    }

    /// Decoding what was encoded gives the value back, whatever bits follow
    /// it, so long as the bits that the decoder drops are there. It consumes
    /// the encoding and those bits.
    proof fn lemma_round_trip(&self, rest: Seq<bool>)
        requires
            self.valid(),
            rest.len() >= self.discarded(),
        ensures
            Self::decoding(self.encoding() + rest) == Ok::<Self, DecodeError>(*self),
            Self::decoded_len(self.encoding() + rest) == self.encoding().len() + self.discarded(),
    ;

    /// A decoded value has every field within its width, and was read from
    /// bits that were there.
    proof fn lemma_decoding_valid(bits: Seq<bool>)
        ensures
            Self::decoding(bits) matches Ok(v) ==> v.valid() && Self::decoded_len(bits)
                <= bits.len(),
    ;
}

} // verus!
