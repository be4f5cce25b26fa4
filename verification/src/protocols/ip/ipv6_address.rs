//! The 128-bit IPv6 address.

use vstd::prelude::*;
use crate::error::DecodeError;
use crate::types::bit_spec::{
    byte_at, bytes_bits, lemma_bytes_bits_len, lemma_bytes_in_concat, lemma_fields_of_take,
};
use crate::types::bit_stream::{BitStream, Bits};
use crate::types::byte_object::ByteObject;
use crate::text::{hex2, push_hex2, push_str, string_of};

verus! {

/// An IPv6 address: sixteen bytes in transmission order.
#[derive(Clone, Copy, Debug, PartialEq, Eq)]
pub struct IPv6Address {
    pub address: [u8; 16],
}

impl IPv6Address {
    /// The address whose sixteen bytes start at byte `k` of `bits`.
    pub open spec fn at(bits: Seq<bool>, k: int) -> IPv6Address {
        IPv6Address {
            address: [
                byte_at(bits, k),
                byte_at(bits, k + 1),
                byte_at(bits, k + 2),
                byte_at(bits, k + 3),
                byte_at(bits, k + 4),
                byte_at(bits, k + 5),
                byte_at(bits, k + 6),
                byte_at(bits, k + 7),
                byte_at(bits, k + 8),
                byte_at(bits, k + 9),
                byte_at(bits, k + 10),
                byte_at(bits, k + 11),
                byte_at(bits, k + 12),
                byte_at(bits, k + 13),
                byte_at(bits, k + 14),
                byte_at(bits, k + 15),
            ],
        }
    }

    /// Reads the address whose sixteen bytes start at byte `k` of `block`.
    pub fn read_at(block: &Bits, k: usize) -> (address: IPv6Address)
        requires
            8 * (k + 16) <= block@.len(),
        ensures
            address == IPv6Address::at(block@, k as int),
    {
        let b = block.bytes_at(k, 16);
        IPv6Address { address: [b[0], b[1], b[2], b[3], b[4], b[5], b[6], b[7], b[8], b[9], b[10], b[11], b[12], b[13], b[14], b[15]] }
    }

    /// An address written whole bytes into a run of bits is read back from
    /// its place.
    pub proof fn lemma_at_concat(&self, before: Seq<bool>, after: Seq<bool>)
        requires
            before.len() % 8 == 0,
        ensures
            IPv6Address::at(before + self.encoding() + after, before.len() as int / 8) == *self,
            (before + self.encoding()).len() == before.len() + 128,
    {
        let all = before + self.encoding() + after;
        let k = before.len() as int / 8;
        assert forall|j: int| 0 <= j < 16 implies byte_at(all, k + j) == self.address@[j] by {
            lemma_bytes_in_concat(before, self.address@, after, j);
        }
        lemma_bytes_bits_len(self.address@);
        assert(IPv6Address::at(all, k).address =~= self.address);
    }
}

impl ByteObject for IPv6Address {
    open spec fn encoding(&self) -> Seq<bool> {
        bytes_bits(self.address@)
    }

    open spec fn decoding(bits: Seq<bool>) -> Result<Self, DecodeError> {
        if bits.len() < 128 {
            Err(DecodeError::BufferUnderrun)
        } else {
            Ok(IPv6Address::at(bits, 0))
        }
    }

    open spec fn decoded_len(bits: Seq<bool>) -> nat {
        128
    }

    open spec fn valid(&self) -> bool {
        true
    }

    open spec fn discarded(&self) -> nat {
        0
    }

    fn from_stream(src: &mut BitStream) -> (decoded: Result<Self, DecodeError>) {
        proof {
            src.lemma_wf();
        }
        let block = match src.pop(128) {
            Ok(bits) => bits,
            Err(e) => { return Err(e); },
        };
        proof {
            lemma_fields_of_take(old(src).unread(), 128);
        }
        Ok(IPv6Address::read_at(&block, 0))
    }

    fn to_bits(&self) -> (bits: Bits) {
        let mut bits = Bits::new();
        bits.push_bytes(self.address.as_slice());
        assert(bits@ =~= self.encoding());
        bits
    }

    proof fn lemma_round_trip(&self, rest: Seq<bool>) {
        self.lemma_at_concat(Seq::empty(), rest);
        assert(Seq::<bool>::empty() + self.encoding() + rest =~= self.encoding() + rest);
    }

    proof fn lemma_decoding_valid(bits: Seq<bool>) {
    }
}

impl IPv6Address {
    /// The address as eight groups of four hexadecimal digits between colons.
    pub open spec fn text(&self) -> Seq<char> {
        "ipv6("@
            + hex2(self.address[0])
            + hex2(self.address[1])
            + ":"@
            + hex2(self.address[2])
            + hex2(self.address[3])
            + ":"@
            + hex2(self.address[4])
            + hex2(self.address[5])
            + ":"@
            + hex2(self.address[6])
            + hex2(self.address[7])
            + ":"@
            + hex2(self.address[8])
            + hex2(self.address[9])
            + ":"@
            + hex2(self.address[10])
            + hex2(self.address[11])
            + ":"@
            + hex2(self.address[12])
            + hex2(self.address[13])
            + ":"@
            + hex2(self.address[14])
            + hex2(self.address[15])
            + ")"@
    }

    /// The value written out for a reader.
    pub fn to_text(&self) -> (text: String)
        ensures
            text@ == self.text(),
    {
        let mut out: Vec<char> = Vec::new();
        push_str(&mut out, "ipv6(");
        push_hex2(&mut out, self.address[0]);
        push_hex2(&mut out, self.address[1]);
        push_str(&mut out, ":");
        push_hex2(&mut out, self.address[2]);
        push_hex2(&mut out, self.address[3]);
        push_str(&mut out, ":");
        push_hex2(&mut out, self.address[4]);
        push_hex2(&mut out, self.address[5]);
        push_str(&mut out, ":");
        push_hex2(&mut out, self.address[6]);
        push_hex2(&mut out, self.address[7]);
        push_str(&mut out, ":");
        push_hex2(&mut out, self.address[8]);
        push_hex2(&mut out, self.address[9]);
        push_str(&mut out, ":");
        push_hex2(&mut out, self.address[10]);
        push_hex2(&mut out, self.address[11]);
        push_str(&mut out, ":");
        push_hex2(&mut out, self.address[12]);
        push_hex2(&mut out, self.address[13]);
        push_str(&mut out, ":");
        push_hex2(&mut out, self.address[14]);
        push_hex2(&mut out, self.address[15]);
        push_str(&mut out, ")");
        proof {
            assert(out@ =~= self.text());
        }
        string_of(out.as_slice())
    }
}

} // verus!
