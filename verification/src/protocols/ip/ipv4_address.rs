//! The 32-bit IPv4 address.

use vstd::prelude::*;
use crate::error::DecodeError;
use crate::types::bit_spec::{
    byte_at, bytes_bits, lemma_bytes_bits_len, lemma_bytes_in_concat, lemma_fields_of_take,
};
use crate::types::bit_stream::{BitStream, Bits};
use crate::types::byte_object::ByteObject;
use crate::text::{decimal, push_decimal, push_str, string_of};

verus! {

/// An IPv4 address: four bytes in transmission order.
#[derive(Clone, Copy, Debug, PartialEq, Eq)]
pub struct IPv4Address {
    pub address: [u8; 4],
}

impl IPv4Address {
    /// The address whose four bytes start at byte `k` of `bits`.
    pub open spec fn at(bits: Seq<bool>, k: int) -> IPv4Address {
        IPv4Address {
            address: [
                byte_at(bits, k),
                byte_at(bits, k + 1),
                byte_at(bits, k + 2),
                byte_at(bits, k + 3),
            ],
        }
    }

    /// Reads the address whose four bytes start at byte `k` of `block`.
    pub fn read_at(block: &Bits, k: usize) -> (address: IPv4Address)
        requires
            8 * (k + 4) <= block@.len(),
        ensures
            address == IPv4Address::at(block@, k as int),
    {
        let b = block.bytes_at(k, 4);
        IPv4Address { address: [b[0], b[1], b[2], b[3]] }
    }

    /// An address written whole bytes into a run of bits is read back from
    /// its place.
    pub proof fn lemma_at_concat(&self, before: Seq<bool>, after: Seq<bool>)
        requires
            before.len() % 8 == 0,
        ensures
            IPv4Address::at(before + self.encoding() + after, before.len() as int / 8) == *self,
            (before + self.encoding()).len() == before.len() + 32,
    {
        let all = before + self.encoding() + after;
        let k = before.len() as int / 8;
        assert forall|j: int| 0 <= j < 4 implies byte_at(all, k + j) == self.address@[j] by {
            lemma_bytes_in_concat(before, self.address@, after, j);
        }
        lemma_bytes_bits_len(self.address@);
        assert(IPv4Address::at(all, k).address =~= self.address);
    }
}

impl ByteObject for IPv4Address {
    open spec fn encoding(&self) -> Seq<bool> {
        bytes_bits(self.address@)
    }

    open spec fn decoding(bits: Seq<bool>) -> Result<Self, DecodeError> {
        if bits.len() < 32 {
            Err(DecodeError::BufferUnderrun)
        } else {
            Ok(IPv4Address::at(bits, 0))
        }
    }

    open spec fn decoded_len(bits: Seq<bool>) -> nat {
        32
    }

    open spec fn valid(&self) -> bool {
        true
    }

    open spec fn discarded(&self) -> nat {
        0
    }

    fn from_stream(src: &mut BitStream) -> (decoded: Result<Self, DecodeError>) {
        proof {
            src.lemma_wf();
        }
        let block = match src.pop(32) {
            Ok(bits) => bits,
            Err(e) => { return Err(e); },
        };
        proof {
            lemma_fields_of_take(old(src).unread(), 32);
        }
        Ok(IPv4Address::read_at(&block, 0))
    }

    fn to_bits(&self) -> (bits: Bits) {
        let mut bits = Bits::new();
        bits.push_bytes(self.address.as_slice());
        assert(bits@ =~= self.encoding());
        bits
    }

    proof fn lemma_round_trip(&self, rest: Seq<bool>) {
        self.lemma_at_concat(Seq::empty(), rest);
        assert(Seq::<bool>::empty() + self.encoding() + rest =~= self.encoding() + rest);
    }

    proof fn lemma_decoding_valid(bits: Seq<bool>) {
    }
}

impl IPv4Address {
    /// The address as four decimal numbers between dots.
    pub open spec fn text(&self) -> Seq<char> {
        "ipv4("@
            + decimal(self.address[0] as nat)
            + "."@
            + decimal(self.address[1] as nat)
            + "."@
            + decimal(self.address[2] as nat)
            + "."@
            + decimal(self.address[3] as nat)
            + ")"@
    }

    /// The value written out for a reader.
    pub fn to_text(&self) -> (text: String)
        ensures
            text@ == self.text(),
    {
        let mut out: Vec<char> = Vec::new();
        push_str(&mut out, "ipv4(");
        push_decimal(&mut out, self.address[0] as usize);
        push_str(&mut out, ".");
        push_decimal(&mut out, self.address[1] as usize);
        push_str(&mut out, ".");
        push_decimal(&mut out, self.address[2] as usize);
        push_str(&mut out, ".");
        push_decimal(&mut out, self.address[3] as usize);
        push_str(&mut out, ")");
        proof {
            assert(out@ =~= self.text());
        }
        string_of(out.as_slice())
    }
}

} // verus!
