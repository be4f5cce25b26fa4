//! The 48-bit link-layer address.

use vstd::prelude::*;
use crate::error::DecodeError;
use crate::types::bit_spec::{
    byte_at, bytes_bits, lemma_bytes_bits_len, lemma_bytes_in_concat, lemma_fields_of_take,
};
use crate::types::bit_stream::{BitStream, Bits};
use crate::types::byte_object::ByteObject;
use crate::text::{hex2, push_hex2, push_str, string_of};

verus! {

/// A MAC address: six bytes in transmission order.
#[derive(Clone, Copy, Debug, PartialEq, Eq)]
pub struct MacAddress {
    pub address: [u8; 6],
}

impl MacAddress {
    /// The address whose six bytes start at byte `k` of `bits`.
    pub open spec fn at(bits: Seq<bool>, k: int) -> MacAddress {
        MacAddress {
            address: [
                byte_at(bits, k),
                byte_at(bits, k + 1),
                byte_at(bits, k + 2),
                byte_at(bits, k + 3),
                byte_at(bits, k + 4),
                byte_at(bits, k + 5),
            ],
        }
    }

    /// Reads the address whose six bytes start at byte `k` of `block`.
    pub fn read_at(block: &Bits, k: usize) -> (address: MacAddress)
        requires
            8 * (k + 6) <= block@.len(),
        ensures
            address == MacAddress::at(block@, k as int),
    {
        let b = block.bytes_at(k, 6);
        MacAddress { address: [b[0], b[1], b[2], b[3], b[4], b[5]] }
    }

    /// An address written whole bytes into a run of bits is read back from
    /// its place.
    pub proof fn lemma_at_concat(&self, before: Seq<bool>, after: Seq<bool>)
        requires
            before.len() % 8 == 0,
        ensures
            MacAddress::at(before + self.encoding() + after, before.len() as int / 8) == *self,
            (before + self.encoding()).len() == before.len() + 48,
    {
        let all = before + self.encoding() + after;
        let k = before.len() as int / 8;
        assert forall|j: int| 0 <= j < 6 implies byte_at(all, k + j) == self.address@[j] by {
            lemma_bytes_in_concat(before, self.address@, after, j);
        }
        lemma_bytes_bits_len(self.address@);
        assert(MacAddress::at(all, k).address =~= self.address);
    }
}

impl ByteObject for MacAddress {
    open spec fn encoding(&self) -> Seq<bool> {
        bytes_bits(self.address@)
    }

    open spec fn decoding(bits: Seq<bool>) -> Result<Self, DecodeError> {
        if bits.len() < 48 {
            Err(DecodeError::BufferUnderrun)
        } else {
            Ok(MacAddress::at(bits, 0))
        }
    }

    open spec fn decoded_len(bits: Seq<bool>) -> nat {
        48
    }

    open spec fn valid(&self) -> bool {
        true
    }

    open spec fn discarded(&self) -> nat {
        0
    }

    fn from_stream(src: &mut BitStream) -> (decoded: Result<Self, DecodeError>) {
        proof {
            src.lemma_wf();
        }
        let block = match src.pop(48) {
            Ok(bits) => bits,
            Err(e) => { return Err(e); },
        };
        proof {
            lemma_fields_of_take(old(src).unread(), 48);
        }
        Ok(MacAddress::read_at(&block, 0))
    }

    fn to_bits(&self) -> (bits: Bits) {
        let mut bits = Bits::new();
        bits.push_bytes(self.address.as_slice());
        assert(bits@ =~= self.encoding());
        bits
    }

    proof fn lemma_round_trip(&self, rest: Seq<bool>) {
        self.lemma_at_concat(Seq::empty(), rest);
        assert(Seq::<bool>::empty() + self.encoding() + rest =~= self.encoding() + rest);
    }

    proof fn lemma_decoding_valid(bits: Seq<bool>) {
    }
}

impl MacAddress {
    /// The address as six pairs of hexadecimal digits between colons.
    pub open spec fn text(&self) -> Seq<char> {
        "mac("@
            + hex2(self.address[0])
            + ":"@
            + hex2(self.address[1])
            + ":"@
            + hex2(self.address[2])
            + ":"@
            + hex2(self.address[3])
            + ":"@
            + hex2(self.address[4])
            + ":"@
            + hex2(self.address[5])
            + ")"@
    }

    /// The value written out for a reader.
    pub fn to_text(&self) -> (text: String)
        ensures
            text@ == self.text(),
    {
        let mut out: Vec<char> = Vec::new();
        push_str(&mut out, "mac(");
        push_hex2(&mut out, self.address[0]);
        push_str(&mut out, ":");
        push_hex2(&mut out, self.address[1]);
        push_str(&mut out, ":");
        push_hex2(&mut out, self.address[2]);
        push_str(&mut out, ":");
        push_hex2(&mut out, self.address[3]);
        push_str(&mut out, ":");
        push_hex2(&mut out, self.address[4]);
        push_str(&mut out, ":");
        push_hex2(&mut out, self.address[5]);
        push_str(&mut out, ")");
        proof {
            assert(out@ =~= self.text());
        }
        string_of(out.as_slice())
    }
}

} // verus!
