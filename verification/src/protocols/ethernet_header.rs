//! The Ethernet II header.

use vstd::prelude::*;
use crate::error::DecodeError;
use crate::protocols::ether_type::EtherType;
use crate::protocols::mac_address::MacAddress;
use crate::types::bit_spec::{
    field, lemma_fields_of_take, lemma_pow2_values, lemma_value_bits_len, lemma_value_of_bits,
};
use crate::types::bit_stream::{BitStream, Bits};
use crate::types::byte_object::ByteObject;
use crate::text::{push_str, string_of};

verus! {

/// Where a frame goes, where it comes from, and what it carries.
#[derive(Clone, Copy, Debug, PartialEq, Eq)]
pub struct EthernetHeader {
    pub destination: MacAddress,
    pub source: MacAddress,
    pub ether_type: EtherType,
}

impl EthernetHeader {
    /// The encoding is 112 bits long; the addresses and the ethertype number
    /// are read back from their places in it.
    pub proof fn lemma_fields(&self, rest: Seq<bool>)
        ensures
            self.encoding().len() == 112,
            MacAddress::at(self.encoding() + rest, 0) == self.destination,
            MacAddress::at(self.encoding() + rest, 6) == self.source,
            field(self.encoding() + rest, 96, 16) == self.ether_type.code(),
    {
        let all = self.encoding() + rest;
        let tag = self.ether_type.encoding();
        lemma_pow2_values();
        lemma_value_bits_len(self.ether_type.code(), 16);
        lemma_value_of_bits(self.ether_type.code(), 16);
        self.destination.lemma_at_concat(Seq::empty(), self.source.encoding() + tag + rest);
        self.source.lemma_at_concat(self.destination.encoding(), tag + rest);
        assert(all =~= Seq::<bool>::empty() + self.destination.encoding() + (self.source.encoding()
            + tag + rest));
        assert(all =~= self.destination.encoding() + self.source.encoding() + (tag + rest));
        assert(all.subrange(96, 112) =~= tag);
    }
}

impl ByteObject for EthernetHeader {
    open spec fn encoding(&self) -> Seq<bool> {
        self.destination.encoding() + self.source.encoding() + self.ether_type.encoding()
    }

    open spec fn decoding(bits: Seq<bool>) -> Result<Self, DecodeError> {
        if bits.len() < 112 {
            Err(DecodeError::BufferUnderrun)
        } else {
            match EtherType::of_code(field(bits, 96, 16)) {
                Some(ether_type) => Ok(
                    EthernetHeader {
                        destination: MacAddress::at(bits, 0),
                        source: MacAddress::at(bits, 6),
                        ether_type,
                    },
                ),
                None => Err(DecodeError::UnrecognizedTag),
            }
        }
    }

    open spec fn decoded_len(bits: Seq<bool>) -> nat {
        112
    }

    open spec fn valid(&self) -> bool {
        true
    }

    open spec fn discarded(&self) -> nat {
        0
    }

    fn from_stream(src: &mut BitStream) -> (decoded: Result<Self, DecodeError>) {
        proof {
            src.lemma_wf();
        }
        let block = match src.view(112) {
            Ok(bits) => bits,
            Err(e) => { return Err(e); },
        };
        proof {
            lemma_fields_of_take(src.unread(), 112);
            lemma_pow2_values();
        }
        let ether_type = EtherType::from_code(block.uint_at(96, 16) as u16)?;
        let destination = MacAddress::read_at(&block, 0);
        let source = MacAddress::read_at(&block, 6);
        proof {
            assert(destination.address =~= MacAddress::at(src.unread(), 0).address);
            assert(source.address =~= MacAddress::at(src.unread(), 6).address);
        }
        let _ = src.pop(112);
        Ok(EthernetHeader { destination, source, ether_type })
    }

    fn to_bits(&self) -> (bits: Bits) {
        let mut bits = Bits::new();
        bits.push_bytes(self.destination.address.as_slice());
        bits.push_bytes(self.source.address.as_slice());
        bits.push_uint(self.ether_type.to_code() as u64, 16);
        assert(bits@ =~= self.encoding());
        bits
    }

    proof fn lemma_round_trip(&self, rest: Seq<bool>) {
        self.lemma_fields(rest);
    }

    proof fn lemma_decoding_valid(bits: Seq<bool>) {
    }
}

impl EthernetHeader {
    /// The header with its addresses and the name of its ethertype.
    pub open spec fn text(&self) -> Seq<char> {
        "Ethernet { dest: "@
            + self.destination.text()
            + ", src: "@
            + self.source.text()
            + ", type: "@
            + self.ether_type.name_text()
            + " }"@
    }

    /// The value written out for a reader.
    pub fn to_text(&self) -> (text: String)
        ensures
            text@ == self.text(),
    {
        let mut out: Vec<char> = Vec::new();
        push_str(&mut out, "Ethernet { dest: ");
        push_str(&mut out, self.destination.to_text().as_str());
        push_str(&mut out, ", src: ");
        push_str(&mut out, self.source.to_text().as_str());
        push_str(&mut out, ", type: ");
        push_str(&mut out, self.ether_type.name());
        push_str(&mut out, " }");
        proof {
            assert(out@ =~= self.text());
        }
        string_of(out.as_slice())
    }
}

} // verus!
