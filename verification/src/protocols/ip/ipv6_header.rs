//! The fixed 40-byte IPv6 header.

use vstd::prelude::*;
use crate::error::DecodeError;
use crate::protocols::ip::ipv6_address::IPv6Address;
use crate::types::bit_spec::{
    field, lemma_fields_of_take, lemma_pow2_values, lemma_value_bits_len, lemma_value_of_bits,
    value_bits,
};
use crate::types::bit_stream::{BitStream, Bits};
use crate::types::byte_object::ByteObject;
use crate::text::{decimal, push_decimal, push_str, string_of};

verus! {

/// An IPv6 header. Its first word packs the version (4 bits), the traffic
/// class (8 bits) and the flow label (20 bits).
#[derive(Clone, Copy, Debug, PartialEq, Eq)]
pub struct IPv6Header {
    pub version_traffic_class_flow_label: u32,
    pub payload_length: u16,
    pub next_header: u8,
    pub hop_limit: u8,
    pub source_address: IPv6Address,
    pub destination_address: IPv6Address,
}

impl IPv6Header {
    /// The version: the top four bits of the first word.
    pub fn version(&self) -> (version: u8)
        ensures
            version == self.version_traffic_class_flow_label / 0x1000_0000,
    {
        (self.version_traffic_class_flow_label / 0x1000_0000) as u8
    }

    /// The traffic class: the eight bits below the version.
    pub fn traffic_class(&self) -> (class: u8)
        ensures
            class == (self.version_traffic_class_flow_label / 0x10_0000) % 0x100,
    {
        ((self.version_traffic_class_flow_label / 0x10_0000) % 0x100) as u8
    }

    /// The flow label: the low twenty bits of the first word.
    pub fn flow_label(&self) -> (label: u32)
        ensures
            label == self.version_traffic_class_flow_label % 0x10_0000,
    {
        self.version_traffic_class_flow_label % 0x10_0000
    }

    /// The header that the first 320 bits of `bits` spell.
    pub open spec fn at(bits: Seq<bool>) -> IPv6Header {
        IPv6Header {
            version_traffic_class_flow_label: field(bits, 0, 32) as u32,
            payload_length: field(bits, 32, 16) as u16,
            next_header: field(bits, 48, 8) as u8,
            hop_limit: field(bits, 56, 8) as u8,
            source_address: IPv6Address::at(bits, 8),
            destination_address: IPv6Address::at(bits, 24),
        }
    }

    /// Reads the header that the first 320 bits of `block` spell.
    pub fn read(block: &Bits) -> (header: IPv6Header)
        requires
            block@.len() >= 320,
        ensures
            header == IPv6Header::at(block@),
    {
        proof {
            lemma_pow2_values();
        }
        IPv6Header {
            version_traffic_class_flow_label: block.uint_at(0, 32) as u32,
            payload_length: block.uint_at(32, 16) as u16,
            next_header: block.uint_at(48, 8) as u8,
            hop_limit: block.uint_at(56, 8) as u8,
            source_address: IPv6Address::read_at(block, 8),
            destination_address: IPv6Address::read_at(block, 24),
        }
    }

    /// The first 64 bits of the encoding: everything before the addresses.
    pub open spec fn encoding_head(&self) -> Seq<bool> {
        value_bits(self.version_traffic_class_flow_label as nat, 32) + value_bits(
            self.payload_length as nat,
            16,
        ) + value_bits(self.next_header as nat, 8) + value_bits(self.hop_limit as nat, 8)
    }

    /// The encoding is 320 bits long, and each field is read back from its
    /// place in it.
    #[verifier::rlimit(50)]
    pub proof fn lemma_fields(&self, rest: Seq<bool>)
        ensures
            self.encoding().len() == 320,
            IPv6Header::at(self.encoding() + rest) == *self,
    {
        let head = self.encoding_head();
        let all = self.encoding() + rest;
        lemma_pow2_values();
        lemma_value_bits_len(self.version_traffic_class_flow_label as nat, 32);
        lemma_value_bits_len(self.payload_length as nat, 16);
        lemma_value_bits_len(self.next_header as nat, 8);
        lemma_value_bits_len(self.hop_limit as nat, 8);
        assert(head.len() == 64);
        self.source_address.lemma_at_concat(head, self.destination_address.encoding() + rest);
        self.destination_address.lemma_at_concat(head + self.source_address.encoding(), rest);
        assert(all =~= head + self.source_address.encoding() + (
        self.destination_address.encoding() + rest));
        assert(all.subrange(0, 32) =~= value_bits(
            self.version_traffic_class_flow_label as nat,
            32,
        ));
        assert(all.subrange(32, 48) =~= value_bits(self.payload_length as nat, 16));
        assert(all.subrange(48, 56) =~= value_bits(self.next_header as nat, 8));
        assert(all.subrange(56, 64) =~= value_bits(self.hop_limit as nat, 8));
        lemma_value_of_bits(self.version_traffic_class_flow_label as nat, 32);
        lemma_value_of_bits(self.payload_length as nat, 16);
        lemma_value_of_bits(self.next_header as nat, 8);
        lemma_value_of_bits(self.hop_limit as nat, 8);
    }
}

impl ByteObject for IPv6Header {
    open spec fn encoding(&self) -> Seq<bool> {
        self.encoding_head() + self.source_address.encoding()
            + self.destination_address.encoding()
    }

    open spec fn decoding(bits: Seq<bool>) -> Result<Self, DecodeError> {
        if bits.len() < 320 {
            Err(DecodeError::BufferUnderrun)
        } else {
            Ok(IPv6Header::at(bits))
        }
    }

    open spec fn decoded_len(bits: Seq<bool>) -> nat {
        320
    }

    open spec fn valid(&self) -> bool {
        true
    }

    open spec fn discarded(&self) -> nat {
        0
    }

    fn from_stream(src: &mut BitStream) -> (decoded: Result<Self, DecodeError>) {
        proof {
            src.lemma_wf();
        }
        let block = match src.pop(320) {
            Ok(bits) => bits,
            Err(e) => { return Err(e); },
        };
        proof {
            lemma_fields_of_take(old(src).unread(), 320);
        }
        let header = IPv6Header::read(&block);
        assert(header == IPv6Header::at(old(src).unread())) by {
            assert(header.source_address.address =~= IPv6Address::at(
                old(src).unread(),
                8,
            ).address);
            assert(header.destination_address.address =~= IPv6Address::at(
                old(src).unread(),
                24,
            ).address);
        }
        Ok(header)
    }

    fn to_bits(&self) -> (bits: Bits) {
        let mut bits = Bits::new();
        bits.push_uint(self.version_traffic_class_flow_label as u64, 32);
        bits.push_uint(self.payload_length as u64, 16);
        bits.push_uint(self.next_header as u64, 8);
        bits.push_uint(self.hop_limit as u64, 8);
        bits.push_bytes(self.source_address.address.as_slice());
        bits.push_bytes(self.destination_address.address.as_slice());
        assert(bits@ =~= self.encoding());
        bits
    }

    proof fn lemma_round_trip(&self, rest: Seq<bool>) {
        self.lemma_fields(rest);
    }

    proof fn lemma_decoding_valid(bits: Seq<bool>) {
    }
}

impl IPv6Header {
    /// The header field by field, numbers in decimal.
    pub open spec fn text(&self) -> Seq<char> {
        "IPv6 { Version: "@
            + decimal((self.version_traffic_class_flow_label / 0x1000_0000) as nat)
            + ", Traffic Class: "@
            + decimal(((self.version_traffic_class_flow_label / 0x10_0000) % 0x100) as nat)
            + ", Flow Label: "@
            + decimal((self.version_traffic_class_flow_label % 0x10_0000) as nat)
            + ", Payload Length: "@
            + decimal(self.payload_length as nat)
            + ", Next Header: "@
            + decimal(self.next_header as nat)
            + ", Hop Limit: "@
            + decimal(self.hop_limit as nat)
            + ", Src: "@
            + self.source_address.text()
            + ", Dst: "@
            + self.destination_address.text()
            + " }"@
    }

    /// The value written out for a reader.
    pub fn to_text(&self) -> (text: String)
        ensures
            text@ == self.text(),
    {
        let mut out: Vec<char> = Vec::new();
        push_str(&mut out, "IPv6 { Version: ");
        push_decimal(&mut out, (self.version_traffic_class_flow_label / 0x1000_0000) as usize);
        push_str(&mut out, ", Traffic Class: ");
        push_decimal(&mut out, ((self.version_traffic_class_flow_label / 0x10_0000) % 0x100) as usize);
        push_str(&mut out, ", Flow Label: ");
        push_decimal(&mut out, (self.version_traffic_class_flow_label % 0x10_0000) as usize);
        push_str(&mut out, ", Payload Length: ");
        push_decimal(&mut out, self.payload_length as usize);
        push_str(&mut out, ", Next Header: ");
        push_decimal(&mut out, self.next_header as usize);
        push_str(&mut out, ", Hop Limit: ");
        push_decimal(&mut out, self.hop_limit as usize);
        push_str(&mut out, ", Src: ");
        push_str(&mut out, self.source_address.to_text().as_str());
        push_str(&mut out, ", Dst: ");
        push_str(&mut out, self.destination_address.to_text().as_str());
        push_str(&mut out, " }");
        proof {
            assert(out@ =~= self.text());
        }
        string_of(out.as_slice())
    }
}

} // verus!
