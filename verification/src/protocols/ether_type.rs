//! The 16-bit tag that names the payload of an Ethernet frame.

use vstd::prelude::*;
use crate::error::DecodeError;
use crate::types::bit_spec::{
    field, lemma_field_of_concat, lemma_fields_of_take, lemma_pow2_values, value_bits,
};
use crate::types::bit_stream::{BitStream, Bits};
use crate::types::byte_object::ByteObject;

verus! {

/// The payload types that this stack knows.
#[derive(Clone, Copy, Debug, PartialEq, Eq, Structural)]
pub enum EtherType {
    IPv4,
    ARP,
    IPv6,
}

impl EtherType {
    /// The number that stands for the tag on the wire.
    pub open spec fn code(&self) -> nat {
        match self {
            EtherType::IPv4 => 0x0800,
            EtherType::ARP => 0x0806,
            EtherType::IPv6 => 0x86DD,
        }
    }

    /// The tag that `code` stands for, where there is one.
    pub open spec fn of_code(code: nat) -> Option<EtherType> {
        if code == 0x0800 {
            Some(EtherType::IPv4)
        } else if code == 0x0806 {
            Some(EtherType::ARP)
        } else if code == 0x86DD {
            Some(EtherType::IPv6)
        } else {
            None
        }
    }

    /// The number that stands for the tag on the wire.
    pub fn to_code(&self) -> (code: u16)
        ensures
            code == self.code(),
    {
        match self {
            EtherType::IPv4 => 0x0800,
            EtherType::ARP => 0x0806,
            EtherType::IPv6 => 0x86DD,
        }
    }

    /// The tag that `code` stands for; any other number is refused.
    pub fn from_code(code: u16) -> (tag: Result<EtherType, DecodeError>)
        ensures
            tag == match EtherType::of_code(code as nat) {
                Some(t) => Ok::<EtherType, DecodeError>(t),
                None => Err::<EtherType, DecodeError>(DecodeError::UnrecognizedTag),
            },
    {
        if code == 0x0800 {
            Ok(EtherType::IPv4)
        } else if code == 0x0806 {
            Ok(EtherType::ARP)
        } else if code == 0x86DD {
            Ok(EtherType::IPv6)
        } else {
            Err(DecodeError::UnrecognizedTag)
        }
    }

    /// The name of the tag.
    pub open spec fn name_text(&self) -> Seq<char> {
        match self {
            EtherType::IPv4 => "IPv4"@,
            EtherType::ARP => "ARP"@,
            EtherType::IPv6 => "IPv6"@,
        }
    }

    /// The name of the tag.
    pub fn name(&self) -> (name: &'static str)
        ensures
            name@ == self.name_text(),
    {
        match self {
            EtherType::IPv4 => "IPv4",
            EtherType::ARP => "ARP",
            EtherType::IPv6 => "IPv6",
        }
    }
}

impl ByteObject for EtherType {
    open spec fn encoding(&self) -> Seq<bool> {
        value_bits(self.code(), 16)
    }

    open spec fn decoding(bits: Seq<bool>) -> Result<Self, DecodeError> {
        if bits.len() < 16 {
            Err(DecodeError::BufferUnderrun)
        } else {
            match EtherType::of_code(field(bits, 0, 16)) {
                Some(t) => Ok(t),
                None => Err(DecodeError::UnrecognizedTag),
            }
        }
    }

    open spec fn decoded_len(bits: Seq<bool>) -> nat {
        16
    }

    open spec fn valid(&self) -> bool {
        true
    }

    open spec fn discarded(&self) -> nat {
        0
    }

    fn from_stream(src: &mut BitStream) -> (decoded: Result<Self, DecodeError>) {
        proof {
            src.lemma_wf();
        }
        let block = match src.view(16) {
            Ok(bits) => bits,
            Err(e) => { return Err(e); },
        };
        proof {
            lemma_fields_of_take(src.unread(), 16);
            lemma_pow2_values();
        }
        let tag = EtherType::from_code(block.uint_at(0, 16) as u16)?;
        let _ = src.pop(16);
        Ok(tag)
    }

    fn to_bits(&self) -> (bits: Bits) {
        let mut bits = Bits::new();
        bits.push_uint(self.to_code() as u64, 16);
        assert(bits@ =~= self.encoding());
        bits
    }

    proof fn lemma_round_trip(&self, rest: Seq<bool>) {
        lemma_field_of_concat(Seq::empty(), self.code(), 16, rest);
        lemma_pow2_values();
        assert(Seq::<bool>::empty() + self.encoding() + rest =~= self.encoding() + rest);
    }

    proof fn lemma_decoding_valid(bits: Seq<bool>) {
    }
}

} // verus!
