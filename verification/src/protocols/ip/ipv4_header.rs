//! The IPv4 header. Options are skipped on the way in and never written on
//! the way out.

use vstd::prelude::*;
use crate::error::DecodeError;
use crate::protocols::ip::ipv4_address::IPv4Address;
use crate::checksum::{checksum, internet_checksum, lemma_byte_change_detected};
use crate::types::bit_spec::{
    field, lemma_bits_value_bound, lemma_fields_of_take, lemma_packed_bytes_flip,
    lemma_pow2_values, lemma_spliced_flip, lemma_value_bits_len, lemma_value_of_bits,
    packed_bytes, spliced, value_bits,
};
use crate::types::bit_stream::{BitStream, Bits};
use crate::types::byte_object::ByteObject;
use crate::text::{binary, decimal, push_binary, push_decimal, push_str, string_of};

verus! {

/// The fixed part of an IPv4 header. `version` and `ihl` are four-bit
/// fields, `dscp` six, `ecn` two, `flags` three and `fragment_offset`
/// thirteen. `ihl` counts the header's 32-bit words and is at least five.
#[derive(Clone, Copy, Debug, PartialEq, Eq)]
pub struct IPv4Header {
    pub version: u8,
    pub ihl: u8,
    pub dscp: u8,
    pub ecn: u8,
    pub total_length: u16,
    pub identification: u16,
    pub flags: u8,
    pub fragment_offset: u16,
    pub ttl: u8,
    pub protocol: u8,
    pub header_checksum: u16,
    pub source_address: IPv4Address,
    pub destination_address: IPv4Address,
}

impl IPv4Header {
    /// The header that the first 160 bits of `bits` spell.
    pub open spec fn at(bits: Seq<bool>) -> IPv4Header {
        IPv4Header {
            version: field(bits, 0, 4) as u8,
            ihl: field(bits, 4, 4) as u8,
            dscp: field(bits, 8, 6) as u8,
            ecn: field(bits, 14, 2) as u8,
            total_length: field(bits, 16, 16) as u16,
            identification: field(bits, 32, 16) as u16,
            flags: field(bits, 48, 3) as u8,
            fragment_offset: field(bits, 51, 13) as u16,
            ttl: field(bits, 64, 8) as u8,
            protocol: field(bits, 72, 8) as u8,
            header_checksum: field(bits, 80, 16) as u16,
            source_address: IPv4Address::at(bits, 12),
            destination_address: IPv4Address::at(bits, 16),
        }
    }

    /// The header with every field cut down to the width of its slot.
    pub open spec fn truncated(&self) -> IPv4Header {
        IPv4Header {
            version: (self.version % 16) as u8,
            ihl: (self.ihl % 16) as u8,
            dscp: (self.dscp % 64) as u8,
            ecn: (self.ecn % 4) as u8,
            flags: (self.flags % 8) as u8,
            fragment_offset: (self.fragment_offset % 8192) as u16,
            ..*self
        }
    }

    /// Reads the header that the first 160 bits of `block` spell.
    pub fn read(block: &Bits) -> (header: IPv4Header)
        requires
            block@.len() >= 160,
        ensures
            header == IPv4Header::at(block@),
    {
        proof {
            lemma_pow2_values();
        }
        IPv4Header {
            version: block.uint_at(0, 4) as u8,
            ihl: block.uint_at(4, 4) as u8,
            dscp: block.uint_at(8, 6) as u8,
            ecn: block.uint_at(14, 2) as u8,
            total_length: block.uint_at(16, 16) as u16,
            identification: block.uint_at(32, 16) as u16,
            flags: block.uint_at(48, 3) as u8,
            fragment_offset: block.uint_at(51, 13) as u16,
            ttl: block.uint_at(64, 8) as u8,
            protocol: block.uint_at(72, 8) as u8,
            header_checksum: block.uint_at(80, 16) as u16,
            source_address: IPv4Address::read_at(block, 12),
            destination_address: IPv4Address::read_at(block, 16),
        }
    }

    /// The header length that `bits` spell fits its four bits.
    pub proof fn lemma_at_ihl(bits: Seq<bool>)
        requires
            bits.len() >= 8,
        ensures
            IPv4Header::at(bits).ihl == field(bits, 4, 4),
            field(bits, 4, 4) < 16,
    {
        lemma_bits_value_bound(bits.subrange(4, 8));
        lemma_pow2_values();
    }

    /// The first 96 bits of the encoding: everything before the addresses.
    pub open spec fn encoding_head(&self) -> Seq<bool> {
        value_bits(self.version as nat, 4) + value_bits(self.ihl as nat, 4) + value_bits(
            self.dscp as nat,
            6,
        ) + value_bits(self.ecn as nat, 2) + value_bits(self.total_length as nat, 16) + value_bits(
            self.identification as nat,
            16,
        ) + value_bits(self.flags as nat, 3) + value_bits(self.fragment_offset as nat, 13)
            + value_bits(self.ttl as nat, 8) + value_bits(self.protocol as nat, 8) + value_bits(
            self.header_checksum as nat,
            16,
        )
    }

    /// The encoding is 160 bits long, and each field is read back from its
    /// place in it, reduced to its width.
    #[verifier::rlimit(50)]
    pub proof fn lemma_fields(&self, rest: Seq<bool>)
        ensures
            self.encoding().len() == 160,
            IPv4Header::at(self.encoding() + rest) == self.truncated(),
    {
        let head = self.encoding_head();
        let all = self.encoding() + rest;
        lemma_pow2_values();
        lemma_value_bits_len(self.version as nat, 4);
        lemma_value_bits_len(self.ihl as nat, 4);
        lemma_value_bits_len(self.dscp as nat, 6);
        lemma_value_bits_len(self.ecn as nat, 2);
        lemma_value_bits_len(self.total_length as nat, 16);
        lemma_value_bits_len(self.identification as nat, 16);
        lemma_value_bits_len(self.flags as nat, 3);
        lemma_value_bits_len(self.fragment_offset as nat, 13);
        lemma_value_bits_len(self.ttl as nat, 8);
        lemma_value_bits_len(self.protocol as nat, 8);
        lemma_value_bits_len(self.header_checksum as nat, 16);
        assert(head.len() == 96);
        self.source_address.lemma_at_concat(head, self.destination_address.encoding() + rest);
        self.destination_address.lemma_at_concat(head + self.source_address.encoding(), rest);
        assert(all =~= head + self.source_address.encoding() + (
        self.destination_address.encoding() + rest));
        assert(all.subrange(0, 4) =~= value_bits(self.version as nat, 4));
        assert(all.subrange(4, 8) =~= value_bits(self.ihl as nat, 4));
        assert(all.subrange(8, 14) =~= value_bits(self.dscp as nat, 6));
        assert(all.subrange(14, 16) =~= value_bits(self.ecn as nat, 2));
        assert(all.subrange(16, 32) =~= value_bits(self.total_length as nat, 16));
        assert(all.subrange(32, 48) =~= value_bits(self.identification as nat, 16));
        assert(all.subrange(48, 51) =~= value_bits(self.flags as nat, 3));
        assert(all.subrange(51, 64) =~= value_bits(self.fragment_offset as nat, 13));
        assert(all.subrange(64, 72) =~= value_bits(self.ttl as nat, 8));
        assert(all.subrange(72, 80) =~= value_bits(self.protocol as nat, 8));
        assert(all.subrange(80, 96) =~= value_bits(self.header_checksum as nat, 16));
        lemma_value_of_bits(self.version as nat, 4);
        lemma_value_of_bits(self.ihl as nat, 4);
        lemma_value_of_bits(self.dscp as nat, 6);
        lemma_value_of_bits(self.ecn as nat, 2);
        lemma_value_of_bits(self.total_length as nat, 16);
        lemma_value_of_bits(self.identification as nat, 16);
        lemma_value_of_bits(self.flags as nat, 3);
        lemma_value_of_bits(self.fragment_offset as nat, 13);
        lemma_value_of_bits(self.ttl as nat, 8);
        lemma_value_of_bits(self.protocol as nat, 8);
        lemma_value_of_bits(self.header_checksum as nat, 16);
    }
}

impl IPv4Header {
    /// The header with `sum` in its checksum field.
    pub open spec fn with_checksum(&self, sum: u16) -> IPv4Header {
        IPv4Header { header_checksum: sum, ..*self }
    }

    /// The bytes that the checksum covers: the fixed twenty bytes of the
    /// header with the checksum field taken as zero. Options are not
    /// covered.
    pub open spec fn checksum_region(&self) -> Seq<u8> {
        packed_bytes(self.with_checksum(0).encoding())
    }

    /// The checksum that belongs in the header.
    pub open spec fn expected_checksum(&self) -> u16 {
        internet_checksum(self.checksum_region())
    }

    /// The stored checksum is the one that belongs in the header.
    pub open spec fn checksum_valid(&self) -> bool {
        self.header_checksum == self.expected_checksum()
    }

    /// Computes the checksum over the fixed header, the checksum field
    /// taken as zero.
    pub fn calculate_checksum(&self) -> (sum: u16)
        ensures
            sum == self.expected_checksum(),
    {
        let mut blank = *self;
        blank.header_checksum = 0;
        let bytes = blank.to_bits().to_u8s();
        checksum(bytes.as_slice())
    }

    /// Whether the stored checksum is the computed one.
    pub fn verify_checksum(&self) -> (ok: bool)
        ensures
            ok == self.checksum_valid(),
    {
        self.calculate_checksum() == self.header_checksum
    }

    /// Stores the computed checksum; no other field changes, and the header
    /// then verifies.
    pub fn update_checksum(&mut self)
        ensures
            *final(self) == old(self).with_checksum(old(self).expected_checksum()),
            final(self).checksum_valid(),
    {
        self.header_checksum = self.calculate_checksum();
    }

    /// Reports a stored checksum that is not the computed one.
    pub fn check_checksum(&self) -> (checked: Result<(), DecodeError>)
        ensures
            checked == (if self.checksum_valid() {
                Ok::<(), DecodeError>(())
            } else {
                Err::<(), DecodeError>(DecodeError::ChecksumMismatch)
            }),
    {
        if self.verify_checksum() {
            Ok(())
        } else {
            Err(DecodeError::ChecksumMismatch)
        }
    }

    /// A header verifies once the computed checksum has been stored in it.
    pub proof fn lemma_update_then_verify(&self)
        ensures
            self.with_checksum(self.expected_checksum()).checksum_valid(),
    {
    }

    /// The encoding with another checksum differs only in bits 80 to 95.
    #[verifier::rlimit(50)]
    pub proof fn lemma_encoding_with_checksum(&self, sum: u16)
        ensures
            self.encoding().len() == 160,
            self.with_checksum(sum).encoding() == spliced(
                self.encoding(),
                80,
                96,
                value_bits(sum as nat, 16),
            ),
            self.encoding().subrange(80, 96) == value_bits(self.header_checksum as nat, 16),
    {
        self.lemma_fields(Seq::empty());
        self.with_checksum(sum).lemma_fields(Seq::empty());
        lemma_value_bits_len(self.version as nat, 4);
        lemma_value_bits_len(self.ihl as nat, 4);
        lemma_value_bits_len(self.dscp as nat, 6);
        lemma_value_bits_len(self.ecn as nat, 2);
        lemma_value_bits_len(self.total_length as nat, 16);
        lemma_value_bits_len(self.identification as nat, 16);
        lemma_value_bits_len(self.flags as nat, 3);
        lemma_value_bits_len(self.fragment_offset as nat, 13);
        lemma_value_bits_len(self.ttl as nat, 8);
        lemma_value_bits_len(self.protocol as nat, 8);
        lemma_value_bits_len(self.header_checksum as nat, 16);
        lemma_value_bits_len(sum as nat, 16);
        assert(self.with_checksum(sum).encoding() =~= self.encoding().subrange(0, 80)
            + value_bits(sum as nat, 16) + self.encoding().subrange(96, 160));
        assert(self.encoding().subrange(80, 96) =~= value_bits(self.header_checksum as nat, 16));
    }

    /// Flipping a bit of the encoding outside the checksum field leaves the
    /// stored checksum as it was and flips the same bit of the encoding taken
    /// with a zero checksum.
    pub proof fn lemma_flip_outside_checksum(&self, other: IPv4Header, p: int)
        requires
            0 <= p < 160,
            !(80 <= p < 96),
            other.encoding() == self.encoding().update(p, !self.encoding()[p]),
        ensures
            other.header_checksum == self.header_checksum,
            self.with_checksum(0).encoding().len() == 160,
            other.with_checksum(0).encoding() == self.with_checksum(0).encoding().update(
                p,
                !self.with_checksum(0).encoding()[p],
            ),
    {
        self.lemma_encoding_with_checksum(0);
        other.lemma_encoding_with_checksum(0);
        lemma_value_bits_len(0, 16);
        lemma_spliced_flip(self.encoding(), 80, 96, value_bits(0, 16), p);
        lemma_value_of_bits(self.header_checksum as nat, 16);
        lemma_value_of_bits(other.header_checksum as nat, 16);
        lemma_pow2_values();
    }

    /// A header that verifies no longer does once a single bit outside its
    /// checksum field is flipped: any header whose encoding is that of
    /// `self` with bit `p` inverted fails the check.
    pub proof fn lemma_bit_flip_detected(&self, other: IPv4Header, p: int)
        requires
            self.checksum_valid(),
            0 <= p < 160,
            !(80 <= p < 96),
            other.encoding() == self.encoding().update(p, !self.encoding()[p]),
        ensures
            !other.checksum_valid(),
    {
        let blank = self.with_checksum(0).encoding();
        self.lemma_flip_outside_checksum(other, p);
        lemma_packed_bytes_flip(blank, p);
        lemma_byte_change_detected(
            packed_bytes(blank),
            p / 8,
            packed_bytes(blank.update(p, !blank[p]))[p / 8],
        );
    }
}

impl ByteObject for IPv4Header {
    open spec fn encoding(&self) -> Seq<bool> {
        self.encoding_head() + self.source_address.encoding()
            + self.destination_address.encoding()
    }

    /// A header needs its twenty fixed bytes and the options that its
    /// length announces. A length below five words is refused like a
    /// truncated header: the header it announces cannot hold the fixed
    /// fields.
    open spec fn decoding(bits: Seq<bool>) -> Result<Self, DecodeError> {
        if bits.len() < 160 {
            Err(DecodeError::BufferUnderrun)
        } else if field(bits, 4, 4) < 5 {
            Err(DecodeError::BufferUnderrun)
        } else if bits.len() < 32 * field(bits, 4, 4) {
            Err(DecodeError::BufferUnderrun)
        } else {
            Ok(IPv4Header::at(bits))
        }
    }

    open spec fn decoded_len(bits: Seq<bool>) -> nat {
        32 * field(bits, 4, 4)
    }

    open spec fn valid(&self) -> bool {
        &&& self.version < 16
        &&& 5 <= self.ihl < 16
        &&& self.dscp < 64
        &&& self.ecn < 4
        &&& self.flags < 8
        &&& self.fragment_offset < 8192
    }

    open spec fn discarded(&self) -> nat {
        (32 * (self.ihl - 5)) as nat
    }

    fn from_stream(src: &mut BitStream) -> (decoded: Result<Self, DecodeError>) {
        proof {
            src.lemma_wf();
        }
        let block = match src.view(160) {
            Ok(bits) => bits,
            Err(e) => { return Err(e); },
        };
        proof {
            lemma_fields_of_take(src.unread(), 160);
            lemma_pow2_values();
        }
        let header = IPv4Header::read(&block);
        assert(header == IPv4Header::at(src.unread())) by {
            assert(header.source_address.address =~= IPv4Address::at(src.unread(), 12).address);
            assert(header.destination_address.address =~= IPv4Address::at(
                src.unread(),
                16,
            ).address);
        }
        proof {
            IPv4Header::lemma_at_ihl(src.unread());
        }
        if header.ihl < 5 {
            return Err(DecodeError::BufferUnderrun);
        }
        let total: usize = 32 * (header.ihl as usize);
        if src.remaining() < total {
            return Err(DecodeError::BufferUnderrun);
        }
        let _ = src.pop(total);
        Ok(header)
    }

    fn to_bits(&self) -> (bits: Bits) {
        let mut bits = Bits::new();
        bits.push_uint(self.version as u64, 4);
        bits.push_uint(self.ihl as u64, 4);
        bits.push_uint(self.dscp as u64, 6);
        bits.push_uint(self.ecn as u64, 2);
        bits.push_uint(self.total_length as u64, 16);
        bits.push_uint(self.identification as u64, 16);
        bits.push_uint(self.flags as u64, 3);
        bits.push_uint(self.fragment_offset as u64, 13);
        bits.push_uint(self.ttl as u64, 8);
        bits.push_uint(self.protocol as u64, 8);
        bits.push_uint(self.header_checksum as u64, 16);
        bits.push_bytes(self.source_address.address.as_slice());
        bits.push_bytes(self.destination_address.address.as_slice());
        assert(bits@ =~= self.encoding());
        bits
    }

    proof fn lemma_round_trip(&self, rest: Seq<bool>) {
        self.lemma_fields(rest);
        IPv4Header::lemma_at_ihl(self.encoding() + rest);
        assert(self.truncated() == *self);
    }

    proof fn lemma_decoding_valid(bits: Seq<bool>) {
        if bits.len() >= 160 {
            lemma_bits_value_bound(bits.subrange(0, 4));
            lemma_bits_value_bound(bits.subrange(4, 8));
            lemma_bits_value_bound(bits.subrange(8, 14));
            lemma_bits_value_bound(bits.subrange(14, 16));
            lemma_bits_value_bound(bits.subrange(48, 51));
            lemma_bits_value_bound(bits.subrange(51, 64));
            lemma_pow2_values();
        }
    }
}

impl IPv4Header {
    /// The header field by field, numbers in decimal and the flags in binary.
    pub open spec fn text(&self) -> Seq<char> {
        "IPv4 { Version: "@
            + decimal(self.version as nat)
            + ", IHL: "@
            + decimal(self.ihl as nat)
            + ", Total Length: "@
            + decimal(self.total_length as nat)
            + ", ID: "@
            + decimal(self.identification as nat)
            + ", Flags: "@
            + binary(self.flags as nat)
            + ", Fragment Offset: "@
            + decimal(self.fragment_offset as nat)
            + ", TTL: "@
            + decimal(self.ttl as nat)
            + ", Protocol: "@
            + decimal(self.protocol as nat)
            + ", Checksum: "@
            + decimal(self.header_checksum as nat)
            + ", Src: "@
            + self.source_address.text()
            + ", Dst: "@
            + self.destination_address.text()
            + " }"@
    }

    /// The value written out for a reader.
    pub fn to_text(&self) -> (text: String)
        ensures
            text@ == self.text(),
    {
        let mut out: Vec<char> = Vec::new();
        push_str(&mut out, "IPv4 { Version: ");
        push_decimal(&mut out, self.version as usize);
        push_str(&mut out, ", IHL: ");
        push_decimal(&mut out, self.ihl as usize);
        push_str(&mut out, ", Total Length: ");
        push_decimal(&mut out, self.total_length as usize);
        push_str(&mut out, ", ID: ");
        push_decimal(&mut out, self.identification as usize);
        push_str(&mut out, ", Flags: ");
        push_binary(&mut out, self.flags as usize);
        push_str(&mut out, ", Fragment Offset: ");
        push_decimal(&mut out, self.fragment_offset as usize);
        push_str(&mut out, ", TTL: ");
        push_decimal(&mut out, self.ttl as usize);
        push_str(&mut out, ", Protocol: ");
        push_decimal(&mut out, self.protocol as usize);
        push_str(&mut out, ", Checksum: ");
        push_decimal(&mut out, self.header_checksum as usize);
        push_str(&mut out, ", Src: ");
        push_str(&mut out, self.source_address.to_text().as_str());
        push_str(&mut out, ", Dst: ");
        push_str(&mut out, self.destination_address.to_text().as_str());
        push_str(&mut out, " }");
        proof {
            assert(out@ =~= self.text());
        }
        string_of(out.as_slice())
    }
}

} // verus!
