//! The fixed 20-byte TCP header.

use vstd::prelude::*;
use crate::error::DecodeError;
use crate::checksum::{checksum, internet_checksum, lemma_byte_change_detected};
use crate::protocols::ip::ipv4_address::IPv4Address;
use crate::types::bit_spec::{
    field, lemma_bits_of_packed_bytes, lemma_fields_of_take, lemma_packed_bytes_flip,
    lemma_pow2_values, lemma_spliced_flip, lemma_value_bits_len, lemma_value_of_bits,
    packed_bytes, spliced, value_bits,
};
use crate::types::bit_stream::{BitStream, Bits};
use crate::types::byte_object::ByteObject;
use crate::text::{binary, decimal, push_binary, push_decimal, push_str, string_of};

verus! {

/// A TCP header without options. `data_offset` and `reserved` are four-bit
/// fields.
#[derive(Clone, Copy, Debug, PartialEq, Eq, Structural)]
pub struct TcpHeader {
    pub source_port: u16,
    pub destination_port: u16,
    pub sequence_number: u32,
    pub acknowledgment_number: u32,
    pub data_offset: u8,
    pub reserved: u8,
    pub flags: u8,
    pub window_size: u16,
    pub checksum: u16,
    pub urgent_pointer: u16,
}

impl TcpHeader {
    /// The header that the first 160 bits of `bits` spell.
    pub open spec fn at(bits: Seq<bool>) -> TcpHeader {
        TcpHeader {
            source_port: field(bits, 0, 16) as u16,
            destination_port: field(bits, 16, 16) as u16,
            sequence_number: field(bits, 32, 32) as u32,
            acknowledgment_number: field(bits, 64, 32) as u32,
            data_offset: field(bits, 96, 4) as u8,
            reserved: field(bits, 100, 4) as u8,
            flags: field(bits, 104, 8) as u8,
            window_size: field(bits, 112, 16) as u16,
            checksum: field(bits, 128, 16) as u16,
            urgent_pointer: field(bits, 144, 16) as u16,
        }
    }

    /// Reads the header that the first 160 bits of `block` spell.
    pub fn read(block: &Bits) -> (header: TcpHeader)
        requires
            block@.len() >= 160,
        ensures
            header == TcpHeader::at(block@),
            header.valid(),
    {
        proof {
            lemma_pow2_values();
        }
        TcpHeader {
            source_port: block.uint_at(0, 16) as u16,
            destination_port: block.uint_at(16, 16) as u16,
            sequence_number: block.uint_at(32, 32) as u32,
            acknowledgment_number: block.uint_at(64, 32) as u32,
            data_offset: block.uint_at(96, 4) as u8,
            reserved: block.uint_at(100, 4) as u8,
            flags: block.uint_at(104, 8) as u8,
            window_size: block.uint_at(112, 16) as u16,
            checksum: block.uint_at(128, 16) as u16,
            urgent_pointer: block.uint_at(144, 16) as u16,
        }
    }

    /// The encoding is 160 bits long, and each field is read back from its
    /// place in it, reduced to its width.
    #[verifier::rlimit(50)]
    pub proof fn lemma_fields(&self, rest: Seq<bool>)
        ensures
            self.encoding().len() == 160,
            TcpHeader::at(self.encoding() + rest) == (TcpHeader {
                data_offset: (self.data_offset % 16) as u8,
                reserved: (self.reserved % 16) as u8,
                ..*self
            }),
    {
        let all = self.encoding() + rest;
        lemma_pow2_values();
        lemma_value_bits_len(self.source_port as nat, 16);
        lemma_value_bits_len(self.destination_port as nat, 16);
        lemma_value_bits_len(self.sequence_number as nat, 32);
        lemma_value_bits_len(self.acknowledgment_number as nat, 32);
        lemma_value_bits_len(self.data_offset as nat, 4);
        lemma_value_bits_len(self.reserved as nat, 4);
        lemma_value_bits_len(self.flags as nat, 8);
        lemma_value_bits_len(self.window_size as nat, 16);
        lemma_value_bits_len(self.checksum as nat, 16);
        lemma_value_bits_len(self.urgent_pointer as nat, 16);
        assert(all.subrange(0, 16) =~= value_bits(self.source_port as nat, 16));
        assert(all.subrange(16, 32) =~= value_bits(self.destination_port as nat, 16));
        assert(all.subrange(32, 64) =~= value_bits(self.sequence_number as nat, 32));
        assert(all.subrange(64, 96) =~= value_bits(self.acknowledgment_number as nat, 32));
        assert(all.subrange(96, 100) =~= value_bits(self.data_offset as nat, 4));
        assert(all.subrange(100, 104) =~= value_bits(self.reserved as nat, 4));
        assert(all.subrange(104, 112) =~= value_bits(self.flags as nat, 8));
        assert(all.subrange(112, 128) =~= value_bits(self.window_size as nat, 16));
        assert(all.subrange(128, 144) =~= value_bits(self.checksum as nat, 16));
        assert(all.subrange(144, 160) =~= value_bits(self.urgent_pointer as nat, 16));
        lemma_value_of_bits(self.source_port as nat, 16);
        lemma_value_of_bits(self.destination_port as nat, 16);
        lemma_value_of_bits(self.sequence_number as nat, 32);
        lemma_value_of_bits(self.acknowledgment_number as nat, 32);
        lemma_value_of_bits(self.data_offset as nat, 4);
        lemma_value_of_bits(self.reserved as nat, 4);
        lemma_value_of_bits(self.flags as nat, 8);
        lemma_value_of_bits(self.window_size as nat, 16);
        lemma_value_of_bits(self.checksum as nat, 16);
        lemma_value_of_bits(self.urgent_pointer as nat, 16);
    }
}

/// The pseudo-header that stands before a TCP segment while it is summed:
/// both addresses, a zero byte, the protocol number 6, and the length of
/// the segment in sixteen bits.
pub open spec fn pseudo_header(src: IPv4Address, dst: IPv4Address, tcp_length: nat) -> Seq<u8> {
    src.address@ + dst.address@ + seq![
        0u8,
        6u8,
        (tcp_length / 256) as u8,
        (tcp_length % 256) as u8,
    ]
}

impl TcpHeader {
    /// The header with `sum` in its checksum field.
    pub open spec fn with_checksum(&self, sum: u16) -> TcpHeader {
        TcpHeader { checksum: sum, ..*self }
    }

    /// The bytes that the checksum covers: the pseudo-header, the header
    /// with its checksum field taken as zero, and the payload.
    pub open spec fn checksum_region(
        &self,
        src: IPv4Address,
        dst: IPv4Address,
        data: Seq<u8>,
    ) -> Seq<u8> {
        pseudo_header(src, dst, 20 + data.len()) + packed_bytes(self.with_checksum(0).encoding())
            + data
    }

    /// The checksum that belongs in the header of this segment.
    pub open spec fn expected_checksum(
        &self,
        src: IPv4Address,
        dst: IPv4Address,
        data: Seq<u8>,
    ) -> u16 {
        internet_checksum(self.checksum_region(src, dst, data))
    }

    /// The stored checksum is the one that belongs in the header.
    pub open spec fn checksum_valid(
        &self,
        src: IPv4Address,
        dst: IPv4Address,
        data: Seq<u8>,
    ) -> bool {
        self.checksum == self.expected_checksum(src, dst, data)
    }

    /// Computes the checksum of the segment made of this header and
    /// `tcp_data`, sent from `src_ip` to `dst_ip`. The segment has to fit
    /// the sixteen bits of the pseudo-header's length.
    pub fn calculate_checksum(
        &self,
        src_ip: &IPv4Address,
        dst_ip: &IPv4Address,
        tcp_data: &[u8],
    ) -> (sum: u16)
        requires
            20 + tcp_data@.len() <= 0xFFFF,
        ensures
            sum == self.expected_checksum(*src_ip, *dst_ip, tcp_data@),
    {
        let tcp_length: usize = 20 + tcp_data.len();
        let mut region: Vec<u8> = Vec::new();
        region.extend_from_slice(src_ip.address.as_slice());
        region.extend_from_slice(dst_ip.address.as_slice());
        region.push(0);
        region.push(6);
        region.push((tcp_length / 256) as u8);
        region.push((tcp_length % 256) as u8);
        let mut blank = *self;
        blank.checksum = 0;
        let header_bytes = blank.to_bits().to_u8s();
        region.extend_from_slice(header_bytes.as_slice());
        region.extend_from_slice(tcp_data);
        proof {
            assert(region@ =~= self.checksum_region(*src_ip, *dst_ip, tcp_data@));
        }
        checksum(region.as_slice())
    }

    /// Whether the stored checksum is the computed one.
    pub fn verify_checksum(
        &self,
        src_ip: &IPv4Address,
        dst_ip: &IPv4Address,
        tcp_data: &[u8],
    ) -> (ok: bool)
        requires
            20 + tcp_data@.len() <= 0xFFFF,
        ensures
            ok == self.checksum_valid(*src_ip, *dst_ip, tcp_data@),
    {
        self.calculate_checksum(src_ip, dst_ip, tcp_data) == self.checksum
    }

    /// Stores the computed checksum; no other field changes, and the header
    /// then verifies.
    pub fn update_checksum(&mut self, src_ip: &IPv4Address, dst_ip: &IPv4Address, tcp_data: &[u8])
        requires
            20 + tcp_data@.len() <= 0xFFFF,
        ensures
            *final(self) == old(self).with_checksum(
                old(self).expected_checksum(*src_ip, *dst_ip, tcp_data@),
            ),
            final(self).checksum_valid(*src_ip, *dst_ip, tcp_data@),
    {
        self.checksum = self.calculate_checksum(src_ip, dst_ip, tcp_data);
    }

    /// Reports a stored checksum that is not the computed one.
    pub fn check_checksum(
        &self,
        src_ip: &IPv4Address,
        dst_ip: &IPv4Address,
        tcp_data: &[u8],
    ) -> (checked: Result<(), DecodeError>)
        requires
            20 + tcp_data@.len() <= 0xFFFF,
        ensures
            checked == (if self.checksum_valid(*src_ip, *dst_ip, tcp_data@) {
                Ok::<(), DecodeError>(())
            } else {
                Err::<(), DecodeError>(DecodeError::ChecksumMismatch)
            }),
    {
        if self.verify_checksum(src_ip, dst_ip, tcp_data) {
            Ok(())
        } else {
            Err(DecodeError::ChecksumMismatch)
        }
    }

    /// A header built from its fields, with the checksum of the segment
    /// stored in it.
    pub fn new_with_checksum(
        source_port: u16,
        destination_port: u16,
        sequence_number: u32,
        acknowledgment_number: u32,
        data_offset: u8,
        reserved: u8,
        flags: u8,
        window_size: u16,
        urgent_pointer: u16,
        src_ip: &IPv4Address,
        dst_ip: &IPv4Address,
        tcp_data: &[u8],
    ) -> (header: TcpHeader)
        requires
            20 + tcp_data@.len() <= 0xFFFF,
        ensures
            header == (TcpHeader {
                source_port,
                destination_port,
                sequence_number,
                acknowledgment_number,
                data_offset,
                reserved,
                flags,
                window_size,
                checksum: header.checksum,
                urgent_pointer,
            }),
            header.checksum_valid(*src_ip, *dst_ip, tcp_data@),
    {
        let mut header = TcpHeader {
            source_port,
            destination_port,
            sequence_number,
            acknowledgment_number,
            data_offset,
            reserved,
            flags,
            window_size,
            checksum: 0,
            urgent_pointer,
        };
        header.checksum = header.calculate_checksum(src_ip, dst_ip, tcp_data);
        header
    }

    /// A header verifies once the computed checksum has been stored in it.
    pub proof fn lemma_update_then_verify(
        &self,
        src: IPv4Address,
        dst: IPv4Address,
        data: Seq<u8>,
    )
        ensures
            self.with_checksum(self.expected_checksum(src, dst, data)).checksum_valid(
                src,
                dst,
                data,
            ),
    {
    }

    /// The encoding with another checksum differs only in bits 128 to 143.
    #[verifier::rlimit(50)]
    pub proof fn lemma_encoding_with_checksum(&self, sum: u16)
        ensures
            self.encoding().len() == 160,
            self.with_checksum(sum).encoding() == spliced(
                self.encoding(),
                128,
                144,
                value_bits(sum as nat, 16),
            ),
            self.encoding().subrange(128, 144) == value_bits(self.checksum as nat, 16),
    {
        lemma_value_bits_len(self.source_port as nat, 16);
        lemma_value_bits_len(self.destination_port as nat, 16);
        lemma_value_bits_len(self.sequence_number as nat, 32);
        lemma_value_bits_len(self.acknowledgment_number as nat, 32);
        lemma_value_bits_len(self.data_offset as nat, 4);
        lemma_value_bits_len(self.reserved as nat, 4);
        lemma_value_bits_len(self.flags as nat, 8);
        lemma_value_bits_len(self.window_size as nat, 16);
        lemma_value_bits_len(self.checksum as nat, 16);
        lemma_value_bits_len(self.urgent_pointer as nat, 16);
        lemma_value_bits_len(sum as nat, 16);
        assert(self.with_checksum(sum).encoding() =~= self.encoding().subrange(0, 128)
            + value_bits(sum as nat, 16) + self.encoding().subrange(144, 160));
        assert(self.encoding().subrange(128, 144) =~= value_bits(self.checksum as nat, 16));
    }

    /// Flipping a bit of the encoding outside the checksum field leaves the
    /// stored checksum as it was and flips the same bit of the encoding taken
    /// with a zero checksum.
    pub proof fn lemma_flip_outside_checksum(&self, other: TcpHeader, p: int)
        requires
            0 <= p < 160,
            !(128 <= p < 144),
            other.encoding() == self.encoding().update(p, !self.encoding()[p]),
        ensures
            other.checksum == self.checksum,
            self.with_checksum(0).encoding().len() == 160,
            other.with_checksum(0).encoding() == self.with_checksum(0).encoding().update(
                p,
                !self.with_checksum(0).encoding()[p],
            ),
    {
        self.lemma_encoding_with_checksum(0);
        other.lemma_encoding_with_checksum(0);
        lemma_value_bits_len(0, 16);
        lemma_spliced_flip(self.encoding(), 128, 144, value_bits(0, 16), p);
        lemma_value_of_bits(self.checksum as nat, 16);
        lemma_value_of_bits(other.checksum as nat, 16);
        lemma_pow2_values();
    }

    /// A header that verifies no longer does once a single bit outside its
    /// checksum field is flipped: any header whose encoding is that of
    /// `self` with bit `p` inverted fails the check for the same segment.
    pub proof fn lemma_bit_flip_detected(
        &self,
        other: TcpHeader,
        p: int,
        src: IPv4Address,
        dst: IPv4Address,
        data: Seq<u8>,
    )
        requires
            self.checksum_valid(src, dst, data),
            0 <= p < 160,
            !(128 <= p < 144),
            other.encoding() == self.encoding().update(p, !self.encoding()[p]),
        ensures
            !other.checksum_valid(src, dst, data),
    {
        let blank = self.with_checksum(0).encoding();
        self.lemma_flip_outside_checksum(other, p);
        lemma_packed_bytes_flip(blank, p);
        lemma_bits_of_packed_bytes(blank);
        let head = pseudo_header(src, dst, 20 + data.len());
        let region = self.checksum_region(src, dst, data);
        let v = packed_bytes(blank.update(p, !blank[p]))[p / 8];
        assert(head.len() == 12);
        assert(region[12 + p / 8] == packed_bytes(blank)[p / 8]);
        assert(other.checksum_region(src, dst, data) =~= region.update(12 + p / 8, v));
        lemma_byte_change_detected(region, 12 + p / 8, v);
    }
}

impl ByteObject for TcpHeader {
    open spec fn encoding(&self) -> Seq<bool> {
        value_bits(self.source_port as nat, 16) + value_bits(self.destination_port as nat, 16)
            + value_bits(self.sequence_number as nat, 32) + value_bits(
            self.acknowledgment_number as nat,
            32,
        ) + value_bits(self.data_offset as nat, 4) + value_bits(self.reserved as nat, 4)
            + value_bits(self.flags as nat, 8) + value_bits(self.window_size as nat, 16)
            + value_bits(self.checksum as nat, 16) + value_bits(self.urgent_pointer as nat, 16)
    }

    open spec fn decoding(bits: Seq<bool>) -> Result<Self, DecodeError> {
        if bits.len() < 160 {
            Err(DecodeError::BufferUnderrun)
        } else {
            Ok(TcpHeader::at(bits))
        }
    }

    open spec fn decoded_len(bits: Seq<bool>) -> nat {
        160
    }

    open spec fn valid(&self) -> bool {
        &&& self.data_offset < 16
        &&& self.reserved < 16
    }

    open spec fn discarded(&self) -> nat {
        0
    }

    fn from_stream(src: &mut BitStream) -> (decoded: Result<Self, DecodeError>) {
        proof {
            src.lemma_wf();
        }
        let block = match src.pop(160) {
            Ok(bits) => bits,
            Err(e) => { return Err(e); },
        };
        proof {
            lemma_fields_of_take(old(src).unread(), 160);
        }
        Ok(TcpHeader::read(&block))
    }

    fn to_bits(&self) -> (bits: Bits) {
        let mut bits = Bits::new();
        bits.push_uint(self.source_port as u64, 16);
        bits.push_uint(self.destination_port as u64, 16);
        bits.push_uint(self.sequence_number as u64, 32);
        bits.push_uint(self.acknowledgment_number as u64, 32);
        bits.push_uint(self.data_offset as u64, 4);
        bits.push_uint(self.reserved as u64, 4);
        bits.push_uint(self.flags as u64, 8);
        bits.push_uint(self.window_size as u64, 16);
        bits.push_uint(self.checksum as u64, 16);
        bits.push_uint(self.urgent_pointer as u64, 16);
        assert(bits@ =~= self.encoding());
        bits
    }

    proof fn lemma_round_trip(&self, rest: Seq<bool>) {
        self.lemma_fields(rest);
    }

    proof fn lemma_decoding_valid(bits: Seq<bool>) {
        if bits.len() >= 160 {
            crate::types::bit_spec::lemma_bits_value_bound(bits.subrange(96, 100));
            crate::types::bit_spec::lemma_bits_value_bound(bits.subrange(100, 104));
            lemma_pow2_values();
        }
    }
}

impl TcpHeader {
    /// The header field by field, numbers in decimal and the flags in binary.
    pub open spec fn text(&self) -> Seq<char> {
        "TcpHeader { Source Port: "@
            + decimal(self.source_port as nat)
            + ", Destination Port: "@
            + decimal(self.destination_port as nat)
            + ", Sequence Number: "@
            + decimal(self.sequence_number as nat)
            + ", Acknowledgment Number: "@
            + decimal(self.acknowledgment_number as nat)
            + ", Data Offset: "@
            + decimal(self.data_offset as nat)
            + ", Reserved: "@
            + decimal(self.reserved as nat)
            + ", Flags: "@
            + binary(self.flags as nat)
            + ", Window Size: "@
            + decimal(self.window_size as nat)
            + ", Checksum: "@
            + decimal(self.checksum as nat)
            + ", Urgent Pointer: "@
            + decimal(self.urgent_pointer as nat)
            + " }"@
    }

    /// The value written out for a reader.
    pub fn to_text(&self) -> (text: String)
        ensures
            text@ == self.text(),
    {
        let mut out: Vec<char> = Vec::new();
        push_str(&mut out, "TcpHeader { Source Port: ");
        push_decimal(&mut out, self.source_port as usize);
        push_str(&mut out, ", Destination Port: ");
        push_decimal(&mut out, self.destination_port as usize);
        push_str(&mut out, ", Sequence Number: ");
        push_decimal(&mut out, self.sequence_number as usize);
        push_str(&mut out, ", Acknowledgment Number: ");
        push_decimal(&mut out, self.acknowledgment_number as usize);
        push_str(&mut out, ", Data Offset: ");
        push_decimal(&mut out, self.data_offset as usize);
        push_str(&mut out, ", Reserved: ");
        push_decimal(&mut out, self.reserved as usize);
        push_str(&mut out, ", Flags: ");
        push_binary(&mut out, self.flags as usize);
        push_str(&mut out, ", Window Size: ");
        push_decimal(&mut out, self.window_size as usize);
        push_str(&mut out, ", Checksum: ");
        push_decimal(&mut out, self.checksum as usize);
        push_str(&mut out, ", Urgent Pointer: ");
        push_decimal(&mut out, self.urgent_pointer as usize);
        push_str(&mut out, " }");
        proof {
            assert(out@ =~= self.text());
        }
        string_of(out.as_slice())
    }
}

} // verus!
