//! The ARP packet for IPv4 over Ethernet.

use vstd::prelude::*;
use crate::error::DecodeError;
use crate::protocols::ether_type::EtherType;
use crate::protocols::ip::ipv4_address::IPv4Address;
use crate::protocols::mac_address::MacAddress;
use crate::types::bit_spec::{
    field, lemma_bits_value_bound, lemma_fields_of_take, lemma_pow2_values, lemma_value_bits_len,
    lemma_value_of_bits, value_bits,
};
use crate::types::bit_stream::{BitStream, Bits};
use crate::types::byte_object::ByteObject;
use crate::text::{decimal, push_decimal, push_str, string_of};

verus! {

/// The number that `bytes` spell when read as one big-endian integer.
pub open spec fn be_value(bytes: Seq<u8>) -> nat
    decreases bytes.len(),
{
    if bytes.len() == 0 {
        0
    } else {
        256 * be_value(bytes.drop_last()) + bytes.last() as nat
    }
}

/// Reads `raw` as one big-endian integer. Bytes that do not fit a `usize`
/// are shifted out at the top.
pub fn bytes_to_int(raw: &[u8]) -> (value: usize)
    ensures
        value == be_value(raw@) % (usize::MAX as nat + 1),
{
    let top: usize = usize::MAX / 256 + 1;
    assert(256 * top == usize::MAX + 1) by {
        assert(usize::MAX == 0xFFFF_FFFF || usize::MAX == 0xFFFF_FFFF_FFFF_FFFF);
    }
    let mut res: usize = 0;
    let mut i: usize = 0;
    proof {
        assert(raw@.take(0) =~= Seq::<u8>::empty());
        vstd::arithmetic::div_mod::lemma_small_mod(0, usize::MAX as nat + 1);
    }
    while i < raw.len()
        invariant
            i <= raw@.len(),
            256 * top == usize::MAX + 1,
            res == be_value(raw@.take(i as int)) % (usize::MAX as nat + 1),
        decreases raw@.len() - i,
    {
        let kept: usize = res % top;
        proof {
            let before = be_value(raw@.take(i as int));
            let x = raw@[i as int] as nat;
            assert(raw@.take(i + 1).drop_last() =~= raw@.take(i as int));
            lemma_shift_in(before, x, top as nat);
        }
        res = kept * 256 + (raw[i] as usize);
        i += 1;
    }
    proof {
        assert(raw@.take(raw@.len() as int) =~= raw@);
    }
    res
}

/// Shifting a byte into a number kept modulo `256 * top`.
proof fn lemma_shift_in(before: nat, x: nat, top: nat)
    requires
        top > 0,
        x < 256,
    ensures
        ((before % (256 * top)) % top) * 256 + x == (256 * before + x) % (256 * top),
{
    let m = 256 * top;
    let r = before % m;
    vstd::arithmetic::div_mod::lemma_mod_mod(before as int, top as int, 256);
    assert(top * 256 == m);
    assert(r % top == before % top);
    let q = before / top;
    let k = before % top;
    vstd::arithmetic::div_mod::lemma_fundamental_div_mod(before as int, top as int);
    assert(256 * before + x == m * q + (k * 256 + x)) by (nonlinear_arith)
        requires
            before == top * q + k,
            m == 256 * top,
    ;
    assert(0 <= k * 256 + x < m);
    vstd::arithmetic::div_mod::lemma_fundamental_div_mod_converse(
        (256 * before + x) as int,
        m as int,
        q as int,
        (k * 256 + x) as int,
    );
}

/// An ARP packet. `htype` and `oper` are 16-bit fields, `hlen` and `plen`
/// 8-bit fields.
#[derive(Clone, Copy, Debug, PartialEq, Eq)]
pub struct ArpHeader {
    pub htype: usize,
    pub ptype: EtherType,
    pub hlen: usize,
    pub plen: usize,
    pub oper: usize,
    pub sha: MacAddress,
    pub spa: IPv4Address,
    pub tha: MacAddress,
    pub tpa: IPv4Address,
}

impl ArpHeader {
    /// The packet that the first 224 bits of `bits` spell, given its
    /// protocol type.
    pub open spec fn at(bits: Seq<bool>, ptype: EtherType) -> ArpHeader {
        ArpHeader {
            htype: field(bits, 0, 16) as usize,
            ptype,
            hlen: field(bits, 32, 8) as usize,
            plen: field(bits, 40, 8) as usize,
            oper: field(bits, 48, 16) as usize,
            sha: MacAddress::at(bits, 8),
            spa: IPv4Address::at(bits, 14),
            tha: MacAddress::at(bits, 18),
            tpa: IPv4Address::at(bits, 24),
        }
    }

    /// The packet with every field cut down to the width of its slot.
    pub open spec fn truncated(&self) -> ArpHeader {
        ArpHeader {
            htype: (self.htype % 0x10000) as usize,
            hlen: (self.hlen % 0x100) as usize,
            plen: (self.plen % 0x100) as usize,
            oper: (self.oper % 0x10000) as usize,
            ..*self
        }
    }

    /// The first 64 bits of the encoding: everything before the addresses.
    pub open spec fn encoding_head(&self) -> Seq<bool> {
        value_bits(self.htype as nat, 16) + self.ptype.encoding() + value_bits(
            self.hlen as nat,
            8,
        ) + value_bits(self.plen as nat, 8) + value_bits(self.oper as nat, 16)
    }

    /// The encoding is 224 bits long, and each field is read back from its
    /// place in it, reduced to its width.
    #[verifier::rlimit(50)]
    pub proof fn lemma_fields(&self, rest: Seq<bool>)
        ensures
            self.encoding().len() == 224,
            field(self.encoding() + rest, 16, 16) == self.ptype.code(),
            ArpHeader::at(self.encoding() + rest, self.ptype) == self.truncated(),
    {
        let head = self.encoding_head();
        let all = self.encoding() + rest;
        let sha = self.sha.encoding();
        let spa = self.spa.encoding();
        let tha = self.tha.encoding();
        let tpa = self.tpa.encoding();
        lemma_pow2_values();
        lemma_value_bits_len(self.htype as nat, 16);
        lemma_value_bits_len(self.ptype.code(), 16);
        lemma_value_bits_len(self.hlen as nat, 8);
        lemma_value_bits_len(self.plen as nat, 8);
        lemma_value_bits_len(self.oper as nat, 16);
        assert(head.len() == 64);
        self.sha.lemma_at_concat(head, spa + tha + tpa + rest);
        self.spa.lemma_at_concat(head + sha, tha + tpa + rest);
        self.tha.lemma_at_concat(head + sha + spa, tpa + rest);
        self.tpa.lemma_at_concat(head + sha + spa + tha, rest);
        assert(all =~= head + sha + (spa + tha + tpa + rest));
        assert(all =~= head + sha + spa + (tha + tpa + rest));
        assert(all =~= head + sha + spa + tha + (tpa + rest));
        assert(all.subrange(0, 16) =~= value_bits(self.htype as nat, 16));
        assert(all.subrange(16, 32) =~= value_bits(self.ptype.code(), 16));
        assert(all.subrange(32, 40) =~= value_bits(self.hlen as nat, 8));
        assert(all.subrange(40, 48) =~= value_bits(self.plen as nat, 8));
        assert(all.subrange(48, 64) =~= value_bits(self.oper as nat, 16));
        lemma_value_of_bits(self.htype as nat, 16);
        lemma_value_of_bits(self.ptype.code(), 16);
        lemma_value_of_bits(self.hlen as nat, 8);
        lemma_value_of_bits(self.plen as nat, 8);
        lemma_value_of_bits(self.oper as nat, 16);
    }
}

impl ByteObject for ArpHeader {
    open spec fn encoding(&self) -> Seq<bool> {
        self.encoding_head() + self.sha.encoding() + self.spa.encoding() + self.tha.encoding()
            + self.tpa.encoding()
    }

    open spec fn decoding(bits: Seq<bool>) -> Result<Self, DecodeError> {
        if bits.len() < 224 {
            Err(DecodeError::BufferUnderrun)
        } else {
            match EtherType::of_code(field(bits, 16, 16)) {
                Some(ptype) => Ok(ArpHeader::at(bits, ptype)),
                None => Err(DecodeError::UnrecognizedTag),
            }
        }
    }

    open spec fn decoded_len(bits: Seq<bool>) -> nat {
        224
    }

    open spec fn valid(&self) -> bool {
        &&& self.htype < 0x10000
        &&& self.hlen < 0x100
        &&& self.plen < 0x100
        &&& self.oper < 0x10000
    }

    open spec fn discarded(&self) -> nat {
        0
    }

    fn from_stream(src: &mut BitStream) -> (decoded: Result<Self, DecodeError>) {
        proof {
            src.lemma_wf();
        }
        let block = match src.view(224) {
            Ok(bits) => bits,
            Err(e) => { return Err(e); },
        };
        proof {
            lemma_fields_of_take(src.unread(), 224);
            lemma_pow2_values();
        }
        let ptype = EtherType::from_code(block.uint_at(16, 16) as u16)?;
        let header = ArpHeader {
            htype: block.uint_at(0, 16) as usize,
            ptype,
            hlen: block.uint_at(32, 8) as usize,
            plen: block.uint_at(40, 8) as usize,
            oper: block.uint_at(48, 16) as usize,
            sha: MacAddress::read_at(&block, 8),
            spa: IPv4Address::read_at(&block, 14),
            tha: MacAddress::read_at(&block, 18),
            tpa: IPv4Address::read_at(&block, 24),
        };
        proof {
            let want = ArpHeader::at(src.unread(), ptype);
            assert(header.sha.address =~= want.sha.address);
            assert(header.spa.address =~= want.spa.address);
            assert(header.tha.address =~= want.tha.address);
            assert(header.tpa.address =~= want.tpa.address);
        }
        let _ = src.pop(224);
        Ok(header)
    }

    fn to_bits(&self) -> (bits: Bits) {
        let mut bits = Bits::new();
        bits.push_uint(self.htype as u64, 16);
        bits.push_uint(self.ptype.to_code() as u64, 16);
        bits.push_uint(self.hlen as u64, 8);
        bits.push_uint(self.plen as u64, 8);
        bits.push_uint(self.oper as u64, 16);
        bits.push_bytes(self.sha.address.as_slice());
        bits.push_bytes(self.spa.address.as_slice());
        bits.push_bytes(self.tha.address.as_slice());
        bits.push_bytes(self.tpa.address.as_slice());
        assert(bits@ =~= self.encoding());
        bits
    }

    proof fn lemma_round_trip(&self, rest: Seq<bool>) {
        self.lemma_fields(rest);
        assert(self.truncated() == *self);
    }

    proof fn lemma_decoding_valid(bits: Seq<bool>) {
        if bits.len() >= 224 {
            lemma_bits_value_bound(bits.subrange(0, 16));
            lemma_bits_value_bound(bits.subrange(32, 40));
            lemma_bits_value_bound(bits.subrange(40, 48));
            lemma_bits_value_bound(bits.subrange(48, 64));
            lemma_pow2_values();
        }
    }
}

impl ArpHeader {
    /// The packet field by field, numbers in decimal.
    pub open spec fn text(&self) -> Seq<char> {
        "ARP { HTYPE: "@
            + decimal(self.htype as nat)
            + ", PTYPE: "@
            + self.ptype.name_text()
            + ", HLEN: "@
            + decimal(self.hlen as nat)
            + ", PLEN: "@
            + decimal(self.plen as nat)
            + ", OPER: "@
            + decimal(self.oper as nat)
            + ", SHA: "@
            + self.sha.text()
            + ", SPA: "@
            + self.spa.text()
            + ", THA: "@
            + self.tha.text()
            + ", TPA: "@
            + self.tpa.text()
            + " }"@
    }

    /// The value written out for a reader.
    pub fn to_text(&self) -> (text: String)
        ensures
            text@ == self.text(),
    {
        let mut out: Vec<char> = Vec::new();
        push_str(&mut out, "ARP { HTYPE: ");
        push_decimal(&mut out, self.htype as usize);
        push_str(&mut out, ", PTYPE: ");
        push_str(&mut out, self.ptype.name());
        push_str(&mut out, ", HLEN: ");
        push_decimal(&mut out, self.hlen as usize);
        push_str(&mut out, ", PLEN: ");
        push_decimal(&mut out, self.plen as usize);
        push_str(&mut out, ", OPER: ");
        push_decimal(&mut out, self.oper as usize);
        push_str(&mut out, ", SHA: ");
        push_str(&mut out, self.sha.to_text().as_str());
        push_str(&mut out, ", SPA: ");
        push_str(&mut out, self.spa.to_text().as_str());
        push_str(&mut out, ", THA: ");
        push_str(&mut out, self.tha.to_text().as_str());
        push_str(&mut out, ", TPA: ");
        push_str(&mut out, self.tpa.to_text().as_str());
        push_str(&mut out, " }");
        proof {
            assert(out@ =~= self.text());
        }
        string_of(out.as_slice())
    }
}

} // verus!
