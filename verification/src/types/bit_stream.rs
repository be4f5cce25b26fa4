//! The owned bit sequence and the cursor that reads fields out of it.

use vstd::prelude::*;
use crate::error::DecodeError;
use crate::types::bit_spec::{
    bits_value, byte_at, bytes_bits, field, lemma_pow2_values, packed_bytes, packed_words, pow2,
    value_bits,
};
use crate::types::bit_utils::{bits_to_uint, pack_bytes, pack_words, uint_to_bits, BitUtils};

verus! {

/// An owned sequence of bits. Its width is the number of bits it stores:
/// there is no second count that could disagree with the storage.
pub struct Bits {
    data: Vec<bool>,
}

impl View for Bits {
    type V = Seq<bool>;

    closed spec fn view(&self) -> Seq<bool> {
        self.data@
    }
}

impl Bits {
    /// The empty sequence.
    pub fn new() -> (bits: Bits)
        ensures
            bits@ == Seq::<bool>::empty(),
    {
        Bits { data: Vec::new() }
    }

    /// Appends `bits` at the end.
    pub fn append(&mut self, bits: &Bits)
        ensures
            final(self)@ == old(self)@ + bits@,
    {
        self.data.extend_from_slice(bits.data.as_slice());
        assert(self.data@ =~= old(self).data@ + bits.data@);
    }

    /// The sequence that holds exactly the bits of `data`.
    pub fn from_vec(data: Vec<bool>) -> (bits: Bits)
        ensures
            bits@ == data@,
    {
        Bits { data }
    }

    /// The bits as a vector.
    pub fn to_bools(&self) -> (data: Vec<bool>)
        ensures
            data@ == self@,
    {
        self.data.clone()
    }

    /// The number of bits.
    pub fn len(&self) -> (n: usize)
        ensures
            n == self@.len(),
    {
        self.data.len()
    }

    /// The bits packed into bytes in order; a trailing partial byte is filled
    /// up with zero bits on its right.
    pub fn to_u8s(&self) -> (bytes: Vec<u8>)
        ensures
            bytes@ == packed_bytes(self@),
    {
        pack_bytes(self.data.as_slice())
    }

    /// The bits packed into 16-bit words in order; a trailing partial word is
    /// filled up with zero bits on its right.
    pub fn to_u16s(&self) -> (words: Vec<u16>)
        ensures
            words@ == packed_words(self@),
    {
        pack_words(self.data.as_slice())
    }

    /// The number that the bits spell, for at most eight bits.
    pub fn to_u8(&self) -> (value: u8)
        requires
            self@.len() <= 8,
        ensures
            value == bits_value(self@),
    {
        BitUtils::bits_to_u8(self.data.as_slice())
    }

    /// The number that the bits spell, for at most sixteen bits.
    pub fn to_u16(&self) -> (value: u16)
        requires
            self@.len() <= 16,
        ensures
            value == bits_value(self@),
    {
        BitUtils::bits_to_u16(self.data.as_slice())
    }

    /// The number that the bits spell, for at most thirty-two bits.
    pub fn to_u32(&self) -> (value: u32)
        requires
            self@.len() <= 32,
        ensures
            value == bits_value(self@),
    {
        BitUtils::bits_to_u32(self.data.as_slice())
    }

    /// The number that the `width` bits from position `start` spell.
    pub fn uint_at(&self, start: usize, width: usize) -> (value: u64)
        requires
            width <= 64,
            start + width <= self@.len(),
        ensures
            value == field(self@, start as int, width as int),
            value < pow2(width as nat),
    {
        let data = self.data.as_slice();
        let len = data.len();
        assert(start + width <= len);
        let piece = vstd::slice::slice_subrange(data, start, start + width);
        bits_to_uint(piece)
    }

    /// The `count` bytes that start at byte position `first`.
    pub fn bytes_at(&self, first: usize, count: usize) -> (bytes: Vec<u8>)
        requires
            8 * (first + count) <= self@.len(),
        ensures
            bytes@.len() == count,
            forall|j: int| 0 <= j < count ==> bytes@[j] == byte_at(self@, first + j),
    {
        let mut out: Vec<u8> = Vec::new();
        let mut j: usize = 0;
        let len = self.data.len();
        while j < count
            invariant
                j <= count,
                len == self@.len(),
                8 * (first + count) <= len,
                out@.len() == j,
                forall|i: int| 0 <= i < j ==> out@[i] == byte_at(self@, first + i),
            decreases count - j,
        {
            proof {
                lemma_pow2_values();
            }
            let v = self.uint_at(8 * (first + j), 8) as u8;
            out.push(v);
            j += 1;
        }
        out
    }

    /// Appends the bits of each byte in turn.
    pub fn push_bytes(&mut self, bytes: &[u8])
        ensures
            final(self)@ == old(self)@ + bytes_bits(bytes@),
    {
        let piece = BitUtils::u8s_to_bits(bytes);
        self.data.extend_from_slice(piece.as_slice());
        assert(self.data@ =~= old(self).data@ + piece@);
    }

    /// Appends the `width` low bits of `value`, most significant first.
    pub fn push_uint(&mut self, value: u64, width: usize)
        ensures
            final(self)@ == old(self)@ + value_bits(value as nat, width as nat),
    {
        let piece = uint_to_bits(value, width);
        self.data.extend_from_slice(piece.as_slice());
        assert(self.data@ =~= old(self).data@ + piece@);
    }

    /// The bits from position `start` up to, not including, `end`.
    pub fn slice(&self, start: usize, end: usize) -> (part: Bits)
        requires
            start <= end <= self@.len(),
        ensures
            part@ == self@.subrange(start as int, end as int),
    {
        let piece = vstd::slice::slice_subrange(self.data.as_slice(), start, end);
        Bits::from_vec(vstd::slice::slice_to_vec(piece))
    }
}

/// A read cursor over a bit sequence. Bits before the cursor have been
/// consumed; appending grows the sequence behind it.
pub struct BitStream {
    bits: Bits,
    pos: usize,
}

impl BitStream {
    /// The cursor never runs past the end of the bits.
    pub closed spec fn wf(&self) -> bool {
        self.pos <= self.bits@.len()
    }

    /// All the bits of the buffer, consumed or not.
    pub closed spec fn bits(&self) -> Seq<bool> {
        self.bits@
    }

    /// How many bits have been consumed.
    pub closed spec fn pos(&self) -> nat {
        self.pos as nat
    }

    /// The bits that have not been consumed yet.
    pub open spec fn unread(&self) -> Seq<bool> {
        self.bits().skip(self.pos() as int)
    }

    /// The facts that follow from well-formedness.
    pub proof fn lemma_wf(&self)
        requires
            self.wf(),
        ensures
            self.pos() <= self.bits().len(),
            self.unread().len() == self.bits().len() - self.pos(),
    {
    }

    /// A cursor that has moved on by `n` bits has the unread bits of the
    /// earlier one without their first `n`.
    pub proof fn lemma_advanced(&self, earlier: &BitStream, n: nat)
        requires
            earlier.wf(),
            self.bits() == earlier.bits(),
            self.pos() == earlier.pos() + n,
            n <= earlier.unread().len(),
        ensures
            self.unread() == earlier.unread().skip(n as int),
    {
        assert(self.unread() =~= earlier.unread().skip(n as int));
    }

    /// A cursor at the start of `data`.
    pub fn new(data: Bits) -> (stream: BitStream)
        ensures
            stream.wf(),
            stream.bits() == data@,
            stream.pos() == 0,
    {
        BitStream { bits: data, pos: 0 }
    }

    /// The number of bits that have not been consumed yet.
    pub fn remaining(&self) -> (n: usize)
        requires
            self.wf(),
        ensures
            n == self.unread().len(),
    {
        self.bits.len() - self.pos
    }

    /// The number of bits that have been consumed.
    pub fn consumed(&self) -> (n: usize)
        ensures
            n == self.pos(),
    {
        self.pos
    }

    /// Consumes the next `len` bits and returns them. Where fewer remain,
    /// nothing is consumed.
    pub fn pop(&mut self, len: usize) -> (popped: Result<Bits, DecodeError>)
        requires
            old(self).wf(),
        ensures
            final(self).wf(),
            final(self).bits() == old(self).bits(),
            len <= old(self).unread().len() ==> (popped matches Ok(b) && b@ == old(
                self,
            ).unread().take(len as int)) && final(self).pos() == old(self).pos() + len,
            len > old(self).unread().len() ==> popped == Err::<Bits, DecodeError>(
                DecodeError::BufferUnderrun,
            ) && final(self).pos() == old(self).pos(),
    {
        if len > self.bits.len() - self.pos {
            return Err(DecodeError::BufferUnderrun);
        }
        let res = self.bits.slice(self.pos, self.pos + len);
        proof {
            assert(res@ =~= self.unread().take(len as int));
        }
        self.pos = self.pos + len;
        Ok(res)
    }

    /// Returns the next `len` bits without consuming them.
    pub fn view(&self, len: usize) -> (seen: Result<Bits, DecodeError>)
        requires
            self.wf(),
        ensures
            len <= self.unread().len() ==> (seen matches Ok(b) && b@ == self.unread().take(
                len as int,
            )),
            len > self.unread().len() ==> seen == Err::<Bits, DecodeError>(
                DecodeError::BufferUnderrun,
            ),
    {
        if len > self.bits.len() - self.pos {
            return Err(DecodeError::BufferUnderrun);
        }
        let res = self.bits.slice(self.pos, self.pos + len);
        proof {
            assert(res@ =~= self.unread().take(len as int));
        }
        Ok(res)
    }

    /// Appends `data` behind the bits already held and returns how many
    /// bits are then left to read.
    pub fn append(&mut self, data: Bits) -> (left: usize)
        requires
            old(self).wf(),
        ensures
            final(self).wf(),
            final(self).bits() == old(self).bits() + data@,
            final(self).pos() == old(self).pos(),
            left == final(self).unread().len(),
    {
        self.bits.append(&data);
        self.bits.len() - self.pos
    }

    /// All the bits of the buffer, consumed or not.
    pub fn into_bits(self) -> (all: Bits)
        ensures
            all@ == self.bits(),
    {
        self.bits
    }
}

/// Values that have a fixed spelling in bits.
pub trait BitsCompatible {
    /// The bits that stand for the value.
    spec fn bits_model(&self) -> Seq<bool>;

    /// The value as a bit sequence.
    fn to_bits(&self) -> (bits: Bits)
        ensures
            bits@ == self.bits_model(),
    ;
}

impl BitsCompatible for u8 {
    open spec fn bits_model(&self) -> Seq<bool> {
        value_bits(*self as nat, 8)
    }

    fn to_bits(&self) -> (bits: Bits) {
        Bits::from_vec(uint_to_bits(*self as u64, 8))
    }
}

impl BitsCompatible for u16 {
    open spec fn bits_model(&self) -> Seq<bool> {
        value_bits(*self as nat, 16)
    }

    fn to_bits(&self) -> (bits: Bits) {
        Bits::from_vec(uint_to_bits(*self as u64, 16))
    }
}

impl BitsCompatible for u32 {
    open spec fn bits_model(&self) -> Seq<bool> {
        value_bits(*self as nat, 32)
    }

    fn to_bits(&self) -> (bits: Bits) {
        Bits::from_vec(uint_to_bits(*self as u64, 32))
    }
}

impl BitsCompatible for u64 {
    open spec fn bits_model(&self) -> Seq<bool> {
        value_bits(*self as nat, 64)
    }

    fn to_bits(&self) -> (bits: Bits) {
        Bits::from_vec(uint_to_bits(*self, 64))
    }
}

impl BitsCompatible for usize {
    open spec fn bits_model(&self) -> Seq<bool> {
        value_bits(*self as nat, usize::BITS as nat)
    }

    fn to_bits(&self) -> (bits: Bits) {
        Bits::from_vec(uint_to_bits(*self as u64, usize::BITS as usize))
    }
}

impl BitsCompatible for Vec<u8> {
    open spec fn bits_model(&self) -> Seq<bool> {
        bytes_bits(self@)
    }

    fn to_bits(&self) -> (bits: Bits) {
        Bits::from_vec(BitUtils::u8s_to_bits(self.as_slice()))
    }
}

impl BitsCompatible for Vec<bool> {
    open spec fn bits_model(&self) -> Seq<bool> {
        self@
    }

    fn to_bits(&self) -> (bits: Bits) {
        Bits::from_vec(self.clone())
    }
}

impl BitsCompatible for [u8] {
    open spec fn bits_model(&self) -> Seq<bool> {
        bytes_bits(self@)
    }

    fn to_bits(&self) -> (bits: Bits) {
        Bits::from_vec(BitUtils::u8s_to_bits(self))
    }
}

impl BitsCompatible for [bool] {
    open spec fn bits_model(&self) -> Seq<bool> {
        self@
    }

    fn to_bits(&self) -> (bits: Bits) {
        Bits::from_vec(vstd::slice::slice_to_vec(self))
    }
}

} // verus!
