//! Conversions between unsigned integers and plain vectors of bits.

use vstd::prelude::*;
use crate::types::bit_spec::{
    bits_value, bytes_bits, chunk, chunk_count, chunk_values, lemma_pow2_monotonic,
    lemma_pow2_values, lemma_value_bits_len, packed_bytes, packed_words, pad_right, pow2,
    value_bits,
};

verus! {

/// The `width` low bits of `value`, most significant first. Positions beyond
/// the sixty-fourth from the right are zero.
pub fn uint_to_bits(value: u64, width: usize) -> (out: Vec<bool>)
    ensures
        out@ == value_bits(value as nat, width as nat),
{
    let mut out: Vec<bool> = Vec::new();
    let mut i: usize = 0;
    while i < width
        invariant
            i <= width,
            out@.len() == i,
        decreases width - i,
    {
        out.push(false);
        i += 1;
    }
    let mut cur: u64 = value;
    let mut k: usize = 0;
    while k < width
        invariant
            k <= width,
            out@.len() == width,
            value_bits(value as nat, width as nat) == value_bits(cur as nat, (width - k) as nat)
                + out@.subrange(width - k, width as int),
        decreases width - k,
    {
        let bit = cur % 2 == 1;
        let ghost before = out@;
        out.set(width - 1 - k, bit);
        proof {
            let rest = value_bits((cur / 2) as nat, (width - k - 1) as nat);
            lemma_value_bits_len((cur / 2) as nat, (width - k - 1) as nat);
            assert(value_bits(cur as nat, (width - k) as nat) == rest.push(bit));
            assert(rest.push(bit) + before.subrange(width - k, width as int) =~= rest
                + out@.subrange(width - k - 1, width as int));
        }
        cur = cur / 2;
        k += 1;
    }
    proof {
        assert(out@.subrange(0, width as int) =~= out@);
        assert(value_bits(cur as nat, 0) + out@ =~= out@);
    }
    out
}

/// The number that `bits` spells, most significant bit first.
pub fn bits_to_uint(bits: &[bool]) -> (value: u64)
    requires
        bits@.len() <= 64,
    ensures
        value == bits_value(bits@),
        value < pow2(bits@.len()),
{
    let mut acc: u64 = 0;
    let mut i: usize = 0;
    while i < bits.len()
        invariant
            i <= bits@.len(),
            bits@.len() <= 64,
            acc == bits_value(bits@.take(i as int)),
            acc < pow2(i as nat),
        decreases bits@.len() - i,
    {
        proof {
            assert(bits@.take(i + 1).drop_last() =~= bits@.take(i as int));
            lemma_pow2_monotonic((i + 1) as nat, 64);
            lemma_pow2_values();
        }
        acc = acc * 2 + (if bits[i] { 1 } else { 0 });
        i += 1;
    }
    proof {
        assert(bits@.take(bits@.len() as int) =~= bits@);
    }
    acc
}

/// The number that `bits` spells once it is filled up to `width` bits with
/// zero bits on its right.
pub fn padded_value(bits: &[bool], width: usize) -> (value: u64)
    requires
        bits@.len() <= width <= 64,
    ensures
        value == bits_value(pad_right(bits@, width as nat)),
        value < pow2(width as nat),
{
    let mut acc: u64 = bits_to_uint(bits);
    let mut n: usize = bits.len();
    proof {
        assert(bits@ + Seq::new(0, |i: int| false) =~= bits@);
    }
    while n < width
        invariant
            bits@.len() <= n <= width <= 64,
            acc == bits_value(bits@ + Seq::new((n - bits@.len()) as nat, |i: int| false)),
            acc < pow2(n as nat),
        decreases width - n,
    {
        proof {
            let cur = bits@ + Seq::new((n - bits@.len()) as nat, |i: int| false);
            let next = bits@ + Seq::new((n + 1 - bits@.len()) as nat, |i: int| false);
            assert(next.drop_last() =~= cur);
            lemma_pow2_monotonic((n + 1) as nat, 64);
            lemma_pow2_values();
        }
        acc = acc * 2;
        n += 1;
    }
    acc
}

/// `bits` packed into bytes in stream order; a trailing partial byte is
/// filled up with zero bits on its right.
pub fn pack_bytes(bits: &[bool]) -> (bytes: Vec<u8>)
    ensures
        bytes@ == packed_bytes(bits@),
{
    let mut out: Vec<u8> = Vec::new();
    let mut start: usize = 0;
    let len = bits.len();
    while start < len
        invariant
            len == bits@.len(),
            start <= len,
            start % 8 == 0 || start == len,
            out@.len() == chunk_count(start as nat, 8),
            forall|j: int|
                0 <= j < out@.len() ==> out@[j] == #[verifier::truncate] (bits_value(
                    pad_right(chunk(bits@, 8, j), 8),
                ) as u8),
        decreases len - start,
    {
        let take: usize = if len - start >= 8 { 8 } else { len - start };
        let piece = vstd::slice::slice_subrange(bits, start, start + take);
        proof {
            assert(piece@ == chunk(bits@, 8, (start / 8) as int));
            lemma_pow2_values();
        }
        let v = padded_value(piece, 8) as u8;
        out.push(v);
        start = start + take;
    }
    proof {
        assert(out@ =~= packed_bytes(bits@));
    }
    out
}

/// `bits` packed into 16-bit words in stream order; a trailing partial word
/// is filled up with zero bits on its right.
pub fn pack_words(bits: &[bool]) -> (words: Vec<u16>)
    ensures
        words@ == packed_words(bits@),
{
    let mut out: Vec<u16> = Vec::new();
    let mut start: usize = 0;
    let len = bits.len();
    while start < len
        invariant
            len == bits@.len(),
            start <= len,
            start % 16 == 0 || start == len,
            out@.len() == chunk_count(start as nat, 16),
            forall|j: int|
                0 <= j < out@.len() ==> out@[j] == #[verifier::truncate] (bits_value(
                    pad_right(chunk(bits@, 16, j), 16),
                ) as u16),
        decreases len - start,
    {
        let take: usize = if len - start >= 16 { 16 } else { len - start };
        let piece = vstd::slice::slice_subrange(bits, start, start + take);
        proof {
            assert(piece@ == chunk(bits@, 16, (start / 16) as int));
            lemma_pow2_values();
        }
        let v = padded_value(piece, 16) as u16;
        out.push(v);
        start = start + take;
    }
    proof {
        assert(out@ =~= packed_words(bits@));
    }
    out
}

/// A namespace for the conversions between integers and vectors of bits.
pub struct BitUtils;

impl BitUtils {
    /// The eight bits of `value`, most significant first.
    pub fn u8_to_bits(value: u8) -> (bits: Vec<bool>)
        ensures
            bits@ == value_bits(value as nat, 8),
    {
        uint_to_bits(value as u64, 8)
    }

    /// The number that at most eight bits spell.
    pub fn bits_to_u8(bits: &[bool]) -> (value: u8)
        requires
            bits@.len() <= 8,
        ensures
            value == bits_value(bits@),
    {
        proof {
            lemma_pow2_monotonic(bits@.len(), 8);
            lemma_pow2_values();
        }
        bits_to_uint(bits) as u8
    }

    /// The bits of each byte in turn, eight per byte.
    pub fn u8s_to_bits(values: &[u8]) -> (bits: Vec<bool>)
        ensures
            bits@ == bytes_bits(values@),
    {
        let mut out: Vec<bool> = Vec::new();
        let mut i: usize = 0;
        while i < values.len()
            invariant
                i <= values@.len(),
                out@ == bytes_bits(values@.take(i as int)),
            decreases values@.len() - i,
        {
            let byte_bits = uint_to_bits(values[i] as u64, 8);
            proof {
                assert(values@.take(i + 1).drop_last() =~= values@.take(i as int));
            }
            out.extend_from_slice(byte_bits.as_slice());
            i += 1;
        }
        proof {
            assert(values@.take(values@.len() as int) =~= values@);
        }
        out
    }

    /// One byte for each run of eight bits; a shorter last run is read as a
    /// number of its own width.
    pub fn bits_to_u8s(bits: &[bool]) -> (bytes: Vec<u8>)
        ensures
            bytes@ == chunk_values(bits@),
    {
        let mut out: Vec<u8> = Vec::new();
        let mut start: usize = 0;
        let len = bits.len();
        while start < len
            invariant
                len == bits@.len(),
                start <= len,
                start % 8 == 0 || start == len,
                out@.len() == chunk_count(start as nat, 8),
                forall|j: int|
                    0 <= j < out@.len() ==> out@[j] == #[verifier::truncate] (bits_value(
                        chunk(bits@, 8, j),
                    ) as u8),
            decreases len - start,
        {
            let take: usize = if len - start >= 8 { 8 } else { len - start };
            let piece = vstd::slice::slice_subrange(bits, start, start + take);
            proof {
                assert(piece@ == chunk(bits@, 8, (start / 8) as int));
                lemma_pow2_monotonic(piece@.len(), 8);
                lemma_pow2_values();
            }
            let v = bits_to_uint(piece) as u8;
            out.push(v);
            start = start + take;
        }
        proof {
            assert(out@ =~= chunk_values(bits@));
        }
        out
    }

    /// The number that at most sixteen bits spell.
    pub fn bits_to_u16(bits: &[bool]) -> (value: u16)
        requires
            bits@.len() <= 16,
        ensures
            value == bits_value(bits@),
    {
        proof {
            lemma_pow2_monotonic(bits@.len(), 16);
            lemma_pow2_values();
        }
        bits_to_uint(bits) as u16
    }

    /// The sixteen bits of `value`, most significant first.
    pub fn u16_to_bits(value: u16) -> (bits: Vec<bool>)
        ensures
            bits@ == value_bits(value as nat, 16),
    {
        uint_to_bits(value as u64, 16)
    }

    /// The number that at most thirty-two bits spell.
    pub fn bits_to_u32(bits: &[bool]) -> (value: u32)
        requires
            bits@.len() <= 32,
        ensures
            value == bits_value(bits@),
    {
        proof {
            lemma_pow2_monotonic(bits@.len(), 32);
            lemma_pow2_values();
        }
        bits_to_uint(bits) as u32
    }

    /// The thirty-two bits of `value`, most significant first.
    pub fn u32_to_bits(value: u32) -> (bits: Vec<bool>)
        ensures
            bits@ == value_bits(value as nat, 32),
    {
        uint_to_bits(value as u64, 32)
    }
}

} // verus!
