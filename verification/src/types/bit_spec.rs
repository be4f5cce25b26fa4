//! The mathematical model of bit sequences: what number a run of bits
//! stands for, and which bits stand for a number. Bits are written most
//! significant first, as they travel on the wire.

use vstd::prelude::*;

verus! {

/// The number that `bits` spells, most significant bit first:
/// the sum of `bit[i] * 2^(len - 1 - i)`.
pub open spec fn bits_value(bits: Seq<bool>) -> nat
    decreases bits.len(),
{
    if bits.len() == 0 {
        0
    } else {
        2 * bits_value(bits.drop_last()) + (if bits.last() { 1nat } else { 0nat })
    }
}

/// The `width` low bits of `value`, most significant first.
pub open spec fn value_bits(value: nat, width: nat) -> Seq<bool>
    decreases width,
{
    if width == 0 {
        Seq::empty()
    } else {
        value_bits(value / 2, (width - 1) as nat).push(value % 2 == 1)
    }
}

/// Two to the power `n`.
pub open spec fn pow2(n: nat) -> nat
    decreases n,
{
    if n == 0 {
        1
    } else {
        2 * pow2((n - 1) as nat)
    }
}

/// The bits of a byte string: eight per byte, in order.
pub open spec fn bytes_bits(bytes: Seq<u8>) -> Seq<bool>
    decreases bytes.len(),
{
    if bytes.len() == 0 {
        Seq::empty()
    } else {
        bytes_bits(bytes.drop_last()) + value_bits(bytes.last() as nat, 8)
    }
}

/// `bits` followed by as many `false` bits as it takes to reach `width`.
pub open spec fn pad_right(bits: Seq<bool>, width: nat) -> Seq<bool> {
    if bits.len() >= width {
        bits
    } else {
        bits + Seq::new((width - bits.len()) as nat, |i: int| false)
    }
}

/// The piece of `bits` that chunk number `k` of size `size` covers; the last
/// chunk may be shorter than `size`.
pub open spec fn chunk(bits: Seq<bool>, size: nat, k: int) -> Seq<bool> {
    let start = k * size;
    let end = if start + size <= bits.len() { start + size } else { bits.len() as int };
    bits.subrange(start, end)
}

/// How many chunks of `size` bits it takes to cover `len` bits.
pub open spec fn chunk_count(len: nat, size: nat) -> nat {
    ((len + size - 1) / (size as int)) as nat
}

/// `bits` packed into bytes in stream order; a trailing partial byte is
/// filled up with zero bits on its right.
pub open spec fn packed_bytes(bits: Seq<bool>) -> Seq<u8> {
    Seq::new(chunk_count(bits.len(), 8), |k: int| bits_value(pad_right(chunk(bits, 8, k), 8)) as u8)
}

/// `bits` packed into 16-bit words in stream order; a trailing partial word
/// is filled up with zero bits on its right.
pub open spec fn packed_words(bits: Seq<bool>) -> Seq<u16> {
    Seq::new(
        chunk_count(bits.len(), 16),
        |k: int| bits_value(pad_right(chunk(bits, 16, k), 16)) as u16,
    )
}

/// `bits` cut into chunks of eight, each read as a number of its own width.
pub open spec fn chunk_values(bits: Seq<bool>) -> Seq<u8> {
    Seq::new(chunk_count(bits.len(), 8), |k: int| bits_value(chunk(bits, 8, k)) as u8)
}

pub proof fn lemma_pow2_values()
    ensures
        pow2(0) == 1,
        pow2(1) == 2,
        pow2(2) == 4,
        pow2(3) == 8,
        pow2(4) == 16,
        pow2(5) == 32,
        pow2(6) == 64,
        pow2(7) == 128,
        pow2(8) == 256,
        pow2(13) == 8192,
        pow2(16) == 65536,
        pow2(32) == 4294967296,
        pow2(64) == 18446744073709551616,
{
    reveal_with_fuel(pow2, 9);
    assert(pow2(8) == 256);
    assert(pow2(16) == 256 * pow2(8)) by {
        reveal_with_fuel(pow2, 9);
    }
    assert(pow2(13) == 32 * pow2(8)) by {
        reveal_with_fuel(pow2, 6);
    }
    assert(pow2(24) == 256 * pow2(16)) by {
        reveal_with_fuel(pow2, 9);
    }
    assert(pow2(32) == 256 * pow2(24)) by {
        reveal_with_fuel(pow2, 9);
    }
    assert(pow2(40) == 256 * pow2(32)) by {
        reveal_with_fuel(pow2, 9);
    }
    assert(pow2(48) == 256 * pow2(40)) by {
        reveal_with_fuel(pow2, 9);
    }
    assert(pow2(56) == 256 * pow2(48)) by {
        reveal_with_fuel(pow2, 9);
    }
    assert(pow2(64) == 256 * pow2(56)) by {
        reveal_with_fuel(pow2, 9);
    }
}

pub proof fn lemma_pow2_monotonic(a: nat, b: nat)
    requires
        a <= b,
    ensures
        pow2(a) <= pow2(b),
        pow2(a) >= 1,
    decreases b,
{
    if b == 0 {
    } else if a == b {
        lemma_pow2_monotonic((a - 1) as nat, (b - 1) as nat);
    } else {
        lemma_pow2_monotonic(a, (b - 1) as nat);
    }
}

/// A run of bits spells a number below two to the power of its length.
pub proof fn lemma_bits_value_bound(bits: Seq<bool>)
    ensures
        bits_value(bits) < pow2(bits.len()),
    decreases bits.len(),
{
    if bits.len() > 0 {
        lemma_bits_value_bound(bits.drop_last());
    }
}

pub proof fn lemma_value_bits_len(value: nat, width: nat)
    ensures
        value_bits(value, width).len() == width,
    decreases width,
{
    if width > 0 {
        lemma_value_bits_len(value / 2, (width - 1) as nat);
    }
}

/// Writing a number out in `width` bits and reading it back gives the number
/// reduced modulo two to the power `width`.
pub proof fn lemma_value_of_bits(value: nat, width: nat)
    ensures
        bits_value(value_bits(value, width)) == value % pow2(width),
    decreases width,
{
    if width == 0 {
    } else {
        let rest = value_bits(value / 2, (width - 1) as nat);
        let all = value_bits(value, width);
        lemma_value_of_bits(value / 2, (width - 1) as nat);
        assert(all.drop_last() =~= rest);
        let p = pow2((width - 1) as nat);
        lemma_pow2_monotonic(0, (width - 1) as nat);
        lemma_mod_double(value, p);
    }
}

/// `v % (2p) == 2 * ((v / 2) % p) + v % 2`.
pub proof fn lemma_mod_double(v: nat, p: nat)
    requires
        p > 0,
    ensures
        v % (2 * p) == 2 * ((v / 2) % p) + v % 2,
{
    let h = v / 2;
    let q = h / p;
    let r = h % p;
    assert(h == q * p + r) by {
        vstd::arithmetic::div_mod::lemma_fundamental_div_mod(h as int, p as int);
        assert(p * q == q * p) by (nonlinear_arith);
    }
    assert(v == 2 * h + v % 2);
    let m = 2 * r + v % 2;
    assert(0 <= m < 2 * p);
    assert(v == q * (2 * p) + m) by (nonlinear_arith)
        requires
            v == 2 * h + v % 2,
            h == q * p + r,
            m == 2 * r + v % 2,
    ;
    vstd::arithmetic::div_mod::lemma_fundamental_div_mod_converse(
        v as int,
        (2 * p) as int,
        q as int,
        m as int,
    );
}

/// Reading a run of bits and writing the number out in as many bits gives
/// the run back.
pub proof fn lemma_bits_of_value(bits: Seq<bool>)
    ensures
        value_bits(bits_value(bits), bits.len()) == bits,
    decreases bits.len(),
{
    if bits.len() == 0 {
        assert(value_bits(bits_value(bits), 0) =~= bits);
    } else {
        let v = bits_value(bits);
        let head = bits.drop_last();
        lemma_bits_of_value(head);
        assert(v / 2 == bits_value(head));
        assert((v % 2 == 1) == bits.last());
        assert(value_bits(v, bits.len()) =~= bits);
    }
}

/// A number below two to the power `width` survives being written in `width`
/// bits and read back.
pub proof fn lemma_value_round_trip(value: nat, width: nat)
    requires
        value < pow2(width),
    ensures
        bits_value(value_bits(value, width)) == value,
{
    lemma_value_of_bits(value, width);
    vstd::arithmetic::div_mod::lemma_small_mod(value, pow2(width));
}

/// Byte number `k` of a run of bits: the number that bits `8k .. 8k + 8`
/// spell.
pub open spec fn byte_at(bits: Seq<bool>, k: int) -> u8 {
    field(bits, 8 * k, 8) as u8
}

/// The number that the `width` bits from position `start` spell.
pub open spec fn field(bits: Seq<bool>, start: int, width: int) -> nat {
    bits_value(bits.subrange(start, start + width))
}

/// A field read from the first `n` bits is the field read from all of them.
pub proof fn lemma_field_take(bits: Seq<bool>, n: int, start: int, width: int)
    requires
        0 <= start,
        0 <= width,
        start + width <= n <= bits.len(),
    ensures
        field(bits.take(n), start, width) == field(bits, start, width),
{
    assert(bits.take(n).subrange(start, start + width) =~= bits.subrange(start, start + width));
}

/// A number written in `width` bits between any two runs of bits is read
/// back from its place, reduced modulo two to the power `width`.
pub proof fn lemma_field_of_concat(before: Seq<bool>, value: nat, width: nat, after: Seq<bool>)
    ensures
        field(before + value_bits(value, width) + after, before.len() as int, width as int)
            == value % pow2(width),
        (before + value_bits(value, width)).len() == before.len() + width,
{
    lemma_value_bits_len(value, width);
    let all = before + value_bits(value, width) + after;
    assert(all.subrange(before.len() as int, (before.len() + width) as int) =~= value_bits(
        value,
        width,
    ));
    lemma_value_of_bits(value, width);
}

pub proof fn lemma_bytes_bits_len(bytes: Seq<u8>)
    ensures
        bytes_bits(bytes).len() == 8 * bytes.len(),
    decreases bytes.len(),
{
    if bytes.len() > 0 {
        lemma_bytes_bits_len(bytes.drop_last());
        lemma_value_bits_len(bytes.last() as nat, 8);
    }
}

/// Bits `8k .. 8k + 8` of the bits of a byte string are the bits of byte
/// `k`, whatever follows the string.
pub proof fn lemma_bytes_bits_byte(bytes: Seq<u8>, rest: Seq<bool>, k: int)
    requires
        0 <= k < bytes.len(),
    ensures
        (bytes_bits(bytes) + rest).subrange(8 * k, 8 * k + 8) == value_bits(bytes[k] as nat, 8),
        byte_at(bytes_bits(bytes) + rest, k) == bytes[k],
    decreases bytes.len(),
{
    let head = bytes.drop_last();
    let tail = value_bits(bytes.last() as nat, 8);
    lemma_bytes_bits_len(head);
    lemma_bytes_bits_len(bytes);
    lemma_value_bits_len(bytes.last() as nat, 8);
    if k == bytes.len() - 1 {
        assert((bytes_bits(bytes) + rest).subrange(8 * k, 8 * k + 8) =~= tail);
    } else {
        lemma_bytes_bits_byte(head, tail + rest, k);
        assert(bytes_bits(bytes) + rest =~= bytes_bits(head) + (tail + rest));
    }
    lemma_pow2_values();
    lemma_value_round_trip(bytes[k] as nat, 8);
}

/// The bits of a byte string, spelled out byte by byte.
pub proof fn lemma_bytes_bits_concat(a: Seq<u8>, b: Seq<u8>)
    ensures
        bytes_bits(a + b) == bytes_bits(a) + bytes_bits(b),
    decreases b.len(),
{
    if b.len() == 0 {
        assert(a + b =~= a);
        assert(bytes_bits(a) + bytes_bits(b) =~= bytes_bits(a));
    } else {
        lemma_bytes_bits_concat(a, b.drop_last());
        assert((a + b).drop_last() =~= a + b.drop_last());
        assert(bytes_bits(a + b) =~= bytes_bits(a) + bytes_bits(b));
    }
}

/// A whole number of bytes' worth of bits is the bits of its own bytes.
pub proof fn lemma_bits_of_packed_bytes(bits: Seq<bool>)
    requires
        bits.len() % 8 == 0,
    ensures
        packed_bytes(bits).len() == bits.len() / 8,
        bytes_bits(packed_bytes(bits)) == bits,
        forall|k: int| 0 <= k < bits.len() / 8 ==> packed_bytes(bits)[k] == byte_at(bits, k),
    decreases bits.len(),
{
    let bytes = packed_bytes(bits);
    assert forall|k: int| 0 <= k < bits.len() / 8 implies bytes[k] == byte_at(bits, k) by {
        assert(chunk(bits, 8, k) =~= bits.subrange(8 * k, 8 * k + 8));
    }
    if bits.len() == 0 {
        assert(bytes_bits(bytes) =~= bits);
    } else {
        let n = (bits.len() / 8) as int;
        let head = bits.subrange(0, 8 * (n - 1));
        let last = bits.subrange(8 * (n - 1), 8 * n);
        lemma_bits_of_packed_bytes(head);
        assert(bytes.drop_last() =~= packed_bytes(head)) by {
            assert forall|k: int| 0 <= k < n - 1 implies bytes[k] == packed_bytes(head)[k] by {
                assert(chunk(bits, 8, k) =~= chunk(head, 8, k));
            }
        }
        assert(chunk(bits, 8, n - 1) =~= last);
        lemma_bits_value_bound(last);
        lemma_pow2_values();
        lemma_bits_of_value(last);
        assert(bytes.last() as nat == bits_value(last));
        assert(bytes_bits(bytes) =~= bits);
    }
}

/// Packing the bits of a byte string gives the string back.
pub proof fn lemma_packed_bytes_of_bits(bytes: Seq<u8>)
    ensures
        packed_bytes(bytes_bits(bytes)) == bytes,
{
    let bits = bytes_bits(bytes);
    lemma_bytes_bits_len(bytes);
    assert forall|k: int| 0 <= k < bytes.len() implies packed_bytes(bits)[k] == bytes[k] by {
        lemma_bytes_bits_byte(bytes, Seq::empty(), k);
        assert(bits + Seq::<bool>::empty() =~= bits);
        assert(chunk(bits, 8, k) =~= bits.subrange(8 * k, 8 * k + 8));
    }
    assert(packed_bytes(bits) =~= bytes);
}

/// Every field read from the first `n` bits is the field read from all of
/// them.
pub proof fn lemma_fields_of_take(bits: Seq<bool>, n: int)
    requires
        0 <= n <= bits.len(),
    ensures
        forall|start: int, width: int|
            0 <= start && 0 <= width && start + width <= n ==> #[trigger] field(
                bits.take(n),
                start,
                width,
            ) == field(bits, start, width),
{
    assert forall|start: int, width: int|
        0 <= start && 0 <= width && start + width <= n implies #[trigger] field(
        bits.take(n),
        start,
        width,
    ) == field(bits, start, width) by {
        lemma_field_take(bits, n, start, width);
    }
}

/// Byte `k` of a byte string keeps its place when whole bytes come before
/// the string and anything comes after it.
pub proof fn lemma_bytes_in_concat(before: Seq<bool>, bytes: Seq<u8>, after: Seq<bool>, k: int)
    requires
        before.len() % 8 == 0,
        0 <= k < bytes.len(),
    ensures
        byte_at(before + bytes_bits(bytes) + after, before.len() / 8 + k) == bytes[k],
        (before + bytes_bits(bytes)).len() == before.len() + 8 * bytes.len(),
{
    lemma_bytes_bits_len(bytes);
    lemma_bytes_bits_byte(bytes, after, k);
    let all = before + bytes_bits(bytes) + after;
    let at = before.len() / 8 + k;
    assert(all.subrange(8 * at, 8 * at + 8) =~= (bytes_bits(bytes) + after).subrange(
        8 * k,
        8 * k + 8,
    ));
}

/// Flipping one bit of a whole number of bytes' worth of bits changes the
/// byte that holds the bit and no other.
pub proof fn lemma_packed_bytes_flip(bits: Seq<bool>, p: int)
    requires
        bits.len() % 8 == 0,
        0 <= p < bits.len(),
    ensures
        packed_bytes(bits.update(p, !bits[p])) == packed_bytes(bits).update(
            p / 8,
            packed_bytes(bits.update(p, !bits[p]))[p / 8],
        ),
        packed_bytes(bits.update(p, !bits[p]))[p / 8] != packed_bytes(bits)[p / 8],
        0 <= p / 8 < packed_bytes(bits).len(),
{
    let flipped = bits.update(p, !bits[p]);
    let a = packed_bytes(bits);
    let b = packed_bytes(flipped);
    let at = p / 8;
    lemma_bits_of_packed_bytes(bits);
    lemma_bits_of_packed_bytes(flipped);
    assert forall|k: int| 0 <= k < a.len() && k != at implies b[k] == a[k] by {
        assert(flipped.subrange(8 * k, 8 * k + 8) =~= bits.subrange(8 * k, 8 * k + 8));
    }
    assert(b =~= a.update(at, b[at]));
    let c1 = bits.subrange(8 * at, 8 * at + 8);
    let c2 = flipped.subrange(8 * at, 8 * at + 8);
    assert(c1[p - 8 * at] != c2[p - 8 * at]);
    lemma_bits_of_value(c1);
    lemma_bits_of_value(c2);
    lemma_bits_value_bound(c1);
    lemma_bits_value_bound(c2);
    lemma_pow2_values();
    if a[at] == b[at] {
        assert(bits_value(c1) == bits_value(c2));
        assert(c1 == c2);
    }
}

/// `bits` with the bits from `from` up to `to` replaced by `middle`.
pub open spec fn spliced(bits: Seq<bool>, from: int, to: int, middle: Seq<bool>) -> Seq<bool> {
    bits.subrange(0, from) + middle + bits.subrange(to, bits.len() as int)
}

/// Flipping a bit outside a replaced stretch commutes with the replacing,
/// and leaves the stretch as it was.
pub proof fn lemma_spliced_flip(bits: Seq<bool>, from: int, to: int, middle: Seq<bool>, p: int)
    requires
        0 <= from <= to <= bits.len(),
        middle.len() == to - from,
        0 <= p < bits.len(),
        !(from <= p < to),
    ensures
        spliced(bits.update(p, !bits[p]), from, to, middle) == spliced(
            bits,
            from,
            to,
            middle,
        ).update(p, !spliced(bits, from, to, middle)[p]),
        bits.update(p, !bits[p]).subrange(from, to) == bits.subrange(from, to),
        spliced(bits, from, to, middle).len() == bits.len(),
{
    let flipped = bits.update(p, !bits[p]);
    let before = spliced(bits, from, to, middle);
    assert(spliced(flipped, from, to, middle) =~= before.update(p, !before[p]));
    assert(flipped.subrange(from, to) =~= bits.subrange(from, to));
}

} // verus!
