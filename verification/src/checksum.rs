//! The Internet checksum: the one's-complement sum of a region read as
//! big-endian 16-bit words.

use vstd::prelude::*;
use vstd::arithmetic::div_mod::{
    lemma_fundamental_div_mod, lemma_mod_multiples_vanish, lemma_small_mod,
};

verus! {

/// The sum of the region's big-endian 16-bit words. A byte at an even
/// position is the high half of its word, a byte at an odd position the low
/// half; an odd trailing byte therefore counts as a word whose low half is
/// zero.
pub open spec fn word_sum(bytes: Seq<u8>) -> nat
    decreases bytes.len(),
{
    if bytes.len() == 0 {
        0
    } else {
        word_sum(bytes.drop_last()) + byte_weight(bytes.len() - 1) * (bytes.last() as nat)
    }
}

/// What one unit of the byte at `position` adds to the sum of words.
pub open spec fn byte_weight(position: int) -> nat {
    if position % 2 == 0 {
        256
    } else {
        1
    }
}

/// Folds the bits above bit 15 back into the low 16 bits until none are
/// left.
pub open spec fn fold_carries(sum: nat) -> nat
    decreases sum,
{
    if sum < 0x10000 {
        sum
    } else {
        fold_carries(sum % 0x10000 + sum / 0x10000)
    }
}

/// The checksum of a region: the complement of its folded sum of words.
pub open spec fn internet_checksum(bytes: Seq<u8>) -> u16 {
    (0xFFFF - fold_carries(word_sum(bytes))) as u16
}

/// Folding is reduction modulo 65535 onto the range 1..=65535, with zero
/// kept apart.
pub proof fn lemma_fold_closed_form(sum: nat)
    ensures
        fold_carries(sum) == (if sum == 0 {
            0
        } else {
            ((sum - 1) % 65535 + 1) as nat
        }),
        fold_carries(sum) <= 0xFFFF,
    decreases sum,
{
    if sum < 0x10000 {
        if sum > 0 {
            lemma_small_mod((sum - 1) as nat, 65535);
        }
    } else {
        let q = sum / 0x10000;
        let r = sum % 0x10000;
        lemma_fundamental_div_mod(sum as int, 0x10000);
        let next = r + q;
        assert(0 < next < sum);
        lemma_fold_closed_form(next);
        assert(sum - 1 == 65535 * q + (next - 1));
        lemma_mod_multiples_vanish(q as int, next - 1, 65535);
    }
}

/// Carries may be folded at any point while the words are summed.
pub proof fn lemma_fold_partial(a: nat, b: nat)
    ensures
        fold_carries(fold_carries(a) + b) == fold_carries(a + b),
{
    lemma_fold_closed_form(a);
    lemma_fold_closed_form(a + b);
    lemma_fold_closed_form(fold_carries(a) + b);
    if a > 0 {
        let fa = fold_carries(a);
        let k = (a - 1) / 65535;
        lemma_fundamental_div_mod(a - 1, 65535);
        assert(a + b - 1 == 65535 * k + (fa + b - 1));
        lemma_mod_multiples_vanish(k as int, fa + b - 1, 65535);
    }
}

/// Two sums that differ by more than nothing and less than 65535 fold to
/// different values.
pub proof fn lemma_fold_separates(a: nat, d: nat)
    requires
        0 < d < 65535,
    ensures
        fold_carries(a) != fold_carries(a + d),
{
    lemma_fold_closed_form(a);
    lemma_fold_closed_form(a + d);
    if a > 0 {
        let x = a - 1;
        let k = x / 65535;
        let r = x % 65535;
        lemma_fundamental_div_mod(x, 65535);
        if r + d < 65535 {
            assert(x + d == 65535 * k + (r + d));
            lemma_mod_multiples_vanish(k, r + d, 65535);
            lemma_small_mod((r + d) as nat, 65535);
        } else {
            assert(x + d == 65535 * (k + 1) + (r + d - 65535));
            lemma_mod_multiples_vanish(k + 1, r + d - 65535, 65535);
            lemma_small_mod((r + d - 65535) as nat, 65535);
        }
    }
}

/// Changing one byte of a region changes the sum of words by the weighted
/// difference.
pub proof fn lemma_word_sum_update(bytes: Seq<u8>, i: int, v: u8)
    requires
        0 <= i < bytes.len(),
    ensures
        word_sum(bytes.update(i, v)) + byte_weight(i) * bytes[i] == word_sum(bytes) + byte_weight(
            i,
        ) * v,
    decreases bytes.len(),
{
    let changed = bytes.update(i, v);
    if i == bytes.len() - 1 {
        assert(changed.drop_last() =~= bytes.drop_last());
    } else {
        lemma_word_sum_update(bytes.drop_last(), i, v);
        assert(changed.drop_last() =~= bytes.drop_last().update(i, v));
    }
}

/// Changing one byte of a region changes its checksum.
pub proof fn lemma_byte_change_detected(bytes: Seq<u8>, i: int, v: u8)
    requires
        0 <= i < bytes.len(),
        v != bytes[i],
    ensures
        internet_checksum(bytes.update(i, v)) != internet_checksum(bytes),
{
    let changed = bytes.update(i, v);
    let w = byte_weight(i);
    lemma_word_sum_update(bytes, i, v);
    lemma_fold_closed_form(word_sum(bytes));
    lemma_fold_closed_form(word_sum(changed));
    if v > bytes[i] {
        let d = (w * (v - bytes[i])) as nat;
        assert(0 < d < 65535) by (nonlinear_arith)
            requires
                d == w * (v - bytes[i]),
                w == 1 || w == 256,
                0 < v - bytes[i] < 256,
        ;
        assert(word_sum(changed) == word_sum(bytes) + d) by (nonlinear_arith)
            requires
                word_sum(changed) + w * bytes[i] == word_sum(bytes) + w * v,
                d == w * (v - bytes[i]),
        ;
        lemma_fold_separates(word_sum(bytes), d);
    } else {
        let d = (w * (bytes[i] - v)) as nat;
        assert(0 < d < 65535) by (nonlinear_arith)
            requires
                d == w * (bytes[i] - v),
                w == 1 || w == 256,
                0 < bytes[i] - v < 256,
        ;
        assert(word_sum(bytes) == word_sum(changed) + d) by (nonlinear_arith)
            requires
                word_sum(changed) + w * bytes[i] == word_sum(bytes) + w * v,
                d == w * (bytes[i] - v),
        ;
        lemma_fold_separates(word_sum(changed), d);
    }
}

/// The checksum of the region `bytes`.
pub fn checksum(bytes: &[u8]) -> (sum: u16)
    ensures
        sum == internet_checksum(bytes@),
{
    let mut acc: u32 = 0;
    let mut i: usize = 0;
    while i < bytes.len()
        invariant
            i <= bytes@.len(),
            acc <= 0xFFFF,
            acc == fold_carries(word_sum(bytes@.take(i as int))),
        decreases bytes@.len() - i,
    {
        let weight: u32 = if i % 2 == 0 { 256 } else { 1 };
        let added: u32 = acc + weight * (bytes[i] as u32);
        proof {
            let before = word_sum(bytes@.take(i as int));
            assert(bytes@.take(i + 1).drop_last() =~= bytes@.take(i as int));
            lemma_fold_partial(before, byte_weight(i as int) * (bytes@[i as int] as nat));
            assert(added < 0x20000);
            assert(fold_carries(added as nat) == fold_carries(
                (added % 0x10000 + added / 0x10000) as nat,
            ) || added < 0x10000);
        }
        acc = if added < 0x10000 { added } else { added % 0x10000 + added / 0x10000 };
        i += 1;
    }
    proof {
        assert(bytes@.take(bytes@.len() as int) =~= bytes@);
    }
    (0xFFFF - acc) as u16
}

} // verus!
