//! Counting the one bits of a 64-bit word: the meaning of the count, and the
//! partial sums at widths 2, 4, 8 and 16 that the deck's bit scan walks down.

use vstd::prelude::*;

verus! {

/// Every other bit: the low bit of each field of width 2.
pub const P: u64 = 0x5555555555555555;

/// The low two bits of each field of width 4.
pub const Q: u64 = 0x3333333333333333;

/// The low four bits of each field of width 8.
pub const R: u64 = 0x0f0f0f0f0f0f0f0f;

/// The low eight bits of each field of width 16.
pub const S: u64 = 0x00ff00ff00ff00ff;

/// Bit `i` of `v`, as 0 or 1; 0 from bit 64 on.
pub open spec fn bit(v: u64, i: nat) -> nat {
    if i < 64 {
        ((v >> (i as u64)) & 1) as nat
    } else {
        0
    }
}

/// The number of one bits of `v` at the places from `k` upwards.
pub open spec fn ones_from(v: u64, k: nat) -> nat
    decreases 64 - k,
{
    if k >= 64 {
        0
    } else {
        bit(v, k) + ones_from(v, k + 1)
    }
}

/// The number of one bits in the binary representation of `v`.
pub open spec fn popcount(v: u64) -> nat {
    ones_from(v, 0)
}

/// The number of one bits of `v` at the `h` places from `lo` upwards.
pub open spec fn ones_in(v: u64, lo: nat, h: nat) -> int {
    ones_from(v, lo) - ones_from(v, lo + h)
}

/// `u64::count_ones` of std: the number of ones in the binary representation
/// of the word, which is what its documentation says and all it says.
pub assume_specification[ u64::count_ones ](v: u64) -> (n: u32)
    ensures
        n == popcount(v),
        n <= 64,
;

/// Sums of neighbouring bits, in fields of width 2.
pub open spec fn sums2(v: u64) -> u64 {
    ((v & P) + ((v >> 1) & P)) as u64
}

/// Sums of four neighbouring bits, in fields of width 4.
pub open spec fn sums4(v: u64) -> u64 {
    ((sums2(v) & Q) + ((sums2(v) >> 2) & Q)) as u64
}

/// Sums of eight neighbouring bits, in fields of width 8.
pub open spec fn sums8(v: u64) -> u64 {
    ((sums4(v) & R) + ((sums4(v) >> 4) & R)) as u64
}

/// Sums of sixteen neighbouring bits, in fields of width 16.
pub open spec fn sums16(v: u64) -> u64 {
    ((sums8(v) & S) + ((sums8(v) >> 8) & S)) as u64
}

/// A bit is 0 or 1.
pub proof fn lemma_bit_bound(v: u64, i: nat)
    ensures
        bit(v, i) <= 1,
{
    if i < 64 {
        let k = i as u64;
        assert((v >> k) & 1 <= 1) by (bit_vector);
    }
}

/// The count from a place is the bit at the place and the count from the
/// next place.
pub proof fn lemma_ones_from_step(v: u64, k: nat)
    requires
        k < 64,
    ensures
        ones_from(v, k) == bit(v, k) + ones_from(v, k + 1),
        ones_in(v, k, 1) == bit(v, k),
{
}

/// The count from a higher place is no larger, and at most the number of
/// places that are left.
pub proof fn lemma_ones_from_monotone(v: u64, k1: nat, k2: nat)
    requires
        k1 <= k2,
    ensures
        ones_from(v, k2) <= ones_from(v, k1),
        ones_from(v, k1) <= 64,
        k1 <= 64 ==> ones_from(v, k1) <= 64 - k1,
    decreases 64 - k1,
{
    if k1 >= 64 {
    } else if k1 == k2 {
        lemma_bit_bound(v, k1);
        lemma_ones_from_monotone(v, k1 + 1, k1 + 1);
    } else {
        lemma_bit_bound(v, k1);
        lemma_ones_from_monotone(v, k1 + 1, k2);
    }
}

/// The four fields of `sums16` together count all 64 bits.
pub proof fn lemma_count64(v: u64)
    ensures
        popcount(v) == ((sums16(v) >> 0) & 0xff) + ((sums16(v) >> 16) & 0xff) + ((sums16(v) >> 32)
            & 0xff) + ((sums16(v) >> 48) & 0xff),
        popcount(v) <= 64,
{
    lemma_count16(v, 0);
    lemma_count16(v, 16);
    lemma_count16(v, 32);
    lemma_count16(v, 48);
    lemma_ones_from_monotone(v, 0, 0);
}

proof fn lemma_fields_of_nonzero(v: u64)
    by (bit_vector)
    ensures
        (v == 0) == (((sums16(v) >> 0) & 0xff) + ((sums16(v) >> 16) & 0xff) + ((sums16(v) >> 32)
            & 0xff) + ((sums16(v) >> 48) & 0xff) == 0),
{
}

/// Exactly the zero word has no one bit.
pub proof fn lemma_popcount_zero(v: u64)
    ensures
        popcount(v) == 0 <==> v == 0,
{
    lemma_count64(v);
    lemma_fields_of_nonzero(v);
}

/// At a one bit the count from that place is at least one, and one more than
/// the count from the next place.
pub proof fn lemma_ones_at_set_bit(v: u64, k: nat)
    requires
        k < 64,
        bit(v, k) == 1,
    ensures
        ones_from(v, k) == 1 + ones_from(v, k + 1),
        ones_from(v, k) >= 1,
{
}

/// A field of width 2 of `sums2` is the sum of the two bits under it.
pub proof fn lemma_field2(v: u64, lo: u64)
    by (bit_vector)
    requires
        lo % 2 == 0,
        lo <= 62,
    ensures
        (sums2(v) >> lo) & 3 == ((v >> lo) & 1) + ((v >> ((lo + 1) as u64)) & 1),
{
}

/// A field of width 4 of `sums4` is the sum of the two fields of `sums2`
/// under it.
pub proof fn lemma_field4(v: u64, lo: u64)
    by (bit_vector)
    requires
        lo % 4 == 0,
        lo <= 60,
    ensures
        (sums4(v) >> lo) & 7 == ((sums2(v) >> lo) & 3) + ((sums2(v) >> ((lo + 2) as u64)) & 3),
{
}

/// A field of width 8 of `sums8` is the sum of the two fields of `sums4`
/// under it.
pub proof fn lemma_field8(v: u64, lo: u64)
    by (bit_vector)
    requires
        lo % 8 == 0,
        lo <= 56,
    ensures
        (sums8(v) >> lo) & 0xf == ((sums4(v) >> lo) & 7) + ((sums4(v) >> ((lo + 4) as u64)) & 7),
{
}

/// A field of width 16 of `sums16` is the sum of the two fields of `sums8`
/// under it.
pub proof fn lemma_field16(v: u64, lo: u64)
    by (bit_vector)
    requires
        lo % 16 == 0,
        lo <= 48,
    ensures
        (sums16(v) >> lo) & 0xff == ((sums8(v) >> lo) & 0xf) + ((sums8(v) >> ((lo + 8) as u64))
            & 0xf),
{
}

/// The sum of the two upper fields of `sums16`, cut to 16 bits, is the sum
/// of the two fields.
pub proof fn lemma_field32(v: u64)
    by (bit_vector)
    ensures
        (((sums16(v) >> 32) + (sums16(v) >> 48)) as u64) & 0xffff == ((sums16(v) >> 32) & 0xff) + ((
        sums16(v) >> 48) & 0xff),
        (sums16(v) >> 32) + (sums16(v) >> 48) <= 0xffff_ffff_ffff_ffff,
{
}

/// None of the partial sums leaves the range of the word.
pub proof fn lemma_sums_fit(v: u64)
    by (bit_vector)
    ensures
        (v & P) + ((v >> 1) & P) <= 0xffff_ffff_ffff_ffff,
        (sums2(v) & Q) + ((sums2(v) >> 2) & Q) <= 0xffff_ffff_ffff_ffff,
        (sums4(v) & R) + ((sums4(v) >> 4) & R) <= 0xffff_ffff_ffff_ffff,
        (sums8(v) & S) + ((sums8(v) >> 8) & S) <= 0xffff_ffff_ffff_ffff,
{
}

/// A field of width 2 of `sums2` counts the two bits under it.
pub proof fn lemma_count2(v: u64, lo: u64)
    requires
        lo % 2 == 0,
        lo <= 62,
    ensures
        (sums2(v) >> lo) & 3 == ones_in(v, lo as nat, 2),
{
    lemma_field2(v, lo);
    lemma_ones_from_step(v, lo as nat);
    lemma_ones_from_step(v, (lo + 1) as nat);
}

/// A field of width 4 of `sums4` counts the four bits under it.
pub proof fn lemma_count4(v: u64, lo: u64)
    requires
        lo % 4 == 0,
        lo <= 60,
    ensures
        (sums4(v) >> lo) & 7 == ones_in(v, lo as nat, 4),
{
    lemma_field4(v, lo);
    lemma_count2(v, lo);
    lemma_count2(v, (lo + 2) as u64);
}

/// A field of width 8 of `sums8` counts the eight bits under it.
pub proof fn lemma_count8(v: u64, lo: u64)
    requires
        lo % 8 == 0,
        lo <= 56,
    ensures
        (sums8(v) >> lo) & 0xf == ones_in(v, lo as nat, 8),
{
    lemma_field8(v, lo);
    lemma_count4(v, lo);
    lemma_count4(v, (lo + 4) as u64);
}

/// A field of width 16 of `sums16` counts the sixteen bits under it.
pub proof fn lemma_count16(v: u64, lo: u64)
    requires
        lo % 16 == 0,
        lo <= 48,
    ensures
        (sums16(v) >> lo) & 0xff == ones_in(v, lo as nat, 16),
{
    lemma_field16(v, lo);
    lemma_count8(v, lo);
    lemma_count8(v, (lo + 8) as u64);
}

/// The two upper fields of `sums16` together count the upper 32 bits.
pub proof fn lemma_count32(v: u64)
    ensures
        (((sums16(v) >> 32) + (sums16(v) >> 48)) as u64) & 0xffff == ones_in(v, 32, 32),
        ones_from(v, 64) == 0,
{
    lemma_field32(v);
    lemma_count16(v, 32);
    lemma_count16(v, 48);
}

} // verus!
