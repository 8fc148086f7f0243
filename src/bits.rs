//! Bits of a byte, and a byte assembled from sampled bits.
use vstd::prelude::*;

verus! {

/// Bit `k` of `b` (bit 0 is the least significant).
pub open spec fn bit_of(b: u8, k: u8) -> bool {
    (b >> k) & 1u8 == 1u8
}

/// The accumulator `acc` shifted left by one, with `v` as its new lowest bit.
pub open spec fn shift_in(acc: u8, v: bool) -> u8 {
    (acc << 1u8) | (if v { 1u8 } else { 0u8 })
}

/// The byte made of `samples` shifted in one after another from zero, so that
/// the first of eight samples ends up as the most significant bit.
pub open spec fn received(samples: Seq<bool>) -> u8
    decreases samples.len(),
{
    if samples.len() == 0 {
        0
    } else {
        shift_in(received(samples.drop_last()), samples.last())
    }
}

/// The accumulator `acc` shifted right by one, with `v` as its new top bit.
pub open spec fn shift_in_top(acc: u8, v: bool) -> u8 {
    (acc >> 1u8) | (if v { 0x80u8 } else { 0u8 })
}

/// The byte made of `samples` shifted in from the top one after another, so
/// that the first of eight samples ends up as the least significant bit.
pub open spec fn received_lsb_first(samples: Seq<bool>) -> u8
    decreases samples.len(),
{
    if samples.len() == 0 {
        0
    } else {
        shift_in_top(received_lsb_first(samples.drop_last()), samples.last())
    }
}

/// Reads bit `k` of `b`.
pub fn test_bit(b: u8, k: u8) -> (r: bool)
    requires
        k < 8,
    ensures
        r == bit_of(b, k),
{
    (b >> k) & 1 == 1
}

/// Shifts `v` into `acc` from the right.
pub fn push_bit(acc: u8, v: bool) -> (r: u8)
    ensures
        r == shift_in(acc, v),
{
    (acc << 1) | (if v { 1u8 } else { 0u8 })
}

/// Shifts `v` into `acc` from the top.
pub fn push_bit_top(acc: u8, v: bool) -> (r: u8)
    ensures
        r == shift_in_top(acc, v),
{
    (acc >> 1) | (if v { 0x80u8 } else { 0u8 })
}

/// Eight samples assembled one after another.
pub proof fn lemma_received_eight(s: Seq<bool>)
    requires
        s.len() == 8,
    ensures
        received(s) == shift_in(shift_in(shift_in(shift_in(shift_in(shift_in(shift_in(
            shift_in(0, s[0]), s[1]), s[2]), s[3]), s[4]), s[5]), s[6]), s[7]),
{
    reveal_with_fuel(received, 9);
    assert(s.take(1).drop_last() =~= Seq::<bool>::empty());
    assert(s.drop_last() =~= s.take(7));
    assert(s.take(7).drop_last() =~= s.take(6));
    assert(s.take(6).drop_last() =~= s.take(5));
    assert(s.take(5).drop_last() =~= s.take(4));
    assert(s.take(4).drop_last() =~= s.take(3));
    assert(s.take(3).drop_last() =~= s.take(2));
    assert(s.take(2).drop_last() =~= s.take(1));
}

/// Shifting in bit `k` of `b`.
pub proof fn lemma_shift_bit(acc: u8, b: u8, k: u8)
    ensures
        shift_in(acc, bit_of(b, k)) == (acc << 1u8) | ((b >> k) & 1u8),
{
    assert((if (b >> k) & 1u8 == 1u8 {
        1u8
    } else {
        0u8
    }) == (b >> k) & 1u8) by (bit_vector);
}

/// Eight bits of `b` taken most significant first, shifted in, give `b`.
pub proof fn lemma_msb_first(b: u8)
    ensures
        received(Seq::new(8, |k: int| bit_of(b, (7 - k) as u8))) == b,
{
    let s = Seq::new(8, |k: int| bit_of(b, (7 - k) as u8));
    lemma_received_eight(s);
    lemma_shift_bit(0, b, 7);
    lemma_shift_bit((0u8 << 1u8) | ((b >> 7u8) & 1u8), b, 6);
    let a1 = (0u8 << 1u8) | ((b >> 7u8) & 1u8);
    let a2 = (a1 << 1u8) | ((b >> 6u8) & 1u8);
    lemma_shift_bit(a2, b, 5);
    let a3 = (a2 << 1u8) | ((b >> 5u8) & 1u8);
    lemma_shift_bit(a3, b, 4);
    let a4 = (a3 << 1u8) | ((b >> 4u8) & 1u8);
    lemma_shift_bit(a4, b, 3);
    let a5 = (a4 << 1u8) | ((b >> 3u8) & 1u8);
    lemma_shift_bit(a5, b, 2);
    let a6 = (a5 << 1u8) | ((b >> 2u8) & 1u8);
    lemma_shift_bit(a6, b, 1);
    let a7 = (a6 << 1u8) | ((b >> 1u8) & 1u8);
    lemma_shift_bit(a7, b, 0);
    let a8 = (a7 << 1u8) | ((b >> 0u8) & 1u8);
    assert(a8 == b) by (bit_vector)
        requires
            a1 == (0u8 << 1u8) | ((b >> 7u8) & 1u8),
            a2 == (a1 << 1u8) | ((b >> 6u8) & 1u8),
            a3 == (a2 << 1u8) | ((b >> 5u8) & 1u8),
            a4 == (a3 << 1u8) | ((b >> 4u8) & 1u8),
            a5 == (a4 << 1u8) | ((b >> 3u8) & 1u8),
            a6 == (a5 << 1u8) | ((b >> 2u8) & 1u8),
            a7 == (a6 << 1u8) | ((b >> 1u8) & 1u8),
            a8 == (a7 << 1u8) | ((b >> 0u8) & 1u8),
    ;
}

/// Eight bits of `b` taken least significant first, shifted in from the
/// top, give `b`.
pub proof fn lemma_lsb_first(b: u8)
    ensures
        received_lsb_first(Seq::new(8, |k: int| bit_of(b, k as u8))) == b,
{
    let s = Seq::new(8, |k: int| bit_of(b, k as u8));
    reveal_with_fuel(received_lsb_first, 9);
    assert(s.take(1).drop_last() =~= Seq::<bool>::empty());
    assert(s.drop_last() =~= s.take(7));
    assert(s.take(7).drop_last() =~= s.take(6));
    assert(s.take(6).drop_last() =~= s.take(5));
    assert(s.take(5).drop_last() =~= s.take(4));
    assert(s.take(4).drop_last() =~= s.take(3));
    assert(s.take(3).drop_last() =~= s.take(2));
    assert(s.take(2).drop_last() =~= s.take(1));
    assert forall|k: u8| k < 8 implies (if #[trigger] bit_of(b, k) {
        0x80u8
    } else {
        0u8
    }) == ((b >> k) & 1u8) << 7u8 by {
        assert((if (b >> k) & 1u8 == 1u8 {
            0x80u8
        } else {
            0u8
        }) == ((b >> k) & 1u8) << 7u8) by (bit_vector);
    }
    let a1 = (0u8 >> 1u8) | (((b >> 0u8) & 1u8) << 7u8);
    let a2 = (a1 >> 1u8) | (((b >> 1u8) & 1u8) << 7u8);
    let a3 = (a2 >> 1u8) | (((b >> 2u8) & 1u8) << 7u8);
    let a4 = (a3 >> 1u8) | (((b >> 3u8) & 1u8) << 7u8);
    let a5 = (a4 >> 1u8) | (((b >> 4u8) & 1u8) << 7u8);
    let a6 = (a5 >> 1u8) | (((b >> 5u8) & 1u8) << 7u8);
    let a7 = (a6 >> 1u8) | (((b >> 6u8) & 1u8) << 7u8);
    let a8 = (a7 >> 1u8) | (((b >> 7u8) & 1u8) << 7u8);
    assert(a8 == b) by (bit_vector)
        requires
            a1 == (0u8 >> 1u8) | (((b >> 0u8) & 1u8) << 7u8),
            a2 == (a1 >> 1u8) | (((b >> 1u8) & 1u8) << 7u8),
            a3 == (a2 >> 1u8) | (((b >> 2u8) & 1u8) << 7u8),
            a4 == (a3 >> 1u8) | (((b >> 3u8) & 1u8) << 7u8),
            a5 == (a4 >> 1u8) | (((b >> 4u8) & 1u8) << 7u8),
            a6 == (a5 >> 1u8) | (((b >> 5u8) & 1u8) << 7u8),
            a7 == (a6 >> 1u8) | (((b >> 6u8) & 1u8) << 7u8),
            a8 == (a7 >> 1u8) | (((b >> 7u8) & 1u8) << 7u8),
    ;
}

} // verus!
