//! Bitboards: a `u64` whose bit `i` marks square `i` (`i = rank * 8 + file`).

use vstd::prelude::*;

verus! {

/// Square `i` is marked in the bitboard `m`.
pub open spec fn bit(m: u64, i: int) -> bool {
    0 <= i < 64 && (m >> (i as u64)) & 1u64 == 1u64
}

/// The bitboard that marks square `i` alone.
pub open spec fn single(i: int) -> u64 {
    1u64 << (i as u64)
}

pub broadcast proof fn lemma_bit_or(a: u64, b: u64, i: int)
    ensures
        #[trigger] bit(a | b, i) == (bit(a, i) || bit(b, i)),
{
    if 0 <= i < 64 {
        let k = i as u64;
        assert(((a | b) >> k) & 1u64 == 1u64 <==> ((a >> k) & 1u64 == 1u64 || (b >> k) & 1u64
            == 1u64)) by (bit_vector)
            requires
                k < 64,
        ;
    }
}

pub broadcast proof fn lemma_bit_and(a: u64, b: u64, i: int)
    ensures
        #[trigger] bit(a & b, i) == (bit(a, i) && bit(b, i)),
{
    if 0 <= i < 64 {
        let k = i as u64;
        assert(((a & b) >> k) & 1u64 == 1u64 <==> ((a >> k) & 1u64 == 1u64 && (b >> k) & 1u64
            == 1u64)) by (bit_vector)
            requires
                k < 64,
        ;
    }
}

pub broadcast proof fn lemma_bit_not(a: u64, i: int)
    ensures
        #[trigger] bit(!a, i) == (0 <= i < 64 && !bit(a, i)),
{
    if 0 <= i < 64 {
        let k = i as u64;
        assert(((!a) >> k) & 1u64 == 1u64 <==> !((a >> k) & 1u64 == 1u64)) by (bit_vector)
            requires
                k < 64,
        ;
    }
}

pub broadcast proof fn lemma_bit_zero(i: int)
    ensures
        !#[trigger] bit(0u64, i),
{
    if 0 <= i < 64 {
        let k = i as u64;
        assert((0u64 >> k) & 1u64 == 0u64) by (bit_vector);
    }
}

pub broadcast proof fn lemma_bit_single(j: int, i: int)
    requires
        0 <= j < 64,
    ensures
        #[trigger] bit(single(j), i) == (i == j),
{
    if 0 <= i < 64 {
        let k = i as u64;
        let l = j as u64;
        assert(((1u64 << l) >> k) & 1u64 == 1u64 <==> k == l) by (bit_vector)
            requires
                k < 64,
                l < 64,
        ;
    }
}

/// A marked square makes the bitboard non-zero.
pub broadcast proof fn lemma_bit_nonzero(m: u64, i: int)
    requires
        #[trigger] bit(m, i),
    ensures
        m != 0,
{
    let k = i as u64;
    assert((m >> k) & 1u64 == 1u64 ==> m != 0) by (bit_vector);
}

proof fn lemma_shift_clear_step(m: u64, k: u64)
    by (bit_vector)
    requires
        k < 63,
        m >> ((k + 1) as u64) == 0,
        (m >> k) & 1u64 != 1u64,
    ensures
        m >> k == 0,
{
}

proof fn lemma_shift_clear_from(m: u64, k: int)
    requires
        0 <= k < 64,
        forall|i: int| k <= i < 64 ==> !bit(m, i),
    ensures
        m >> (k as u64) == 0,
    decreases 64 - k,
{
    if k == 63 {
        assert(!bit(m, 63));
        assert((m >> 63u64) & 1u64 != 1u64 ==> m >> 63u64 == 0) by (bit_vector);
    } else {
        lemma_shift_clear_from(m, k + 1);
        assert(!bit(m, k));
        lemma_shift_clear_step(m, k as u64);
    }
}

/// A bitboard with no marked square is zero.
pub proof fn lemma_no_bits_zero(m: u64)
    requires
        forall|i: int| !bit(m, i),
    ensures
        m == 0,
{
    lemma_shift_clear_from(m, 0);
    assert(m >> 0u64 == m) by (bit_vector);
}

/// A bitboard is non-zero exactly when some square is marked in it.
pub proof fn lemma_nonzero_iff(m: u64)
    ensures
        (m != 0) == exists|i: int| bit(m, i),
{
    if m != 0 {
        if !exists|i: int| bit(m, i) {
            lemma_no_bits_zero(m);
        }
    } else {
        if exists|i: int| bit(m, i) {
            let i = choose|i: int| bit(m, i);
            lemma_bit_nonzero(m, i);
        }
    }
}

/// Two bitboards that mark the same squares are equal.
pub proof fn lemma_bits_ext(a: u64, b: u64)
    requires
        forall|i: int| bit(a, i) == bit(b, i),
    ensures
        a == b,
{
    assert forall|i: int| !bit(a ^ b, i) by {
        assert(bit(a, i) == bit(b, i));
        if 0 <= i < 64 {
            let k = i as u64;
            assert(((a ^ b) >> k) & 1u64 == 1u64 <==> ((a >> k) & 1u64 == 1u64) != ((b >> k) & 1u64
                == 1u64)) by (bit_vector)
                requires
                    k < 64,
            ;
        }
    }
    lemma_no_bits_zero(a ^ b);
    assert(a ^ b == 0 ==> a == b) by (bit_vector);
}

/// A bitboard meets the single-square board of `k` exactly when `k` is marked in it.
pub proof fn lemma_and_single(m: u64, k: int)
    requires
        0 <= k < 64,
    ensures
        (m & single(k) != 0) == bit(m, k),
{
    broadcast use lemma_bit_and, lemma_bit_single;
    lemma_nonzero_iff(m & single(k));
    if bit(m, k) {
        assert(bit(m & single(k), k));
    }
}

pub broadcast proof fn lemma_or_zero(a: u64)
    ensures
        #[trigger] (a | 0u64) == a,
{
    assert(a | 0u64 == a) by (bit_vector);
}

pub broadcast group group_bits {
    lemma_or_zero,
    lemma_bit_or,
    lemma_bit_and,
    lemma_bit_not,
    lemma_bit_zero,
    lemma_bit_single,
    lemma_bit_nonzero,
}

} // verus!
