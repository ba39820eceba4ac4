use vstd::prelude::*;

use crate::board::{square_at, square_index, Bitboard, BitboardError, Square};
use vstd::arithmetic::power2::{lemma2_to64, lemma_pow2_unfold, pow2};
use vstd::bits::{lemma_u64_pow2_no_overflow, lemma_u64_shl_is_mul};

verus! {

/// Whether bit `i` of `bb` is set.
pub open spec fn bit_set_at(bb: Bitboard, i: u64) -> bool {
    bb & (1u64 << i) != 0
}

/// `bb` with bit `i` set and every other bit unchanged.
pub open spec fn with_bit_set(i: u64, bb: Bitboard) -> Bitboard {
    bb | (1u64 << i)
}

/// `bb` with bit `i` cleared and every other bit unchanged.
pub open spec fn with_bit_cleared(i: u64, bb: Bitboard) -> Bitboard {
    bb & !(1u64 << i)
}

/// The number of set bits of `bb` (its population count).
pub open spec fn pop_count(bb: u64) -> nat
    decreases bb,
{
    if bb == 0 {
        0
    } else {
        (bb % 2) as nat + pop_count(bb / 2)
    }
}

/// The index of the lowest set bit of `bb`, and 0 for an empty set.
pub open spec fn lowest_index(bb: u64) -> nat
    decreases bb,
{
    if bb == 0 {
        0
    } else if bb % 2 == 1 {
        0
    } else {
        1 + lowest_index(bb / 2)
    }
}

/// The lowest set bit of `bb` in isolation: the power of two at
/// `lowest_index(bb)`, and 0 for an empty set.
pub open spec fn lowest_bit(bb: u64) -> nat {
    if bb == 0 {
        0
    } else {
        pow2(lowest_index(bb))
    }
}

proof fn lemma_or_single_bit(bb: u64, i: u64)
    by (bit_vector)
    requires
        i < 64,
    ensures
        (bb | (1u64 << i)) & (1u64 << i) != 0,
        forall|j: u64|
            j < 64 && j != i ==> (((bb | (1u64 << i)) & (1u64 << j) != 0) == (bb & (1u64 << j)
                != 0)),
{
}

proof fn lemma_andnot_single_bit(bb: u64, i: u64)
    by (bit_vector)
    requires
        i < 64,
    ensures
        (bb & !(1u64 << i)) & (1u64 << i) == 0,
        forall|j: u64|
            j < 64 && j != i ==> (((bb & !(1u64 << i)) & (1u64 << j) != 0) == (bb & (1u64 << j)
                != 0)),
{
}

/// The set with `square` added: bit `square` is set, all other bits unchanged.
pub fn set_bit(square: Square, bitboard: Bitboard) -> (r: Bitboard)
    ensures
        r == with_bit_set(square_index(square), bitboard),
        bit_set_at(r, square_index(square)),
        forall|j: u64|
            j < 64 && j != square_index(square) ==> bit_set_at(r, j) == bit_set_at(bitboard, j),
{
    let i = square.index();
    proof {
        lemma_or_single_bit(bitboard, i);
    }
    bitboard | (1u64 << i)
}

/// The set with `square` removed: bit `square` is cleared, all other bits
/// unchanged.
pub fn clear_bit(square: Square, bitboard: Bitboard) -> (r: Bitboard)
    ensures
        r == with_bit_cleared(square_index(square), bitboard),
        !bit_set_at(r, square_index(square)),
        forall|j: u64|
            j < 64 && j != square_index(square) ==> bit_set_at(r, j) == bit_set_at(bitboard, j),
{
    let i = square.index();
    proof {
        lemma_andnot_single_bit(bitboard, i);
    }
    bitboard & !(1u64 << i)
}

/// Whether `square` is in the set: true exactly when bit `square` is 1.
pub fn is_bit_set(square: Square, bitboard: Bitboard) -> (r: bool)
    ensures
        r == bit_set_at(bitboard, square_index(square)),
{
    let i = square.index();
    bitboard & (1u64 << i) != 0
}

/// Law: a set bit is seen by the query, and a cleared bit is not, whatever the
/// rest of the set holds.
pub proof fn lemma_set_clear_bit_queries(s: Square, b: Bitboard)
    ensures
        bit_set_at(with_bit_set(square_index(s), b), square_index(s)),
        !bit_set_at(with_bit_cleared(square_index(s), b), square_index(s)),
{
    let i = square_index(s);
    assert(i < 64);
    lemma_or_single_bit(b, i);
    lemma_andnot_single_bit(b, i);
}

proof fn lemma_pop_count_bound(bb: u64, n: nat)
    requires
        bb < pow2(n),
    ensures
        pop_count(bb) <= n,
    decreases n,
{
    if bb != 0 {
        lemma2_to64();
        if n == 0 {
            assert(false);
        }
        lemma_pow2_unfold(n);
        assert(bb / 2 < pow2((n - 1) as nat));
        lemma_pop_count_bound(bb / 2, (n - 1) as nat);
    }
}

/// A 64-bit set holds at most 64 squares.
pub proof fn lemma_pop_count_le_64(bb: u64)
    ensures
        pop_count(bb) <= 64,
{
    lemma2_to64();
    lemma_pop_count_bound(bb, 64);
}

pub(crate) proof fn lemma_pop_count_pos(bb: u64)
    requires
        bb != 0,
    ensures
        pop_count(bb) >= 1,
    decreases bb,
{
    if bb % 2 == 0 {
        lemma_pop_count_pos(bb / 2);
    }
}

/// The number of squares in the set.
pub fn bit_count(bitboard: Bitboard) -> (count: usize)
    ensures
        count == pop_count(bitboard),
        count <= 64,
{
    proof {
        lemma_pop_count_le_64(bitboard);
    }
    let mut b = bitboard;
    let mut count: usize = 0;
    while b != 0
        invariant
            count + pop_count(b) == pop_count(bitboard),
            pop_count(bitboard) <= 64,
        decreases b,
    {
        proof {
            if b % 2 == 1 {
                lemma_pop_count_pos(b);
            }
        }
        count = count + (b % 2) as usize;
        b = b / 2;
    }
    count
}

proof fn lemma_lowest_index_bound(bb: u64, n: nat)
    requires
        bb != 0,
        bb < pow2(n),
    ensures
        lowest_index(bb) < n,
    decreases n,
{
    lemma2_to64();
    if n == 0 {
        assert(false);
    }
    if bb % 2 == 0 {
        lemma_pow2_unfold(n);
        assert(bb / 2 < pow2((n - 1) as nat));
        lemma_lowest_index_bound(bb / 2, (n - 1) as nat);
    }
}

proof fn lemma_half_bits(bb: u64)
    by (bit_vector)
    ensures
        forall|j: u64|
            j < 63 ==> ((#[trigger] ((bb / 2) & (1u64 << j)) != 0) == (bb & (1u64 << ((j + 1)
                as u64)) != 0)),
        (bb % 2 == 1) == (bb & 1u64 != 0),
        bb & (1u64 << 0u64) == bb & 1u64,
{
}

proof fn lemma_lowest_index_props(bb: u64)
    requires
        bb != 0,
    ensures
        lowest_index(bb) < 64,
        bit_set_at(bb, lowest_index(bb) as u64),
        forall|j: u64| j < lowest_index(bb) ==> !bit_set_at(bb, j),
        bb & (((1u64 << (lowest_index(bb) as u64)) - 1) as u64) == 0,
    decreases bb,
{
    lemma2_to64();
    lemma_lowest_index_bound(bb, 64);
    lemma_half_bits(bb);
    if bb % 2 == 1 {
        assert(bit_set_at(bb, 0));
        assert(bb & (((1u64 << 0u64) - 1) as u64) == 0) by (bit_vector);
    } else {
        let b2 = bb / 2;
        lemma_lowest_index_props(b2);
        let li = lowest_index(bb);
        let li2 = lowest_index(b2) as u64;
        assert(li == 1 + lowest_index(b2));
        assert(bit_set_at(b2, li2));
        assert(bit_set_at(bb, li as u64));
        assert forall|j: u64| j < li implies !bit_set_at(bb, j) by {
            if j == 0 {
                assert(bb & 1u64 == 0);
            } else {
                assert(((j - 1) as u64) < lowest_index(b2));
                assert(!bit_set_at(b2, (j - 1) as u64));
            }
        }
        assert(bb & (((1u64 << ((li2 + 1) as u64)) - 1) as u64) == 0) by (bit_vector)
            requires
                li2 < 63,
                (bb / 2) & (((1u64 << li2) - 1) as u64) == 0,
                bb % 2 == 0,
        ;
        assert(li as u64 == (li2 + 1) as u64);
    }
}

proof fn lemma_pow2_pop_count(i: nat)
    requires
        i < 64,
    ensures
        pop_count(pow2(i) as u64) == 1,
    decreases i,
{
    lemma_u64_pow2_no_overflow(i);
    if i == 0 {
        lemma2_to64();
        assert(pop_count(0u64) == 0);
        assert(pop_count(1u64) == 1);
    } else {
        lemma_pow2_unfold(i);
        lemma_u64_pow2_no_overflow((i - 1) as nat);
        let p = pow2(i) as u64;
        let h = pow2((i - 1) as nat) as u64;
        assert(p == 2 * h);
        assert(p % 2 == 0 && p / 2 == h);
        lemma_pow2_pop_count((i - 1) as nat);
        assert(pop_count(p) == pop_count(h));
    }
}

/// Law: for a non-empty set, `lowest_index` names the smallest set bit: that
/// bit is set and every lower bit is clear; the isolated lowest bit is the
/// power of two at that index, with exactly one bit set, at that index alone.
pub proof fn lemma_lowest_bit_properties(b: Bitboard)
    requires
        b != 0,
    ensures
        lowest_index(b) < 64,
        bit_set_at(b, lowest_index(b) as u64),
        forall|j: u64| j < lowest_index(b) ==> !bit_set_at(b, j),
        lowest_bit(b) == pow2(lowest_index(b)),
        pop_count(lowest_bit(b) as u64) == 1,
        forall|j: u64|
            j < 64 ==> ((#[trigger] bit_set_at(lowest_bit(b) as u64, j)) == (j == lowest_index(
                b,
            ))),
{
    lemma_lowest_index_props(b);
    lemma_pow2_pop_count(lowest_index(b));
    let li = lowest_index(b) as u64;
    lemma_u64_pow2_no_overflow(li as nat);
    assert(1u64 * pow2(li as nat) == pow2(li as nat)) by (nonlinear_arith);
    lemma_u64_shl_is_mul(1u64, li);
    assert(forall|j: u64|
        j < 64 && li < 64 ==> (((1u64 << li) & (1u64 << j) != 0) == (j == li))) by (bit_vector);
}

/// The index of the lowest set bit of a non-empty set.
pub(crate) fn lowest_index_of(bitboard: u64) -> (i: u64)
    requires
        bitboard != 0,
    ensures
        i == lowest_index(bitboard),
        i < 64,
{
    proof {
        lemma2_to64();
        lemma_lowest_index_bound(bitboard, 64);
    }
    let mut b = bitboard;
    let mut i: u64 = 0;
    while b % 2 == 0
        invariant
            b != 0,
            i + lowest_index(b) == lowest_index(bitboard),
            lowest_index(bitboard) < 64,
        decreases b,
    {
        b = b / 2;
        i = i + 1;
    }
    i
}

/// The square at the lowest set bit of the set, rejecting the empty set.
pub fn square_of(bitboard: Bitboard) -> (r: Result<Square, BitboardError>)
    ensures
        bitboard != 0 ==> (r matches Ok(s) && square_index(s) == lowest_index(bitboard)),
        bitboard == 0 ==> r == Err::<Square, BitboardError>(BitboardError::EmptySet),
{
    if bitboard == 0 {
        return Err(BitboardError::EmptySet);
    }
    let i = lowest_index_of(bitboard);
    Ok(square_at(i))
}

/// The lowest set bit of the set in isolation: all other bits cleared, and 0
/// for the empty set.
pub fn bitboard_square_of(bitboard: Bitboard) -> (r: Bitboard)
    ensures
        r == lowest_bit(bitboard),
{
    if bitboard == 0 {
        return 0;
    }
    let i = lowest_index_of(bitboard);
    proof {
        lemma_u64_pow2_no_overflow(i as nat);
        lemma_u64_shl_is_mul(1u64, i);
    }
    1u64 << i
}

proof fn lemma_clear_lowest(bb: u64, i: u64)
    by (bit_vector)
    requires
        i < 64,
        bb & (1u64 << i) != 0,
        bb & (((1u64 << i) - 1) as u64) == 0,
    ensures
        bb >= 1u64 << i,
        bb & ((bb - 1) as u64) == (bb - (1u64 << i)) as u64,
        forall|j: u64|
            j < 64 ==> (((bb & ((bb - 1) as u64)) & (1u64 << j) != 0) == ((bb & (1u64 << j) != 0)
                && j != i)),
{
}

/// The set with its lowest set bit removed (the step of the bit loop); the
/// empty set stays empty.
pub fn clear_lowest_bit(bitboard: Bitboard) -> (r: Bitboard)
    ensures
        r == bitboard - lowest_bit(bitboard),
        forall|j: u64|
            j < 64 ==> (bit_set_at(r, j) == (bit_set_at(bitboard, j) && j != lowest_index(
                bitboard,
            ))),
{
    if bitboard == 0 {
        proof {
            assert(forall|j: u64| j < 64 ==> 0u64 & (1u64 << j) == 0) by (bit_vector);
        }
        return 0;
    }
    proof {
        lemma_lowest_index_props(bitboard);
        let li = lowest_index(bitboard) as u64;
        lemma_clear_lowest(bitboard, li);
        lemma_u64_pow2_no_overflow(li as nat);
        lemma_u64_shl_is_mul(1u64, li);
    }
    bitboard & (bitboard - 1)
}

/// Law: removing the lowest set bit of a non-empty set shrinks its
/// population count by exactly one, so a loop that clears the lowest bit
/// until the set is empty ends after exactly `bit_count` steps.
pub proof fn lemma_clear_lowest_pop_count(bb: u64)
    requires
        bb != 0,
    ensures
        lowest_bit(bb) <= bb,
        pop_count((bb - lowest_bit(bb)) as u64) == pop_count(bb) - 1,
    decreases bb,
{
    lemma2_to64();
    lemma_pop_count_pos(bb);
    if bb % 2 == 1 {
        assert(lowest_bit(bb) == pow2(0));
        let r = (bb - 1) as u64;
        assert(r % 2 == 0 && r / 2 == bb / 2);
        assert(pop_count(0u64) == 0);
    } else {
        let b2 = bb / 2;
        lemma_clear_lowest_pop_count(b2);
        let li2 = lowest_index(b2);
        assert(lowest_index(bb) == 1 + li2);
        lemma_pow2_unfold((1 + li2) as nat);
        assert(lowest_bit(bb) == 2 * lowest_bit(b2));
        let r = (bb - lowest_bit(bb)) as u64;
        assert(r % 2 == 0 && r / 2 == (b2 - lowest_bit(b2)) as u64);
        assert(pop_count(bb) == pop_count(b2));
    }
}

/// The squares of the set, in ascending index order: the bit loop. Every set
/// bit appears exactly once, lowest first, and the list's length is the
/// set's population count.
pub fn squares_of(bitboard: Bitboard) -> (r: Vec<Square>)
    ensures
        r@.len() == pop_count(bitboard),
        forall|k: int| 0 <= k < r@.len() ==> bit_set_at(bitboard, square_index(#[trigger] r@[k])),
        forall|k1: int, k2: int|
            0 <= k1 < k2 < r@.len() ==> square_index(r@[k1]) < square_index(r@[k2]),
        forall|j: u64|
            j < 64 && bit_set_at(bitboard, j) ==> exists|k: int|
                0 <= k < r@.len() && square_index(#[trigger] r@[k]) == j,
{
    let mut r: Vec<Square> = Vec::new();
    let mut b = bitboard;
    let mut i: u64 = 0;
    proof {
        assert(bitboard >> 0u64 == bitboard) by (bit_vector);
    }
    while i < 64
        invariant
            i <= 64,
            i < 64 ==> b == bitboard >> i,
            i == 64 ==> b == 0,
            r@.len() + pop_count(b) == pop_count(bitboard),
            forall|k: int|
                0 <= k < r@.len() ==> square_index(#[trigger] r@[k]) < i && bit_set_at(
                    bitboard,
                    square_index(r@[k]),
                ),
            forall|k1: int, k2: int|
                0 <= k1 < k2 < r@.len() ==> square_index(r@[k1]) < square_index(r@[k2]),
            forall|j: u64|
                j < i && bit_set_at(bitboard, j) ==> exists|k: int|
                    0 <= k < r@.len() && square_index(#[trigger] r@[k]) == j,
        decreases 64 - i,
    {
        proof {
            assert(((bitboard >> i) % 2 == 1) == (bitboard & (1u64 << i) != 0)) by (bit_vector)
                requires
                    i < 64,
            ;
        }
        let ghost old_r = r@;
        if b % 2 == 1 {
            let s = square_at(i);
            r.push(s);
            proof {
                assert(r@ == old_r.push(s));
                assert(square_index(r@[r@.len() - 1]) == i);
                assert(forall|k: int| 0 <= k < old_r.len() ==> r@[k] == old_r[k]);
            }
        }
        proof {
            if i < 63 {
                assert((bitboard >> i) / 2 == bitboard >> ((i + 1) as u64)) by (bit_vector)
                    requires
                        i < 63,
                ;
            } else {
                assert((bitboard >> 63u64) / 2 == 0) by (bit_vector);
            }
        }
        b = b / 2;
        i = i + 1;
        proof {
            assert forall|j: u64| j < i && bit_set_at(bitboard, j) implies exists|k: int|
                0 <= k < r@.len() && square_index(#[trigger] r@[k]) == j by {
                if j < i - 1 {
                    assert(exists|k: int| 0 <= k < old_r.len() && square_index(#[trigger] old_r[k]) == j);
                    let k = choose|k: int| 0 <= k < old_r.len() && square_index(#[trigger] old_r[k]) == j;
                    assert(r@[k] == old_r[k]);
                } else {
                    assert(square_index(r@[r@.len() - 1]) == j);
                }
            }
        }
    }
    r
}

} // verus!
