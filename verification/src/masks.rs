use vstd::prelude::*;

use crate::bits::{bit_set_at, pop_count};
use crate::board::{Bitboard, Color};

verus! {

/// The empty board set.
pub const EMPTY_BOARD: Bitboard = 0;

/// Every square except the a-file.
pub const NOT_A_FILE: Bitboard = 0xfefe_fefe_fefe_fefe;

/// Every square except the a- and b-files.
pub const NOT_AB_FILE: Bitboard = 0xfcfc_fcfc_fcfc_fcfc;

/// Every square except the h-file.
pub const NOT_H_FILE: Bitboard = 0x7f7f_7f7f_7f7f_7f7f;

/// Every square except the g- and h-files.
pub const NOT_GH_FILE: Bitboard = 0x3f3f_3f3f_3f3f_3f3f;

/// The promotion rank of White: the eighth rank.
pub const WHITE_PROMOTION_RANK: Bitboard = 0xff00_0000_0000_0000;

/// The promotion rank of Black: the first rank.
pub const BLACK_PROMOTION_RANK: Bitboard = 0x0000_0000_0000_00ff;

/// The rank a pawn of the given color promotes on: rank 7 (the eighth rank)
/// for White, rank 0 (the first rank) for Black.
pub open spec fn promotion_rank(color: Color) -> u64 {
    if color == Color::White {
        7
    } else {
        0
    }
}

/// The board set of the promotion rank of a color: the eighth rank for White,
/// the first rank for Black; exactly the eight squares of that rank.
pub fn get_promotion_rank(color: Color) -> (r: Bitboard)
    ensures
        color == Color::White ==> r == WHITE_PROMOTION_RANK,
        color == Color::Black ==> r == BLACK_PROMOTION_RANK,
        forall|i: u64| i < 64 ==> (bit_set_at(r, i) == (i / 8 == promotion_rank(color))),
{
    proof {
        assert(forall|i: u64|
            i < 64 ==> ((0xff00_0000_0000_0000u64 & (1u64 << i) != 0) == (i / 8 == 7)))
            by (bit_vector);
        assert(forall|i: u64|
            i < 64 ==> ((0x0000_0000_0000_00ffu64 & (1u64 << i) != 0) == (i / 8 == 0)))
            by (bit_vector);
    }
    match color {
        Color::White => WHITE_PROMOTION_RANK,
        Color::Black => BLACK_PROMOTION_RANK,
    }
}

#[verifier::rlimit(100)]
proof fn lemma_pop_count_not_a()
    ensures
        pop_count(NOT_A_FILE) == 56,
{
    reveal_with_fuel(pop_count, 66);
    assert(pop_count(0xfefe_fefe_fefe_fefeu64) == 56);
}

#[verifier::rlimit(100)]
proof fn lemma_pop_count_not_ab()
    ensures
        pop_count(NOT_AB_FILE) == 48,
{
    reveal_with_fuel(pop_count, 66);
    assert(pop_count(0xfcfc_fcfc_fcfc_fcfcu64) == 48);
}

#[verifier::rlimit(100)]
proof fn lemma_pop_count_not_h()
    ensures
        pop_count(NOT_H_FILE) == 56,
{
    reveal_with_fuel(pop_count, 66);
    assert(pop_count(0x7f7f_7f7f_7f7f_7f7fu64) == 56);
}

#[verifier::rlimit(100)]
proof fn lemma_pop_count_not_gh()
    ensures
        pop_count(NOT_GH_FILE) == 48,
{
    reveal_with_fuel(pop_count, 66);
    assert(pop_count(0x3f3f_3f3f_3f3f_3f3fu64) == 48);
}

/// Law: each file mask excludes exactly the advertised files on all eight
/// ranks. A bit is set in `NOT_A_FILE` exactly when its square is off the
/// a-file, and so on for the other masks; the popcounts follow: 56 squares
/// when one file is excluded, 48 when two are.
pub proof fn lemma_file_mask_bits()
    ensures
        forall|i: u64| i < 64 ==> (bit_set_at(NOT_A_FILE, i) == (i % 8 != 0)),
        forall|i: u64| i < 64 ==> (bit_set_at(NOT_AB_FILE, i) == (i % 8 >= 2)),
        forall|i: u64| i < 64 ==> (bit_set_at(NOT_H_FILE, i) == (i % 8 != 7)),
        forall|i: u64| i < 64 ==> (bit_set_at(NOT_GH_FILE, i) == (i % 8 <= 5)),
        pop_count(NOT_A_FILE) == 56,
        pop_count(NOT_AB_FILE) == 48,
        pop_count(NOT_H_FILE) == 56,
        pop_count(NOT_GH_FILE) == 48,
{
    assert(forall|i: u64|
        i < 64 ==> ((0xfefe_fefe_fefe_fefeu64 & (1u64 << i) != 0) == (i % 8 != 0)))
        by (bit_vector);
    assert(forall|i: u64|
        i < 64 ==> ((0xfcfc_fcfc_fcfc_fcfcu64 & (1u64 << i) != 0) == (i % 8 >= 2)))
        by (bit_vector);
    assert(forall|i: u64|
        i < 64 ==> ((0x7f7f_7f7f_7f7f_7f7fu64 & (1u64 << i) != 0) == (i % 8 != 7)))
        by (bit_vector);
    assert(forall|i: u64|
        i < 64 ==> ((0x3f3f_3f3f_3f3f_3f3fu64 & (1u64 << i) != 0) == (i % 8 <= 5)))
        by (bit_vector);
    lemma_pop_count_not_a();
    lemma_pop_count_not_ab();
    lemma_pop_count_not_h();
    lemma_pop_count_not_gh();
}

} // verus!
