//! Bitboard arithmetic for a chess engine: a 64-bit-integer representation of
//! board subsets together with verified primitives for querying, mutating and
//! re-indexing those sets, including the occupancy compression that underlies
//! sliding-piece attack lookup.

mod bits;
mod board;
mod hex;
mod masks;
mod occupancy;

pub use bits::bit_count;
pub use bits::bit_set_at;
pub use bits::bitboard_square_of;
pub use bits::clear_bit;
pub use bits::clear_lowest_bit;
pub use bits::is_bit_set;
pub use bits::lemma_clear_lowest_pop_count;
pub use bits::lemma_lowest_bit_properties;
pub use bits::lemma_pop_count_le_64;
pub use bits::lemma_set_clear_bit_queries;
pub use bits::lowest_bit;
pub use bits::lowest_index;
pub use bits::pop_count;
pub use bits::set_bit;
pub use bits::square_of;
pub use bits::squares_of;
pub use bits::with_bit_cleared;
pub use bits::with_bit_set;
pub use board::lemma_rank_file_roundtrip;
pub use board::lemma_square_index_injective;
pub use board::rank_and_file_to_square;
pub use board::square_file;
pub use board::square_from_index;
pub use board::square_index;
pub use board::square_rank;
pub use board::Bitboard;
pub use board::BitboardError;
pub use board::Color;
pub use board::Piece;
pub use board::Square;
pub use hex::bitboard_from_hex;
pub use hex::hex_digit_value;
pub use hex::hex_string_value;
pub use hex::is_hex_digit;
pub use hex::strip_hex_prefix;
pub use masks::get_promotion_rank;
pub use masks::lemma_file_mask_bits;
pub use masks::promotion_rank;
pub use masks::BLACK_PROMOTION_RANK;
pub use masks::EMPTY_BOARD;
pub use masks::NOT_AB_FILE;
pub use masks::NOT_A_FILE;
pub use masks::NOT_GH_FILE;
pub use masks::NOT_H_FILE;
pub use masks::WHITE_PROMOTION_RANK;
pub use occupancy::create_occupancy_from_mask;
pub use occupancy::extract_mask;
pub use occupancy::gather_bits;
pub use occupancy::lemma_gather_bound;
pub use occupancy::lemma_occupancy_masking;
pub use occupancy::lemma_occupancy_roundtrip;
pub use occupancy::lemma_scatter_le_mask;
pub use occupancy::scatter_bits;
