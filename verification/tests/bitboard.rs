use raccoon::bit_count;
use raccoon::bitboard_from_hex;
use raccoon::bitboard_square_of;
use raccoon::clear_bit;
use raccoon::clear_lowest_bit;
use raccoon::create_occupancy_from_mask;
use raccoon::extract_mask;
use raccoon::get_promotion_rank;
use raccoon::is_bit_set;
use raccoon::rank_and_file_to_square;
use raccoon::set_bit;
use raccoon::square_from_index;
use raccoon::square_of;
use raccoon::squares_of;
use raccoon::Bitboard;
use raccoon::BitboardError;
use raccoon::Color;
use raccoon::Square;
use raccoon::BLACK_PROMOTION_RANK;
use raccoon::EMPTY_BOARD;
use raccoon::NOT_AB_FILE;
use raccoon::NOT_A_FILE;
use raccoon::NOT_GH_FILE;
use raccoon::NOT_H_FILE;
use raccoon::WHITE_PROMOTION_RANK;

#[test]
fn test_bitboard() {
    let bitboard = set_bit(Square::A1, 0);
    assert_eq!(bitboard, 1);
}

#[test]
fn test_square_of() {
    {
        let bitboard: Bitboard = 1;
        assert_eq!(square_of(bitboard).unwrap(), Square::A1);
        assert_eq!(bitboard_square_of(bitboard), bitboard);
    }
    {
        let bitboard: Bitboard = 1 << 7;
        assert_eq!(square_of(bitboard).unwrap(), Square::H1);
        assert_eq!(bitboard_square_of(bitboard), bitboard);
    }
}

#[test]
fn test_bit_count() {
    {
        let bitboard: Bitboard = 1;
        assert_eq!(bit_count(bitboard), 1);
    }
    {
        let bitboard: Bitboard = 7;
        assert_eq!(bit_count(bitboard), 3);
    }
}

#[test]
fn test_bit_loop() {
    {
        let bitboard: Bitboard = 7;
        let mut u: u64 = 0;
        let mut u2: Bitboard = 0;
        let mut k = bitboard;
        while k != 0 {
            u = u + 1;
            u2 = u2 + k;
            k = clear_lowest_bit(k);
        }
        assert_eq!(u, 3);
        assert_eq!(u2, 17);
    }
}

#[test]
fn set_then_query_holds_everywhere() {
    let squares = squares_of(u64::MAX);
    assert_eq!(squares.len(), 64);
    for &s in &squares {
        assert!(is_bit_set(s, set_bit(s, 0)));
        assert!(is_bit_set(s, set_bit(s, 0x0123_4567_89ab_cdef)));
        assert!(!is_bit_set(s, clear_bit(s, u64::MAX)));
        assert!(!is_bit_set(s, clear_bit(s, 0x0123_4567_89ab_cdef)));
    }
}

#[test]
fn set_and_clear_keep_other_bits() {
    let board = set_bit(Square::C3, set_bit(Square::H8, EMPTY_BOARD));
    assert!(is_bit_set(Square::C3, board));
    assert!(is_bit_set(Square::H8, board));
    assert!(!is_bit_set(Square::A1, board));
    let cleared = clear_bit(Square::C3, board);
    assert!(!is_bit_set(Square::C3, cleared));
    assert!(is_bit_set(Square::H8, cleared));
}

#[test]
fn rank_file_roundtrip() {
    assert_eq!(rank_and_file_to_square(0, 0).unwrap(), Square::A1);
    assert_eq!(rank_and_file_to_square(3, 4).unwrap(), Square::E4);
    assert_eq!(rank_and_file_to_square(7, 7).unwrap(), Square::H8);
    for &s in &squares_of(u64::MAX) {
        let rank = s.rank() as usize;
        let file = s.file() as usize;
        assert_eq!(rank_and_file_to_square(rank, file).unwrap(), s);
    }
}

#[test]
fn coordinate_conversion_rejects_off_board() {
    assert_eq!(rank_and_file_to_square(8, 0), Err(BitboardError::OutOfRange));
    assert_eq!(rank_and_file_to_square(0, 8), Err(BitboardError::OutOfRange));
    assert_eq!(square_from_index(64), Err(BitboardError::OutOfRange));
    assert_eq!(square_from_index(63).unwrap(), Square::H8);
}

#[test]
fn bit_count_edges() {
    assert_eq!(bit_count(0), 0);
    assert_eq!(bit_count(u64::MAX), 64);
    assert_eq!(bit_count(0b111), 3);
}

#[test]
fn lowest_bit_queries() {
    assert_eq!(square_of(0b1100).unwrap(), Square::C1);
    assert_eq!(bitboard_square_of(0b1100), 0b100);
    assert_eq!(square_of(1 << 63).unwrap(), Square::H8);
    assert_eq!(bitboard_square_of(0), 0);
    assert_eq!(square_of(0), Err(BitboardError::EmptySet));
}

#[test]
fn bit_loop_yields_indices_in_order() {
    let squares = squares_of(0b111);
    assert_eq!(squares, vec![Square::A1, Square::B1, Square::C1]);
    let sum: u64 = squares.iter().map(|s| s.index()).sum();
    assert_eq!(sum, 0 + 1 + 2);

    let mut indices = Vec::new();
    let mut b: Bitboard = 0b111;
    while b != 0 {
        indices.push(square_of(b).unwrap().index());
        b = clear_lowest_bit(b);
    }
    assert_eq!(indices, vec![0, 1, 2]);
}

#[test]
fn occupancy_roundtrip_over_full_index_range() {
    let mask: Bitboard = 0b10110;
    for index in 0..8u64 {
        let occupancy = create_occupancy_from_mask(index, mask);
        assert_eq!(extract_mask(occupancy, mask), index);
        assert_eq!(occupancy & !mask, 0);
    }
}

#[test]
fn occupancy_masking_restores_board_inside_mask() {
    let cases: [(Bitboard, Bitboard); 4] = [
        (0xdead_beef_0123_4567, 0x00ff_00ff_00ff_00ff),
        (u64::MAX, 0x8000_0000_0000_0001),
        (0, 0xffff_ffff_ffff_ffff),
        (0x5555_5555_5555_5555, 0xaaaa_aaaa_aaaa_aaaa),
    ];
    for &(board, mask) in &cases {
        assert_eq!(
            create_occupancy_from_mask(extract_mask(board, mask), mask),
            board & mask
        );
    }
}

#[test]
fn occupancy_exact_values() {
    assert_eq!(extract_mask(0b1010, 0b1111), 0b1010);
    assert_eq!(extract_mask(0b1010, 0b1010), 0b11);
    assert_eq!(create_occupancy_from_mask(0b11, 0b1010), 0b1010);
    assert_eq!(create_occupancy_from_mask(0, 0b1010), 0);
}

#[test]
fn file_masks_exclude_advertised_files() {
    assert_eq!(bit_count(NOT_A_FILE), 56);
    assert_eq!(bit_count(NOT_AB_FILE), 48);
    assert_eq!(bit_count(NOT_H_FILE), 56);
    assert_eq!(bit_count(NOT_GH_FILE), 48);
    for rank in 0..8 {
        assert!(!is_bit_set(rank_and_file_to_square(rank, 0).unwrap(), NOT_A_FILE));
        assert!(!is_bit_set(rank_and_file_to_square(rank, 0).unwrap(), NOT_AB_FILE));
        assert!(!is_bit_set(rank_and_file_to_square(rank, 1).unwrap(), NOT_AB_FILE));
        assert!(!is_bit_set(rank_and_file_to_square(rank, 7).unwrap(), NOT_H_FILE));
        assert!(!is_bit_set(rank_and_file_to_square(rank, 7).unwrap(), NOT_GH_FILE));
        assert!(!is_bit_set(rank_and_file_to_square(rank, 6).unwrap(), NOT_GH_FILE));
        for file in 1..8 {
            assert!(is_bit_set(rank_and_file_to_square(rank, file).unwrap(), NOT_A_FILE));
        }
    }
}

#[test]
fn promotion_ranks() {
    assert_eq!(get_promotion_rank(Color::White), WHITE_PROMOTION_RANK);
    assert_eq!(get_promotion_rank(Color::Black), BLACK_PROMOTION_RANK);
    assert_eq!(WHITE_PROMOTION_RANK, 0xff00_0000_0000_0000);
    assert_eq!(BLACK_PROMOTION_RANK, 0xff);
    for rank in 0..8 {
        for file in 0..8 {
            let s = rank_and_file_to_square(rank, file).unwrap();
            assert_eq!(is_bit_set(s, WHITE_PROMOTION_RANK), rank == 7);
            assert_eq!(is_bit_set(s, BLACK_PROMOTION_RANK), rank == 0);
        }
    }
}

#[test]
fn hex_parsing() {
    assert_eq!(bitboard_from_hex("0x1"), Ok(1));
    assert_eq!(bitboard_from_hex("1"), Ok(1));
    assert_eq!(bitboard_from_hex("ff"), Ok(255));
    assert_eq!(bitboard_from_hex("0xFF"), Ok(255));
    assert_eq!(bitboard_from_hex("0xffffffffffffffff"), Ok(u64::MAX));
    assert_eq!(bitboard_from_hex("0x00000000000000000001"), Ok(1));
    assert_eq!(bitboard_from_hex("0xfefefefefefefefe"), Ok(NOT_A_FILE));
}

#[test]
fn hex_parsing_rejects_malformed_input() {
    assert_eq!(bitboard_from_hex("zzz"), Err(BitboardError::ParseError));
    assert_eq!(bitboard_from_hex(""), Err(BitboardError::ParseError));
    assert_eq!(bitboard_from_hex("0x"), Err(BitboardError::ParseError));
    assert_eq!(bitboard_from_hex("0x10000000000000000"), Err(BitboardError::ParseError));
    assert_eq!(bitboard_from_hex("12g4"), Err(BitboardError::ParseError));
    assert_eq!(bitboard_from_hex("-1"), Err(BitboardError::ParseError));
}

#[test]
fn square_coordinates() {
    assert_eq!(Square::A1.index(), 0);
    assert_eq!(Square::H1.index(), 7);
    assert_eq!(Square::A2.index(), 8);
    assert_eq!(Square::H8.index(), 63);
    assert_eq!(Square::E4.index(), 28);
    assert_eq!(Square::E4.rank(), 3);
    assert_eq!(Square::E4.file(), 4);
    assert_eq!(EMPTY_BOARD, 0);
}
