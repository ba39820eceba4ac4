use vstd::prelude::*;

verus! {

/// A 64-bit board set: bit `i` (counting from the least significant bit) holds
/// whether square `i` is in the set.
pub type Bitboard = u64;

/// A piece kind, used only as a tag.
#[derive(Clone, Copy, Debug, Hash, PartialEq, Eq, Structural)]
pub enum Piece {
    Pawn,
    Knight,
    Bishop,
    Rook,
    Queen,
    King,
}

/// A side to move, used only as a tag.
#[derive(Clone, Copy, Debug, Hash, PartialEq, Eq, Structural)]
pub enum Color {
    White,
    Black,
}

/// One of the 64 board cells, ordered so that a square's index is
/// `rank * 8 + file`: rank 0 is White's back rank and file 0 is the a-file,
/// so `A1` has index 0 and `H8` has index 63.
#[derive(Clone, Copy, Debug, Hash, PartialEq, Eq, Structural)]
pub enum Square {
    A1,
    B1,
    C1,
    D1,
    E1,
    F1,
    G1,
    H1,
    A2,
    B2,
    C2,
    D2,
    E2,
    F2,
    G2,
    H2,
    A3,
    B3,
    C3,
    D3,
    E3,
    F3,
    G3,
    H3,
    A4,
    B4,
    C4,
    D4,
    E4,
    F4,
    G4,
    H4,
    A5,
    B5,
    C5,
    D5,
    E5,
    F5,
    G5,
    H5,
    A6,
    B6,
    C6,
    D6,
    E6,
    F6,
    G6,
    H6,
    A7,
    B7,
    C7,
    D7,
    E7,
    F7,
    G7,
    H7,
    A8,
    B8,
    C8,
    D8,
    E8,
    F8,
    G8,
    H8,
}

/// Why an operation rejected its input.
#[derive(Clone, Copy, Debug, Hash, PartialEq, Eq, Structural)]
pub enum BitboardError {
    /// A rank, file or raw index lies outside the board.
    OutOfRange,
    /// A lowest-set-bit query was made on an empty board set.
    EmptySet,
    /// A hexadecimal literal is malformed or does not fit in 64 bits.
    ParseError,
}

/// The index of a square: `rank * 8 + file`, in `[0, 64)`.
pub open spec fn square_index(s: Square) -> u64 {
    match s {
        Square::A1 => 0,
        Square::B1 => 1,
        Square::C1 => 2,
        Square::D1 => 3,
        Square::E1 => 4,
        Square::F1 => 5,
        Square::G1 => 6,
        Square::H1 => 7,
        Square::A2 => 8,
        Square::B2 => 9,
        Square::C2 => 10,
        Square::D2 => 11,
        Square::E2 => 12,
        Square::F2 => 13,
        Square::G2 => 14,
        Square::H2 => 15,
        Square::A3 => 16,
        Square::B3 => 17,
        Square::C3 => 18,
        Square::D3 => 19,
        Square::E3 => 20,
        Square::F3 => 21,
        Square::G3 => 22,
        Square::H3 => 23,
        Square::A4 => 24,
        Square::B4 => 25,
        Square::C4 => 26,
        Square::D4 => 27,
        Square::E4 => 28,
        Square::F4 => 29,
        Square::G4 => 30,
        Square::H4 => 31,
        Square::A5 => 32,
        Square::B5 => 33,
        Square::C5 => 34,
        Square::D5 => 35,
        Square::E5 => 36,
        Square::F5 => 37,
        Square::G5 => 38,
        Square::H5 => 39,
        Square::A6 => 40,
        Square::B6 => 41,
        Square::C6 => 42,
        Square::D6 => 43,
        Square::E6 => 44,
        Square::F6 => 45,
        Square::G6 => 46,
        Square::H6 => 47,
        Square::A7 => 48,
        Square::B7 => 49,
        Square::C7 => 50,
        Square::D7 => 51,
        Square::E7 => 52,
        Square::F7 => 53,
        Square::G7 => 54,
        Square::H7 => 55,
        Square::A8 => 56,
        Square::B8 => 57,
        Square::C8 => 58,
        Square::D8 => 59,
        Square::E8 => 60,
        Square::F8 => 61,
        Square::G8 => 62,
        Square::H8 => 63,
    }
}

/// The rank of a square, 0 for White's back rank up to 7.
pub open spec fn square_rank(s: Square) -> u64 {
    square_index(s) / 8
}

/// The file of a square, 0 for the a-file up to 7 for the h-file.
pub open spec fn square_file(s: Square) -> u64 {
    square_index(s) % 8
}

impl Square {
    /// The square's index, `rank * 8 + file`.
    pub fn index(&self) -> (i: u64)
        ensures
            i == square_index(*self),
            i < 64,
    {
        match self {
            Square::A1 => 0,
            Square::B1 => 1,
            Square::C1 => 2,
            Square::D1 => 3,
            Square::E1 => 4,
            Square::F1 => 5,
            Square::G1 => 6,
            Square::H1 => 7,
            Square::A2 => 8,
            Square::B2 => 9,
            Square::C2 => 10,
            Square::D2 => 11,
            Square::E2 => 12,
            Square::F2 => 13,
            Square::G2 => 14,
            Square::H2 => 15,
            Square::A3 => 16,
            Square::B3 => 17,
            Square::C3 => 18,
            Square::D3 => 19,
            Square::E3 => 20,
            Square::F3 => 21,
            Square::G3 => 22,
            Square::H3 => 23,
            Square::A4 => 24,
            Square::B4 => 25,
            Square::C4 => 26,
            Square::D4 => 27,
            Square::E4 => 28,
            Square::F4 => 29,
            Square::G4 => 30,
            Square::H4 => 31,
            Square::A5 => 32,
            Square::B5 => 33,
            Square::C5 => 34,
            Square::D5 => 35,
            Square::E5 => 36,
            Square::F5 => 37,
            Square::G5 => 38,
            Square::H5 => 39,
            Square::A6 => 40,
            Square::B6 => 41,
            Square::C6 => 42,
            Square::D6 => 43,
            Square::E6 => 44,
            Square::F6 => 45,
            Square::G6 => 46,
            Square::H6 => 47,
            Square::A7 => 48,
            Square::B7 => 49,
            Square::C7 => 50,
            Square::D7 => 51,
            Square::E7 => 52,
            Square::F7 => 53,
            Square::G7 => 54,
            Square::H7 => 55,
            Square::A8 => 56,
            Square::B8 => 57,
            Square::C8 => 58,
            Square::D8 => 59,
            Square::E8 => 60,
            Square::F8 => 61,
            Square::G8 => 62,
            Square::H8 => 63,
        }
    }

    /// The square's rank, 0 for White's back rank up to 7.
    pub fn rank(&self) -> (r: u64)
        ensures
            r == square_rank(*self),
            r < 8,
    {
        self.index() / 8
    }

    /// The square's file, 0 for the a-file up to 7 for the h-file.
    pub fn file(&self) -> (f: u64)
        ensures
            f == square_file(*self),
            f < 8,
    {
        self.index() % 8
    }
}

/// The square at a given index, for indices already known to be on the board.
pub(crate) fn square_at(index: u64) -> (s: Square)
    requires
        index < 64,
    ensures
        square_index(s) == index,
{
    match index {
        0 => Square::A1,
        1 => Square::B1,
        2 => Square::C1,
        3 => Square::D1,
        4 => Square::E1,
        5 => Square::F1,
        6 => Square::G1,
        7 => Square::H1,
        8 => Square::A2,
        9 => Square::B2,
        10 => Square::C2,
        11 => Square::D2,
        12 => Square::E2,
        13 => Square::F2,
        14 => Square::G2,
        15 => Square::H2,
        16 => Square::A3,
        17 => Square::B3,
        18 => Square::C3,
        19 => Square::D3,
        20 => Square::E3,
        21 => Square::F3,
        22 => Square::G3,
        23 => Square::H3,
        24 => Square::A4,
        25 => Square::B4,
        26 => Square::C4,
        27 => Square::D4,
        28 => Square::E4,
        29 => Square::F4,
        30 => Square::G4,
        31 => Square::H4,
        32 => Square::A5,
        33 => Square::B5,
        34 => Square::C5,
        35 => Square::D5,
        36 => Square::E5,
        37 => Square::F5,
        38 => Square::G5,
        39 => Square::H5,
        40 => Square::A6,
        41 => Square::B6,
        42 => Square::C6,
        43 => Square::D6,
        44 => Square::E6,
        45 => Square::F6,
        46 => Square::G6,
        47 => Square::H6,
        48 => Square::A7,
        49 => Square::B7,
        50 => Square::C7,
        51 => Square::D7,
        52 => Square::E7,
        53 => Square::F7,
        54 => Square::G7,
        55 => Square::H7,
        56 => Square::A8,
        57 => Square::B8,
        58 => Square::C8,
        59 => Square::D8,
        60 => Square::E8,
        61 => Square::F8,
        62 => Square::G8,
        63 => Square::H8,
        _ => Square::A1,
    }
}

/// The square at a raw index, rejecting indices outside `[0, 64)`.
pub fn square_from_index(index: u64) -> (r: Result<Square, BitboardError>)
    ensures
        index < 64 ==> (r matches Ok(s) && square_index(s) == index),
        index >= 64 ==> r == Err::<Square, BitboardError>(BitboardError::OutOfRange),
{
    if index < 64 {
        Ok(square_at(index))
    } else {
        Err(BitboardError::OutOfRange)
    }
}

/// The square at a rank and file, rejecting coordinates outside the board.
pub fn rank_and_file_to_square(rank: usize, file: usize) -> (r: Result<Square, BitboardError>)
    ensures
        rank < 8 && file < 8 ==> (r matches Ok(s) && square_index(s) == rank * 8 + file),
        !(rank < 8 && file < 8) ==> r == Err::<Square, BitboardError>(BitboardError::OutOfRange),
{
    if rank < 8 && file < 8 {
        Ok(square_at((rank * 8 + file) as u64))
    } else {
        Err(BitboardError::OutOfRange)
    }
}

/// No two squares share an index.
pub proof fn lemma_square_index_injective(a: Square, b: Square)
    requires
        square_index(a) == square_index(b),
    ensures
        a == b,
{
}

/// Law: a square's rank and file identify it. Feeding `square_rank(s)` and
/// `square_file(s)` back through the coordinate conversion yields `s` itself,
/// since `s` is the one square whose index is `rank * 8 + file`.
pub proof fn lemma_rank_file_roundtrip(s: Square)
    ensures
        square_rank(s) < 8,
        square_file(s) < 8,
        square_rank(s) * 8 + square_file(s) == square_index(s),
        forall|t: Square| square_index(t) == square_index(s) ==> t == s,
{
    assert(square_index(s) < 64);
    assert forall|t: Square| square_index(t) == square_index(s) implies t == s by {
        lemma_square_index_injective(t, s);
    }
}

} // verus!
