//! The layout of a bitboard board: one 64-bit set per piece kind and side.
use vstd::prelude::*;

verus! {

#[derive(Clone, Copy)]
#[allow(dead_code)]
struct Bb(u64);

#[derive(Clone, Copy)]
#[allow(dead_code)]
struct Occupancy {
    pawn: Bb,
    rook: Bb,
    knight: Bb,
    bishop: Bb,
    queen: Bb,
    king: Bb,
}

/// A board held as one bit set per side and piece kind.
#[derive(Clone, Copy)]
#[allow(dead_code)]
pub struct Bitboard {
    white_occ: Occupancy,
    black_occ: Occupancy,
}

} // verus!
