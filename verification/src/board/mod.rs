//! Board representations: the mailbox board with full move generation, and
//! the layout of a bitboard board. This module also keeps an older, simpler
//! board interface in which squares are plain indices 0..64.
pub mod bitboard;
pub mod mailbox;
pub mod move_laws;
pub mod rules;

use vstd::prelude::*;

verus! {

/// The two sides, in the older board interface.
#[derive(Debug, Clone, Copy, PartialEq, Eq, Structural)]
pub enum Color {
    White,
    Black,
}

impl Color {
    /// The other side.
    pub fn opposite(self) -> (r: Color)
        ensures
            self == Color::White ==> r == Color::Black,
            self == Color::Black ==> r == Color::White,
    {
        match self {
            Color::White => Color::Black,
            Color::Black => Color::White,
        }
    }
}

/// The kinds of pieces, in the older board interface.
#[derive(Debug, Clone, Copy, PartialEq, Eq, Structural)]
pub enum Kind {
    Pawn,
    Rook,
    Kingt,
    Bishop,
    Queen,
    King,
}

/// A piece of the older board interface: a side and a kind.
pub type Piece = (Color, Kind);

/// A move between square indices, with the kind a pawn is promoted to.
#[derive(Debug, Clone, Copy, PartialEq, Eq, Structural)]
pub struct Move {
    pub from: u8,
    pub to: u8,
    pub promotion: Option<Kind>,
}

/// The older board interface: positions read from and written as FEN text,
/// squares as indices.
pub trait Board: Sized + Clone {
    /// The starting position.
    fn startpos() -> Self;

    /// The position a FEN text describes, or why it does not read.
    fn from_fen(fen: &str) -> Result<Self, String>;

    /// The position as FEN text.
    fn to_fen(&self) -> String;

    /// The side to move.
    fn side_to_move(&self) -> Color;

    /// What stands on square `sq`.
    fn piece_at(&self, sq: u8) -> Option<Piece>;

    /// Plays `mov`.
    fn make_move(&mut self, mov: Move);

    /// The legal moves.
    fn generate_moves(&self) -> Vec<Move>;

    /// Whether `color`'s king is attacked.
    fn is_in_check(&self, color: Color) -> bool;
}

} // verus!
