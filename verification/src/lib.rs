//! A small chess engine library: board representation and move generation,
//! FEN reading and writing, a UCI codec, and a toy search and evaluation.
pub mod board;
pub mod engine;
pub mod eval;
pub mod fen;
pub mod search;
pub mod text;
pub mod uci;

pub use fen::{Fen, FenV};

use vstd::prelude::*;

verus! {

/// The two sides of a chess game.
#[derive(Debug, Clone, Copy, PartialEq, Eq, Hash, Structural)]
pub enum Color {
    White,
    Black,
}

/// The side that is not `c`.
pub open spec fn opposite_color(c: Color) -> Color {
    match c {
        Color::White => Color::Black,
        Color::Black => Color::White,
    }
}

impl Color {
    /// The other side.
    pub fn opposite(self) -> (r: Color)
        ensures
            r == opposite_color(self),
    {
        match self {
            Color::White => Color::Black,
            Color::Black => Color::White,
        }
    }
}

/// Taking the opposite side twice gives back the side one started from,
/// and no side is its own opposite.
pub proof fn lemma_opposite_involution(c: Color)
    ensures
        opposite_color(opposite_color(c)) == c,
        opposite_color(c) != c,
{
}

/// The kinds of chess pieces.
#[derive(Debug, Clone, Copy, PartialEq, Eq, Hash, Structural)]
pub enum Kind {
    Pawn,
    Rook,
    Knight,
    Bishop,
    Queen,
    King,
}

/// A piece is a side together with a kind.
pub type Piece = (Color, Kind);

/// The pieces a pawn may be promoted to.
#[derive(Debug, Clone, Copy, PartialEq, Eq, Hash, Structural)]
pub enum Promotion {
    Queen,
    Rook,
    Bishop,
    Knight,
}

/// The kind of piece a promotion yields.
pub open spec fn promotion_kind(p: Promotion) -> Kind {
    match p {
        Promotion::Queen => Kind::Queen,
        Promotion::Rook => Kind::Rook,
        Promotion::Bishop => Kind::Bishop,
        Promotion::Knight => Kind::Knight,
    }
}

impl From<Promotion> for Kind {
    fn from(p: Promotion) -> (k: Kind) {
        match p {
            Promotion::Queen => Kind::Queen,
            Promotion::Rook => Kind::Rook,
            Promotion::Bishop => Kind::Bishop,
            Promotion::Knight => Kind::Knight,
        }
    }
}

impl vstd::std_specs::convert::FromSpecImpl<Promotion> for Kind {
    open spec fn obeys_from_spec() -> bool {
        true
    }

    open spec fn from_spec(p: Promotion) -> Kind {
        promotion_kind(p)
    }
}

/// The files (columns) of the board, from a to h.
#[derive(Debug, Clone, Copy, PartialEq, Eq, Hash, Structural)]
pub enum File {
    A,
    B,
    C,
    D,
    E,
    F,
    G,
    H,
}

/// The ranks (rows) of the board, from 1 to 8.
#[derive(Debug, Clone, Copy, PartialEq, Eq, Hash, Structural)]
pub enum Rank {
    R1,
    R2,
    R3,
    R4,
    R5,
    R6,
    R7,
    R8,
}

/// The number of a file, 0 for a up to 7 for h.
pub open spec fn file_num(f: File) -> int {
    match f {
        File::A => 0,
        File::B => 1,
        File::C => 2,
        File::D => 3,
        File::E => 4,
        File::F => 5,
        File::G => 6,
        File::H => 7,
    }
}

/// The number of a rank, 0 for rank 1 up to 7 for rank 8.
pub open spec fn rank_num(r: Rank) -> int {
    match r {
        Rank::R1 => 0,
        Rank::R2 => 1,
        Rank::R3 => 2,
        Rank::R4 => 3,
        Rank::R5 => 4,
        Rank::R6 => 5,
        Rank::R7 => 6,
        Rank::R8 => 7,
    }
}

/// The file with number `n` (0 to 7).
pub open spec fn file_of_num(n: int) -> File {
    if n == 0 {
        File::A
    } else if n == 1 {
        File::B
    } else if n == 2 {
        File::C
    } else if n == 3 {
        File::D
    } else if n == 4 {
        File::E
    } else if n == 5 {
        File::F
    } else if n == 6 {
        File::G
    } else {
        File::H
    }
}

/// The rank with number `n` (0 to 7).
pub open spec fn rank_of_num(n: int) -> Rank {
    if n == 0 {
        Rank::R1
    } else if n == 1 {
        Rank::R2
    } else if n == 2 {
        Rank::R3
    } else if n == 3 {
        Rank::R4
    } else if n == 4 {
        Rank::R5
    } else if n == 5 {
        Rank::R6
    } else if n == 6 {
        Rank::R7
    } else {
        Rank::R8
    }
}

/// Names for all 64 squares, in index order a1, b1, ..., h8.
#[allow(dead_code)]
pub enum SquareName {
    A1, B1, C1, D1, E1, F1, G1, H1,
    A2, B2, C2, D2, E2, F2, G2, H2,
    A3, B3, C3, D3, E3, F3, G3, H3,
    A4, B4, C4, D4, E4, F4, G4, H4,
    A5, B5, C5, D5, E5, F5, G5, H5,
    A6, B6, C6, D6, E6, F6, G6, H6,
    A7, B7, C7, D7, E7, F7, G7, H7,
    A8, B8, C8, D8, E8, F8, G8, H8,
}

/// A square of the board.
#[derive(Debug, Clone, Copy, PartialEq, Eq, Hash, Structural)]
pub struct Square {
    pub file: File,
    pub rank: Rank,
}

/// The index of a square, `rank * 8 + file`, in 0..64.
pub open spec fn square_index(s: Square) -> int {
    rank_num(s.rank) * 8 + file_num(s.file)
}

/// The square with index `n` (0 to 63).
pub open spec fn square_of_index(n: int) -> Square {
    Square { file: file_of_num(n % 8), rank: rank_of_num(n / 8) }
}

/// Reading a square's index back gives the square, and an index in 0..64
/// read as a square gives the index back.
pub proof fn lemma_square_index_roundtrip(s: Square, n: int)
    ensures
        0 <= square_index(s) < 64,
        square_of_index(square_index(s)) == s,
        0 <= n < 64 ==> square_index(square_of_index(n)) == n,
{
}

/// The number of a file, as a byte.
pub fn file_to_u8(f: File) -> (r: u8)
    ensures
        r == file_num(f),
{
    match f {
        File::A => 0,
        File::B => 1,
        File::C => 2,
        File::D => 3,
        File::E => 4,
        File::F => 5,
        File::G => 6,
        File::H => 7,
    }
}

/// The number of a rank, as a byte.
pub fn rank_to_u8(r: Rank) -> (n: u8)
    ensures
        n == rank_num(r),
{
    match r {
        Rank::R1 => 0,
        Rank::R2 => 1,
        Rank::R3 => 2,
        Rank::R4 => 3,
        Rank::R5 => 4,
        Rank::R6 => 5,
        Rank::R7 => 6,
        Rank::R8 => 7,
    }
}

/// The file with number `n`.
pub fn file_from_u8(n: u8) -> (f: File)
    requires
        n < 8,
    ensures
        f == file_of_num(n as int),
        file_num(f) == n,
{
    if n == 0 {
        File::A
    } else if n == 1 {
        File::B
    } else if n == 2 {
        File::C
    } else if n == 3 {
        File::D
    } else if n == 4 {
        File::E
    } else if n == 5 {
        File::F
    } else if n == 6 {
        File::G
    } else {
        File::H
    }
}

/// The rank with number `n`.
pub fn rank_from_u8(n: u8) -> (r: Rank)
    requires
        n < 8,
    ensures
        r == rank_of_num(n as int),
        rank_num(r) == n,
{
    if n == 0 {
        Rank::R1
    } else if n == 1 {
        Rank::R2
    } else if n == 2 {
        Rank::R3
    } else if n == 3 {
        Rank::R4
    } else if n == 4 {
        Rank::R5
    } else if n == 5 {
        Rank::R6
    } else if n == 6 {
        Rank::R7
    } else {
        Rank::R8
    }
}

impl Square {
    /// The square with index `n` (`n % 8` is the file, `n / 8` the rank).
    pub fn from_index(n: u8) -> (s: Square)
        requires
            n < 64,
        ensures
            s == square_of_index(n as int),
            square_index(s) == n,
    {
        Square { file: file_from_u8(n % 8), rank: rank_from_u8(n / 8) }
    }

    /// The index of this square, `rank * 8 + file`.
    pub fn index(self) -> (n: u8)
        ensures
            n == square_index(self),
            n < 64,
    {
        rank_to_u8(self.rank) * 8 + file_to_u8(self.file)
    }

    /// The square named `name`.
    pub fn from_name(name: SquareName) -> (s: Square)
        ensures
            square_index(s) == square_name_index(name),
    {
        Square::from_index(square_name_to_u8(name))
    }
}

impl From<(File, Rank)> for Square {
    fn from(fr: (File, Rank)) -> (s: Square) {
        Square { file: fr.0, rank: fr.1 }
    }
}

impl vstd::std_specs::convert::FromSpecImpl<(File, Rank)> for Square {
    open spec fn obeys_from_spec() -> bool {
        true
    }

    open spec fn from_spec(fr: (File, Rank)) -> Square {
        Square { file: fr.0, rank: fr.1 }
    }
}

impl From<Square> for u8 {
    fn from(s: Square) -> (n: u8) {
        s.index()
    }
}

impl vstd::std_specs::convert::FromSpecImpl<Square> for u8 {
    open spec fn obeys_from_spec() -> bool {
        true
    }

    open spec fn from_spec(s: Square) -> u8 {
        square_index(s) as u8
    }
}

impl From<SquareName> for Square {
    fn from(name: SquareName) -> (s: Square) {
        Square::from_name(name)
    }
}

impl vstd::std_specs::convert::FromSpecImpl<SquareName> for Square {
    open spec fn obeys_from_spec() -> bool {
        true
    }

    open spec fn from_spec(name: SquareName) -> Square {
        square_of_index(square_name_index(name))
    }
}

/// The index of a named square: its position in the list a1, b1, ..., h8.
pub open spec fn square_name_index(name: SquareName) -> int {
    match name {
        SquareName::A1 => 0, SquareName::B1 => 1, SquareName::C1 => 2, SquareName::D1 => 3,
        SquareName::E1 => 4, SquareName::F1 => 5, SquareName::G1 => 6, SquareName::H1 => 7,
        SquareName::A2 => 8, SquareName::B2 => 9, SquareName::C2 => 10, SquareName::D2 => 11,
        SquareName::E2 => 12, SquareName::F2 => 13, SquareName::G2 => 14, SquareName::H2 => 15,
        SquareName::A3 => 16, SquareName::B3 => 17, SquareName::C3 => 18, SquareName::D3 => 19,
        SquareName::E3 => 20, SquareName::F3 => 21, SquareName::G3 => 22, SquareName::H3 => 23,
        SquareName::A4 => 24, SquareName::B4 => 25, SquareName::C4 => 26, SquareName::D4 => 27,
        SquareName::E4 => 28, SquareName::F4 => 29, SquareName::G4 => 30, SquareName::H4 => 31,
        SquareName::A5 => 32, SquareName::B5 => 33, SquareName::C5 => 34, SquareName::D5 => 35,
        SquareName::E5 => 36, SquareName::F5 => 37, SquareName::G5 => 38, SquareName::H5 => 39,
        SquareName::A6 => 40, SquareName::B6 => 41, SquareName::C6 => 42, SquareName::D6 => 43,
        SquareName::E6 => 44, SquareName::F6 => 45, SquareName::G6 => 46, SquareName::H6 => 47,
        SquareName::A7 => 48, SquareName::B7 => 49, SquareName::C7 => 50, SquareName::D7 => 51,
        SquareName::E7 => 52, SquareName::F7 => 53, SquareName::G7 => 54, SquareName::H7 => 55,
        SquareName::A8 => 56, SquareName::B8 => 57, SquareName::C8 => 58, SquareName::D8 => 59,
        SquareName::E8 => 60, SquareName::F8 => 61, SquareName::G8 => 62, SquareName::H8 => 63,
    }
}

fn square_name_to_u8(name: SquareName) -> (n: u8)
    ensures
        n == square_name_index(name),
        n < 64,
{
    match name {
        SquareName::A1 => 0, SquareName::B1 => 1, SquareName::C1 => 2, SquareName::D1 => 3,
        SquareName::E1 => 4, SquareName::F1 => 5, SquareName::G1 => 6, SquareName::H1 => 7,
        SquareName::A2 => 8, SquareName::B2 => 9, SquareName::C2 => 10, SquareName::D2 => 11,
        SquareName::E2 => 12, SquareName::F2 => 13, SquareName::G2 => 14, SquareName::H2 => 15,
        SquareName::A3 => 16, SquareName::B3 => 17, SquareName::C3 => 18, SquareName::D3 => 19,
        SquareName::E3 => 20, SquareName::F3 => 21, SquareName::G3 => 22, SquareName::H3 => 23,
        SquareName::A4 => 24, SquareName::B4 => 25, SquareName::C4 => 26, SquareName::D4 => 27,
        SquareName::E4 => 28, SquareName::F4 => 29, SquareName::G4 => 30, SquareName::H4 => 31,
        SquareName::A5 => 32, SquareName::B5 => 33, SquareName::C5 => 34, SquareName::D5 => 35,
        SquareName::E5 => 36, SquareName::F5 => 37, SquareName::G5 => 38, SquareName::H5 => 39,
        SquareName::A6 => 40, SquareName::B6 => 41, SquareName::C6 => 42, SquareName::D6 => 43,
        SquareName::E6 => 44, SquareName::F6 => 45, SquareName::G6 => 46, SquareName::H6 => 47,
        SquareName::A7 => 48, SquareName::B7 => 49, SquareName::C7 => 50, SquareName::D7 => 51,
        SquareName::E7 => 52, SquareName::F7 => 53, SquareName::G7 => 54, SquareName::H7 => 55,
        SquareName::A8 => 56, SquareName::B8 => 57, SquareName::C8 => 58, SquareName::D8 => 59,
        SquareName::E8 => 60, SquareName::F8 => 61, SquareName::G8 => 62, SquareName::H8 => 63,
    }
}

/// Which castling moves each side may still make.
#[derive(Debug, Clone, Copy, PartialEq, Eq, Structural)]
pub struct CastlingRights {
    pub white_kingside: bool,
    pub white_queenside: bool,
    pub black_kingside: bool,
    pub black_queenside: bool,
}

impl CastlingRights {
    /// No castling is allowed.
    pub fn none() -> (r: Self)
        ensures
            !r.white_kingside && !r.white_queenside && !r.black_kingside && !r.black_queenside,
    {
        CastlingRights {
            white_kingside: false,
            white_queenside: false,
            black_kingside: false,
            black_queenside: false,
        }
    }

    /// Every castling move is allowed.
    pub fn all() -> (r: Self)
        ensures
            r.white_kingside && r.white_queenside && r.black_kingside && r.black_queenside,
    {
        CastlingRights {
            white_kingside: true,
            white_queenside: true,
            black_kingside: true,
            black_queenside: true,
        }
    }
}

/// A move from one square to another, with the piece a pawn is promoted to, if any.
#[derive(Debug, Clone, Copy, PartialEq, Eq, Hash, Structural)]
pub struct Move {
    pub from: Square,
    pub to: Square,
    pub promotion: Option<Promotion>,
}

impl From<(Square, Square)> for Move {
    fn from(value: (Square, Square)) -> (m: Move) {
        Move { from: value.0, to: value.1, promotion: None }
    }
}

impl vstd::std_specs::convert::FromSpecImpl<(Square, Square)> for Move {
    open spec fn obeys_from_spec() -> bool {
        true
    }

    open spec fn from_spec(value: (Square, Square)) -> Move {
        Move { from: value.0, to: value.1, promotion: None }
    }
}

impl From<(Square, Square, Promotion)> for Move {
    fn from(value: (Square, Square, Promotion)) -> (m: Move) {
        Move { from: value.0, to: value.1, promotion: Some(value.2) }
    }
}

impl vstd::std_specs::convert::FromSpecImpl<(Square, Square, Promotion)> for Move {
    open spec fn obeys_from_spec() -> bool {
        true
    }

    open spec fn from_spec(value: (Square, Square, Promotion)) -> Move {
        Move { from: value.0, to: value.1, promotion: Some(value.2) }
    }
}


/// A chess position that can list its legal moves, play a move and convert
/// to and from FEN.
pub trait Board: Sized + Clone {
    /// The legal moves, in the order `move_iter` lists them.
    spec fn legal_move_seq(&self) -> Seq<Move>;

    /// The legal moves can be listed (no counter would overflow while doing so).
    spec fn moves_listable(&self) -> bool;

    /// Move `m` can be played without a counter overflowing.
    spec fn playable(&self, m: Move) -> bool;

    /// The position after `m` is played.
    spec fn after(&self, m: Move) -> Self;

    /// This position is the one the FEN record `f` describes.
    spec fn describes(&self, f: FenV) -> bool;

    /// The position `from_fen` builds from the FEN record `f`.
    spec fn of_fen(f: FenV) -> Self;

    /// The position can be written as a FEN record.
    spec fn fen_writable(&self) -> bool;

    /// The side to move.
    spec fn side(&self) -> Color;

    /// The position as a FEN record.
    spec fn fen_view(&self) -> FenV;

    /// The legal moves of the side to move.
    fn move_iter(&self) -> (r: Vec<Move>)
        requires
            self.moves_listable(),
        ensures
            r@ == self.legal_move_seq(),
    ;

    /// Whether the legal moves can be listed.
    fn can_list_moves(&self) -> (r: bool)
        ensures
            r == self.moves_listable(),
    ;

    /// The pieces on the board, in square order.
    fn piece_iter(&self) -> Vec<Piece>;

    /// What stands on `sq`.
    fn piece_at(&self, sq: Square) -> Option<Piece>;

    /// The side to move.
    fn turn(&self) -> (r: Color)
        ensures
            r == self.side(),
    ;

    /// The side in check, white looked at first.
    fn check(&self) -> Option<Color>;

    /// The side to move if it has no legal move and is in check.
    fn mate(&self) -> Option<Color>
        requires
            self.moves_listable(),
    ;

    /// Whether `m` can be played without a counter overflowing.
    fn can_play(&self, m: Move) -> (r: bool)
        ensures
            r == self.playable(m),
    ;

    /// The position after `mov` is played.
    fn do_move(&self, mov: Move) -> (r: Self)
        requires
            self.playable(mov),
        ensures
            r == self.after(mov),
    ;

    /// The position as a FEN record.
    fn fen(&self) -> (r: Fen)
        requires
            self.fen_writable(),
        ensures
            r@ == self.fen_view(),
    ;

    /// The position a FEN record describes.
    fn from_fen(s: &Fen) -> (r: Self)
        ensures
            r.describes(s@),
            r == Self::of_fen(s@),
    ;

    /// The starting position.
    fn startpos() -> (r: Self)
        ensures
            r.describes(fen::startpos_view()),
            r == Self::of_fen(fen::startpos_view()),
    {
        Self::from_fen(&Fen::startpos())
    }
}

/// A static evaluation of positions.
pub trait Eval {
    /// The score given to the position `position`.
    spec fn score(&self, position: FenV) -> i32;

    /// The score given to `board`, in centipawns.
    fn evaluate<B: Board>(&self, board: &B) -> (r: i32)
        ensures
            r == self.score(board.fen_view()),
    ;
}

/// A move chooser. What it picks is stated over the legal moves it is
/// offered, in the order the board lists them: the pick is a function of
/// those moves and of the chooser's own state, and the evaluation handed to
/// `search` does not enter it.
pub trait Search: Sized {
    /// The move picked from the legal moves `legal`, if one is picked.
    spec fn pick(&self, legal: Seq<Move>) -> Option<Move>;

    /// The chooser as a pick from the legal moves `legal` leaves it.
    spec fn after_pick(&self, legal: Seq<Move>) -> Self;

    /// A move to play on `board`, if any is chosen: the one `pick` names from
    /// the legal moves of `board`, and always one of them.
    fn search<B: Board, E: Eval>(&mut self, board: &B, eval: &E) -> (r: Option<Move>)
        requires
            board.moves_listable(),
        ensures
            r == old(self).pick(board.legal_move_seq()),
            *final(self) == old(self).after_pick(board.legal_move_seq()),
            r matches Some(m) ==> board.legal_move_seq().contains(m),
    ;
}

} // verus!
