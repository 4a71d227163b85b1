//! Forsyth–Edwards Notation: the text form of a position, read and written.
pub mod readback;

use vstd::prelude::*;

use crate::text::{
    chars_of, dec, parse_blanks, parse_uint, push_char, push_str, push_u64, read_blanks,
    read_uint,
};
use crate::{file_of_num, rank_of_num, CastlingRights, Color, Kind, Piece, Square, file_num, rank_num};

verus! {

broadcast use vstd::array::group_array_axioms;

/// A position as FEN describes it.
#[derive(Debug, Clone, Copy, PartialEq, Eq)]
pub struct Fen {
    pub squares: [Option<Piece>; 64],
    pub side_to_move: Color,
    pub castling: CastlingRights,
    pub en_passant: Option<Square>,
    pub halfmove_clock: u32,
    pub fullmove_number: u32,
}

/// A FEN position with its squares as a sequence.
pub struct FenV {
    pub squares: Seq<Option<Piece>>,
    pub side_to_move: Color,
    pub castling: CastlingRights,
    pub en_passant: Option<Square>,
    pub halfmove_clock: u32,
    pub fullmove_number: u32,
}

impl View for Fen {
    type V = FenV;

    open spec fn view(&self) -> FenV {
        FenV {
            squares: self.squares@,
            side_to_move: self.side_to_move,
            castling: self.castling,
            en_passant: self.en_passant,
            halfmove_clock: self.halfmove_clock,
            fullmove_number: self.fullmove_number,
        }
    }
}

/// Two FEN positions with the same view are the same position.
pub proof fn lemma_fen_view_injective(a: Fen, b: Fen)
    requires
        a@ == b@,
    ensures
        a == b,
{
    assert(a.squares =~= b.squares);
}

// ---------------------------------------------------------------------------
// Pieces and letters

/// The letter of a piece: upper case for white, lower case for black.
pub open spec fn piece_letter(p: Piece) -> char {
    let ch = match p.1 {
        Kind::Pawn => 'p',
        Kind::Rook => 'r',
        Kind::Knight => 'n',
        Kind::Bishop => 'b',
        Kind::Queen => 'q',
        Kind::King => 'k',
    };
    match p.0 {
        Color::White => match p.1 {
            Kind::Pawn => 'P',
            Kind::Rook => 'R',
            Kind::Knight => 'N',
            Kind::Bishop => 'B',
            Kind::Queen => 'Q',
            Kind::King => 'K',
        },
        Color::Black => ch,
    }
}

/// `c` is the letter of a piece.
pub open spec fn is_piece_letter(c: char) -> bool {
    c == 'p' || c == 'P' || c == 'r' || c == 'R' || c == 'n' || c == 'N' || c == 'b' || c == 'B'
        || c == 'q' || c == 'Q' || c == 'k' || c == 'K'
}

/// The piece a letter stands for.
pub open spec fn letter_piece(c: char) -> Piece {
    let color = if c == 'P' || c == 'R' || c == 'N' || c == 'B' || c == 'Q' || c == 'K' {
        Color::White
    } else {
        Color::Black
    };
    let kind = if c == 'p' || c == 'P' {
        Kind::Pawn
    } else if c == 'r' || c == 'R' {
        Kind::Rook
    } else if c == 'n' || c == 'N' {
        Kind::Knight
    } else if c == 'b' || c == 'B' {
        Kind::Bishop
    } else if c == 'q' || c == 'Q' {
        Kind::Queen
    } else {
        Kind::King
    };
    (color, kind)
}

/// The letter of a piece: upper case for white, lower case for black.
pub fn piece_char(piece: Piece) -> (c: char)
    ensures
        c == piece_letter(piece),
{
    let ch = match piece.1 {
        Kind::Pawn => 'p',
        Kind::Rook => 'r',
        Kind::Knight => 'n',
        Kind::Bishop => 'b',
        Kind::Queen => 'q',
        Kind::King => 'k',
    };
    match piece.0 {
        Color::White => match piece.1 {
            Kind::Pawn => 'P',
            Kind::Rook => 'R',
            Kind::Knight => 'N',
            Kind::Bishop => 'B',
            Kind::Queen => 'Q',
            Kind::King => 'K',
        },
        Color::Black => ch,
    }
}

fn fen_piece(c: char) -> (r: Option<Piece>)
    ensures
        is_piece_letter(c) ==> r == Some(letter_piece(c)),
        !is_piece_letter(c) ==> r is None,
{
    let color = if c == 'P' || c == 'R' || c == 'N' || c == 'B' || c == 'Q' || c == 'K' {
        Color::White
    } else {
        Color::Black
    };
    if c == 'p' || c == 'P' {
        Some((color, Kind::Pawn))
    } else if c == 'r' || c == 'R' {
        Some((color, Kind::Rook))
    } else if c == 'n' || c == 'N' {
        Some((color, Kind::Knight))
    } else if c == 'b' || c == 'B' {
        Some((color, Kind::Bishop))
    } else if c == 'q' || c == 'Q' {
        Some((color, Kind::Queen))
    } else if c == 'k' || c == 'K' {
        Some((color, Kind::King))
    } else {
        None
    }
}

// ---------------------------------------------------------------------------
// Reading

/// `c` may appear in a rank: a piece letter or a count of empty squares 1 to 8.
pub open spec fn is_rank_char(c: char) -> bool {
    is_piece_letter(c) || ('1' <= c <= '8')
}

/// The squares one rank character stands for.
pub open spec fn rank_char_cells(c: char) -> Seq<Option<Piece>> {
    if is_piece_letter(c) {
        seq![Some(letter_piece(c))]
    } else {
        Seq::new((c as int - '0' as int) as nat, |i: int| None)
    }
}

/// The number of rank characters in a row from `pos` on.
pub open spec fn rank_run(s: Seq<char>, pos: int) -> nat
    decreases s.len() - pos,
{
    if 0 <= pos < s.len() && is_rank_char(s[pos]) {
        1 + rank_run(s, pos + 1)
    } else {
        0
    }
}

/// The squares the rank characters `s[from..to]` stand for.
pub open spec fn rank_cells(s: Seq<char>, from: int, to: int) -> Seq<Option<Piece>>
    decreases to - from,
{
    if to <= from {
        seq![]
    } else {
        rank_cells(s, from, to - 1) + rank_char_cells(s[to - 1])
    }
}

/// One rank at `pos`: the longest run of rank characters, which must stand
/// for exactly eight squares. The position after it and its squares, file a first.
pub open spec fn read_rank(s: Seq<char>, pos: int) -> Option<(int, Seq<Option<Piece>>)> {
    let k = rank_run(s, pos);
    let cells = rank_cells(s, pos, pos + k);
    if k == 0 || cells.len() != 8 {
        None
    } else {
        Some((pos + k, cells))
    }
}

pub proof fn lemma_rank_run_bound(s: Seq<char>, pos: int)
    requires
        0 <= pos <= s.len(),
    ensures
        pos + rank_run(s, pos) <= s.len(),
        forall|j: int| pos <= j < pos + rank_run(s, pos) ==> is_rank_char(#[trigger] s[j]),
        pos + rank_run(s, pos) < s.len() ==> !is_rank_char(s[pos + rank_run(s, pos)]),
    decreases s.len() - pos,
{
    if 0 <= pos < s.len() && is_rank_char(s[pos]) {
        lemma_rank_run_bound(s, pos + 1);
    }
}

/// The ranks that follow at `pos`, each after a `/`, for as long as a `/` is
/// followed by a rank. The position after the last of them, and their squares.
pub open spec fn read_more_ranks(s: Seq<char>, pos: int) -> (int, Seq<Seq<Option<Piece>>>)
    decreases s.len() - pos,
{
    if 0 <= pos < s.len() && s[pos] == '/' {
        match read_rank(s, pos + 1) {
            Some((e, cells)) => {
                proof {
                    lemma_rank_run_bound(s, pos + 1);
                }
                let (e2, rest) = read_more_ranks(s, e);
                (e2, seq![cells] + rest)
            },
            None => (pos, seq![]),
        }
    } else {
        (pos, seq![])
    }
}

/// The 64 squares of eight ranks given from rank 8 down to rank 1.
pub open spec fn board_of_ranks(ranks: Seq<Seq<Option<Piece>>>) -> Seq<Option<Piece>> {
    Seq::new(64, |i: int| ranks[7 - i / 8][i % 8])
}

/// The piece placement at `pos`: ranks separated by `/`, exactly eight of them.
pub open spec fn read_board(s: Seq<char>, pos: int) -> Option<(int, Seq<Option<Piece>>)> {
    match read_rank(s, pos) {
        None => None,
        Some((e, first)) => {
            let (e2, rest) = read_more_ranks(s, e);
            if rest.len() != 7 {
                None
            } else {
                Some((e2, board_of_ranks(seq![first] + rest)))
            }
        },
    }
}

/// The side to move at `pos`: `w` or `b`.
pub open spec fn read_side(s: Seq<char>, pos: int) -> Option<(int, Color)> {
    if 0 <= pos < s.len() && s[pos] == 'w' {
        Some((pos + 1, Color::White))
    } else if 0 <= pos < s.len() && s[pos] == 'b' {
        Some((pos + 1, Color::Black))
    } else {
        None
    }
}

/// `c` is one of the castling letters K, Q, k, q.
pub open spec fn is_castling_char(c: char) -> bool {
    c == 'K' || c == 'Q' || c == 'k' || c == 'q'
}

/// The number of castling letters in a row from `pos` on.
pub open spec fn castling_run(s: Seq<char>, pos: int) -> nat
    decreases s.len() - pos,
{
    if 0 <= pos < s.len() && is_castling_char(s[pos]) {
        1 + castling_run(s, pos + 1)
    } else {
        0
    }
}

/// The rights granted by the castling letters `s[from..to]`.
pub open spec fn castling_of(s: Seq<char>, from: int, to: int) -> CastlingRights
    decreases to - from,
{
    if to <= from {
        CastlingRights {
            white_kingside: false,
            white_queenside: false,
            black_kingside: false,
            black_queenside: false,
        }
    } else {
        let c = castling_of(s, from, to - 1);
        let x = s[to - 1];
        if x == 'K' {
            CastlingRights { white_kingside: true, ..c }
        } else if x == 'Q' {
            CastlingRights { white_queenside: true, ..c }
        } else if x == 'k' {
            CastlingRights { black_kingside: true, ..c }
        } else {
            CastlingRights { black_queenside: true, ..c }
        }
    }
}

/// The castling field at `pos`: `-`, or a non-empty run of castling letters.
pub open spec fn read_castling(s: Seq<char>, pos: int) -> Option<(int, CastlingRights)> {
    if 0 <= pos < s.len() && s[pos] == '-' {
        Some((pos + 1, castling_of(s, pos, pos)))
    } else {
        let k = castling_run(s, pos);
        if k == 0 {
            None
        } else {
            Some((pos + k, castling_of(s, pos, pos + k)))
        }
    }
}

/// The en passant field at `pos`: `-`, or a file letter and a rank digit.
pub open spec fn read_en_passant(s: Seq<char>, pos: int) -> Option<(int, Option<Square>)> {
    if 0 <= pos < s.len() && s[pos] == '-' {
        Some((pos + 1, None))
    } else if 0 <= pos && pos + 1 < s.len() && 'a' <= s[pos] <= 'h' && '1' <= s[pos + 1] <= '8' {
        Some(
            (
                pos + 2,
                Some(
                    Square {
                        file: file_of_num(s[pos] as int - 'a' as int),
                        rank: rank_of_num(s[pos + 1] as int - '1' as int),
                    },
                ),
            ),
        )
    } else {
        None
    }
}

/// A FEN record at the start of `s`: placement, side, castling, en passant,
/// halfmove clock and fullmove number, separated by blanks. What follows the
/// fullmove number is not looked at.
pub open spec fn read_fen(s: Seq<char>) -> Option<FenV> {
    match read_board(s, 0) {
        None => None,
        Some((p1, squares)) => match read_blanks(s, p1) {
            None => None,
            Some(p2) => match read_side(s, p2) {
                None => None,
                Some((p3, side)) => match read_blanks(s, p3) {
                    None => None,
                    Some(p4) => match read_castling(s, p4) {
                        None => None,
                        Some((p5, castling)) => match read_blanks(s, p5) {
                            None => None,
                            Some(p6) => match read_en_passant(s, p6) {
                                None => None,
                                Some((p7, ep)) => match read_blanks(s, p7) {
                                    None => None,
                                    Some(p8) => match read_uint(s, p8, u32::MAX as int) {
                                        None => None,
                                        Some((p9, half)) => match read_blanks(s, p9) {
                                            None => None,
                                            Some(p10) => match read_uint(s, p10, u32::MAX as int) {
                                                None => None,
                                                Some((_p11, full)) => Some(
                                                    FenV {
                                                        squares,
                                                        side_to_move: side,
                                                        castling,
                                                        en_passant: ep,
                                                        halfmove_clock: half as u32,
                                                        fullmove_number: full as u32,
                                                    },
                                                ),
                                            },
                                        },
                                    },
                                },
                            },
                        },
                    },
                },
            },
        },
    }
}

fn parse_rank(s: &Vec<char>, pos: usize) -> (r: Option<(usize, Vec<Option<Piece>>)>)
    requires
        pos <= s@.len(),
    ensures
        match r {
            Some((p, cells)) => read_rank(s@, pos as int) == Some((p as int, cells@)) && p <= s@.len(),
            None => read_rank(s@, pos as int) is None,
        },
{
    proof {
        lemma_rank_run_bound(s@, pos as int);
    }
    let ghost k = rank_run(s@, pos as int);
    let mut cells: Vec<Option<Piece>> = Vec::new();
    let mut i = pos;
    while i < s.len()
        invariant
            pos <= i <= pos + k <= s@.len(),
            k == rank_run(s@, pos as int),
            forall|j: int| pos <= j < pos + k ==> is_rank_char(#[trigger] s@[j]),
            pos + k < s@.len() ==> !is_rank_char(s@[pos + k]),
            cells@ == rank_cells(s@, pos as int, i as int),
            cells@.len() <= 8,
        ensures
            i == pos + k,
            cells@ == rank_cells(s@, pos as int, i as int),
            cells@.len() <= 8,
        decreases s@.len() - i,
    {
        let c = s[i];
        match fen_piece(c) {
            Some(p) => {
                if cells.len() >= 8 {
                    proof {
                        lemma_rank_cells_grow(s@, pos as int, i + 1, pos + k);
                    }
                    return None;
                }
                cells.push(Some(p));
            },
            None => {
                if '1' <= c && c <= '8' {
                    let n = (c as u32 - '0' as u32) as usize;
                    if cells.len() + n > 8 {
                        proof {
                            lemma_rank_cells_grow(s@, pos as int, i + 1, pos + k);
                        }
                        return None;
                    }
                    let ghost before = cells@;
                    let mut t: usize = 0;
                    while t < n
                        invariant
                            0 <= t <= n,
                            before.len() + n <= 8,
                            cells@ == before + Seq::new(t as nat, |j: int| None::<Piece>),
                        decreases n - t,
                    {
                        cells.push(None);
                        assert(cells@ =~= before + Seq::new((t + 1) as nat, |j: int| None::<Piece>));
                        t = t + 1;
                    }
                    assert(cells@ =~= before + rank_char_cells(c));
                } else {
                    break;
                }
            },
        }
        i = i + 1;
    }
    assert(i == pos + k);
    if i == pos || cells.len() != 8 {
        return None;
    }
    Some((i, cells))
}

/// The squares of a longer run of rank characters are at least as many.
proof fn lemma_rank_cells_grow(s: Seq<char>, from: int, to: int, to2: int)
    requires
        from <= to <= to2,
    ensures
        rank_cells(s, from, to).len() <= rank_cells(s, from, to2).len(),
    decreases to2 - to,
{
    if to2 > to {
        lemma_rank_cells_grow(s, from, to, to2 - 1);
    }
}

fn parse_board(s: &Vec<char>, pos: usize) -> (r: Option<(usize, [Option<Piece>; 64])>)
    requires
        pos <= s@.len(),
    ensures
        match r {
            Some((p, squares)) => read_board(s@, pos as int) == Some((p as int, squares@)) && p
                <= s@.len(),
            None => read_board(s@, pos as int) is None,
        },
{
    let (mut i, first) = match parse_rank(s, pos) {
        None => {
            return None;
        },
        Some(x) => x,
    };
    let mut ranks: Vec<Vec<Option<Piece>>> = Vec::new();
    ranks.push(first);
    let ghost e = i as int;
    loop
        invariant
            pos <= e <= i <= s@.len(),
            read_rank(s@, pos as int) matches Some((e1, c1)) && e1 == e && c1 == ranks@[0]@,
            ranks@.len() >= 1,
            forall|j: int| 0 <= j < ranks@.len() ==> (#[trigger] ranks@[j])@.len() == 8,
            read_more_ranks(s@, e) == ({
                let (e2, rest) = read_more_ranks(s@, i as int);
                (e2, Seq::new((ranks@.len() - 1) as nat, |j: int| ranks@[j + 1]@) + rest)
            }),
        ensures
            pos <= e <= i <= s@.len(),
            read_rank(s@, pos as int) matches Some((e1, c1)) && e1 == e && c1 == ranks@[0]@,
            ranks@.len() >= 1,
            forall|j: int| 0 <= j < ranks@.len() ==> (#[trigger] ranks@[j])@.len() == 8,
            read_more_ranks(s@, e) == ({
                let (e2, rest) = read_more_ranks(s@, i as int);
                (e2, Seq::new((ranks@.len() - 1) as nat, |j: int| ranks@[j + 1]@) + rest)
            }),
            read_more_ranks(s@, i as int) == (i as int, Seq::<Seq<Option<Piece>>>::empty()),
        decreases s@.len() - i,
    {
        let ghost before = ranks@;
        if i < s.len() && s[i] == '/' {
            match parse_rank(s, i + 1) {
                Some((e2, cells)) => {
                    proof {
                        lemma_rank_run_bound(s@, i + 1);
                    }
                    ranks.push(cells);
                    let ghost (e3, rest3) = read_more_ranks(s@, e2 as int);
                    assert(Seq::new((before.len() - 1) as nat, |j: int| before[j + 1]@) + (seq![
                        ranks@[ranks@.len() - 1]@,
                    ] + rest3) =~= Seq::new((ranks@.len() - 1) as nat, |j: int| ranks@[j + 1]@)
                        + rest3);
                    i = e2;
                },
                None => {
                    break;
                },
            }
        } else {
            break;
        }
    }
    if ranks.len() != 8 {
        return None;
    }
    let mut squares: [Option<Piece>; 64] = [None; 64];
    let ghost all = Seq::new(8, |j: int| ranks@[j]@);
    let mut idx: usize = 0;
    while idx < 64
        invariant
            0 <= idx <= 64,
            ranks@.len() == 8,
            forall|j: int| 0 <= j < ranks@.len() ==> (#[trigger] ranks@[j])@.len() == 8,
            all == Seq::new(8, |j: int| ranks@[j]@),
            forall|j: int| 0 <= j < idx ==> squares@[j] == board_of_ranks(all)[j],
        decreases 64 - idx,
    {
        let rank_idx = 7 - idx / 8;
        let file = idx % 8;
        squares[idx] = ranks[rank_idx][file];
        idx = idx + 1;
    }
    proof {
        let (e2, rest) = read_more_ranks(s@, e);
        assert(seq![ranks@[0]@] + rest =~= all);
        assert(squares@ =~= board_of_ranks(all));
    }
    Some((i, squares))
}

fn parse_castling(s: &Vec<char>, pos: usize) -> (r: Option<(usize, CastlingRights)>)
    requires
        pos <= s@.len(),
    ensures
        match r {
            Some((p, c)) => read_castling(s@, pos as int) == Some((p as int, c)) && p <= s@.len(),
            None => read_castling(s@, pos as int) is None,
        },
{
    if pos < s.len() && s[pos] == '-' {
        return Some((pos + 1, CastlingRights::none()));
    }
    let mut rights = CastlingRights::none();
    let mut i = pos;
    while i < s.len() && (s[i] == 'K' || s[i] == 'Q' || s[i] == 'k' || s[i] == 'q')
        invariant
            pos <= i <= s@.len(),
            castling_run(s@, pos as int) == (i - pos) + castling_run(s@, i as int),
            rights == castling_of(s@, pos as int, i as int),
        decreases s@.len() - i,
    {
        let c = s[i];
        if c == 'K' {
            rights.white_kingside = true;
        } else if c == 'Q' {
            rights.white_queenside = true;
        } else if c == 'k' {
            rights.black_kingside = true;
        } else {
            rights.black_queenside = true;
        }
        i = i + 1;
    }
    if i == pos {
        return None;
    }
    Some((i, rights))
}

fn parse_en_passant(s: &Vec<char>, pos: usize) -> (r: Option<(usize, Option<Square>)>)
    requires
        pos <= s@.len(),
    ensures
        match r {
            Some((p, ep)) => read_en_passant(s@, pos as int) == Some((p as int, ep)) && p
                <= s@.len(),
            None => read_en_passant(s@, pos as int) is None,
        },
{
    if pos < s.len() && s[pos] == '-' {
        return Some((pos + 1, None));
    }
    if pos < s.len() && s.len() - pos >= 2 && 'a' <= s[pos] && s[pos] <= 'h' && '1' <= s[pos + 1] && s[pos + 1]
        <= '8' {
        let f = (s[pos] as u32 - 'a' as u32) as u8;
        let r = (s[pos + 1] as u32 - '1' as u32) as u8;
        return Some(
            (pos + 2, Some(Square { file: crate::file_from_u8(f), rank: crate::rank_from_u8(r) })),
        );
    }
    None
}

pub(crate) fn parse_fen_chars(s: &Vec<char>) -> (r: Option<Fen>)
    ensures
        match r {
            Some(f) => read_fen(s@) == Some(f@),
            None => read_fen(s@) is None,
        },
{
    let (p1, squares) = match parse_board(s, 0) {
        None => {
            return None;
        },
        Some(x) => x,
    };
    let p2 = match parse_blanks(s, p1) {
        None => {
            return None;
        },
        Some(p) => p,
    };
    let (p3, side_to_move) = if p2 < s.len() && s[p2] == 'w' {
        (p2 + 1, Color::White)
    } else if p2 < s.len() && s[p2] == 'b' {
        (p2 + 1, Color::Black)
    } else {
        return None;
    };
    let p4 = match parse_blanks(s, p3) {
        None => {
            return None;
        },
        Some(p) => p,
    };
    let (p5, castling) = match parse_castling(s, p4) {
        None => {
            return None;
        },
        Some(x) => x,
    };
    let p6 = match parse_blanks(s, p5) {
        None => {
            return None;
        },
        Some(p) => p,
    };
    let (p7, en_passant) = match parse_en_passant(s, p6) {
        None => {
            return None;
        },
        Some(x) => x,
    };
    let p8 = match parse_blanks(s, p7) {
        None => {
            return None;
        },
        Some(p) => p,
    };
    let (p9, half) = match parse_uint(s, p8, 4294967295u64) {
        None => {
            return None;
        },
        Some(x) => x,
    };
    let p10 = match parse_blanks(s, p9) {
        None => {
            return None;
        },
        Some(p) => p,
    };
    let (_p11, full) = match parse_uint(s, p10, 4294967295u64) {
        None => {
            return None;
        },
        Some(x) => x,
    };
    Some(
        Fen {
            squares,
            side_to_move,
            castling,
            en_passant,
            halfmove_clock: half as u32,
            fullmove_number: full as u32,
        },
    )
}

// ---------------------------------------------------------------------------
// Writing

/// One rank written out from file `i` on, with `empty` empty squares pending
/// before it: pieces as letters, runs of empty squares as their count.
pub open spec fn row_text(row: Seq<Option<Piece>>, i: int, empty: nat) -> Seq<char>
    decreases 8 - i,
{
    if i >= 8 {
        if empty > 0 {
            seq![crate::text::digit_char(empty as int)]
        } else {
            seq![]
        }
    } else {
        match row[i] {
            Some(p) => (if empty > 0 {
                seq![crate::text::digit_char(empty as int)]
            } else {
                seq![]
            }) + seq![piece_letter(p)] + row_text(row, i + 1, 0),
            None => row_text(row, i + 1, empty + 1),
        }
    }
}

/// The squares of rank `r` (0 for rank 1), file a first.
pub open spec fn rank_row(squares: Seq<Option<Piece>>, r: int) -> Seq<Option<Piece>> {
    squares.subrange(r * 8, r * 8 + 8)
}

/// The castling field: the letters of the rights kept, in the order KQkq, or `-`.
pub open spec fn castling_text(c: CastlingRights) -> Seq<char> {
    let t = (if c.white_kingside {
        seq!['K']
    } else {
        seq![]
    }) + (if c.white_queenside {
        seq!['Q']
    } else {
        seq![]
    }) + (if c.black_kingside {
        seq!['k']
    } else {
        seq![]
    }) + (if c.black_queenside {
        seq!['q']
    } else {
        seq![]
    });
    if t.len() == 0 {
        seq!['-']
    } else {
        t
    }
}

/// The letter of a file.
pub open spec fn file_letter(n: int) -> char {
    if n == 0 {
        'a'
    } else if n == 1 {
        'b'
    } else if n == 2 {
        'c'
    } else if n == 3 {
        'd'
    } else if n == 4 {
        'e'
    } else if n == 5 {
        'f'
    } else if n == 6 {
        'g'
    } else {
        'h'
    }
}

/// The en passant field: the square, or `-`.
pub open spec fn en_passant_text(ep: Option<Square>) -> Seq<char> {
    match ep {
        Some(sq) => seq![file_letter(file_num(sq.file)), crate::text::digit_char(rank_num(sq.rank) + 1)],
        None => seq!['-'],
    }
}

/// The FEN text of a position.
pub open spec fn fen_text(f: FenV) -> Seq<char> {
    board_text_top(f.squares, 0) + seq![
        ' ',
        if f.side_to_move == Color::White {
            'w'
        } else {
            'b'
        },
        ' ',
    ] + castling_text(f.castling) + seq![' '] + en_passant_text(f.en_passant) + seq![' ']
        + dec(f.halfmove_clock as nat) + seq![' '] + dec(f.fullmove_number as nat)
}

fn small_digit(n: u8) -> (c: char)
    requires
        1 <= n <= 8,
    ensures
        c == crate::text::digit_char(n as int),
{
    if n == 1 {
        '1'
    } else if n == 2 {
        '2'
    } else if n == 3 {
        '3'
    } else if n == 4 {
        '4'
    } else if n == 5 {
        '5'
    } else if n == 6 {
        '6'
    } else if n == 7 {
        '7'
    } else {
        '8'
    }
}

fn file_char(n: u8) -> (c: char)
    requires
        n < 8,
    ensures
        c == file_letter(n as int),
{
    if n == 0 {
        'a'
    } else if n == 1 {
        'b'
    } else if n == 2 {
        'c'
    } else if n == 3 {
        'd'
    } else if n == 4 {
        'e'
    } else if n == 5 {
        'f'
    } else if n == 6 {
        'g'
    } else {
        'h'
    }
}

impl Fen {
    /// The starting position: white to move, all castling rights, no en
    /// passant square, clocks at 0 and 1.
    pub fn startpos() -> (f: Fen)
        ensures
            f@ == startpos_view(),
    {
        let squares = startpos_squares();
        assert(squares@ =~= startpos_view().squares);
        Fen {
            squares,
            side_to_move: Color::White,
            castling: CastlingRights::all(),
            en_passant: None,
            halfmove_clock: 0,
            fullmove_number: 1,
        }
    }

    /// Reads a FEN record (see `read_fen`). What follows the fullmove number
    /// is not looked at. The error is a message of this library's own,
    /// `invalid FEN: ` and the input; it does not say where reading stopped.
    pub fn try_from(s: &str) -> (r: Result<Fen, String>)
        ensures
            match r {
                Ok(f) => read_fen(s@) == Some(f@),
                Err(e) => read_fen(s@) is None && e@ == "invalid FEN: "@ + s@,
            },
    {
        let cs = chars_of(s);
        match parse_fen_chars(&cs) {
            Some(f) => Ok(f),
            None => {
                let mut msg = String::new();
                push_str(&mut msg, "invalid FEN: ");
                push_str(&mut msg, s);
                Err(msg)
            },
        }
    }

    /// Appends rank `rank` of the placement: pieces as letters, runs of empty
    /// squares as their count.
    fn push_row(&self, rank: u8, out: &mut String)
        requires
            rank < 8,
        ensures
            final(out)@ == old(out)@ + row_text(rank_row(self.squares@, rank as int), 0, 0),
    {
        let ghost row = rank_row(self.squares@, rank as int);
        let ghost before = out@;
        let mut empty: u8 = 0;
        let mut file: u8 = 0;
        while file < 8
            invariant
                file <= 8,
                rank < 8,
                empty <= file,
                row == rank_row(self.squares@, rank as int),
                before + row_text(row, 0, 0) == out@ + row_text(row, file as int, empty as nat),
            decreases 8 - file,
        {
            let ghost mid = out@;
            let ghost e0 = empty;
            assert(row[file as int] == self.squares@[rank * 8 + file]);
            match self.squares[(rank * 8 + file) as usize] {
                Some(piece) => {
                    if empty > 0 {
                        push_char(out, small_digit(empty));
                        empty = 0;
                    }
                    push_char(out, piece_char(piece));
                    assert(mid + row_text(row, file as int, e0 as nat) =~= out@
                        + row_text(row, file + 1, 0));
                },
                None => {
                    empty = empty + 1;
                },
            }
            file = file + 1;
        }
        if empty > 0 {
            push_char(out, small_digit(empty));
        }
        assert(out@ =~= before + row_text(row, 0, 0));
    }

    /// Appends the placement, rank 8 first, ranks separated by `/`.
    fn push_board(&self, out: &mut String)
        ensures
            final(out)@ == old(out)@ + board_text_top(self.squares@, 0),
    {
        let ghost before = out@;
        let mut rank: u8 = 8;
        while rank > 0
            invariant
                rank <= 8,
                out@ == before + if rank == 8 {
                    Seq::<char>::empty()
                } else {
                    board_text_top(self.squares@, rank as int)
                },
            decreases rank,
        {
            rank = rank - 1;
            let ghost mid = out@;
            if rank < 7 {
                push_char(out, '/');
            }
            self.push_row(rank, out);
            assert(out@ =~= before + board_text_top(self.squares@, rank as int));
        }
    }

    /// The FEN text of this position.
    #[allow(clippy::inherent_to_string)]
    pub fn to_string(&self) -> (t: String)
        ensures
            t@ == fen_text(self@),
    {
        let mut out = String::new();
        self.push_board(&mut out);
        let ghost t0 = out@;
        push_char(&mut out, ' ');
        push_char(
            &mut out,
            match self.side_to_move {
                Color::White => 'w',
                Color::Black => 'b',
            },
        );
        push_char(&mut out, ' ');
        let ghost t1 = out@;
        self.push_castling(&mut out);
        let ghost t2 = out@;
        push_char(&mut out, ' ');
        self.push_en_passant(&mut out);
        let ghost t3 = out@;
        push_char(&mut out, ' ');
        push_u64(&mut out, self.halfmove_clock as u64);
        let ghost t4 = out@;
        push_char(&mut out, ' ');
        push_u64(&mut out, self.fullmove_number as u64);
        assert(out@ =~= fen_text(self@));
        out
    }

    fn push_castling(&self, out: &mut String)
        ensures
            final(out)@ == old(out)@ + castling_text(self.castling),
    {
        let ghost before_castling = out@;
        let mut any = false;
        if self.castling.white_kingside {
            push_char(out, 'K');
            any = true;
        }
        if self.castling.white_queenside {
            push_char(out, 'Q');
            any = true;
        }
        if self.castling.black_kingside {
            push_char(out, 'k');
            any = true;
        }
        if self.castling.black_queenside {
            push_char(out, 'q');
            any = true;
        }
        if !any {
            push_char(out, '-');
        }
        assert(out@ =~= before_castling + castling_text(self.castling));
    }

    fn push_en_passant(&self, out: &mut String)
        ensures
            final(out)@ == old(out)@ + en_passant_text(self.en_passant),
    {
        match self.en_passant {
            Some(sq) => {
                push_char(out, file_char(crate::file_to_u8(sq.file)));
                push_char(out, small_digit(crate::rank_to_u8(sq.rank) + 1));
            },
            None => push_char(out, '-'),
        }
        assert(out@ =~= old(out)@ + en_passant_text(self.en_passant));
    }

}

/// Ranks 8 down to `r` written out, separated by `/`.
pub open spec fn board_text_top(squares: Seq<Option<Piece>>, r: int) -> Seq<char>
    decreases 8 - r,
{
    if r >= 7 {
        row_text(rank_row(squares, 7), 0, 0)
    } else {
        board_text_top(squares, r + 1) + seq!['/'] + row_text(rank_row(squares, r), 0, 0)
    }
}

/// The squares of the starting position.
fn startpos_squares() -> (squares: [Option<Piece>; 64])
    ensures
        squares@ == startpos_view().squares,
{
    let mut squares: [Option<Piece>; 64] = [None; 64];
    let mut idx: usize = 0;
    while idx < 64
        invariant
            0 <= idx <= 64,
            forall|j: int| 0 <= j < idx ==> #[trigger] squares@[j] == startpos_square(j),
        decreases 64 - idx,
    {
        let rank = idx / 8;
        let kind = back_rank_kind(idx % 8);
        squares[idx] = if rank == 0 {
            Some((Color::White, kind))
        } else if rank == 1 {
            Some((Color::White, Kind::Pawn))
        } else if rank == 6 {
            Some((Color::Black, Kind::Pawn))
        } else if rank == 7 {
            Some((Color::Black, kind))
        } else {
            None
        };
        idx = idx + 1;
    }
    assert(squares@ =~= startpos_view().squares);
    squares
}

/// The piece kind standing on file `file` of a back rank at the start.
fn back_rank_kind(file: usize) -> (k: Kind)
    requires
        file < 8,
    ensures
        k == back_rank(file as int),
{
    if file == 0 || file == 7 {
        Kind::Rook
    } else if file == 1 || file == 6 {
        Kind::Knight
    } else if file == 2 || file == 5 {
        Kind::Bishop
    } else if file == 3 {
        Kind::Queen
    } else {
        Kind::King
    }
}

/// The kind of piece that starts on file `file` of the back ranks.
pub open spec fn back_rank(file: int) -> Kind {
    if file == 0 || file == 7 {
        Kind::Rook
    } else if file == 1 || file == 6 {
        Kind::Knight
    } else if file == 2 || file == 5 {
        Kind::Bishop
    } else if file == 3 {
        Kind::Queen
    } else {
        Kind::King
    }
}

/// What stands on square `i` in the starting position.
pub open spec fn startpos_square(i: int) -> Option<Piece> {
    let r = i / 8;
    let f = i % 8;
    if r == 0 {
        Some((Color::White, back_rank(f)))
    } else if r == 1 {
        Some((Color::White, Kind::Pawn))
    } else if r == 6 {
        Some((Color::Black, Kind::Pawn))
    } else if r == 7 {
        Some((Color::Black, back_rank(f)))
    } else {
        None
    }
}

/// The starting position.
pub open spec fn startpos_view() -> FenV {
    FenV {
        squares: Seq::new(64, |i: int| startpos_square(i)),
        side_to_move: Color::White,
        castling: CastlingRights {
            white_kingside: true,
            white_queenside: true,
            black_kingside: true,
            black_queenside: true,
        },
        en_passant: None,
        halfmove_clock: 0,
        fullmove_number: 1,
    }
}

} // verus!
