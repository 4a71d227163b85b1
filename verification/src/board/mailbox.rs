//! The mailbox board: 64 squares, each empty or holding a piece.
use vstd::prelude::*;
use vstd::string::StringSliceAdditionalSpecFns;

use crate::text::push_str;

use crate::board::rules::{
    perft_sum,
    moved_squares,
    castling_after_touch,
    king_steps_upto, knight_moves_upto, may_castle, mk_move, pawn_capture, pawn_dir,
    pawn_pushes, promotions, slide_moves, slider_moves_upto, step_move,
    first_piece, holds, king_hit, king_step, knight_hit, knight_jump, ray_hit, slide_dir,
    slider_attacks,
    after_move, attacked, in_check, keep_legal, king_moves, king_square,
    king_square_below, knight_moves, legal_moves, move_fits, moves_fit, on_board, pawn_moves,
    perft_count, perft_fits, piece_moves, pseudo_moves, pseudo_moves_upto, slider_moves,
};
use crate::{Board, Fen, FenV, square_index, square_of_index, CastlingRights, Color, Kind, Move, Piece, Promotion, Square};

verus! {

/// The index of the square on file `file`, rank `rank`.
pub fn sq(file: u8, rank: u8) -> (r: u8)
    requires
        rank * 8 + file <= u8::MAX,
    ensures
        r == rank * 8 + file,
{
    rank * 8 + file
}

/// The file of square index `sq`.
pub fn file_of(sq: u8) -> (r: u8)
    ensures
        r == sq % 8,
{
    sq % 8
}

/// The rank of square index `sq`.
pub fn rank_of(sq: u8) -> (r: u8)
    ensures
        r == sq / 8,
{
    sq / 8
}

/// The index of the square named by two characters, file letter then rank
/// digit (such as `e4`), read from the UTF-8 bytes of `s`.
pub fn parse_square(s: &str) -> (r: Result<u8, String>)
    ensures
        ({
            let b = s.spec_bytes();
            let ok = b.len() == 2 && 97 <= b[0] < 105 && 49 <= b[1] < 57;
            &&& ok ==> r == Ok::<u8, String>(((b[1] - 49) * 8 + (b[0] - 97)) as u8)
            &&& !ok ==> (r matches Err(e) && e@ == "invalid square: "@ + s@)
        }),
{
    let bytes = s.as_bytes();
    if bytes.len() == 2 && bytes[0] >= 97 && bytes[0] - 97 < 8 && bytes[1] >= 49 && bytes[1] - 49
        < 8 {
        let file = bytes[0] - 97;
        let rank = bytes[1] - 49;
        return Ok(sq(file, rank));
    }
    let mut msg = String::new();
    push_str(&mut msg, "invalid square: ");
    push_str(&mut msg, s);
    Err(msg)
}

/// The knight jump numbered `k` (in the order the board tries them).
fn knight_jump_at(k: usize) -> (d: (i8, i8))
    requires
        k < 8,
    ensures
        d.0 == knight_jump(k as int).0,
        d.1 == knight_jump(k as int).1,
{
    if k == 0 {
        (-2, -1)
    } else if k == 1 {
        (-2, 1)
    } else if k == 2 {
        (-1, -2)
    } else if k == 3 {
        (-1, 2)
    } else if k == 4 {
        (1, -2)
    } else if k == 5 {
        (1, 2)
    } else if k == 6 {
        (2, -1)
    } else {
        (2, 1)
    }
}

/// The king step numbered `k`.
fn king_step_at(k: usize) -> (d: (i8, i8))
    requires
        k < 8,
    ensures
        d.0 == king_step(k as int).0,
        d.1 == king_step(k as int).1,
{
    if k == 0 {
        (-1, -1)
    } else if k == 1 {
        (-1, 0)
    } else if k == 2 {
        (-1, 1)
    } else if k == 3 {
        (0, -1)
    } else if k == 4 {
        (0, 1)
    } else if k == 5 {
        (1, -1)
    } else if k == 6 {
        (1, 0)
    } else {
        (1, 1)
    }
}

/// Direction `k` of the diagonal (`diagonal`) or orthogonal set.
fn slide_dir_at(diagonal: bool, k: usize) -> (d: (i8, i8))
    requires
        k < 4,
    ensures
        d.0 == slide_dir(diagonal, k as int).0,
        d.1 == slide_dir(diagonal, k as int).1,
        -1 <= d.0 <= 1,
        -1 <= d.1 <= 1,
        d.0 != 0 || d.1 != 0,
{
    if diagonal {
        if k == 0 {
            (-1, -1)
        } else if k == 1 {
            (-1, 1)
        } else if k == 2 {
            (1, -1)
        } else {
            (1, 1)
        }
    } else {
        if k == 0 {
            (-1, 0)
        } else if k == 1 {
            (1, 0)
        } else if k == 2 {
            (0, -1)
        } else {
            (0, 1)
        }
    }
}

/// The move from square index `from` to square index `to`.
fn mv(from: u8, to: u8, promotion: Option<Promotion>) -> (m: Move)
    requires
        from < 64,
        to < 64,
    ensures
        m == mk_move(from as int, to as int, promotion),
{
    Move { from: Square::from_index(from), to: Square::from_index(to), promotion }
}

/// Appends the moves of a pawn arriving on `to`: the four promotions, queen
/// first, when `promote`, else the plain move.
fn push_pawn_arrival(from: u8, to: u8, promote: bool, moves: &mut Vec<Move>)
    requires
        from < 64,
        to < 64,
    ensures
        final(moves)@ == old(moves)@ + (if promote {
            promotions(from as int, to as int)
        } else {
            seq![mk_move(from as int, to as int, None)]
        }),
{
    if promote {
        moves.push(mv(from, to, Some(Promotion::Queen)));
        moves.push(mv(from, to, Some(Promotion::Rook)));
        moves.push(mv(from, to, Some(Promotion::Bishop)));
        moves.push(mv(from, to, Some(Promotion::Knight)));
        assert(final(moves)@ =~= old(moves)@ + promotions(from as int, to as int));
    } else {
        moves.push(mv(from, to, None));
    }
}

/// Once a king is found below `n`, looking further does not change the answer.
proof fn lemma_king_square_stable(b: Mailbox, color: Color, n: int, m: int)
    requires
        0 <= n <= m,
        king_square_below(b, color, n) is Some,
    ensures
        king_square_below(b, color, m) == king_square_below(b, color, n),
    decreases m - n,
{
    if m > n {
        lemma_king_square_stable(b, color, n, m - 1);
    }
}

/// A position: what stands on each square, whose turn it is, castling
/// rights, the en passant target square and the two clocks.
#[derive(Debug, Clone, Copy, PartialEq, Eq)]
pub struct Mailbox {
    pub squares: [Option<Piece>; 64],
    pub side_to_move: Color,
    pub castling: CastlingRights,
    pub en_passant: Option<u8>,
    pub halfmove_clock: u32,
    pub fullmove_number: u32,
}

impl Mailbox {
    /// The empty board, white to move, no castling, clocks at 0 and 1.
    pub fn empty() -> (b: Self)
        ensures
            forall|i: int| 0 <= i < 64 ==> (b.squares@[i] is None),
            b.side_to_move == Color::White,
            b.castling == (CastlingRights {
                white_kingside: false,
                white_queenside: false,
                black_kingside: false,
                black_queenside: false,
            }),
            (b.en_passant is None),
            b.halfmove_clock == 0,
            b.fullmove_number == 1,
    {
        Mailbox {
            squares: [None; 64],
            side_to_move: Color::White,
            castling: CastlingRights::none(),
            en_passant: None,
            halfmove_clock: 0,
            fullmove_number: 1,
        }
    }

    /// Puts `piece` (or nothing) on square `sq`.
    pub fn set_piece(&mut self, sq: u8, piece: Option<Piece>)
        requires
            sq < 64,
        ensures
            final(self).squares@ == old(self).squares@.update(sq as int, piece),
            final(self).side_to_move == old(self).side_to_move,
            final(self).castling == old(self).castling,
            final(self).en_passant == old(self).en_passant,
            final(self).halfmove_clock == old(self).halfmove_clock,
            final(self).fullmove_number == old(self).fullmove_number,
    {
        self.squares[sq as usize] = piece;
    }

    fn piece_at_idx(&self, sq: u8) -> (r: Option<Piece>)
        requires
            sq < 64,
        ensures
            r == self.squares@[sq as int],
    {
        self.squares[sq as usize]
    }

    /// File `f`, rank `r` is on the board and holds exactly `p`.
    fn holds_at(&self, f: i8, r: i8, p: Piece) -> (res: bool)
        ensures
            res == holds(*self, f as int, r as int, p),
    {
        if 0 <= f && f < 8 && 0 <= r && r < 8 {
            match self.piece_at_idx((r * 8 + f) as u8) {
                Some((c, k)) => c == p.0 && k == p.1,
                None => false,
            }
        } else {
            false
        }
    }

    /// The first piece met walking from file `f0`, rank `r0` (included) in
    /// direction (`df`, `dr`), starting one step away from a file of the board
    /// and a rank at or above the first.
    fn first_piece_from(&self, f0: i8, r0: i8, df: i8, dr: i8) -> (res: Option<Piece>)
        requires
            0 <= f0 - df < 8,
            0 <= r0 - dr < 32,
            -1 <= df <= 1,
            -1 <= dr <= 1,
            df != 0 || dr != 0,
        ensures
            res == first_piece(*self, f0 as int, r0 as int, df as int, dr as int, 8),
    {
        let mut f = f0;
        let mut r = r0;
        let ghost mut fuel: nat = 8;
        let ghost mut k: int = 0;
        while 0 <= f && f < 8 && 0 <= r && r < 8
            invariant
                0 <= f0 - df < 8,
                0 <= r0 - dr < 32,
                -1 <= df <= 1,
                -1 <= dr <= 1,
                df != 0 || dr != 0,
                k >= 0,
                k > 0 ==> on_board(f0 as int, r0 as int),
                fuel == 8 - k,
                f == f0 + k * df,
                r == r0 + k * dr,
                first_piece(*self, f0 as int, r0 as int, df as int, dr as int, 8) == first_piece(
                    *self,
                    f as int,
                    r as int,
                    df as int,
                    dr as int,
                    fuel,
                ),
            decreases fuel,
        {
            assert(k <= 7) by {
                if df == 1 {
                    assert(f == f0 + k);
                } else if df == -1 {
                    assert(f == f0 - k) by (nonlinear_arith)
                        requires
                            f == f0 + k * df,
                            df == -1,
                    ;
                } else if dr == 1 {
                    assert(r == r0 + k);
                } else {
                    assert(r == r0 - k) by (nonlinear_arith)
                        requires
                            r == r0 + k * dr,
                            dr == -1,
                    ;
                }
            }
            match self.piece_at_idx((r * 8 + f) as u8) {
                Some(p) => {
                    return Some(p);
                },
                None => {},
            }
            f = f + df;
            r = r + dr;
            proof {
                fuel = (fuel - 1) as nat;
                k = k + 1;
                assert(f == f0 + k * df) by (nonlinear_arith)
                    requires
                        f == f0 + (k - 1) * df + df,
                ;
                assert(r == r0 + k * dr) by (nonlinear_arith)
                    requires
                        r == r0 + (k - 1) * dr + dr,
                ;
            }
        }
        None
    }

    fn gen_pawn_moves(&self, from: u8, moves: &mut Vec<Move>)
        requires
            from < 64,
        ensures
            final(moves)@ == old(moves)@ + pawn_moves(*self, from as int),
    {
        let color = self.side_to_move;
        let f = file_of(from) as i8;
        let r = rank_of(from) as i8;
        let dir: i8 = match color {
            Color::White => 1,
            Color::Black => -1,
        };
        let start_rank: i8 = match color {
            Color::White => 1,
            Color::Black => 6,
        };
        let promo_rank: i8 = match color {
            Color::White => 7,
            Color::Black => 0,
        };
        let ghost b = *self;
        let ghost m0 = old(moves)@;

        let to_r = r + dir;
        if to_r >= 0 && to_r < 8 {
            let to_sq = sq(f as u8, to_r as u8);
            if self.piece_at_idx(to_sq).is_none() {
                if to_r == promo_rank {
                    push_pawn_arrival(from, to_sq, true, moves);
                } else {
                    moves.push(mv(from, to_sq, None));
                    if r == start_rank {
                        let to_sq2 = sq(f as u8, (r + 2 * dir) as u8);
                        if self.piece_at_idx(to_sq2).is_none() {
                            moves.push(mv(from, to_sq2, None));
                        }
                    }
                }
            }
            assert(moves@ =~= m0 + pawn_pushes(b, from as int));
            let ghost m1 = moves@;
            self.push_pawn_capture(from, -1, moves);
            self.push_pawn_capture(from, 1, moves);
            assert(moves@ =~= m0 + pawn_moves(b, from as int));
        }
    }

    fn push_pawn_capture(&self, from: u8, df: i8, moves: &mut Vec<Move>)
        requires
            from < 64,
            df == -1 || df == 1,
            0 <= from / 8 + pawn_dir(self.side_to_move) < 8,
        ensures
            final(moves)@ == old(moves)@ + pawn_capture(*self, from as int, df as int),
    {
        let color = self.side_to_move;
        let f = file_of(from) as i8;
        let r = rank_of(from) as i8;
        let dir: i8 = match color {
            Color::White => 1,
            Color::Black => -1,
        };
        let promo_rank: i8 = match color {
            Color::White => 7,
            Color::Black => 0,
        };
        let to_r = r + dir;
        let cf = f + df;
        if cf < 0 || cf >= 8 {
            return;
        }
        let cap_sq = sq(cf as u8, to_r as u8);
        let is_capture = match self.piece_at_idx(cap_sq) {
            Some((c, _)) => c != color,
            None => match self.en_passant {
                Some(ep) => ep == cap_sq,
                None => false,
            },
        };
        if is_capture {
            push_pawn_arrival(from, cap_sq, to_r == promo_rank, moves);
        }
    }

    /// Appends the single step from `from` by (`df`, `dr`) if it lands on the
    /// board and not on a piece of the side to move.
    fn push_step(&self, from: u8, df: i8, dr: i8, moves: &mut Vec<Move>)
        requires
            from < 64,
            -2 <= df <= 2,
            -2 <= dr <= 2,
        ensures
            final(moves)@ == old(moves)@ + step_move(*self, from as int, df as int, dr as int),
    {
        let color = self.side_to_move;
        let tf = file_of(from) as i8 + df;
        let tr = rank_of(from) as i8 + dr;
        if tf < 0 || tf >= 8 || tr < 0 || tr >= 8 {
            return;
        }
        let to_sq = sq(tf as u8, tr as u8);
        match self.piece_at_idx(to_sq) {
            Some((c, _)) => {
                if c != color {
                    moves.push(mv(from, to_sq, None));
                }
            },
            None => moves.push(mv(from, to_sq, None)),
        }
    }

    fn gen_knight_moves(&self, from: u8, moves: &mut Vec<Move>)
        requires
            from < 64,
        ensures
            final(moves)@ == old(moves)@ + knight_moves(*self, from as int),
    {
        let ghost m0 = old(moves)@;
        let mut k: usize = 0;
        while k < 8
            invariant
                0 <= k <= 8,
                from < 64,
                moves@ == m0 + knight_moves_upto(*self, from as int, k as int),
            decreases 8 - k,
        {
            let (df, dr) = knight_jump_at(k);
            self.push_step(from, df, dr, moves);
            assert(moves@ =~= m0 + knight_moves_upto(*self, from as int, k + 1));
            k = k + 1;
        }
    }

    /// Appends the moves of a slider on `from` walking in direction (`df`, `dr`).
    fn push_ray(&self, from: u8, df: i8, dr: i8, moves: &mut Vec<Move>)
        requires
            from < 64,
            -1 <= df <= 1,
            -1 <= dr <= 1,
            df != 0 || dr != 0,
        ensures
            final(moves)@ == old(moves)@ + slide_moves(
                *self,
                from as int,
                from % 8 + df,
                from / 8 + dr,
                df as int,
                dr as int,
                7,
            ),
    {
        let color = self.side_to_move;
        let f0 = file_of(from) as i8 + df;
        let r0 = rank_of(from) as i8 + dr;
        let mut f = f0;
        let mut r = r0;
        let mut blocked = false;
        let ghost m0 = old(moves)@;
        let ghost mut fuel: nat = 7;
        let ghost mut k: int = 0;
        while !blocked && 0 <= f && f < 8 && 0 <= r && r < 8
            invariant
                from < 64,
                color == self.side_to_move,
                f0 == from % 8 + df,
                r0 == from / 8 + dr,
                -1 <= df <= 1,
                -1 <= dr <= 1,
                df != 0 || dr != 0,
                k >= 0,
                fuel == 7 - k,
                f == f0 + k * df,
                r == r0 + k * dr,
                blocked ==> m0 + slide_moves(
                    *self,
                    from as int,
                    f0 as int,
                    r0 as int,
                    df as int,
                    dr as int,
                    7,
                ) == moves@,
                !blocked ==> m0 + slide_moves(
                    *self,
                    from as int,
                    f0 as int,
                    r0 as int,
                    df as int,
                    dr as int,
                    7,
                ) == moves@ + slide_moves(
                    *self,
                    from as int,
                    f as int,
                    r as int,
                    df as int,
                    dr as int,
                    fuel,
                ),
            decreases fuel + (if blocked {
                0nat
            } else {
                1nat
            }),
        {
            assert(k <= 6) by {
                if df == 1 {
                    assert(f == f0 + k);
                } else if df == -1 {
                    assert(f == f0 - k) by (nonlinear_arith)
                        requires
                            f == f0 + k * df,
                            df == -1,
                    ;
                } else if dr == 1 {
                    assert(r == r0 + k);
                } else {
                    assert(r == r0 - k) by (nonlinear_arith)
                        requires
                            r == r0 + k * dr,
                            dr == -1,
                    ;
                }
            }
            let to_sq = sq(f as u8, r as u8);
            let ghost before = moves@;
            match self.piece_at_idx(to_sq) {
                Some((c, _)) => {
                    if c != color {
                        moves.push(mv(from, to_sq, None));
                    }
                    blocked = true;
                    assert(before + slide_moves(
                        *self,
                        from as int,
                        f as int,
                        r as int,
                        df as int,
                        dr as int,
                        fuel,
                    ) =~= moves@);
                },
                None => {
                    moves.push(mv(from, to_sq, None));
                    let ghost rest = slide_moves(
                        *self,
                        from as int,
                        f + df,
                        r + dr,
                        df as int,
                        dr as int,
                        (fuel - 1) as nat,
                    );
                    assert(before + slide_moves(
                        *self,
                        from as int,
                        f as int,
                        r as int,
                        df as int,
                        dr as int,
                        fuel,
                    ) =~= moves@ + rest);
                    f = f + df;
                    r = r + dr;
                    proof {
                        fuel = (fuel - 1) as nat;
                        k = k + 1;
                        assert(f == f0 + k * df) by (nonlinear_arith)
                            requires
                                f == f0 + (k - 1) * df + df,
                        ;
                        assert(r == r0 + k * dr) by (nonlinear_arith)
                            requires
                                r == r0 + (k - 1) * dr + dr,
                        ;
                    }
                },
            }
        }
        if !blocked {
            assert(moves@ =~= moves@ + slide_moves(
                *self,
                from as int,
                f as int,
                r as int,
                df as int,
                dr as int,
                fuel,
            ));
        }
    }

    fn gen_sliding_moves(&self, from: u8, diagonal: bool, moves: &mut Vec<Move>)
        requires
            from < 64,
        ensures
            final(moves)@ == old(moves)@ + slider_moves(*self, from as int, diagonal),
    {
        let ghost m0 = old(moves)@;
        let mut k: usize = 0;
        while k < 4
            invariant
                0 <= k <= 4,
                from < 64,
                moves@ == m0 + slider_moves_upto(*self, from as int, diagonal, k as int),
            decreases 4 - k,
        {
            let (df, dr) = slide_dir_at(diagonal, k);
            self.push_ray(from, df, dr, moves);
            assert(moves@ =~= m0 + slider_moves_upto(*self, from as int, diagonal, k + 1));
            k = k + 1;
        }
    }

    fn gen_king_moves(&self, from: u8, moves: &mut Vec<Move>)
        requires
            from < 64,
        ensures
            final(moves)@ == old(moves)@ + king_moves(*self, from as int),
    {
        let ghost m0 = old(moves)@;
        let color = self.side_to_move;
        let mut k: usize = 0;
        while k < 8
            invariant
                0 <= k <= 8,
                from < 64,
                moves@ == m0 + king_steps_upto(*self, from as int, k as int),
            decreases 8 - k,
        {
            let (df, dr) = king_step_at(k);
            self.push_step(from, df, dr, moves);
            assert(moves@ =~= m0 + king_steps_upto(*self, from as int, k + 1));
            k = k + 1;
        }
        let ghost m1 = moves@;
        let opp = color.opposite();
        let home: u8 = match color {
            Color::White => 0,
            Color::Black => 56,
        };
        let (kingside_right, queenside_right) = match color {
            Color::White => (self.castling.white_kingside, self.castling.white_queenside),
            Color::Black => (self.castling.black_kingside, self.castling.black_queenside),
        };
        if kingside_right && self.piece_at_idx(home + 5).is_none() && self.piece_at_idx(
            home + 6,
        ).is_none() && !self.is_attacked(home + 4, opp) && !self.is_attacked(home + 5, opp)
            && !self.is_attacked(home + 6, opp) {
            moves.push(mv(from, home + 6, None));
        }
        let ghost m2 = moves@;
        assert(m2 =~= m1 + (if may_castle(*self, true) {
            seq![mk_move(from as int, home + 6, None)]
        } else {
            seq![]
        }));
        if queenside_right && self.piece_at_idx(home + 3).is_none() && self.piece_at_idx(
            home + 2,
        ).is_none() && self.piece_at_idx(home + 1).is_none() && !self.is_attacked(home + 4, opp)
            && !self.is_attacked(home + 3, opp) && !self.is_attacked(home + 2, opp) {
            moves.push(mv(from, home + 2, None));
        }
        assert(moves@ =~= m0 + king_moves(*self, from as int));
    }

    /// Takes away the castling right of the rook whose corner square is `sq`.
    fn update_castling_for_square(&mut self, sq: u8)
        ensures
            *final(self) == (Mailbox {
                castling: castling_after_touch(old(self).castling, sq as int),
                ..*old(self)
            }),
    {
        if sq == 0 {
            self.castling.white_queenside = false;
        } else if sq == 7 {
            self.castling.white_kingside = false;
        } else if sq == 56 {
            self.castling.black_queenside = false;
        } else if sq == 63 {
            self.castling.black_kingside = false;
        }
    }

    /// Moves `piece`, standing on the from-square of `mov`, on the squares alone.
    fn move_pieces(&mut self, mov: &Move, piece: Piece)
        requires
            old(self).squares@[square_index(mov.from)] == Some(piece),
            move_fits(*old(self), *mov),
        ensures
            *final(self) == (Mailbox { squares: moved_squares(*old(self), *mov, piece), ..*old(self) }),
    {
        let ghost b = *old(self);
        let from: u8 = mov.from.index();
        let to: u8 = mov.to.index();
        let (color, kind) = piece;
        let ep_hit = kind == Kind::Pawn && match self.en_passant {
            Some(ep) => ep == to,
            None => false,
        };
        if ep_hit {
            let captured_sq = match color {
                Color::White => to - 8,
                Color::Black => to + 8,
            };
            self.set_piece(captured_sq, None);
        }
        self.set_piece(from, None);
        let placed = match mov.promotion {
            Some(promo) => (color, Kind::from(promo)),
            None => piece,
        };
        self.set_piece(to, Some(placed));
        if kind == Kind::King {
            if to == from + 2 {
                let rook = self.piece_at_idx(from + 3);
                self.set_piece(from + 3, None);
                self.set_piece(from + 1, rook);
            } else if from == to + 2 {
                let rook = self.piece_at_idx(from - 4);
                self.set_piece(from - 4, None);
                self.set_piece(from - 1, rook);
            }
        }
        let ghost want = moved_squares(b, *mov, piece);
        assert(self.squares@ =~= want@);
        assert(self.squares =~= want);
    }

    /// Plays `mov`: moves the piece (promoting it if asked), removes a pawn
    /// taken en passant, moves the rook along when the king moves two files,
    /// sets the en passant square after a double pawn push, updates castling
    /// rights, the clocks and the side to move. Moving from an empty square
    /// changes nothing.
    pub fn make_move(&mut self, mov: &Move)
        requires
            move_fits(*old(self), *mov),
        ensures
            *final(self) == after_move(*old(self), *mov),
    {
        let ghost b = *old(self);
        let from: u8 = mov.from.index();
        let to: u8 = mov.to.index();

        let piece = match self.piece_at_idx(from) {
            Some(p) => p,
            None => {
                return ;
            },
        };
        let (color, kind) = piece;
        let is_pawn = kind == Kind::Pawn;
        let ep_hit = is_pawn && match self.en_passant {
            Some(ep) => ep == to,
            None => false,
        };
        let is_capture = self.piece_at_idx(to).is_some() || ep_hit;

        self.move_pieces(mov, piece);

        self.en_passant = None;
        if is_pawn {
            if to == from + 16 || from == to + 16 {
                self.en_passant = Some((from + to) / 2);
            }
        }

        if kind == Kind::King {
            match color {
                Color::White => {
                    self.castling.white_kingside = false;
                    self.castling.white_queenside = false;
                },
                Color::Black => {
                    self.castling.black_kingside = false;
                    self.castling.black_queenside = false;
                },
            }
        }
        self.update_castling_for_square(from);
        self.update_castling_for_square(to);

        if is_pawn || is_capture {
            self.halfmove_clock = 0;
        } else {
            self.halfmove_clock = self.halfmove_clock + 1;
        }

        if color == Color::Black {
            self.fullmove_number = self.fullmove_number + 1;
        }

        self.side_to_move = self.side_to_move.opposite();
    }

    /// The first square, in index order, holding the king of `color`.
    pub fn find_king(&self, color: Color) -> (res: Option<u8>)
        ensures
            match res {
                Some(i) => i < 64 && king_square(*self, color) == Some(i as int),
                None => king_square(*self, color) is None,
            },
    {
        let mut i: u8 = 0;
        while i < 64
            invariant
                0 <= i <= 64,
                king_square_below(*self, color, i as int) is None,
            decreases 64 - i,
        {
            match self.piece_at_idx(i) {
                Some((c, k)) => {
                    if c == color && k == Kind::King {
                        proof {
                            assert(king_square_below(*self, color, i + 1) == Some(i as int));
                            lemma_king_square_stable(*self, color, i + 1, 64);
                        }
                        return Some(i);
                    }
                },
                None => {},
            }
            i = i + 1;
        }
        None
    }

    /// The king of `color` is on the board and attacked by the other side.
    pub fn is_in_check(&self, color: Color) -> (res: bool)
        ensures
            res == in_check(*self, color),
    {
        match self.find_king(color) {
            Some(king_sq) => self.is_attacked(king_sq, color.opposite()),
            None => false,
        }
    }

    /// All pseudo-legal moves of the side to move, piece by piece in square order.
    pub fn pseudo_legal_moves(&self) -> (moves: Vec<Move>)
        ensures
            moves@ == pseudo_moves(*self),
    {
        let mut moves: Vec<Move> = Vec::new();
        let us = self.side_to_move;
        let mut i: u8 = 0;
        while i < 64
            invariant
                0 <= i <= 64,
                us == self.side_to_move,
                moves@ == pseudo_moves_upto(*self, i as int),
            decreases 64 - i,
        {
            let ghost before = moves@;
            match self.piece_at_idx(i) {
                Some((color, kind)) => {
                    if color == us {
                        match kind {
                            Kind::Pawn => self.gen_pawn_moves(i, &mut moves),
                            Kind::Knight => self.gen_knight_moves(i, &mut moves),
                            Kind::Bishop => self.gen_sliding_moves(i, true, &mut moves),
                            Kind::Rook => self.gen_sliding_moves(i, false, &mut moves),
                            Kind::Queen => {
                                self.gen_sliding_moves(i, true, &mut moves);
                                self.gen_sliding_moves(i, false, &mut moves);
                            },
                            Kind::King => self.gen_king_moves(i, &mut moves),
                        }
                    }
                },
                None => {},
            }
            assert(moves@ =~= before + piece_moves(*self, i as int));
            i = i + 1;
        }
        moves
    }

    /// Move `mov` can be played without an index leaving the board or a clock overflowing.
    pub fn can_make_move(&self, mov: &Move) -> (res: bool)
        ensures
            res == move_fits(*self, *mov),
    {
        let from: u8 = mov.from.index();
        let to: u8 = mov.to.index();
        match self.piece_at_idx(from) {
            None => true,
            Some((color, kind)) => {
                let is_pawn = kind == Kind::Pawn;
                let ep_hit = is_pawn && match self.en_passant {
                    Some(ep) => ep == to,
                    None => false,
                };
                let is_capture = self.piece_at_idx(to).is_some() || ep_hit;
                let ep_ok = !ep_hit || match color {
                    Color::White => to >= 8,
                    Color::Black => to + 8 < 64,
                };
                let castle_ok = kind != Kind::King || ((to != from + 2 || from + 3 < 64) && (
                from != to + 2 || from >= 4));
                let half_ok = is_pawn || is_capture || self.halfmove_clock < u32::MAX;
                let full_ok = color != Color::Black || self.fullmove_number < u32::MAX;
                ep_ok && castle_ok && half_ok && full_ok
            },
        }
    }

    /// Every pseudo-legal move can be played without overflow, so that the
    /// legal moves can be generated.
    pub fn can_generate_moves(&self) -> (res: bool)
        ensures
            res == moves_fit(*self),
    {
        let moves = self.pseudo_legal_moves();
        let mut j: usize = 0;
        while j < moves.len()
            invariant
                0 <= j <= moves@.len(),
                moves@ == pseudo_moves(*self),
                forall|k: int| 0 <= k < j ==> move_fits(*self, #[trigger] moves@[k]),
            decreases moves@.len() - j,
        {
            if !self.can_make_move(&moves[j]) {
                return false;
            }
            j = j + 1;
        }
        true
    }

    /// The legal moves of the side to move: the pseudo-legal moves, in order,
    /// after which the mover's own king is not attacked.
    pub fn generate_moves(&self) -> (legal: Vec<Move>)
        requires
            moves_fit(*self),
        ensures
            legal@ == legal_moves(*self),
    {
        let moves = self.pseudo_legal_moves();
        let us = self.side_to_move;
        let mut legal: Vec<Move> = Vec::new();
        let mut j: usize = 0;
        while j < moves.len()
            invariant
                0 <= j <= moves@.len(),
                us == self.side_to_move,
                moves@ == pseudo_moves(*self),
                moves_fit(*self),
                legal@ == keep_legal(*self, moves@.take(j as int)),
            decreases moves@.len() - j,
        {
            let m = moves[j];
            let mut copy = *self;
            copy.make_move(&m);
            if !copy.is_in_check(us) {
                legal.push(m);
            }
            assert(moves@.take(j + 1).drop_last() =~= moves@.take(j as int));
            j = j + 1;
        }
        assert(moves@.take(moves@.len() as int) =~= moves@);
        legal
    }

    /// The square with index `target` is attacked by a piece of `by_color`:
    /// a pawn, knight or king within reach, or a slider with an open line.
    /// Any index is taken: its file is `target % 8` and its rank `target / 8`,
    /// so an index past the board names a point above the eighth rank.
    pub fn is_attacked(&self, target: u8, by_color: Color) -> (res: bool)
        ensures
            res == attacked(*self, target as int, by_color),
    {
        let tf = file_of(target) as i8;
        let tr = rank_of(target) as i8;

        let pawn_rank_offset: i8 = match by_color {
            Color::White => -1,
            Color::Black => 1,
        };
        if self.holds_at(tf - 1, tr + pawn_rank_offset, (by_color, Kind::Pawn)) || self.holds_at(
            tf + 1,
            tr + pawn_rank_offset,
            (by_color, Kind::Pawn),
        ) {
            return true;
        }
        let mut k: usize = 0;
        while k < 8
            invariant
                0 <= k <= 8,
                tf == target % 8,
                tr == target / 8,
                forall|j: int| 0 <= j < k ==> !knight_hit(*self, tf as int, tr as int, by_color, j),
            decreases 8 - k,
        {
            let (df, dr) = knight_jump_at(k);
            if self.holds_at(tf + df, tr + dr, (by_color, Kind::Knight)) {
                assert(knight_hit(*self, tf as int, tr as int, by_color, k as int));
                return true;
            }
            k = k + 1;
        }
        let mut k: usize = 0;
        while k < 8
            invariant
                0 <= k <= 8,
                tf == target % 8,
                tr == target / 8,
                forall|j: int| 0 <= j < k ==> !king_hit(*self, tf as int, tr as int, by_color, j),
            decreases 8 - k,
        {
            let (df, dr) = king_step_at(k);
            if self.holds_at(tf + df, tr + dr, (by_color, Kind::King)) {
                assert(king_hit(*self, tf as int, tr as int, by_color, k as int));
                return true;
            }
            k = k + 1;
        }
        if self.slider_reaches(tf, tr, by_color, true) {
            return true;
        }
        if self.slider_reaches(tf, tr, by_color, false) {
            return true;
        }
        false
    }

    /// A slider of `by_color` attacks file `tf`, rank `tr` along one of the
    /// diagonal (`diagonal`) or orthogonal directions.
    fn slider_reaches(&self, tf: i8, tr: i8, by_color: Color, diagonal: bool) -> (res: bool)
        requires
            0 <= tf < 8,
            0 <= tr < 32,
        ensures
            res == slider_attacks(*self, tf as int, tr as int, by_color, diagonal),
    {
        let mut k: usize = 0;
        while k < 4
            invariant
                0 <= k <= 4,
                0 <= tf < 8,
                0 <= tr < 32,
                forall|j: int|
                    0 <= j < k ==> !ray_hit(*self, tf as int, tr as int, by_color, diagonal, j),
            decreases 4 - k,
        {
            let (df, dr) = slide_dir_at(diagonal, k);
            match self.first_piece_from(tf + df, tr + dr, df, dr) {
                Some((c, kind)) => {
                    if c == by_color && (kind == Kind::Queen || (diagonal && kind == Kind::Bishop)
                        || (!diagonal && kind == Kind::Rook)) {
                        assert(ray_hit(*self, tf as int, tr as int, by_color, diagonal, k as int));
                        return true;
                    }
                },
                None => {},
            }
            k = k + 1;
        }
        false
    }
}

/// Every move kept by the legality filter is one of the moves it was given.
proof fn lemma_keep_legal_fits(b: Mailbox, ms: Seq<Move>)
    requires
        forall|i: int| 0 <= i < ms.len() ==> move_fits(b, #[trigger] ms[i]),
    ensures
        forall|i: int|
            0 <= i < keep_legal(b, ms).len() ==> move_fits(b, #[trigger] keep_legal(b, ms)[i]),
    decreases ms.len(),
{
    if ms.len() > 0 {
        let rest = ms.drop_last();
        assert forall|i: int| 0 <= i < rest.len() implies move_fits(b, #[trigger] rest[i]) by {
            assert(rest[i] == ms[i]);
        }
        lemma_keep_legal_fits(b, rest);
        assert(move_fits(b, ms[ms.len() - 1]));
        let kr = keep_legal(b, rest);
        let k = keep_legal(b, ms);
        assert forall|i: int| 0 <= i < k.len() implies move_fits(b, #[trigger] k[i]) by {
            if i < kr.len() {
                assert(k[i] == kr[i]);
            }
        }
    }
}

/// Legal moves of a board whose pseudo-legal moves all fit can be played.
proof fn lemma_legal_fits(b: Mailbox)
    requires
        moves_fit(b),
    ensures
        forall|i: int| 0 <= i < legal_moves(b).len() ==> move_fits(b, #[trigger] legal_moves(b)[i]),
{
    lemma_keep_legal_fits(b, pseudo_moves(b));
}

/// Perft counts are never negative.
proof fn lemma_perft_nonneg(b: Mailbox, depth: nat)
    ensures
        perft_count(b, depth) >= 0,
    decreases depth, 0nat,
{
    if depth >= 2 {
        lemma_perft_sum_nonneg(b, legal_moves(b), (depth - 1) as nat);
    }
}

proof fn lemma_perft_sum_nonneg(b: Mailbox, ms: Seq<Move>, depth: nat)
    ensures
        perft_sum(b, ms, depth) >= 0,
    decreases depth, ms.len() + 1,
{
    if ms.len() > 0 {
        lemma_perft_sum_nonneg(b, ms.drop_last(), depth);
        lemma_perft_nonneg(after_move(b, ms.last()), depth);
    }
}

/// A perft sum over a prefix of a move list is at most the sum over the whole list.
proof fn lemma_perft_sum_prefix(b: Mailbox, ms: Seq<Move>, depth: nat, k: int)
    requires
        0 <= k <= ms.len(),
    ensures
        perft_sum(b, ms.take(k), depth) <= perft_sum(b, ms, depth),
    decreases ms.len() - k,
{
    if k < ms.len() {
        lemma_perft_sum_prefix(b, ms, depth, k + 1);
        assert(ms.take(k + 1).drop_last() =~= ms.take(k));
        lemma_perft_nonneg(after_move(b, ms.take(k + 1).last()), depth);
    } else {
        assert(ms.take(k) =~= ms);
    }
}

/// The number of leaf positions `depth` plies below `board`, counting every
/// legal line of play.
pub fn perft(board: &Mailbox, depth: u32) -> (count: u64)
    requires
        perft_fits(*board, depth as nat),
        perft_count(*board, depth as nat) <= u64::MAX,
    ensures
        count == perft_count(*board, depth as nat),
    decreases depth,
{
    if depth == 0 {
        return 1;
    }
    let moves = board.generate_moves();
    if depth == 1 {
        return moves.len() as u64;
    }
    let ghost d = (depth - 1) as nat;
    let mut count: u64 = 0;
    let mut i: usize = 0;
    while i < moves.len()
        invariant
            0 <= i <= moves@.len(),
            depth >= 2,
            d == depth - 1,
            moves@ == legal_moves(*board),
            perft_fits(*board, depth as nat),
            perft_count(*board, depth as nat) == perft_sum(*board, moves@, d),
            perft_count(*board, depth as nat) <= u64::MAX,
            count == perft_sum(*board, moves@.take(i as int), d),
        decreases moves@.len() - i,
    {
        let m = moves[i];
        let mut copy = *board;
        proof {
            lemma_legal_fits(*board);
        }
        copy.make_move(&m);
        proof {
            lemma_legal_fits(*board);
            assert(perft_fits(after_move(*board, moves@[i as int]), d));
            assert(moves@.take(i + 1).drop_last() =~= moves@.take(i as int));
            lemma_perft_sum_prefix(*board, moves@, d, i + 1);
            lemma_perft_sum_nonneg(*board, moves@.take(i as int), d);
            lemma_perft_nonneg(copy, d);
            assert(perft_sum(*board, moves@.take(i + 1), d) == count + perft_count(copy, d));
        }
        let sub = perft(&copy, depth - 1);
        count = count + sub;
        i = i + 1;
    }
    assert(moves@.take(moves@.len() as int) =~= moves@);
    count
}


/// The pieces standing on `squares[0..n]`, in square order.
pub open spec fn pieces_upto(squares: Seq<Option<Piece>>, n: int) -> Seq<Piece>
    decreases n,
{
    if n <= 0 {
        seq![]
    } else {
        match squares[n - 1] {
            Some(p) => pieces_upto(squares, n - 1).push(p),
            None => pieces_upto(squares, n - 1),
        }
    }
}

/// The side in check, white looked at first.
pub open spec fn checked_side(b: Mailbox) -> Option<Color> {
    if in_check(b, Color::White) {
        Some(Color::White)
    } else if in_check(b, Color::Black) {
        Some(Color::Black)
    } else {
        None
    }
}

/// The side to move, when it has no legal move and its king is attacked.
pub open spec fn mated_side(b: Mailbox) -> Option<Color> {
    if legal_moves(b).len() == 0 && in_check(b, b.side_to_move) {
        Some(b.side_to_move)
    } else {
        None
    }
}

/// The FEN record of a board.
pub open spec fn mailbox_fen(b: Mailbox) -> FenV {
    FenV {
        squares: b.squares@,
        side_to_move: b.side_to_move,
        castling: b.castling,
        en_passant: match b.en_passant {
            Some(e) => Some(square_of_index(e as int)),
            None => None,
        },
        halfmove_clock: b.halfmove_clock,
        fullmove_number: b.fullmove_number,
    }
}

impl Board for Mailbox {
    open spec fn legal_move_seq(&self) -> Seq<Move> {
        legal_moves(*self)
    }

    open spec fn moves_listable(&self) -> bool {
        moves_fit(*self)
    }

    open spec fn playable(&self, m: Move) -> bool {
        move_fits(*self, m)
    }

    open spec fn after(&self, m: Move) -> Self {
        after_move(*self, m)
    }

    open spec fn describes(&self, f: FenV) -> bool {
        &&& self.squares@ == f.squares
        &&& self.side_to_move == f.side_to_move
        &&& self.castling == f.castling
        &&& self.en_passant == match f.en_passant {
            Some(sq) => Some(square_index(sq) as u8),
            None => None,
        }
        &&& self.halfmove_clock == f.halfmove_clock
        &&& self.fullmove_number == f.fullmove_number
    }

    open spec fn of_fen(f: FenV) -> Self {
        choose|b: Mailbox| b.describes(f)
    }

    open spec fn fen_writable(&self) -> bool {
        self.en_passant matches Some(e) ==> e < 64
    }

    open spec fn side(&self) -> Color {
        self.side_to_move
    }

    open spec fn fen_view(&self) -> FenV {
        mailbox_fen(*self)
    }

    fn move_iter(&self) -> (r: Vec<Move>) {
        self.generate_moves()
    }

    fn can_list_moves(&self) -> (r: bool) {
        self.can_generate_moves()
    }

    fn piece_iter(&self) -> (r: Vec<Piece>)
        ensures
            r@ == pieces_upto(self.squares@, 64),
    {
        let mut out: Vec<Piece> = Vec::new();
        let mut i: usize = 0;
        while i < 64
            invariant
                0 <= i <= 64,
                out@ == pieces_upto(self.squares@, i as int),
            decreases 64 - i,
        {
            match self.squares[i] {
                Some(p) => out.push(p),
                None => {},
            }
            i = i + 1;
        }
        out
    }

    fn piece_at(&self, sq: Square) -> (r: Option<Piece>)
        ensures
            r == self.squares@[square_index(sq)],
    {
        self.piece_at_idx(sq.index())
    }

    fn turn(&self) -> (r: Color) {
        self.side_to_move
    }

    fn check(&self) -> (r: Option<Color>)
        ensures
            r == checked_side(*self),
    {
        if self.is_in_check(Color::White) {
            Some(Color::White)
        } else if self.is_in_check(Color::Black) {
            Some(Color::Black)
        } else {
            None
        }
    }

    fn mate(&self) -> (r: Option<Color>)
        ensures
            r == mated_side(*self),
    {
        let turn = self.side_to_move;
        if self.generate_moves().len() == 0 && self.is_in_check(turn) {
            Some(turn)
        } else {
            None
        }
    }

    fn can_play(&self, m: Move) -> (r: bool) {
        self.can_make_move(&m)
    }

    fn do_move(&self, mov: Move) -> (r: Self) {
        let mut copy = *self;
        copy.make_move(&mov);
        copy
    }

    fn fen(&self) -> (r: Fen) {
        Fen {
            squares: self.squares,
            side_to_move: self.side_to_move,
            castling: self.castling,
            en_passant: match self.en_passant {
                Some(e) => Some(Square::from_index(e)),
                None => None,
            },
            halfmove_clock: self.halfmove_clock,
            fullmove_number: self.fullmove_number,
        }
    }

    fn from_fen(f: &Fen) -> (r: Self) {
        let r = Mailbox {
            squares: f.squares,
            side_to_move: f.side_to_move,
            castling: f.castling,
            en_passant: match f.en_passant {
                Some(sq) => Some(sq.index()),
                None => None,
            },
            halfmove_clock: f.halfmove_clock,
            fullmove_number: f.fullmove_number,
        };
        proof {
            let c = choose|b: Mailbox| b.describes(f@);
            assert(r.describes(f@));
            assert(c.describes(f@));
            assert(c.squares =~= r.squares);
        }
        r
    }
}

/// A board read from a FEN record writes back the same record, and a board
/// written as FEN and read back is the same board.
pub proof fn lemma_fen_roundtrip(b: Mailbox, f: FenV)
    ensures
        b.describes(f) ==> b.fen_view() == f,
        b.fen_writable() ==> b.describes(b.fen_view()),
{
    if b.describes(f) {
        match f.en_passant {
            Some(sq) => {
                crate::lemma_square_index_roundtrip(sq, 0);
            },
            None => {},
        }
    }
    match b.en_passant {
        Some(e) => {
            crate::lemma_square_index_roundtrip(square_of_index(0), e as int);
        },
        None => {},
    }
}

} // verus!
