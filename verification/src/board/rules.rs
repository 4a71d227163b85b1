//! The rules of movement as the mailbox board applies them, stated over
//! files and ranks numbered 0 to 7.
use vstd::array::spec_array_update;
use vstd::prelude::*;

use crate::board::mailbox::Mailbox;
use crate::{
    opposite_color, promotion_kind, square_index, square_of_index, Color, Kind, Move, Piece,
    Promotion,
};

verus! {

/// File `f` and rank `r` name a square of the board.
pub open spec fn on_board(f: int, r: int) -> bool {
    0 <= f < 8 && 0 <= r < 8
}

/// The index of the square on file `f` and rank `r`.
pub open spec fn sq_idx(f: int, r: int) -> int {
    r * 8 + f
}

/// What stands on file `f`, rank `r`.
pub open spec fn piece_on(b: Mailbox, f: int, r: int) -> Option<Piece> {
    b.squares@[sq_idx(f, r)]
}

/// File `f`, rank `r` is on the board and holds exactly the piece `p`.
pub open spec fn holds(b: Mailbox, f: int, r: int, p: Piece) -> bool {
    on_board(f, r) && piece_on(b, f, r) == Some(p)
}

/// The four diagonal directions, in the order the board scans them.
pub open spec fn diagonal_dir(k: int) -> (int, int) {
    if k == 0 {
        (-1, -1)
    } else if k == 1 {
        (-1, 1)
    } else if k == 2 {
        (1, -1)
    } else {
        (1, 1)
    }
}

/// The four orthogonal directions, in the order the board scans them.
pub open spec fn orthogonal_dir(k: int) -> (int, int) {
    if k == 0 {
        (-1, 0)
    } else if k == 1 {
        (1, 0)
    } else if k == 2 {
        (0, -1)
    } else {
        (0, 1)
    }
}

/// Direction `k` of the diagonal (`diagonal`) or orthogonal set.
pub open spec fn slide_dir(diagonal: bool, k: int) -> (int, int) {
    if diagonal {
        diagonal_dir(k)
    } else {
        orthogonal_dir(k)
    }
}

/// The eight knight jumps, in the order the board tries them.
pub open spec fn knight_jump(k: int) -> (int, int) {
    if k == 0 {
        (-2, -1)
    } else if k == 1 {
        (-2, 1)
    } else if k == 2 {
        (-1, -2)
    } else if k == 3 {
        (-1, 2)
    } else if k == 4 {
        (1, -2)
    } else if k == 5 {
        (1, 2)
    } else if k == 6 {
        (2, -1)
    } else {
        (2, 1)
    }
}

/// The eight king steps, file offset first, in the order the board tries them.
pub open spec fn king_step(k: int) -> (int, int) {
    if k == 0 {
        (-1, -1)
    } else if k == 1 {
        (-1, 0)
    } else if k == 2 {
        (-1, 1)
    } else if k == 3 {
        (0, -1)
    } else if k == 4 {
        (0, 1)
    } else if k == 5 {
        (1, -1)
    } else if k == 6 {
        (1, 0)
    } else {
        (1, 1)
    }
}

/// The first piece met when walking from file `f`, rank `r` (included) in
/// direction (`df`, `dr`), looking at no more than `fuel` squares.
pub open spec fn first_piece(b: Mailbox, f: int, r: int, df: int, dr: int, fuel: nat) -> Option<
    Piece,
>
    decreases fuel,
{
    if fuel == 0 || !on_board(f, r) {
        None
    } else {
        match piece_on(b, f, r) {
            Some(p) => Some(p),
            None => first_piece(b, f + df, r + dr, df, dr, (fuel - 1) as nat),
        }
    }
}

/// A pawn of `by` attacks file `tf`, rank `tr`.
pub open spec fn pawn_attacks(b: Mailbox, tf: int, tr: int, by: Color) -> bool {
    let off: int = if by == Color::White {
        -1
    } else {
        1
    };
    holds(b, tf - 1, tr + off, (by, Kind::Pawn)) || holds(b, tf + 1, tr + off, (by, Kind::Pawn))
}

/// Knight jump `k` away from the target stands a knight of `by`.
pub open spec fn knight_hit(b: Mailbox, tf: int, tr: int, by: Color, k: int) -> bool {
    holds(b, tf + knight_jump(k).0, tr + knight_jump(k).1, (by, Kind::Knight))
}

/// A knight of `by` attacks file `tf`, rank `tr`.
pub open spec fn knight_attacks(b: Mailbox, tf: int, tr: int, by: Color) -> bool {
    exists|k: int| 0 <= k < 8 && #[trigger] knight_hit(b, tf, tr, by, k)
}

/// King step `k` away from the target stands the king of `by`.
pub open spec fn king_hit(b: Mailbox, tf: int, tr: int, by: Color, k: int) -> bool {
    holds(b, tf + king_step(k).0, tr + king_step(k).1, (by, Kind::King))
}

/// The king of `by` stands next to file `tf`, rank `tr`.
pub open spec fn king_attacks(b: Mailbox, tf: int, tr: int, by: Color) -> bool {
    exists|k: int| 0 <= k < 8 && #[trigger] king_hit(b, tf, tr, by, k)
}

/// Along direction `k` the first piece seen from the target is a slider of `by`
/// that moves that way: a bishop or queen on diagonals, a rook or queen on lines.
pub open spec fn ray_hit(b: Mailbox, tf: int, tr: int, by: Color, diagonal: bool, k: int) -> bool {
    let (df, dr) = slide_dir(diagonal, k);
    match first_piece(b, tf + df, tr + dr, df, dr, 8) {
        Some((c, kind)) => c == by && (kind == Kind::Queen || (diagonal && kind == Kind::Bishop)
            || (!diagonal && kind == Kind::Rook)),
        None => false,
    }
}

/// A bishop, rook or queen of `by` attacks the target along an open line.
pub open spec fn slider_attacks(b: Mailbox, tf: int, tr: int, by: Color, diagonal: bool) -> bool {
    exists|k: int| 0 <= k < 4 && #[trigger] ray_hit(b, tf, tr, by, diagonal, k)
}

/// The square with index `target` is attacked by a piece of `by`.
pub open spec fn attacked(b: Mailbox, target: int, by: Color) -> bool {
    let tf = target % 8;
    let tr = target / 8;
    ||| pawn_attacks(b, tf, tr, by)
    ||| knight_attacks(b, tf, tr, by)
    ||| king_attacks(b, tf, tr, by)
    ||| slider_attacks(b, tf, tr, by, true)
    ||| slider_attacks(b, tf, tr, by, false)
}

/// The lowest square index in `0..n` that holds the king of `color`.
pub open spec fn king_square_below(b: Mailbox, color: Color, n: int) -> Option<int>
    decreases n,
{
    if n <= 0 {
        None
    } else {
        match king_square_below(b, color, n - 1) {
            Some(i) => Some(i),
            None => if b.squares@[n - 1] == Some((color, Kind::King)) {
                Some(n - 1)
            } else {
                None
            },
        }
    }
}

/// The first square, in index order, holding the king of `color`.
pub open spec fn king_square(b: Mailbox, color: Color) -> Option<int> {
    king_square_below(b, color, 64)
}

/// The king of `color` is on the board and attacked.
pub open spec fn in_check(b: Mailbox, color: Color) -> bool {
    match king_square(b, color) {
        Some(k) => attacked(b, k, opposite_color(color)),
        None => false,
    }
}

/// The move from square index `from` to square index `to`.
pub open spec fn mk_move(from: int, to: int, promotion: Option<Promotion>) -> Move {
    Move { from: square_of_index(from), to: square_of_index(to), promotion }
}

/// The four promotions of a pawn moving from `from` to `to`, queen first.
pub open spec fn promotions(from: int, to: int) -> Seq<Move> {
    seq![
        mk_move(from, to, Some(Promotion::Queen)),
        mk_move(from, to, Some(Promotion::Rook)),
        mk_move(from, to, Some(Promotion::Bishop)),
        mk_move(from, to, Some(Promotion::Knight)),
    ]
}

/// The direction a pawn of `c` walks in.
pub open spec fn pawn_dir(c: Color) -> int {
    if c == Color::White {
        1
    } else {
        -1
    }
}

/// The rank a pawn of `c` starts on.
pub open spec fn pawn_start_rank(c: Color) -> int {
    if c == Color::White {
        1
    } else {
        6
    }
}

/// The rank a pawn of `c` is promoted on.
pub open spec fn pawn_promo_rank(c: Color) -> int {
    if c == Color::White {
        7
    } else {
        0
    }
}

/// The pushes of the pawn of the side to move on square `from`.
pub open spec fn pawn_pushes(b: Mailbox, from: int) -> Seq<Move> {
    let color = b.side_to_move;
    let f = from % 8;
    let r = from / 8;
    let to_r = r + pawn_dir(color);
    let to = sq_idx(f, to_r);
    if piece_on(b, f, to_r) is Some {
        seq![]
    } else if to_r == pawn_promo_rank(color) {
        promotions(from, to)
    } else if r == pawn_start_rank(color) && piece_on(b, f, r + 2 * pawn_dir(color)) is None {
        seq![mk_move(from, to, None), mk_move(from, sq_idx(f, r + 2 * pawn_dir(color)), None)]
    } else {
        seq![mk_move(from, to, None)]
    }
}

/// The capture of the pawn on `from` toward file offset `df`, if any.
pub open spec fn pawn_capture(b: Mailbox, from: int, df: int) -> Seq<Move> {
    let color = b.side_to_move;
    let cf = from % 8 + df;
    let to_r = from / 8 + pawn_dir(color);
    let cap = sq_idx(cf, to_r);
    let is_capture = match piece_on(b, cf, to_r) {
        Some((c, _)) => c != color,
        None => b.en_passant == Some(cap as u8),
    };
    if !(0 <= cf < 8) || !is_capture {
        seq![]
    } else if to_r == pawn_promo_rank(color) {
        promotions(from, cap)
    } else {
        seq![mk_move(from, cap, None)]
    }
}

/// The moves of the pawn of the side to move on `from`: pushes, then the
/// capture to the lower file, then the capture to the higher file.
pub open spec fn pawn_moves(b: Mailbox, from: int) -> Seq<Move> {
    let to_r = from / 8 + pawn_dir(b.side_to_move);
    if !(0 <= to_r < 8) {
        seq![]
    } else {
        pawn_pushes(b, from) + pawn_capture(b, from, -1) + pawn_capture(b, from, 1)
    }
}

/// A single step of a knight or king from `from` by (`df`, `dr`): onto the board
/// and not onto a piece of the side to move.
pub open spec fn step_move(b: Mailbox, from: int, df: int, dr: int) -> Seq<Move> {
    let tf = from % 8 + df;
    let tr = from / 8 + dr;
    if !on_board(tf, tr) {
        seq![]
    } else {
        match piece_on(b, tf, tr) {
            Some((c, _)) => if c == b.side_to_move {
                seq![]
            } else {
                seq![mk_move(from, sq_idx(tf, tr), None)]
            },
            None => seq![mk_move(from, sq_idx(tf, tr), None)],
        }
    }
}

/// The knight jumps numbered below `n` from `from`.
pub open spec fn knight_moves_upto(b: Mailbox, from: int, n: int) -> Seq<Move>
    decreases n,
{
    if n <= 0 {
        seq![]
    } else {
        knight_moves_upto(b, from, n - 1) + step_move(
            b,
            from,
            knight_jump(n - 1).0,
            knight_jump(n - 1).1,
        )
    }
}

/// The moves of the knight of the side to move on `from`.
pub open spec fn knight_moves(b: Mailbox, from: int) -> Seq<Move> {
    knight_moves_upto(b, from, 8)
}

/// The squares a slider on `from` reaches walking from file `f`, rank `r` in
/// direction (`df`, `dr`): empty squares, then the first piece if it is an
/// enemy, looking at no more than `fuel` squares.
pub open spec fn slide_moves(b: Mailbox, from: int, f: int, r: int, df: int, dr: int, fuel: nat) -> Seq<
    Move,
>
    decreases fuel,
{
    if fuel == 0 || !on_board(f, r) {
        seq![]
    } else {
        match piece_on(b, f, r) {
            Some((c, _)) => if c != b.side_to_move {
                seq![mk_move(from, sq_idx(f, r), None)]
            } else {
                seq![]
            },
            None => seq![mk_move(from, sq_idx(f, r), None)] + slide_moves(
                b,
                from,
                f + df,
                r + dr,
                df,
                dr,
                (fuel - 1) as nat,
            ),
        }
    }
}

/// The sliding moves from `from` along direction `k` of the chosen set.
pub open spec fn ray_moves(b: Mailbox, from: int, diagonal: bool, k: int) -> Seq<Move> {
    let (df, dr) = slide_dir(diagonal, k);
    slide_moves(b, from, from % 8 + df, from / 8 + dr, df, dr, 7)
}

/// The sliding moves from `from` along the directions numbered below `n`.
pub open spec fn slider_moves_upto(b: Mailbox, from: int, diagonal: bool, n: int) -> Seq<Move>
    decreases n,
{
    if n <= 0 {
        seq![]
    } else {
        slider_moves_upto(b, from, diagonal, n - 1) + ray_moves(b, from, diagonal, n - 1)
    }
}

/// The moves of a slider on `from` along all four directions of the chosen set.
pub open spec fn slider_moves(b: Mailbox, from: int, diagonal: bool) -> Seq<Move> {
    slider_moves_upto(b, from, diagonal, 4)
}

/// The king steps numbered below `n` from `from`.
pub open spec fn king_steps_upto(b: Mailbox, from: int, n: int) -> Seq<Move>
    decreases n,
{
    if n <= 0 {
        seq![]
    } else {
        king_steps_upto(b, from, n - 1) + step_move(b, from, king_step(n - 1).0, king_step(n - 1).1)
    }
}

/// Squares with these indices are empty.
pub open spec fn empty_at(b: Mailbox, i: int) -> bool {
    b.squares@[i] is None
}

/// Castling on the side of the king (`kingside`) is allowed for the side to
/// move on home rank `rank`: the right is kept, the squares between king and
/// rook are empty, and the king's square and the squares it crosses are not attacked.
pub open spec fn may_castle(b: Mailbox, kingside: bool) -> bool {
    let color = b.side_to_move;
    let home = if color == Color::White {
        0int
    } else {
        56int
    };
    let opp = opposite_color(color);
    let right = if color == Color::White {
        if kingside {
            b.castling.white_kingside
        } else {
            b.castling.white_queenside
        }
    } else {
        if kingside {
            b.castling.black_kingside
        } else {
            b.castling.black_queenside
        }
    };
    if kingside {
        right && empty_at(b, home + 5) && empty_at(b, home + 6) && !attacked(b, home + 4, opp)
            && !attacked(b, home + 5, opp) && !attacked(b, home + 6, opp)
    } else {
        right && empty_at(b, home + 3) && empty_at(b, home + 2) && empty_at(b, home + 1)
            && !attacked(b, home + 4, opp) && !attacked(b, home + 3, opp) && !attacked(
            b,
            home + 2,
            opp,
        )
    }
}

/// The castling moves of the king on `from`: kingside first, then queenside.
pub open spec fn castle_moves(b: Mailbox, from: int) -> Seq<Move> {
    let home = if b.side_to_move == Color::White {
        0int
    } else {
        56int
    };
    (if may_castle(b, true) {
        seq![mk_move(from, home + 6, None)]
    } else {
        seq![]
    }) + (if may_castle(b, false) {
        seq![mk_move(from, home + 2, None)]
    } else {
        seq![]
    })
}

/// The moves of the king of the side to move on `from`: steps, then castling.
pub open spec fn king_moves(b: Mailbox, from: int) -> Seq<Move> {
    king_steps_upto(b, from, 8) + castle_moves(b, from)
}

/// The pseudo-legal moves of the piece on square `i`, if it belongs to the side to move.
pub open spec fn piece_moves(b: Mailbox, i: int) -> Seq<Move> {
    match b.squares@[i] {
        Some((c, kind)) => if c != b.side_to_move {
            seq![]
        } else {
            match kind {
                Kind::Pawn => pawn_moves(b, i),
                Kind::Knight => knight_moves(b, i),
                Kind::Bishop => slider_moves(b, i, true),
                Kind::Rook => slider_moves(b, i, false),
                Kind::Queen => slider_moves(b, i, true) + slider_moves(b, i, false),
                Kind::King => king_moves(b, i),
            }
        },
        None => seq![],
    }
}

/// The pseudo-legal moves of the pieces on squares `0..n`, in square order.
pub open spec fn pseudo_moves_upto(b: Mailbox, n: int) -> Seq<Move>
    decreases n,
{
    if n <= 0 {
        seq![]
    } else {
        pseudo_moves_upto(b, n - 1) + piece_moves(b, n - 1)
    }
}

/// All pseudo-legal moves of the side to move, in square order.
pub open spec fn pseudo_moves(b: Mailbox) -> Seq<Move> {
    pseudo_moves_upto(b, 64)
}

/// A pawn of `b` moving to square `to` takes en passant.
pub open spec fn takes_en_passant(b: Mailbox, kind: Kind, to: int) -> bool {
    kind == Kind::Pawn && b.en_passant == Some(to as u8)
}

/// The squares after `piece`, standing on the `from` square of `m`, moves:
/// a pawn taken en passant is removed, the piece lands (promoted if asked),
/// and a king moving two files brings its rook along.
pub open spec fn moved_squares(b: Mailbox, m: Move, piece: Piece) -> [Option<Piece>; 64] {
    let from = square_index(m.from);
    let to = square_index(m.to);
    let color = piece.0;
    let kind = piece.1;
    let a0 = b.squares;
    let a1 = if takes_en_passant(b, kind, to) {
        spec_array_update(
            a0,
            if color == Color::White {
                to - 8
            } else {
                to + 8
            },
            None,
        )
    } else {
        a0
    };
    let placed = match m.promotion {
        Some(p) => (color, promotion_kind(p)),
        None => piece,
    };
    let a2 = spec_array_update(spec_array_update(a1, from, None), to, Some(placed));
    if kind == Kind::King && to == from + 2 {
        spec_array_update(spec_array_update(a2, from + 3, None), from + 1, a2@[from + 3])
    } else if kind == Kind::King && to == from - 2 {
        spec_array_update(spec_array_update(a2, from - 4, None), from - 1, a2@[from - 4])
    } else {
        a2
    }
}

/// Castling rights after `piece` moves from `from` to `to`: a king gives up
/// both of its side's rights, and a corner square touched loses its rook's right.
pub open spec fn castling_after_move(
    c0: crate::CastlingRights,
    piece: Piece,
    from: int,
    to: int,
) -> crate::CastlingRights {
    let c1 = if piece.1 == Kind::King {
        if piece.0 == Color::White {
            crate::CastlingRights { white_kingside: false, white_queenside: false, ..c0 }
        } else {
            crate::CastlingRights { black_kingside: false, black_queenside: false, ..c0 }
        }
    } else {
        c0
    };
    castling_after_touch(castling_after_touch(c1, from), to)
}

/// The position after move `m` is played on `b`. Moving from an empty square
/// changes nothing.
pub open spec fn after_move(b: Mailbox, m: Move) -> Mailbox {
    let from = square_index(m.from);
    let to = square_index(m.to);
    match b.squares@[from] {
        None => b,
        Some(piece) => {
            let is_pawn = piece.1 == Kind::Pawn;
            let is_capture = b.squares@[to] is Some || takes_en_passant(b, piece.1, to);
            Mailbox {
                squares: moved_squares(b, m, piece),
                side_to_move: opposite_color(b.side_to_move),
                castling: castling_after_move(b.castling, piece, from, to),
                en_passant: if is_pawn && (to == from + 16 || from == to + 16) {
                    Some(((from + to) / 2) as u8)
                } else {
                    None
                },
                halfmove_clock: if is_pawn || is_capture {
                    0
                } else {
                    (b.halfmove_clock + 1) as u32
                },
                fullmove_number: if piece.0 == Color::Black {
                    (b.fullmove_number + 1) as u32
                } else {
                    b.fullmove_number
                },
            }
        },
    }
}

/// Castling rights after a piece leaves or lands on square `sq`: a corner
/// square loses the right of the rook that starts there.
pub open spec fn castling_after_touch(c: crate::CastlingRights, sq: int) -> crate::CastlingRights {
    if sq == 0 {
        crate::CastlingRights { white_queenside: false, ..c }
    } else if sq == 7 {
        crate::CastlingRights { white_kingside: false, ..c }
    } else if sq == 56 {
        crate::CastlingRights { black_queenside: false, ..c }
    } else if sq == 63 {
        crate::CastlingRights { black_kingside: false, ..c }
    } else {
        c
    }
}

/// Move `m` can be played on `b` without an index leaving the board or a
/// clock overflowing.
pub open spec fn move_fits(b: Mailbox, m: Move) -> bool {
    let from = square_index(m.from);
    let to = square_index(m.to);
    match b.squares@[from] {
        None => true,
        Some(piece) => {
            let color = piece.0;
            let kind = piece.1;
            let is_pawn = kind == Kind::Pawn;
            let ep_hit = is_pawn && b.en_passant == Some(to as u8);
            let is_capture = b.squares@[to] is Some || ep_hit;
            &&& ep_hit ==> (if color == Color::White {
                to >= 8
            } else {
                to + 8 < 64
            })
            &&& (kind == Kind::King && to == from + 2) ==> from + 3 < 64
            &&& (kind == Kind::King && to == from - 2) ==> from >= 4
            &&& !(is_pawn || is_capture) ==> b.halfmove_clock < u32::MAX
            &&& color == Color::Black ==> b.fullmove_number < u32::MAX
        },
    }
}

/// Every pseudo-legal move of `b` can be played without overflow.
pub open spec fn moves_fit(b: Mailbox) -> bool {
    forall|i: int| 0 <= i < pseudo_moves(b).len() ==> move_fits(b, #[trigger] pseudo_moves(b)[i])
}

/// The pseudo-legal moves among `ms` after which the mover's king is not attacked.
pub open spec fn keep_legal(b: Mailbox, ms: Seq<Move>) -> Seq<Move>
    decreases ms.len(),
{
    if ms.len() == 0 {
        seq![]
    } else {
        let rest = keep_legal(b, ms.drop_last());
        if in_check(after_move(b, ms.last()), b.side_to_move) {
            rest
        } else {
            rest.push(ms.last())
        }
    }
}

/// The legal moves of the side to move, in the order the board generates them.
pub open spec fn legal_moves(b: Mailbox) -> Seq<Move> {
    keep_legal(b, pseudo_moves(b))
}

/// Every line of play of length up to `depth` that perft explores can be
/// played without overflow.
pub open spec fn perft_fits(b: Mailbox, depth: nat) -> bool
    decreases depth,
{
    if depth <= 1 {
        depth == 0 || moves_fit(b)
    } else {
        moves_fit(b) && forall|i: int|
            0 <= i < legal_moves(b).len() ==> perft_fits(
                after_move(b, #[trigger] legal_moves(b)[i]),
                (depth - 1) as nat,
            )
    }
}

/// The number of leaf positions `depth` plies below `b`.
pub open spec fn perft_count(b: Mailbox, depth: nat) -> int
    decreases depth, 0nat,
{
    if depth == 0 {
        1
    } else if depth == 1 {
        legal_moves(b).len() as int
    } else {
        perft_sum(b, legal_moves(b), (depth - 1) as nat)
    }
}

/// The perft counts at `depth` below each position reached by a move of `ms`.
pub open spec fn perft_sum(b: Mailbox, ms: Seq<Move>, depth: nat) -> int
    decreases depth, ms.len() + 1,
{
    if ms.len() == 0 {
        0
    } else {
        perft_sum(b, ms.drop_last(), depth) + perft_count(after_move(b, ms.last()), depth)
    }
}

} // verus!
