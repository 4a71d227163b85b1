//! Laws of the mailbox board's move generation and move play.
use vstd::prelude::*;

use crate::board::mailbox::{checked_side, Mailbox};
use crate::board::rules::{
    after_move, attacked, castle_moves, in_check, keep_legal, king_moves, king_step, king_steps_upto,
    knight_jump, knight_moves_upto, legal_moves, mk_move, on_board, pawn_capture, pawn_moves,
    pawn_pushes, piece_moves, promotions, pseudo_moves, pseudo_moves_upto, ray_moves, slide_dir,
    slide_moves, slider_moves, slider_moves_upto, sq_idx, step_move, may_castle, pawn_dir,
    pawn_promo_rank, pawn_start_rank, knight_moves,
};
use crate::{square_index, square_of_index, Board, Color, Kind, Move};

verus! {

/// Every move of `s` starts on the square with index `i`.
pub open spec fn all_from(s: Seq<Move>, i: int) -> bool {
    forall|k: int| 0 <= k < s.len() ==> (#[trigger] s[k]).from == square_of_index(i)
}

proof fn lemma_all_from_concat(a: Seq<Move>, c: Seq<Move>, i: int)
    requires
        all_from(a, i),
        all_from(c, i),
    ensures
        all_from(a + c, i),
{
    assert forall|k: int| 0 <= k < (a + c).len() implies (#[trigger] (a + c)[k]).from
        == square_of_index(i) by {
        if k < a.len() {
            assert((a + c)[k] == a[k]);
        } else {
            assert((a + c)[k] == c[k - a.len()]);
        }
    }
}

proof fn lemma_knight_moves_from(b: Mailbox, from: int, n: int)
    ensures
        all_from(knight_moves_upto(b, from, n), from),
    decreases n,
{
    if n > 0 {
        lemma_knight_moves_from(b, from, n - 1);
        lemma_all_from_concat(
            knight_moves_upto(b, from, n - 1),
            step_move(b, from, knight_jump(n - 1).0, knight_jump(n - 1).1),
            from,
        );
    }
}

proof fn lemma_king_steps_from(b: Mailbox, from: int, n: int)
    ensures
        all_from(king_steps_upto(b, from, n), from),
    decreases n,
{
    if n > 0 {
        lemma_king_steps_from(b, from, n - 1);
        lemma_all_from_concat(
            king_steps_upto(b, from, n - 1),
            step_move(b, from, king_step(n - 1).0, king_step(n - 1).1),
            from,
        );
    }
}

proof fn lemma_slide_moves_from(b: Mailbox, from: int, f: int, r: int, df: int, dr: int, fuel: nat)
    ensures
        all_from(slide_moves(b, from, f, r, df, dr, fuel), from),
    decreases fuel,
{
    if fuel > 0 {
        lemma_slide_moves_from(b, from, f + df, r + dr, df, dr, (fuel - 1) as nat);
        let head = seq![mk_move(from, sq_idx(f, r), None)];
        let rest = slide_moves(b, from, f + df, r + dr, df, dr, (fuel - 1) as nat);
        lemma_all_from_concat(head, rest, from);
    }
}

proof fn lemma_slider_moves_from(b: Mailbox, from: int, diagonal: bool, n: int)
    ensures
        all_from(slider_moves_upto(b, from, diagonal, n), from),
    decreases n,
{
    if n > 0 {
        lemma_slider_moves_from(b, from, diagonal, n - 1);
        let (df, dr) = slide_dir(diagonal, n - 1);
        lemma_slide_moves_from(b, from, from % 8 + df, from / 8 + dr, df, dr, 7);
        lemma_all_from_concat(
            slider_moves_upto(b, from, diagonal, n - 1),
            ray_moves(b, from, diagonal, n - 1),
            from,
        );
    }
}

proof fn lemma_pawn_moves_from(b: Mailbox, from: int)
    ensures
        all_from(pawn_moves(b, from), from),
{
    let pushes = pawn_pushes(b, from);
    let lo = pawn_capture(b, from, -1);
    let hi = pawn_capture(b, from, 1);
    assert(all_from(pushes, from));
    assert(all_from(lo, from));
    assert(all_from(hi, from));
    lemma_all_from_concat(pushes, lo, from);
    lemma_all_from_concat(pushes + lo, hi, from);
}

proof fn lemma_king_moves_from(b: Mailbox, from: int)
    ensures
        all_from(king_moves(b, from), from),
{
    lemma_king_steps_from(b, from, 8);
    assert(all_from(castle_moves(b, from), from));
    lemma_all_from_concat(king_steps_upto(b, from, 8), castle_moves(b, from), from);
}

/// The moves generated for square `i` all start there, and there are some only
/// when a piece of the side to move stands there.
#[verifier::spinoff_prover]
#[verifier::rlimit(50)]
proof fn lemma_piece_moves_from(b: Mailbox, i: int)
    ensures
        all_from(piece_moves(b, i), i),
        piece_moves(b, i).len() > 0 ==> (b.squares@[i] matches Some(p) && p.0 == b.side_to_move),
{
    lemma_pawn_moves_from(b, i);
    lemma_king_moves_from(b, i);
    lemma_knight_moves_from(b, i, 8);
    lemma_slider_moves_from(b, i, true, 4);
    lemma_slider_moves_from(b, i, false, 4);
    lemma_all_from_concat(slider_moves(b, i, true), slider_moves(b, i, false), i);
}

/// What the legality filter keeps is among the moves it is given, and leaves
/// the mover's king unattacked.
#[verifier::spinoff_prover]
#[verifier::rlimit(50)]
proof fn lemma_keep_legal_sound(b: Mailbox, ms: Seq<Move>)
    ensures
        forall|k: int|
            0 <= k < keep_legal(b, ms).len() ==> {
                &&& ms.contains(#[trigger] keep_legal(b, ms)[k])
                &&& !in_check(after_move(b, keep_legal(b, ms)[k]), b.side_to_move)
            },
    decreases ms.len(),
{
    if ms.len() > 0 {
        let init = ms.drop_last();
        lemma_keep_legal_sound(b, init);
        let rest = keep_legal(b, init);
        assert forall|k: int| 0 <= k < keep_legal(b, ms).len() implies {
            &&& ms.contains(#[trigger] keep_legal(b, ms)[k])
            &&& !in_check(after_move(b, keep_legal(b, ms)[k]), b.side_to_move)
        } by {
            if k < rest.len() {
                let m = rest[k];
                assert(keep_legal(b, ms)[k] == m);
                let j = choose|j: int| 0 <= j < init.len() && init[j] == m;
                assert(ms[j] == m);
            } else {
                assert(keep_legal(b, ms)[k] == ms.last());
                assert(ms[ms.len() - 1] == ms.last());
            }
        }
    }
}

/// The sign of `a`: 1, 0 or -1.
pub open spec fn sgn(a: int) -> int {
    if a > 0 {
        1
    } else if a < 0 {
        -1
    } else {
        0
    }
}

/// The file number of the square `m` goes to.
pub open spec fn to_file(m: Move) -> int {
    square_index(m.to) % 8
}

/// The rank number of the square `m` goes to.
pub open spec fn to_rank(m: Move) -> int {
    square_index(m.to) / 8
}

/// A move built to file `x`, rank `y` of the board goes to that file and rank.
proof fn lemma_mk_move_to(from: int, x: int, y: int, p: Option<crate::Promotion>)
    requires
        on_board(x, y),
    ensures
        to_file(mk_move(from, sq_idx(x, y), p)) == x,
        to_rank(mk_move(from, sq_idx(x, y), p)) == y,
        mk_move(from, sq_idx(x, y), p).promotion == p,
{
    crate::lemma_square_index_roundtrip(square_of_index(0), sq_idx(x, y));
}

proof fn lemma_no_dup_concat(a: Seq<Move>, c: Seq<Move>)
    requires
        a.no_duplicates(),
        c.no_duplicates(),
        a.disjoint(c),
    ensures
        (a + c).no_duplicates(),
{
    assert forall|i: int, j: int|
        0 <= i < (a + c).len() && 0 <= j < (a + c).len() && i != j implies (a + c)[i] != (a
        + c)[j] by {
        if i < a.len() && j >= a.len() {
            assert((a + c)[j] == c[j - a.len()]);
        } else if i >= a.len() && j < a.len() {
            assert((a + c)[i] == c[i - a.len()]);
        } else if i >= a.len() {
            assert((a + c)[i] == c[i - a.len()]);
            assert((a + c)[j] == c[j - a.len()]);
        }
    }
}

/// The moves a slider makes walking from file `f`, rank `r` go in direction
/// (`df`, `dr`) from the square before it, are not promotions, and none is
/// listed twice.
#[verifier::spinoff_prover]
#[verifier::rlimit(50)]
proof fn lemma_slide_shape(b: Mailbox, from: int, f: int, r: int, df: int, dr: int, fuel: nat)
    requires
        -1 <= df <= 1,
        -1 <= dr <= 1,
        df != 0 || dr != 0,
    ensures
        slide_moves(b, from, f, r, df, dr, fuel).no_duplicates(),
        forall|k: int|
            0 <= k < slide_moves(b, from, f, r, df, dr, fuel).len() ==> {
                let m = #[trigger] slide_moves(b, from, f, r, df, dr, fuel)[k];
                &&& sgn(to_file(m) - (f - df)) == df
                &&& sgn(to_rank(m) - (r - dr)) == dr
                &&& m.promotion is None
            },
    decreases fuel,
{
    if fuel > 0 && on_board(f, r) {
        lemma_slide_shape(b, from, f + df, r + dr, df, dr, (fuel - 1) as nat);
        lemma_mk_move_to(from, f, r, None);
        let h = mk_move(from, sq_idx(f, r), None);
        let rest = slide_moves(b, from, f + df, r + dr, df, dr, (fuel - 1) as nat);
        assert(seq![h].no_duplicates());
        assert(seq![h].disjoint(rest)) by {
            assert forall|j: int| 0 <= j < rest.len() implies seq![h][0] != rest[j] by {
                let m = rest[j];
                assert(sgn(to_file(m) - f) == df);
            }
        }
        lemma_no_dup_concat(seq![h], rest);
        let s = slide_moves(b, from, f, r, df, dr, fuel);
        assert forall|k: int| 0 <= k < s.len() implies {
            let m = #[trigger] s[k];
            &&& sgn(to_file(m) - (f - df)) == df
            &&& sgn(to_rank(m) - (r - dr)) == dr
            &&& m.promotion is None
        } by {
            if k > 0 {
                assert(s[k] == rest[k - 1]);
            }
        }
    }
}

/// The number of the direction (`dx`, `dy`) among the four of the chosen
/// set, or 4 when it is none of them.
pub open spec fn dir_index(diagonal: bool, dx: int, dy: int) -> int {
    if slide_dir(diagonal, 0) == (dx, dy) {
        0
    } else if slide_dir(diagonal, 1) == (dx, dy) {
        1
    } else if slide_dir(diagonal, 2) == (dx, dy) {
        2
    } else if slide_dir(diagonal, 3) == (dx, dy) {
        3
    } else {
        4
    }
}

/// The direction in which `m` leaves the square with index `from`, as signs
/// of the file and rank offsets.
pub open spec fn heading(from: int, m: Move) -> (int, int) {
    (sgn(to_file(m) - from % 8), sgn(to_rank(m) - from / 8))
}

/// The sliding moves along the directions numbered below `n` are listed once
/// each, go along one of those directions, and are not promotions.
#[verifier::spinoff_prover]
#[verifier::rlimit(50)]
proof fn lemma_slider_shape(b: Mailbox, from: int, diagonal: bool, n: int)
    requires
        n <= 4,
    ensures
        slider_moves_upto(b, from, diagonal, n).no_duplicates(),
        forall|k: int|
            0 <= k < slider_moves_upto(b, from, diagonal, n).len() ==> {
                let m = #[trigger] slider_moves_upto(b, from, diagonal, n)[k];
                &&& dir_index(diagonal, heading(from, m).0, heading(from, m).1) < n
                &&& (heading(from, m).0 != 0 && heading(from, m).1 != 0) == diagonal
                &&& m.promotion is None
            },
    decreases n,
{
    if n > 0 {
        lemma_slider_shape(b, from, diagonal, n - 1);
        let (df, dr) = slide_dir(diagonal, n - 1);
        lemma_slide_shape(b, from, from % 8 + df, from / 8 + dr, df, dr, 7);
        let a = slider_moves_upto(b, from, diagonal, n - 1);
        let c = ray_moves(b, from, diagonal, n - 1);
        assert forall|k: int| 0 <= k < c.len() implies {
            let m = #[trigger] c[k];
            &&& dir_index(diagonal, heading(from, m).0, heading(from, m).1) == n - 1
            &&& (heading(from, m).0 != 0 && heading(from, m).1 != 0) == diagonal
        } by {
            let m = c[k];
            assert(heading(from, m) == (df, dr));
        }
        assert(a.disjoint(c)) by {
            assert forall|i: int, j: int| 0 <= i < a.len() && 0 <= j < c.len() implies a[i]
                != c[j] by {
                let x = a[i];
                let y = c[j];
                assert(dir_index(diagonal, heading(from, x).0, heading(from, x).1) < n - 1);
                assert(dir_index(diagonal, heading(from, y).0, heading(from, y).1) == n - 1);
            }
        }
        lemma_no_dup_concat(a, c);
        assert forall|k: int| 0 <= k < (a + c).len() implies {
            let m = #[trigger] (a + c)[k];
            &&& dir_index(diagonal, heading(from, m).0, heading(from, m).1) < n
            &&& (heading(from, m).0 != 0 && heading(from, m).1 != 0) == diagonal
            &&& m.promotion is None
        } by {
            if k < a.len() {
                assert((a + c)[k] == a[k]);
            } else {
                assert((a + c)[k] == c[k - a.len()]);
            }
        }
    }
}

/// Offset `j` of a knight jump (`knight`) or a king step.
pub open spec fn step_offset(knight: bool, j: int) -> (int, int) {
    if knight {
        knight_jump(j)
    } else {
        king_step(j)
    }
}

/// The number of the offset (`dx`, `dy`) among the eight of a knight
/// (`knight`) or a king, or 8 when it is none of them.
pub open spec fn offset_index(knight: bool, dx: int, dy: int) -> int {
    if step_offset(knight, 0) == (dx, dy) {
        0
    } else if step_offset(knight, 1) == (dx, dy) {
        1
    } else if step_offset(knight, 2) == (dx, dy) {
        2
    } else if step_offset(knight, 3) == (dx, dy) {
        3
    } else if step_offset(knight, 4) == (dx, dy) {
        4
    } else if step_offset(knight, 5) == (dx, dy) {
        5
    } else if step_offset(knight, 6) == (dx, dy) {
        6
    } else if step_offset(knight, 7) == (dx, dy) {
        7
    } else {
        8
    }
}

/// The offset of the square `m` goes to from the square with index `from`.
pub open spec fn offset(from: int, m: Move) -> (int, int) {
    (to_file(m) - from % 8, to_rank(m) - from / 8)
}

/// The knight jumps (`knight`) or king steps numbered below `n`.
pub open spec fn steps_upto(b: Mailbox, from: int, knight: bool, n: int) -> Seq<Move> {
    if knight {
        knight_moves_upto(b, from, n)
    } else {
        king_steps_upto(b, from, n)
    }
}

/// The knight jumps or king steps numbered below `n` are listed once each,
/// use one of those offsets, and are not promotions.
#[verifier::spinoff_prover]
#[verifier::rlimit(50)]
proof fn lemma_steps_shape(b: Mailbox, from: int, knight: bool, n: int)
    requires
        0 <= from < 64,
        n <= 8,
    ensures
        steps_upto(b, from, knight, n).no_duplicates(),
        forall|k: int|
            0 <= k < steps_upto(b, from, knight, n).len() ==> {
                let m = #[trigger] steps_upto(b, from, knight, n)[k];
                &&& offset_index(knight, offset(from, m).0, offset(from, m).1) < n
                &&& m.promotion is None
            },
    decreases n,
{
    if n > 0 {
        lemma_steps_shape(b, from, knight, n - 1);
        let (df, dr) = step_offset(knight, n - 1);
        let a = steps_upto(b, from, knight, n - 1);
        let c = step_move(b, from, df, dr);
        assert(steps_upto(b, from, knight, n) == a + c);
        if c.len() > 0 {
            lemma_mk_move_to(from, from % 8 + df, from / 8 + dr, None);
            assert(offset(from, c[0]) == (df, dr));
            assert(offset_index(knight, df, dr) == n - 1);
        }
        assert(a.disjoint(c)) by {
            assert forall|i: int, j: int| 0 <= i < a.len() && 0 <= j < c.len() implies a[i]
                != c[j] by {
                let x = a[i];
                assert(offset_index(knight, offset(from, x).0, offset(from, x).1) < n - 1);
            }
        }
        lemma_no_dup_concat(a, c);
        assert forall|k: int| 0 <= k < (a + c).len() implies {
            let m = #[trigger] (a + c)[k];
            &&& offset_index(knight, offset(from, m).0, offset(from, m).1) < n
            &&& m.promotion is None
        } by {
            if k < a.len() {
                assert((a + c)[k] == a[k]);
            } else {
                assert((a + c)[k] == c[k - a.len()]);
            }
        }
    }
}

/// The four promotions to file `x`, rank `y` go there and are listed once each.
proof fn lemma_promotions_shape(from: int, x: int, y: int)
    requires
        on_board(x, y),
    ensures
        promotions(from, sq_idx(x, y)).no_duplicates(),
        forall|k: int|
            0 <= k < promotions(from, sq_idx(x, y)).len() ==> to_file(
                #[trigger] promotions(from, sq_idx(x, y))[k],
            ) == x && to_rank(promotions(from, sq_idx(x, y))[k]) == y,
{
    lemma_mk_move_to(from, x, y, Some(crate::Promotion::Queen));
    lemma_mk_move_to(from, x, y, Some(crate::Promotion::Rook));
    lemma_mk_move_to(from, x, y, Some(crate::Promotion::Bishop));
    lemma_mk_move_to(from, x, y, Some(crate::Promotion::Knight));
}

/// The moves of a pawn on `from` are listed once each: its pushes stay on its
/// file and its captures go to the files beside it.
#[verifier::spinoff_prover]
#[verifier::rlimit(50)]
proof fn lemma_pawn_shape(b: Mailbox, from: int)
    requires
        0 <= from < 64,
    ensures
        pawn_moves(b, from).no_duplicates(),
{
    let color = b.side_to_move;
    let f = from % 8;
    let r = from / 8;
    let to_r = r + crate::board::rules::pawn_dir(color);
    if 0 <= to_r < 8 {
        let pushes = pawn_pushes(b, from);
        let lo = pawn_capture(b, from, -1);
        let hi = pawn_capture(b, from, 1);
        lemma_promotions_shape(from, f, to_r);
        lemma_mk_move_to(from, f, to_r, None);
        if r == crate::board::rules::pawn_start_rank(color) {
            lemma_mk_move_to(from, f, r + 2 * crate::board::rules::pawn_dir(color), None);
        }
        assert(pushes.no_duplicates());
        assert forall|k: int| 0 <= k < pushes.len() implies to_file(#[trigger] pushes[k]) == f by {}
        if 0 <= f - 1 {
            lemma_promotions_shape(from, f - 1, to_r);
            lemma_mk_move_to(from, f - 1, to_r, None);
        }
        if f + 1 < 8 {
            lemma_promotions_shape(from, f + 1, to_r);
            lemma_mk_move_to(from, f + 1, to_r, None);
        }
        assert(lo.no_duplicates());
        assert(hi.no_duplicates());
        assert forall|k: int| 0 <= k < lo.len() implies to_file(#[trigger] lo[k]) == f - 1 by {}
        assert forall|k: int| 0 <= k < hi.len() implies to_file(#[trigger] hi[k]) == f + 1 by {}
        assert(pushes.disjoint(lo)) by {
            assert forall|i: int, j: int| 0 <= i < pushes.len() && 0 <= j < lo.len() implies pushes[i]
                != lo[j] by {
                assert(to_file(pushes[i]) == f);
                assert(to_file(lo[j]) == f - 1);
            }
        }
        lemma_no_dup_concat(pushes, lo);
        assert((pushes + lo).disjoint(hi)) by {
            assert forall|i: int, j: int|
                0 <= i < (pushes + lo).len() && 0 <= j < hi.len() implies (pushes + lo)[i]
                != hi[j] by {
                assert(to_file(hi[j]) == f + 1);
                if i < pushes.len() {
                    assert((pushes + lo)[i] == pushes[i]);
                    assert(to_file(pushes[i]) == f);
                } else {
                    assert((pushes + lo)[i] == lo[i - pushes.len()]);
                    assert(to_file(lo[i - pushes.len()]) == f - 1);
                }
            }
        }
        lemma_no_dup_concat(pushes + lo, hi);
    }
}

/// The square index a king of `color` starts on.
pub open spec fn king_home(color: Color) -> int {
    if color == Color::White {
        4
    } else {
        60
    }
}

/// Each castling right is held only while every king of its side stands on
/// that side's starting square, e1 for white and e8 for black.
pub open spec fn castling_fits(b: Mailbox) -> bool {
    &&& (b.castling.white_kingside || b.castling.white_queenside) ==> forall|i: int|
        0 <= i < 64 && #[trigger] b.squares@[i] == Some((Color::White, Kind::King)) ==> i == 4
    &&& (b.castling.black_kingside || b.castling.black_queenside) ==> forall|i: int|
        0 <= i < 64 && #[trigger] b.squares@[i] == Some((Color::Black, Kind::King)) ==> i == 60
}

/// The moves of a king on `from` are listed once each, when castling is only
/// allowed from the king's starting square.
#[verifier::spinoff_prover]
#[verifier::rlimit(50)]
proof fn lemma_king_shape(b: Mailbox, from: int)
    requires
        0 <= from < 64,
        (may_castle(b, true) || may_castle(b, false)) ==> from == king_home(b.side_to_move),
    ensures
        king_moves(b, from).no_duplicates(),
{
    lemma_steps_shape(b, from, false, 8);
    let steps = king_steps_upto(b, from, 8);
    let castles = castle_moves(b, from);
    let home: int = if b.side_to_move == Color::White {
        0
    } else {
        56
    };
    lemma_mk_move_to(from, 6, home / 8, None);
    lemma_mk_move_to(from, 2, home / 8, None);
    assert(sq_idx(6, home / 8) == home + 6);
    assert(sq_idx(2, home / 8) == home + 2);
    assert(castles.no_duplicates());
    assert forall|k: int| 0 <= k < castles.len() implies offset_index(
        false,
        offset(from, #[trigger] castles[k]).0,
        offset(from, castles[k]).1,
    ) == 8 by {
        assert(from == home + 4);
    }
    assert(steps.disjoint(castles)) by {
        assert forall|i: int, j: int| 0 <= i < steps.len() && 0 <= j < castles.len() implies steps[i]
            != castles[j] by {
            let x = steps[i];
            assert(offset_index(false, offset(from, x).0, offset(from, x).1) < 8);
            assert(offset_index(false, offset(from, castles[j]).0, offset(from, castles[j]).1) == 8);
        }
    }
    lemma_no_dup_concat(steps, castles);
}

/// The moves generated for square `i` are listed once each.
#[verifier::spinoff_prover]
#[verifier::rlimit(50)]
proof fn lemma_piece_moves_distinct(b: Mailbox, i: int)
    requires
        0 <= i < 64,
        castling_fits(b),
    ensures
        piece_moves(b, i).no_duplicates(),
{
    match b.squares@[i] {
        Some((c, kind)) => {
            if c == b.side_to_move {
                match kind {
                    Kind::Pawn => lemma_pawn_shape(b, i),
                    Kind::Knight => lemma_steps_shape(b, i, true, 8),
                    Kind::Bishop => lemma_slider_shape(b, i, true, 4),
                    Kind::Rook => lemma_slider_shape(b, i, false, 4),
                    Kind::Queen => {
                        lemma_slider_shape(b, i, true, 4);
                        lemma_slider_shape(b, i, false, 4);
                        let d = slider_moves(b, i, true);
                        let o = slider_moves(b, i, false);
                        assert(d.disjoint(o)) by {
                            assert forall|x: int, y: int|
                                0 <= x < d.len() && 0 <= y < o.len() implies d[x] != o[y] by {
                                assert(heading(i, d[x]).0 != 0 && heading(i, d[x]).1 != 0);
                                assert(!(heading(i, o[y]).0 != 0 && heading(i, o[y]).1 != 0));
                            }
                        }
                        lemma_no_dup_concat(d, o);
                    },
                    Kind::King => {
                        assert((may_castle(b, true) || may_castle(b, false)) ==> i == king_home(
                            b.side_to_move,
                        ));
                        lemma_king_shape(b, i);
                    },
                }
            }
        },
        None => {},
    }
}

/// The pseudo-legal moves of the squares below `n` are listed once each and
/// start on one of those squares.
#[verifier::spinoff_prover]
#[verifier::rlimit(50)]
proof fn lemma_pseudo_moves_distinct(b: Mailbox, n: int)
    requires
        n <= 64,
        castling_fits(b),
    ensures
        pseudo_moves_upto(b, n).no_duplicates(),
        forall|k: int|
            0 <= k < pseudo_moves_upto(b, n).len() ==> square_index(
                (#[trigger] pseudo_moves_upto(b, n)[k]).from,
            ) < n,
    decreases n,
{
    if n > 0 {
        lemma_pseudo_moves_distinct(b, n - 1);
        lemma_piece_moves_distinct(b, n - 1);
        lemma_piece_moves_from(b, n - 1);
        let a = pseudo_moves_upto(b, n - 1);
        let c = piece_moves(b, n - 1);
        crate::lemma_square_index_roundtrip(square_of_index(n - 1), n - 1);
        assert(a.disjoint(c)) by {
            assert forall|x: int, y: int| 0 <= x < a.len() && 0 <= y < c.len() implies a[x]
                != c[y] by {
                assert(square_index(a[x].from) < n - 1);
                assert(c[y].from == square_of_index(n - 1));
            }
        }
        lemma_no_dup_concat(a, c);
        assert forall|k: int| 0 <= k < (a + c).len() implies square_index(
            (#[trigger] (a + c)[k]).from,
        ) < n by {
            if k < a.len() {
                assert((a + c)[k] == a[k]);
            } else {
                assert((a + c)[k] == c[k - a.len()]);
            }
        }
    }
}

/// The legality filter keeps a list free of repeats free of them.
#[verifier::spinoff_prover]
#[verifier::rlimit(50)]
proof fn lemma_keep_legal_distinct(b: Mailbox, ms: Seq<Move>)
    requires
        ms.no_duplicates(),
    ensures
        keep_legal(b, ms).no_duplicates(),
    decreases ms.len(),
{
    if ms.len() > 0 {
        let init = ms.drop_last();
        assert(init.no_duplicates()) by {
            assert forall|i: int, j: int|
                0 <= i < init.len() && 0 <= j < init.len() && i != j implies init[i]
                != init[j] by {
                assert(init[i] == ms[i]);
                assert(init[j] == ms[j]);
            }
        }
        lemma_keep_legal_distinct(b, init);
        lemma_keep_legal_sound(b, init);
        let rest = keep_legal(b, init);
        let last = seq![ms.last()];
        assert(rest.disjoint(last)) by {
            assert forall|x: int, y: int| 0 <= x < rest.len() && 0 <= y < last.len() implies rest[x]
                != last[y] by {
                assert(init.contains(rest[x]));
                let j = choose|j: int| 0 <= j < init.len() && init[j] == rest[x];
                assert(ms[j] == rest[x]);
                assert(ms[ms.len() - 1] == last[y]);
            }
        }
        lemma_no_dup_concat(rest, last);
        assert(rest.push(ms.last()) == rest + last);
    }
}

/// When castling rights fit the kings (a right is held only while the kings
/// of its side stand on their starting square), no legal move is listed twice.
pub proof fn lemma_legal_moves_distinct(b: Mailbox)
    requires
        castling_fits(b),
    ensures
        legal_moves(b).no_duplicates(),
{
    lemma_pseudo_moves_distinct(b, 64);
    lemma_keep_legal_distinct(b, pseudo_moves(b));
}

/// The absolute value of `a`.
pub open spec fn iabs(a: int) -> int {
    if a < 0 {
        -a
    } else {
        a
    }
}

/// Walking from file `x`, rank `y` by (`sx`, `sy`), the squares met before
/// step `n` are empty: the squares strictly between the start and the square
/// `n` steps away.
pub open spec fn clear_path(b: Mailbox, x: int, y: int, sx: int, sy: int, n: int) -> bool
    decreases n,
{
    n <= 1 || (b.squares@[sq_idx(x + sx, y + sy)] is None && clear_path(
        b,
        x + sx,
        y + sy,
        sx,
        sy,
        n - 1,
    ))
}

/// A move to rank `ty` names a promotion exactly when that rank is the last
/// one for pawns of `us`.
pub open spec fn promotion_fits(m: Move, ty: int, us: Color) -> bool {
    if ty == pawn_promo_rank(us) {
        m.promotion is Some
    } else {
        m.promotion is None
    }
}

/// What the rules let a piece of kind `kind` of the side to move do, going
/// from file `fx`, rank `fy` to file `tx`, rank `ty`.
pub open spec fn kind_rule(
    b: Mailbox,
    kind: Kind,
    m: Move,
    fx: int,
    fy: int,
    tx: int,
    ty: int,
) -> bool {
    let dx = tx - fx;
    let dy = ty - fy;
    let us = b.side_to_move;
    let to = sq_idx(tx, ty);
    let diagonal_line = iabs(dx) == iabs(dy) && dx != 0 && clear_path(
        b,
        fx,
        fy,
        sgn(dx),
        sgn(dy),
        iabs(dx),
    );
    let straight_line = (dx == 0) != (dy == 0) && clear_path(
        b,
        fx,
        fy,
        sgn(dx),
        sgn(dy),
        iabs(dx) + iabs(dy),
    );
    match kind {
        Kind::Knight => m.promotion is None && ((iabs(dx) == 1 && iabs(dy) == 2) || (iabs(dx) == 2
            && iabs(dy) == 1)),
        Kind::Bishop => m.promotion is None && diagonal_line,
        Kind::Rook => m.promotion is None && straight_line,
        Kind::Queen => m.promotion is None && (diagonal_line || straight_line),
        Kind::King => m.promotion is None && ((iabs(dx) <= 1 && iabs(dy) <= 1 && (dx != 0 || dy
            != 0)) || (to == king_home(us) + 2 && may_castle(b, true)) || (to == king_home(us) - 2
            && may_castle(b, false))),
        Kind::Pawn => {
            let dir = pawn_dir(us);
            ||| dx == 0 && dy == dir && b.squares@[to] is None && promotion_fits(m, ty, us)
            ||| dx == 0 && dy == 2 * dir && fy == pawn_start_rank(us) && b.squares@[sq_idx(
                fx,
                fy + dir,
            )] is None && b.squares@[to] is None && m.promotion is None
            ||| iabs(dx) == 1 && dy == dir && (match b.squares@[to] {
                Some(q) => q.0 != us,
                None => b.en_passant == Some(to as u8),
            }) && promotion_fits(m, ty, us)
        },
    }
}

/// `m` is a move the rules let a piece of the side to move make on `b`, not
/// yet asking whether it leaves the mover's own king attacked: the piece
/// belongs to the side to move, the target does not hold one of its pieces,
/// and the piece moves as its kind may.
pub open spec fn rule_move(b: Mailbox, m: Move) -> bool {
    let from = square_index(m.from);
    let to = square_index(m.to);
    &&& b.squares@[from] matches Some(p) && p.0 == b.side_to_move
    &&& !(b.squares@[to] matches Some(q) && q.0 == b.side_to_move)
    &&& match b.squares@[from] {
        Some(p) => kind_rule(b, p.1, m, from % 8, from / 8, to % 8, to / 8),
        None => false,
    }
}

/// A move is the move its squares' indices and its promotion build.
proof fn lemma_move_rebuilt(m: Move)
    ensures
        m == mk_move(square_index(m.from), sq_idx(to_file(m), to_rank(m)), m.promotion),
        0 <= square_index(m.from) < 64,
        on_board(to_file(m), to_rank(m)),
{
    crate::lemma_square_index_roundtrip(m.from, 0);
    crate::lemma_square_index_roundtrip(m.to, 0);
}

/// `k` steps of size `d` (1, 0 or -1) along one coordinate.
pub open spec fn scaled(k: int, d: int) -> int {
    if d == 1 {
        k
    } else if d == -1 {
        -k
    } else {
        0
    }
}

/// A slider walking from file `f`, rank `r` meets file `tx`, rank `ty` after
/// `n - 1` further steps over empty squares, and lists the move there when no
/// piece of the side to move stands on it.
#[verifier::spinoff_prover]
#[verifier::rlimit(50)]
proof fn lemma_slide_reaches(
    b: Mailbox,
    from: int,
    f: int,
    r: int,
    df: int,
    dr: int,
    fuel: nat,
    n: int,
    tx: int,
    ty: int,
)
    requires
        -1 <= df <= 1,
        -1 <= dr <= 1,
        1 <= n <= fuel,
        on_board(f, r),
        on_board(tx, ty),
        tx - f == scaled(n - 1, df),
        ty - r == scaled(n - 1, dr),
        clear_path(b, f - df, r - dr, df, dr, n),
        !(b.squares@[sq_idx(tx, ty)] matches Some(q) && q.0 == b.side_to_move),
    ensures
        slide_moves(b, from, f, r, df, dr, fuel).contains(mk_move(from, sq_idx(tx, ty), None)),
    decreases n,
{
    let s = slide_moves(b, from, f, r, df, dr, fuel);
    if n == 1 {
        assert(s[0] == mk_move(from, sq_idx(tx, ty), None));
    } else {
        assert(b.squares@[sq_idx(f, r)] is None);
        lemma_slide_reaches(b, from, f + df, r + dr, df, dr, (fuel - 1) as nat, n - 1, tx, ty);
        let rest = slide_moves(b, from, f + df, r + dr, df, dr, (fuel - 1) as nat);
        let j = choose|j: int| 0 <= j < rest.len() && rest[j] == mk_move(from, sq_idx(tx, ty), None);
        assert(s[j + 1] == rest[j]);
    }
}

/// The sliding moves along the directions numbered below `n` include those
/// along direction `k`.
proof fn lemma_slider_upto_contains(b: Mailbox, from: int, diagonal: bool, n: int, k: int, m: Move)
    requires
        0 <= k < n,
        ray_moves(b, from, diagonal, k).contains(m),
    ensures
        slider_moves_upto(b, from, diagonal, n).contains(m),
    decreases n,
{
    let a = slider_moves_upto(b, from, diagonal, n - 1);
    let c = ray_moves(b, from, diagonal, n - 1);
    if k < n - 1 {
        lemma_slider_upto_contains(b, from, diagonal, n - 1, k, m);
        let j = choose|j: int| 0 <= j < a.len() && a[j] == m;
        assert((a + c)[j] == m);
    } else {
        let j = choose|j: int| 0 <= j < c.len() && c[j] == m;
        assert((a + c)[a.len() + j] == m);
    }
}

/// A slider move the rules allow along a line of the chosen set is listed.
#[verifier::spinoff_prover]
#[verifier::rlimit(50)]
proof fn lemma_slider_complete(b: Mailbox, m: Move, diagonal: bool)
    requires
        rule_move(b, m),
        ({
            let from = square_index(m.from);
            let to = square_index(m.to);
            let dx = to % 8 - from % 8;
            let dy = to / 8 - from / 8;
            &&& m.promotion is None
            &&& if diagonal {
                iabs(dx) == iabs(dy) && dx != 0 && clear_path(
                    b,
                    from % 8,
                    from / 8,
                    sgn(dx),
                    sgn(dy),
                    iabs(dx),
                )
            } else {
                (dx == 0) != (dy == 0) && clear_path(
                    b,
                    from % 8,
                    from / 8,
                    sgn(dx),
                    sgn(dy),
                    iabs(dx) + iabs(dy),
                )
            }
        }),
    ensures
        slider_moves(b, square_index(m.from), diagonal).contains(m),
{
    lemma_move_rebuilt(m);
    let from = square_index(m.from);
    let tx = to_file(m);
    let ty = to_rank(m);
    let dx = tx - from % 8;
    let dy = ty - from / 8;
    let sx = sgn(dx);
    let sy = sgn(dy);
    let n: int = if diagonal {
        iabs(dx)
    } else {
        iabs(dx) + iabs(dy)
    };
    let k = dir_index(diagonal, sx, sy);
    assert(0 <= k < 4 && slide_dir(diagonal, k) == (sx, sy));
    assert(dx == scaled(n, sx) && dy == scaled(n, sy));
    assert(tx - (from % 8 + sx) == scaled(n - 1, sx));
    assert(ty - (from / 8 + sy) == scaled(n - 1, sy));
    assert(1 <= n <= 7);
    assert(on_board(from % 8 + sx, from / 8 + sy));
    lemma_slide_reaches(b, from, from % 8 + sx, from / 8 + sy, sx, sy, 7, n, tx, ty);
    lemma_slider_upto_contains(b, from, diagonal, 4, k, m);
}

/// The knight jumps or king steps numbered below `n` include step `j`'s move.
proof fn lemma_steps_contains(b: Mailbox, from: int, knight: bool, n: int, j: int, m: Move)
    requires
        0 <= j < n,
        step_move(b, from, step_offset(knight, j).0, step_offset(knight, j).1).contains(m),
    ensures
        steps_upto(b, from, knight, n).contains(m),
    decreases n,
{
    let a = steps_upto(b, from, knight, n - 1);
    let c = step_move(b, from, step_offset(knight, n - 1).0, step_offset(knight, n - 1).1);
    assert(steps_upto(b, from, knight, n) == a + c);
    if j < n - 1 {
        lemma_steps_contains(b, from, knight, n - 1, j, m);
        let i = choose|i: int| 0 <= i < a.len() && a[i] == m;
        assert((a + c)[i] == m);
    } else {
        let i = choose|i: int| 0 <= i < c.len() && c[i] == m;
        assert((a + c)[a.len() + i] == m);
    }
}

/// A knight jump or king step the rules allow is listed among the steps.
#[verifier::spinoff_prover]
#[verifier::rlimit(50)]
proof fn lemma_steps_complete(b: Mailbox, m: Move, knight: bool)
    requires
        rule_move(b, m),
        m.promotion is None,
        offset_index(knight, offset(square_index(m.from), m).0, offset(square_index(m.from), m).1)
            < 8,
    ensures
        steps_upto(b, square_index(m.from), knight, 8).contains(m),
{
    lemma_move_rebuilt(m);
    let from = square_index(m.from);
    let (dx, dy) = offset(from, m);
    let j = offset_index(knight, dx, dy);
    assert(step_offset(knight, j) == (dx, dy));
    let c = step_move(b, from, dx, dy);
    assert(c[0] == m);
    lemma_steps_contains(b, from, knight, 8, j, m);
}

/// A king move the rules allow is listed among the king's moves.
#[verifier::spinoff_prover]
#[verifier::rlimit(50)]
proof fn lemma_king_complete(b: Mailbox, m: Move)
    requires
        rule_move(b, m),
        b.squares@[square_index(m.from)] matches Some(p) && p.1 == Kind::King,
    ensures
        king_moves(b, square_index(m.from)).contains(m),
{
    lemma_move_rebuilt(m);
    let from = square_index(m.from);
    let steps = king_steps_upto(b, from, 8);
    let castles = castle_moves(b, from);
    let (dx, dy) = offset(from, m);
    if iabs(dx) <= 1 && iabs(dy) <= 1 && (dx != 0 || dy != 0) {
        lemma_steps_complete(b, m, false);
        let i = choose|i: int| 0 <= i < steps.len() && steps[i] == m;
        assert((steps + castles)[i] == m);
    } else {
        let to = square_index(m.to);
        assert(to == sq_idx(to_file(m), to_rank(m)));
        if to == king_home(b.side_to_move) + 2 && may_castle(b, true) {
            assert(castles[0] == m);
            assert((steps + castles)[steps.len() as int] == m);
        } else {
            let i = castles.len() - 1;
            assert(castles[i] == m);
            assert((steps + castles)[steps.len() + i] == m);
        }
    }
}

/// A pawn move the rules allow is listed among the pawn's moves.
#[verifier::spinoff_prover]
#[verifier::rlimit(50)]
proof fn lemma_pawn_complete(b: Mailbox, m: Move)
    requires
        rule_move(b, m),
        b.squares@[square_index(m.from)] matches Some(p) && p.1 == Kind::Pawn,
    ensures
        pawn_moves(b, square_index(m.from)).contains(m),
{
    lemma_move_rebuilt(m);
    let from = square_index(m.from);
    let us = b.side_to_move;
    let f = from % 8;
    let r = from / 8;
    let tx = to_file(m);
    let ty = to_rank(m);
    let dir = pawn_dir(us);
    let to_r = r + dir;
    let pushes = pawn_pushes(b, from);
    let lo = pawn_capture(b, from, -1);
    let hi = pawn_capture(b, from, 1);
    let all = pawn_moves(b, from);
    assert(0 <= to_r < 8);
    assert(all == pushes + lo + hi);
    if tx == f {
        // a push, single or double
        let single = sq_idx(f, to_r);
        assert(b.squares@[single] is None);
        let i: int = if ty == to_r {
            if to_r == pawn_promo_rank(us) {
                match m.promotion {
                    Some(crate::Promotion::Queen) => 0,
                    Some(crate::Promotion::Rook) => 1,
                    Some(crate::Promotion::Bishop) => 2,
                    _ => 3,
                }
            } else {
                0
            }
        } else {
            1
        };
        assert(pushes[i] == m);
        assert(all[i] == m);
    } else {
        let cf = tx;
        if tx == f - 1 {
            let i: int = if to_r == pawn_promo_rank(us) {
                match m.promotion {
                    Some(crate::Promotion::Queen) => 0,
                    Some(crate::Promotion::Rook) => 1,
                    Some(crate::Promotion::Bishop) => 2,
                    _ => 3,
                }
            } else {
                0
            };
            assert(lo[i] == m);
            assert(all[pushes.len() + i] == m);
        } else {
            let i: int = if to_r == pawn_promo_rank(us) {
                match m.promotion {
                    Some(crate::Promotion::Queen) => 0,
                    Some(crate::Promotion::Rook) => 1,
                    Some(crate::Promotion::Bishop) => 2,
                    _ => 3,
                }
            } else {
                0
            };
            assert(hi[i] == m);
            assert(all[pushes.len() + lo.len() + i] == m);
        }
    }
}

/// A move the rules allow is listed among the moves generated for its square.
#[verifier::spinoff_prover]
#[verifier::rlimit(50)]
proof fn lemma_piece_moves_complete(b: Mailbox, m: Move)
    requires
        rule_move(b, m),
    ensures
        piece_moves(b, square_index(m.from)).contains(m),
{
    lemma_move_rebuilt(m);
    let from = square_index(m.from);
    let (dx, dy) = offset(from, m);
    match b.squares@[from] {
        Some((c, kind)) => match kind {
            Kind::Pawn => lemma_pawn_complete(b, m),
            Kind::Knight => lemma_steps_complete(b, m, true),
            Kind::Bishop => lemma_slider_complete(b, m, true),
            Kind::Rook => lemma_slider_complete(b, m, false),
            Kind::Queen => {
                let d = slider_moves(b, from, true);
                let o = slider_moves(b, from, false);
                if iabs(dx) == iabs(dy) && dx != 0 && clear_path(
                    b,
                    from % 8,
                    from / 8,
                    sgn(dx),
                    sgn(dy),
                    iabs(dx),
                ) {
                    lemma_slider_complete(b, m, true);
                    let i = choose|i: int| 0 <= i < d.len() && d[i] == m;
                    assert((d + o)[i] == m);
                } else {
                    lemma_slider_complete(b, m, false);
                    let i = choose|i: int| 0 <= i < o.len() && o[i] == m;
                    assert((d + o)[d.len() + i] == m);
                }
            },
            Kind::King => lemma_king_complete(b, m),
        },
        None => {},
    }
}

/// The pseudo-legal moves of the squares below `n` include every move
/// generated for one of them.
proof fn lemma_pseudo_moves_contains(b: Mailbox, n: int, i: int, m: Move)
    requires
        0 <= i < n,
        piece_moves(b, i).contains(m),
    ensures
        pseudo_moves_upto(b, n).contains(m),
    decreases n,
{
    let a = pseudo_moves_upto(b, n - 1);
    let c = piece_moves(b, n - 1);
    if i < n - 1 {
        lemma_pseudo_moves_contains(b, n - 1, i, m);
        let j = choose|j: int| 0 <= j < a.len() && a[j] == m;
        assert((a + c)[j] == m);
    } else {
        let j = choose|j: int| 0 <= j < c.len() && c[j] == m;
        assert((a + c)[a.len() + j] == m);
    }
}

/// The legality filter keeps every move it is given after which the mover's
/// king is not attacked.
#[verifier::spinoff_prover]
#[verifier::rlimit(50)]
proof fn lemma_keep_legal_keeps(b: Mailbox, ms: Seq<Move>, m: Move)
    requires
        ms.contains(m),
        !in_check(after_move(b, m), b.side_to_move),
    ensures
        keep_legal(b, ms).contains(m),
    decreases ms.len(),
{
    let init = ms.drop_last();
    let rest = keep_legal(b, init);
    if ms.last() == m {
        assert(keep_legal(b, ms) == rest.push(m));
        assert(keep_legal(b, ms)[rest.len() as int] == m);
    } else {
        let j = choose|j: int| 0 <= j < ms.len() && ms[j] == m;
        assert(j < ms.len() - 1);
        assert(init[j] == m);
        lemma_keep_legal_keeps(b, init, m);
        let i = choose|i: int| 0 <= i < rest.len() && rest[i] == m;
        if in_check(after_move(b, ms.last()), b.side_to_move) {
            assert(keep_legal(b, ms)[i] == m);
        } else {
            assert(keep_legal(b, ms) == rest.push(ms.last()));
            assert(keep_legal(b, ms)[i] == m);
        }
    }
}

/// Every legal move follows the rules for the piece it moves (see
/// `rule_move`), is one of the pseudo-legal moves, and leaves the mover's
/// king unattacked.
#[verifier::spinoff_prover]
#[verifier::rlimit(50)]
pub proof fn lemma_legal_moves_sound(b: Mailbox, m: Move)
    requires
        legal_moves(b).contains(m),
    ensures
        rule_move(b, m),
        pseudo_moves(b).contains(m),
        !in_check(after_move(b, m), b.side_to_move),
{
    lemma_keep_legal_sound(b, pseudo_moves(b));
    lemma_pseudo_moves_sound(b, 64);
    let k = choose|k: int| 0 <= k < legal_moves(b).len() && legal_moves(b)[k] == m;
    assert(pseudo_moves(b).contains(legal_moves(b)[k]));
    let j = choose|j: int| 0 <= j < pseudo_moves(b).len() && pseudo_moves(b)[j] == m;
    assert(rule_move(b, pseudo_moves_upto(b, 64)[j]));
}

/// Every move the rules allow a piece of the side to move (castling, en
/// passant and each of the four promotions among them), and after which that
/// side's king is not attacked, is among the legal moves.
pub proof fn lemma_legal_moves_complete(b: Mailbox, m: Move)
    requires
        rule_move(b, m),
        !in_check(after_move(b, m), b.side_to_move),
    ensures
        legal_moves(b).contains(m),
{
    lemma_move_rebuilt(m);
    lemma_piece_moves_complete(b, m);
    lemma_pseudo_moves_contains(b, 64, square_index(m.from), m);
    lemma_keep_legal_keeps(b, pseudo_moves(b), m);
}

/// The number of steps of size (`df`, `dr`) that make up the offset
/// (`ox`, `oy`) along a line.
pub open spec fn line_steps(df: int, dr: int, ox: int, oy: int) -> int {
    if df != 0 {
        iabs(ox)
    } else {
        iabs(oy)
    }
}

/// A square on the line beyond file `f`, rank `r`, with the squares between
/// empty, is on the line from the square before when `f`, `r` is empty too.
#[verifier::spinoff_prover]
#[verifier::rlimit(50)]
proof fn lemma_line_extend(b: Mailbox, f: int, r: int, df: int, dr: int, x: int, y: int)
    requires
        -1 <= df <= 1,
        -1 <= dr <= 1,
        df != 0 || dr != 0,
        b.squares@[sq_idx(f, r)] is None,
        line_steps(df, dr, x - f, y - r) >= 1,
        x - f == scaled(line_steps(df, dr, x - f, y - r), df),
        y - r == scaled(line_steps(df, dr, x - f, y - r), dr),
        clear_path(b, f, r, df, dr, line_steps(df, dr, x - f, y - r)),
    ensures
        line_steps(df, dr, x - (f - df), y - (r - dr)) == line_steps(df, dr, x - f, y - r) + 1,
        x - (f - df) == scaled(line_steps(df, dr, x - (f - df), y - (r - dr)), df),
        y - (r - dr) == scaled(line_steps(df, dr, x - (f - df), y - (r - dr)), dr),
        clear_path(b, f - df, r - dr, df, dr, line_steps(df, dr, x - (f - df), y - (r - dr))),
{
    let n1 = line_steps(df, dr, x - f, y - r);
    assert(clear_path(b, f - df, r - dr, df, dr, n1 + 1) == (b.squares@[sq_idx(
        f - df + df,
        r - dr + dr,
    )] is None && clear_path(b, f - df + df, r - dr + dr, df, dr, n1)));
    assert(f - df + df == f && r - dr + dr == r);
}

/// The moves a slider lists walking from file `f`, rank `r` go along the line
/// from the square before it, over empty squares only, to a square that does
/// not hold a piece of the side to move.
#[verifier::spinoff_prover]
#[verifier::rlimit(50)]
proof fn lemma_slide_sound(b: Mailbox, from: int, f: int, r: int, df: int, dr: int, fuel: nat)
    requires
        -1 <= df <= 1,
        -1 <= dr <= 1,
        df != 0 || dr != 0,
    ensures
        forall|k: int|
            0 <= k < slide_moves(b, from, f, r, df, dr, fuel).len() ==> {
                let m = #[trigger] slide_moves(b, from, f, r, df, dr, fuel)[k];
                let ox = to_file(m) - (f - df);
                let oy = to_rank(m) - (r - dr);
                let n = line_steps(df, dr, ox, oy);
                &&& n >= 1
                &&& ox == scaled(n, df)
                &&& oy == scaled(n, dr)
                &&& clear_path(b, f - df, r - dr, df, dr, n)
                &&& !(b.squares@[square_index(m.to)] matches Some(q) && q.0 == b.side_to_move)
                &&& m.from == square_of_index(from)
                &&& m.promotion is None
            },
    decreases fuel,
{
    if fuel > 0 && on_board(f, r) {
        lemma_slide_sound(b, from, f + df, r + dr, df, dr, (fuel - 1) as nat);
        lemma_mk_move_to(from, f, r, None);
        let s = slide_moves(b, from, f, r, df, dr, fuel);
        let rest = slide_moves(b, from, f + df, r + dr, df, dr, (fuel - 1) as nat);
        assert forall|k: int| 0 <= k < s.len() implies {
            let m = #[trigger] s[k];
            let ox = to_file(m) - (f - df);
            let oy = to_rank(m) - (r - dr);
            let n = line_steps(df, dr, ox, oy);
            &&& n >= 1
            &&& ox == scaled(n, df)
            &&& oy == scaled(n, dr)
            &&& clear_path(b, f - df, r - dr, df, dr, n)
            &&& !(b.squares@[square_index(m.to)] matches Some(q) && q.0 == b.side_to_move)
            &&& m.from == square_of_index(from)
            &&& m.promotion is None
        } by {
            crate::lemma_square_index_roundtrip(square_of_index(0), sq_idx(f, r));
            if k > 0 {
                let m = rest[k - 1];
                assert(s[k] == m);
                lemma_line_extend(b, f, r, df, dr, to_file(m), to_rank(m));
            }
        }
    }
}

/// The sliding moves along the directions numbered below `n` follow the
/// rule for a line of the chosen set.
#[verifier::spinoff_prover]
#[verifier::rlimit(50)]
proof fn lemma_slider_sound(b: Mailbox, from: int, diagonal: bool, n: int)
    requires
        0 <= from < 64,
        n <= 4,
    ensures
        forall|k: int|
            0 <= k < slider_moves_upto(b, from, diagonal, n).len() ==> {
                let m = #[trigger] slider_moves_upto(b, from, diagonal, n)[k];
                let dx = to_file(m) - from % 8;
                let dy = to_rank(m) - from / 8;
                &&& m.from == square_of_index(from)
                &&& m.promotion is None
                &&& !(b.squares@[square_index(m.to)] matches Some(q) && q.0 == b.side_to_move)
                &&& if diagonal {
                    iabs(dx) == iabs(dy) && dx != 0 && clear_path(
                        b,
                        from % 8,
                        from / 8,
                        sgn(dx),
                        sgn(dy),
                        iabs(dx),
                    )
                } else {
                    (dx == 0) != (dy == 0) && clear_path(
                        b,
                        from % 8,
                        from / 8,
                        sgn(dx),
                        sgn(dy),
                        iabs(dx) + iabs(dy),
                    )
                }
            },
    decreases n,
{
    if n > 0 {
        lemma_slider_sound(b, from, diagonal, n - 1);
        let (df, dr) = slide_dir(diagonal, n - 1);
        lemma_slide_sound(b, from, from % 8 + df, from / 8 + dr, df, dr, 7);
        let a = slider_moves_upto(b, from, diagonal, n - 1);
        let c = ray_moves(b, from, diagonal, n - 1);
        assert forall|k: int| 0 <= k < (a + c).len() implies {
            let m = #[trigger] (a + c)[k];
            let dx = to_file(m) - from % 8;
            let dy = to_rank(m) - from / 8;
            &&& m.from == square_of_index(from)
            &&& m.promotion is None
            &&& !(b.squares@[square_index(m.to)] matches Some(q) && q.0 == b.side_to_move)
            &&& if diagonal {
                iabs(dx) == iabs(dy) && dx != 0 && clear_path(
                    b,
                    from % 8,
                    from / 8,
                    sgn(dx),
                    sgn(dy),
                    iabs(dx),
                )
            } else {
                (dx == 0) != (dy == 0) && clear_path(
                    b,
                    from % 8,
                    from / 8,
                    sgn(dx),
                    sgn(dy),
                    iabs(dx) + iabs(dy),
                )
            }
        } by {
            if k < a.len() {
                assert((a + c)[k] == a[k]);
            } else {
                let m = c[k - a.len()];
                assert((a + c)[k] == m);
                let dx = to_file(m) - from % 8;
                let dy = to_rank(m) - from / 8;
                assert(sgn(dx) == df && sgn(dy) == dr);
            }
        }
    }
}

/// The knight jumps or king steps numbered below `n` go one of those offsets
/// onto a square without a piece of the side to move.
#[verifier::spinoff_prover]
#[verifier::rlimit(50)]
proof fn lemma_steps_sound(b: Mailbox, from: int, knight: bool, n: int)
    requires
        0 <= from < 64,
        n <= 8,
    ensures
        forall|k: int|
            0 <= k < steps_upto(b, from, knight, n).len() ==> {
                let m = #[trigger] steps_upto(b, from, knight, n)[k];
                &&& offset_index(knight, offset(from, m).0, offset(from, m).1) < n
                &&& m.from == square_of_index(from)
                &&& m.promotion is None
                &&& !(b.squares@[square_index(m.to)] matches Some(q) && q.0 == b.side_to_move)
            },
    decreases n,
{
    if n > 0 {
        lemma_steps_sound(b, from, knight, n - 1);
        let (df, dr) = step_offset(knight, n - 1);
        let a = steps_upto(b, from, knight, n - 1);
        let c = step_move(b, from, df, dr);
        assert(steps_upto(b, from, knight, n) == a + c);
        if c.len() > 0 {
            lemma_mk_move_to(from, from % 8 + df, from / 8 + dr, None);
            crate::lemma_square_index_roundtrip(
                square_of_index(0),
                sq_idx(from % 8 + df, from / 8 + dr),
            );
            assert(offset(from, c[0]) == (df, dr));
            assert(offset_index(knight, df, dr) == n - 1);
        }
        assert forall|k: int| 0 <= k < (a + c).len() implies {
            let m = #[trigger] (a + c)[k];
            &&& offset_index(knight, offset(from, m).0, offset(from, m).1) < n
            &&& m.from == square_of_index(from)
            &&& m.promotion is None
            &&& !(b.squares@[square_index(m.to)] matches Some(q) && q.0 == b.side_to_move)
        } by {
            if k < a.len() {
                assert((a + c)[k] == a[k]);
            } else {
                assert((a + c)[k] == c[k - a.len()]);
            }
        }
    }
}

/// Every move listed for the pawn of the side to move on `from` follows the
/// rules for pawns.
#[verifier::spinoff_prover]
#[verifier::rlimit(50)]
proof fn lemma_pawn_sound(b: Mailbox, from: int)
    requires
        0 <= from < 64,
        b.squares@[from] == Some((b.side_to_move, Kind::Pawn)),
    ensures
        forall|k: int|
            0 <= k < pawn_moves(b, from).len() ==> rule_move(b, #[trigger] pawn_moves(b, from)[k]),
{
    let us = b.side_to_move;
    let f = from % 8;
    let r = from / 8;
    let dir = pawn_dir(us);
    let to_r = r + dir;
    crate::lemma_square_index_roundtrip(square_of_index(0), from);
    if 0 <= to_r < 8 {
        let pushes = pawn_pushes(b, from);
        let lo = pawn_capture(b, from, -1);
        let hi = pawn_capture(b, from, 1);
        lemma_promotions_shape(from, f, to_r);
        lemma_mk_move_to(from, f, to_r, None);
        crate::lemma_square_index_roundtrip(square_of_index(0), sq_idx(f, to_r));
        if r == pawn_start_rank(us) {
            lemma_mk_move_to(from, f, r + 2 * dir, None);
            crate::lemma_square_index_roundtrip(square_of_index(0), sq_idx(f, r + 2 * dir));
        }
        assert forall|k: int| 0 <= k < pushes.len() implies rule_move(b, #[trigger] pushes[k]) by {}
        if 0 <= f - 1 {
            lemma_promotions_shape(from, f - 1, to_r);
            lemma_mk_move_to(from, f - 1, to_r, None);
            crate::lemma_square_index_roundtrip(square_of_index(0), sq_idx(f - 1, to_r));
        }
        assert forall|k: int| 0 <= k < lo.len() implies rule_move(b, #[trigger] lo[k]) by {}
        if f + 1 < 8 {
            lemma_promotions_shape(from, f + 1, to_r);
            lemma_mk_move_to(from, f + 1, to_r, None);
            crate::lemma_square_index_roundtrip(square_of_index(0), sq_idx(f + 1, to_r));
        }
        assert forall|k: int| 0 <= k < hi.len() implies rule_move(b, #[trigger] hi[k]) by {}
        let all = pawn_moves(b, from);
        assert(all == pushes + lo + hi);
        assert forall|k: int| 0 <= k < all.len() implies rule_move(b, #[trigger] all[k]) by {
            if k < pushes.len() {
                assert(all[k] == pushes[k]);
            } else if k < pushes.len() + lo.len() {
                assert(all[k] == lo[k - pushes.len()]);
            } else {
                assert(all[k] == hi[k - pushes.len() - lo.len()]);
            }
        }
    }
}

/// Every move listed for the king of the side to move on `from` follows the
/// rules for kings.
#[verifier::spinoff_prover]
#[verifier::rlimit(50)]
proof fn lemma_king_sound(b: Mailbox, from: int)
    requires
        0 <= from < 64,
        b.squares@[from] == Some((b.side_to_move, Kind::King)),
    ensures
        forall|k: int|
            0 <= k < king_moves(b, from).len() ==> rule_move(b, #[trigger] king_moves(b, from)[k]),
{
    crate::lemma_square_index_roundtrip(square_of_index(0), from);
    lemma_steps_sound(b, from, false, 8);
    let steps = king_steps_upto(b, from, 8);
    let castles = castle_moves(b, from);
    let home: int = if b.side_to_move == Color::White {
        0
    } else {
        56
    };
    crate::lemma_square_index_roundtrip(square_of_index(0), home + 6);
    crate::lemma_square_index_roundtrip(square_of_index(0), home + 2);
    assert forall|k: int| 0 <= k < steps.len() implies rule_move(b, #[trigger] steps[k]) by {
        let m = steps[k];
        assert(offset_index(false, offset(from, m).0, offset(from, m).1) < 8);
    }
    assert forall|k: int| 0 <= k < castles.len() implies rule_move(b, #[trigger] castles[k]) by {}
    let all = king_moves(b, from);
    assert forall|k: int| 0 <= k < all.len() implies rule_move(b, #[trigger] all[k]) by {
        if k < steps.len() {
            assert(all[k] == steps[k]);
        } else {
            assert(all[k] == castles[k - steps.len()]);
        }
    }
}

/// Every move generated for square `i` follows the rules.
#[verifier::spinoff_prover]
#[verifier::rlimit(50)]
proof fn lemma_piece_moves_sound(b: Mailbox, i: int)
    requires
        0 <= i < 64,
    ensures
        forall|k: int|
            0 <= k < piece_moves(b, i).len() ==> rule_move(b, #[trigger] piece_moves(b, i)[k]),
{
    crate::lemma_square_index_roundtrip(square_of_index(0), i);
    match b.squares@[i] {
        Some((c, kind)) => {
            if c == b.side_to_move {
                let s = piece_moves(b, i);
                match kind {
                    Kind::Pawn => lemma_pawn_sound(b, i),
                    Kind::Knight => {
                        lemma_steps_sound(b, i, true, 8);
                        assert forall|k: int| 0 <= k < s.len() implies rule_move(b, #[trigger] s[k]) by {
                            let m = s[k];
                            assert(offset_index(true, offset(i, m).0, offset(i, m).1) < 8);
                        }
                    },
                    Kind::Bishop => {
                        lemma_slider_sound(b, i, true, 4);
                        assert forall|k: int| 0 <= k < s.len() implies rule_move(b, #[trigger] s[k]) by {}
                    },
                    Kind::Rook => {
                        lemma_slider_sound(b, i, false, 4);
                        assert forall|k: int| 0 <= k < s.len() implies rule_move(b, #[trigger] s[k]) by {}
                    },
                    Kind::Queen => {
                        lemma_slider_sound(b, i, true, 4);
                        lemma_slider_sound(b, i, false, 4);
                        let d = slider_moves(b, i, true);
                        let o = slider_moves(b, i, false);
                        assert forall|k: int| 0 <= k < s.len() implies rule_move(b, #[trigger] s[k]) by {
                            if k < d.len() {
                                assert(s[k] == d[k]);
                            } else {
                                assert(s[k] == o[k - d.len()]);
                            }
                        }
                    },
                    Kind::King => lemma_king_sound(b, i),
                }
            }
        },
        None => {},
    }
}

/// Every pseudo-legal move of the squares below `n` follows the rules.
#[verifier::spinoff_prover]
#[verifier::rlimit(50)]
proof fn lemma_pseudo_moves_sound(b: Mailbox, n: int)
    requires
        n <= 64,
    ensures
        forall|k: int|
            0 <= k < pseudo_moves_upto(b, n).len() ==> rule_move(
                b,
                #[trigger] pseudo_moves_upto(b, n)[k],
            ),
    decreases n,
{
    if n > 0 {
        lemma_pseudo_moves_sound(b, n - 1);
        lemma_piece_moves_sound(b, n - 1);
        let a = pseudo_moves_upto(b, n - 1);
        let c = piece_moves(b, n - 1);
        assert forall|k: int| 0 <= k < (a + c).len() implies rule_move(b, #[trigger] (a + c)[k]) by {
            if k < a.len() {
                assert((a + c)[k] == a[k]);
            } else {
                assert((a + c)[k] == c[k - a.len()]);
            }
        }
    }
}

/// A move from an empty square can always be played, and leaves the position
/// as it was.
pub proof fn lemma_move_from_empty_square(b: Mailbox, m: Move)
    requires
        b.squares@[square_index(m.from)] is None,
    ensures
        b.playable(m),
        b.after(m) == b,
{
}

/// Castling never passes a king over a piece, is made only with its right,
/// and never from, through or into an attacked square: when a legal move
/// takes the king of the side to move from its starting square two files
/// toward the queen's side, that side holds its queenside right, the b, c and
/// d squares of its home rank are empty, and the e, d and c squares are not
/// attacked by the other side; two files toward the king's side, it holds its
/// kingside right, the f and g squares are empty, and the e, f and g squares
/// are not attacked.
pub proof fn lemma_castling_path_clear(b: Mailbox, m: Move)
    requires
        legal_moves(b).contains(m),
        b.squares@[square_index(m.from)] == Some((b.side_to_move, Kind::King)),
        square_index(m.from) == king_home(b.side_to_move),
    ensures
        ({
            let us = b.side_to_move;
            let them = crate::opposite_color(us);
            let k = king_home(us);
            square_index(m.to) == k - 2 ==> {
                &&& if us == Color::White {
                    b.castling.white_queenside
                } else {
                    b.castling.black_queenside
                }
                &&& b.squares@[k - 1] is None
                &&& b.squares@[k - 2] is None
                &&& b.squares@[k - 3] is None
                &&& !attacked(b, k, them)
                &&& !attacked(b, k - 1, them)
                &&& !attacked(b, k - 2, them)
            }
        }),
        ({
            let us = b.side_to_move;
            let them = crate::opposite_color(us);
            let k = king_home(us);
            square_index(m.to) == k + 2 ==> {
                &&& if us == Color::White {
                    b.castling.white_kingside
                } else {
                    b.castling.black_kingside
                }
                &&& b.squares@[k + 1] is None
                &&& b.squares@[k + 2] is None
                &&& !attacked(b, k, them)
                &&& !attacked(b, k + 1, them)
                &&& !attacked(b, k + 2, them)
            }
        }),
{
    lemma_legal_moves_sound(b, m);
    lemma_move_rebuilt(m);
}

/// A move that leaves or lands on a corner square takes away the castling
/// right of the rook that starts there, whichever side makes the move; a king
/// move takes away both rights of its side; and no move ever gives a castling
/// right back.
pub proof fn lemma_corner_moves_clear_rights(b: Mailbox, m: Move)
    requires
        b.squares@[square_index(m.from)] is Some,
    ensures
        ({
            let a = after_move(b, m);
            let f = square_index(m.from);
            let t = square_index(m.to);
            &&& (f == 7 || t == 7) ==> !a.castling.white_kingside
            &&& (f == 0 || t == 0) ==> !a.castling.white_queenside
            &&& (f == 63 || t == 63) ==> !a.castling.black_kingside
            &&& (f == 56 || t == 56) ==> !a.castling.black_queenside
            &&& b.squares@[f] == Some((Color::White, Kind::King)) ==> !a.castling.white_kingside
                && !a.castling.white_queenside
            &&& b.squares@[f] == Some((Color::Black, Kind::King)) ==> !a.castling.black_kingside
                && !a.castling.black_queenside
            &&& a.castling.white_kingside ==> b.castling.white_kingside
            &&& a.castling.white_queenside ==> b.castling.white_queenside
            &&& a.castling.black_kingside ==> b.castling.black_kingside
            &&& a.castling.black_queenside ==> b.castling.black_queenside
        }),
{
}

/// The side `check` reports is one whose king is attacked, and it reports
/// none only when neither king is attacked.
pub proof fn lemma_check_reports_attacked_king(b: Mailbox)
    ensures
        checked_side(b) matches Some(c) ==> in_check(b, c),
        checked_side(b) is None ==> !in_check(b, Color::White) && !in_check(b, Color::Black),
{
}

} // verus!
