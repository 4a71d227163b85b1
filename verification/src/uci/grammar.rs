//! The pieces of UCI grammar that requests and responses share: squares and
//! moves in long algebraic form, lists of moves, keyed numbers.
use vstd::prelude::*;

use super::{Move, Promotion, Square};
use crate::text::{
    eat_word, lemma_blank_run_bound, parse_blanks, parse_uint,
    read_blanks, read_uint, read_word,
};
use crate::{file_of_num, rank_of_num, File, Rank};

verus! {

/// A square at `pos`: a file letter `a`-`h`, then a rank digit `1`-`8`.
pub open spec fn read_square(s: Seq<char>, pos: int) -> Option<(int, Square)> {
    if 0 <= pos && pos + 2 <= s.len() && 'a' <= s[pos] <= 'h' && '1' <= s[pos + 1] <= '8' {
        Some(
            (
                pos + 2,
                Square {
                    file: file_of_num(s[pos] as int - 'a' as int),
                    rank: rank_of_num(s[pos + 1] as int - '1' as int),
                },
            ),
        )
    } else {
        None
    }
}

/// The promotion a letter names: `q`, `r`, `b` or `n`.
pub open spec fn promotion_of(c: char) -> Option<Promotion> {
    if c == 'q' {
        Some(Promotion::Queen)
    } else if c == 'r' {
        Some(Promotion::Rook)
    } else if c == 'b' {
        Some(Promotion::Bishop)
    } else if c == 'n' {
        Some(Promotion::Knight)
    } else {
        None
    }
}

/// A move at `pos`: two squares and an optional promotion letter.
pub open spec fn read_move(s: Seq<char>, pos: int) -> Option<(int, Move)> {
    match read_square(s, pos) {
        None => None,
        Some((p1, from)) => match read_square(s, p1) {
            None => None,
            Some((p2, to)) => if p2 < s.len() && promotion_of(s[p2]) is Some {
                Some((p2 + 1, Move { from, to, promotion: promotion_of(s[p2]) }))
            } else {
                Some((p2, Move { from, to, promotion: None }))
            },
        },
    }
}

/// A move read at `pos` ends past `pos` and within `s`.
pub proof fn lemma_read_move_bounds(s: Seq<char>, pos: int)
    ensures
        match read_move(s, pos) {
            Some((p, _)) => pos + 4 <= p <= s.len(),
            None => true,
        },
{
}

/// Blanks then a move, again and again, for as long as both are there: the
/// position after the last move read, and the moves.
pub open spec fn read_more_moves(s: Seq<char>, pos: int) -> (int, Seq<Move>)
    decreases s.len() - pos,
{
    match read_blanks(s, pos) {
        None => (pos, seq![]),
        Some(p1) => match read_move(s, p1) {
            None => (pos, seq![]),
            Some((p2, m)) => {
                proof {
                    lemma_read_move_bounds(s, p1);
                }
                let (p3, ms) = read_more_moves(s, p2);
                (p3, seq![m] + ms)
            },
        },
    }
}

/// The position `read_more_moves` stops at lies between `pos` and the end.
pub proof fn lemma_read_more_moves_bounds(s: Seq<char>, pos: int)
    requires
        0 <= pos <= s.len(),
    ensures
        pos <= read_more_moves(s, pos).0 <= s.len(),
    decreases s.len() - pos,
{
    match read_blanks(s, pos) {
        None => {},
        Some(p1) => match read_move(s, p1) {
            None => {},
            Some((p2, m)) => {
                lemma_read_move_bounds(s, p1);
                lemma_read_more_moves_bounds(s, p2);
            },
        },
    }
}

/// One move or more separated by blanks.
pub open spec fn read_move_list(s: Seq<char>, pos: int) -> Option<(int, Seq<Move>)> {
    match read_move(s, pos) {
        None => None,
        Some((p1, m)) => {
            let (p2, ms) = read_more_moves(s, p1);
            Some((p2, seq![m] + ms))
        },
    }
}

/// `key`, blanks, and an unsigned 64-bit number.
pub open spec fn read_keyed_uint(s: Seq<char>, pos: int, key: Seq<char>) -> Option<(int, u64)> {
    match read_word(s, pos, key) {
        None => None,
        Some(p1) => match read_blanks(s, p1) {
            None => None,
            Some(p2) => match read_uint(s, p2, u64::MAX as int) {
                None => None,
                Some((p3, v)) => Some((p3, v as u64)),
            },
        },
    }
}

/// `key` then blanks: the position after the blanks.
pub open spec fn read_key(s: Seq<char>, pos: int, key: Seq<char>) -> Option<int> {
    match read_word(s, pos, key) {
        None => None,
        Some(p1) => read_blanks(s, p1),
    }
}

// ---------------------------------------------------------------------------
// Reading

fn file_from_char(c: char) -> (f: File)
    requires
        'a' <= c <= 'h',
    ensures
        f == file_of_num(c as int - 'a' as int),
{
    if c == 'a' {
        File::A
    } else if c == 'b' {
        File::B
    } else if c == 'c' {
        File::C
    } else if c == 'd' {
        File::D
    } else if c == 'e' {
        File::E
    } else if c == 'f' {
        File::F
    } else if c == 'g' {
        File::G
    } else {
        File::H
    }
}

fn rank_from_char(c: char) -> (r: Rank)
    requires
        '1' <= c <= '8',
    ensures
        r == rank_of_num(c as int - '1' as int),
{
    if c == '1' {
        Rank::R1
    } else if c == '2' {
        Rank::R2
    } else if c == '3' {
        Rank::R3
    } else if c == '4' {
        Rank::R4
    } else if c == '5' {
        Rank::R5
    } else if c == '6' {
        Rank::R6
    } else if c == '7' {
        Rank::R7
    } else {
        Rank::R8
    }
}

/// Reads a square at `pos` (see `read_square`).
pub fn parse_square(s: &Vec<char>, pos: usize) -> (r: Option<(usize, Square)>)
    requires
        pos <= s@.len(),
    ensures
        match r {
            Some((p, q)) => read_square(s@, pos as int) == Some((p as int, q)),
            None => read_square(s@, pos as int) is None,
        },
{
    let n = s.len();
    if n - pos >= 2 {
        let c = s[pos];
        let d = s[pos + 1];
        if 'a' <= c && c <= 'h' && '1' <= d && d <= '8' {
            return Some((pos + 2, Square { file: file_from_char(c), rank: rank_from_char(d) }));
        }
    }
    None
}

fn promotion_from_char(c: char) -> (r: Option<Promotion>)
    ensures
        r == promotion_of(c),
{
    if c == 'q' {
        Some(Promotion::Queen)
    } else if c == 'r' {
        Some(Promotion::Rook)
    } else if c == 'b' {
        Some(Promotion::Bishop)
    } else if c == 'n' {
        Some(Promotion::Knight)
    } else {
        None
    }
}

/// Reads a move at `pos` (see `read_move`).
pub fn parse_move(s: &Vec<char>, pos: usize) -> (r: Option<(usize, Move)>)
    requires
        pos <= s@.len(),
    ensures
        match r {
            Some((p, m)) => read_move(s@, pos as int) == Some((p as int, m)) && p <= s@.len(),
            None => read_move(s@, pos as int) is None,
        },
{
    proof {
        lemma_read_move_bounds(s@, pos as int);
    }
    let (p1, from) = match parse_square(s, pos) {
        None => {
            return None;
        },
        Some(x) => x,
    };
    let (p2, to) = match parse_square(s, p1) {
        None => {
            return None;
        },
        Some(x) => x,
    };
    if p2 < s.len() {
        let promo = promotion_from_char(s[p2]);
        if promo.is_some() {
            return Some((p2 + 1, Move { from, to, promotion: promo }));
        }
    }
    Some((p2, Move { from, to, promotion: None }))
}

/// Reads blanks and moves for as long as both are there (see `read_more_moves`).
pub fn parse_more_moves(s: &Vec<char>, pos: usize) -> (r: (usize, Vec<Move>))
    requires
        pos <= s@.len(),
    ensures
        r.0 as int == read_more_moves(s@, pos as int).0,
        r.1@ == read_more_moves(s@, pos as int).1,
        pos <= r.0 <= s@.len(),
{
    let mut moves: Vec<Move> = Vec::new();
    let mut i = pos;
    loop
        invariant
            pos <= i <= s@.len(),
            read_more_moves(s@, pos as int) == (
                read_more_moves(s@, i as int).0,
                moves@ + read_more_moves(s@, i as int).1,
            ),
        ensures
            pos <= i <= s@.len(),
            read_more_moves(s@, pos as int) == (i as int, moves@),
        decreases s@.len() - i,
    {
        proof {
            lemma_read_more_moves_bounds(s@, i as int);
        }
        let p1 = match parse_blanks(s, i) {
            None => {
                assert(moves@ + Seq::<Move>::empty() =~= moves@);
                break ;
            },
            Some(p) => p,
        };
        match parse_move(s, p1) {
            None => {
                assert(moves@ + Seq::<Move>::empty() =~= moves@);
                break ;
            },
            Some((p2, m)) => {
                proof {
                    lemma_blank_run_bound(s@, i as int);
                    let rest = read_more_moves(s@, p2 as int).1;
                    assert(moves@ + (seq![m] + rest) =~= moves@.push(m) + rest);
                }
                moves.push(m);
                i = p2;
            },
        }
    }
    (i, moves)
}

/// Reads one move or more separated by blanks (see `read_move_list`).
pub fn parse_move_list(s: &Vec<char>, pos: usize) -> (r: Option<(usize, Vec<Move>)>)
    requires
        pos <= s@.len(),
    ensures
        match r {
            Some((p, ms)) => read_move_list(s@, pos as int) == Some((p as int, ms@)) && p
                <= s@.len(),
            None => read_move_list(s@, pos as int) is None,
        },
{
    match parse_move(s, pos) {
        None => None,
        Some((p1, m)) => {
            let (p2, rest) = parse_more_moves(s, p1);
            let mut ms: Vec<Move> = Vec::new();
            ms.push(m);
            let mut rest = rest;
            ms.append(&mut rest);
            assert(ms@ =~= seq![m] + read_more_moves(s@, p1 as int).1);
            Some((p2, ms))
        },
    }
}

/// Reads `key` then blanks (see `read_key`).
pub fn parse_key(s: &Vec<char>, pos: usize, key: &str) -> (r: Option<usize>)
    requires
        pos <= s@.len(),
    ensures
        match r {
            Some(p) => read_key(s@, pos as int, key@) == Some(p as int) && p <= s@.len(),
            None => read_key(s@, pos as int, key@) is None,
        },
{
    match eat_word(s, pos, key) {
        None => None,
        Some(p1) => parse_blanks(s, p1),
    }
}

/// Reads `key`, blanks and an unsigned 64-bit number (see `read_keyed_uint`).
pub fn parse_keyed_uint(s: &Vec<char>, pos: usize, key: &str) -> (r: Option<(usize, u64)>)
    requires
        pos <= s@.len(),
    ensures
        match r {
            Some((p, v)) => read_keyed_uint(s@, pos as int, key@) == Some((p as int, v)) && p
                <= s@.len(),
            None => read_keyed_uint(s@, pos as int, key@) is None,
        },
{
    let p1 = match eat_word(s, pos, key) {
        None => {
            return None;
        },
        Some(p) => p,
    };
    let p2 = match parse_blanks(s, p1) {
        None => {
            return None;
        },
        Some(p) => p,
    };
    match parse_uint(s, p2, u64::MAX) {
        None => None,
        Some((p3, v)) => Some((p3, v)),
    }
}

} // verus!
