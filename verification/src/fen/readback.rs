//! FEN text reads back as the position it was written from.
use vstd::prelude::*;

use super::{
    board_of_ranks, board_text_top, castling_of, castling_run, castling_text, en_passant_text,
    fen_text, file_letter, is_castling_char, is_piece_letter, is_rank_char, letter_piece,
    piece_letter, rank_cells, rank_char_cells, rank_row, rank_run, read_board, read_castling,
    read_en_passant, read_fen, read_more_ranks, read_rank, read_side, row_text, FenV,
};
use crate::text::{
    dec, digit_char, has_word, is_digit, lemma_dec_digits, lemma_digit_char, lemma_has_word_index,
    lemma_has_word_split, lemma_one_blank, lemma_read_uint_dec, read_blanks, read_uint,
};
use crate::{file_num, file_of_num, rank_num, rank_of_num, CastlingRights, Color, Piece, Square};

verus! {

/// `n` empty squares.
pub open spec fn empties(n: nat) -> Seq<Option<Piece>> {
    Seq::new(n, |i: int| None::<Piece>)
}

/// A piece's letter names that piece.
pub proof fn lemma_letter_piece(p: Piece)
    ensures
        is_piece_letter(piece_letter(p)),
        letter_piece(piece_letter(p)) == p,
{
}

/// The squares of adjacent stretches of rank characters follow each other.
pub proof fn lemma_rank_cells_concat(s: Seq<char>, a: int, b: int, c: int)
    requires
        a <= b <= c,
    ensures
        rank_cells(s, a, c) == rank_cells(s, a, b) + rank_cells(s, b, c),
    decreases c - b,
{
    if c > b {
        lemma_rank_cells_concat(s, a, b, c - 1);
        assert(rank_cells(s, a, c) =~= rank_cells(s, a, b) + rank_cells(s, b, c));
    } else {
        assert(rank_cells(s, a, b) + rank_cells(s, b, c) =~= rank_cells(s, a, c));
    }
}

/// A rank written from file `i` on, with `e` empty squares pending, stands
/// for those empty squares and the rest of the row, and holds rank
/// characters only.
pub proof fn lemma_row_text(s: Seq<char>, pos: int, row: Seq<Option<Piece>>, i: int, e: nat)
    requires
        row.len() == 8,
        0 <= i <= 8,
        e <= i,
        0 <= pos,
        has_word(s, pos, row_text(row, i, e)),
    ensures
        rank_cells(s, pos, pos + row_text(row, i, e).len()) == empties(e) + row.subrange(i, 8),
        forall|j: int|
            pos <= j < pos + row_text(row, i, e).len() ==> is_rank_char(#[trigger] s[j]),
    decreases 8 - i,
{
    let t = row_text(row, i, e);
    if i >= 8 {
        if e > 0 {
            lemma_has_word_index(s, pos, t, 0);
            lemma_digit_char(e as int);
            assert(rank_cells(s, pos, pos) =~= Seq::<Option<Piece>>::empty());
            assert(rank_char_cells(s[pos]) =~= empties(e));
            assert(rank_cells(s, pos, pos + 1) =~= empties(e) + row.subrange(i, 8));
        } else {
            assert(rank_cells(s, pos, pos) =~= empties(e) + row.subrange(i, 8));
        }
    } else {
        match row[i] {
            Some(p) => {
                let pre = if e > 0 {
                    seq![digit_char(e as int)]
                } else {
                    seq![]
                };
                let rest = row_text(row, i + 1, 0);
                assert(t == pre + seq![piece_letter(p)] + rest);
                lemma_has_word_split(s, pos, pre + seq![piece_letter(p)], rest);
                lemma_has_word_split(s, pos, pre, seq![piece_letter(p)]);
                let q = pos + pre.len();
                lemma_has_word_index(s, q, seq![piece_letter(p)], 0);
                lemma_letter_piece(p);
                lemma_row_text(s, q + 1, row, i + 1, 0);
                lemma_rank_cells_concat(s, pos, q, q + 1);
                lemma_rank_cells_concat(s, pos, q + 1, pos + t.len());
                assert(rank_cells(s, q, q + 1) =~= seq![Some(p)]) by {
                    assert(rank_cells(s, q, q) =~= Seq::<Option<Piece>>::empty());
                }
                if e > 0 {
                    lemma_has_word_index(s, pos, pre, 0);
                    lemma_digit_char(e as int);
                    assert(rank_cells(s, pos, pos) =~= Seq::<Option<Piece>>::empty());
                    assert(rank_char_cells(s[pos]) =~= empties(e));
                    assert(rank_cells(s, pos, q) =~= empties(e));
                } else {
                    assert(rank_cells(s, pos, q) =~= empties(e));
                }
                assert(empties(0) + row.subrange(i + 1, 8) =~= row.subrange(i + 1, 8));
                assert(empties(e) + row.subrange(i, 8) =~= empties(e) + seq![Some(p)]
                    + row.subrange(i + 1, 8));
            },
            None => {
                lemma_row_text(s, pos, row, i + 1, e + 1);
                assert(empties(e + 1) + row.subrange(i + 1, 8) =~= empties(e) + row.subrange(
                    i,
                    8,
                ));
            },
        }
    }
}

/// A run of exactly `k` rank characters at `pos`.
pub proof fn lemma_rank_run_exact(s: Seq<char>, pos: int, k: int)
    requires
        0 <= pos,
        0 <= k,
        pos + k <= s.len(),
        forall|j: int| pos <= j < pos + k ==> is_rank_char(#[trigger] s[j]),
        pos + k == s.len() || !is_rank_char(s[pos + k]),
    ensures
        rank_run(s, pos) == k,
    decreases k,
{
    if k > 0 {
        lemma_rank_run_exact(s, pos + 1, k - 1);
    }
}

/// A written rank, followed by something other than a rank character,
/// reads back as its row.
pub proof fn lemma_read_row(s: Seq<char>, pos: int, row: Seq<Option<Piece>>)
    requires
        row.len() == 8,
        0 <= pos,
        has_word(s, pos, row_text(row, 0, 0)),
        pos + row_text(row, 0, 0).len() == s.len() || !is_rank_char(
            s[pos + row_text(row, 0, 0).len()],
        ),
    ensures
        read_rank(s, pos) == Some((pos + row_text(row, 0, 0).len(), row)),
{
    let k = row_text(row, 0, 0).len() as int;
    lemma_row_text(s, pos, row, 0, 0);
    assert(empties(0) + row.subrange(0, 8) =~= row);
    lemma_rank_run_exact(s, pos, k);
    if k == 0 {
        assert(rank_cells(s, pos, pos).len() == 0);
    }
}

/// The ranks from `hi` down to `lo`, each after a `/`.
pub open spec fn rows_down(sq: Seq<Option<Piece>>, hi: int, lo: int) -> Seq<char>
    decreases hi - lo + 1,
{
    if hi < lo {
        seq![]
    } else {
        seq!['/'] + row_text(rank_row(sq, hi), 0, 0) + rows_down(sq, hi - 1, lo)
    }
}

/// The rows from `k` down to rank 1.
pub open spec fn rows_seq(sq: Seq<Option<Piece>>, k: int) -> Seq<Seq<Option<Piece>>> {
    Seq::new((k + 1) as nat, |j: int| rank_row(sq, k - j))
}

proof fn lemma_rows_down_snoc(sq: Seq<Option<Piece>>, hi: int, lo: int)
    requires
        lo <= hi,
    ensures
        rows_down(sq, hi, lo) == rows_down(sq, hi, lo + 1) + seq!['/'] + row_text(
            rank_row(sq, lo),
            0,
            0,
        ),
    decreases hi - lo,
{
    if hi == lo {
        assert(rows_down(sq, lo - 1, lo) =~= Seq::<char>::empty());
        assert(rows_down(sq, hi, lo + 1) =~= Seq::<char>::empty());
        assert(rows_down(sq, hi, lo) =~= rows_down(sq, hi, lo + 1) + seq!['/'] + row_text(
            rank_row(sq, lo),
            0,
            0,
        ));
    } else {
        lemma_rows_down_snoc(sq, hi - 1, lo);
        assert(rows_down(sq, hi, lo) =~= rows_down(sq, hi, lo + 1) + seq!['/'] + row_text(
            rank_row(sq, lo),
            0,
            0,
        ));
    }
}

/// The placement text is rank 8, then the ranks below it each after a `/`.
proof fn lemma_board_text(sq: Seq<Option<Piece>>, r: int)
    requires
        0 <= r <= 7,
    ensures
        board_text_top(sq, r) == row_text(rank_row(sq, 7), 0, 0) + rows_down(sq, 6, r),
    decreases 7 - r,
{
    if r == 7 {
        assert(rows_down(sq, 6, 7) =~= Seq::<char>::empty());
        assert(row_text(rank_row(sq, 7), 0, 0) + rows_down(sq, 6, 7) =~= row_text(
            rank_row(sq, 7),
            0,
            0,
        ));
    } else {
        lemma_board_text(sq, r + 1);
        lemma_rows_down_snoc(sq, 6, r);
        assert(board_text_top(sq, r) =~= row_text(rank_row(sq, 7), 0, 0) + rows_down(sq, 6, r));
    }
}

/// The ranks below, followed by a space, read back as their rows.
proof fn lemma_read_rows_down(s: Seq<char>, pos: int, sq: Seq<Option<Piece>>, k: int)
    requires
        sq.len() == 64,
        -1 <= k <= 6,
        0 <= pos,
        has_word(s, pos, rows_down(sq, k, 0)),
        pos + rows_down(sq, k, 0).len() < s.len(),
        s[pos + rows_down(sq, k, 0).len()] == ' ',
    ensures
        read_more_ranks(s, pos) == (pos + rows_down(sq, k, 0).len(), rows_seq(sq, k)),
    decreases k + 1,
{
    if k < 0 {
        assert(rows_seq(sq, k) =~= Seq::<Seq<Option<Piece>>>::empty());
    } else {
        let row = rank_row(sq, k);
        let t = row_text(row, 0, 0);
        let rest = rows_down(sq, k - 1, 0);
        lemma_has_word_split(s, pos, seq!['/'] + t, rest);
        lemma_has_word_split(s, pos, seq!['/'], t);
        lemma_has_word_index(s, pos, seq!['/'], 0);
        let q = pos + 1 + t.len();
        if k > 0 {
            assert(rest == seq!['/'] + row_text(rank_row(sq, k - 1), 0, 0) + rows_down(
                sq,
                k - 2,
                0,
            ));
            lemma_has_word_index(s, q, rest, 0);
        }
        lemma_read_row(s, pos + 1, row);
        lemma_read_rows_down(s, q, sq, k - 1);
        assert(rows_seq(sq, k) =~= seq![row] + rows_seq(sq, k - 1));
    }
}

/// The placement text, followed by a space, reads back as the squares.
pub proof fn lemma_read_board_text(s: Seq<char>, sq: Seq<Option<Piece>>)
    requires
        sq.len() == 64,
        has_word(s, 0, board_text_top(sq, 0)),
        board_text_top(sq, 0).len() < s.len(),
        s[board_text_top(sq, 0).len() as int] == ' ',
    ensures
        read_board(s, 0) == Some((board_text_top(sq, 0).len() as int, sq)),
{
    lemma_board_text(sq, 0);
    let top = row_text(rank_row(sq, 7), 0, 0);
    let below = rows_down(sq, 6, 0);
    lemma_has_word_split(s, 0, top, below);
    assert(below == seq!['/'] + row_text(rank_row(sq, 6), 0, 0) + rows_down(sq, 5, 0));
    lemma_has_word_index(s, top.len() as int, below, 0);
    lemma_read_row(s, 0, rank_row(sq, 7));
    lemma_read_rows_down(s, top.len() as int, sq, 6);
    let ranks = seq![rank_row(sq, 7)] + rows_seq(sq, 6);
    assert forall|i: int| 0 <= i < 64 implies #[trigger] board_of_ranks(ranks)[i] == sq[i] by {
        assert(ranks[7 - i / 8] == rank_row(sq, i / 8));
        assert((i / 8) * 8 + i % 8 == i);
    }
    assert(board_of_ranks(ranks) =~= sq);
}

/// A run of exactly `k` castling letters at `pos`.
proof fn lemma_castling_run_exact(s: Seq<char>, pos: int, k: int)
    requires
        0 <= pos,
        0 <= k,
        pos + k <= s.len(),
        forall|j: int| pos <= j < pos + k ==> is_castling_char(#[trigger] s[j]),
        pos + k == s.len() || !is_castling_char(s[pos + k]),
    ensures
        castling_run(s, pos) == k,
    decreases k,
{
    if k > 0 {
        lemma_castling_run_exact(s, pos + 1, k - 1);
    }
}

/// The castling field, followed by a space, reads back as the rights.
pub proof fn lemma_read_castling_text(s: Seq<char>, pos: int, c: CastlingRights)
    requires
        0 <= pos,
        has_word(s, pos, castling_text(c)),
        pos + castling_text(c).len() < s.len(),
        s[pos + castling_text(c).len()] == ' ',
    ensures
        read_castling(s, pos) == Some((pos + castling_text(c).len(), c)),
{
    let t1: Seq<char> = if c.white_kingside {
        seq!['K']
    } else {
        seq![]
    };
    let t2: Seq<char> = if c.white_queenside {
        seq!['Q']
    } else {
        seq![]
    };
    let t3: Seq<char> = if c.black_kingside {
        seq!['k']
    } else {
        seq![]
    };
    let t4: Seq<char> = if c.black_queenside {
        seq!['q']
    } else {
        seq![]
    };
    let t = t1 + t2 + t3 + t4;
    if t.len() == 0 {
        lemma_has_word_index(s, pos, castling_text(c), 0);
    } else {
        assert(castling_text(c) == t);
        lemma_has_word_split(s, pos, t1 + t2 + t3, t4);
        lemma_has_word_split(s, pos, t1 + t2, t3);
        lemma_has_word_split(s, pos, t1, t2);
        let a = pos + t1.len();
        let b = a + t2.len();
        let d = b + t3.len();
        let e = d + t4.len();
        if t1.len() > 0 {
            lemma_has_word_index(s, pos, t1, 0);
        }
        if t2.len() > 0 {
            lemma_has_word_index(s, a, t2, 0);
        }
        if t3.len() > 0 {
            lemma_has_word_index(s, b, t3, 0);
        }
        if t4.len() > 0 {
            lemma_has_word_index(s, d, t4, 0);
        }
        assert(s[pos] != '-');
        let none = CastlingRights {
            white_kingside: false,
            white_queenside: false,
            black_kingside: false,
            black_queenside: false,
        };
        assert(castling_of(s, pos, pos) == none);
        assert(castling_of(s, pos, a) == CastlingRights { white_kingside: c.white_kingside, ..none });
        assert(castling_of(s, pos, b) == CastlingRights {
            white_kingside: c.white_kingside,
            white_queenside: c.white_queenside,
            ..none
        });
        assert(castling_of(s, pos, d) == CastlingRights {
            white_kingside: c.white_kingside,
            white_queenside: c.white_queenside,
            black_kingside: c.black_kingside,
            ..none
        });
        assert(castling_of(s, pos, e) == c);
        assert forall|j: int| pos <= j < e implies is_castling_char(#[trigger] s[j]) by {
            if j < a {
            } else if j < b {
            } else if j < d {
            } else {
            }
        }
        lemma_castling_run_exact(s, pos, e - pos);
    }
}

/// The en passant field, followed by a space, reads back as the square.
pub proof fn lemma_read_en_passant_text(s: Seq<char>, pos: int, ep: Option<Square>)
    requires
        0 <= pos,
        has_word(s, pos, en_passant_text(ep)),
    ensures
        read_en_passant(s, pos) == Some((pos + en_passant_text(ep).len(), ep)),
{
    lemma_has_word_index(s, pos, en_passant_text(ep), 0);
    match ep {
        Some(sq) => {
            lemma_has_word_index(s, pos, en_passant_text(ep), 1);
            assert(file_of_num(file_letter(file_num(sq.file)) as int - 'a' as int) == sq.file);
            assert(rank_of_num(digit_char(rank_num(sq.rank) + 1) as int - '1' as int) == sq.rank);
        },
        None => {},
    }
}

/// The fields of a FEN text after the placement.
pub open spec fn fields_text(f: FenV) -> Seq<char> {
    seq![
        ' ',
        if f.side_to_move == Color::White {
            'w'
        } else {
            'b'
        },
        ' ',
    ] + castling_text(f.castling) + seq![' '] + en_passant_text(f.en_passant) + seq![' ']
        + dec(f.halfmove_clock as nat) + seq![' '] + dec(f.fullmove_number as nat)
}

/// The fields after the placement, running to the end, each read back.
proof fn lemma_read_fields(s: Seq<char>, p1: int, f: FenV)
    requires
        0 <= p1,
        has_word(s, p1, fields_text(f)),
        p1 + fields_text(f).len() == s.len(),
    ensures
        ({
            let p4 = p1 + 3;
            let p5 = p4 + castling_text(f.castling).len();
            let p6 = p5 + 1;
            let p7 = p6 + en_passant_text(f.en_passant).len();
            let p8 = p7 + 1;
            let p9 = p8 + dec(f.halfmove_clock as nat).len();
            let p10 = p9 + 1;
            &&& p1 < s.len()
            &&& s[p1] == ' '
            &&& read_blanks(s, p1) == Some(p1 + 1)
            &&& read_side(s, p1 + 1) == Some((p1 + 2, f.side_to_move))
            &&& read_blanks(s, p1 + 2) == Some(p4)
            &&& read_castling(s, p4) == Some((p5, f.castling))
            &&& read_blanks(s, p5) == Some(p6)
            &&& read_en_passant(s, p6) == Some((p7, f.en_passant))
            &&& read_blanks(s, p7) == Some(p8)
            &&& read_uint(s, p8, u32::MAX as int) == Some((p9, f.halfmove_clock as int))
            &&& read_blanks(s, p9) == Some(p10)
            &&& read_uint(s, p10, u32::MAX as int) == Some(
                (s.len() as int, f.fullmove_number as int),
            )
        }),
{
    let side: char = if f.side_to_move == Color::White {
        'w'
    } else {
        'b'
    };
    let cast = castling_text(f.castling);
    let ep = en_passant_text(f.en_passant);
    let half = dec(f.halfmove_clock as nat);
    let full = dec(f.fullmove_number as nat);
    let a1 = seq![' ', side, ' '];
    let a2 = a1 + cast;
    let a3 = a2 + seq![' '];
    let a4 = a3 + ep;
    let a5 = a4 + seq![' '];
    let a6 = a5 + half;
    let a7 = a6 + seq![' '];
    assert(fields_text(f) == a7 + full);
    lemma_has_word_split(s, p1, a7, full);
    lemma_has_word_split(s, p1, a6, seq![' ']);
    lemma_has_word_split(s, p1, a5, half);
    lemma_has_word_split(s, p1, a4, seq![' ']);
    lemma_has_word_split(s, p1, a3, ep);
    lemma_has_word_split(s, p1, a2, seq![' ']);
    lemma_has_word_split(s, p1, a1, cast);
    lemma_has_word_index(s, p1, a1, 0);
    lemma_has_word_index(s, p1, a1, 1);
    lemma_has_word_index(s, p1, a1, 2);
    lemma_one_blank(s, p1);
    let p4 = p1 + 3;
    lemma_has_word_index(s, p4, cast, 0);
    lemma_one_blank(s, p1 + 2);
    let p5 = p1 + a2.len();
    lemma_has_word_index(s, p5, seq![' '], 0);
    lemma_read_castling_text(s, p4, f.castling);
    let p6 = p1 + a3.len();
    lemma_has_word_index(s, p6, ep, 0);
    lemma_one_blank(s, p5);
    lemma_read_en_passant_text(s, p6, f.en_passant);
    let p7 = p1 + a4.len();
    lemma_has_word_index(s, p7, seq![' '], 0);
    let p8 = p1 + a5.len();
    lemma_dec_digits(f.halfmove_clock as nat);
    lemma_has_word_index(s, p8, half, 0);
    lemma_one_blank(s, p7);
    let p9 = p1 + a6.len();
    lemma_has_word_index(s, p9, seq![' '], 0);
    lemma_read_uint_dec(s, p8, f.halfmove_clock as nat, u32::MAX as int);
    let p10 = p1 + a7.len();
    lemma_dec_digits(f.fullmove_number as nat);
    lemma_has_word_index(s, p10, full, 0);
    lemma_one_blank(s, p9);
    lemma_read_uint_dec(s, p10, f.fullmove_number as nat, u32::MAX as int);
}

/// A FEN record reads back from its text as the same record.
pub proof fn fen_text_reads_back(f: FenV)
    requires
        f.squares.len() == 64,
    ensures
        read_fen(fen_text(f)) == Some(f),
{
    let s = fen_text(f);
    let board = board_text_top(f.squares, 0);
    assert(s =~= board + fields_text(f));
    assert(has_word(s, 0, s)) by {
        assert(s.subrange(0, s.len() as int) =~= s);
    }
    lemma_has_word_split(s, 0, board, fields_text(f));
    lemma_read_fields(s, board.len() as int, f);
    lemma_read_board_text(s, f.squares);
}

/// The ranks below hold rank characters and slashes only.
proof fn lemma_rows_down_chars(s: Seq<char>, pos: int, sq: Seq<Option<Piece>>, k: int)
    requires
        sq.len() == 64,
        -1 <= k <= 6,
        0 <= pos,
        has_word(s, pos, rows_down(sq, k, 0)),
    ensures
        forall|j: int|
            pos <= j < pos + rows_down(sq, k, 0).len() ==> is_rank_char(#[trigger] s[j]) || s[j]
                == '/',
    decreases k + 1,
{
    if k >= 0 {
        let row = rank_row(sq, k);
        let t = row_text(row, 0, 0);
        let rest = rows_down(sq, k - 1, 0);
        lemma_has_word_split(s, pos, seq!['/'] + t, rest);
        lemma_has_word_split(s, pos, seq!['/'], t);
        lemma_has_word_index(s, pos, seq!['/'], 0);
        lemma_row_text(s, pos + 1, row, 0, 0);
        lemma_rows_down_chars(s, pos + 1 + t.len(), sq, k - 1);
    }
}

/// The placement text starts with a rank character and holds rank
/// characters and slashes only.
proof fn lemma_board_chars(s: Seq<char>, sq: Seq<Option<Piece>>)
    requires
        sq.len() == 64,
        has_word(s, 0, board_text_top(sq, 0)),
    ensures
        board_text_top(sq, 0).len() > 0,
        is_rank_char(s[0]),
        forall|j: int|
            0 <= j < board_text_top(sq, 0).len() ==> is_rank_char(#[trigger] s[j]) || s[j] == '/',
{
    lemma_board_text(sq, 0);
    let top = row_text(rank_row(sq, 7), 0, 0);
    let below = rows_down(sq, 6, 0);
    lemma_has_word_split(s, 0, top, below);
    lemma_row_text(s, 0, rank_row(sq, 7), 0, 0);
    lemma_rows_down_chars(s, top.len() as int, sq, 6);
    assert(empties(0) + rank_row(sq, 7).subrange(0, 8) =~= rank_row(sq, 7));
    if top.len() == 0 {
        assert(rank_cells(s, 0, 0).len() == 0);
    }
}

/// The castling field holds castling letters or a dash.
proof fn lemma_castling_chars(c: CastlingRights)
    ensures
        forall|k: int|
            0 <= k < castling_text(c).len() ==> is_castling_char(#[trigger] castling_text(c)[k])
                || castling_text(c)[k] == '-',
{
}

/// The shape of a FEN text: it is not empty, starts with a rank character,
/// ends with a digit, and holds no letter `m`.
#[verifier::rlimit(60)]
pub proof fn lemma_fen_text_shape(f: FenV)
    requires
        f.squares.len() == 64,
    ensures
        fen_text(f).len() > 0,
        is_rank_char(fen_text(f)[0]),
        is_digit(fen_text(f)[fen_text(f).len() - 1]),
        forall|j: int| 0 <= j < fen_text(f).len() ==> #[trigger] fen_text(f)[j] != 'm',
{
    let s = fen_text(f);
    let board = board_text_top(f.squares, 0);
    let side: char = if f.side_to_move == Color::White {
        'w'
    } else {
        'b'
    };
    let cast = castling_text(f.castling);
    let ep = en_passant_text(f.en_passant);
    let half = dec(f.halfmove_clock as nat);
    let full = dec(f.fullmove_number as nat);
    let a1 = board + seq![' ', side, ' '];
    let a2 = a1 + cast;
    let a3 = a2 + seq![' '];
    let a4 = a3 + ep;
    let a5 = a4 + seq![' '];
    let a6 = a5 + half;
    let a7 = a6 + seq![' '];
    assert(s == a7 + full);
    assert(has_word(s, 0, s)) by {
        assert(s.subrange(0, s.len() as int) =~= s);
    }
    lemma_has_word_split(s, 0, a7, full);
    lemma_has_word_split(s, 0, a6, seq![' ']);
    lemma_has_word_split(s, 0, a5, half);
    lemma_has_word_split(s, 0, a4, seq![' ']);
    lemma_has_word_split(s, 0, a3, ep);
    lemma_has_word_split(s, 0, a2, seq![' ']);
    lemma_has_word_split(s, 0, a1, cast);
    lemma_has_word_split(s, 0, board, seq![' ', side, ' ']);
    lemma_board_chars(s, f.squares);
    lemma_castling_chars(f.castling);
    lemma_dec_digits(f.halfmove_clock as nat);
    lemma_dec_digits(f.fullmove_number as nat);
    let p1 = board.len() as int;
    let p4 = a1.len() as int;
    let p5 = a2.len() as int;
    let p6 = a3.len() as int;
    let p7 = a4.len() as int;
    let p8 = a5.len() as int;
    let p9 = a6.len() as int;
    let p10 = a7.len() as int;
    lemma_has_word_index(s, p10, full, full.len() - 1);
    assert forall|j: int| 0 <= j < s.len() implies #[trigger] s[j] != 'm' by {
        if j < p1 {
        } else if j < p4 {
            lemma_has_word_index(s, p1, seq![' ', side, ' '], j - p1);
        } else if j < p5 {
            lemma_has_word_index(s, p4, cast, j - p4);
        } else if j < p6 {
            lemma_has_word_index(s, p5, seq![' '], j - p5);
        } else if j < p7 {
            lemma_has_word_index(s, p6, ep, j - p6);
            match f.en_passant {
                Some(sq) => {
                    assert(file_letter(file_num(sq.file)) != 'm');
                    lemma_digit_char(rank_num(sq.rank) + 1);
                },
                None => {},
            }
        } else if j < p8 {
            lemma_has_word_index(s, p7, seq![' '], j - p7);
        } else if j < p9 {
            lemma_has_word_index(s, p8, half, j - p8);
        } else if j < p10 {
            lemma_has_word_index(s, p9, seq![' '], j - p9);
        } else {
            lemma_has_word_index(s, p10, full, j - p10);
        }
    }
}

} // verus!
