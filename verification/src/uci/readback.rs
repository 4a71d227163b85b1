//! Requests read back from their text as the requests they were written from.
use vstd::prelude::*;

use super::de::{
    go_limit, go_scan_start, read_bare, read_debug, read_fen_spec, read_go, read_go_item,
    read_go_item_more, read_go_items, read_go_step, read_position,
    read_position_moves, read_register, read_request, read_setoption, GoScanV,
};
use super::grammar::{
    promotion_of, read_key, read_keyed_uint, read_more_moves, read_move, read_move_list,
    read_square,
};
use super::ser::{
    file_char_of, go_text, join_moves, limit_text, move_text, opt_field, promo_char, rank_char_of,
    request_text, spaced_moves,
};
use super::{
    GoParamsV, Move, PositionSpecV, RegisterCommandV, SearchLimit, Square, TimeControl,
    UciRequestV,
};
use crate::fen::readback::fen_text_reads_back;
use crate::fen::fen_text;
use crate::text::{
    dec, has_word, is_blank, lacks, lemma_blank_before, lemma_dec_digits,
    lemma_find_after, lemma_find_none_in, lemma_has_word_index, lemma_has_word_join,
    lemma_has_word_split, lemma_no_blank, lemma_one_blank, lemma_read_uint_dec,
    lemma_trim_keeps, lemma_whole, lemma_words_clash, no_lead_blank, no_trail_white, read_blanks,
    read_word, until_or_end,
};
use crate::{file_of_num, rank_of_num};

verus! {

// ---------------------------------------------------------------------------
// Moves

/// A written square reads back as itself.
pub proof fn lemma_read_square_text(s: Seq<char>, p: int, sq: Square)
    requires
        0 <= p,
        has_word(s, p, seq![file_char_of(sq.file), rank_char_of(sq.rank)]),
    ensures
        read_square(s, p) == Some((p + 2, sq)),
{
    lemma_has_word_index(s, p, seq![file_char_of(sq.file), rank_char_of(sq.rank)], 0);
    lemma_has_word_index(s, p, seq![file_char_of(sq.file), rank_char_of(sq.rank)], 1);
    assert(file_of_num(file_char_of(sq.file) as int - 'a' as int) == sq.file);
    assert(rank_of_num(rank_char_of(sq.rank) as int - '1' as int) == sq.rank);
}

/// A written move reads back as itself, when what follows a move without
/// promotion is not a promotion letter.
pub proof fn lemma_read_move_text(s: Seq<char>, p: int, m: Move)
    requires
        0 <= p,
        has_word(s, p, move_text(m)),
        m.promotion is None ==> p + 4 == s.len() || promotion_of(s[p + 4]) is None,
    ensures
        read_move(s, p) == Some((p + move_text(m).len(), m)),
{
    let a = seq![file_char_of(m.from.file), rank_char_of(m.from.rank)];
    let b = seq![file_char_of(m.to.file), rank_char_of(m.to.rank)];
    let c: Seq<char> = match m.promotion {
        Some(q) => seq![promo_char(q)],
        None => seq![],
    };
    assert(move_text(m) =~= a + b + c);
    lemma_has_word_split(s, p, a + b, c);
    lemma_has_word_split(s, p, a, b);
    lemma_read_square_text(s, p, m.from);
    lemma_read_square_text(s, p + 2, m.to);
    match m.promotion {
        Some(q) => {
            lemma_has_word_index(s, p + 4, c, 0);
        },
        None => {},
    }
}

/// Written moves, each after a space, read back as themselves, when what
/// follows them is neither a promotion letter nor more moves.
pub proof fn lemma_read_spaced_moves(s: Seq<char>, p: int, ms: Seq<Move>)
    requires
        0 <= p,
        has_word(s, p, spaced_moves(ms)),
        p + spaced_moves(ms).len() == s.len() || promotion_of(s[p + spaced_moves(ms).len()]) is None,
        read_more_moves(s, p + spaced_moves(ms).len()) == (p + spaced_moves(ms).len(), Seq::<
            Move,
        >::empty()),
    ensures
        read_more_moves(s, p) == (p + spaced_moves(ms).len(), ms),
    decreases ms.len(),
{
    if ms.len() > 0 {
        let m = ms[0];
        let rest = spaced_moves(ms.drop_first());
        assert(spaced_moves(ms) == seq![' '] + move_text(m) + rest);
        lemma_has_word_split(s, p, seq![' '] + move_text(m), rest);
        lemma_has_word_split(s, p, seq![' '], move_text(m));
        lemma_has_word_index(s, p + 1, move_text(m), 0);
        lemma_has_word_index(s, p, seq![' '], 0);
        lemma_one_blank(s, p);
        let q = p + 1 + move_text(m).len();
        if rest.len() > 0 {
            assert(rest == seq![' '] + move_text(ms.drop_first()[0]) + spaced_moves(
                ms.drop_first().drop_first(),
            ));
            lemma_has_word_index(s, q, rest, 0);
        }
        lemma_read_move_text(s, p + 1, m);
        lemma_read_spaced_moves(s, q, ms.drop_first());
        assert(seq![m] + ms.drop_first() =~= ms);
    } else {
        assert(ms =~= Seq::<Move>::empty());
    }
}

/// A written non-empty list of moves reads back as itself, under the same
/// conditions on what follows.
pub proof fn lemma_read_move_list_text(s: Seq<char>, p: int, ms: Seq<Move>)
    requires
        0 <= p,
        ms.len() > 0,
        has_word(s, p, join_moves(ms)),
        p + join_moves(ms).len() == s.len() || promotion_of(s[p + join_moves(ms).len()]) is None,
        read_more_moves(s, p + join_moves(ms).len()) == (p + join_moves(ms).len(), Seq::<
            Move,
        >::empty()),
    ensures
        read_move_list(s, p) == Some((p + join_moves(ms).len(), ms)),
{
    let m = ms[0];
    let rest = spaced_moves(ms.drop_first());
    lemma_has_word_split(s, p, move_text(m), rest);
    let q = p + move_text(m).len();
    if rest.len() > 0 {
        assert(rest == seq![' '] + move_text(ms.drop_first()[0]) + spaced_moves(
            ms.drop_first().drop_first(),
        ));
        lemma_has_word_index(s, q, rest, 0);
    }
    lemma_read_move_text(s, p, m);
    lemma_read_spaced_moves(s, q, ms.drop_first());
    assert(seq![m] + ms.drop_first() =~= ms);
}

/// At the end of the text no more moves are read.
pub proof fn lemma_moves_stop_at_end(s: Seq<char>)
    ensures
        read_more_moves(s, s.len() as int) == (s.len() as int, Seq::<Move>::empty()),
{
    lemma_no_blank(s, s.len() as int);
}


// ---------------------------------------------------------------------------
// Keys and keyed values

/// ` w` at `pos`: one blank, then the word `w`.
pub proof fn lemma_word_text(s: Seq<char>, pos: int, w: Seq<char>)
    requires
        0 <= pos,
        w.len() > 0,
        !is_blank(w[0]),
        has_word(s, pos, seq![' '] + w),
    ensures
        read_blanks(s, pos) == Some(pos + 1),
        has_word(s, pos + 1, w),
        read_word(s, pos + 1, w) == Some(pos + 1 + w.len()),
{
    lemma_blank_before(s, pos, w);
    lemma_has_word_split(s, pos, seq![' '], w);
}

/// ` key N` at `pos`: one blank, the key, one blank, a number.
pub proof fn lemma_keyed_text(s: Seq<char>, pos: int, key: Seq<char>, v: u64)
    requires
        0 <= pos,
        key.len() > 0,
        !is_blank(key[0]),
        has_word(s, pos, seq![' '] + key + seq![' '] + dec(v as nat)),
        pos + (seq![' '] + key + seq![' '] + dec(v as nat)).len() == s.len() || s[pos + (seq![' ']
            + key + seq![' '] + dec(v as nat)).len()] == ' ',
    ensures
        read_blanks(s, pos) == Some(pos + 1),
        has_word(s, pos + 1, key),
        read_keyed_uint(s, pos + 1, key) == Some(
            (pos + (seq![' '] + key + seq![' '] + dec(v as nat)).len(), v),
        ),
{
    let d = dec(v as nat);
    lemma_dec_digits(v as nat);
    lemma_has_word_split(s, pos, seq![' '] + key + seq![' '], d);
    lemma_has_word_split(s, pos, seq![' '] + key, seq![' ']);
    lemma_word_text(s, pos, key);
    let q = pos + 1 + key.len();
    assert(seq![' '] + d == seq![' '] + d);
    lemma_has_word_join(s, q, seq![' '], d);
    lemma_has_word_index(s, q + 1, d, 0);
    lemma_blank_before(s, q, d);
    let e = q + 1 + d.len();
    lemma_read_uint_dec(s, q + 1, v as nat, u64::MAX as int);
}

/// ` key M ...` at `pos`, running to the end: one blank, the key, one blank,
/// a non-empty list of moves.
pub proof fn lemma_keyed_list_text(s: Seq<char>, pos: int, key: Seq<char>, ms: Seq<Move>)
    requires
        0 <= pos,
        key.len() > 0,
        !is_blank(key[0]),
        ms.len() > 0,
        has_word(s, pos, seq![' '] + key + seq![' '] + join_moves(ms)),
        pos + (seq![' '] + key + seq![' '] + join_moves(ms)).len() == s.len(),
    ensures
        read_blanks(s, pos) == Some(pos + 1),
        has_word(s, pos + 1, key),
        read_key(s, pos + 1, key) == Some(pos + key.len() + 2),
        read_move_list(s, pos + key.len() + 2) == Some((s.len() as int, ms)),
{
    let j = join_moves(ms);
    lemma_has_word_split(s, pos, seq![' '] + key + seq![' '], j);
    lemma_has_word_split(s, pos, seq![' '] + key, seq![' ']);
    lemma_word_text(s, pos, key);
    let q = pos + 1 + key.len();
    lemma_has_word_join(s, q, seq![' '], j);
    assert(j == move_text(ms[0]) + spaced_moves(ms.drop_first()));
    lemma_has_word_index(s, q + 1, j, 0);
    lemma_blank_before(s, q, j);
    lemma_moves_stop_at_end(s);
    lemma_read_move_list_text(s, q + 1, ms);
}

// ---------------------------------------------------------------------------
// Steps of `go`

/// ` infinite` reads as the step that sets it.
proof fn lemma_go_infinite(s: Seq<char>, pos: int, g: GoScanV)
    requires
        0 <= pos,
        has_word(s, pos, " infinite"@),
    ensures
        read_go_step(s, pos, g) == Some((pos + " infinite"@.len(), GoScanV { infinite: true, ..g })),
{
    reveal(read_go_item);
    reveal(read_go_item_more);
    reveal_strlit(" infinite");
    reveal_strlit("infinite");
    assert(" infinite"@ =~= seq![' '] + "infinite"@);
    lemma_word_text(s, pos, "infinite"@);
}

/// ` ponder` reads as the step that sets it.
proof fn lemma_go_ponder(s: Seq<char>, pos: int, g: GoScanV)
    requires
        0 <= pos,
        has_word(s, pos, " ponder"@),
    ensures
        read_go_step(s, pos, g) == Some((pos + " ponder"@.len(), GoScanV { ponder: true, ..g })),
{
    reveal(read_go_item);
    reveal(read_go_item_more);
    reveal_strlit(" ponder");
    reveal_strlit("infinite");
    reveal_strlit("ponder");
    assert(" ponder"@ =~= seq![' '] + "ponder"@);
    lemma_word_text(s, pos, "ponder"@);
    lemma_words_clash(s, pos + 1, "ponder"@, "infinite"@, 0);
}

/// ` wtime N` reads as the step that sets it.
proof fn lemma_go_wtime(s: Seq<char>, pos: int, g: GoScanV, v: u64)
    requires
        0 <= pos,
        has_word(s, pos, " wtime "@ + dec(v as nat)),
        pos + (" wtime "@ + dec(v as nat)).len() == s.len() || s[pos + (" wtime "@ + dec(v as nat)).len()] == ' ',
    ensures
        read_go_step(s, pos, g) == Some((pos + (" wtime "@ + dec(v as nat)).len(), GoScanV { wtime: Some(v), ..g })),
{
    reveal(read_go_item);
    reveal(read_go_item_more);
    reveal_strlit(" wtime ");
    reveal_strlit("infinite");
    reveal_strlit("ponder");
    reveal_strlit("wtime");
    assert(" wtime "@ + dec(v as nat) =~= seq![' '] + "wtime"@ + seq![' '] + dec(v as nat));
    lemma_keyed_text(s, pos, "wtime"@, v);
    lemma_words_clash(s, pos + 1, "wtime"@, "infinite"@, 0);
    lemma_words_clash(s, pos + 1, "wtime"@, "ponder"@, 0);
}

/// ` btime N` reads as the step that sets it.
proof fn lemma_go_btime(s: Seq<char>, pos: int, g: GoScanV, v: u64)
    requires
        0 <= pos,
        has_word(s, pos, " btime "@ + dec(v as nat)),
        pos + (" btime "@ + dec(v as nat)).len() == s.len() || s[pos + (" btime "@ + dec(v as nat)).len()] == ' ',
    ensures
        read_go_step(s, pos, g) == Some((pos + (" btime "@ + dec(v as nat)).len(), GoScanV { btime: Some(v), ..g })),
{
    reveal(read_go_item);
    reveal(read_go_item_more);
    reveal_strlit(" btime ");
    reveal_strlit("btime");
    reveal_strlit("infinite");
    reveal_strlit("ponder");
    reveal_strlit("wtime");
    assert(" btime "@ + dec(v as nat) =~= seq![' '] + "btime"@ + seq![' '] + dec(v as nat));
    lemma_keyed_text(s, pos, "btime"@, v);
    lemma_words_clash(s, pos + 1, "btime"@, "infinite"@, 0);
    lemma_words_clash(s, pos + 1, "btime"@, "ponder"@, 0);
    lemma_words_clash(s, pos + 1, "btime"@, "wtime"@, 0);
}

/// ` winc N` reads as the step that sets it.
proof fn lemma_go_winc(s: Seq<char>, pos: int, g: GoScanV, v: u64)
    requires
        0 <= pos,
        has_word(s, pos, " winc "@ + dec(v as nat)),
        pos + (" winc "@ + dec(v as nat)).len() == s.len() || s[pos + (" winc "@ + dec(v as nat)).len()] == ' ',
    ensures
        read_go_step(s, pos, g) == Some((pos + (" winc "@ + dec(v as nat)).len(), GoScanV { winc: Some(v), ..g })),
{
    reveal(read_go_item);
    reveal(read_go_item_more);
    reveal_strlit(" winc ");
    reveal_strlit("btime");
    reveal_strlit("infinite");
    reveal_strlit("ponder");
    reveal_strlit("winc");
    reveal_strlit("wtime");
    assert(" winc "@ + dec(v as nat) =~= seq![' '] + "winc"@ + seq![' '] + dec(v as nat));
    lemma_keyed_text(s, pos, "winc"@, v);
    lemma_words_clash(s, pos + 1, "winc"@, "infinite"@, 0);
    lemma_words_clash(s, pos + 1, "winc"@, "ponder"@, 0);
    lemma_words_clash(s, pos + 1, "winc"@, "wtime"@, 1);
    lemma_words_clash(s, pos + 1, "winc"@, "btime"@, 0);
}

/// ` binc N` reads as the step that sets it.
proof fn lemma_go_binc(s: Seq<char>, pos: int, g: GoScanV, v: u64)
    requires
        0 <= pos,
        has_word(s, pos, " binc "@ + dec(v as nat)),
        pos + (" binc "@ + dec(v as nat)).len() == s.len() || s[pos + (" binc "@ + dec(v as nat)).len()] == ' ',
    ensures
        read_go_step(s, pos, g) == Some((pos + (" binc "@ + dec(v as nat)).len(), GoScanV { binc: Some(v), ..g })),
{
    reveal(read_go_item);
    reveal(read_go_item_more);
    reveal_strlit(" binc ");
    reveal_strlit("binc");
    reveal_strlit("btime");
    reveal_strlit("infinite");
    reveal_strlit("ponder");
    reveal_strlit("winc");
    reveal_strlit("wtime");
    assert(" binc "@ + dec(v as nat) =~= seq![' '] + "binc"@ + seq![' '] + dec(v as nat));
    lemma_keyed_text(s, pos, "binc"@, v);
    lemma_words_clash(s, pos + 1, "binc"@, "infinite"@, 0);
    lemma_words_clash(s, pos + 1, "binc"@, "ponder"@, 0);
    lemma_words_clash(s, pos + 1, "binc"@, "wtime"@, 0);
    lemma_words_clash(s, pos + 1, "binc"@, "btime"@, 1);
    lemma_words_clash(s, pos + 1, "binc"@, "winc"@, 0);
}

/// ` movestogo N` reads as the step that sets it.
proof fn lemma_go_movestogo(s: Seq<char>, pos: int, g: GoScanV, v: u64)
    requires
        0 <= pos,
        has_word(s, pos, " movestogo "@ + dec(v as nat)),
        pos + (" movestogo "@ + dec(v as nat)).len() == s.len() || s[pos + (" movestogo "@ + dec(v as nat)).len()] == ' ',
    ensures
        read_go_step(s, pos, g) == Some((pos + (" movestogo "@ + dec(v as nat)).len(), GoScanV { movestogo: Some(v), ..g })),
{
    reveal(read_go_item);
    reveal(read_go_item_more);
    reveal_strlit(" movestogo ");
    reveal_strlit("binc");
    reveal_strlit("btime");
    reveal_strlit("infinite");
    reveal_strlit("movestogo");
    reveal_strlit("ponder");
    reveal_strlit("winc");
    reveal_strlit("wtime");
    assert(" movestogo "@ + dec(v as nat) =~= seq![' '] + "movestogo"@ + seq![' '] + dec(v as nat));
    lemma_keyed_text(s, pos, "movestogo"@, v);
    lemma_words_clash(s, pos + 1, "movestogo"@, "infinite"@, 0);
    lemma_words_clash(s, pos + 1, "movestogo"@, "ponder"@, 0);
    lemma_words_clash(s, pos + 1, "movestogo"@, "wtime"@, 0);
    lemma_words_clash(s, pos + 1, "movestogo"@, "btime"@, 0);
    lemma_words_clash(s, pos + 1, "movestogo"@, "winc"@, 0);
    lemma_words_clash(s, pos + 1, "movestogo"@, "binc"@, 0);
}

/// ` depth N` reads as the step that sets it.
proof fn lemma_go_depth(s: Seq<char>, pos: int, g: GoScanV, v: u64)
    requires
        0 <= pos,
        has_word(s, pos, " depth "@ + dec(v as nat)),
        pos + (" depth "@ + dec(v as nat)).len() == s.len() || s[pos + (" depth "@ + dec(v as nat)).len()] == ' ',
    ensures
        read_go_step(s, pos, g) == Some((pos + (" depth "@ + dec(v as nat)).len(), GoScanV { depth: Some(v), ..g })),
{
    reveal(read_go_item);
    reveal(read_go_item_more);
    reveal_strlit(" depth ");
    reveal_strlit("binc");
    reveal_strlit("btime");
    reveal_strlit("depth");
    reveal_strlit("infinite");
    reveal_strlit("movestogo");
    reveal_strlit("ponder");
    reveal_strlit("winc");
    reveal_strlit("wtime");
    assert(" depth "@ + dec(v as nat) =~= seq![' '] + "depth"@ + seq![' '] + dec(v as nat));
    lemma_keyed_text(s, pos, "depth"@, v);
    lemma_words_clash(s, pos + 1, "depth"@, "infinite"@, 0);
    lemma_words_clash(s, pos + 1, "depth"@, "ponder"@, 0);
    lemma_words_clash(s, pos + 1, "depth"@, "wtime"@, 0);
    lemma_words_clash(s, pos + 1, "depth"@, "btime"@, 0);
    lemma_words_clash(s, pos + 1, "depth"@, "winc"@, 0);
    lemma_words_clash(s, pos + 1, "depth"@, "binc"@, 0);
    lemma_words_clash(s, pos + 1, "depth"@, "movestogo"@, 0);
}

/// ` nodes N` reads as the step that sets it.
proof fn lemma_go_nodes(s: Seq<char>, pos: int, g: GoScanV, v: u64)
    requires
        0 <= pos,
        has_word(s, pos, " nodes "@ + dec(v as nat)),
        pos + (" nodes "@ + dec(v as nat)).len() == s.len() || s[pos + (" nodes "@ + dec(v as nat)).len()] == ' ',
    ensures
        read_go_step(s, pos, g) == Some((pos + (" nodes "@ + dec(v as nat)).len(), GoScanV { nodes: Some(v), ..g })),
{
    reveal(read_go_item);
    reveal(read_go_item_more);
    reveal_strlit(" nodes ");
    reveal_strlit("binc");
    reveal_strlit("btime");
    reveal_strlit("depth");
    reveal_strlit("infinite");
    reveal_strlit("movestogo");
    reveal_strlit("nodes");
    reveal_strlit("ponder");
    reveal_strlit("winc");
    reveal_strlit("wtime");
    assert(" nodes "@ + dec(v as nat) =~= seq![' '] + "nodes"@ + seq![' '] + dec(v as nat));
    lemma_keyed_text(s, pos, "nodes"@, v);
    lemma_words_clash(s, pos + 1, "nodes"@, "infinite"@, 0);
    lemma_words_clash(s, pos + 1, "nodes"@, "ponder"@, 0);
    lemma_words_clash(s, pos + 1, "nodes"@, "wtime"@, 0);
    lemma_words_clash(s, pos + 1, "nodes"@, "btime"@, 0);
    lemma_words_clash(s, pos + 1, "nodes"@, "winc"@, 0);
    lemma_words_clash(s, pos + 1, "nodes"@, "binc"@, 0);
    lemma_words_clash(s, pos + 1, "nodes"@, "movestogo"@, 0);
    lemma_words_clash(s, pos + 1, "nodes"@, "depth"@, 0);
}

/// ` mate N` reads as the step that sets it.
proof fn lemma_go_mate(s: Seq<char>, pos: int, g: GoScanV, v: u64)
    requires
        0 <= pos,
        has_word(s, pos, " mate "@ + dec(v as nat)),
        pos + (" mate "@ + dec(v as nat)).len() == s.len() || s[pos + (" mate "@ + dec(v as nat)).len()] == ' ',
    ensures
        read_go_step(s, pos, g) == Some((pos + (" mate "@ + dec(v as nat)).len(), GoScanV { mate: Some(v), ..g })),
{
    reveal(read_go_item);
    reveal(read_go_item_more);
    reveal_strlit(" mate ");
    reveal_strlit("binc");
    reveal_strlit("btime");
    reveal_strlit("depth");
    reveal_strlit("infinite");
    reveal_strlit("mate");
    reveal_strlit("movestogo");
    reveal_strlit("nodes");
    reveal_strlit("ponder");
    reveal_strlit("winc");
    reveal_strlit("wtime");
    assert(" mate "@ + dec(v as nat) =~= seq![' '] + "mate"@ + seq![' '] + dec(v as nat));
    lemma_keyed_text(s, pos, "mate"@, v);
    lemma_words_clash(s, pos + 1, "mate"@, "infinite"@, 0);
    lemma_words_clash(s, pos + 1, "mate"@, "ponder"@, 0);
    lemma_words_clash(s, pos + 1, "mate"@, "wtime"@, 0);
    lemma_words_clash(s, pos + 1, "mate"@, "btime"@, 0);
    lemma_words_clash(s, pos + 1, "mate"@, "winc"@, 0);
    lemma_words_clash(s, pos + 1, "mate"@, "binc"@, 0);
    lemma_words_clash(s, pos + 1, "mate"@, "movestogo"@, 1);
    lemma_words_clash(s, pos + 1, "mate"@, "depth"@, 0);
    lemma_words_clash(s, pos + 1, "mate"@, "nodes"@, 0);
}

/// ` movetime N` reads as the step that sets it.
proof fn lemma_go_movetime(s: Seq<char>, pos: int, g: GoScanV, v: u64)
    requires
        0 <= pos,
        has_word(s, pos, " movetime "@ + dec(v as nat)),
        pos + (" movetime "@ + dec(v as nat)).len() == s.len() || s[pos + (" movetime "@ + dec(v as nat)).len()] == ' ',
    ensures
        read_go_step(s, pos, g) == Some((pos + (" movetime "@ + dec(v as nat)).len(), GoScanV { movetime: Some(v), ..g })),
{
    reveal(read_go_item);
    reveal(read_go_item_more);
    reveal_strlit(" movetime ");
    reveal_strlit("binc");
    reveal_strlit("btime");
    reveal_strlit("depth");
    reveal_strlit("infinite");
    reveal_strlit("mate");
    reveal_strlit("movestogo");
    reveal_strlit("movetime");
    reveal_strlit("nodes");
    reveal_strlit("ponder");
    reveal_strlit("winc");
    reveal_strlit("wtime");
    assert(" movetime "@ + dec(v as nat) =~= seq![' '] + "movetime"@ + seq![' '] + dec(v as nat));
    lemma_keyed_text(s, pos, "movetime"@, v);
    lemma_words_clash(s, pos + 1, "movetime"@, "infinite"@, 0);
    lemma_words_clash(s, pos + 1, "movetime"@, "ponder"@, 0);
    lemma_words_clash(s, pos + 1, "movetime"@, "wtime"@, 0);
    lemma_words_clash(s, pos + 1, "movetime"@, "btime"@, 0);
    lemma_words_clash(s, pos + 1, "movetime"@, "winc"@, 0);
    lemma_words_clash(s, pos + 1, "movetime"@, "binc"@, 0);
    lemma_words_clash(s, pos + 1, "movetime"@, "movestogo"@, 4);
    lemma_words_clash(s, pos + 1, "movetime"@, "depth"@, 0);
    lemma_words_clash(s, pos + 1, "movetime"@, "nodes"@, 0);
    lemma_words_clash(s, pos + 1, "movetime"@, "mate"@, 1);
}

/// ` searchmoves M ...` reads as the step that sets the moves.
proof fn lemma_go_searchmoves(s: Seq<char>, pos: int, g: GoScanV, ms: Seq<Move>)
    requires
        0 <= pos,
        ms.len() > 0,
        has_word(s, pos, " searchmoves "@ + join_moves(ms)),
        pos + (" searchmoves "@ + join_moves(ms)).len() == s.len(),
    ensures
        read_go_step(s, pos, g) == Some((s.len() as int, GoScanV { searchmoves: ms, ..g })),
{
    reveal(read_go_item);
    reveal(read_go_item_more);
    reveal_strlit(" searchmoves ");
    reveal_strlit("binc");
    reveal_strlit("btime");
    reveal_strlit("depth");
    reveal_strlit("infinite");
    reveal_strlit("mate");
    reveal_strlit("movestogo");
    reveal_strlit("movetime");
    reveal_strlit("nodes");
    reveal_strlit("ponder");
    reveal_strlit("searchmoves");
    reveal_strlit("winc");
    reveal_strlit("wtime");
    assert(" searchmoves "@ + join_moves(ms) =~= seq![' '] + "searchmoves"@ + seq![' '] + join_moves(ms));
    lemma_keyed_list_text(s, pos, "searchmoves"@, ms);
    lemma_words_clash(s, pos + 1, "searchmoves"@, "infinite"@, 0);
    lemma_words_clash(s, pos + 1, "searchmoves"@, "ponder"@, 0);
    lemma_words_clash(s, pos + 1, "searchmoves"@, "wtime"@, 0);
    lemma_words_clash(s, pos + 1, "searchmoves"@, "btime"@, 0);
    lemma_words_clash(s, pos + 1, "searchmoves"@, "winc"@, 0);
    lemma_words_clash(s, pos + 1, "searchmoves"@, "binc"@, 0);
    lemma_words_clash(s, pos + 1, "searchmoves"@, "movestogo"@, 0);
    lemma_words_clash(s, pos + 1, "searchmoves"@, "depth"@, 0);
    lemma_words_clash(s, pos + 1, "searchmoves"@, "nodes"@, 0);
    lemma_words_clash(s, pos + 1, "searchmoves"@, "mate"@, 0);
    lemma_words_clash(s, pos + 1, "searchmoves"@, "movetime"@, 0);
}

// ---------------------------------------------------------------------------
// `go`

/// `t` is empty or starts with a space.
pub open spec fn spaced(t: Seq<char>) -> bool {
    t.len() == 0 || t[0] == ' '
}

/// What follows a piece whose rest is spaced is a space or the end.
proof fn lemma_follow(s: Seq<char>, pos: int, piece: Seq<char>, rest: Seq<char>)
    requires
        0 <= pos,
        has_word(s, pos, piece + rest),
        pos + piece.len() + rest.len() == s.len(),
        spaced(rest),
    ensures
        pos + piece.len() == s.len() || s[pos + piece.len()] == ' ',
        has_word(s, pos, piece),
        has_word(s, pos + piece.len(), rest),
{
    lemma_has_word_split(s, pos, piece, rest);
    if rest.len() > 0 {
        lemma_has_word_index(s, pos + piece.len(), rest, 0);
    }
}

/// A piece read as one step of `go`, or an empty piece read as none.
proof fn lemma_go_advance(s: Seq<char>, pos: int, g: GoScanV, piece: Seq<char>, rest: Seq<char>, g2: GoScanV)
    requires
        0 <= pos,
        has_word(s, pos, piece + rest),
        pos + piece.len() + rest.len() == s.len(),
        piece.len() > 0 ==> read_go_step(s, pos, g) == Some((pos + piece.len(), g2)),
        piece.len() == 0 ==> g2 == g,
    ensures
        read_go_items(s, pos, g) == read_go_items(s, pos + piece.len(), g2),
        has_word(s, pos + piece.len(), rest),
{
    lemma_has_word_split(s, pos, piece, rest);
}

/// ` wtime N` when present, read as a step of `go`.
proof fn lemma_go_opt_wtime(s: Seq<char>, q: int, g: GoScanV, v: Option<u64>, rest: Seq<char>)
    requires
        0 <= q,
        has_word(s, q, opt_field(" wtime "@, v) + rest),
        q + opt_field(" wtime "@, v).len() + rest.len() == s.len(),
        spaced(rest),
    ensures
        read_go_items(s, q, g) == read_go_items(
            s,
            q + opt_field(" wtime "@, v).len(),
            match v {
                Some(x) => GoScanV { wtime: Some(x), ..g },
                None => g,
            },
        ),
        has_word(s, q + opt_field(" wtime "@, v).len(), rest),
{
    reveal_strlit(" wtime ");
    let f = opt_field(" wtime "@, v);
    lemma_follow(s, q, f, rest);
    let g2 = match v {
        Some(x) => GoScanV { wtime: Some(x), ..g },
        None => g,
    };
    if let Some(x) = v {
        lemma_go_wtime(s, q, g, x);
    }
    lemma_go_advance(s, q, g, f, rest, g2);
}

/// ` btime N` when present, read as a step of `go`.
proof fn lemma_go_opt_btime(s: Seq<char>, q: int, g: GoScanV, v: Option<u64>, rest: Seq<char>)
    requires
        0 <= q,
        has_word(s, q, opt_field(" btime "@, v) + rest),
        q + opt_field(" btime "@, v).len() + rest.len() == s.len(),
        spaced(rest),
    ensures
        read_go_items(s, q, g) == read_go_items(
            s,
            q + opt_field(" btime "@, v).len(),
            match v {
                Some(x) => GoScanV { btime: Some(x), ..g },
                None => g,
            },
        ),
        has_word(s, q + opt_field(" btime "@, v).len(), rest),
{
    reveal_strlit(" btime ");
    let f = opt_field(" btime "@, v);
    lemma_follow(s, q, f, rest);
    let g2 = match v {
        Some(x) => GoScanV { btime: Some(x), ..g },
        None => g,
    };
    if let Some(x) = v {
        lemma_go_btime(s, q, g, x);
    }
    lemma_go_advance(s, q, g, f, rest, g2);
}

/// ` winc N` when present, read as a step of `go`.
proof fn lemma_go_opt_winc(s: Seq<char>, q: int, g: GoScanV, v: Option<u64>, rest: Seq<char>)
    requires
        0 <= q,
        has_word(s, q, opt_field(" winc "@, v) + rest),
        q + opt_field(" winc "@, v).len() + rest.len() == s.len(),
        spaced(rest),
    ensures
        read_go_items(s, q, g) == read_go_items(
            s,
            q + opt_field(" winc "@, v).len(),
            match v {
                Some(x) => GoScanV { winc: Some(x), ..g },
                None => g,
            },
        ),
        has_word(s, q + opt_field(" winc "@, v).len(), rest),
{
    reveal_strlit(" winc ");
    let f = opt_field(" winc "@, v);
    lemma_follow(s, q, f, rest);
    let g2 = match v {
        Some(x) => GoScanV { winc: Some(x), ..g },
        None => g,
    };
    if let Some(x) = v {
        lemma_go_winc(s, q, g, x);
    }
    lemma_go_advance(s, q, g, f, rest, g2);
}

/// ` binc N` when present, read as a step of `go`.
proof fn lemma_go_opt_binc(s: Seq<char>, q: int, g: GoScanV, v: Option<u64>, rest: Seq<char>)
    requires
        0 <= q,
        has_word(s, q, opt_field(" binc "@, v) + rest),
        q + opt_field(" binc "@, v).len() + rest.len() == s.len(),
        spaced(rest),
    ensures
        read_go_items(s, q, g) == read_go_items(
            s,
            q + opt_field(" binc "@, v).len(),
            match v {
                Some(x) => GoScanV { binc: Some(x), ..g },
                None => g,
            },
        ),
        has_word(s, q + opt_field(" binc "@, v).len(), rest),
{
    reveal_strlit(" binc ");
    let f = opt_field(" binc "@, v);
    lemma_follow(s, q, f, rest);
    let g2 = match v {
        Some(x) => GoScanV { binc: Some(x), ..g },
        None => g,
    };
    if let Some(x) = v {
        lemma_go_binc(s, q, g, x);
    }
    lemma_go_advance(s, q, g, f, rest, g2);
}

/// ` movestogo N` when present, read as a step of `go`.
proof fn lemma_go_opt_movestogo(s: Seq<char>, q: int, g: GoScanV, v: Option<u64>, rest: Seq<char>)
    requires
        0 <= q,
        has_word(s, q, opt_field(" movestogo "@, v) + rest),
        q + opt_field(" movestogo "@, v).len() + rest.len() == s.len(),
        spaced(rest),
    ensures
        read_go_items(s, q, g) == read_go_items(
            s,
            q + opt_field(" movestogo "@, v).len(),
            match v {
                Some(x) => GoScanV { movestogo: Some(x), ..g },
                None => g,
            },
        ),
        has_word(s, q + opt_field(" movestogo "@, v).len(), rest),
{
    reveal_strlit(" movestogo ");
    let f = opt_field(" movestogo "@, v);
    lemma_follow(s, q, f, rest);
    let g2 = match v {
        Some(x) => GoScanV { movestogo: Some(x), ..g },
        None => g,
    };
    if let Some(x) = v {
        lemma_go_movestogo(s, q, g, x);
    }
    lemma_go_advance(s, q, g, f, rest, g2);
}

/// The clock fields of `go` as a chain of pieces, each empty or spaced.
proof fn lemma_clock_text(tc: TimeControl, rest: Seq<char>)
    requires
        spaced(rest),
    ensures
        ({
            let f1 = opt_field(" wtime "@, tc.wtime);
            let f2 = opt_field(" btime "@, tc.btime);
            let f3 = opt_field(" winc "@, tc.winc);
            let f4 = opt_field(" binc "@, tc.binc);
            let f5 = opt_field(" movestogo "@, tc.movestogo);
            &&& limit_text(SearchLimit::TimeControl(tc)) + rest == f1 + (f2 + (f3 + (f4 + (f5
                + rest))))
            &&& spaced(f5 + rest)
            &&& spaced(f4 + (f5 + rest))
            &&& spaced(f3 + (f4 + (f5 + rest)))
            &&& spaced(f2 + (f3 + (f4 + (f5 + rest))))
        }),
{
    reveal_strlit(" wtime ");
    reveal_strlit(" btime ");
    reveal_strlit(" winc ");
    reveal_strlit(" binc ");
    reveal_strlit(" movestogo ");
    let f1 = opt_field(" wtime "@, tc.wtime);
    let f2 = opt_field(" btime "@, tc.btime);
    let f3 = opt_field(" winc "@, tc.winc);
    let f4 = opt_field(" binc "@, tc.binc);
    let f5 = opt_field(" movestogo "@, tc.movestogo);
    assert(limit_text(SearchLimit::TimeControl(tc)) + rest =~= f1 + (f2 + (f3 + (f4 + (f5
        + rest)))));
}

/// The clock fields of `go`, each read as a step when present.
proof fn lemma_go_clocks(s: Seq<char>, q: int, g: GoScanV, tc: TimeControl, rest: Seq<char>) -> (g2: GoScanV)
    requires
        0 <= q,
        has_word(s, q, limit_text(SearchLimit::TimeControl(tc)) + rest),
        q + limit_text(SearchLimit::TimeControl(tc)).len() + rest.len() == s.len(),
        spaced(rest),
    ensures
        read_go_items(s, q, g) == read_go_items(
            s,
            q + limit_text(SearchLimit::TimeControl(tc)).len(),
            g2,
        ),
        g2.wtime == (if tc.wtime is Some { tc.wtime } else { g.wtime }),
        g2.btime == (if tc.btime is Some { tc.btime } else { g.btime }),
        g2.winc == (if tc.winc is Some { tc.winc } else { g.winc }),
        g2.binc == (if tc.binc is Some { tc.binc } else { g.binc }),
        g2.movestogo == (if tc.movestogo is Some { tc.movestogo } else { g.movestogo }),
        g2.ponder == g.ponder,
        g2.searchmoves == g.searchmoves,
        g2.infinite == g.infinite,
        g2.depth == g.depth,
        g2.nodes == g.nodes,
        g2.mate == g.mate,
        g2.movetime == g.movetime,
        has_word(s, q + limit_text(SearchLimit::TimeControl(tc)).len(), rest),
{
    let f1 = opt_field(" wtime "@, tc.wtime);
    let f2 = opt_field(" btime "@, tc.btime);
    let f3 = opt_field(" winc "@, tc.winc);
    let f4 = opt_field(" binc "@, tc.binc);
    let f5 = opt_field(" movestogo "@, tc.movestogo);
    lemma_clock_text(tc, rest);
    let ga = match tc.wtime {
        Some(x) => GoScanV { wtime: Some(x), ..g },
        None => g,
    };
    lemma_go_opt_wtime(s, q, g, tc.wtime, f2 + (f3 + (f4 + (f5 + rest))));
    let q1 = q + f1.len();
    let gb = match tc.btime {
        Some(x) => GoScanV { btime: Some(x), ..ga },
        None => ga,
    };
    lemma_go_opt_btime(s, q1, ga, tc.btime, f3 + (f4 + (f5 + rest)));
    let q2 = q1 + f2.len();
    let gc = match tc.winc {
        Some(x) => GoScanV { winc: Some(x), ..gb },
        None => gb,
    };
    lemma_go_opt_winc(s, q2, gb, tc.winc, f4 + (f5 + rest));
    let q3 = q2 + f3.len();
    let gd = match tc.binc {
        Some(x) => GoScanV { binc: Some(x), ..gc },
        None => gc,
    };
    lemma_go_opt_binc(s, q3, gc, tc.binc, f5 + rest);
    let q4 = q3 + f4.len();
    let ge = match tc.movestogo {
        Some(x) => GoScanV { movestogo: Some(x), ..gd },
        None => gd,
    };
    lemma_go_opt_movestogo(s, q4, gd, tc.movestogo, rest);
    ge
}

/// The limit of `go`, read as the steps that set it.
proof fn lemma_go_limit(s: Seq<char>, q: int, g: GoScanV, limit: SearchLimit, rest: Seq<char>) -> (g2: GoScanV)
    requires
        0 <= q,
        has_word(s, q, limit_text(limit) + rest),
        q + limit_text(limit).len() + rest.len() == s.len(),
        spaced(rest),
        !g.infinite,
        g.depth is None,
        g.nodes is None,
        g.mate is None,
        g.movetime is None,
        g.wtime is None,
        g.btime is None,
        g.winc is None,
        g.binc is None,
        g.movestogo is None,
    ensures
        read_go_items(s, q, g) == read_go_items(s, q + limit_text(limit).len(), g2),
        go_limit(g2) == limit,
        g2.ponder == g.ponder,
        g2.searchmoves == g.searchmoves,
        has_word(s, q + limit_text(limit).len(), rest),
{
    reveal_strlit(" infinite");
    reveal_strlit(" depth ");
    reveal_strlit(" nodes ");
    reveal_strlit(" mate ");
    reveal_strlit(" movetime ");
    let t = limit_text(limit);
    lemma_follow(s, q, t, rest);
    match limit {
        SearchLimit::Infinite => {
            let g2 = GoScanV { infinite: true, ..g };
            lemma_go_infinite(s, q, g);
            lemma_go_advance(s, q, g, t, rest, g2);
            g2
        },
        SearchLimit::Depth(v) => {
            let g2 = GoScanV { depth: Some(v), ..g };
            lemma_go_depth(s, q, g, v);
            lemma_go_advance(s, q, g, t, rest, g2);
            g2
        },
        SearchLimit::Nodes(v) => {
            let g2 = GoScanV { nodes: Some(v), ..g };
            lemma_go_nodes(s, q, g, v);
            lemma_go_advance(s, q, g, t, rest, g2);
            g2
        },
        SearchLimit::Mate(v) => {
            let g2 = GoScanV { mate: Some(v), ..g };
            lemma_go_mate(s, q, g, v);
            lemma_go_advance(s, q, g, t, rest, g2);
            g2
        },
        SearchLimit::MoveTime(v) => {
            let g2 = GoScanV { movetime: Some(v), ..g };
            lemma_go_movetime(s, q, g, v);
            lemma_go_advance(s, q, g, t, rest, g2);
            g2
        },
        SearchLimit::TimeControl(tc) => {
            lemma_go_clocks(s, q, g, tc, rest)
        },
    }
}

/// `go` reads back from its text.
proof fn lemma_go_reads_back(p: GoParamsV)
    ensures
        read_go(go_text(p)) == Some((go_text(p).len() as int, UciRequestV::Go(p))),
{
    reveal(read_go);
    reveal_strlit("go");
    reveal_strlit(" ponder");
    reveal_strlit(" searchmoves ");
    let s = go_text(p);
    let pon: Seq<char> = if p.ponder {
        " ponder"@
    } else {
        seq![]
    };
    let lim = limit_text(p.limit);
    let sm: Seq<char> = if p.searchmoves.len() == 0 {
        seq![]
    } else {
        " searchmoves "@ + join_moves(p.searchmoves)
    };
    assert(s =~= "go"@ + (pon + (lim + sm)));
    lemma_whole(s);
    lemma_has_word_split(s, 0, "go"@, pon + (lim + sm));
    assert(read_word(s, 0, "go"@) == Some(2int));
    let g0 = go_scan_start();
    let g1 = if p.ponder {
        GoScanV { ponder: true, ..g0 }
    } else {
        g0
    };
    if p.ponder {
        lemma_has_word_split(s, 2, pon, lim + sm);
        lemma_go_ponder(s, 2, g0);
    }
    lemma_go_advance(s, 2, g0, pon, lim + sm, g1);
    let q1 = 2 + pon.len() as int;
    let g2 = lemma_go_limit(s, q1, g1, p.limit, sm);
    let q2 = q1 + lim.len() as int;
    let g3 = if p.searchmoves.len() == 0 {
        g2
    } else {
        GoScanV { searchmoves: p.searchmoves, ..g2 }
    };
    assert(sm + Seq::<char>::empty() =~= sm);
    if p.searchmoves.len() > 0 {
        lemma_go_searchmoves(s, q2, g2, p.searchmoves);
    } else {
        assert(p.searchmoves =~= Seq::<Move>::empty());
    }
    lemma_go_advance(s, q2, g2, sm, Seq::<char>::empty(), g3);
    lemma_no_blank(s, s.len() as int);
    assert(read_go_items(s, s.len() as int, g3) == (s.len() as int, g3));
}

// ---------------------------------------------------------------------------
// Requests

/// A request starting with `isready` is read by none of the alternatives tried before it.
proof fn lemma_before_isready(s: Seq<char>)
    requires
        has_word(s, 0, "isready"@),
    ensures
        read_bare(s, "ucinewgame"@, UciRequestV::UciNewGame) is None,
        read_bare(s, "uci"@, UciRequestV::Uci) is None,
{
    reveal_strlit("isready");
    reveal_strlit("uci");
    reveal_strlit("ucinewgame");
    lemma_words_clash(s, 0, "isready"@, "ucinewgame"@, 0);
    lemma_words_clash(s, 0, "isready"@, "uci"@, 0);
}

/// A request starting with `stop` is read by none of the alternatives tried before it.
proof fn lemma_before_stop(s: Seq<char>)
    requires
        has_word(s, 0, "stop"@),
    ensures
        read_bare(s, "ucinewgame"@, UciRequestV::UciNewGame) is None,
        read_bare(s, "uci"@, UciRequestV::Uci) is None,
        read_bare(s, "isready"@, UciRequestV::IsReady) is None,
{
    reveal_strlit("isready");
    reveal_strlit("stop");
    reveal_strlit("uci");
    reveal_strlit("ucinewgame");
    lemma_words_clash(s, 0, "stop"@, "ucinewgame"@, 0);
    lemma_words_clash(s, 0, "stop"@, "uci"@, 0);
    lemma_words_clash(s, 0, "stop"@, "isready"@, 0);
}

/// A request starting with `ponderhit` is read by none of the alternatives tried before it.
proof fn lemma_before_ponderhit(s: Seq<char>)
    requires
        has_word(s, 0, "ponderhit"@),
    ensures
        read_bare(s, "ucinewgame"@, UciRequestV::UciNewGame) is None,
        read_bare(s, "uci"@, UciRequestV::Uci) is None,
        read_bare(s, "isready"@, UciRequestV::IsReady) is None,
        read_bare(s, "stop"@, UciRequestV::Stop) is None,
{
    reveal_strlit("isready");
    reveal_strlit("ponderhit");
    reveal_strlit("stop");
    reveal_strlit("uci");
    reveal_strlit("ucinewgame");
    lemma_words_clash(s, 0, "ponderhit"@, "ucinewgame"@, 0);
    lemma_words_clash(s, 0, "ponderhit"@, "uci"@, 0);
    lemma_words_clash(s, 0, "ponderhit"@, "isready"@, 0);
    lemma_words_clash(s, 0, "ponderhit"@, "stop"@, 0);
}

/// A request starting with `quit` is read by none of the alternatives tried before it.
proof fn lemma_before_quit(s: Seq<char>)
    requires
        has_word(s, 0, "quit"@),
    ensures
        read_bare(s, "ucinewgame"@, UciRequestV::UciNewGame) is None,
        read_bare(s, "uci"@, UciRequestV::Uci) is None,
        read_bare(s, "isready"@, UciRequestV::IsReady) is None,
        read_bare(s, "stop"@, UciRequestV::Stop) is None,
        read_bare(s, "ponderhit"@, UciRequestV::PonderHit) is None,
{
    reveal_strlit("isready");
    reveal_strlit("ponderhit");
    reveal_strlit("quit");
    reveal_strlit("stop");
    reveal_strlit("uci");
    reveal_strlit("ucinewgame");
    lemma_words_clash(s, 0, "quit"@, "ucinewgame"@, 0);
    lemma_words_clash(s, 0, "quit"@, "uci"@, 0);
    lemma_words_clash(s, 0, "quit"@, "isready"@, 0);
    lemma_words_clash(s, 0, "quit"@, "stop"@, 0);
    lemma_words_clash(s, 0, "quit"@, "ponderhit"@, 0);
}

/// A request starting with `debug` is read by none of the alternatives tried before it.
proof fn lemma_before_debug(s: Seq<char>)
    requires
        has_word(s, 0, "debug"@),
    ensures
        read_bare(s, "ucinewgame"@, UciRequestV::UciNewGame) is None,
        read_bare(s, "uci"@, UciRequestV::Uci) is None,
        read_bare(s, "isready"@, UciRequestV::IsReady) is None,
        read_bare(s, "stop"@, UciRequestV::Stop) is None,
        read_bare(s, "ponderhit"@, UciRequestV::PonderHit) is None,
        read_bare(s, "quit"@, UciRequestV::Quit) is None,
{
    reveal_strlit("debug");
    reveal_strlit("isready");
    reveal_strlit("ponderhit");
    reveal_strlit("quit");
    reveal_strlit("stop");
    reveal_strlit("uci");
    reveal_strlit("ucinewgame");
    lemma_words_clash(s, 0, "debug"@, "ucinewgame"@, 0);
    lemma_words_clash(s, 0, "debug"@, "uci"@, 0);
    lemma_words_clash(s, 0, "debug"@, "isready"@, 0);
    lemma_words_clash(s, 0, "debug"@, "stop"@, 0);
    lemma_words_clash(s, 0, "debug"@, "ponderhit"@, 0);
    lemma_words_clash(s, 0, "debug"@, "quit"@, 0);
}

/// A request starting with `setoption` is read by none of the alternatives tried before it.
proof fn lemma_before_setoption(s: Seq<char>)
    requires
        has_word(s, 0, "setoption"@),
    ensures
        read_bare(s, "ucinewgame"@, UciRequestV::UciNewGame) is None,
        read_bare(s, "uci"@, UciRequestV::Uci) is None,
        read_bare(s, "isready"@, UciRequestV::IsReady) is None,
        read_bare(s, "stop"@, UciRequestV::Stop) is None,
        read_bare(s, "ponderhit"@, UciRequestV::PonderHit) is None,
        read_bare(s, "quit"@, UciRequestV::Quit) is None,
        read_debug(s) is None,
{
    reveal(read_debug);
    reveal_strlit("debug");
    reveal_strlit("isready");
    reveal_strlit("ponderhit");
    reveal_strlit("quit");
    reveal_strlit("setoption");
    reveal_strlit("stop");
    reveal_strlit("uci");
    reveal_strlit("ucinewgame");
    lemma_words_clash(s, 0, "setoption"@, "ucinewgame"@, 0);
    lemma_words_clash(s, 0, "setoption"@, "uci"@, 0);
    lemma_words_clash(s, 0, "setoption"@, "isready"@, 0);
    lemma_words_clash(s, 0, "setoption"@, "stop"@, 1);
    lemma_words_clash(s, 0, "setoption"@, "ponderhit"@, 0);
    lemma_words_clash(s, 0, "setoption"@, "quit"@, 0);
    lemma_words_clash(s, 0, "setoption"@, "debug"@, 0);
}

/// A request starting with `register` is read by none of the alternatives tried before it.
proof fn lemma_before_register(s: Seq<char>)
    requires
        has_word(s, 0, "register"@),
    ensures
        read_bare(s, "ucinewgame"@, UciRequestV::UciNewGame) is None,
        read_bare(s, "uci"@, UciRequestV::Uci) is None,
        read_bare(s, "isready"@, UciRequestV::IsReady) is None,
        read_bare(s, "stop"@, UciRequestV::Stop) is None,
        read_bare(s, "ponderhit"@, UciRequestV::PonderHit) is None,
        read_bare(s, "quit"@, UciRequestV::Quit) is None,
        read_debug(s) is None,
        read_setoption(s) is None,
{
    reveal(read_debug);
    reveal(read_setoption);
    reveal_strlit("debug");
    reveal_strlit("isready");
    reveal_strlit("ponderhit");
    reveal_strlit("quit");
    reveal_strlit("register");
    reveal_strlit("setoption");
    reveal_strlit("stop");
    reveal_strlit("uci");
    reveal_strlit("ucinewgame");
    lemma_words_clash(s, 0, "register"@, "ucinewgame"@, 0);
    lemma_words_clash(s, 0, "register"@, "uci"@, 0);
    lemma_words_clash(s, 0, "register"@, "isready"@, 0);
    lemma_words_clash(s, 0, "register"@, "stop"@, 0);
    lemma_words_clash(s, 0, "register"@, "ponderhit"@, 0);
    lemma_words_clash(s, 0, "register"@, "quit"@, 0);
    lemma_words_clash(s, 0, "register"@, "debug"@, 0);
    lemma_words_clash(s, 0, "register"@, "setoption"@, 0);
}

/// A request starting with `position` is read by none of the alternatives tried before it.
proof fn lemma_before_position(s: Seq<char>)
    requires
        has_word(s, 0, "position"@),
    ensures
        read_bare(s, "ucinewgame"@, UciRequestV::UciNewGame) is None,
        read_bare(s, "uci"@, UciRequestV::Uci) is None,
        read_bare(s, "isready"@, UciRequestV::IsReady) is None,
        read_bare(s, "stop"@, UciRequestV::Stop) is None,
        read_bare(s, "ponderhit"@, UciRequestV::PonderHit) is None,
        read_bare(s, "quit"@, UciRequestV::Quit) is None,
        read_debug(s) is None,
        read_setoption(s) is None,
        read_register(s) is None,
{
    reveal(read_debug);
    reveal(read_setoption);
    reveal(read_register);
    reveal_strlit("debug");
    reveal_strlit("isready");
    reveal_strlit("ponderhit");
    reveal_strlit("position");
    reveal_strlit("quit");
    reveal_strlit("register");
    reveal_strlit("setoption");
    reveal_strlit("stop");
    reveal_strlit("uci");
    reveal_strlit("ucinewgame");
    lemma_words_clash(s, 0, "position"@, "ucinewgame"@, 0);
    lemma_words_clash(s, 0, "position"@, "uci"@, 0);
    lemma_words_clash(s, 0, "position"@, "isready"@, 0);
    lemma_words_clash(s, 0, "position"@, "stop"@, 0);
    lemma_words_clash(s, 0, "position"@, "ponderhit"@, 2);
    lemma_words_clash(s, 0, "position"@, "quit"@, 0);
    lemma_words_clash(s, 0, "position"@, "debug"@, 0);
    lemma_words_clash(s, 0, "position"@, "setoption"@, 0);
    lemma_words_clash(s, 0, "position"@, "register"@, 0);
}

/// A request starting with `go` is read by none of the alternatives tried before it.
proof fn lemma_before_go(s: Seq<char>)
    requires
        has_word(s, 0, "go"@),
    ensures
        read_bare(s, "ucinewgame"@, UciRequestV::UciNewGame) is None,
        read_bare(s, "uci"@, UciRequestV::Uci) is None,
        read_bare(s, "isready"@, UciRequestV::IsReady) is None,
        read_bare(s, "stop"@, UciRequestV::Stop) is None,
        read_bare(s, "ponderhit"@, UciRequestV::PonderHit) is None,
        read_bare(s, "quit"@, UciRequestV::Quit) is None,
        read_debug(s) is None,
        read_setoption(s) is None,
        read_register(s) is None,
        read_position(s) is None,
{
    reveal(read_debug);
    reveal(read_setoption);
    reveal(read_register);
    reveal(read_position);
    reveal_strlit("debug");
    reveal_strlit("go");
    reveal_strlit("isready");
    reveal_strlit("ponderhit");
    reveal_strlit("position");
    reveal_strlit("quit");
    reveal_strlit("register");
    reveal_strlit("setoption");
    reveal_strlit("stop");
    reveal_strlit("uci");
    reveal_strlit("ucinewgame");
    lemma_words_clash(s, 0, "go"@, "ucinewgame"@, 0);
    lemma_words_clash(s, 0, "go"@, "uci"@, 0);
    lemma_words_clash(s, 0, "go"@, "isready"@, 0);
    lemma_words_clash(s, 0, "go"@, "stop"@, 0);
    lemma_words_clash(s, 0, "go"@, "ponderhit"@, 0);
    lemma_words_clash(s, 0, "go"@, "quit"@, 0);
    lemma_words_clash(s, 0, "go"@, "debug"@, 0);
    lemma_words_clash(s, 0, "go"@, "setoption"@, 0);
    lemma_words_clash(s, 0, "go"@, "register"@, 0);
    lemma_words_clash(s, 0, "go"@, "position"@, 0);
}

/// `key` then one blank at `pos`, followed by `rest`, which does not start
/// with a blank.
proof fn lemma_key_text(s: Seq<char>, pos: int, key: Seq<char>, rest: Seq<char>)
    requires
        0 <= pos,
        has_word(s, pos, key + (seq![' '] + rest)),
        no_lead_blank(rest),
        rest.len() > 0 || pos + key.len() + 1 == s.len(),
    ensures
        read_key(s, pos, key) == Some(pos + key.len() + 1),
        has_word(s, pos, key),
        has_word(s, pos + key.len() + 1, rest),
{
    lemma_has_word_split(s, pos, key, seq![' '] + rest);
    lemma_blank_before(s, pos + key.len(), rest);
    lemma_has_word_split(s, pos + key.len(), seq![' '], rest);
}

/// What a `setoption` needs to read back as itself: a name that does not
/// start with a blank, does not end with white space, holds no ` value`,
/// and is not empty when a value follows; a value that does not start with
/// a blank.
pub open spec fn setoption_readable(name: Seq<char>, value: Option<Seq<char>>) -> bool {
    &&& no_lead_blank(name)
    &&& no_trail_white(name)
    &&& lacks(name, " value"@)
    &&& value is Some ==> name.len() > 0
    &&& value matches Some(v) ==> no_lead_blank(v)
}

#[verifier::rlimit(50)]
proof fn lemma_setoption_reads_back(name: Seq<char>, value: Option<Seq<char>>)
    requires
        setoption_readable(name, value),
    ensures
        read_setoption(request_text(UciRequestV::SetOption { name, value })) == Some(
            (
                request_text(UciRequestV::SetOption { name, value }).len() as int,
                UciRequestV::SetOption { name, value },
            ),
        ),
{
    reveal(read_setoption);
    reveal_strlit("setoption name ");
    reveal_strlit(" value ");
    reveal_strlit(" value");
    reveal_strlit("setoption");
    reveal_strlit("name");
    reveal_strlit("value");
    let s = request_text(UciRequestV::SetOption { name, value });
    let tail: Seq<char> = match value {
        None => seq![],
        Some(v) => " value"@ + (seq![' '] + v),
    };
    assert(s =~= "setoption"@ + (seq![' '] + ("name"@ + (seq![' '] + (name + tail)))));
    lemma_whole(s);
    lemma_key_text(s, 0, "setoption"@, "name"@ + (seq![' '] + (name + tail)));
    lemma_key_text(s, 10, "name"@, name + tail);
    lemma_has_word_split(s, 15, name, tail);
    lemma_trim_keeps(s, 15, name);
    let e = 15 + name.len() as int;
    match value {
        None => {
            lemma_find_none_in(s, 15, name, " value"@);
            lemma_no_blank(s, s.len() as int);
        },
        Some(v) => {
            lemma_has_word_split(s, e, " value"@, seq![' '] + v);
            lemma_find_after(s, 15, name, " value"@);
            assert(" value"@ =~= seq![' '] + "value"@);
            lemma_word_text(s, e, "value"@);
            lemma_blank_before(s, e + 6, v);
            lemma_has_word_split(s, e + 6, seq![' '], v);
        },
    }
}

/// What a `register` needs to read back as itself: a name that is not
/// empty, does not start with a blank and holds no ` code`; a code that does
/// not start with a blank.
pub open spec fn register_readable(reg: RegisterCommandV) -> bool {
    match reg {
        RegisterCommandV::Later => true,
        RegisterCommandV::Credentials { name, code } => {
            &&& name.len() > 0
            &&& no_lead_blank(name)
            &&& lacks(name, " code"@)
            &&& no_lead_blank(code)
        },
    }
}

#[verifier::spinoff_prover]
#[verifier::rlimit(80)]
proof fn lemma_register_reads_back(reg: RegisterCommandV)
    requires
        register_readable(reg),
    ensures
        read_register(request_text(UciRequestV::Register(reg))) == Some(
            (
                request_text(UciRequestV::Register(reg)).len() as int,
                UciRequestV::Register(reg),
            ),
        ),
{
    reveal(read_register);
    reveal_strlit("register later");
    reveal_strlit("register name ");
    reveal_strlit(" code ");
    reveal_strlit(" code");
    reveal_strlit("register");
    reveal_strlit("later");
    reveal_strlit("name");
    reveal_strlit("code");
    let s = request_text(UciRequestV::Register(reg));
    lemma_whole(s);
    match reg {
        RegisterCommandV::Later => {
            assert(s =~= "register"@ + (seq![' '] + "later"@));
            lemma_key_text(s, 0, "register"@, "later"@);
        },
        RegisterCommandV::Credentials { name, code } => {
            let tail = " code"@ + (seq![' '] + code);
            assert(s =~= "register"@ + (seq![' '] + ("name"@ + (seq![' '] + (name + tail)))));
            lemma_key_text(s, 0, "register"@, "name"@ + (seq![' '] + (name + tail)));
            lemma_key_text(s, 9, "name"@, name + tail);
            lemma_words_clash(s, 9, "name"@, "later"@, 0);
            lemma_has_word_split(s, 14, name, tail);
            let e = 14 + name.len() as int;
            lemma_has_word_split(s, e, " code"@, seq![' '] + code);
            lemma_find_after(s, 14, name, " code"@);
            assert(" code"@ =~= seq![' '] + "code"@);
            lemma_word_text(s, e, "code"@);
            lemma_has_word_join(s, e + 1, "code"@, seq![' '] + code);
            lemma_key_text(s, e + 1, "code"@, code);
            assert(s.subrange(14, e) == name);
        },
    }
}

/// The moves part of `position`, read back from its text at `e`.
proof fn lemma_position_moves(s: Seq<char>, e: int, moves: Seq<Move>)
    requires
        0 <= e,
        has_word(
            s,
            e,
            if moves.len() == 0 {
                seq![]
            } else {
                " moves "@ + join_moves(moves)
            },
        ),
        e + (if moves.len() == 0 {
            seq![]
        } else {
            " moves "@ + join_moves(moves)
        }).len() == s.len(),
    ensures
        read_position_moves(s, e) == (s.len() as int, moves),
{
    reveal_strlit(" moves ");
    reveal_strlit("moves");
    if moves.len() == 0 {
        lemma_no_blank(s, e);
        assert(moves =~= Seq::<Move>::empty());
    } else {
        let sp = spaced_moves(moves);
        assert(sp == seq![' '] + move_text(moves[0]) + spaced_moves(moves.drop_first()));
        assert(" moves "@ + join_moves(moves) =~= seq![' '] + "moves"@ + sp);
        lemma_has_word_split(s, e, seq![' '] + "moves"@, sp);
        lemma_word_text(s, e, "moves"@);
        lemma_moves_stop_at_end(s);
        lemma_read_spaced_moves(s, e + 6, moves);
    }
}

/// `fen F` at 9, followed by the moves part, reads back as the record and
/// leaves the moves part.
proof fn lemma_fen_spec_reads_back(s: Seq<char>, f: crate::fen::FenV, tail: Seq<char>)
    requires
        f.squares.len() == 64,
        has_word(s, 9, "fen"@ + (seq![' '] + (fen_text(f) + tail))),
        9 + ("fen"@ + (seq![' '] + (fen_text(f) + tail))).len() == s.len(),
        tail.len() > 0 ==> has_word(tail, 0, " moves"@),
    ensures
        read_fen_spec(s, 9) == Some((13 + fen_text(f).len() as int, PositionSpecV::Fen(f))),
        has_word(s, 13 + fen_text(f).len() as int, tail),
{
    reveal(read_fen_spec);
    reveal_strlit("fen");
    reveal_strlit(" moves");
    let t = fen_text(f);
    crate::fen::readback::lemma_fen_text_shape(f);
    fen_text_reads_back(f);
    lemma_key_text(s, 9, "fen"@, t + tail);
    lemma_has_word_split(s, 13, t, tail);
    assert(lacks(t, " moves"@)) by {
        assert forall|j: int| 0 <= j <= t.len() implies !has_word(t, j, " moves"@) by {
            if has_word(t, j, " moves"@) {
                lemma_has_word_index(t, j, " moves"@, 1);
            }
        }
    }
    lemma_trim_keeps(s, 13, t);
    let e = 13 + t.len() as int;
    if tail.len() == 0 {
        lemma_find_none_in(s, 13, t, " moves"@);
    } else {
        assert(has_word(s, e, " moves"@)) by {
            assert forall|i: int| 0 <= i < 6 implies s.subrange(e, e + 6)[i] == " moves"@[i] by {
                lemma_has_word_index(s, e, tail, i);
                lemma_has_word_index(tail, 0, " moves"@, i);
            }
            assert(s.subrange(e, e + 6) =~= " moves"@);
        }
        lemma_find_after(s, 13, t, " moves"@);
    }
    assert(until_or_end(s, 13, " moves"@) == e);
}

proof fn lemma_position_reads_back(start: PositionSpecV, moves: Seq<Move>)
    requires
        start matches PositionSpecV::Fen(f) ==> f.squares.len() == 64,
    ensures
        read_position(request_text(UciRequestV::Position { start, moves })) == Some(
            (
                request_text(UciRequestV::Position { start, moves }).len() as int,
                UciRequestV::Position { start, moves },
            ),
        ),
{
    reveal(read_position);
    reveal_strlit("position startpos");
    reveal_strlit("position fen ");
    reveal_strlit(" moves ");
    reveal_strlit(" moves");
    reveal_strlit("position");
    reveal_strlit("startpos");
    reveal_strlit("fen");
    let s = request_text(UciRequestV::Position { start, moves });
    let tail: Seq<char> = if moves.len() == 0 {
        seq![]
    } else {
        " moves "@ + join_moves(moves)
    };
    if moves.len() > 0 {
        assert(has_word(tail, 0, " moves"@)) by {
            assert(tail.subrange(0, 6) =~= " moves"@);
        }
    }
    lemma_whole(s);
    match start {
        PositionSpecV::StartPos => {
            assert(s =~= "position"@ + (seq![' '] + ("startpos"@ + tail)));
            lemma_key_text(s, 0, "position"@, "startpos"@ + tail);
            lemma_has_word_split(s, 9, "startpos"@, tail);
            lemma_position_moves(s, 17, moves);
        },
        PositionSpecV::Fen(f) => {
            let t = fen_text(f);
            assert(s =~= "position"@ + (seq![' '] + ("fen"@ + (seq![' '] + (t + tail)))));
            lemma_key_text(s, 0, "position"@, "fen"@ + (seq![' '] + (t + tail)));
            lemma_has_word_split(s, 9, "fen"@, seq![' '] + (t + tail));
            lemma_words_clash(s, 9, "fen"@, "startpos"@, 0);
            lemma_fen_spec_reads_back(s, f, tail);
            lemma_position_moves(s, 13 + t.len() as int, moves);
        },
    }
}

/// What a request needs to read back as itself from its text (see
/// `setoption_readable` and `register_readable`); a FEN record has its 64
/// squares.
pub open spec fn request_readable(r: UciRequestV) -> bool {
    match r {
        UciRequestV::SetOption { name, value } => setoption_readable(name, value),
        UciRequestV::Register(reg) => register_readable(reg),
        UciRequestV::Position { start, moves } => start matches PositionSpecV::Fen(f)
            ==> f.squares.len() == 64,
        _ => true,
    }
}

/// `debug on` and `debug off` read back.
proof fn lemma_debug_reads_back(b: bool)
    ensures
        read_request(request_text(UciRequestV::Debug(b))) == Some(
            (request_text(UciRequestV::Debug(b)).len() as int, UciRequestV::Debug(b)),
        ),
{
    reveal(read_debug);
    reveal_strlit("debug on");
    reveal_strlit("debug off");
    reveal_strlit("debug");
    reveal_strlit("on");
    reveal_strlit("off");
    let s = request_text(UciRequestV::Debug(b));
    lemma_whole(s);
    let w: Seq<char> = if b {
        "on"@
    } else {
        "off"@
    };
    assert(s =~= "debug"@ + (seq![' '] + w));
    lemma_key_text(s, 0, "debug"@, w);
    lemma_before_debug(s);
    if !b {
        lemma_words_clash(s, 6, "off"@, "on"@, 1);
    }
}

/// A request written as text and read back is the same request, read to the
/// end of the text.
pub proof fn request_text_reads_back(r: UciRequestV)
    requires
        request_readable(r),
    ensures
        read_request(request_text(r)) == Some((request_text(r).len() as int, r)),
{
    let s = request_text(r);
    lemma_whole(s);
    reveal_strlit("uci");
    reveal_strlit("ucinewgame");
    reveal_strlit("isready");
    reveal_strlit("stop");
    reveal_strlit("ponderhit");
    reveal_strlit("quit");
    match r {
        UciRequestV::Uci => {},
        UciRequestV::UciNewGame => {},
        UciRequestV::IsReady => {
            lemma_before_isready(s);
        },
        UciRequestV::Stop => {
            lemma_before_stop(s);
        },
        UciRequestV::PonderHit => {
            lemma_before_ponderhit(s);
        },
        UciRequestV::Quit => {
            lemma_before_quit(s);
        },
        UciRequestV::Debug(b) => {
            lemma_debug_reads_back(b);
        },
        UciRequestV::SetOption { name, value } => {
            reveal_strlit("setoption name ");
            reveal_strlit("setoption");
            assert(s =~= "setoption"@ + s.subrange(9, s.len() as int));
            lemma_has_word_split(s, 0, "setoption"@, s.subrange(9, s.len() as int));
            lemma_before_setoption(s);
            lemma_setoption_reads_back(name, value);
        },
        UciRequestV::Register(reg) => {
            reveal_strlit("register later");
            reveal_strlit("register name ");
            reveal_strlit("register");
            assert(s =~= "register"@ + s.subrange(8, s.len() as int));
            lemma_has_word_split(s, 0, "register"@, s.subrange(8, s.len() as int));
            lemma_before_register(s);
            lemma_register_reads_back(reg);
        },
        UciRequestV::Position { start, moves } => {
            reveal_strlit("position startpos");
            reveal_strlit("position fen ");
            reveal_strlit("position");
            assert(s =~= "position"@ + s.subrange(8, s.len() as int));
            lemma_has_word_split(s, 0, "position"@, s.subrange(8, s.len() as int));
            lemma_before_position(s);
            lemma_position_reads_back(start, moves);
        },
        UciRequestV::Go(p) => {
            reveal_strlit("go");
            assert(s =~= "go"@ + s.subrange(2, s.len() as int));
            lemma_has_word_split(s, 0, "go"@, s.subrange(2, s.len() as int));
            lemma_before_go(s);
            lemma_go_reads_back(p);
        },
    }
}

} // verus!
