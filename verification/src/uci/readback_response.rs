//! Responses read back from their text as the responses they were written from.
use vstd::prelude::*;

use super::de_response::{
    read_bare_response, read_bestmove, read_check_opt, read_combo_opt,
    read_copyprotection, read_currline, read_id, read_info, read_info_item,
    read_info_item_last, read_info_item_more, read_info_items, read_info_step, read_int_blanks,
    read_more_vars, read_option, read_option_type, read_refutation,
    read_registration, read_response, read_score, read_spin_opt, read_status, read_str_opt,
    combo_value, empty_info,
};
use super::grammar::{promotion_of, read_key, read_more_moves, read_move, read_square};
use super::readback::{
    lemma_keyed_text, lemma_moves_stop_at_end, lemma_read_move_list_text,
    lemma_read_move_text, lemma_read_spaced_moves, lemma_word_text, };
use super::ser::{
    bound_text, currline_text, currmove_text, info_text, join_moves, move_text, opt_field,
    option_text, pv_text, refutation_text, response_text, score_field, score_text,
    spaced_moves, status_text, string_text, vars_text,
};
use super::{
    CheckStatus, CurrLineV, InfoFieldsV, Move, OptionTypeV, RefutationV, Score, ScoreBound,
    UciResponseV,
};
use crate::text::{
    dec, dec_signed, has_word, is_blank, is_digit, lacks, lemma_blank_before, lemma_dec_digits,
    lemma_find_after, lemma_find_none_in, lemma_has_word_index, lemma_has_word_join,
    lemma_has_word_split, lemma_no_blank, lemma_one_blank, lemma_read_int_dec,
    lemma_read_uint_dec, lemma_trim_keeps, lemma_whole, lemma_words_clash, no_lead_blank,
    no_trail_white, read_blanks, read_word, };

verus! {

// ---------------------------------------------------------------------------
// Where a field ends

/// The first letter of an `info` key.
pub open spec fn key_initial(c: char) -> bool {
    c == 'd' || c == 's' || c == 't' || c == 'n' || c == 'p' || c == 'm' || c == 'c' || c == 'h'
        || c == 'r'
}

/// At `e` the text ends, or a space and the first two letters of a key follow.
pub open spec fn stops_at(s: Seq<char>, e: int) -> bool {
    e == s.len() || (e + 2 < s.len() && s[e] == ' ' && key_initial(s[e + 1]) && !is_digit(
        s[e + 2],
    ))
}

/// Where a field stops, no further move is read, and no promotion letter follows.
pub proof fn lemma_stop_moves(s: Seq<char>, e: int)
    requires
        0 <= e,
        stops_at(s, e),
    ensures
        read_more_moves(s, e) == (e, Seq::<Move>::empty()),
        e == s.len() || promotion_of(s[e]) is None,
        e == s.len() || !is_digit(s[e]),
{
    if e == s.len() {
        lemma_moves_stop_at_end(s);
    } else {
        lemma_one_blank(s, e);
        assert(read_square(s, e + 1) is None);
    }
}

/// A word does not stand where its first letter does not.
pub proof fn lemma_first_char_clash(s: Seq<char>, p: int, w: Seq<char>)
    requires
        0 <= p < s.len(),
        w.len() > 0,
        s[p] != w[0],
    ensures
        read_word(s, p, w) is None,
{
    if has_word(s, p, w) {
        lemma_has_word_index(s, p, w, 0);
    }
}

/// A key that begins a longer word, followed in it by no blank, is not read.
pub proof fn lemma_key_blank_fails(s: Seq<char>, p: int, k: Seq<char>, w: Seq<char>)
    requires
        0 <= p,
        has_word(s, p, k),
        w.len() < k.len(),
        k.subrange(0, w.len() as int) == w,
        !is_blank(k[w.len() as int]),
    ensures
        read_key(s, p, w) is None,
{
    lemma_has_word_index(s, p, k, w.len() as int);
    lemma_no_blank(s, p + w.len());
}

// ---------------------------------------------------------------------------
// Keyed values

/// ` key M ...` at `pos`, stopping as a field does.
pub proof fn lemma_keyed_list_stop(s: Seq<char>, pos: int, key: Seq<char>, ms: Seq<Move>)
    requires
        0 <= pos,
        key.len() > 0,
        !is_blank(key[0]),
        ms.len() > 0,
        has_word(s, pos, seq![' '] + key + seq![' '] + join_moves(ms)),
        stops_at(s, pos + (seq![' '] + key + seq![' '] + join_moves(ms)).len()),
    ensures
        read_blanks(s, pos) == Some(pos + 1),
        has_word(s, pos + 1, key),
        read_key(s, pos + 1, key) == Some(pos + key.len() + 2),
        super::grammar::read_move_list(s, pos + key.len() + 2) == Some(
            (pos + (seq![' '] + key + seq![' '] + join_moves(ms)).len(), ms),
        ),
{
    let j = join_moves(ms);
    lemma_has_word_split(s, pos, seq![' '] + key + seq![' '], j);
    lemma_has_word_split(s, pos, seq![' '] + key, seq![' ']);
    lemma_word_text(s, pos, key);
    let q = pos + 1 + key.len();
    lemma_has_word_join(s, q, seq![' '], j);
    assert(j == move_text(ms[0]) + spaced_moves(ms.drop_first()));
    lemma_has_word_index(s, q + 1, j, 0);
    lemma_blank_before(s, q, j);
    lemma_stop_moves(s, q + 1 + j.len());
    lemma_read_move_list_text(s, q + 1, ms);
}

/// ` key M` at `pos`, stopping as a field does.
pub proof fn lemma_keyed_move(s: Seq<char>, pos: int, key: Seq<char>, m: Move)
    requires
        0 <= pos,
        key.len() > 0,
        !is_blank(key[0]),
        has_word(s, pos, seq![' '] + key + seq![' '] + move_text(m)),
        stops_at(s, pos + (seq![' '] + key + seq![' '] + move_text(m)).len()),
    ensures
        read_blanks(s, pos) == Some(pos + 1),
        has_word(s, pos + 1, key),
        read_key(s, pos + 1, key) == Some(pos + key.len() + 2),
        read_move(s, pos + key.len() + 2) == Some(
            (pos + (seq![' '] + key + seq![' '] + move_text(m)).len(), m),
        ),
{
    let t = move_text(m);
    lemma_has_word_split(s, pos, seq![' '] + key + seq![' '], t);
    lemma_has_word_split(s, pos, seq![' '] + key, seq![' ']);
    lemma_word_text(s, pos, key);
    let q = pos + 1 + key.len();
    lemma_has_word_join(s, q, seq![' '], t);
    lemma_has_word_index(s, q + 1, t, 0);
    lemma_blank_before(s, q, t);
    lemma_stop_moves(s, q + 1 + t.len());
    lemma_read_move_text(s, q + 1, m);
}

/// ` score ...` at `pos`, stopping as a field does, reads back as the score.
pub proof fn lemma_score_text_reads(s: Seq<char>, pos: int, sc: Score)
    requires
        0 <= pos,
        has_word(s, pos, score_text(sc)),
        stops_at(s, pos + score_text(sc).len()),
    ensures
        read_blanks(s, pos) == Some(pos + 1),
        has_word(s, pos + 1, "score"@),
        read_score(s, pos + 1) == Some((pos + score_text(sc).len(), sc)),
{
    reveal(read_score);
    reveal_strlit(" score cp ");
    reveal_strlit(" score mate ");
    reveal_strlit("score");
    reveal_strlit("cp");
    reveal_strlit("mate");
    reveal_strlit(" lowerbound");
    reveal_strlit(" upperbound");
    reveal_strlit("lowerbound");
    reveal_strlit("upperbound");
    let (key, v, b) = match sc {
        Score::Centipawns { value, bound } => ("cp"@, value, bound),
        Score::Mate { moves, bound } => ("mate"@, moves, bound),
    };
    let d = dec_signed(v as int);
    let bt = bound_text(b);
    assert(score_text(sc) =~= seq![' '] + "score"@ + (seq![' '] + (key + (seq![' '] + (d
        + bt)))));
    lemma_has_word_split(s, pos, seq![' '] + "score"@, seq![' '] + (key + (seq![' '] + (d
        + bt))));
    lemma_word_text(s, pos, "score"@);
    let q = pos + 6;
    lemma_has_word_split(s, q, seq![' '], key + (seq![' '] + (d + bt)));
    lemma_has_word_index(s, q + 1, key + (seq![' '] + (d + bt)), 0);
    lemma_blank_before(s, q, key + (seq![' '] + (d + bt)));
    lemma_has_word_split(s, q + 1, key, seq![' '] + (d + bt));
    let q2 = q + 1 + key.len();
    lemma_has_word_split(s, q2, seq![' '], d + bt);
    lemma_has_word_split(s, q2 + 1, d, bt);
    if v < 0 {
        lemma_has_word_index(s, q2 + 1, d, 0);
    } else {
        lemma_dec_digits(v as nat);
        lemma_has_word_index(s, q2 + 1, d, 0);
    }
    lemma_blank_before(s, q2, d + bt);
    let e = q2 + 1 + d.len();
    let end = e + bt.len();
    match b {
        ScoreBound::Exact => {
            lemma_stop_moves(s, end);
            if end < s.len() {
                lemma_one_blank(s, end);
                lemma_first_char_clash(s, end + 1, "lowerbound"@);
                lemma_first_char_clash(s, end + 1, "upperbound"@);
            } else {
                lemma_no_blank(s, end);
            }
        },
        ScoreBound::LowerBound => {
            assert(" lowerbound"@ =~= seq![' '] + "lowerbound"@);
            lemma_has_word_index(s, e, bt, 0);
            lemma_word_text(s, e, "lowerbound"@);
        },
        ScoreBound::UpperBound => {
            assert(" upperbound"@ =~= seq![' '] + "upperbound"@);
            lemma_has_word_index(s, e, bt, 0);
            lemma_word_text(s, e, "upperbound"@);
            lemma_words_clash(s, e + 1, "upperbound"@, "lowerbound"@, 0);
        },
    }
    lemma_read_int_dec(s, q2 + 1, v as int, i64::MIN as int, i64::MAX as int);
    if key == "mate"@ {
        lemma_words_clash(s, q + 1, "mate"@, "cp"@, 0);
    }
}

/// ` refutation M [line]` at `pos`, stopping as a field does, reads back.
pub proof fn lemma_refutation_text_reads(s: Seq<char>, pos: int, r: RefutationV)
    requires
        0 <= pos,
        has_word(s, pos, refutation_text(Some(r))),
        stops_at(s, pos + refutation_text(Some(r)).len()),
    ensures
        read_blanks(s, pos) == Some(pos + 1),
        has_word(s, pos + 1, "refutation"@),
        read_refutation(s, pos + 1) == Some((pos + refutation_text(Some(r)).len(), r)),
{
    reveal_strlit(" refutation ");
    reveal_strlit("refutation");
    reveal_strlit(" ");
    let t = move_text(r.mov);
    let line: Seq<char> = if r.line.len() == 0 {
        seq![]
    } else {
        " "@ + join_moves(r.line)
    };
    assert(refutation_text(Some(r)) =~= seq![' '] + "refutation"@ + seq![' '] + t + line);
    let end = pos + refutation_text(Some(r)).len();
    lemma_has_word_split(s, pos, seq![' '] + "refutation"@ + seq![' '] + t, line);
    let e = pos + 12 + t.len();
    if r.line.len() > 0 {
        let sp = spaced_moves(r.line);
        assert(sp == seq![' '] + move_text(r.line[0]) + spaced_moves(r.line.drop_first()));
        assert(line =~= sp);
        lemma_has_word_index(s, e, line, 0);
        lemma_stop_moves(s, end);
        lemma_read_spaced_moves(s, e, r.line);
    } else {
        lemma_stop_moves(s, e);
        assert(r.line =~= Seq::<Move>::empty());
    }
    lemma_has_word_split(s, pos, seq![' '] + "refutation"@ + seq![' '], t);
    lemma_has_word_split(s, pos, seq![' '] + "refutation"@, seq![' ']);
    lemma_word_text(s, pos, "refutation"@);
    lemma_has_word_join(s, pos + 11, seq![' '], t);
    lemma_has_word_index(s, pos + 12, t, 0);
    lemma_blank_before(s, pos + 11, t);
    if r.line.len() > 0 {
        lemma_has_word_index(s, e, line, 0);
    }
    lemma_read_move_text(s, pos + 12, r.mov);
}

/// ` currline [cpu] [moves]` at `pos`, running to the end, reads back.
pub proof fn lemma_currline_text_reads(s: Seq<char>, pos: int, c: CurrLineV)
    requires
        0 <= pos,
        has_word(s, pos, currline_text(Some(c))),
        pos + currline_text(Some(c)).len() == s.len(),
    ensures
        read_blanks(s, pos) == Some(pos + 1),
        has_word(s, pos + 1, "currline"@),
        read_currline(s, pos + 1) == Some((s.len() as int, c)),
{
    reveal_strlit(" currline");
    reveal_strlit("currline");
    reveal_strlit(" ");
    let cpu: Seq<char> = match c.cpu {
        Some(n) => " "@ + dec(n as nat),
        None => seq![],
    };
    let mv: Seq<char> = if c.moves.len() == 0 {
        seq![]
    } else {
        " "@ + join_moves(c.moves)
    };
    assert(currline_text(Some(c)) =~= seq![' '] + "currline"@ + cpu + mv);
    lemma_has_word_split(s, pos, seq![' '] + "currline"@ + cpu, mv);
    lemma_has_word_split(s, pos, seq![' '] + "currline"@, cpu);
    lemma_word_text(s, pos, "currline"@);
    let q = pos + 9;
    let q2 = q + cpu.len();
    if c.moves.len() > 0 {
        let sp = spaced_moves(c.moves);
        assert(sp == seq![' '] + move_text(c.moves[0]) + spaced_moves(c.moves.drop_first()));
        assert(mv =~= sp);
        lemma_has_word_index(s, q2, mv, 0);
        lemma_has_word_index(s, q2, mv, 1);
        lemma_moves_stop_at_end(s);
        lemma_read_spaced_moves(s, q2, c.moves);
    } else {
        lemma_moves_stop_at_end(s);
        assert(c.moves =~= Seq::<Move>::empty());
    }
    match c.cpu {
        Some(n) => {
            let d = dec(n as nat);
            lemma_dec_digits(n as nat);
            assert(cpu =~= seq![' '] + d);
            lemma_has_word_split(s, q, seq![' '], d);
            lemma_has_word_index(s, q + 1, d, 0);
            lemma_blank_before(s, q, d);
            lemma_read_uint_dec(s, q + 1, n as nat, u64::MAX as int);
        },
        None => {
            if c.moves.len() > 0 {
                lemma_one_blank(s, q);
                assert(!is_digit(s[q + 1]));
            } else {
                lemma_no_blank(s, q);
            }
        },
    }
}

/// ` string T` at `pos`, running to the end, reads back.
pub proof fn lemma_string_text_reads(s: Seq<char>, pos: int, t: Seq<char>)
    requires
        0 <= pos,
        no_lead_blank(t),
        has_word(s, pos, " string "@ + t),
        pos + (" string "@ + t).len() == s.len(),
    ensures
        read_blanks(s, pos) == Some(pos + 1),
        has_word(s, pos + 1, "string"@),
        read_key(s, pos + 1, "string"@) == Some(pos + 8),
        s.subrange(pos + 8, s.len() as int) == t,
{
    reveal_strlit(" string ");
    reveal_strlit("string");
    assert(" string "@ + t =~= seq![' '] + "string"@ + (seq![' '] + t));
    lemma_has_word_split(s, pos, seq![' '] + "string"@, seq![' '] + t);
    lemma_word_text(s, pos, "string"@);
    lemma_has_word_split(s, pos + 7, seq![' '], t);
    if t.len() > 0 {
        lemma_has_word_index(s, pos + 8, t, 0);
    }
    lemma_blank_before(s, pos + 7, t);
}


// ---------------------------------------------------------------------------
// Steps of `info`

/// ` depth N` reads as the step that sets it.
proof fn lemma_info_depth(s: Seq<char>, pos: int, g: InfoFieldsV, v: u64)
    requires
        0 <= pos,
        has_word(s, pos, " depth "@ + dec(v as nat)),
        stops_at(s, pos + (" depth "@ + dec(v as nat)).len()),
    ensures
        read_info_step(s, pos, g) == Some((pos + (" depth "@ + dec(v as nat)).len(), InfoFieldsV { depth: Some(v), ..g })),
{
    reveal(read_info_item);
    reveal(read_info_item_more);
    reveal(read_info_item_last);
    reveal(read_score);
    reveal_strlit("depth");
    reveal_strlit(" depth ");
    assert(" depth "@ + dec(v as nat) =~= seq![' '] + "depth"@ + seq![' '] + dec(v as nat));
    lemma_stop_moves(s, pos + (" depth "@ + dec(v as nat)).len());
    lemma_keyed_text(s, pos, "depth"@, v);
}

/// ` seldepth N` reads as the step that sets it.
proof fn lemma_info_seldepth(s: Seq<char>, pos: int, g: InfoFieldsV, v: u64)
    requires
        0 <= pos,
        has_word(s, pos, " seldepth "@ + dec(v as nat)),
        stops_at(s, pos + (" seldepth "@ + dec(v as nat)).len()),
    ensures
        read_info_step(s, pos, g) == Some((pos + (" seldepth "@ + dec(v as nat)).len(), InfoFieldsV { seldepth: Some(v), ..g })),
{
    reveal(read_info_item);
    reveal(read_info_item_more);
    reveal(read_info_item_last);
    reveal(read_score);
    reveal_strlit("depth");
    reveal_strlit("seldepth");
    reveal_strlit(" seldepth ");
    assert(" seldepth "@ + dec(v as nat) =~= seq![' '] + "seldepth"@ + seq![' '] + dec(v as nat));
    lemma_stop_moves(s, pos + (" seldepth "@ + dec(v as nat)).len());
    lemma_keyed_text(s, pos, "seldepth"@, v);
    lemma_words_clash(s, pos + 1, "seldepth"@, "depth"@, 0);
}

/// ` time N` reads as the step that sets it.
proof fn lemma_info_time(s: Seq<char>, pos: int, g: InfoFieldsV, v: u64)
    requires
        0 <= pos,
        has_word(s, pos, " time "@ + dec(v as nat)),
        stops_at(s, pos + (" time "@ + dec(v as nat)).len()),
    ensures
        read_info_step(s, pos, g) == Some((pos + (" time "@ + dec(v as nat)).len(), InfoFieldsV { time: Some(v), ..g })),
{
    reveal(read_info_item);
    reveal(read_info_item_more);
    reveal(read_info_item_last);
    reveal(read_score);
    reveal_strlit("depth");
    reveal_strlit("seldepth");
    reveal_strlit("time");
    reveal_strlit(" time ");
    assert(" time "@ + dec(v as nat) =~= seq![' '] + "time"@ + seq![' '] + dec(v as nat));
    lemma_stop_moves(s, pos + (" time "@ + dec(v as nat)).len());
    lemma_keyed_text(s, pos, "time"@, v);
    lemma_words_clash(s, pos + 1, "time"@, "depth"@, 0);
    lemma_words_clash(s, pos + 1, "time"@, "seldepth"@, 0);
}

/// ` nodes N` reads as the step that sets it.
proof fn lemma_info_nodes(s: Seq<char>, pos: int, g: InfoFieldsV, v: u64)
    requires
        0 <= pos,
        has_word(s, pos, " nodes "@ + dec(v as nat)),
        stops_at(s, pos + (" nodes "@ + dec(v as nat)).len()),
    ensures
        read_info_step(s, pos, g) == Some((pos + (" nodes "@ + dec(v as nat)).len(), InfoFieldsV { nodes: Some(v), ..g })),
{
    reveal(read_info_item);
    reveal(read_info_item_more);
    reveal(read_info_item_last);
    reveal(read_score);
    reveal_strlit("depth");
    reveal_strlit("nodes");
    reveal_strlit("seldepth");
    reveal_strlit("time");
    reveal_strlit(" nodes ");
    assert(" nodes "@ + dec(v as nat) =~= seq![' '] + "nodes"@ + seq![' '] + dec(v as nat));
    lemma_stop_moves(s, pos + (" nodes "@ + dec(v as nat)).len());
    lemma_keyed_text(s, pos, "nodes"@, v);
    lemma_words_clash(s, pos + 1, "nodes"@, "depth"@, 0);
    lemma_words_clash(s, pos + 1, "nodes"@, "seldepth"@, 0);
    lemma_words_clash(s, pos + 1, "nodes"@, "time"@, 0);
}

/// ` pv M ...` reads as the step that sets it.
proof fn lemma_info_pv(s: Seq<char>, pos: int, g: InfoFieldsV, ms: Seq<Move>)
    requires
        0 <= pos,
        ms.len() > 0,
        has_word(s, pos, " pv "@ + join_moves(ms)),
        stops_at(s, pos + (" pv "@ + join_moves(ms)).len()),
    ensures
        read_info_step(s, pos, g) == Some((pos + (" pv "@ + join_moves(ms)).len(), InfoFieldsV { pv: Some(ms), ..g })),
{
    reveal(read_info_item);
    reveal(read_info_item_more);
    reveal(read_info_item_last);
    reveal(read_score);
    reveal_strlit("depth");
    reveal_strlit("nodes");
    reveal_strlit("pv");
    reveal_strlit("seldepth");
    reveal_strlit("time");
    reveal_strlit(" pv ");
    assert(" pv "@ + join_moves(ms) =~= seq![' '] + "pv"@ + seq![' '] + join_moves(ms));
    lemma_keyed_list_stop(s, pos, "pv"@, ms);
    lemma_words_clash(s, pos + 1, "pv"@, "depth"@, 0);
    lemma_words_clash(s, pos + 1, "pv"@, "seldepth"@, 0);
    lemma_words_clash(s, pos + 1, "pv"@, "time"@, 0);
    lemma_words_clash(s, pos + 1, "pv"@, "nodes"@, 0);
}

/// ` multipv N` reads as the step that sets it.
proof fn lemma_info_multipv(s: Seq<char>, pos: int, g: InfoFieldsV, v: u64)
    requires
        0 <= pos,
        has_word(s, pos, " multipv "@ + dec(v as nat)),
        stops_at(s, pos + (" multipv "@ + dec(v as nat)).len()),
    ensures
        read_info_step(s, pos, g) == Some((pos + (" multipv "@ + dec(v as nat)).len(), InfoFieldsV { multipv: Some(v), ..g })),
{
    reveal(read_info_item);
    reveal(read_info_item_more);
    reveal(read_info_item_last);
    reveal(read_score);
    reveal_strlit("depth");
    reveal_strlit("multipv");
    reveal_strlit("nodes");
    reveal_strlit("pv");
    reveal_strlit("seldepth");
    reveal_strlit("time");
    reveal_strlit(" multipv ");
    assert(" multipv "@ + dec(v as nat) =~= seq![' '] + "multipv"@ + seq![' '] + dec(v as nat));
    lemma_stop_moves(s, pos + (" multipv "@ + dec(v as nat)).len());
    lemma_keyed_text(s, pos, "multipv"@, v);
    lemma_words_clash(s, pos + 1, "multipv"@, "depth"@, 0);
    lemma_words_clash(s, pos + 1, "multipv"@, "seldepth"@, 0);
    lemma_words_clash(s, pos + 1, "multipv"@, "time"@, 0);
    lemma_words_clash(s, pos + 1, "multipv"@, "nodes"@, 0);
    lemma_words_clash(s, pos + 1, "multipv"@, "pv"@, 0);
}

/// ` score ...` reads as the step that sets it.
proof fn lemma_info_score(s: Seq<char>, pos: int, g: InfoFieldsV, sc: Score)
    requires
        0 <= pos,
        has_word(s, pos, score_text(sc)),
        stops_at(s, pos + score_text(sc).len()),
    ensures
        read_info_step(s, pos, g) == Some((pos + score_text(sc).len(), InfoFieldsV { score: Some(sc), ..g })),
{
    reveal(read_info_item);
    reveal(read_info_item_more);
    reveal(read_info_item_last);
    reveal(read_score);
    reveal_strlit("depth");
    reveal_strlit("multipv");
    reveal_strlit("nodes");
    reveal_strlit("pv");
    reveal_strlit("score");
    reveal_strlit("seldepth");
    reveal_strlit("time");
    lemma_score_text_reads(s, pos, sc);
    lemma_words_clash(s, pos + 1, "score"@, "depth"@, 0);
    lemma_words_clash(s, pos + 1, "score"@, "seldepth"@, 1);
    lemma_words_clash(s, pos + 1, "score"@, "time"@, 0);
    lemma_words_clash(s, pos + 1, "score"@, "nodes"@, 0);
    lemma_words_clash(s, pos + 1, "score"@, "pv"@, 0);
    lemma_words_clash(s, pos + 1, "score"@, "multipv"@, 0);
}

/// ` currmove M` reads as the step that sets it.
proof fn lemma_info_currmove(s: Seq<char>, pos: int, g: InfoFieldsV, m: Move)
    requires
        0 <= pos,
        has_word(s, pos, " currmove "@ + move_text(m)),
        stops_at(s, pos + (" currmove "@ + move_text(m)).len()),
    ensures
        read_info_step(s, pos, g) == Some((pos + (" currmove "@ + move_text(m)).len(), InfoFieldsV { currmove: Some(m), ..g })),
{
    reveal(read_info_item);
    reveal(read_info_item_more);
    reveal(read_info_item_last);
    reveal(read_score);
    reveal_strlit("currmove");
    reveal_strlit("depth");
    reveal_strlit("multipv");
    reveal_strlit("nodes");
    reveal_strlit("pv");
    reveal_strlit("score");
    reveal_strlit("seldepth");
    reveal_strlit("time");
    reveal_strlit(" currmove ");
    assert(" currmove "@ + move_text(m) =~= seq![' '] + "currmove"@ + seq![' '] + move_text(m));
    lemma_keyed_move(s, pos, "currmove"@, m);
    lemma_words_clash(s, pos + 1, "currmove"@, "depth"@, 0);
    lemma_words_clash(s, pos + 1, "currmove"@, "seldepth"@, 0);
    lemma_words_clash(s, pos + 1, "currmove"@, "time"@, 0);
    lemma_words_clash(s, pos + 1, "currmove"@, "nodes"@, 0);
    lemma_words_clash(s, pos + 1, "currmove"@, "pv"@, 0);
    lemma_words_clash(s, pos + 1, "currmove"@, "multipv"@, 0);
    lemma_words_clash(s, pos + 1, "currmove"@, "score"@, 0);
}

/// ` currmovenumber N` reads as the step that sets it.
proof fn lemma_info_currmovenumber(s: Seq<char>, pos: int, g: InfoFieldsV, v: u64)
    requires
        0 <= pos,
        has_word(s, pos, " currmovenumber "@ + dec(v as nat)),
        stops_at(s, pos + (" currmovenumber "@ + dec(v as nat)).len()),
    ensures
        read_info_step(s, pos, g) == Some((pos + (" currmovenumber "@ + dec(v as nat)).len(), InfoFieldsV { currmovenumber: Some(v), ..g })),
{
    reveal(read_info_item);
    reveal(read_info_item_more);
    reveal(read_info_item_last);
    reveal(read_score);
    reveal_strlit("currmove");
    reveal_strlit("currmovenumber");
    reveal_strlit("depth");
    reveal_strlit("multipv");
    reveal_strlit("nodes");
    reveal_strlit("pv");
    reveal_strlit("score");
    reveal_strlit("seldepth");
    reveal_strlit("time");
    reveal_strlit(" currmovenumber ");
    assert(" currmovenumber "@ + dec(v as nat) =~= seq![' '] + "currmovenumber"@ + seq![' '] + dec(v as nat));
    lemma_stop_moves(s, pos + (" currmovenumber "@ + dec(v as nat)).len());
    lemma_keyed_text(s, pos, "currmovenumber"@, v);
    lemma_words_clash(s, pos + 1, "currmovenumber"@, "depth"@, 0);
    lemma_words_clash(s, pos + 1, "currmovenumber"@, "seldepth"@, 0);
    lemma_words_clash(s, pos + 1, "currmovenumber"@, "time"@, 0);
    lemma_words_clash(s, pos + 1, "currmovenumber"@, "nodes"@, 0);
    lemma_words_clash(s, pos + 1, "currmovenumber"@, "pv"@, 0);
    lemma_words_clash(s, pos + 1, "currmovenumber"@, "multipv"@, 0);
    lemma_words_clash(s, pos + 1, "currmovenumber"@, "score"@, 0);
    assert("currmovenumber"@.subrange(0, 8) =~= "currmove"@);
    lemma_key_blank_fails(s, pos + 1, "currmovenumber"@, "currmove"@);
}

/// ` hashfull N` reads as the step that sets it.
proof fn lemma_info_hashfull(s: Seq<char>, pos: int, g: InfoFieldsV, v: u64)
    requires
        0 <= pos,
        has_word(s, pos, " hashfull "@ + dec(v as nat)),
        stops_at(s, pos + (" hashfull "@ + dec(v as nat)).len()),
    ensures
        read_info_step(s, pos, g) == Some((pos + (" hashfull "@ + dec(v as nat)).len(), InfoFieldsV { hashfull: Some(v), ..g })),
{
    reveal(read_info_item);
    reveal(read_info_item_more);
    reveal(read_info_item_last);
    reveal(read_score);
    reveal_strlit("currmove");
    reveal_strlit("currmovenumber");
    reveal_strlit("depth");
    reveal_strlit("hashfull");
    reveal_strlit("multipv");
    reveal_strlit("nodes");
    reveal_strlit("pv");
    reveal_strlit("score");
    reveal_strlit("seldepth");
    reveal_strlit("time");
    reveal_strlit(" hashfull ");
    assert(" hashfull "@ + dec(v as nat) =~= seq![' '] + "hashfull"@ + seq![' '] + dec(v as nat));
    lemma_stop_moves(s, pos + (" hashfull "@ + dec(v as nat)).len());
    lemma_keyed_text(s, pos, "hashfull"@, v);
    lemma_words_clash(s, pos + 1, "hashfull"@, "depth"@, 0);
    lemma_words_clash(s, pos + 1, "hashfull"@, "seldepth"@, 0);
    lemma_words_clash(s, pos + 1, "hashfull"@, "time"@, 0);
    lemma_words_clash(s, pos + 1, "hashfull"@, "nodes"@, 0);
    lemma_words_clash(s, pos + 1, "hashfull"@, "pv"@, 0);
    lemma_words_clash(s, pos + 1, "hashfull"@, "multipv"@, 0);
    lemma_words_clash(s, pos + 1, "hashfull"@, "score"@, 0);
    lemma_words_clash(s, pos + 1, "hashfull"@, "currmove"@, 0);
    lemma_words_clash(s, pos + 1, "hashfull"@, "currmovenumber"@, 0);
}

/// ` nps N` reads as the step that sets it.
proof fn lemma_info_nps(s: Seq<char>, pos: int, g: InfoFieldsV, v: u64)
    requires
        0 <= pos,
        has_word(s, pos, " nps "@ + dec(v as nat)),
        stops_at(s, pos + (" nps "@ + dec(v as nat)).len()),
    ensures
        read_info_step(s, pos, g) == Some((pos + (" nps "@ + dec(v as nat)).len(), InfoFieldsV { nps: Some(v), ..g })),
{
    reveal(read_info_item);
    reveal(read_info_item_more);
    reveal(read_info_item_last);
    reveal(read_score);
    reveal_strlit("currmove");
    reveal_strlit("currmovenumber");
    reveal_strlit("depth");
    reveal_strlit("hashfull");
    reveal_strlit("multipv");
    reveal_strlit("nodes");
    reveal_strlit("nps");
    reveal_strlit("pv");
    reveal_strlit("score");
    reveal_strlit("seldepth");
    reveal_strlit("time");
    reveal_strlit(" nps ");
    assert(" nps "@ + dec(v as nat) =~= seq![' '] + "nps"@ + seq![' '] + dec(v as nat));
    lemma_stop_moves(s, pos + (" nps "@ + dec(v as nat)).len());
    lemma_keyed_text(s, pos, "nps"@, v);
    lemma_words_clash(s, pos + 1, "nps"@, "depth"@, 0);
    lemma_words_clash(s, pos + 1, "nps"@, "seldepth"@, 0);
    lemma_words_clash(s, pos + 1, "nps"@, "time"@, 0);
    lemma_words_clash(s, pos + 1, "nps"@, "nodes"@, 1);
    lemma_words_clash(s, pos + 1, "nps"@, "pv"@, 0);
    lemma_words_clash(s, pos + 1, "nps"@, "multipv"@, 0);
    lemma_words_clash(s, pos + 1, "nps"@, "score"@, 0);
    lemma_words_clash(s, pos + 1, "nps"@, "currmove"@, 0);
    lemma_words_clash(s, pos + 1, "nps"@, "currmovenumber"@, 0);
    lemma_words_clash(s, pos + 1, "nps"@, "hashfull"@, 0);
}

/// ` tbhits N` reads as the step that sets it.
proof fn lemma_info_tbhits(s: Seq<char>, pos: int, g: InfoFieldsV, v: u64)
    requires
        0 <= pos,
        has_word(s, pos, " tbhits "@ + dec(v as nat)),
        stops_at(s, pos + (" tbhits "@ + dec(v as nat)).len()),
    ensures
        read_info_step(s, pos, g) == Some((pos + (" tbhits "@ + dec(v as nat)).len(), InfoFieldsV { tbhits: Some(v), ..g })),
{
    reveal(read_info_item);
    reveal(read_info_item_more);
    reveal(read_info_item_last);
    reveal(read_score);
    reveal_strlit("currmove");
    reveal_strlit("currmovenumber");
    reveal_strlit("depth");
    reveal_strlit("hashfull");
    reveal_strlit("multipv");
    reveal_strlit("nodes");
    reveal_strlit("nps");
    reveal_strlit("pv");
    reveal_strlit("score");
    reveal_strlit("seldepth");
    reveal_strlit("tbhits");
    reveal_strlit("time");
    reveal_strlit(" tbhits ");
    assert(" tbhits "@ + dec(v as nat) =~= seq![' '] + "tbhits"@ + seq![' '] + dec(v as nat));
    lemma_stop_moves(s, pos + (" tbhits "@ + dec(v as nat)).len());
    lemma_keyed_text(s, pos, "tbhits"@, v);
    lemma_words_clash(s, pos + 1, "tbhits"@, "depth"@, 0);
    lemma_words_clash(s, pos + 1, "tbhits"@, "seldepth"@, 0);
    lemma_words_clash(s, pos + 1, "tbhits"@, "time"@, 1);
    lemma_words_clash(s, pos + 1, "tbhits"@, "nodes"@, 0);
    lemma_words_clash(s, pos + 1, "tbhits"@, "pv"@, 0);
    lemma_words_clash(s, pos + 1, "tbhits"@, "multipv"@, 0);
    lemma_words_clash(s, pos + 1, "tbhits"@, "score"@, 0);
    lemma_words_clash(s, pos + 1, "tbhits"@, "currmove"@, 0);
    lemma_words_clash(s, pos + 1, "tbhits"@, "currmovenumber"@, 0);
    lemma_words_clash(s, pos + 1, "tbhits"@, "hashfull"@, 0);
    lemma_words_clash(s, pos + 1, "tbhits"@, "nps"@, 0);
}

/// ` sbhits N` reads as the step that sets it.
proof fn lemma_info_sbhits(s: Seq<char>, pos: int, g: InfoFieldsV, v: u64)
    requires
        0 <= pos,
        has_word(s, pos, " sbhits "@ + dec(v as nat)),
        stops_at(s, pos + (" sbhits "@ + dec(v as nat)).len()),
    ensures
        read_info_step(s, pos, g) == Some((pos + (" sbhits "@ + dec(v as nat)).len(), InfoFieldsV { sbhits: Some(v), ..g })),
{
    reveal(read_info_item);
    reveal(read_info_item_more);
    reveal(read_info_item_last);
    reveal(read_score);
    reveal_strlit("currmove");
    reveal_strlit("currmovenumber");
    reveal_strlit("depth");
    reveal_strlit("hashfull");
    reveal_strlit("multipv");
    reveal_strlit("nodes");
    reveal_strlit("nps");
    reveal_strlit("pv");
    reveal_strlit("sbhits");
    reveal_strlit("score");
    reveal_strlit("seldepth");
    reveal_strlit("tbhits");
    reveal_strlit("time");
    reveal_strlit(" sbhits ");
    assert(" sbhits "@ + dec(v as nat) =~= seq![' '] + "sbhits"@ + seq![' '] + dec(v as nat));
    lemma_stop_moves(s, pos + (" sbhits "@ + dec(v as nat)).len());
    lemma_keyed_text(s, pos, "sbhits"@, v);
    lemma_words_clash(s, pos + 1, "sbhits"@, "depth"@, 0);
    lemma_words_clash(s, pos + 1, "sbhits"@, "seldepth"@, 1);
    lemma_words_clash(s, pos + 1, "sbhits"@, "time"@, 0);
    lemma_words_clash(s, pos + 1, "sbhits"@, "nodes"@, 0);
    lemma_words_clash(s, pos + 1, "sbhits"@, "pv"@, 0);
    lemma_words_clash(s, pos + 1, "sbhits"@, "multipv"@, 0);
    lemma_words_clash(s, pos + 1, "sbhits"@, "score"@, 1);
    lemma_words_clash(s, pos + 1, "sbhits"@, "currmove"@, 0);
    lemma_words_clash(s, pos + 1, "sbhits"@, "currmovenumber"@, 0);
    lemma_words_clash(s, pos + 1, "sbhits"@, "hashfull"@, 0);
    lemma_words_clash(s, pos + 1, "sbhits"@, "nps"@, 0);
    lemma_words_clash(s, pos + 1, "sbhits"@, "tbhits"@, 0);
}

/// ` cpuload N` reads as the step that sets it.
proof fn lemma_info_cpuload(s: Seq<char>, pos: int, g: InfoFieldsV, v: u64)
    requires
        0 <= pos,
        has_word(s, pos, " cpuload "@ + dec(v as nat)),
        stops_at(s, pos + (" cpuload "@ + dec(v as nat)).len()),
    ensures
        read_info_step(s, pos, g) == Some((pos + (" cpuload "@ + dec(v as nat)).len(), InfoFieldsV { cpuload: Some(v), ..g })),
{
    reveal(read_info_item);
    reveal(read_info_item_more);
    reveal(read_info_item_last);
    reveal(read_score);
    reveal_strlit("cpuload");
    reveal_strlit("currmove");
    reveal_strlit("currmovenumber");
    reveal_strlit("depth");
    reveal_strlit("hashfull");
    reveal_strlit("multipv");
    reveal_strlit("nodes");
    reveal_strlit("nps");
    reveal_strlit("pv");
    reveal_strlit("sbhits");
    reveal_strlit("score");
    reveal_strlit("seldepth");
    reveal_strlit("tbhits");
    reveal_strlit("time");
    reveal_strlit(" cpuload ");
    assert(" cpuload "@ + dec(v as nat) =~= seq![' '] + "cpuload"@ + seq![' '] + dec(v as nat));
    lemma_stop_moves(s, pos + (" cpuload "@ + dec(v as nat)).len());
    lemma_keyed_text(s, pos, "cpuload"@, v);
    lemma_words_clash(s, pos + 1, "cpuload"@, "depth"@, 0);
    lemma_words_clash(s, pos + 1, "cpuload"@, "seldepth"@, 0);
    lemma_words_clash(s, pos + 1, "cpuload"@, "time"@, 0);
    lemma_words_clash(s, pos + 1, "cpuload"@, "nodes"@, 0);
    lemma_words_clash(s, pos + 1, "cpuload"@, "pv"@, 0);
    lemma_words_clash(s, pos + 1, "cpuload"@, "multipv"@, 0);
    lemma_words_clash(s, pos + 1, "cpuload"@, "score"@, 0);
    lemma_words_clash(s, pos + 1, "cpuload"@, "currmove"@, 1);
    lemma_words_clash(s, pos + 1, "cpuload"@, "currmovenumber"@, 1);
    lemma_words_clash(s, pos + 1, "cpuload"@, "hashfull"@, 0);
    lemma_words_clash(s, pos + 1, "cpuload"@, "nps"@, 0);
    lemma_words_clash(s, pos + 1, "cpuload"@, "tbhits"@, 0);
    lemma_words_clash(s, pos + 1, "cpuload"@, "sbhits"@, 0);
}

/// ` string T` reads as the step that sets it.
proof fn lemma_info_string(s: Seq<char>, pos: int, g: InfoFieldsV, t: Seq<char>)
    requires
        0 <= pos,
        no_lead_blank(t),
        has_word(s, pos, " string "@ + t),
        pos + (" string "@ + t).len() == s.len(),
    ensures
        read_info_step(s, pos, g) == Some((s.len() as int, InfoFieldsV { string: Some(t), ..g })),
{
    reveal(read_info_item);
    reveal(read_info_item_more);
    reveal(read_info_item_last);
    reveal(read_score);
    reveal_strlit("cpuload");
    reveal_strlit("currmove");
    reveal_strlit("currmovenumber");
    reveal_strlit("depth");
    reveal_strlit("hashfull");
    reveal_strlit("multipv");
    reveal_strlit("nodes");
    reveal_strlit("nps");
    reveal_strlit("pv");
    reveal_strlit("sbhits");
    reveal_strlit("score");
    reveal_strlit("seldepth");
    reveal_strlit("string");
    reveal_strlit("tbhits");
    reveal_strlit("time");
    lemma_string_text_reads(s, pos, t);
    lemma_words_clash(s, pos + 1, "string"@, "depth"@, 0);
    lemma_words_clash(s, pos + 1, "string"@, "seldepth"@, 1);
    lemma_words_clash(s, pos + 1, "string"@, "time"@, 0);
    lemma_words_clash(s, pos + 1, "string"@, "nodes"@, 0);
    lemma_words_clash(s, pos + 1, "string"@, "pv"@, 0);
    lemma_words_clash(s, pos + 1, "string"@, "multipv"@, 0);
    lemma_words_clash(s, pos + 1, "string"@, "score"@, 1);
    lemma_words_clash(s, pos + 1, "string"@, "currmove"@, 0);
    lemma_words_clash(s, pos + 1, "string"@, "currmovenumber"@, 0);
    lemma_words_clash(s, pos + 1, "string"@, "hashfull"@, 0);
    lemma_words_clash(s, pos + 1, "string"@, "nps"@, 0);
    lemma_words_clash(s, pos + 1, "string"@, "tbhits"@, 0);
    lemma_words_clash(s, pos + 1, "string"@, "sbhits"@, 1);
    lemma_words_clash(s, pos + 1, "string"@, "cpuload"@, 0);
}

/// ` refutation M ...` reads as the step that sets it.
proof fn lemma_info_refutation(s: Seq<char>, pos: int, g: InfoFieldsV, r: RefutationV)
    requires
        0 <= pos,
        has_word(s, pos, refutation_text(Some(r))),
        stops_at(s, pos + refutation_text(Some(r)).len()),
    ensures
        read_info_step(s, pos, g) == Some((pos + refutation_text(Some(r)).len(), InfoFieldsV { refutation: Some(r), ..g })),
{
    reveal(read_info_item);
    reveal(read_info_item_more);
    reveal(read_info_item_last);
    reveal(read_score);
    reveal_strlit("cpuload");
    reveal_strlit("currmove");
    reveal_strlit("currmovenumber");
    reveal_strlit("depth");
    reveal_strlit("hashfull");
    reveal_strlit("multipv");
    reveal_strlit("nodes");
    reveal_strlit("nps");
    reveal_strlit("pv");
    reveal_strlit("refutation");
    reveal_strlit("sbhits");
    reveal_strlit("score");
    reveal_strlit("seldepth");
    reveal_strlit("string");
    reveal_strlit("tbhits");
    reveal_strlit("time");
    lemma_refutation_text_reads(s, pos, r);
    lemma_words_clash(s, pos + 1, "refutation"@, "depth"@, 0);
    lemma_words_clash(s, pos + 1, "refutation"@, "seldepth"@, 0);
    lemma_words_clash(s, pos + 1, "refutation"@, "time"@, 0);
    lemma_words_clash(s, pos + 1, "refutation"@, "nodes"@, 0);
    lemma_words_clash(s, pos + 1, "refutation"@, "pv"@, 0);
    lemma_words_clash(s, pos + 1, "refutation"@, "multipv"@, 0);
    lemma_words_clash(s, pos + 1, "refutation"@, "score"@, 0);
    lemma_words_clash(s, pos + 1, "refutation"@, "currmove"@, 0);
    lemma_words_clash(s, pos + 1, "refutation"@, "currmovenumber"@, 0);
    lemma_words_clash(s, pos + 1, "refutation"@, "hashfull"@, 0);
    lemma_words_clash(s, pos + 1, "refutation"@, "nps"@, 0);
    lemma_words_clash(s, pos + 1, "refutation"@, "tbhits"@, 0);
    lemma_words_clash(s, pos + 1, "refutation"@, "sbhits"@, 0);
    lemma_words_clash(s, pos + 1, "refutation"@, "cpuload"@, 0);
    lemma_words_clash(s, pos + 1, "refutation"@, "string"@, 0);
}

/// ` currline ...` reads as the step that sets it.
proof fn lemma_info_currline(s: Seq<char>, pos: int, g: InfoFieldsV, c: CurrLineV)
    requires
        0 <= pos,
        has_word(s, pos, currline_text(Some(c))),
        pos + currline_text(Some(c)).len() == s.len(),
    ensures
        read_info_step(s, pos, g) == Some((s.len() as int, InfoFieldsV { currline: Some(c), ..g })),
{
    reveal(read_info_item);
    reveal(read_info_item_more);
    reveal(read_info_item_last);
    reveal(read_score);
    reveal_strlit("cpuload");
    reveal_strlit("currline");
    reveal_strlit("currmove");
    reveal_strlit("currmovenumber");
    reveal_strlit("depth");
    reveal_strlit("hashfull");
    reveal_strlit("multipv");
    reveal_strlit("nodes");
    reveal_strlit("nps");
    reveal_strlit("pv");
    reveal_strlit("refutation");
    reveal_strlit("sbhits");
    reveal_strlit("score");
    reveal_strlit("seldepth");
    reveal_strlit("string");
    reveal_strlit("tbhits");
    reveal_strlit("time");
    lemma_currline_text_reads(s, pos, c);
    lemma_words_clash(s, pos + 1, "currline"@, "depth"@, 0);
    lemma_words_clash(s, pos + 1, "currline"@, "seldepth"@, 0);
    lemma_words_clash(s, pos + 1, "currline"@, "time"@, 0);
    lemma_words_clash(s, pos + 1, "currline"@, "nodes"@, 0);
    lemma_words_clash(s, pos + 1, "currline"@, "pv"@, 0);
    lemma_words_clash(s, pos + 1, "currline"@, "multipv"@, 0);
    lemma_words_clash(s, pos + 1, "currline"@, "score"@, 0);
    lemma_words_clash(s, pos + 1, "currline"@, "currmove"@, 4);
    lemma_words_clash(s, pos + 1, "currline"@, "currmovenumber"@, 4);
    lemma_words_clash(s, pos + 1, "currline"@, "hashfull"@, 0);
    lemma_words_clash(s, pos + 1, "currline"@, "nps"@, 0);
    lemma_words_clash(s, pos + 1, "currline"@, "tbhits"@, 0);
    lemma_words_clash(s, pos + 1, "currline"@, "sbhits"@, 0);
    lemma_words_clash(s, pos + 1, "currline"@, "cpuload"@, 1);
    lemma_words_clash(s, pos + 1, "currline"@, "string"@, 0);
    lemma_words_clash(s, pos + 1, "currline"@, "refutation"@, 0);
}

// ---------------------------------------------------------------------------
// `info`

/// What `info` needs to read back as itself: a principal variation is not
/// empty; free text does not start with a blank, and nothing follows it.
pub open spec fn info_readable(f: InfoFieldsV) -> bool {
    &&& f.pv matches Some(ms) ==> ms.len() > 0
    &&& f.string matches Some(t) ==> no_lead_blank(t) && f.refutation is None && f.currline is None
}

/// Field `k` of `info` as text, empty when the field is not set.
pub open spec fn info_piece(f: InfoFieldsV, k: int) -> Seq<char> {
    if k == 0 {
        opt_field(" depth "@, f.depth)
    } else if k == 1 {
        opt_field(" seldepth "@, f.seldepth)
    } else if k == 2 {
        opt_field(" time "@, f.time)
    } else if k == 3 {
        opt_field(" nodes "@, f.nodes)
    } else if k == 4 {
        pv_text(f.pv)
    } else if k == 5 {
        opt_field(" multipv "@, f.multipv)
    } else if k == 6 {
        score_field(f.score)
    } else if k == 7 {
        currmove_text(f.currmove)
    } else if k == 8 {
        opt_field(" currmovenumber "@, f.currmovenumber)
    } else if k == 9 {
        opt_field(" hashfull "@, f.hashfull)
    } else if k == 10 {
        opt_field(" nps "@, f.nps)
    } else if k == 11 {
        opt_field(" tbhits "@, f.tbhits)
    } else if k == 12 {
        opt_field(" sbhits "@, f.sbhits)
    } else if k == 13 {
        opt_field(" cpuload "@, f.cpuload)
    } else if k == 14 {
        string_text(f.string)
    } else if k == 15 {
        refutation_text(f.refutation)
    } else if k == 16 {
        currline_text(f.currline)
    } else {
        seq![]
    }
}

/// The fields of `info` from `k` on, as text.
pub open spec fn info_rest(f: InfoFieldsV, k: int) -> Seq<char>
    decreases 17 - k,
{
    if k >= 17 {
        seq![]
    } else {
        info_piece(f, k) + info_rest(f, k + 1)
    }
}

/// The fields of `f` before `k`; the others unset.
pub open spec fn info_upto(f: InfoFieldsV, k: int) -> InfoFieldsV {
    InfoFieldsV {
        depth: if 0 < k { f.depth } else { None },
        seldepth: if 1 < k { f.seldepth } else { None },
        time: if 2 < k { f.time } else { None },
        nodes: if 3 < k { f.nodes } else { None },
        pv: if 4 < k { f.pv } else { None },
        multipv: if 5 < k { f.multipv } else { None },
        score: if 6 < k { f.score } else { None },
        currmove: if 7 < k { f.currmove } else { None },
        currmovenumber: if 8 < k { f.currmovenumber } else { None },
        hashfull: if 9 < k { f.hashfull } else { None },
        nps: if 10 < k { f.nps } else { None },
        tbhits: if 11 < k { f.tbhits } else { None },
        sbhits: if 12 < k { f.sbhits } else { None },
        cpuload: if 13 < k { f.cpuload } else { None },
        string: if 14 < k { f.string } else { None },
        refutation: if 15 < k { f.refutation } else { None },
        currline: if 16 < k { f.currline } else { None },
    }
}

/// A set field's text starts with a space and the first two letters of its key.
proof fn lemma_piece_shape(f: InfoFieldsV, k: int)
    requires
        0 <= k < 17,
    ensures
        info_piece(f, k).len() == 0 || (info_piece(f, k).len() >= 3 && info_piece(f, k)[0] == ' '
            && key_initial(info_piece(f, k)[1]) && !is_digit(info_piece(f, k)[2])),
        info_piece(f, k).len() == 0 ==> info_upto(f, k + 1) == info_upto(f, k),
{
    reveal_strlit(" cpuload ");
    reveal_strlit(" currline");
    reveal_strlit(" currline ");
    reveal_strlit(" currmove ");
    reveal_strlit(" currmovenumber ");
    reveal_strlit(" depth ");
    reveal_strlit(" hashfull ");
    reveal_strlit(" multipv ");
    reveal_strlit(" nodes ");
    reveal_strlit(" nps ");
    reveal_strlit(" pv ");
    reveal_strlit(" refutation ");
    reveal_strlit(" sbhits ");
    reveal_strlit(" score ");
    reveal_strlit(" score cp ");
    reveal_strlit(" score mate ");
    reveal_strlit(" seldepth ");
    reveal_strlit(" string ");
    reveal_strlit(" tbhits ");
    reveal_strlit(" time ");
}

/// A set field of `info` read as one step.
proof fn lemma_piece_step(s: Seq<char>, pos: int, f: InfoFieldsV, k: int)
    requires
        0 <= k < 17,
        0 <= pos,
        info_readable(f),
        info_piece(f, k).len() > 0,
        has_word(s, pos, info_piece(f, k)),
        stops_at(s, pos + info_piece(f, k).len()),
        k == 14 || k == 16 ==> pos + info_piece(f, k).len() == s.len(),
    ensures
        read_info_step(s, pos, info_upto(f, k)) == Some((pos + info_piece(f, k).len(), info_upto(f, k + 1))),
{
    let g = info_upto(f, k);
    if k == 0 {
        lemma_info_depth(s, pos, g, f.depth->0);
        assert(info_upto(f, k + 1) == InfoFieldsV { depth: f.depth, ..g });
    } else if k == 1 {
        lemma_info_seldepth(s, pos, g, f.seldepth->0);
        assert(info_upto(f, k + 1) == InfoFieldsV { seldepth: f.seldepth, ..g });
    } else if k == 2 {
        lemma_info_time(s, pos, g, f.time->0);
        assert(info_upto(f, k + 1) == InfoFieldsV { time: f.time, ..g });
    } else if k == 3 {
        lemma_info_nodes(s, pos, g, f.nodes->0);
        assert(info_upto(f, k + 1) == InfoFieldsV { nodes: f.nodes, ..g });
    } else if k == 4 {
        lemma_info_pv(s, pos, g, f.pv->0);
        assert(info_upto(f, k + 1) == InfoFieldsV { pv: f.pv, ..g });
    } else if k == 5 {
        lemma_info_multipv(s, pos, g, f.multipv->0);
        assert(info_upto(f, k + 1) == InfoFieldsV { multipv: f.multipv, ..g });
    } else if k == 6 {
        lemma_info_score(s, pos, g, f.score->0);
        assert(info_upto(f, k + 1) == InfoFieldsV { score: f.score, ..g });
    } else if k == 7 {
        lemma_info_currmove(s, pos, g, f.currmove->0);
        assert(info_upto(f, k + 1) == InfoFieldsV { currmove: f.currmove, ..g });
    } else if k == 8 {
        lemma_info_currmovenumber(s, pos, g, f.currmovenumber->0);
        assert(info_upto(f, k + 1) == InfoFieldsV { currmovenumber: f.currmovenumber, ..g });
    } else if k == 9 {
        lemma_info_hashfull(s, pos, g, f.hashfull->0);
        assert(info_upto(f, k + 1) == InfoFieldsV { hashfull: f.hashfull, ..g });
    } else if k == 10 {
        lemma_info_nps(s, pos, g, f.nps->0);
        assert(info_upto(f, k + 1) == InfoFieldsV { nps: f.nps, ..g });
    } else if k == 11 {
        lemma_info_tbhits(s, pos, g, f.tbhits->0);
        assert(info_upto(f, k + 1) == InfoFieldsV { tbhits: f.tbhits, ..g });
    } else if k == 12 {
        lemma_info_sbhits(s, pos, g, f.sbhits->0);
        assert(info_upto(f, k + 1) == InfoFieldsV { sbhits: f.sbhits, ..g });
    } else if k == 13 {
        lemma_info_cpuload(s, pos, g, f.cpuload->0);
        assert(info_upto(f, k + 1) == InfoFieldsV { cpuload: f.cpuload, ..g });
    } else if k == 14 {
        lemma_info_string(s, pos, g, f.string->0);
        assert(info_upto(f, k + 1) == InfoFieldsV { string: f.string, ..g });
    } else if k == 15 {
        lemma_info_refutation(s, pos, g, f.refutation->0);
        assert(info_upto(f, k + 1) == InfoFieldsV { refutation: f.refutation, ..g });
    } else if k == 16 {
        lemma_info_currline(s, pos, g, f.currline->0);
        assert(info_upto(f, k + 1) == InfoFieldsV { currline: f.currline, ..g });
    }
}

/// The fields from `k` on start, when any is set, with a space and the
/// first two letters of a key.
proof fn lemma_rest_shape(f: InfoFieldsV, k: int)
    requires
        0 <= k <= 17,
    ensures
        info_rest(f, k).len() == 0 || (info_rest(f, k).len() >= 3 && info_rest(f, k)[0] == ' '
            && key_initial(info_rest(f, k)[1]) && !is_digit(info_rest(f, k)[2])),
    decreases 17 - k,
{
    if k < 17 {
        lemma_piece_shape(f, k);
        lemma_rest_shape(f, k + 1);
    }
}

/// The fields of `info` from `k` on, running to the end, read back.
proof fn lemma_info_rest_reads(s: Seq<char>, pos: int, f: InfoFieldsV, k: int)
    requires
        0 <= k <= 17,
        0 <= pos,
        info_readable(f),
        has_word(s, pos, info_rest(f, k)),
        pos + info_rest(f, k).len() == s.len(),
    ensures
        read_info_items(s, pos, info_upto(f, k)) == (s.len() as int, f),
    decreases 17 - k,
{
    if k >= 17 {
        lemma_no_blank(s, pos);
        assert(info_upto(f, k) == f);
    } else {
        let piece = info_piece(f, k);
        let rest = info_rest(f, k + 1);
        lemma_has_word_split(s, pos, piece, rest);
        lemma_rest_shape(f, k + 1);
        let e = pos + piece.len();
        if rest.len() > 0 {
            lemma_has_word_index(s, e, rest, 0);
            lemma_has_word_index(s, e, rest, 1);
            lemma_has_word_index(s, e, rest, 2);
        }
        if k == 14 || k == 16 {
            reveal_with_fuel(info_rest, 4);
        }
        lemma_info_rest_reads(s, e, f, k + 1);
        lemma_piece_shape(f, k);
        if piece.len() > 0 {
            lemma_piece_step(s, pos, f, k);
        }
    }
}

/// `info` and its first `k` fields, as text.
pub open spec fn info_prefix(f: InfoFieldsV, k: int) -> Seq<char>
    decreases k,
{
    if k <= 0 {
        "info"@
    } else {
        info_prefix(f, k - 1) + info_piece(f, k - 1)
    }
}

proof fn lemma_info_prefix(f: InfoFieldsV, k: int)
    requires
        0 <= k <= 17,
    ensures
        info_prefix(f, k) + info_rest(f, k) == "info"@ + info_rest(f, 0),
    decreases k,
{
    if k > 0 {
        lemma_info_prefix(f, k - 1);
        assert(info_prefix(f, k - 1) + info_rest(f, k - 1) =~= info_prefix(f, k) + info_rest(f, k));
    }
}

/// The text of `info` is `info` and its fields in order.
proof fn lemma_info_text_fields(f: InfoFieldsV)
    ensures
        info_text(f) == "info"@ + info_rest(f, 0),
{
    reveal_with_fuel(info_prefix, 18);
    lemma_info_prefix(f, 17);
    assert(info_rest(f, 17) =~= Seq::<char>::empty());
    assert(info_prefix(f, 17) + info_rest(f, 17) =~= info_prefix(f, 17));
    assert(info_text(f) == info_prefix(f, 17));
}

/// `info` reads back from its text.
proof fn lemma_info_reads_back(f: InfoFieldsV)
    requires
        info_readable(f),
    ensures
        read_info(info_text(f)) == Some((info_text(f).len() as int, UciResponseV::Info(f))),
{
    reveal(read_info);
    reveal_strlit("info");
    let s = info_text(f);
    lemma_info_text_fields(f);
    lemma_whole(s);
    lemma_has_word_split(s, 0, "info"@, info_rest(f, 0));
    lemma_info_rest_reads(s, 4, f, 0);
    assert(info_upto(f, 0) == empty_info());
}

// ---------------------------------------------------------------------------
// `option`

/// The type part of `option`, after ` type `.
pub open spec fn type_text(t: OptionTypeV) -> Seq<char> {
    match t {
        OptionTypeV::Check { default } => "check default "@ + if default {
            "true"@
        } else {
            "false"@
        },
        OptionTypeV::Spin { default, min, max } => "spin default "@ + dec_signed(default as int)
            + " min "@ + dec_signed(min as int) + " max "@ + dec_signed(max as int),
        OptionTypeV::Combo { default, vars } => "combo default "@ + default + vars_text(vars),
        OptionTypeV::Button => "button"@,
        OptionTypeV::Str { default } => "string default "@ + match default {
            Some(d) => d,
            None => "<empty>"@,
        },
    }
}

/// The text of `option` is its name and ` type ` before the type part.
proof fn lemma_option_text_split(name: Seq<char>, t: OptionTypeV)
    ensures
        option_text(name, t) == "option name "@ + name + " type "@ + type_text(t),
{
    reveal_strlit(" type check default ");
    reveal_strlit(" type spin default ");
    reveal_strlit(" type combo default ");
    reveal_strlit(" type button");
    reveal_strlit(" type string default ");
    reveal_strlit(" type ");
    reveal_strlit("check default ");
    reveal_strlit("spin default ");
    reveal_strlit("combo default ");
    reveal_strlit("button");
    reveal_strlit("string default ");
    assert(option_text(name, t) =~= "option name "@ + name + " type "@ + type_text(t));
}

/// What a combo value needs to be read back as itself: no leading blank,
/// no trailing white space, no ` var`; and, unless it is the last value,
/// not empty.
pub open spec fn combo_values_readable(vars: Seq<Seq<char>>) -> bool {
    forall|i: int|
        0 <= i < vars.len() ==> {
            &&& no_lead_blank(#[trigger] vars[i])
            &&& no_trail_white(vars[i])
            &&& lacks(vars[i], " var"@)
            &&& i < vars.len() - 1 ==> vars[i].len() > 0
        }
}

/// What an option type needs to read back as itself: a combo default with
/// no leading blank, no trailing white space and no ` var`, not empty when
/// values follow, and values as `combo_values_readable` says; a string
/// default not empty, not `<empty>`, and with no leading blank.
pub open spec fn option_type_readable(t: OptionTypeV) -> bool {
    match t {
        OptionTypeV::Combo { default, vars } => {
            &&& no_lead_blank(default)
            &&& no_trail_white(default)
            &&& lacks(default, " var"@)
            &&& vars.len() > 0 ==> default.len() > 0
            &&& combo_values_readable(vars)
        },
        OptionTypeV::Str { default } => default matches Some(d) ==> d.len() > 0 && d
            != "<empty>"@ && no_lead_blank(d),
        _ => true,
    }
}

/// The values of a combo as text, the first value first.
proof fn lemma_vars_text_cons(vars: Seq<Seq<char>>)
    requires
        vars.len() > 0,
    ensures
        vars_text(vars) == " var "@ + vars[0] + vars_text(vars.drop_first()),
    decreases vars.len(),
{
    if vars.len() == 1 {
        assert(vars.drop_last() =~= Seq::<Seq<char>>::empty());
        assert(vars.drop_first() =~= Seq::<Seq<char>>::empty());
        assert(vars_text(vars) =~= " var "@ + vars[0] + vars_text(vars.drop_first()));
    } else {
        lemma_vars_text_cons(vars.drop_last());
        assert(vars.drop_last().drop_first() =~= vars.drop_first().drop_last());
        assert(vars.drop_first().last() == vars.last());
        assert(vars_text(vars) =~= " var "@ + vars[0] + vars_text(vars.drop_first()));
    }
}

/// Combo values, running to the end, read back.
proof fn lemma_read_vars(s: Seq<char>, pos: int, vars: Seq<Seq<char>>)
    requires
        0 <= pos,
        combo_values_readable(vars),
        has_word(s, pos, vars_text(vars)),
        pos + vars_text(vars).len() == s.len(),
    ensures
        read_more_vars(s, pos) == (s.len() as int, vars),
    decreases vars.len(),
{
    reveal_strlit(" var ");
    reveal_strlit(" var");
    reveal_strlit("var");
    if vars.len() == 0 {
        lemma_no_blank(s, pos);
        assert(vars =~= Seq::<Seq<char>>::empty());
    } else {
        let v = vars[0];
        let rest = vars_text(vars.drop_first());
        lemma_vars_text_cons(vars);
        assert(vars_text(vars) =~= seq![' '] + "var"@ + (seq![' '] + (v + rest)));
        lemma_has_word_split(s, pos, seq![' '] + "var"@, seq![' '] + (v + rest));
        lemma_word_text(s, pos, "var"@);
        assert(no_lead_blank(vars[0]));
        lemma_has_word_split(s, pos + 4, seq![' '], v + rest);
        if (v + rest).len() > 0 {
            lemma_has_word_index(s, pos + 5, v + rest, 0);
            if v.len() == 0 {
                assert(vars.drop_first().len() == 0);
            }
        }
        lemma_blank_before(s, pos + 4, v + rest);
        lemma_has_word_split(s, pos + 5, v, rest);
        let e = pos + 5 + v.len();
        if vars.drop_first().len() > 0 {
            lemma_vars_text_cons(vars.drop_first());
            assert(rest =~= " var"@ + (seq![' '] + vars.drop_first()[0] + vars_text(
                vars.drop_first().drop_first(),
            )));
            lemma_has_word_split(s, e, " var"@, seq![' '] + vars.drop_first()[0] + vars_text(
                vars.drop_first().drop_first(),
            ));
            lemma_find_after(s, pos + 5, v, " var"@);
        } else {
            assert(rest =~= Seq::<char>::empty());
            lemma_find_none_in(s, pos + 5, v, " var"@);
        }
        lemma_trim_keeps(s, pos + 5, v);
        assert(combo_value(s, pos + 5) == v);
        assert(combo_values_readable(vars.drop_first())) by {
            assert forall|i: int| 0 <= i < vars.drop_first().len() implies vars.drop_first()[i]
                == vars[i + 1] by {}
        }
        lemma_read_vars(s, e, vars.drop_first());
        assert(seq![v] + vars.drop_first() =~= vars);
    }
}

proof fn lemma_check_type_reads(s: Seq<char>, p: int, default: bool)
    requires
        0 <= p,
        option_type_readable(OptionTypeV::Check { default }),
        has_word(s, p, type_text(OptionTypeV::Check { default })),
        p + type_text(OptionTypeV::Check { default }).len() == s.len(),
    ensures
        read_check_opt(s, p) == Some((s.len() as int, OptionTypeV::Check { default })),
{
    reveal_strlit("check default ");
    reveal_strlit("check");
    reveal_strlit("default");
    reveal_strlit("true");
    reveal_strlit("false");
    let t = OptionTypeV::Check { default };
    let w: Seq<char> = if default {
        "true"@
    } else {
        "false"@
    };
    assert(type_text(t) =~= "check"@ + (seq![' '] + ("default"@ + (seq![' '] + w))));
    lemma_key_text_at(s, p, "check"@, "default"@ + (seq![' '] + w));
    lemma_key_text_at(s, p + 6, "default"@, w);
    if !default {
        lemma_words_clash(s, p + 14, "false"@, "true"@, 0);
    }
}

/// The type part of a spin option, its pieces grouped from the right.
pub open spec fn spin_chain(d1: Seq<char>, d2: Seq<char>, d3: Seq<char>) -> Seq<char> {
    let x6 = seq![' '] + d3;
    let x5 = "max"@ + x6;
    let x4 = seq![' '] + x5;
    let x3 = d2 + x4;
    let x2 = seq![' '] + x3;
    let x1 = "min"@ + x2;
    let x0 = seq![' '] + x1;
    let y2 = d1 + x0;
    let y1 = seq![' '] + y2;
    let y0 = "default"@ + y1;
    "spin"@ + (seq![' '] + y0)
}

proof fn lemma_spin_text(default: i64, min: i64, max: i64)
    ensures
        type_text(OptionTypeV::Spin { default, min, max }) == spin_chain(
            dec_signed(default as int),
            dec_signed(min as int),
            dec_signed(max as int),
        ),
{
    reveal_strlit("spin default ");
    reveal_strlit(" min ");
    reveal_strlit(" max ");
    reveal_strlit("spin");
    reveal_strlit("default");
    reveal_strlit("min");
    reveal_strlit("max");
    assert(type_text(OptionTypeV::Spin { default, min, max }) =~= spin_chain(
        dec_signed(default as int),
        dec_signed(min as int),
        dec_signed(max as int),
    ));
}

#[verifier::rlimit(40)]
proof fn lemma_spin_type_reads(s: Seq<char>, p: int, default: i64, min: i64, max: i64)
    requires
        0 <= p,
        option_type_readable(OptionTypeV::Spin { default, min, max }),
        has_word(s, p, type_text(OptionTypeV::Spin { default, min, max })),
        p + type_text(OptionTypeV::Spin { default, min, max }).len() == s.len(),
    ensures
        read_check_opt(s, p) is None,
        read_spin_opt(s, p) == Some((s.len() as int, OptionTypeV::Spin { default, min, max })),
{
    reveal_strlit("check");
    reveal_strlit("spin");
    reveal_strlit("default");
    reveal_strlit("min");
    reveal_strlit("max");
    let t = OptionTypeV::Spin { default, min, max };
    let d1 = dec_signed(default as int);
    let d2 = dec_signed(min as int);
    let d3 = dec_signed(max as int);
    let x6 = seq![' '] + d3;
    let x5 = "max"@ + x6;
    let x4 = seq![' '] + x5;
    let x3 = d2 + x4;
    let x2 = seq![' '] + x3;
    let x1 = "min"@ + x2;
    let x0 = seq![' '] + x1;
    let y2 = d1 + x0;
    let y1 = seq![' '] + y2;
    let y0 = "default"@ + y1;
    let z = seq![' '] + y0;
    lemma_spin_text(default, min, max);
    lemma_dec_signed_head(default as int);
    lemma_dec_signed_head(min as int);
    lemma_dec_signed_head(max as int);
    lemma_key_text_at(s, p, "spin"@, y0);
    lemma_words_clash(s, p, "spin"@, "check"@, 0);
    let q1 = p + 5;
    lemma_key_text_at(s, q1, "default"@, y2);
    let q2 = q1 + 8;
    lemma_int_then_key(s, q2, default as int, "min"@, x3);
    let q3 = q2 + d1.len() + 1;
    lemma_key_text_at(s, q3, "min"@, x3);
    let q4 = q3 + 4;
    lemma_int_then_key(s, q4, min as int, "max"@, d3);
    let q5 = q4 + d2.len() + 1;
    lemma_key_text_at(s, q5, "max"@, d3);
    let q6 = q5 + 4;
    lemma_read_int_dec(s, q6, max as int, i64::MIN as int, i64::MAX as int);
}

proof fn lemma_combo_type_reads(s: Seq<char>, p: int, default: Seq<char>, vars: Seq<Seq<char>>)
    requires
        0 <= p,
        option_type_readable(OptionTypeV::Combo { default, vars }),
        has_word(s, p, type_text(OptionTypeV::Combo { default, vars })),
        p + type_text(OptionTypeV::Combo { default, vars }).len() == s.len(),
    ensures
        read_check_opt(s, p) is None,
        read_spin_opt(s, p) is None,
        read_combo_opt(s, p) == Some((s.len() as int, OptionTypeV::Combo { default, vars })),
{
    reveal_strlit("combo default ");
    reveal_strlit("check");
    reveal_strlit("spin");
    reveal_strlit("combo");
    reveal_strlit("default");
    reveal_strlit(" var");
    reveal_strlit(" var ");
    let t = OptionTypeV::Combo { default, vars };
    assert(type_text(t) =~= "combo"@ + (seq![' '] + ("default"@ + (seq![' '] + (default
        + vars_text(vars))))));
    lemma_key_text_at(s, p, "combo"@, "default"@ + (seq![' '] + (default + vars_text(
        vars,
    ))));
    lemma_words_clash(s, p, "combo"@, "check"@, 1);
    lemma_words_clash(s, p, "combo"@, "spin"@, 0);
    let q1 = p + 6;
    if vars.len() > 0 {
        lemma_vars_text_cons(vars);
    }
    lemma_key_text_at(s, q1, "default"@, default + vars_text(vars));
    let q2 = q1 + 8;
    lemma_has_word_split(s, q2, default, vars_text(vars));
    let e = q2 + default.len();
    if vars.len() > 0 {
        assert(vars_text(vars) =~= " var"@ + (seq![' '] + vars[0] + vars_text(
            vars.drop_first(),
        )));
        lemma_has_word_split(s, e, " var"@, seq![' '] + vars[0] + vars_text(
            vars.drop_first(),
        ));
        lemma_find_after(s, q2, default, " var"@);
    } else {
        assert(vars_text(vars) =~= Seq::<char>::empty());
        lemma_find_none_in(s, q2, default, " var"@);
    }
    lemma_trim_keeps(s, q2, default);
    assert(combo_value(s, q2) == default);
    lemma_read_vars(s, e, vars);
}

proof fn lemma_str_type_reads(s: Seq<char>, p: int, default: Option<Seq<char>>)
    requires
        0 <= p,
        option_type_readable(OptionTypeV::Str { default }),
        has_word(s, p, type_text(OptionTypeV::Str { default })),
        p + type_text(OptionTypeV::Str { default }).len() == s.len(),
    ensures
        read_check_opt(s, p) is None,
        read_spin_opt(s, p) is None,
        read_combo_opt(s, p) is None,
        read_word(s, p, "button"@) is None,
        read_str_opt(s, p) == Some((s.len() as int, OptionTypeV::Str { default })),
{
    reveal_strlit("string default ");
    reveal_strlit("check");
    reveal_strlit("spin");
    reveal_strlit("combo");
    reveal_strlit("button");
    reveal_strlit("string");
    reveal_strlit("default");
    reveal_strlit("<empty>");
    let t = OptionTypeV::Str { default };
    let d: Seq<char> = match default {
        Some(x) => x,
        None => "<empty>"@,
    };
    assert(type_text(t) =~= "string"@ + (seq![' '] + ("default"@ + (seq![' '] + d))));
    lemma_key_text_at(s, p, "string"@, "default"@ + (seq![' '] + d));
    lemma_words_clash(s, p, "string"@, "check"@, 0);
    lemma_words_clash(s, p, "string"@, "spin"@, 1);
    lemma_words_clash(s, p, "string"@, "combo"@, 0);
    lemma_words_clash(s, p, "string"@, "button"@, 0);
    let q1 = p + 7;
    lemma_has_word_split(s, q1, "default"@, seq![' '] + d);
    lemma_has_word_split(s, q1 + 7, seq![' '], d);
    lemma_has_word_index(s, q1 + 8, d, 0);
    lemma_blank_before(s, q1 + 7, d);
    assert(s.subrange(q1 + 8, s.len() as int) == d);
}

/// The type part of `option`, running to the end, reads back.
proof fn lemma_option_type_reads(s: Seq<char>, p: int, t: OptionTypeV)
    requires
        0 <= p,
        option_type_readable(t),
        has_word(s, p, type_text(t)),
        p + type_text(t).len() == s.len(),
    ensures
        read_option_type(s, p) == Some((s.len() as int, t)),
{
    reveal(read_option_type);
    reveal_strlit("button");
    reveal_strlit("check");
    reveal_strlit("spin");
    reveal_strlit("combo");
    match t {
        OptionTypeV::Check { default } => {
            lemma_check_type_reads(s, p, default);
        },
        OptionTypeV::Spin { default, min, max } => {
            lemma_spin_type_reads(s, p, default, min, max);
        },
        OptionTypeV::Combo { default, vars } => {
            lemma_combo_type_reads(s, p, default, vars);
        },
        OptionTypeV::Button => {
            lemma_words_clash(s, p, "button"@, "check"@, 0);
            lemma_words_clash(s, p, "button"@, "spin"@, 0);
            lemma_words_clash(s, p, "button"@, "combo"@, 0);
        },
        OptionTypeV::Str { default } => {
            lemma_str_type_reads(s, p, default);
        },
    }
}

/// A signed number is written with at least one character, and not a blank first.
proof fn lemma_dec_signed_head(v: int)
    ensures
        dec_signed(v).len() > 0,
        !is_blank(dec_signed(v)[0]),
{
    if v >= 0 {
        lemma_dec_digits(v as nat);
    } else {
        lemma_dec_digits((-v) as nat);
    }
}

/// `key`, one blank and `rest` at `p`, `rest` starting with no blank.
proof fn lemma_key_text_at(s: Seq<char>, p: int, key: Seq<char>, rest: Seq<char>)
    requires
        0 <= p,
        has_word(s, p, key + (seq![' '] + rest)),
        no_lead_blank(rest),
        rest.len() > 0 || p + key.len() + 1 == s.len(),
    ensures
        read_key(s, p, key) == Some(p + key.len() + 1),
        has_word(s, p, key),
        has_word(s, p + key.len() + 1, rest),
{
    lemma_has_word_split(s, p, key, seq![' '] + rest);
    lemma_blank_before(s, p + key.len(), rest);
    lemma_has_word_split(s, p + key.len(), seq![' '], rest);
}

/// A signed number, one blank and a key at `p`.
proof fn lemma_int_then_key(s: Seq<char>, p: int, v: int, key: Seq<char>, rest: Seq<char>)
    requires
        0 <= p,
        i64::MIN <= v <= i64::MAX,
        key.len() > 0,
        !is_blank(key[0]),
        has_word(s, p, dec_signed(v) + (seq![' '] + (key + (seq![' '] + rest)))),
    ensures
        read_int_blanks(s, p) == Some((p + dec_signed(v).len() + 1, v as i64)),
        has_word(s, p + dec_signed(v).len() + 1, key + (seq![' '] + rest)),
{
    let d = dec_signed(v);
    lemma_has_word_split(s, p, d, seq![' '] + (key + (seq![' '] + rest)));
    let e = p + d.len();
    lemma_has_word_split(s, e, seq![' '], key + (seq![' '] + rest));
    lemma_has_word_index(s, e, seq![' '], 0);
    lemma_has_word_index(s, e + 1, key + (seq![' '] + rest), 0);
    lemma_read_int_dec(s, p, v, i64::MIN as int, i64::MAX as int);
    lemma_blank_before(s, e, key + (seq![' '] + rest));
}

// ---------------------------------------------------------------------------
// Responses

/// A response starting with `readyok` is read by none of the alternatives tried before it.
proof fn lemma_resp_before_readyok(s: Seq<char>)
    requires
        has_word(s, 0, "readyok"@),
    ensures
        read_bare_response(s, "uciok"@, UciResponseV::UciOk) is None,
{
    reveal_strlit("readyok");
    reveal_strlit("uciok");
    lemma_words_clash(s, 0, "readyok"@, "uciok"@, 0);
}

/// A response starting with `id` is read by none of the alternatives tried before it.
proof fn lemma_resp_before_id(s: Seq<char>)
    requires
        has_word(s, 0, "id"@),
    ensures
        read_bare_response(s, "uciok"@, UciResponseV::UciOk) is None,
        read_bare_response(s, "readyok"@, UciResponseV::ReadyOk) is None,
{
    reveal_strlit("id");
    reveal_strlit("readyok");
    reveal_strlit("uciok");
    lemma_words_clash(s, 0, "id"@, "uciok"@, 0);
    lemma_words_clash(s, 0, "id"@, "readyok"@, 0);
}

/// A response starting with `bestmove` is read by none of the alternatives tried before it.
proof fn lemma_resp_before_bestmove(s: Seq<char>)
    requires
        has_word(s, 0, "bestmove"@),
    ensures
        read_bare_response(s, "uciok"@, UciResponseV::UciOk) is None,
        read_bare_response(s, "readyok"@, UciResponseV::ReadyOk) is None,
        read_id(s) is None,
{
    reveal(read_id);
    reveal_strlit("bestmove");
    reveal_strlit("id");
    reveal_strlit("readyok");
    reveal_strlit("uciok");
    lemma_words_clash(s, 0, "bestmove"@, "uciok"@, 0);
    lemma_words_clash(s, 0, "bestmove"@, "readyok"@, 0);
    lemma_words_clash(s, 0, "bestmove"@, "id"@, 0);
}

/// A response starting with `copyprotection` is read by none of the alternatives tried before it.
proof fn lemma_resp_before_copyprotection(s: Seq<char>)
    requires
        has_word(s, 0, "copyprotection"@),
    ensures
        read_bare_response(s, "uciok"@, UciResponseV::UciOk) is None,
        read_bare_response(s, "readyok"@, UciResponseV::ReadyOk) is None,
        read_id(s) is None,
        read_bestmove(s) is None,
{
    reveal(read_id);
    reveal(read_bestmove);
    reveal_strlit("bestmove");
    reveal_strlit("copyprotection");
    reveal_strlit("id");
    reveal_strlit("readyok");
    reveal_strlit("uciok");
    lemma_words_clash(s, 0, "copyprotection"@, "uciok"@, 0);
    lemma_words_clash(s, 0, "copyprotection"@, "readyok"@, 0);
    lemma_words_clash(s, 0, "copyprotection"@, "id"@, 0);
    lemma_words_clash(s, 0, "copyprotection"@, "bestmove"@, 0);
}

/// A response starting with `registration` is read by none of the alternatives tried before it.
proof fn lemma_resp_before_registration(s: Seq<char>)
    requires
        has_word(s, 0, "registration"@),
    ensures
        read_bare_response(s, "uciok"@, UciResponseV::UciOk) is None,
        read_bare_response(s, "readyok"@, UciResponseV::ReadyOk) is None,
        read_id(s) is None,
        read_bestmove(s) is None,
        read_copyprotection(s) is None,
{
    reveal(read_id);
    reveal(read_bestmove);
    reveal(read_copyprotection);
    reveal_strlit("bestmove");
    reveal_strlit("copyprotection");
    reveal_strlit("id");
    reveal_strlit("readyok");
    reveal_strlit("registration");
    reveal_strlit("uciok");
    lemma_words_clash(s, 0, "registration"@, "uciok"@, 0);
    lemma_words_clash(s, 0, "registration"@, "readyok"@, 2);
    lemma_words_clash(s, 0, "registration"@, "id"@, 0);
    lemma_words_clash(s, 0, "registration"@, "bestmove"@, 0);
    lemma_words_clash(s, 0, "registration"@, "copyprotection"@, 0);
}

/// A response starting with `info` is read by none of the alternatives tried before it.
proof fn lemma_resp_before_info(s: Seq<char>)
    requires
        has_word(s, 0, "info"@),
    ensures
        read_bare_response(s, "uciok"@, UciResponseV::UciOk) is None,
        read_bare_response(s, "readyok"@, UciResponseV::ReadyOk) is None,
        read_id(s) is None,
        read_bestmove(s) is None,
        read_copyprotection(s) is None,
        read_registration(s) is None,
{
    reveal(read_id);
    reveal(read_bestmove);
    reveal(read_copyprotection);
    reveal(read_registration);
    reveal_strlit("bestmove");
    reveal_strlit("copyprotection");
    reveal_strlit("id");
    reveal_strlit("info");
    reveal_strlit("readyok");
    reveal_strlit("registration");
    reveal_strlit("uciok");
    lemma_words_clash(s, 0, "info"@, "uciok"@, 0);
    lemma_words_clash(s, 0, "info"@, "readyok"@, 0);
    lemma_words_clash(s, 0, "info"@, "id"@, 1);
    lemma_words_clash(s, 0, "info"@, "bestmove"@, 0);
    lemma_words_clash(s, 0, "info"@, "copyprotection"@, 0);
    lemma_words_clash(s, 0, "info"@, "registration"@, 0);
}

/// A response starting with `option` is read by none of the alternatives tried before it.
proof fn lemma_resp_before_option(s: Seq<char>)
    requires
        has_word(s, 0, "option"@),
    ensures
        read_bare_response(s, "uciok"@, UciResponseV::UciOk) is None,
        read_bare_response(s, "readyok"@, UciResponseV::ReadyOk) is None,
        read_id(s) is None,
        read_bestmove(s) is None,
        read_copyprotection(s) is None,
        read_registration(s) is None,
        read_info(s) is None,
{
    reveal(read_id);
    reveal(read_bestmove);
    reveal(read_copyprotection);
    reveal(read_registration);
    reveal(read_info);
    reveal_strlit("bestmove");
    reveal_strlit("copyprotection");
    reveal_strlit("id");
    reveal_strlit("info");
    reveal_strlit("option");
    reveal_strlit("readyok");
    reveal_strlit("registration");
    reveal_strlit("uciok");
    lemma_words_clash(s, 0, "option"@, "uciok"@, 0);
    lemma_words_clash(s, 0, "option"@, "readyok"@, 0);
    lemma_words_clash(s, 0, "option"@, "id"@, 0);
    lemma_words_clash(s, 0, "option"@, "bestmove"@, 0);
    lemma_words_clash(s, 0, "option"@, "copyprotection"@, 0);
    lemma_words_clash(s, 0, "option"@, "registration"@, 0);
    lemma_words_clash(s, 0, "option"@, "info"@, 0);
}

/// The name of an `option`, followed by its type part, reads back.
#[verifier::rlimit(80)]
proof fn lemma_option_reads_back(name: Seq<char>, t: OptionTypeV)
    requires
        name.len() > 0,
        no_lead_blank(name),
        no_trail_white(name),
        lacks(name, " type"@),
        option_type_readable(t),
    ensures
        read_option(option_text(name, t)) == Some(
            (option_text(name, t).len() as int, UciResponseV::Option { name, option_type: t }),
        ),
{
    reveal(read_option);
    reveal_strlit("option name ");
    reveal_strlit(" type ");
    reveal_strlit(" type");
    reveal_strlit("option");
    reveal_strlit("name");
    reveal_strlit("type");
    let s = option_text(name, t);
    let tt = type_text(t);
    lemma_option_text_split(name, t);
    assert(s =~= "option"@ + (seq![' '] + ("name"@ + (seq![' '] + (name + (" type"@ + (seq![
        ' ',
    ] + tt)))))));
    lemma_whole(s);
    lemma_key_text_at(s, 0, "option"@, "name"@ + (seq![' '] + (name + (" type"@ + (seq![' ']
        + tt)))));
    lemma_key_text_at(s, 7, "name"@, name + (" type"@ + (seq![' '] + tt)));
    lemma_has_word_split(s, 12, name, " type"@ + (seq![' '] + tt));
    let e = 12 + name.len() as int;
    lemma_has_word_split(s, e, " type"@, seq![' '] + tt);
    lemma_find_after(s, 12, name, " type"@);
    assert(" type"@ =~= seq![' '] + "type"@);
    lemma_word_text(s, e, "type"@);
    lemma_has_word_join(s, e + 1, "type"@, seq![' '] + tt);
    assert(tt.len() > 0 && !is_blank(tt[0])) by {
        reveal_strlit("check default ");
        reveal_strlit("spin default ");
        reveal_strlit("combo default ");
        reveal_strlit("button");
        reveal_strlit("string default ");
    }
    lemma_key_text_at(s, e + 1, "type"@, tt);
    lemma_trim_keeps(s, 12, name);
    lemma_option_type_reads(s, e + 6, t);
}

/// `bestmove M [ponder P]` reads back.
#[verifier::rlimit(80)]
proof fn lemma_bestmove_reads_back(mov: Move, ponder: Option<Move>)
    ensures
        read_bestmove(response_text(UciResponseV::BestMove { mov, ponder })) == Some(
            (
                response_text(UciResponseV::BestMove { mov, ponder }).len() as int,
                UciResponseV::BestMove { mov, ponder },
            ),
        ),
{
    reveal(read_bestmove);
    reveal_strlit("bestmove ");
    reveal_strlit(" ponder ");
    reveal_strlit("bestmove");
    reveal_strlit("ponder");
    let s = response_text(UciResponseV::BestMove { mov, ponder });
    let t = move_text(mov);
    let tail: Seq<char> = match ponder {
        Some(p) => " ponder "@ + move_text(p),
        None => seq![],
    };
    assert(s =~= "bestmove"@ + (seq![' '] + (t + tail)));
    lemma_whole(s);
    lemma_key_text_at(s, 0, "bestmove"@, t + tail);
    lemma_has_word_split(s, 9, t, tail);
    let e = 9 + t.len() as int;
    match ponder {
        Some(p) => {
            assert(tail =~= seq![' '] + "ponder"@ + seq![' '] + move_text(p));
            lemma_has_word_index(s, e, tail, 0);
            lemma_stop_moves(s, s.len() as int);
            lemma_keyed_move(s, e, "ponder"@, p);
        },
        None => {
            lemma_no_blank(s, e);
        },
    }
    lemma_read_move_text(s, 9, mov);
}

/// A check status after `key` and one blank reads back.
proof fn lemma_status_reads(s: Seq<char>, p: int, st: CheckStatus)
    requires
        0 <= p,
        has_word(s, p, status_text(st)),
    ensures
        read_status(s, p) == Some((p + status_text(st).len(), st)),
{
    reveal_strlit("checking");
    reveal_strlit("ok");
    reveal_strlit("error");
    match st {
        CheckStatus::Checking => {},
        CheckStatus::Okay => {
            lemma_words_clash(s, p, "ok"@, "checking"@, 0);
        },
        CheckStatus::Error => {
            lemma_words_clash(s, p, "error"@, "checking"@, 0);
            lemma_words_clash(s, p, "error"@, "ok"@, 0);
        },
    }
}

/// What a response needs to read back as itself from its text: a name or
/// author that does not start with a blank; an `info` as `info_readable`
/// says; an `option` name that is not empty, neither starts with a blank nor
/// ends with white space, and holds no ` type`, with a type as
/// `option_type_readable` says.
pub open spec fn response_readable(r: UciResponseV) -> bool {
    match r {
        UciResponseV::IdName(n) => no_lead_blank(n),
        UciResponseV::IdAuthor(a) => no_lead_blank(a),
        UciResponseV::Info(f) => info_readable(f),
        UciResponseV::Option { name, option_type } => {
            &&& name.len() > 0
            &&& no_lead_blank(name)
            &&& no_trail_white(name)
            &&& lacks(name, " type"@)
            &&& option_type_readable(option_type)
        },
        _ => true,
    }
}

/// A response written as text and read back is the same response, read to
/// the end of the text.
pub proof fn response_text_reads_back(r: UciResponseV)
    requires
        response_readable(r),
    ensures
        read_response(response_text(r)) == Some((response_text(r).len() as int, r)),
{
    let s = response_text(r);
    lemma_whole(s);
    reveal_strlit("uciok");
    reveal_strlit("readyok");
    match r {
        UciResponseV::UciOk => {},
        UciResponseV::ReadyOk => {
            lemma_resp_before_readyok(s);
        },
        UciResponseV::IdName(n) => {
            reveal(read_id);
            reveal_strlit("id name ");
            reveal_strlit("id");
            reveal_strlit("name");
            assert(s =~= "id"@ + (seq![' '] + ("name"@ + (seq![' '] + n))));
            lemma_key_text_at(s, 0, "id"@, "name"@ + (seq![' '] + n));
            lemma_key_text_at(s, 3, "name"@, n);
            lemma_resp_before_id(s);
        },
        UciResponseV::IdAuthor(a) => {
            reveal(read_id);
            reveal_strlit("id author ");
            reveal_strlit("id");
            reveal_strlit("name");
            reveal_strlit("author");
            assert(s =~= "id"@ + (seq![' '] + ("author"@ + (seq![' '] + a))));
            lemma_key_text_at(s, 0, "id"@, "author"@ + (seq![' '] + a));
            lemma_key_text_at(s, 3, "author"@, a);
            lemma_words_clash(s, 3, "author"@, "name"@, 0);
            lemma_resp_before_id(s);
        },
        UciResponseV::BestMove { mov, ponder } => {
            reveal_strlit("bestmove ");
            reveal_strlit("bestmove");
            assert(s =~= "bestmove"@ + s.subrange(8, s.len() as int));
            lemma_has_word_split(s, 0, "bestmove"@, s.subrange(8, s.len() as int));
            lemma_resp_before_bestmove(s);
            lemma_bestmove_reads_back(mov, ponder);
        },
        UciResponseV::CopyProtection(st) => {
            reveal(read_copyprotection);
            reveal_strlit("copyprotection ");
            reveal_strlit("copyprotection");
            assert(s =~= "copyprotection"@ + (seq![' '] + status_text(st)));
            reveal_strlit("checking");
            reveal_strlit("ok");
            reveal_strlit("error");
            lemma_key_text_at(s, 0, "copyprotection"@, status_text(st));
            lemma_resp_before_copyprotection(s);
            lemma_status_reads(s, 15, st);
        },
        UciResponseV::Registration(st) => {
            reveal(read_registration);
            reveal_strlit("registration ");
            reveal_strlit("registration");
            assert(s =~= "registration"@ + (seq![' '] + status_text(st)));
            reveal_strlit("checking");
            reveal_strlit("ok");
            reveal_strlit("error");
            lemma_key_text_at(s, 0, "registration"@, status_text(st));
            lemma_resp_before_registration(s);
            lemma_status_reads(s, 13, st);
        },
        UciResponseV::Info(f) => {
            reveal_strlit("info");
            lemma_info_text_fields(f);
            lemma_has_word_split(s, 0, "info"@, info_rest(f, 0));
            lemma_resp_before_info(s);
            lemma_info_reads_back(f);
        },
        UciResponseV::Option { name, option_type } => {
            reveal_strlit("option name ");
            reveal_strlit("option");
            lemma_option_text_split(name, option_type);
            assert(s =~= "option"@ + s.subrange(6, s.len() as int));
            lemma_has_word_split(s, 0, "option"@, s.subrange(6, s.len() as int));
            lemma_resp_before_option(s);
            lemma_option_reads_back(name, option_type);
        },
    }
}

} // verus!
