//! Reading responses, the messages an engine sends to a host.
//!
//! As with requests, a response is read from the start of a line, its
//! alternatives are tried in a fixed order, and what follows the part read is
//! left over.
use vstd::prelude::*;

use super::de::pick;
use super::grammar::{
    lemma_read_more_moves_bounds, lemma_read_move_bounds, parse_key, parse_keyed_uint,
    parse_move, parse_move_list, parse_more_moves, read_key, read_keyed_uint, read_more_moves,
    read_move, read_move_list,
};
use super::{
    CheckStatus, CurrLine, CurrLineV, InfoFields, InfoFieldsV, Move, OptionType, OptionTypeV,
    Refutation, RefutationV, Score, ScoreBound, UciResponse, UciResponseV,
};
use crate::text::{
    at_word, chars_of, eat_word, find_from, find_word, lemma_blank_run_bound, lemma_digit_run_bound,
    lemma_find_from, parse_blanks, parse_i64, parse_uint, push_str, read_blanks,
    read_int, read_uint, read_word, string_of, trim_end_at, trimmed_end, until_or_end,
};

verus! {

// ---------------------------------------------------------------------------
// The grammar

/// `checking`, `ok` or `error`.
pub open spec fn read_status(s: Seq<char>, p: int) -> Option<(int, CheckStatus)> {
    pick(
        match read_word(s, p, "checking"@) {
            Some(q) => Some((q, CheckStatus::Checking)),
            None => None,
        },
        pick(
            match read_word(s, p, "ok"@) {
                Some(q) => Some((q, CheckStatus::Okay)),
                None => None,
            },
            match read_word(s, p, "error"@) {
                Some(q) => Some((q, CheckStatus::Error)),
                None => None,
            },
        ),
    )
}

/// `id name N` or `id author A`, the value running to the end of the line.
#[verifier::opaque]
pub open spec fn read_id(s: Seq<char>) -> Option<(int, UciResponseV)> {
    match read_key(s, 0, "id"@) {
        None => None,
        Some(p) => pick(
            match read_key(s, p, "name"@) {
                Some(q) => Some(
                    (s.len() as int, UciResponseV::IdName(s.subrange(q, s.len() as int))),
                ),
                None => None,
            },
            match read_key(s, p, "author"@) {
                Some(q) => Some(
                    (s.len() as int, UciResponseV::IdAuthor(s.subrange(q, s.len() as int))),
                ),
                None => None,
            },
        ),
    }
}

/// The ponder part of `bestmove` at `pos`: blanks, `ponder`, blanks, a move.
pub open spec fn read_ponder(s: Seq<char>, pos: int) -> (int, Option<Move>) {
    match read_blanks(s, pos) {
        None => (pos, None),
        Some(p1) => match read_key(s, p1, "ponder"@) {
            None => (pos, None),
            Some(p2) => match read_move(s, p2) {
                None => (pos, None),
                Some((p3, m)) => (p3, Some(m)),
            },
        },
    }
}

/// `bestmove M [ponder P]`.
#[verifier::opaque]
pub open spec fn read_bestmove(s: Seq<char>) -> Option<(int, UciResponseV)> {
    match read_key(s, 0, "bestmove"@) {
        None => None,
        Some(p1) => match read_move(s, p1) {
            None => None,
            Some((p2, mov)) => {
                let (p3, ponder) = read_ponder(s, p2);
                Some((p3, UciResponseV::BestMove { mov, ponder }))
            },
        },
    }
}

/// `copyprotection S`.
#[verifier::opaque]
pub open spec fn read_copyprotection(s: Seq<char>) -> Option<(int, UciResponseV)> {
    match read_key(s, 0, "copyprotection"@) {
        None => None,
        Some(p) => match read_status(s, p) {
            None => None,
            Some((q, st)) => Some((q, UciResponseV::CopyProtection(st))),
        },
    }
}

/// `registration S`.
#[verifier::opaque]
pub open spec fn read_registration(s: Seq<char>) -> Option<(int, UciResponseV)> {
    match read_key(s, 0, "registration"@) {
        None => None,
        Some(p) => match read_status(s, p) {
            None => None,
            Some((q, st)) => Some((q, UciResponseV::Registration(st))),
        },
    }
}

/// `key`, blanks and a signed 64-bit number.
pub open spec fn read_keyed_int(s: Seq<char>, p: int, key: Seq<char>) -> Option<(int, i64)> {
    match read_key(s, p, key) {
        None => None,
        Some(q) => match read_int(s, q, i64::MIN as int, i64::MAX as int) {
            None => None,
            Some((q2, v)) => Some((q2, v as i64)),
        },
    }
}

/// The bound after a score at `pos`: blanks and `lowerbound` or `upperbound`;
/// exact when neither follows.
pub open spec fn read_bound(s: Seq<char>, pos: int) -> (int, ScoreBound) {
    match read_blanks(s, pos) {
        None => (pos, ScoreBound::Exact),
        Some(p1) => match read_word(s, p1, "lowerbound"@) {
            Some(q) => (q, ScoreBound::LowerBound),
            None => match read_word(s, p1, "upperbound"@) {
                Some(q) => (q, ScoreBound::UpperBound),
                None => (pos, ScoreBound::Exact),
            },
        },
    }
}

/// `score cp V [bound]` or `score mate M [bound]`; the number keeps its low
/// 32 bits.
#[verifier::opaque]
pub open spec fn read_score(s: Seq<char>, p: int) -> Option<(int, Score)> {
    match read_key(s, p, "score"@) {
        None => None,
        Some(q) => pick(
            match read_keyed_int(s, q, "cp"@) {
                None => None,
                Some((q2, v)) => {
                    let (q3, bound) = read_bound(s, q2);
                    Some((q3, Score::Centipawns { value: v as i32, bound }))
                },
            },
            match read_keyed_int(s, q, "mate"@) {
                None => None,
                Some((q2, v)) => {
                    let (q3, bound) = read_bound(s, q2);
                    Some((q3, Score::Mate { moves: v as i32, bound }))
                },
            },
        ),
    }
}

/// `refutation M [moves ...]`.
pub open spec fn read_refutation(s: Seq<char>, p: int) -> Option<(int, RefutationV)> {
    match read_key(s, p, "refutation"@) {
        None => None,
        Some(q) => match read_move(s, q) {
            None => None,
            Some((q2, mov)) => {
                let (q3, line) = read_more_moves(s, q2);
                Some((q3, RefutationV { mov, line }))
            },
        },
    }
}

/// The CPU number of `currline` at `pos`: blanks and a number, if both are there.
pub open spec fn read_cpu(s: Seq<char>, pos: int) -> (int, Option<u64>) {
    match read_blanks(s, pos) {
        None => (pos, None),
        Some(p1) => match read_uint(s, p1, u64::MAX as int) {
            None => (pos, None),
            Some((p2, v)) => (p2, Some(v as u64)),
        },
    }
}

/// `currline [cpu] [moves ...]`.
pub open spec fn read_currline(s: Seq<char>, p: int) -> Option<(int, CurrLineV)> {
    match read_word(s, p, "currline"@) {
        None => None,
        Some(q) => {
            let (q2, cpu) = read_cpu(s, q);
            let (q3, moves) = read_more_moves(s, q2);
            Some((q3, CurrLineV { cpu, moves }))
        },
    }
}

/// An `info` with no field set.
pub open spec fn empty_info() -> InfoFieldsV {
    InfoFieldsV {
        depth: None,
        seldepth: None,
        time: None,
        nodes: None,
        pv: None,
        multipv: None,
        score: None,
        currmove: None,
        currmovenumber: None,
        hashfull: None,
        nps: None,
        tbhits: None,
        sbhits: None,
        cpuload: None,
        string: None,
        refutation: None,
        currline: None,
    }
}

/// One `info` field at `p`, after the blanks before it; a field given twice
/// keeps its last value.
#[verifier::opaque]
pub open spec fn read_info_item(s: Seq<char>, p: int, f: InfoFieldsV) -> Option<(int, InfoFieldsV)> {
    pick(
        match read_keyed_uint(s, p, "depth"@) {
            Some((q, v)) => Some((q, InfoFieldsV { depth: Some(v), ..f })),
            None => None,
        },
        pick(
            match read_keyed_uint(s, p, "seldepth"@) {
                Some((q, v)) => Some((q, InfoFieldsV { seldepth: Some(v), ..f })),
                None => None,
            },
            pick(
                match read_keyed_uint(s, p, "time"@) {
                    Some((q, v)) => Some((q, InfoFieldsV { time: Some(v), ..f })),
                    None => None,
                },
                pick(
                    match read_keyed_uint(s, p, "nodes"@) {
                        Some((q, v)) => Some((q, InfoFieldsV { nodes: Some(v), ..f })),
                        None => None,
                    },
                    pick(
                        match read_key(s, p, "pv"@) {
                            None => None,
                            Some(q) => match read_move_list(s, q) {
                                None => None,
                                Some((q2, ms)) => Some((q2, InfoFieldsV { pv: Some(ms), ..f })),
                            },
                        },
                        pick(
                            match read_keyed_uint(s, p, "multipv"@) {
                                Some((q, v)) => Some((q, InfoFieldsV { multipv: Some(v), ..f })),
                                None => None,
                            },
                            read_info_item_more(s, p, f),
                        ),
                    ),
                ),
            ),
        ),
    )
}

/// The `info` fields after `multipv`, in the order they are tried.
#[verifier::opaque]
pub open spec fn read_info_item_more(s: Seq<char>, p: int, f: InfoFieldsV) -> Option<
    (int, InfoFieldsV),
> {
    pick(
        match read_score(s, p) {
            Some((q, v)) => Some((q, InfoFieldsV { score: Some(v), ..f })),
            None => None,
        },
        pick(
            match read_key(s, p, "currmove"@) {
                None => None,
                Some(q) => match read_move(s, q) {
                    None => None,
                    Some((q2, m)) => Some((q2, InfoFieldsV { currmove: Some(m), ..f })),
                },
            },
            pick(
                match read_keyed_uint(s, p, "currmovenumber"@) {
                    Some((q, v)) => Some((q, InfoFieldsV { currmovenumber: Some(v), ..f })),
                    None => None,
                },
                pick(
                    match read_keyed_uint(s, p, "hashfull"@) {
                        Some((q, v)) => Some((q, InfoFieldsV { hashfull: Some(v), ..f })),
                        None => None,
                    },
                    pick(
                        match read_keyed_uint(s, p, "nps"@) {
                            Some((q, v)) => Some((q, InfoFieldsV { nps: Some(v), ..f })),
                            None => None,
                        },
                        read_info_item_last(s, p, f),
                    ),
                ),
            ),
        ),
    )
}

/// The last `info` fields, in the order they are tried.
#[verifier::opaque]
pub open spec fn read_info_item_last(s: Seq<char>, p: int, f: InfoFieldsV) -> Option<
    (int, InfoFieldsV),
> {
    pick(
        match read_keyed_uint(s, p, "tbhits"@) {
            Some((q, v)) => Some((q, InfoFieldsV { tbhits: Some(v), ..f })),
            None => None,
        },
        pick(
            match read_keyed_uint(s, p, "sbhits"@) {
                Some((q, v)) => Some((q, InfoFieldsV { sbhits: Some(v), ..f })),
                None => None,
            },
            pick(
                match read_keyed_uint(s, p, "cpuload"@) {
                    Some((q, v)) => Some((q, InfoFieldsV { cpuload: Some(v), ..f })),
                    None => None,
                },
                pick(
                    match read_key(s, p, "string"@) {
                        Some(q) => Some(
                            (
                                s.len() as int,
                                InfoFieldsV {
                                    string: Some(s.subrange(q, s.len() as int)),
                                    ..f
                                },
                            ),
                        ),
                        None => None,
                    },
                    pick(
                        match read_refutation(s, p) {
                            Some((q, r)) => Some((q, InfoFieldsV { refutation: Some(r), ..f })),
                            None => None,
                        },
                        match read_currline(s, p) {
                            Some((q, c)) => Some((q, InfoFieldsV { currline: Some(c), ..f })),
                            None => None,
                        },
                    ),
                ),
            ),
        ),
    )
}

/// Blanks and one `info` field.
pub open spec fn read_info_step(s: Seq<char>, pos: int, f: InfoFieldsV) -> Option<(int, InfoFieldsV)> {
    match read_blanks(s, pos) {
        None => None,
        Some(p) => read_info_item(s, p, f),
    }
}

/// A number in a signed field read at `p` ends past `p` and within `s`.
pub proof fn lemma_keyed_int_bounds(s: Seq<char>, p: int, key: Seq<char>)
    requires
        0 <= p <= s.len(),
    ensures
        match read_keyed_int(s, p, key) {
            Some((q, _)) => p < q <= s.len(),
            None => true,
        },
{
    match read_word(s, p, key) {
        None => {},
        Some(p1) => {
            lemma_blank_run_bound(s, p1);
            match read_blanks(s, p1) {
                None => {},
                Some(p2) => {
                    lemma_digit_run_bound(s, p2);
                    lemma_digit_run_bound(s, p2 + 1);
                },
            }
        },
    }
}

/// A score read at `p` ends past `p` and within `s`.
pub proof fn lemma_score_bounds(s: Seq<char>, p: int)
    requires
        0 <= p <= s.len(),
    ensures
        match read_score(s, p) {
            Some((q, _)) => p < q <= s.len(),
            None => true,
        },
{
    reveal(read_score);
    match read_word(s, p, "score"@) {
        None => {},
        Some(p1) => {
            lemma_blank_run_bound(s, p1);
            match read_blanks(s, p1) {
                None => {},
                Some(q) => {
                    lemma_keyed_int_bounds(s, q, "cp"@);
                    lemma_keyed_int_bounds(s, q, "mate"@);
                    match read_keyed_int(s, q, "cp"@) {
                        None => {},
                        Some((q2, v)) => {
                            lemma_blank_run_bound(s, q2);
                        },
                    }
                    match read_keyed_int(s, q, "mate"@) {
                        None => {},
                        Some((q2, v)) => {
                            lemma_blank_run_bound(s, q2);
                        },
                    }
                },
            }
        },
    }
}

/// A step of `info` moves forward, and stays within `s`.
pub proof fn lemma_info_step_bounds(s: Seq<char>, pos: int, f: InfoFieldsV)
    requires
        0 <= pos <= s.len(),
    ensures
        match read_info_step(s, pos, f) {
            Some((p, _)) => pos < p <= s.len(),
            None => true,
        },
{
    reveal(read_info_item);
    reveal(read_info_item_more);
    reveal(read_info_item_last);
    lemma_blank_run_bound(s, pos);
    match read_blanks(s, pos) {
        None => {},
        Some(p) => {
            super::de::lemma_keyed_uint_bounds(s, p, "depth"@);
            super::de::lemma_keyed_uint_bounds(s, p, "seldepth"@);
            super::de::lemma_keyed_uint_bounds(s, p, "time"@);
            super::de::lemma_keyed_uint_bounds(s, p, "nodes"@);
            super::de::lemma_keyed_uint_bounds(s, p, "multipv"@);
            super::de::lemma_keyed_uint_bounds(s, p, "currmovenumber"@);
            super::de::lemma_keyed_uint_bounds(s, p, "hashfull"@);
            super::de::lemma_keyed_uint_bounds(s, p, "nps"@);
            super::de::lemma_keyed_uint_bounds(s, p, "tbhits"@);
            super::de::lemma_keyed_uint_bounds(s, p, "sbhits"@);
            super::de::lemma_keyed_uint_bounds(s, p, "cpuload"@);
            lemma_score_bounds(s, p);
            lemma_key_bounds(s, p, "pv"@);
            lemma_key_bounds(s, p, "currmove"@);
            lemma_key_bounds(s, p, "string"@);
            lemma_key_bounds(s, p, "refutation"@);
            match read_key(s, p, "pv"@) {
                None => {},
                Some(q) => {
                    lemma_read_move_bounds(s, q);
                    match read_move(s, q) {
                        None => {},
                        Some((q1, m)) => {
                            lemma_read_more_moves_bounds(s, q1);
                        },
                    }
                },
            }
            match read_key(s, p, "currmove"@) {
                None => {},
                Some(q) => {
                    lemma_read_move_bounds(s, q);
                },
            }
            match read_key(s, p, "refutation"@) {
                None => {},
                Some(q) => {
                    lemma_read_move_bounds(s, q);
                    match read_move(s, q) {
                        None => {},
                        Some((q1, m)) => {
                            lemma_read_more_moves_bounds(s, q1);
                        },
                    }
                },
            }
            match read_word(s, p, "currline"@) {
                None => {},
                Some(q) => {
                    lemma_blank_run_bound(s, q);
                    match read_blanks(s, q) {
                        None => {},
                        Some(q1) => {
                            lemma_digit_run_bound(s, q1);
                        },
                    }
                    lemma_read_more_moves_bounds(s, read_cpu(s, q).0);
                },
            }
        },
    }
}

/// A key and its blanks read at `p` end past `p` and within `s`.
pub proof fn lemma_key_bounds(s: Seq<char>, p: int, key: Seq<char>)
    requires
        0 <= p <= s.len(),
    ensures
        match read_key(s, p, key) {
            Some(q) => p < q <= s.len(),
            None => true,
        },
{
    match read_word(s, p, key) {
        None => {},
        Some(p1) => {
            lemma_blank_run_bound(s, p1);
        },
    }
}

/// The `info` fields from `pos` on, one step at a time, until a step fails.
pub open spec fn read_info_items(s: Seq<char>, pos: int, f: InfoFieldsV) -> (int, InfoFieldsV)
    decreases s.len() - pos,
    when 0 <= pos <= s.len()
{
    match read_info_step(s, pos, f) {
        None => (pos, f),
        Some((p, f2)) => {
            proof {
                lemma_info_step_bounds(s, pos, f);
            }
            read_info_items(s, p, f2)
        },
    }
}

/// `info` and its fields.
#[verifier::opaque]
pub open spec fn read_info(s: Seq<char>) -> Option<(int, UciResponseV)> {
    match read_word(s, 0, "info"@) {
        None => None,
        Some(p) => {
            let (q, f) = read_info_items(s, p, empty_info());
            Some((q, UciResponseV::Info(f)))
        },
    }
}

/// `check default true` or `check default false`.
pub open spec fn read_check_opt(s: Seq<char>, p: int) -> Option<(int, OptionTypeV)> {
    match read_key(s, p, "check"@) {
        None => None,
        Some(p1) => match read_key(s, p1, "default"@) {
            None => None,
            Some(p2) => pick(
                match read_word(s, p2, "true"@) {
                    Some(q) => Some((q, OptionTypeV::Check { default: true })),
                    None => None,
                },
                match read_word(s, p2, "false"@) {
                    Some(q) => Some((q, OptionTypeV::Check { default: false })),
                    None => None,
                },
            ),
        },
    }
}

/// A signed number at `p` followed by blanks.
pub open spec fn read_int_blanks(s: Seq<char>, p: int) -> Option<(int, i64)> {
    match read_int(s, p, i64::MIN as int, i64::MAX as int) {
        None => None,
        Some((q, v)) => match read_blanks(s, q) {
            None => None,
            Some(q2) => Some((q2, v as i64)),
        },
    }
}

/// `spin default D min A max B`.
pub open spec fn read_spin_opt(s: Seq<char>, p: int) -> Option<(int, OptionTypeV)> {
    match read_key(s, p, "spin"@) {
        None => None,
        Some(p1) => match read_key(s, p1, "default"@) {
            None => None,
            Some(p2) => match read_int_blanks(s, p2) {
                None => None,
                Some((p3, default)) => match read_key(s, p3, "min"@) {
                    None => None,
                    Some(p4) => match read_int_blanks(s, p4) {
                        None => None,
                        Some((p5, min)) => match read_key(s, p5, "max"@) {
                            None => None,
                            Some(p6) => match read_int(s, p6, i64::MIN as int, i64::MAX as int) {
                                None => None,
                                Some((p7, max)) => Some(
                                    (
                                        p7,
                                        OptionTypeV::Spin {
                                            default,
                                            min,
                                            max: max as i64,
                                        },
                                    ),
                                ),
                            },
                        },
                    },
                },
            },
        },
    }
}

/// The value of a combo from `p` up to the first ` var`, or to the end,
/// with trailing white space dropped.
pub open spec fn combo_value(s: Seq<char>, p: int) -> Seq<char> {
    s.subrange(p, trimmed_end(s, p, until_or_end(s, p, " var"@)))
}

/// ` var V` again and again at `pos`: the position after the last value, and
/// the values.
pub open spec fn read_more_vars(s: Seq<char>, pos: int) -> (int, Seq<Seq<char>>)
    decreases s.len() - pos,
    when 0 <= pos <= s.len()
{
    match read_blanks(s, pos) {
        None => (pos, seq![]),
        Some(p1) => match read_key(s, p1, "var"@) {
            None => (pos, seq![]),
            Some(p2) => {
                proof {
                    lemma_blank_run_bound(s, pos);
                    lemma_key_bounds(s, p1, "var"@);
                    lemma_find_from(s, p2, " var"@);
                }
                let e = until_or_end(s, p2, " var"@);
                let (p3, vars) = read_more_vars(s, e);
                (p3, seq![combo_value(s, p2)] + vars)
            },
        },
    }
}

/// `combo default D [var V ...]`.
pub open spec fn read_combo_opt(s: Seq<char>, p: int) -> Option<(int, OptionTypeV)> {
    match read_key(s, p, "combo"@) {
        None => None,
        Some(p1) => match read_key(s, p1, "default"@) {
            None => None,
            Some(p2) => {
                let (p3, vars) = read_more_vars(s, until_or_end(s, p2, " var"@));
                Some((p3, OptionTypeV::Combo { default: combo_value(s, p2), vars }))
            },
        },
    }
}

/// `string default [D]`: no default when it is missing, empty, or `<empty>`.
pub open spec fn read_str_opt(s: Seq<char>, p: int) -> Option<(int, OptionTypeV)> {
    match read_key(s, p, "string"@) {
        None => None,
        Some(p1) => match read_word(s, p1, "default"@) {
            None => None,
            Some(p2) => match read_blanks(s, p2) {
                None => Some((p2, OptionTypeV::Str { default: None })),
                Some(p3) => {
                    let t = s.subrange(p3, s.len() as int);
                    Some(
                        (
                            s.len() as int,
                            OptionTypeV::Str {
                                default: if t.len() > 0 && t != "<empty>"@ {
                                    Some(t)
                                } else {
                                    None
                                },
                            },
                        ),
                    )
                },
            },
        },
    }
}

/// The type of an option: check, spin, combo, button and string are tried
/// in this order.
#[verifier::opaque]
pub open spec fn read_option_type(s: Seq<char>, p: int) -> Option<(int, OptionTypeV)> {
    pick(
        read_check_opt(s, p),
        pick(
            read_spin_opt(s, p),
            pick(
                read_combo_opt(s, p),
                pick(
                    match read_word(s, p, "button"@) {
                        Some(q) => Some((q, OptionTypeV::Button)),
                        None => None,
                    },
                    read_str_opt(s, p),
                ),
            ),
        ),
    )
}

/// `option name N type T`: the name runs up to the first ` type`, with
/// trailing white space dropped.
#[verifier::opaque]
pub open spec fn read_option(s: Seq<char>) -> Option<(int, UciResponseV)> {
    match read_key(s, 0, "option"@) {
        None => None,
        Some(p1) => match read_key(s, p1, "name"@) {
            None => None,
            Some(p2) => match find_from(s, p2, " type"@) {
                None => None,
                Some(e) => match read_blanks(s, e) {
                    None => None,
                    Some(p3) => match read_key(s, p3, "type"@) {
                        None => None,
                        Some(p4) => match read_option_type(s, p4) {
                            None => None,
                            Some((p5, option_type)) => Some(
                                (
                                    p5,
                                    UciResponseV::Option {
                                        name: s.subrange(p2, trimmed_end(s, p2, e)),
                                        option_type,
                                    },
                                ),
                            ),
                        },
                    },
                },
            },
        },
    }
}

/// A response with no parameters: `word` at the start of `s`.
pub open spec fn read_bare_response(s: Seq<char>, word: Seq<char>, r: UciResponseV) -> Option<
    (int, UciResponseV),
> {
    match read_word(s, 0, word) {
        Some(p) => Some((p, r)),
        None => None,
    }
}

/// A response at the start of `s`, and where it ends: `uciok`, `readyok`,
/// `id`, `bestmove`, `copyprotection`, `registration`, `info` and `option`
/// are tried in this order.
pub open spec fn read_response(s: Seq<char>) -> Option<(int, UciResponseV)> {
    pick(
        read_bare_response(s, "uciok"@, UciResponseV::UciOk),
        pick(
            read_bare_response(s, "readyok"@, UciResponseV::ReadyOk),
            pick(
                read_id(s),
                pick(
                    read_bestmove(s),
                    pick(
                        read_copyprotection(s),
                        pick(read_registration(s), pick(read_info(s), read_option(s))),
                    ),
                ),
            ),
        ),
    )
}

// ---------------------------------------------------------------------------
// Reading

fn parse_status(s: &Vec<char>, p: usize) -> (r: Option<(usize, CheckStatus)>)
    requires
        p <= s@.len(),
    ensures
        match r {
            Some((q, st)) => read_status(s@, p as int) == Some((q as int, st)) && q <= s@.len(),
            None => read_status(s@, p as int) is None,
        },
{
    if let Some(q) = eat_word(s, p, "checking") {
        return Some((q, CheckStatus::Checking));
    }
    if let Some(q) = eat_word(s, p, "ok") {
        return Some((q, CheckStatus::Okay));
    }
    if let Some(q) = eat_word(s, p, "error") {
        return Some((q, CheckStatus::Error));
    }
    None
}

fn parse_id(s: &Vec<char>) -> (r: Option<(usize, UciResponse)>)
    ensures
        match r {
            Some((p, resp)) => read_id(s@) == Some((p as int, resp@)) && p <= s@.len(),
            None => read_id(s@) is None,
        },
{
    reveal(read_id);
    let p = match parse_key(s, 0, "id") {
        None => {
            return None;
        },
        Some(p) => p,
    };
    let n = s.len();
    if let Some(q) = parse_key(s, p, "name") {
        return Some((n, UciResponse::IdName(string_of(s, q, n))));
    }
    if let Some(q) = parse_key(s, p, "author") {
        return Some((n, UciResponse::IdAuthor(string_of(s, q, n))));
    }
    None
}

fn parse_bestmove(s: &Vec<char>) -> (r: Option<(usize, UciResponse)>)
    ensures
        match r {
            Some((p, resp)) => read_bestmove(s@) == Some((p as int, resp@)) && p <= s@.len(),
            None => read_bestmove(s@) is None,
        },
{
    reveal(read_bestmove);
    let p1 = match parse_key(s, 0, "bestmove") {
        None => {
            return None;
        },
        Some(p) => p,
    };
    let (p2, mov) = match parse_move(s, p1) {
        None => {
            return None;
        },
        Some(x) => x,
    };
    let mut end = p2;
    let mut ponder: Option<Move> = None;
    if let Some(q1) = parse_blanks(s, p2) {
        if let Some(q2) = parse_key(s, q1, "ponder") {
            if let Some((q3, m)) = parse_move(s, q2) {
                end = q3;
                ponder = Some(m);
            }
        }
    }
    assert(read_ponder(s@, p2 as int) == (end as int, ponder));
    Some((end, UciResponse::BestMove { mov, ponder }))
}

fn parse_check_response(s: &Vec<char>, copy: bool) -> (r: Option<(usize, UciResponse)>)
    ensures
        copy ==> match r {
            Some((p, resp)) => read_copyprotection(s@) == Some((p as int, resp@)) && p
                <= s@.len(),
            None => read_copyprotection(s@) is None,
        },
        !copy ==> match r {
            Some((p, resp)) => read_registration(s@) == Some((p as int, resp@)) && p <= s@.len(),
            None => read_registration(s@) is None,
        },
{
    reveal(read_copyprotection);
    reveal(read_registration);
    let key = if copy {
        "copyprotection"
    } else {
        "registration"
    };
    let p = match parse_key(s, 0, key) {
        None => {
            return None;
        },
        Some(p) => p,
    };
    match parse_status(s, p) {
        None => None,
        Some((q, st)) => if copy {
            Some((q, UciResponse::CopyProtection(st)))
        } else {
            Some((q, UciResponse::Registration(st)))
        },
    }
}

fn parse_keyed_int(s: &Vec<char>, p: usize, key: &str) -> (r: Option<(usize, i64)>)
    requires
        p <= s@.len(),
    ensures
        match r {
            Some((q, v)) => read_keyed_int(s@, p as int, key@) == Some((q as int, v)) && q
                <= s@.len(),
            None => read_keyed_int(s@, p as int, key@) is None,
        },
{
    let q = match parse_key(s, p, key) {
        None => {
            return None;
        },
        Some(q) => q,
    };
    parse_i64(s, q)
}

fn parse_bound(s: &Vec<char>, pos: usize) -> (r: (usize, ScoreBound))
    requires
        pos <= s@.len(),
    ensures
        read_bound(s@, pos as int) == (r.0 as int, r.1),
        r.0 <= s@.len(),
{
    if let Some(p1) = parse_blanks(s, pos) {
        if let Some(q) = eat_word(s, p1, "lowerbound") {
            return (q, ScoreBound::LowerBound);
        }
        if let Some(q) = eat_word(s, p1, "upperbound") {
            return (q, ScoreBound::UpperBound);
        }
    }
    (pos, ScoreBound::Exact)
}

fn parse_score(s: &Vec<char>, p: usize) -> (r: Option<(usize, Score)>)
    requires
        p <= s@.len(),
    ensures
        match r {
            Some((q, sc)) => read_score(s@, p as int) == Some((q as int, sc)) && q <= s@.len(),
            None => read_score(s@, p as int) is None,
        },
{
    reveal(read_score);
    let q = match parse_key(s, p, "score") {
        None => {
            return None;
        },
        Some(q) => q,
    };
    if let Some((q2, v)) = parse_keyed_int(s, q, "cp") {
        let (q3, bound) = parse_bound(s, q2);
        return Some((q3, Score::Centipawns { value: v as i32, bound }));
    }
    if let Some((q2, v)) = parse_keyed_int(s, q, "mate") {
        let (q3, bound) = parse_bound(s, q2);
        return Some((q3, Score::Mate { moves: v as i32, bound }));
    }
    None
}

fn parse_refutation(s: &Vec<char>, p: usize) -> (r: Option<(usize, Refutation)>)
    requires
        p <= s@.len(),
    ensures
        match r {
            Some((q, rf)) => read_refutation(s@, p as int) == Some((q as int, rf@)) && q
                <= s@.len(),
            None => read_refutation(s@, p as int) is None,
        },
{
    let q = match parse_key(s, p, "refutation") {
        None => {
            return None;
        },
        Some(q) => q,
    };
    let (q2, mov) = match parse_move(s, q) {
        None => {
            return None;
        },
        Some(x) => x,
    };
    let (q3, line) = parse_more_moves(s, q2);
    Some((q3, Refutation { mov, line }))
}

fn parse_currline(s: &Vec<char>, p: usize) -> (r: Option<(usize, CurrLine)>)
    requires
        p <= s@.len(),
    ensures
        match r {
            Some((q, cl)) => read_currline(s@, p as int) == Some((q as int, cl@)) && q
                <= s@.len(),
            None => read_currline(s@, p as int) is None,
        },
{
    let q = match eat_word(s, p, "currline") {
        None => {
            return None;
        },
        Some(q) => q,
    };
    let mut q2 = q;
    let mut cpu: Option<u64> = None;
    if let Some(q1) = parse_blanks(s, q) {
        if let Some((e, v)) = parse_uint(s, q1, u64::MAX) {
            q2 = e;
            cpu = Some(v);
        }
    }
    assert(read_cpu(s@, q as int) == (q2 as int, cpu));
    let (q3, moves) = parse_more_moves(s, q2);
    Some((q3, CurrLine { cpu, moves }))
}

/// Reads one `info` field after its blanks (see `read_info_item`), and
/// records it in `f`; `f` is left alone when none reads.
fn parse_info_item(s: &Vec<char>, p: usize, f: &mut InfoFields) -> (r: Option<usize>)
    requires
        p <= s@.len(),
    ensures
        match r {
            Some(q) => read_info_item(s@, p as int, old(f)@) == Some((q as int, final(f)@)) && q
                <= s@.len(),
            None => read_info_item(s@, p as int, old(f)@) is None && final(f)@ == old(f)@,
        },
{
    reveal(read_info_item);
    if let Some((q, v)) = parse_keyed_uint(s, p, "depth") {
        f.depth = Some(v);
        return Some(q);
    }
    if let Some((q, v)) = parse_keyed_uint(s, p, "seldepth") {
        f.seldepth = Some(v);
        return Some(q);
    }
    if let Some((q, v)) = parse_keyed_uint(s, p, "time") {
        f.time = Some(v);
        return Some(q);
    }
    if let Some((q, v)) = parse_keyed_uint(s, p, "nodes") {
        f.nodes = Some(v);
        return Some(q);
    }
    if let Some(q) = parse_key(s, p, "pv") {
        if let Some((q2, ms)) = parse_move_list(s, q) {
            f.pv = Some(ms);
            return Some(q2);
        }
    }
    if let Some((q, v)) = parse_keyed_uint(s, p, "multipv") {
        f.multipv = Some(v);
        return Some(q);
    }
    parse_info_item_more(s, p, f)
}

fn parse_info_item_more(s: &Vec<char>, p: usize, f: &mut InfoFields) -> (r: Option<usize>)
    requires
        p <= s@.len(),
    ensures
        match r {
            Some(q) => read_info_item_more(s@, p as int, old(f)@) == Some((q as int, final(f)@))
                && q <= s@.len(),
            None => read_info_item_more(s@, p as int, old(f)@) is None && final(f)@ == old(f)@,
        },
{
    reveal(read_info_item_more);
    if let Some((q, v)) = parse_score(s, p) {
        f.score = Some(v);
        return Some(q);
    }
    if let Some(q) = parse_key(s, p, "currmove") {
        if let Some((q2, m)) = parse_move(s, q) {
            f.currmove = Some(m);
            return Some(q2);
        }
    }
    if let Some((q, v)) = parse_keyed_uint(s, p, "currmovenumber") {
        f.currmovenumber = Some(v);
        return Some(q);
    }
    if let Some((q, v)) = parse_keyed_uint(s, p, "hashfull") {
        f.hashfull = Some(v);
        return Some(q);
    }
    if let Some((q, v)) = parse_keyed_uint(s, p, "nps") {
        f.nps = Some(v);
        return Some(q);
    }
    parse_info_item_last(s, p, f)
}

fn parse_info_item_last(s: &Vec<char>, p: usize, f: &mut InfoFields) -> (r: Option<usize>)
    requires
        p <= s@.len(),
    ensures
        match r {
            Some(q) => read_info_item_last(s@, p as int, old(f)@) == Some((q as int, final(f)@))
                && q <= s@.len(),
            None => read_info_item_last(s@, p as int, old(f)@) is None && final(f)@ == old(f)@,
        },
{
    reveal(read_info_item_last);
    if let Some((q, v)) = parse_keyed_uint(s, p, "tbhits") {
        f.tbhits = Some(v);
        return Some(q);
    }
    if let Some((q, v)) = parse_keyed_uint(s, p, "sbhits") {
        f.sbhits = Some(v);
        return Some(q);
    }
    if let Some((q, v)) = parse_keyed_uint(s, p, "cpuload") {
        f.cpuload = Some(v);
        return Some(q);
    }
    if let Some(q) = parse_key(s, p, "string") {
        let n = s.len();
        f.string = Some(string_of(s, q, n));
        return Some(n);
    }
    if let Some((q, rf)) = parse_refutation(s, p) {
        f.refutation = Some(rf);
        return Some(q);
    }
    if let Some((q, cl)) = parse_currline(s, p) {
        f.currline = Some(cl);
        return Some(q);
    }
    None
}

/// An `info` with no field set.
fn no_info() -> (f: InfoFields)
    ensures
        f@ == empty_info(),
{
    InfoFields {
        depth: None,
        seldepth: None,
        time: None,
        nodes: None,
        pv: None,
        multipv: None,
        score: None,
        currmove: None,
        currmovenumber: None,
        hashfull: None,
        nps: None,
        tbhits: None,
        sbhits: None,
        cpuload: None,
        string: None,
        refutation: None,
        currline: None,
    }
}

fn parse_info(s: &Vec<char>) -> (r: Option<(usize, UciResponse)>)
    ensures
        match r {
            Some((p, resp)) => read_info(s@) == Some((p as int, resp@)) && p <= s@.len(),
            None => read_info(s@) is None,
        },
{
    reveal(read_info);
    let p = match eat_word(s, 0, "info") {
        None => {
            return None;
        },
        Some(p) => p,
    };
    let mut f = no_info();
    let mut i = p;
    loop
        invariant
            p <= i <= s@.len(),
            read_info_items(s@, p as int, empty_info()) == read_info_items(s@, i as int, f@),
        ensures
            p <= i <= s@.len(),
            read_info_items(s@, p as int, empty_info()) == (i as int, f@),
        decreases s@.len() - i,
    {
        proof {
            lemma_info_step_bounds(s@, i as int, f@);
        }
        let q = match parse_blanks(s, i) {
            None => {
                break ;
            },
            Some(q) => q,
        };
        match parse_info_item(s, q, &mut f) {
            None => {
                break ;
            },
            Some(q2) => {
                i = q2;
            },
        }
    }
    Some((i, UciResponse::Info(f)))
}

fn parse_check_opt(s: &Vec<char>, p: usize) -> (r: Option<(usize, OptionType)>)
    requires
        p <= s@.len(),
    ensures
        match r {
            Some((q, t)) => read_check_opt(s@, p as int) == Some((q as int, t@)) && q
                <= s@.len(),
            None => read_check_opt(s@, p as int) is None,
        },
{
    let p1 = match parse_key(s, p, "check") {
        None => {
            return None;
        },
        Some(q) => q,
    };
    let p2 = match parse_key(s, p1, "default") {
        None => {
            return None;
        },
        Some(q) => q,
    };
    if let Some(q) = eat_word(s, p2, "true") {
        return Some((q, OptionType::Check { default: true }));
    }
    if let Some(q) = eat_word(s, p2, "false") {
        return Some((q, OptionType::Check { default: false }));
    }
    None
}

fn parse_int_blanks(s: &Vec<char>, p: usize) -> (r: Option<(usize, i64)>)
    requires
        p <= s@.len(),
    ensures
        match r {
            Some((q, v)) => read_int_blanks(s@, p as int) == Some((q as int, v)) && q <= s@.len(),
            None => read_int_blanks(s@, p as int) is None,
        },
{
    let (q, v) = match parse_i64(s, p) {
        None => {
            return None;
        },
        Some(x) => x,
    };
    match parse_blanks(s, q) {
        None => None,
        Some(q2) => Some((q2, v)),
    }
}

fn parse_spin_opt(s: &Vec<char>, p: usize) -> (r: Option<(usize, OptionType)>)
    requires
        p <= s@.len(),
    ensures
        match r {
            Some((q, t)) => read_spin_opt(s@, p as int) == Some((q as int, t@)) && q <= s@.len(),
            None => read_spin_opt(s@, p as int) is None,
        },
{
    let p1 = match parse_key(s, p, "spin") {
        None => {
            return None;
        },
        Some(q) => q,
    };
    let p2 = match parse_key(s, p1, "default") {
        None => {
            return None;
        },
        Some(q) => q,
    };
    let (p3, default) = match parse_int_blanks(s, p2) {
        None => {
            return None;
        },
        Some(x) => x,
    };
    let p4 = match parse_key(s, p3, "min") {
        None => {
            return None;
        },
        Some(q) => q,
    };
    let (p5, min) = match parse_int_blanks(s, p4) {
        None => {
            return None;
        },
        Some(x) => x,
    };
    let p6 = match parse_key(s, p5, "max") {
        None => {
            return None;
        },
        Some(q) => q,
    };
    match parse_i64(s, p6) {
        None => None,
        Some((p7, max)) => Some((p7, OptionType::Spin { default, min, max })),
    }
}

/// Reads a combo value at `p` (see `combo_value`): where it ends, the text
/// up to which it was read, and the value.
fn parse_combo_value(s: &Vec<char>, p: usize) -> (r: (usize, String))
    requires
        p <= s@.len(),
    ensures
        r.0 as int == until_or_end(s@, p as int, " var"@),
        r.1@ == combo_value(s@, p as int),
        p <= r.0 <= s@.len(),
{
    let n = s.len();
    let e = match find_word(s, p, " var") {
        Some(i) => i,
        None => n,
    };
    let t = trim_end_at(s, p, e);
    (e, string_of(s, p, t))
}

fn parse_more_vars(s: &Vec<char>, pos: usize) -> (r: (usize, Vec<String>))
    requires
        pos <= s@.len(),
    ensures
        read_more_vars(s@, pos as int) == (r.0 as int, r.1@.map_values(|v: String| v@)),
        r.0 <= s@.len(),
{
    let mut vars: Vec<String> = Vec::new();
    let mut i = pos;
    loop
        invariant
            pos <= i <= s@.len(),
            read_more_vars(s@, pos as int) == (
                read_more_vars(s@, i as int).0,
                vars@.map_values(|v: String| v@) + read_more_vars(s@, i as int).1,
            ),
        ensures
            pos <= i <= s@.len(),
            read_more_vars(s@, pos as int) == (i as int, vars@.map_values(|v: String| v@)),
        decreases s@.len() - i,
    {
        let p1 = match parse_blanks(s, i) {
            None => {
                assert(vars@.map_values(|v: String| v@) + Seq::<Seq<char>>::empty()
                    =~= vars@.map_values(|v: String| v@));
                break ;
            },
            Some(p) => p,
        };
        let p2 = match parse_key(s, p1, "var") {
            None => {
                assert(vars@.map_values(|v: String| v@) + Seq::<Seq<char>>::empty()
                    =~= vars@.map_values(|v: String| v@));
                break ;
            },
            Some(p) => p,
        };
        proof {
            lemma_blank_run_bound(s@, i as int);
            lemma_key_bounds(s@, p1 as int, "var"@);
        }
        let (e, value) = parse_combo_value(s, p2);
        proof {
            let rest = read_more_vars(s@, e as int).1;
            let before = vars@.map_values(|v: String| v@);
            assert(before + (seq![value@] + rest) =~= before.push(value@) + rest);
            assert(vars@.push(value).map_values(|v: String| v@) =~= before.push(value@));
        }
        vars.push(value);
        i = e;
    }
    (i, vars)
}

fn parse_combo_opt(s: &Vec<char>, p: usize) -> (r: Option<(usize, OptionType)>)
    requires
        p <= s@.len(),
    ensures
        match r {
            Some((q, t)) => read_combo_opt(s@, p as int) == Some((q as int, t@)) && q
                <= s@.len(),
            None => read_combo_opt(s@, p as int) is None,
        },
{
    let p1 = match parse_key(s, p, "combo") {
        None => {
            return None;
        },
        Some(q) => q,
    };
    let p2 = match parse_key(s, p1, "default") {
        None => {
            return None;
        },
        Some(q) => q,
    };
    let (e, default) = parse_combo_value(s, p2);
    let (p3, vars) = parse_more_vars(s, e);
    Some((p3, OptionType::Combo { default, vars }))
}

/// Whether `s[from..]` is exactly `<empty>`.
fn rest_is_empty_marker(s: &Vec<char>, from: usize) -> (r: bool)
    requires
        from <= s@.len(),
    ensures
        r == (s@.subrange(from as int, s@.len() as int) == "<empty>"@),
{
    proof {
        reveal_strlit("<empty>");
    }
    let n = s.len();
    if n - from != 7 {
        assert(s@.subrange(from as int, s@.len() as int).len() != "<empty>"@.len());
        return false;
    }
    let r = at_word(s, from, "<empty>");
    assert(r == (s@.subrange(from as int, s@.len() as int) == "<empty>"@));
    r
}

fn parse_str_opt(s: &Vec<char>, p: usize) -> (r: Option<(usize, OptionType)>)
    requires
        p <= s@.len(),
    ensures
        match r {
            Some((q, t)) => read_str_opt(s@, p as int) == Some((q as int, t@)) && q <= s@.len(),
            None => read_str_opt(s@, p as int) is None,
        },
{
    let p1 = match parse_key(s, p, "string") {
        None => {
            return None;
        },
        Some(q) => q,
    };
    let p2 = match eat_word(s, p1, "default") {
        None => {
            return None;
        },
        Some(q) => q,
    };
    match parse_blanks(s, p2) {
        None => Some((p2, OptionType::Str { default: None })),
        Some(p3) => {
            let n = s.len();
            let default = if p3 < n && !rest_is_empty_marker(s, p3) {
                Some(string_of(s, p3, n))
            } else {
                None
            };
            Some((n, OptionType::Str { default }))
        },
    }
}

fn parse_option_type(s: &Vec<char>, p: usize) -> (r: Option<(usize, OptionType)>)
    requires
        p <= s@.len(),
    ensures
        match r {
            Some((q, t)) => read_option_type(s@, p as int) == Some((q as int, t@)) && q
                <= s@.len(),
            None => read_option_type(s@, p as int) is None,
        },
{
    reveal(read_option_type);
    let r = parse_check_opt(s, p);
    if r.is_some() {
        return r;
    }
    let r = parse_spin_opt(s, p);
    if r.is_some() {
        return r;
    }
    let r = parse_combo_opt(s, p);
    if r.is_some() {
        return r;
    }
    if let Some(q) = eat_word(s, p, "button") {
        return Some((q, OptionType::Button));
    }
    parse_str_opt(s, p)
}

fn parse_option(s: &Vec<char>) -> (r: Option<(usize, UciResponse)>)
    ensures
        match r {
            Some((p, resp)) => read_option(s@) == Some((p as int, resp@)) && p <= s@.len(),
            None => read_option(s@) is None,
        },
{
    reveal(read_option);
    let p1 = match parse_key(s, 0, "option") {
        None => {
            return None;
        },
        Some(p) => p,
    };
    let p2 = match parse_key(s, p1, "name") {
        None => {
            return None;
        },
        Some(p) => p,
    };
    let e = match find_word(s, p2, " type") {
        None => {
            return None;
        },
        Some(i) => i,
    };
    let p3 = match parse_blanks(s, e) {
        None => {
            return None;
        },
        Some(p) => p,
    };
    let p4 = match parse_key(s, p3, "type") {
        None => {
            return None;
        },
        Some(p) => p,
    };
    let (p5, option_type) = match parse_option_type(s, p4) {
        None => {
            return None;
        },
        Some(x) => x,
    };
    let t = trim_end_at(s, p2, e);
    let name = string_of(s, p2, t);
    Some((p5, UciResponse::Option { name, option_type }))
}

/// Reads a response at the start of `s` (see `read_response`).
pub fn parse_response_chars(s: &Vec<char>) -> (r: Option<(usize, UciResponse)>)
    ensures
        match r {
            Some((p, resp)) => read_response(s@) == Some((p as int, resp@)) && p <= s@.len(),
            None => read_response(s@) is None,
        },
{
    if let Some(p) = eat_word(s, 0, "uciok") {
        return Some((p, UciResponse::UciOk));
    }
    if let Some(p) = eat_word(s, 0, "readyok") {
        return Some((p, UciResponse::ReadyOk));
    }
    let r = parse_id(s);
    if r.is_some() {
        return r;
    }
    let r = parse_bestmove(s);
    if r.is_some() {
        return r;
    }
    let r = parse_check_response(s, true);
    if r.is_some() {
        return r;
    }
    let r = parse_check_response(s, false);
    if r.is_some() {
        return r;
    }
    let r = parse_info(s);
    if r.is_some() {
        return r;
    }
    parse_option(s)
}

/// Reads a response at the start of `i`: the text left over after it, and
/// the response.
pub fn deserialize_response(i: &str) -> (r: Option<(String, UciResponse)>)
    ensures
        match read_response(i@) {
            Some((p, v)) => r matches Some((rest, resp)) && rest@ == i@.subrange(
                p,
                i@.len() as int,
            ) && resp@ == v,
            None => r is None,
        },
{
    let cs = chars_of(i);
    match parse_response_chars(&cs) {
        None => None,
        Some((p, resp)) => Some((string_of(&cs, p, cs.len()), resp)),
    }
}

impl UciResponse {
    /// The response a line starts with; an error naming the line when none does.
    /// The error is a message of this library's own, `unrecognized response: `
    /// and the line; it does not say where reading stopped.
    pub fn try_from(s: &str) -> (r: Result<UciResponse, String>)
        ensures
            match read_response(s@) {
                Some((_, v)) => r matches Ok(resp) && resp@ == v,
                None => r matches Err(e) && e@ == "unrecognized response: "@ + s@,
            },
    {
        let cs = chars_of(s);
        match parse_response_chars(&cs) {
            Some((_, resp)) => Ok(resp),
            None => {
                let mut msg = String::new();
                push_str(&mut msg, "unrecognized response: ");
                push_str(&mut msg, s);
                Err(msg)
            },
        }
    }
}

} // verus!
