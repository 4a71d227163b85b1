//! Reading requests, the messages a host sends to an engine.
//!
//! A request is read from the start of a line. Its alternatives are tried in
//! a fixed order and the first that reads wins; what follows the part read is
//! left over and does not matter.
use vstd::prelude::*;

use super::grammar::{
    lemma_read_more_moves_bounds, lemma_read_move_bounds, parse_key, parse_keyed_uint,
    parse_move_list, parse_more_moves, read_key, read_keyed_uint, read_more_moves, read_move,
    read_move_list,
};
use super::{
    GoParams, GoParamsV, Move, PositionSpec, PositionSpecV, RegisterCommand, RegisterCommandV,
    SearchLimit, TimeControl, UciRequest, UciRequestV,
};
use crate::fen::{parse_fen_chars, read_fen};
use crate::text::{
    chars_between, chars_of, eat_word, find_from, find_word, lemma_blank_run_bound, lemma_digit_run_bound,
    parse_blanks, push_str, read_blanks, read_word, string_of,
    trim_end_at, trimmed_end, until_or_end,
};

verus! {

/// The first of two alternatives that reads.
pub open spec fn pick<T>(a: Option<T>, b: Option<T>) -> Option<T> {
    if a is Some {
        a
    } else {
        b
    }
}

// ---------------------------------------------------------------------------
// The grammar

/// `debug on` or `debug off`.
#[verifier::opaque]
pub open spec fn read_debug(s: Seq<char>) -> Option<(int, UciRequestV)> {
    match read_key(s, 0, "debug"@) {
        None => None,
        Some(p) => pick(
            match read_word(s, p, "on"@) {
                Some(q) => Some((q, UciRequestV::Debug(true))),
                None => None,
            },
            match read_word(s, p, "off"@) {
                Some(q) => Some((q, UciRequestV::Debug(false))),
                None => None,
            },
        ),
    }
}

/// The value part of `setoption` at `pos`: blanks, `value`, then optionally
/// blanks and the rest of the line.
pub open spec fn read_option_value(s: Seq<char>, pos: int) -> (int, Option<Seq<char>>) {
    match read_blanks(s, pos) {
        None => (pos, None),
        Some(p1) => match read_word(s, p1, "value"@) {
            None => (pos, None),
            Some(p2) => match read_blanks(s, p2) {
                None => (p2, None),
                Some(p3) => (s.len() as int, Some(s.subrange(p3, s.len() as int))),
            },
        },
    }
}

/// `setoption name N [value V]`: the name runs up to the first ` value`, or to
/// the end, with trailing white space dropped.
#[verifier::opaque]
pub open spec fn read_setoption(s: Seq<char>) -> Option<(int, UciRequestV)> {
    match read_key(s, 0, "setoption"@) {
        None => None,
        Some(p1) => match read_key(s, p1, "name"@) {
            None => None,
            Some(p2) => {
                let e = until_or_end(s, p2, " value"@);
                let name = s.subrange(p2, trimmed_end(s, p2, e));
                let (p3, value) = read_option_value(s, e);
                Some((p3, UciRequestV::SetOption { name, value }))
            },
        },
    }
}

/// `register later`, or `register name N code C`: the name runs up to the
/// first ` code`, the code to the end of the line.
#[verifier::opaque]
pub open spec fn read_register(s: Seq<char>) -> Option<(int, UciRequestV)> {
    match read_key(s, 0, "register"@) {
        None => None,
        Some(p1) => match read_word(s, p1, "later"@) {
            Some(q) => Some((q, UciRequestV::Register(RegisterCommandV::Later))),
            None => match read_key(s, p1, "name"@) {
                None => None,
                Some(p2) => match find_from(s, p2, " code"@) {
                    None => None,
                    Some(e) => match read_blanks(s, e) {
                        None => None,
                        Some(p3) => match read_key(s, p3, "code"@) {
                            None => None,
                            Some(p4) => Some(
                                (
                                    s.len() as int,
                                    UciRequestV::Register(
                                        RegisterCommandV::Credentials {
                                            name: s.subrange(p2, e),
                                            code: s.subrange(p4, s.len() as int),
                                        },
                                    ),
                                ),
                            ),
                        },
                    },
                },
            },
        },
    }
}

/// `fen F` at `pos`: the record runs up to the first ` moves`, or to the end,
/// with trailing white space dropped, and must read as a FEN record.
#[verifier::opaque]
pub open spec fn read_fen_spec(s: Seq<char>, pos: int) -> Option<(int, PositionSpecV)> {
    match read_key(s, pos, "fen"@) {
        None => None,
        Some(p) => {
            let e = until_or_end(s, p, " moves"@);
            match read_fen(s.subrange(p, trimmed_end(s, p, e))) {
                None => None,
                Some(f) => Some((e, PositionSpecV::Fen(f))),
            }
        },
    }
}

/// The moves part of `position` at `pos`: blanks, `moves`, then blanks and a
/// move again and again.
pub open spec fn read_position_moves(s: Seq<char>, pos: int) -> (int, Seq<Move>) {
    match read_blanks(s, pos) {
        None => (pos, seq![]),
        Some(p1) => match read_word(s, p1, "moves"@) {
            None => (pos, seq![]),
            Some(p2) => read_more_moves(s, p2),
        },
    }
}

/// `position startpos [moves ...]` or `position fen F [moves ...]`.
#[verifier::opaque]
pub open spec fn read_position(s: Seq<char>) -> Option<(int, UciRequestV)> {
    match read_key(s, 0, "position"@) {
        None => None,
        Some(p1) => match pick(
            match read_word(s, p1, "startpos"@) {
                Some(q) => Some((q, PositionSpecV::StartPos)),
                None => None,
            },
            read_fen_spec(s, p1),
        ) {
            None => None,
            Some((p2, start)) => {
                let (p3, moves) = read_position_moves(s, p2);
                Some((p3, UciRequestV::Position { start, moves }))
            },
        },
    }
}

/// What `go` has read so far.
pub struct GoScanV {
    pub searchmoves: Seq<Move>,
    pub ponder: bool,
    pub infinite: bool,
    pub wtime: Option<u64>,
    pub btime: Option<u64>,
    pub winc: Option<u64>,
    pub binc: Option<u64>,
    pub movestogo: Option<u64>,
    pub depth: Option<u64>,
    pub nodes: Option<u64>,
    pub mate: Option<u64>,
    pub movetime: Option<u64>,
}

/// Nothing read yet.
pub open spec fn go_scan_start() -> GoScanV {
    GoScanV {
        searchmoves: seq![],
        ponder: false,
        infinite: false,
        wtime: None,
        btime: None,
        winc: None,
        binc: None,
        movestogo: None,
        depth: None,
        nodes: None,
        mate: None,
        movetime: None,
    }
}

/// One `go` parameter at `pos`, after the blanks before it; a parameter given
/// twice keeps its last value.
#[verifier::opaque]
pub open spec fn read_go_item(s: Seq<char>, p: int, g: GoScanV) -> Option<(int, GoScanV)> {
    pick(
        match read_word(s, p, "infinite"@) {
            Some(q) => Some((q, GoScanV { infinite: true, ..g })),
            None => None,
        },
        pick(
            match read_word(s, p, "ponder"@) {
                Some(q) => Some((q, GoScanV { ponder: true, ..g })),
                None => None,
            },
            pick(
                match read_keyed_uint(s, p, "wtime"@) {
                    Some((q, v)) => Some((q, GoScanV { wtime: Some(v), ..g })),
                    None => None,
                },
                pick(
                    match read_keyed_uint(s, p, "btime"@) {
                        Some((q, v)) => Some((q, GoScanV { btime: Some(v), ..g })),
                        None => None,
                    },
                    pick(
                        match read_keyed_uint(s, p, "winc"@) {
                            Some((q, v)) => Some((q, GoScanV { winc: Some(v), ..g })),
                            None => None,
                        },
                        pick(
                            match read_keyed_uint(s, p, "binc"@) {
                                Some((q, v)) => Some((q, GoScanV { binc: Some(v), ..g })),
                                None => None,
                            },
                            read_go_item_more(s, p, g),
                        ),
                    ),
                ),
            ),
        ),
    )
}

/// The `go` parameters after `binc`, in the order they are tried.
#[verifier::opaque]
pub open spec fn read_go_item_more(s: Seq<char>, p: int, g: GoScanV) -> Option<(int, GoScanV)> {
    pick(
        match read_keyed_uint(s, p, "movestogo"@) {
            Some((q, v)) => Some((q, GoScanV { movestogo: Some(v), ..g })),
            None => None,
        },
        pick(
            match read_keyed_uint(s, p, "depth"@) {
                Some((q, v)) => Some((q, GoScanV { depth: Some(v), ..g })),
                None => None,
            },
            pick(
                match read_keyed_uint(s, p, "nodes"@) {
                    Some((q, v)) => Some((q, GoScanV { nodes: Some(v), ..g })),
                    None => None,
                },
                pick(
                    match read_keyed_uint(s, p, "mate"@) {
                        Some((q, v)) => Some((q, GoScanV { mate: Some(v), ..g })),
                        None => None,
                    },
                    pick(
                        match read_keyed_uint(s, p, "movetime"@) {
                            Some((q, v)) => Some((q, GoScanV { movetime: Some(v), ..g })),
                            None => None,
                        },
                        match read_key(s, p, "searchmoves"@) {
                            None => None,
                            Some(q) => match read_move_list(s, q) {
                                None => None,
                                Some((q2, ms)) => Some((q2, GoScanV { searchmoves: ms, ..g })),
                            },
                        },
                    ),
                ),
            ),
        ),
    )
}

/// Blanks and one `go` parameter.
pub open spec fn read_go_step(s: Seq<char>, pos: int, g: GoScanV) -> Option<(int, GoScanV)> {
    match read_blanks(s, pos) {
        None => None,
        Some(p) => read_go_item(s, p, g),
    }
}

/// A step of `go` moves forward, and stays within `s`.
pub proof fn lemma_go_step_bounds(s: Seq<char>, pos: int, g: GoScanV)
    requires
        0 <= pos <= s.len(),
    ensures
        match read_go_step(s, pos, g) {
            Some((p, _)) => pos < p <= s.len(),
            None => true,
        },
{
    reveal(read_go_item);
    reveal(read_go_item_more);
    lemma_blank_run_bound(s, pos);
    match read_blanks(s, pos) {
        None => {},
        Some(p) => {
            lemma_keyed_uint_bounds(s, p, "wtime"@);
            lemma_keyed_uint_bounds(s, p, "btime"@);
            lemma_keyed_uint_bounds(s, p, "winc"@);
            lemma_keyed_uint_bounds(s, p, "binc"@);
            lemma_keyed_uint_bounds(s, p, "movestogo"@);
            lemma_keyed_uint_bounds(s, p, "depth"@);
            lemma_keyed_uint_bounds(s, p, "nodes"@);
            lemma_keyed_uint_bounds(s, p, "mate"@);
            lemma_keyed_uint_bounds(s, p, "movetime"@);
            match read_word(s, p, "searchmoves"@) {
                None => {},
                Some(p1) => {
                    lemma_blank_run_bound(s, p1);
                },
            }
            match read_key(s, p, "searchmoves"@) {
                None => {},
                Some(q) => {
                    lemma_read_move_bounds(s, q);
                    match read_move(s, q) {
                        None => {},
                        Some((q1, m)) => {
                            lemma_read_more_moves_bounds(s, q1);
                        },
                    }
                },
            }
        },
    }
}

/// A keyed number read at `p` ends past `p` and within `s`.
pub proof fn lemma_keyed_uint_bounds(s: Seq<char>, p: int, key: Seq<char>)
    requires
        0 <= p <= s.len(),
    ensures
        match read_keyed_uint(s, p, key) {
            Some((q, _)) => p < q <= s.len(),
            None => true,
        },
{
    match read_word(s, p, key) {
        None => {},
        Some(p1) => {
            lemma_blank_run_bound(s, p1);
            match read_blanks(s, p1) {
                None => {},
                Some(p2) => {
                    lemma_digit_run_bound(s, p2);
                },
            }
        },
    }
}

/// The `go` parameters from `pos` on, one step at a time, until a step fails.
pub open spec fn read_go_items(s: Seq<char>, pos: int, g: GoScanV) -> (int, GoScanV)
    decreases s.len() - pos,
    when 0 <= pos <= s.len()
{
    match read_go_step(s, pos, g) {
        None => (pos, g),
        Some((p, g2)) => {
            proof {
                lemma_go_step_bounds(s, pos, g);
            }
            read_go_items(s, p, g2)
        },
    }
}

/// The search limit `go` asks for: `infinite` first, then depth, nodes, mate
/// and move time, in that order, and the clocks when none of these is given.
pub open spec fn go_limit(g: GoScanV) -> SearchLimit {
    if g.infinite {
        SearchLimit::Infinite
    } else if g.depth is Some {
        SearchLimit::Depth(g.depth->0)
    } else if g.nodes is Some {
        SearchLimit::Nodes(g.nodes->0)
    } else if g.mate is Some {
        SearchLimit::Mate(g.mate->0)
    } else if g.movetime is Some {
        SearchLimit::MoveTime(g.movetime->0)
    } else {
        SearchLimit::TimeControl(
            TimeControl {
                wtime: g.wtime,
                btime: g.btime,
                winc: g.winc,
                binc: g.binc,
                movestogo: g.movestogo,
            },
        )
    }
}

/// `go` and its parameters.
#[verifier::opaque]
pub open spec fn read_go(s: Seq<char>) -> Option<(int, UciRequestV)> {
    match read_word(s, 0, "go"@) {
        None => None,
        Some(p) => {
            let (q, g) = read_go_items(s, p, go_scan_start());
            Some(
                (
                    q,
                    UciRequestV::Go(
                        GoParamsV { searchmoves: g.searchmoves, ponder: g.ponder, limit: go_limit(g) },
                    ),
                ),
            )
        },
    }
}

/// A request with no parameters: `word` at the start of `s`.
pub open spec fn read_bare(s: Seq<char>, word: Seq<char>, r: UciRequestV) -> Option<(int, UciRequestV)> {
    match read_word(s, 0, word) {
        Some(p) => Some((p, r)),
        None => None,
    }
}

/// A request at the start of `s`, and where it ends: `ucinewgame`, `uci`,
/// `isready`, `stop`, `ponderhit`, `quit`, `debug`, `setoption`, `register`,
/// `position` and `go` are tried in this order.
pub open spec fn read_request(s: Seq<char>) -> Option<(int, UciRequestV)> {
    pick(
        read_bare(s, "ucinewgame"@, UciRequestV::UciNewGame),
        pick(
            read_bare(s, "uci"@, UciRequestV::Uci),
            pick(
                read_bare(s, "isready"@, UciRequestV::IsReady),
                pick(
                    read_bare(s, "stop"@, UciRequestV::Stop),
                    pick(
                        read_bare(s, "ponderhit"@, UciRequestV::PonderHit),
                        pick(
                            read_bare(s, "quit"@, UciRequestV::Quit),
                            pick(
                                read_debug(s),
                                pick(
                                    read_setoption(s),
                                    pick(read_register(s), pick(read_position(s), read_go(s))),
                                ),
                            ),
                        ),
                    ),
                ),
            ),
        ),
    )
}

// ---------------------------------------------------------------------------
// Reading

/// What `go` has read so far.
struct GoScan {
    searchmoves: Vec<Move>,
    ponder: bool,
    infinite: bool,
    wtime: Option<u64>,
    btime: Option<u64>,
    winc: Option<u64>,
    binc: Option<u64>,
    movestogo: Option<u64>,
    depth: Option<u64>,
    nodes: Option<u64>,
    mate: Option<u64>,
    movetime: Option<u64>,
}

impl View for GoScan {
    type V = GoScanV;

    closed spec fn view(&self) -> GoScanV {
        GoScanV {
            searchmoves: self.searchmoves@,
            ponder: self.ponder,
            infinite: self.infinite,
            wtime: self.wtime,
            btime: self.btime,
            winc: self.winc,
            binc: self.binc,
            movestogo: self.movestogo,
            depth: self.depth,
            nodes: self.nodes,
            mate: self.mate,
            movetime: self.movetime,
        }
    }
}

/// Reads one `go` parameter after its blanks (see `read_go_item`), and
/// records it in `g`; `g` is left alone when none reads.
fn parse_go_item(s: &Vec<char>, p: usize, g: &mut GoScan) -> (r: Option<usize>)
    requires
        p <= s@.len(),
    ensures
        match r {
            Some(q) => read_go_item(s@, p as int, old(g)@) == Some((q as int, final(g)@)) && q
                <= s@.len(),
            None => read_go_item(s@, p as int, old(g)@) is None && final(g)@ == old(g)@,
        },
{
    reveal(read_go_item);
    reveal(read_go_item_more);
    if let Some(q) = eat_word(s, p, "infinite") {
        g.infinite = true;
        return Some(q);
    }
    if let Some(q) = eat_word(s, p, "ponder") {
        g.ponder = true;
        return Some(q);
    }
    if let Some((q, v)) = parse_keyed_uint(s, p, "wtime") {
        g.wtime = Some(v);
        return Some(q);
    }
    if let Some((q, v)) = parse_keyed_uint(s, p, "btime") {
        g.btime = Some(v);
        return Some(q);
    }
    if let Some((q, v)) = parse_keyed_uint(s, p, "winc") {
        g.winc = Some(v);
        return Some(q);
    }
    if let Some((q, v)) = parse_keyed_uint(s, p, "binc") {
        g.binc = Some(v);
        return Some(q);
    }
    if let Some((q, v)) = parse_keyed_uint(s, p, "movestogo") {
        g.movestogo = Some(v);
        return Some(q);
    }
    if let Some((q, v)) = parse_keyed_uint(s, p, "depth") {
        g.depth = Some(v);
        return Some(q);
    }
    if let Some((q, v)) = parse_keyed_uint(s, p, "nodes") {
        g.nodes = Some(v);
        return Some(q);
    }
    if let Some((q, v)) = parse_keyed_uint(s, p, "mate") {
        g.mate = Some(v);
        return Some(q);
    }
    if let Some((q, v)) = parse_keyed_uint(s, p, "movetime") {
        g.movetime = Some(v);
        return Some(q);
    }
    if let Some(q) = parse_key(s, p, "searchmoves") {
        if let Some((q2, ms)) = parse_move_list(s, q) {
            g.searchmoves = ms;
            return Some(q2);
        }
    }
    None
}

/// Reads `go` and its parameters (see `read_go`).
fn parse_go(s: &Vec<char>) -> (r: Option<(usize, UciRequest)>)
    ensures
        match r {
            Some((p, req)) => read_go(s@) == Some((p as int, req@)) && p <= s@.len(),
            None => read_go(s@) is None,
        },
{
    reveal(read_go);
    let p = match eat_word(s, 0, "go") {
        None => {
            return None;
        },
        Some(p) => p,
    };
    let mut g = GoScan {
        searchmoves: Vec::new(),
        ponder: false,
        infinite: false,
        wtime: None,
        btime: None,
        winc: None,
        binc: None,
        movestogo: None,
        depth: None,
        nodes: None,
        mate: None,
        movetime: None,
    };
    assert(g@ == go_scan_start());
    let mut i = p;
    loop
        invariant
            p <= i <= s@.len(),
            read_go_items(s@, p as int, go_scan_start()) == read_go_items(s@, i as int, g@),
        ensures
            p <= i <= s@.len(),
            read_go_items(s@, p as int, go_scan_start()) == (i as int, g@),
        decreases s@.len() - i,
    {
        proof {
            lemma_go_step_bounds(s@, i as int, g@);
        }
        let q = match parse_blanks(s, i) {
            None => {
                break ;
            },
            Some(q) => q,
        };
        match parse_go_item(s, q, &mut g) {
            None => {
                break ;
            },
            Some(q2) => {
                i = q2;
            },
        }
    }
    let limit = if g.infinite {
        SearchLimit::Infinite
    } else if let Some(d) = g.depth {
        SearchLimit::Depth(d)
    } else if let Some(n) = g.nodes {
        SearchLimit::Nodes(n)
    } else if let Some(m) = g.mate {
        SearchLimit::Mate(m)
    } else if let Some(mt) = g.movetime {
        SearchLimit::MoveTime(mt)
    } else {
        SearchLimit::TimeControl(
            TimeControl {
                wtime: g.wtime,
                btime: g.btime,
                winc: g.winc,
                binc: g.binc,
                movestogo: g.movestogo,
            },
        )
    };
    Some((i, UciRequest::Go(GoParams { searchmoves: g.searchmoves, ponder: g.ponder, limit })))
}

/// Reads `debug on` or `debug off` (see `read_debug`).
fn parse_debug(s: &Vec<char>) -> (r: Option<(usize, UciRequest)>)
    ensures
        match r {
            Some((p, req)) => read_debug(s@) == Some((p as int, req@)) && p <= s@.len(),
            None => read_debug(s@) is None,
        },
{
    reveal(read_debug);
    let p = match parse_key(s, 0, "debug") {
        None => {
            return None;
        },
        Some(p) => p,
    };
    if let Some(q) = eat_word(s, p, "on") {
        return Some((q, UciRequest::Debug(true)));
    }
    if let Some(q) = eat_word(s, p, "off") {
        return Some((q, UciRequest::Debug(false)));
    }
    None
}

/// Reads `setoption` (see `read_setoption`).
fn parse_setoption(s: &Vec<char>) -> (r: Option<(usize, UciRequest)>)
    ensures
        match r {
            Some((p, req)) => read_setoption(s@) == Some((p as int, req@)) && p <= s@.len(),
            None => read_setoption(s@) is None,
        },
{
    reveal(read_setoption);
    let p1 = match parse_key(s, 0, "setoption") {
        None => {
            return None;
        },
        Some(p) => p,
    };
    let p2 = match parse_key(s, p1, "name") {
        None => {
            return None;
        },
        Some(p) => p,
    };
    let n = s.len();
    let e = match find_word(s, p2, " value") {
        Some(i) => i,
        None => n,
    };
    let t = trim_end_at(s, p2, e);
    let name = string_of(s, p2, t);
    let mut end = e;
    let mut value: Option<String> = None;
    if let Some(q1) = parse_blanks(s, e) {
        if let Some(q2) = eat_word(s, q1, "value") {
            end = q2;
            if let Some(q3) = parse_blanks(s, q2) {
                end = n;
                value = Some(string_of(s, q3, n));
            }
        }
    }
    let req = UciRequest::SetOption { name, value };
    assert(read_option_value(s@, e as int) == (end as int, super::opt_str_view(value)));
    Some((end, req))
}

/// Reads `register` (see `read_register`).
fn parse_register(s: &Vec<char>) -> (r: Option<(usize, UciRequest)>)
    ensures
        match r {
            Some((p, req)) => read_register(s@) == Some((p as int, req@)) && p <= s@.len(),
            None => read_register(s@) is None,
        },
{
    reveal(read_register);
    let p1 = match parse_key(s, 0, "register") {
        None => {
            return None;
        },
        Some(p) => p,
    };
    if let Some(q) = eat_word(s, p1, "later") {
        return Some((q, UciRequest::Register(RegisterCommand::Later)));
    }
    let p2 = match parse_key(s, p1, "name") {
        None => {
            return None;
        },
        Some(p) => p,
    };
    let e = match find_word(s, p2, " code") {
        None => {
            return None;
        },
        Some(i) => i,
    };
    let p3 = match parse_blanks(s, e) {
        None => {
            return None;
        },
        Some(p) => p,
    };
    let p4 = match parse_key(s, p3, "code") {
        None => {
            return None;
        },
        Some(p) => p,
    };
    let n = s.len();
    let name = string_of(s, p2, e);
    let code = string_of(s, p4, n);
    Some((n, UciRequest::Register(RegisterCommand::Credentials { name, code })))
}

/// Reads `fen F` at `pos` (see `read_fen_spec`).
fn parse_fen_spec(s: &Vec<char>, pos: usize) -> (r: Option<(usize, PositionSpec)>)
    requires
        pos <= s@.len(),
    ensures
        match r {
            Some((p, spec)) => read_fen_spec(s@, pos as int) == Some((p as int, spec@)) && p
                <= s@.len(),
            None => read_fen_spec(s@, pos as int) is None,
        },
{
    reveal(read_fen_spec);
    let p = match parse_key(s, pos, "fen") {
        None => {
            return None;
        },
        Some(p) => p,
    };
    let n = s.len();
    let e = match find_word(s, p, " moves") {
        Some(i) => i,
        None => n,
    };
    let t = trim_end_at(s, p, e);
    let record = chars_between(s, p, t);
    match parse_fen_chars(&record) {
        None => None,
        Some(f) => Some((e, PositionSpec::Fen(f))),
    }
}

/// Reads `position` (see `read_position`).
fn parse_position(s: &Vec<char>) -> (r: Option<(usize, UciRequest)>)
    ensures
        match r {
            Some((p, req)) => read_position(s@) == Some((p as int, req@)) && p <= s@.len(),
            None => read_position(s@) is None,
        },
{
    reveal(read_position);
    let p1 = match parse_key(s, 0, "position") {
        None => {
            return None;
        },
        Some(p) => p,
    };
    let (p2, start) = match eat_word(s, p1, "startpos") {
        Some(q) => (q, PositionSpec::StartPos),
        None => match parse_fen_spec(s, p1) {
            None => {
                return None;
            },
            Some(x) => x,
        },
    };
    let mut end = p2;
    let mut moves: Vec<Move> = Vec::new();
    if let Some(q1) = parse_blanks(s, p2) {
        if let Some(q2) = eat_word(s, q1, "moves") {
            let (q3, ms) = parse_more_moves(s, q2);
            end = q3;
            moves = ms;
        }
    }
    assert(read_position_moves(s@, p2 as int) == (end as int, moves@));
    Some((end, UciRequest::Position { start, moves }))
}

/// Reads a request at the start of `s` (see `read_request`).
pub fn parse_request_chars(s: &Vec<char>) -> (r: Option<(usize, UciRequest)>)
    ensures
        match r {
            Some((p, req)) => read_request(s@) == Some((p as int, req@)) && p <= s@.len(),
            None => read_request(s@) is None,
        },
{
    if let Some(p) = eat_word(s, 0, "ucinewgame") {
        return Some((p, UciRequest::UciNewGame));
    }
    if let Some(p) = eat_word(s, 0, "uci") {
        return Some((p, UciRequest::Uci));
    }
    if let Some(p) = eat_word(s, 0, "isready") {
        return Some((p, UciRequest::IsReady));
    }
    if let Some(p) = eat_word(s, 0, "stop") {
        return Some((p, UciRequest::Stop));
    }
    if let Some(p) = eat_word(s, 0, "ponderhit") {
        return Some((p, UciRequest::PonderHit));
    }
    if let Some(p) = eat_word(s, 0, "quit") {
        return Some((p, UciRequest::Quit));
    }
    let r = parse_debug(s);
    if r.is_some() {
        return r;
    }
    let r = parse_setoption(s);
    if r.is_some() {
        return r;
    }
    let r = parse_register(s);
    if r.is_some() {
        return r;
    }
    let r = parse_position(s);
    if r.is_some() {
        return r;
    }
    parse_go(s)
}

/// Reads a request at the start of `i`: the text left over after it, and
/// the request.
pub fn deserialize_request(i: &str) -> (r: Option<(String, UciRequest)>)
    ensures
        match read_request(i@) {
            Some((p, v)) => r matches Some((rest, req)) && rest@ == i@.subrange(p, i@.len() as int)
                && req@ == v,
            None => r is None,
        },
{
    let cs = chars_of(i);
    match parse_request_chars(&cs) {
        None => None,
        Some((p, req)) => Some((string_of(&cs, p, cs.len()), req)),
    }
}

impl UciRequest {
    /// The request a line starts with; an error naming the line when none does.
    /// The error is a message of this library's own, `unrecognized request: `
    /// and the line; it does not say where reading stopped.
    pub fn try_from(s: &str) -> (r: Result<UciRequest, String>)
        ensures
            match read_request(s@) {
                Some((_, v)) => r matches Ok(req) && req@ == v,
                None => r matches Err(e) && e@ == "unrecognized request: "@ + s@,
            },
    {
        let cs = chars_of(s);
        match parse_request_chars(&cs) {
            Some((_, req)) => Ok(req),
            None => {
                let mut msg = String::new();
                push_str(&mut msg, "unrecognized request: ");
                push_str(&mut msg, s);
                Err(msg)
            },
        }
    }
}

} // verus!
