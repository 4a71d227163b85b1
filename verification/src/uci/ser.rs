//! Writing UCI messages as text lines.
use vstd::prelude::*;

use super::{
    opt_str_view, CheckStatus, CurrLine, CurrLineV, File, GoParams, GoParamsV, InfoFields,
    InfoFieldsV, Move, OptionType, OptionTypeV, PositionSpec, PositionSpecV, Promotion, Rank,
    Refutation, RefutationV, RegisterCommand, RegisterCommandV, Score, ScoreBound, SearchLimit,
    UciRequest, UciRequestV, UciResponse, UciResponseV,
};
use crate::fen::{fen_text, file_letter};
use crate::text::{dec, dec_signed, digit_char, push_char, push_i64, push_str, push_u64};
use crate::{file_num, rank_num};

verus! {

// ---------------------------------------------------------------------------
// The text of each message

/// The letter of a file.
pub open spec fn file_char_of(f: File) -> char {
    file_letter(file_num(f))
}

/// The digit of a rank.
pub open spec fn rank_char_of(r: Rank) -> char {
    digit_char(rank_num(r) + 1)
}

/// The letter of a promotion.
pub open spec fn promo_char(p: Promotion) -> char {
    match p {
        Promotion::Queen => 'q',
        Promotion::Rook => 'r',
        Promotion::Bishop => 'b',
        Promotion::Knight => 'n',
    }
}

/// A move in long algebraic form: from-square, to-square, promotion letter.
pub open spec fn move_text(m: Move) -> Seq<char> {
    seq![
        file_char_of(m.from.file),
        rank_char_of(m.from.rank),
        file_char_of(m.to.file),
        rank_char_of(m.to.rank),
    ] + match m.promotion {
        Some(p) => seq![promo_char(p)],
        None => seq![],
    }
}

/// Each move preceded by a space.
pub open spec fn spaced_moves(ms: Seq<Move>) -> Seq<char>
    decreases ms.len(),
{
    if ms.len() == 0 {
        seq![]
    } else {
        seq![' '] + move_text(ms[0]) + spaced_moves(ms.drop_first())
    }
}

/// The moves separated by single spaces.
pub open spec fn join_moves(ms: Seq<Move>) -> Seq<char> {
    if ms.len() == 0 {
        seq![]
    } else {
        move_text(ms[0]) + spaced_moves(ms.drop_first())
    }
}

/// The text of `go`: ponder flag, limit, then the moves to search.
pub open spec fn go_text(p: GoParamsV) -> Seq<char> {
    "go"@ + (if p.ponder {
        " ponder"@
    } else {
        seq![]
    }) + limit_text(p.limit) + (if p.searchmoves.len() == 0 {
        seq![]
    } else {
        " searchmoves "@ + join_moves(p.searchmoves)
    })
}

/// ` name value` if the value is present.
pub open spec fn opt_field(name: Seq<char>, v: Option<u64>) -> Seq<char> {
    match v {
        Some(x) => name + dec(x as nat),
        None => seq![],
    }
}

/// The search limit of `go`.
pub open spec fn limit_text(l: SearchLimit) -> Seq<char> {
    match l {
        SearchLimit::Infinite => " infinite"@,
        SearchLimit::Depth(d) => " depth "@ + dec(d as nat),
        SearchLimit::Nodes(n) => " nodes "@ + dec(n as nat),
        SearchLimit::Mate(m) => " mate "@ + dec(m as nat),
        SearchLimit::MoveTime(t) => " movetime "@ + dec(t as nat),
        SearchLimit::TimeControl(tc) => opt_field(" wtime "@, tc.wtime) + opt_field(
            " btime "@,
            tc.btime,
        ) + opt_field(" winc "@, tc.winc) + opt_field(" binc "@, tc.binc) + opt_field(
            " movestogo "@,
            tc.movestogo,
        ),
    }
}

/// The text of a request.
pub open spec fn request_text(r: UciRequestV) -> Seq<char> {
    match r {
        UciRequestV::Uci => "uci"@,
        UciRequestV::Debug(b) => if b {
            "debug on"@
        } else {
            "debug off"@
        },
        UciRequestV::IsReady => "isready"@,
        UciRequestV::SetOption { name, value } => match value {
            None => "setoption name "@ + name,
            Some(v) => "setoption name "@ + name + " value "@ + v,
        },
        UciRequestV::Register(RegisterCommandV::Later) => "register later"@,
        UciRequestV::Register(RegisterCommandV::Credentials { name, code }) => "register name "@
            + name + " code "@ + code,
        UciRequestV::UciNewGame => "ucinewgame"@,
        UciRequestV::Position { start, moves } => (match start {
            PositionSpecV::StartPos => "position startpos"@,
            PositionSpecV::Fen(f) => "position fen "@ + fen_text(f),
        }) + (if moves.len() == 0 {
            seq![]
        } else {
            " moves "@ + join_moves(moves)
        }),
        UciRequestV::Go(p) => go_text(p),
        UciRequestV::Stop => "stop"@,
        UciRequestV::PonderHit => "ponderhit"@,
        UciRequestV::Quit => "quit"@,
    }
}

/// The word of a check status.
pub open spec fn status_text(s: CheckStatus) -> Seq<char> {
    match s {
        CheckStatus::Checking => "checking"@,
        CheckStatus::Okay => "ok"@,
        CheckStatus::Error => "error"@,
    }
}

/// The bound after a score: nothing for an exact score.
pub open spec fn bound_text(b: ScoreBound) -> Seq<char> {
    match b {
        ScoreBound::Exact => seq![],
        ScoreBound::LowerBound => " lowerbound"@,
        ScoreBound::UpperBound => " upperbound"@,
    }
}

/// The score field of `info`.
pub open spec fn score_text(s: Score) -> Seq<char> {
    match s {
        Score::Centipawns { value, bound } => " score cp "@ + dec_signed(value as int) + bound_text(
            bound,
        ),
        Score::Mate { moves, bound } => " score mate "@ + dec_signed(moves as int) + bound_text(
            bound,
        ),
    }
}

/// ` pv` and the moves, if a principal variation is present.
pub open spec fn pv_text(pv: Option<Seq<Move>>) -> Seq<char> {
    match pv {
        Some(ms) => " pv "@ + join_moves(ms),
        None => seq![],
    }
}

/// The score field, if present.
pub open spec fn score_field(s: Option<Score>) -> Seq<char> {
    match s {
        Some(sc) => score_text(sc),
        None => seq![],
    }
}

/// ` currmove` and the move, if present.
pub open spec fn currmove_text(m: Option<Move>) -> Seq<char> {
    match m {
        Some(mv) => " currmove "@ + move_text(mv),
        None => seq![],
    }
}

/// ` string` and the free text, if present.
pub open spec fn string_text(s: Option<Seq<char>>) -> Seq<char> {
    match s {
        Some(t) => " string "@ + t,
        None => seq![],
    }
}

/// ` refutation`, the refuted move and the refuting line, if present.
pub open spec fn refutation_text(r: Option<RefutationV>) -> Seq<char> {
    match r {
        Some(rf) => " refutation "@ + move_text(rf.mov) + (if rf.line.len() == 0 {
            seq![]
        } else {
            " "@ + join_moves(rf.line)
        }),
        None => seq![],
    }
}

/// ` currline`, the CPU number and the line, if present.
pub open spec fn currline_text(c: Option<CurrLineV>) -> Seq<char> {
    match c {
        Some(cl) => " currline"@ + (match cl.cpu {
            Some(n) => " "@ + dec(n as nat),
            None => seq![],
        }) + (if cl.moves.len() == 0 {
            seq![]
        } else {
            " "@ + join_moves(cl.moves)
        }),
        None => seq![],
    }
}

/// The text of `info`: each present field in a fixed order.
pub open spec fn info_text(f: InfoFieldsV) -> Seq<char> {
    "info"@ + opt_field(" depth "@, f.depth) + opt_field(" seldepth "@, f.seldepth) + opt_field(
        " time "@,
        f.time,
    ) + opt_field(" nodes "@, f.nodes) + pv_text(f.pv) + opt_field(" multipv "@, f.multipv)
        + score_field(f.score) + currmove_text(f.currmove) + opt_field(
        " currmovenumber "@,
        f.currmovenumber,
    ) + opt_field(" hashfull "@, f.hashfull) + opt_field(" nps "@, f.nps) + opt_field(
        " tbhits "@,
        f.tbhits,
    ) + opt_field(" sbhits "@, f.sbhits) + opt_field(" cpuload "@, f.cpuload) + string_text(
        f.string,
    ) + refutation_text(f.refutation) + currline_text(f.currline)
}

/// Each combo value preceded by ` var `.
pub open spec fn vars_text(vars: Seq<Seq<char>>) -> Seq<char>
    decreases vars.len(),
{
    if vars.len() == 0 {
        seq![]
    } else {
        vars_text(vars.drop_last()) + " var "@ + vars.last()
    }
}

/// The text of `option`.
pub open spec fn option_text(name: Seq<char>, t: OptionTypeV) -> Seq<char> {
    "option name "@ + name + match t {
        OptionTypeV::Check { default } => " type check default "@ + if default {
            "true"@
        } else {
            "false"@
        },
        OptionTypeV::Spin { default, min, max } => " type spin default "@ + dec_signed(
            default as int,
        ) + " min "@ + dec_signed(min as int) + " max "@ + dec_signed(max as int),
        OptionTypeV::Combo { default, vars } => " type combo default "@ + default + vars_text(vars),
        OptionTypeV::Button => " type button"@,
        OptionTypeV::Str { default } => " type string default "@ + match default {
            Some(d) => d,
            None => "<empty>"@,
        },
    }
}

/// The text of a response.
pub open spec fn response_text(r: UciResponseV) -> Seq<char> {
    match r {
        UciResponseV::IdName(n) => "id name "@ + n,
        UciResponseV::IdAuthor(a) => "id author "@ + a,
        UciResponseV::UciOk => "uciok"@,
        UciResponseV::ReadyOk => "readyok"@,
        UciResponseV::BestMove { mov, ponder } => "bestmove "@ + move_text(mov) + match ponder {
            Some(p) => " ponder "@ + move_text(p),
            None => seq![],
        },
        UciResponseV::CopyProtection(s) => "copyprotection "@ + status_text(s),
        UciResponseV::Registration(s) => "registration "@ + status_text(s),
        UciResponseV::Info(f) => info_text(f),
        UciResponseV::Option { name, option_type } => option_text(name, option_type),
    }
}

// ---------------------------------------------------------------------------
// Writing

fn file_char(f: File) -> (c: char)
    ensures
        c == file_char_of(f),
{
    match f {
        File::A => 'a',
        File::B => 'b',
        File::C => 'c',
        File::D => 'd',
        File::E => 'e',
        File::F => 'f',
        File::G => 'g',
        File::H => 'h',
    }
}

fn rank_char(r: Rank) -> (c: char)
    ensures
        c == rank_char_of(r),
{
    match r {
        Rank::R1 => '1',
        Rank::R2 => '2',
        Rank::R3 => '3',
        Rank::R4 => '4',
        Rank::R5 => '5',
        Rank::R6 => '6',
        Rank::R7 => '7',
        Rank::R8 => '8',
    }
}

/// Appends a move in long algebraic form.
fn push_move(out: &mut String, m: Move)
    ensures
        final(out)@ == old(out)@ + move_text(m),
{
    push_char(out, file_char(m.from.file));
    push_char(out, rank_char(m.from.rank));
    push_char(out, file_char(m.to.file));
    push_char(out, rank_char(m.to.rank));
    match m.promotion {
        Some(p) => push_char(
            out,
            match p {
                Promotion::Queen => 'q',
                Promotion::Rook => 'r',
                Promotion::Bishop => 'b',
                Promotion::Knight => 'n',
            },
        ),
        None => {},
    }
    assert(out@ =~= old(out)@ + move_text(m));
}

/// Adding a move at the end adds it, after a space, at the end of the text.
pub proof fn lemma_spaced_moves_push(ms: Seq<Move>, m: Move)
    ensures
        spaced_moves(ms.push(m)) == spaced_moves(ms) + seq![' '] + move_text(m),
    decreases ms.len(),
{
    if ms.len() == 0 {
        let t = ms.push(m);
        assert(t.drop_first() =~= Seq::<Move>::empty());
        assert(spaced_moves(t.drop_first()) =~= Seq::<char>::empty());
        assert(spaced_moves(t) =~= seq![' '] + move_text(m));
        assert(spaced_moves(ms) =~= Seq::<char>::empty());
    } else {
        lemma_spaced_moves_push(ms.drop_first(), m);
        assert(ms.push(m).drop_first() =~= ms.drop_first().push(m));
        assert(spaced_moves(ms.push(m)) =~= spaced_moves(ms) + seq![' '] + move_text(m));
    }
}

/// Appends the moves separated by single spaces.
fn push_join(out: &mut String, ms: &Vec<Move>)
    ensures
        final(out)@ == old(out)@ + join_moves(ms@),
{
    if ms.len() == 0 {
        return ;
    }
    push_move(out, ms[0]);
    let ghost start = out@;
    let mut i: usize = 1;
    while i < ms.len()
        invariant
            1 <= i <= ms@.len(),
            out@ == start + spaced_moves(ms@.subrange(1, i as int)),
        decreases ms@.len() - i,
    {
        proof {
            lemma_spaced_moves_push(ms@.subrange(1, i as int), ms@[i as int]);
            assert(ms@.subrange(1, i as int).push(ms@[i as int]) =~= ms@.subrange(1, i + 1));
        }
        push_char(out, ' ');
        push_move(out, ms[i]);
        assert(out@ =~= start + spaced_moves(ms@.subrange(1, i + 1)));
        i = i + 1;
    }
    assert(ms@.subrange(1, ms@.len() as int) =~= ms@.drop_first());
    assert(out@ =~= old(out)@ + join_moves(ms@));
}

/// Appends ` name value` if the value is present.
fn push_field(out: &mut String, name: &str, v: Option<u64>)
    ensures
        final(out)@ == old(out)@ + opt_field(name@, v),
{
    match v {
        Some(x) => {
            push_str(out, name);
            push_u64(out, x);
            assert(out@ =~= old(out)@ + opt_field(name@, v));
        },
        None => {
            assert(out@ =~= old(out)@ + opt_field(name@, v));
        },
    }
}

/// The text of a request.
pub fn serialize_request(req: &UciRequest) -> (s: String)
    ensures
        s@ == request_text(req@),
{
    let mut s = String::new();
    match req {
        UciRequest::Uci => push_str(&mut s, "uci"),
        UciRequest::Debug(true) => push_str(&mut s, "debug on"),
        UciRequest::Debug(false) => push_str(&mut s, "debug off"),
        UciRequest::IsReady => push_str(&mut s, "isready"),
        UciRequest::SetOption { name, value } => {
            push_str(&mut s, "setoption name ");
            push_str(&mut s, name.as_str());
            match value {
                None => {},
                Some(v) => {
                    push_str(&mut s, " value ");
                    push_str(&mut s, v.as_str());
                },
            }
        },
        UciRequest::Register(RegisterCommand::Later) => push_str(&mut s, "register later"),
        UciRequest::Register(RegisterCommand::Credentials { name, code }) => {
            push_str(&mut s, "register name ");
            push_str(&mut s, name.as_str());
            push_str(&mut s, " code ");
            push_str(&mut s, code.as_str());
        },
        UciRequest::UciNewGame => push_str(&mut s, "ucinewgame"),
        UciRequest::Position { start, moves } => {
            match start {
                PositionSpec::StartPos => push_str(&mut s, "position startpos"),
                PositionSpec::Fen(fen) => {
                    push_str(&mut s, "position fen ");
                    let t = fen.to_string();
                    push_str(&mut s, t.as_str());
                },
            }
            if moves.len() != 0 {
                push_str(&mut s, " moves ");
                push_join(&mut s, moves);
            }
        },
        UciRequest::Go(p) => {
            s = serialize_go(p);
        },
        UciRequest::Stop => push_str(&mut s, "stop"),
        UciRequest::PonderHit => push_str(&mut s, "ponderhit"),
        UciRequest::Quit => push_str(&mut s, "quit"),
    }
    assert(s@ =~= request_text(req@));
    s
}

/// The text of `go`.
fn serialize_go(p: &GoParams) -> (s: String)
    ensures
        s@ == go_text(p@),
{
    let mut s = String::new();
    push_str(&mut s, "go");
    if p.ponder {
        push_str(&mut s, " ponder");
    }
    let ghost before = s@;
    match &p.limit {
        SearchLimit::Infinite => push_str(&mut s, " infinite"),
        SearchLimit::Depth(d) => {
            push_str(&mut s, " depth ");
            push_u64(&mut s, *d);
        },
        SearchLimit::Nodes(n) => {
            push_str(&mut s, " nodes ");
            push_u64(&mut s, *n);
        },
        SearchLimit::Mate(m) => {
            push_str(&mut s, " mate ");
            push_u64(&mut s, *m);
        },
        SearchLimit::MoveTime(mt) => {
            push_str(&mut s, " movetime ");
            push_u64(&mut s, *mt);
        },
        SearchLimit::TimeControl(tc) => {
            push_field(&mut s, " wtime ", tc.wtime);
            push_field(&mut s, " btime ", tc.btime);
            push_field(&mut s, " winc ", tc.winc);
            push_field(&mut s, " binc ", tc.binc);
            push_field(&mut s, " movestogo ", tc.movestogo);
        },
    }
    assert(s@ =~= before + limit_text(p.limit));
    let ghost mid = s@;
    if p.searchmoves.len() != 0 {
        push_str(&mut s, " searchmoves ");
        push_join(&mut s, &p.searchmoves);
    }
    assert(s@ =~= go_text(p@));
    s
}

/// The word of a check status.
fn serialize_check_status(st: &CheckStatus) -> (r: &'static str)
    ensures
        r@ == status_text(*st),
{
    match st {
        CheckStatus::Checking => "checking",
        CheckStatus::Okay => "ok",
        CheckStatus::Error => "error",
    }
}

/// The bound after a score.
fn serialize_score_bound(b: &ScoreBound) -> (r: &'static str)
    ensures
        r@ == bound_text(*b),
{
    match b {
        ScoreBound::Exact => {
            proof {
                reveal_strlit("");
            }
            ""
        },
        ScoreBound::LowerBound => " lowerbound",
        ScoreBound::UpperBound => " upperbound",
    }
}

/// The text of a response.
pub fn serialize_response(resp: &UciResponse) -> (s: String)
    ensures
        s@ == response_text(resp@),
{
    let mut s = String::new();
    match resp {
        UciResponse::IdName(name) => {
            push_str(&mut s, "id name ");
            push_str(&mut s, name.as_str());
        },
        UciResponse::IdAuthor(author) => {
            push_str(&mut s, "id author ");
            push_str(&mut s, author.as_str());
        },
        UciResponse::UciOk => push_str(&mut s, "uciok"),
        UciResponse::ReadyOk => push_str(&mut s, "readyok"),
        UciResponse::BestMove { mov, ponder } => {
            push_str(&mut s, "bestmove ");
            push_move(&mut s, *mov);
            match ponder {
                Some(p) => {
                    push_str(&mut s, " ponder ");
                    push_move(&mut s, *p);
                },
                None => {},
            }
        },
        UciResponse::CopyProtection(status) => {
            push_str(&mut s, "copyprotection ");
            push_str(&mut s, serialize_check_status(status));
        },
        UciResponse::Registration(status) => {
            push_str(&mut s, "registration ");
            push_str(&mut s, serialize_check_status(status));
        },
        UciResponse::Info(f) => {
            s = serialize_info(f);
        },
        UciResponse::Option { name, option_type } => {
            s = serialize_option(name.as_str(), option_type);
        },
    }
    assert(s@ =~= response_text(resp@));
    s
}

fn push_score(out: &mut String, score: &Option<Score>)
    ensures
        final(out)@ == old(out)@ + score_field(*score),
{
    match score {
        Some(Score::Centipawns { value, bound }) => {
            push_str(out, " score cp ");
            push_i64(out, *value as i64);
            push_str(out, serialize_score_bound(bound));
        },
        Some(Score::Mate { moves, bound }) => {
            push_str(out, " score mate ");
            push_i64(out, *moves as i64);
            push_str(out, serialize_score_bound(bound));
        },
        None => {},
    }
    assert(out@ =~= old(out)@ + score_field(*score));
}

fn push_pv(out: &mut String, pv: &Option<Vec<Move>>)
    ensures
        final(out)@ == old(out)@ + pv_text(
            match pv {
                Some(v) => Some(v@),
                None => None,
            },
        ),
{
    match pv {
        Some(v) => {
            push_str(out, " pv ");
            push_join(out, v);
            assert(out@ =~= old(out)@ + pv_text(Some(v@)));
        },
        None => {
            assert(out@ =~= old(out)@ + pv_text(None));
        },
    }
}

fn push_currmove(out: &mut String, m: Option<Move>)
    ensures
        final(out)@ == old(out)@ + currmove_text(m),
{
    match m {
        Some(mv) => {
            push_str(out, " currmove ");
            push_move(out, mv);
        },
        None => {},
    }
    assert(out@ =~= old(out)@ + currmove_text(m));
}

fn push_string(out: &mut String, s: &Option<String>)
    ensures
        final(out)@ == old(out)@ + string_text(opt_str_view(*s)),
{
    match s {
        Some(t) => {
            push_str(out, " string ");
            push_str(out, t.as_str());
        },
        None => {},
    }
    assert(out@ =~= old(out)@ + string_text(opt_str_view(*s)));
}

fn push_refutation(out: &mut String, r: &Option<Refutation>)
    ensures
        final(out)@ == old(out)@ + refutation_text(
            match r {
                Some(x) => Some(x@),
                None => None,
            },
        ),
{
    match r {
        Some(rf) => {
            push_str(out, " refutation ");
            push_move(out, rf.mov);
            let ghost mid = out@;
            if rf.line.len() != 0 {
                push_str(out, " ");
                push_join(out, &rf.line);
            }
            assert(out@ =~= old(out)@ + refutation_text(Some(rf@)));
        },
        None => {
            assert(out@ =~= old(out)@ + refutation_text(None));
        },
    }
}

fn push_currline(out: &mut String, c: &Option<CurrLine>)
    ensures
        final(out)@ == old(out)@ + currline_text(
            match c {
                Some(x) => Some(x@),
                None => None,
            },
        ),
{
    match c {
        Some(cl) => {
            push_str(out, " currline");
            match cl.cpu {
                Some(cpu) => {
                    push_str(out, " ");
                    push_u64(out, cpu);
                },
                None => {},
            }
            let ghost mid = out@;
            if cl.moves.len() != 0 {
                push_str(out, " ");
                push_join(out, &cl.moves);
            }
            assert(out@ =~= old(out)@ + currline_text(Some(cl@)));
        },
        None => {
            assert(out@ =~= old(out)@ + currline_text(None));
        },
    }
}

/// The text of `info`.
fn serialize_info(f: &InfoFields) -> (s: String)
    ensures
        s@ == info_text(f@),
{
    let mut out = String::new();
    push_str(&mut out, "info");
    push_field(&mut out, " depth ", f.depth);
    push_field(&mut out, " seldepth ", f.seldepth);
    push_field(&mut out, " time ", f.time);
    push_field(&mut out, " nodes ", f.nodes);
    push_pv(&mut out, &f.pv);
    push_field(&mut out, " multipv ", f.multipv);
    push_score(&mut out, &f.score);
    push_currmove(&mut out, f.currmove);
    push_field(&mut out, " currmovenumber ", f.currmovenumber);
    push_field(&mut out, " hashfull ", f.hashfull);
    push_field(&mut out, " nps ", f.nps);
    push_field(&mut out, " tbhits ", f.tbhits);
    push_field(&mut out, " sbhits ", f.sbhits);
    push_field(&mut out, " cpuload ", f.cpuload);
    push_string(&mut out, &f.string);
    push_refutation(&mut out, &f.refutation);
    push_currline(&mut out, &f.currline);
    assert("info"@ =~= Seq::<char>::empty() + "info"@);
    out
}

/// The text of `option`.
fn serialize_option(name: &str, opt: &OptionType) -> (s: String)
    ensures
        s@ == option_text(name@, opt@),
{
    let mut s = String::new();
    push_str(&mut s, "option name ");
    push_str(&mut s, name);
    let ghost head = s@;
    match opt {
        OptionType::Check { default } => {
            push_str(&mut s, " type check default ");
            if *default {
                push_str(&mut s, "true");
            } else {
                push_str(&mut s, "false");
            }
        },
        OptionType::Spin { default, min, max } => {
            push_str(&mut s, " type spin default ");
            push_i64(&mut s, *default);
            push_str(&mut s, " min ");
            push_i64(&mut s, *min);
            push_str(&mut s, " max ");
            push_i64(&mut s, *max);
        },
        OptionType::Combo { default, vars } => {
            push_str(&mut s, " type combo default ");
            push_str(&mut s, default.as_str());
            let ghost base = s@;
            let mut i: usize = 0;
            while i < vars.len()
                invariant
                    0 <= i <= vars@.len(),
                    s@ == base + vars_text(vars@.map_values(|v: String| v@).take(i as int)),
                decreases vars@.len() - i,
            {
                push_str(&mut s, " var ");
                push_str(&mut s, vars[i].as_str());
                assert(vars@.map_values(|v: String| v@).take(i + 1).drop_last() =~= vars@.map_values(
                    |v: String| v@,
                ).take(i as int));
                i = i + 1;
            }
            assert(vars@.map_values(|v: String| v@).take(vars@.len() as int) =~= vars@.map_values(
                |v: String| v@,
            ));
        },
        OptionType::Button => push_str(&mut s, " type button"),
        OptionType::Str { default } => {
            push_str(&mut s, " type string default ");
            match default {
                Some(d) => push_str(&mut s, d.as_str()),
                None => push_str(&mut s, "<empty>"),
            }
        },
    }
    assert(s@ =~= option_text(name@, opt@));
    s
}

} // verus!
