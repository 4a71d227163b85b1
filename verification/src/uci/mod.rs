//! The Universal Chess Interface: the messages a host and an engine
//! exchange, their text form, and reading that text back.
pub mod codec;
pub mod de;
pub mod de_response;
pub mod grammar;
pub mod readback;
pub mod readback_response;
pub mod ser;
pub mod word_laws;

use vstd::prelude::*;

pub use crate::{Fen, File, Move, Promotion, Rank, Square};
use crate::FenV;

verus! {

/// How a host registers with an engine.
#[derive(Debug, Clone, PartialEq, Eq)]
pub enum RegisterCommand {
    Later,
    Credentials { name: String, code: String },
}

/// Where a position starts from.
#[derive(Debug, Clone, PartialEq, Eq)]
pub enum PositionSpec {
    StartPos,
    Fen(Fen),
}

/// Clock state sent with `go`.
#[derive(Debug, Clone, Copy, PartialEq, Eq)]
pub struct TimeControl {
    pub wtime: Option<u64>,
    pub btime: Option<u64>,
    pub winc: Option<u64>,
    pub binc: Option<u64>,
    pub movestogo: Option<u64>,
}

/// What bounds a search.
#[derive(Debug, Clone, Copy, PartialEq, Eq)]
pub enum SearchLimit {
    Infinite,
    Depth(u64),
    Nodes(u64),
    Mate(u64),
    MoveTime(u64),
    TimeControl(TimeControl),
}

/// The parameters of `go`.
#[derive(Debug, Clone, PartialEq, Eq)]
pub struct GoParams {
    pub searchmoves: Vec<Move>,
    pub ponder: bool,
    pub limit: SearchLimit,
}

/// A message from the host to the engine.
#[derive(Debug, Clone, PartialEq, Eq)]
pub enum UciRequest {
    Uci,
    Debug(bool),
    IsReady,
    SetOption { name: String, value: Option<String> },
    Register(RegisterCommand),
    UciNewGame,
    Position { start: PositionSpec, moves: Vec<Move> },
    Go(GoParams),
    Stop,
    PonderHit,
    Quit,
}

/// Whether a score is exact or a bound.
#[derive(Debug, Clone, Copy, PartialEq, Eq)]
pub enum ScoreBound {
    Exact,
    LowerBound,
    UpperBound,
}

/// A score in centipawns, or in moves to mate.
#[derive(Debug, Clone, Copy, PartialEq, Eq)]
pub enum Score {
    Centipawns { value: i32, bound: ScoreBound },
    Mate { moves: i32, bound: ScoreBound },
}

/// A move refuted by a line of play.
#[derive(Debug, Clone, PartialEq, Eq)]
pub struct Refutation {
    pub mov: Move,
    pub line: Vec<Move>,
}

/// The line a CPU is searching.
#[derive(Debug, Clone, PartialEq, Eq)]
pub struct CurrLine {
    pub cpu: Option<u64>,
    pub moves: Vec<Move>,
}

/// The fields of an `info` message, each optional.
#[derive(Debug, Clone, Default, PartialEq, Eq)]
pub struct InfoFields {
    pub depth: Option<u64>,
    pub seldepth: Option<u64>,
    pub time: Option<u64>,
    pub nodes: Option<u64>,
    pub pv: Option<Vec<Move>>,
    pub multipv: Option<u64>,
    pub score: Option<Score>,
    pub currmove: Option<Move>,
    pub currmovenumber: Option<u64>,
    pub hashfull: Option<u64>,
    pub nps: Option<u64>,
    pub tbhits: Option<u64>,
    pub sbhits: Option<u64>,
    pub cpuload: Option<u64>,
    pub string: Option<String>,
    pub refutation: Option<Refutation>,
    pub currline: Option<CurrLine>,
}

/// The state of a copy protection or registration check.
#[derive(Debug, Clone, Copy, PartialEq, Eq)]
pub enum CheckStatus {
    Checking,
    Okay,
    Error,
}

/// The type of an engine option, with its default and range.
#[derive(Debug, Clone, PartialEq, Eq)]
pub enum OptionType {
    Check { default: bool },
    Spin { default: i64, min: i64, max: i64 },
    Combo { default: String, vars: Vec<String> },
    Button,
    Str { default: Option<String> },
}

/// A message from the engine to the host.
#[derive(Debug, Clone, PartialEq, Eq)]
pub enum UciResponse {
    IdName(String),
    IdAuthor(String),
    UciOk,
    ReadyOk,
    BestMove { mov: Move, ponder: Option<Move> },
    CopyProtection(CheckStatus),
    Registration(CheckStatus),
    Info(InfoFields),
    Option { name: String, option_type: OptionType },
}

// ---------------------------------------------------------------------------
// Views: the same messages with strings as character sequences and lists as
// sequences.

pub enum RegisterCommandV {
    Later,
    Credentials { name: Seq<char>, code: Seq<char> },
}

pub enum PositionSpecV {
    StartPos,
    Fen(FenV),
}

pub struct GoParamsV {
    pub searchmoves: Seq<Move>,
    pub ponder: bool,
    pub limit: SearchLimit,
}

pub enum UciRequestV {
    Uci,
    Debug(bool),
    IsReady,
    SetOption { name: Seq<char>, value: Option<Seq<char>> },
    Register(RegisterCommandV),
    UciNewGame,
    Position { start: PositionSpecV, moves: Seq<Move> },
    Go(GoParamsV),
    Stop,
    PonderHit,
    Quit,
}

pub struct RefutationV {
    pub mov: Move,
    pub line: Seq<Move>,
}

pub struct CurrLineV {
    pub cpu: Option<u64>,
    pub moves: Seq<Move>,
}

pub struct InfoFieldsV {
    pub depth: Option<u64>,
    pub seldepth: Option<u64>,
    pub time: Option<u64>,
    pub nodes: Option<u64>,
    pub pv: Option<Seq<Move>>,
    pub multipv: Option<u64>,
    pub score: Option<Score>,
    pub currmove: Option<Move>,
    pub currmovenumber: Option<u64>,
    pub hashfull: Option<u64>,
    pub nps: Option<u64>,
    pub tbhits: Option<u64>,
    pub sbhits: Option<u64>,
    pub cpuload: Option<u64>,
    pub string: Option<Seq<char>>,
    pub refutation: Option<RefutationV>,
    pub currline: Option<CurrLineV>,
}

pub enum OptionTypeV {
    Check { default: bool },
    Spin { default: i64, min: i64, max: i64 },
    Combo { default: Seq<char>, vars: Seq<Seq<char>> },
    Button,
    Str { default: Option<Seq<char>> },
}

pub enum UciResponseV {
    IdName(Seq<char>),
    IdAuthor(Seq<char>),
    UciOk,
    ReadyOk,
    BestMove { mov: Move, ponder: Option<Move> },
    CopyProtection(CheckStatus),
    Registration(CheckStatus),
    Info(InfoFieldsV),
    Option { name: Seq<char>, option_type: OptionTypeV },
}

/// The view of an optional string.
pub open spec fn opt_str_view(s: Option<String>) -> Option<Seq<char>> {
    match s {
        Some(t) => Some(t@),
        None => None,
    }
}

impl View for RegisterCommand {
    type V = RegisterCommandV;

    open spec fn view(&self) -> RegisterCommandV {
        match self {
            RegisterCommand::Later => RegisterCommandV::Later,
            RegisterCommand::Credentials { name, code } => RegisterCommandV::Credentials {
                name: name@,
                code: code@,
            },
        }
    }
}

impl View for PositionSpec {
    type V = PositionSpecV;

    open spec fn view(&self) -> PositionSpecV {
        match self {
            PositionSpec::StartPos => PositionSpecV::StartPos,
            PositionSpec::Fen(f) => PositionSpecV::Fen(f@),
        }
    }
}

impl View for GoParams {
    type V = GoParamsV;

    open spec fn view(&self) -> GoParamsV {
        GoParamsV { searchmoves: self.searchmoves@, ponder: self.ponder, limit: self.limit }
    }
}

impl View for UciRequest {
    type V = UciRequestV;

    open spec fn view(&self) -> UciRequestV {
        match self {
            UciRequest::Uci => UciRequestV::Uci,
            UciRequest::Debug(b) => UciRequestV::Debug(*b),
            UciRequest::IsReady => UciRequestV::IsReady,
            UciRequest::SetOption { name, value } => UciRequestV::SetOption {
                name: name@,
                value: opt_str_view(*value),
            },
            UciRequest::Register(r) => UciRequestV::Register(r@),
            UciRequest::UciNewGame => UciRequestV::UciNewGame,
            UciRequest::Position { start, moves } => UciRequestV::Position {
                start: start@,
                moves: moves@,
            },
            UciRequest::Go(p) => UciRequestV::Go(p@),
            UciRequest::Stop => UciRequestV::Stop,
            UciRequest::PonderHit => UciRequestV::PonderHit,
            UciRequest::Quit => UciRequestV::Quit,
        }
    }
}

impl View for Refutation {
    type V = RefutationV;

    open spec fn view(&self) -> RefutationV {
        RefutationV { mov: self.mov, line: self.line@ }
    }
}

impl View for CurrLine {
    type V = CurrLineV;

    open spec fn view(&self) -> CurrLineV {
        CurrLineV { cpu: self.cpu, moves: self.moves@ }
    }
}

impl View for InfoFields {
    type V = InfoFieldsV;

    open spec fn view(&self) -> InfoFieldsV {
        InfoFieldsV {
            depth: self.depth,
            seldepth: self.seldepth,
            time: self.time,
            nodes: self.nodes,
            pv: match self.pv {
                Some(v) => Some(v@),
                None => None,
            },
            multipv: self.multipv,
            score: self.score,
            currmove: self.currmove,
            currmovenumber: self.currmovenumber,
            hashfull: self.hashfull,
            nps: self.nps,
            tbhits: self.tbhits,
            sbhits: self.sbhits,
            cpuload: self.cpuload,
            string: opt_str_view(self.string),
            refutation: match self.refutation {
                Some(r) => Some(r@),
                None => None,
            },
            currline: match self.currline {
                Some(c) => Some(c@),
                None => None,
            },
        }
    }
}

impl View for OptionType {
    type V = OptionTypeV;

    open spec fn view(&self) -> OptionTypeV {
        match self {
            OptionType::Check { default } => OptionTypeV::Check { default: *default },
            OptionType::Spin { default, min, max } => OptionTypeV::Spin {
                default: *default,
                min: *min,
                max: *max,
            },
            OptionType::Combo { default, vars } => OptionTypeV::Combo {
                default: default@,
                vars: vars@.map_values(|v: String| v@),
            },
            OptionType::Button => OptionTypeV::Button,
            OptionType::Str { default } => OptionTypeV::Str { default: opt_str_view(*default) },
        }
    }
}

impl View for UciResponse {
    type V = UciResponseV;

    open spec fn view(&self) -> UciResponseV {
        match self {
            UciResponse::IdName(s) => UciResponseV::IdName(s@),
            UciResponse::IdAuthor(s) => UciResponseV::IdAuthor(s@),
            UciResponse::UciOk => UciResponseV::UciOk,
            UciResponse::ReadyOk => UciResponseV::ReadyOk,
            UciResponse::BestMove { mov, ponder } => UciResponseV::BestMove {
                mov: *mov,
                ponder: *ponder,
            },
            UciResponse::CopyProtection(c) => UciResponseV::CopyProtection(*c),
            UciResponse::Registration(c) => UciResponseV::Registration(*c),
            UciResponse::Info(f) => UciResponseV::Info(f@),
            UciResponse::Option { name, option_type } => UciResponseV::Option {
                name: name@,
                option_type: option_type@,
            },
        }
    }
}

} // verus!
