//! The engine's side of a UCI session: what it answers to each request and
//! how its position changes. Channels and threads around it are the
//! program's business; here a request goes in and the answers come out.
use vstd::prelude::*;

use crate::fen::startpos_view;
use crate::uci::{
    InfoFields, InfoFieldsV, PositionSpec, PositionSpecV, Score, ScoreBound, UciRequest,
    UciRequestV, UciResponse, UciResponseV,
};
use crate::text::push_str;
use crate::{Board, Eval, Move, Search};

verus! {

/// The position reached by playing `moves` from `b` in turn; none when one
/// of them cannot be played.
pub open spec fn play_line<B: Board>(b: B, moves: Seq<Move>) -> Option<B>
    decreases moves.len(),
{
    if moves.len() == 0 {
        Some(b)
    } else if b.playable(moves[0]) {
        play_line(b.after(moves[0]), moves.drop_first())
    } else {
        None
    }
}

/// The position a `position` request starts from.
pub open spec fn start_board<B: Board>(start: PositionSpecV) -> B {
    match start {
        PositionSpecV::StartPos => B::of_fen(startpos_view()),
        PositionSpecV::Fen(f) => B::of_fen(f),
    }
}

/// The name the engine gives in its `id`.
pub open spec fn engine_name() -> Seq<char> {
    "cheers"@
}

/// The author the engine gives in its `id`.
pub open spec fn engine_author() -> Seq<char> {
    "theklisha"@
}

/// The `info` sent before a best move: depth one and the static score.
pub open spec fn go_info(score: i32) -> UciResponseV {
    UciResponseV::Info(
        InfoFieldsV {
            depth: Some(1),
            seldepth: None,
            time: None,
            nodes: None,
            pv: None,
            multipv: None,
            score: Some(Score::Centipawns { value: score, bound: ScoreBound::Exact }),
            currmove: None,
            currmovenumber: None,
            hashfull: None,
            nps: None,
            tbhits: None,
            sbhits: None,
            cpuload: None,
            string: None,
            refutation: None,
            currline: None,
        },
    )
}

/// The views of a list of responses.
pub open spec fn responses_view(rs: Seq<UciResponse>) -> Seq<UciResponseV> {
    rs.map_values(|r: UciResponse| r@)
}

/// An engine: the current position, a move chooser and an evaluation.
pub struct Engine<B, S, E> {
    pub board: B,
    pub search: S,
    pub eval: E,
}

impl<B: Board, S: Search, E: Eval> Engine<B, S, E> {
    /// An engine at the starting position.
    pub fn new(search: S, eval: E) -> (r: Self)
        ensures
            r.board == B::of_fen(startpos_view()),
            r.search == search,
            r.eval == eval,
    {
        Engine { board: B::startpos(), search, eval }
    }

    /// Answers one request. The answers are sent in order; the engine stops
    /// when the flag is false: after `quit`, and when a position cannot be set
    /// up or searched without a counter overflowing.
    ///
    /// - `uci`: its name, its author, `uciok`.
    /// - `isready`: `readyok`.
    /// - `ucinewgame`: back to the starting position, no answer.
    /// - `position`: the start position with the moves played in turn, no answer.
    /// - `go`: an `info` with depth one and the static score, then the move
    ///   the chooser picks from the legal moves, if it picks one; the chooser
    ///   is left as the pick leaves it.
    /// - anything else: ignored.
    pub fn handle(&mut self, req: UciRequest) -> (r: (Vec<UciResponse>, bool))
        ensures
            final(self).eval == old(self).eval,
            match req@ {
                UciRequestV::Uci => {
                    &&& responses_view(r.0@) == seq![
                        UciResponseV::IdName(engine_name()),
                        UciResponseV::IdAuthor(engine_author()),
                        UciResponseV::UciOk,
                    ]
                    &&& r.1
                    &&& final(self).board == old(self).board
                    &&& final(self).search == old(self).search
                },
                UciRequestV::IsReady => {
                    &&& responses_view(r.0@) == seq![UciResponseV::ReadyOk]
                    &&& r.1
                    &&& final(self).board == old(self).board
                    &&& final(self).search == old(self).search
                },
                UciRequestV::UciNewGame => {
                    &&& r.0@.len() == 0
                    &&& r.1
                    &&& final(self).board == B::of_fen(startpos_view())
                    &&& final(self).search == old(self).search
                },
                UciRequestV::Position { start, moves } => {
                    &&& r.0@.len() == 0
                    &&& final(self).search == old(self).search
                    &&& match play_line(start_board::<B>(start), moves) {
                        Some(b) => r.1 && final(self).board == b,
                        None => !r.1,
                    }
                },
                UciRequestV::Go(_) => {
                    &&& final(self).board == old(self).board
                    &&& if old(self).board.moves_listable() {
                        let legal = old(self).board.legal_move_seq();
                        &&& r.1
                        &&& r.0@.len() == if old(self).search.pick(legal) is Some {
                            2int
                        } else {
                            1int
                        }
                        &&& r.0@[0]@ == go_info(old(self).eval.score(old(self).board.fen_view()))
                        &&& old(self).search.pick(legal) matches Some(m) ==> {
                            &&& r.0@[1]@ == (UciResponseV::BestMove { mov: m, ponder: None })
                            &&& legal.contains(m)
                        }
                        &&& final(self).search == old(self).search.after_pick(legal)
                    } else {
                        &&& !r.1
                        &&& r.0@.len() == 0
                        &&& final(self).search == old(self).search
                    }
                },
                UciRequestV::Quit => {
                    &&& r.0@.len() == 0
                    &&& !r.1
                    &&& final(self).board == old(self).board
                    &&& final(self).search == old(self).search
                },
                _ => {
                    &&& r.0@.len() == 0
                    &&& r.1
                    &&& final(self).board == old(self).board
                    &&& final(self).search == old(self).search
                },
            },
    {
        let mut out: Vec<UciResponse> = Vec::new();
        match req {
            UciRequest::Uci => {
                let mut name = String::new();
                push_str(&mut name, "cheers");
                let mut author = String::new();
                push_str(&mut author, "theklisha");
                out.push(UciResponse::IdName(name));
                out.push(UciResponse::IdAuthor(author));
                out.push(UciResponse::UciOk);
                assert(responses_view(out@) =~= seq![
                    UciResponseV::IdName(engine_name()),
                    UciResponseV::IdAuthor(engine_author()),
                    UciResponseV::UciOk,
                ]);
                (out, true)
            },
            UciRequest::IsReady => {
                out.push(UciResponse::ReadyOk);
                assert(responses_view(out@) =~= seq![UciResponseV::ReadyOk]);
                (out, true)
            },
            UciRequest::UciNewGame => {
                self.board = B::startpos();
                (out, true)
            },
            UciRequest::Position { start, moves } => {
                let ghost start_v = start@;
                assert(req@ == (UciRequestV::Position { start: start_v, moves: moves@ }));
                let mut board = match start {
                    PositionSpec::StartPos => B::startpos(),
                    PositionSpec::Fen(fen) => B::from_fen(&fen),
                };
                let mut i: usize = 0;
                assert(moves@.skip(0) =~= moves@);
                while i < moves.len()
                    invariant
                        0 <= i <= moves@.len(),
                        req@ == (UciRequestV::Position { start: start_v, moves: moves@ }),
                        *self == *old(self),
                        out@.len() == 0,
                        play_line(start_board::<B>(start_v), moves@) == play_line(
                            board,
                            moves@.skip(i as int),
                        ),
                    decreases moves@.len() - i,
                {
                    let m = moves[i];
                    assert(moves@.skip(i as int).drop_first() =~= moves@.skip(i + 1));
                    assert(moves@.skip(i as int)[0] == m);
                    if !board.can_play(m) {
                        assert(play_line(board, moves@.skip(i as int)) is None);
                        return (out, false);
                    }
                    board = board.do_move(m);
                    i = i + 1;
                }
                assert(moves@.skip(i as int) =~= Seq::<Move>::empty());
                self.board = board;
                (out, true)
            },
            UciRequest::Go(_) => {
                if !self.board.can_list_moves() {
                    return (out, false);
                }
                let score = self.eval.evaluate(&self.board);
                out.push(UciResponse::Info(InfoFields {
                    depth: Some(1),
                    seldepth: None,
                    time: None,
                    nodes: None,
                    pv: None,
                    multipv: None,
                    score: Some(Score::Centipawns { value: score, bound: ScoreBound::Exact }),
                    currmove: None,
                    currmovenumber: None,
                    hashfull: None,
                    nps: None,
                    tbhits: None,
                    sbhits: None,
                    cpuload: None,
                    string: None,
                    refutation: None,
                    currline: None,
                }));
                match self.search.search(&self.board, &self.eval) {
                    Some(m) => {
                        out.push(UciResponse::BestMove { mov: m, ponder: None });
                    },
                    None => {},
                }
                (out, true)
            },
            UciRequest::Quit => (out, false),
            _ => (out, true),
        }
    }
}

} // verus!
