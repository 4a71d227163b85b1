//! Whole lines of UCI: requests and responses written as text, and read back
//! from a line with its surrounding white space dropped.
use vstd::prelude::*;

use super::de::{parse_request_chars, read_request};
use super::de_response::{parse_response_chars, read_response};
use super::readback::{request_readable, request_text_reads_back};
use super::readback_response::{response_readable, response_text_reads_back};
use super::ser::{request_text, response_text, serialize_request, serialize_response};
use super::{PositionSpecV, RegisterCommandV, UciRequest, UciRequestV, UciResponse, UciResponseV};
use crate::text::{is_white, lemma_trimmed_clean, no_trail_white, trimmed, trimmed_chars};

verus! {

/// The text of a response.
pub fn fmt_response(resp: &UciResponse) -> (s: String)
    ensures
        s@ == response_text(resp@),
{
    serialize_response(resp)
}

/// The text of a request.
pub fn format_request(req: &UciRequest) -> (s: String)
    ensures
        s@ == request_text(req@),
{
    serialize_request(req)
}

/// The request a line holds, once white space around it is dropped.
pub fn parse_request(line: &str) -> (r: Option<UciRequest>)
    ensures
        match read_request(trimmed(line@)) {
            Some((_, v)) => r matches Some(req) && req@ == v,
            None => r is None,
        },
{
    let cs = trimmed_chars(line);
    match parse_request_chars(&cs) {
        Some((_, req)) => Some(req),
        None => None,
    }
}

/// The response a line holds, once white space around it is dropped.
pub fn parse_response(line: &str) -> (r: Option<UciResponse>)
    ensures
        match read_response(trimmed(line@)) {
            Some((_, v)) => r matches Some(resp) && resp@ == v,
            None => r is None,
        },
{
    let cs = trimmed_chars(line);
    match parse_response_chars(&cs) {
        Some((_, resp)) => Some(resp),
        None => None,
    }
}

/// The text of a request starts with the letter of its keyword.
proof fn lemma_request_text_starts(r: UciRequestV)
    ensures
        request_text(r).len() > 0,
        !is_white(request_text(r)[0]),
{
    let t = request_text(r);
    match r {
        UciRequestV::Uci => reveal_strlit("uci"),
        UciRequestV::Debug(b) => {
            reveal_strlit("debug on");
            reveal_strlit("debug off");
        },
        UciRequestV::IsReady => reveal_strlit("isready"),
        UciRequestV::SetOption { name, value } => {
            reveal_strlit("setoption name ");
            assert(t[0] == "setoption name "@[0]);
        },
        UciRequestV::Register(RegisterCommandV::Later) => reveal_strlit("register later"),
        UciRequestV::Register(RegisterCommandV::Credentials { name, code }) => {
            reveal_strlit("register name ");
            assert(t[0] == "register name "@[0]);
        },
        UciRequestV::UciNewGame => reveal_strlit("ucinewgame"),
        UciRequestV::Position { start, moves } => {
            reveal_strlit("position startpos");
            reveal_strlit("position fen ");
            match start {
                PositionSpecV::StartPos => {
                    assert(t[0] == "position startpos"@[0]);
                },
                PositionSpecV::Fen(_) => {
                    assert(t[0] == "position fen "@[0]);
                },
            }
        },
        UciRequestV::Go(p) => {
            reveal_strlit("go");
            assert(t[0] == "go"@[0]);
        },
        UciRequestV::Stop => reveal_strlit("stop"),
        UciRequestV::PonderHit => reveal_strlit("ponderhit"),
        UciRequestV::Quit => reveal_strlit("quit"),
    }
}

/// The text of a response starts with the letter of its keyword.
proof fn lemma_response_text_starts(r: UciResponseV)
    ensures
        response_text(r).len() > 0,
        !is_white(response_text(r)[0]),
{
    let t = response_text(r);
    match r {
        UciResponseV::IdName(_) => {
            reveal_strlit("id name ");
            assert(t[0] == "id name "@[0]);
        },
        UciResponseV::IdAuthor(_) => {
            reveal_strlit("id author ");
            assert(t[0] == "id author "@[0]);
        },
        UciResponseV::UciOk => reveal_strlit("uciok"),
        UciResponseV::ReadyOk => reveal_strlit("readyok"),
        UciResponseV::BestMove { .. } => {
            reveal_strlit("bestmove ");
            assert(t[0] == "bestmove "@[0]);
        },
        UciResponseV::CopyProtection(_) => {
            reveal_strlit("copyprotection ");
            assert(t[0] == "copyprotection "@[0]);
        },
        UciResponseV::Registration(_) => {
            reveal_strlit("registration ");
            assert(t[0] == "registration "@[0]);
        },
        UciResponseV::Info(_) => {
            reveal_strlit("info");
            assert(t[0] == "info"@[0]);
        },
        UciResponseV::Option { .. } => {
            reveal_strlit("option name ");
            assert(t[0] == "option name "@[0]);
        },
    }
}

/// A request written as a line and read back from that line, white space
/// around it dropped, is the same request: so `parse_request` of what
/// `format_request` writes gives the request back. This holds of a request
/// that reads back from its text (`request_readable`) and whose text does
/// not end in white space (as a setting's value or a registration code that
/// ends in a blank would make it).
pub proof fn lemma_request_line_reads_back(r: UciRequestV)
    requires
        request_readable(r),
        no_trail_white(request_text(r)),
    ensures
        trimmed(request_text(r)) == request_text(r),
        read_request(trimmed(request_text(r))) == Some((request_text(r).len() as int, r)),
{
    lemma_request_text_starts(r);
    lemma_trimmed_clean(request_text(r));
    request_text_reads_back(r);
}

/// A response written as a line and read back from that line, white space
/// around it dropped, is the same response: so `parse_response` of what
/// `fmt_response` writes gives the response back. This holds of a response
/// that reads back from its text (`response_readable`) and whose text does
/// not end in white space (as a name, an author or an `info string` that
/// ends in a blank would make it).
pub proof fn lemma_response_line_reads_back(r: UciResponseV)
    requires
        response_readable(r),
        no_trail_white(response_text(r)),
    ensures
        trimmed(response_text(r)) == response_text(r),
        read_response(trimmed(response_text(r))) == Some((response_text(r).len() as int, r)),
{
    lemma_response_text_starts(r);
    lemma_trimmed_clean(response_text(r));
    response_text_reads_back(r);
}

} // verus!
