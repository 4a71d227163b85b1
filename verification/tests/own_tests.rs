use cheers::board::mailbox::{file_of, parse_square, rank_of, sq, Mailbox};
use cheers::engine::Engine;
use cheers::eval::static_eval::StaticEval;
use cheers::search::random::RandomSearch;
use cheers::uci::codec::{fmt_response, format_request, parse_request, parse_response};
use cheers::uci::de::deserialize_request;
use cheers::uci::de_response::deserialize_response;
use cheers::uci::ser::serialize_response;
use cheers::uci::{
    CheckStatus, GoParams, OptionType, PositionSpec, Score, ScoreBound, SearchLimit, TimeControl,
    UciRequest, UciResponse,
};
use cheers::{Board, Color, Eval, Fen, File, Move, Promotion, Rank, Search, Square};

fn sqr(file: File, rank: Rank) -> Square {
    Square { file, rank }
}

fn mv(from: Square, to: Square) -> Move {
    Move { from, to, promotion: None }
}

fn no_clocks() -> SearchLimit {
    SearchLimit::TimeControl(TimeControl {
        wtime: None,
        btime: None,
        winc: None,
        binc: None,
        movestogo: None,
    })
}

fn go_of(text: &str) -> GoParams {
    match UciRequest::try_from(text) {
        Ok(UciRequest::Go(p)) => p,
        other => panic!("not a go request: {other:?}"),
    }
}

fn xorshift(mut x: u64) -> u64 {
    x ^= x << 13;
    x ^= x >> 7;
    x ^= x << 17;
    x
}

// Requests read from text

#[test]
fn parse_request_drops_surrounding_white_space() {
    assert_eq!(parse_request("  isready \r\n"), Some(UciRequest::IsReady));
}

#[test]
fn parse_request_unknown_is_none() {
    assert_eq!(parse_request("hello"), None);
}

#[test]
fn deserialize_request_leaves_the_rest() {
    let (rest, req) = deserialize_request("uci foo").unwrap();
    assert_eq!(req, UciRequest::Uci);
    assert_eq!(rest, " foo");
}

#[test]
fn ucinewgame_is_tried_before_uci() {
    assert_eq!(UciRequest::try_from("ucinewgame"), Ok(UciRequest::UciNewGame));
}

#[test]
fn unknown_request_error_names_the_line() {
    assert_eq!(
        UciRequest::try_from("dance"),
        Err("unrecognized request: dance".to_string())
    );
}

#[test]
fn go_without_parameters_has_empty_clocks() {
    let p = go_of("go");
    assert_eq!(p.limit, no_clocks());
    assert!(!p.ponder);
    assert!(p.searchmoves.is_empty());
}

#[test]
fn go_infinite_wins_over_depth() {
    assert_eq!(go_of("go depth 5 infinite").limit, SearchLimit::Infinite);
}

#[test]
fn go_depth_wins_over_nodes() {
    assert_eq!(go_of("go nodes 100 depth 3").limit, SearchLimit::Depth(3));
}

#[test]
fn go_parameter_given_twice_keeps_the_last() {
    assert_eq!(go_of("go depth 3 depth 7").limit, SearchLimit::Depth(7));
}

#[test]
fn go_stops_at_an_unknown_word() {
    assert_eq!(go_of("go depth 3 foo nodes 5").limit, SearchLimit::Depth(3));
}

#[test]
fn go_number_too_large_stops_reading() {
    assert_eq!(go_of("go depth 18446744073709551616").limit, no_clocks());
}

#[test]
fn go_largest_number_reads_back() {
    assert_eq!(
        go_of("go movetime 18446744073709551615").limit,
        SearchLimit::MoveTime(u64::MAX)
    );
}

#[test]
fn go_clocks_and_ponder() {
    let p = go_of("go ponder wtime 10 binc 2");
    assert!(p.ponder);
    assert_eq!(
        p.limit,
        SearchLimit::TimeControl(TimeControl {
            wtime: Some(10),
            btime: None,
            winc: None,
            binc: Some(2),
            movestogo: None,
        })
    );
}

#[test]
fn position_with_bad_fen_is_refused() {
    assert_eq!(
        UciRequest::try_from("position fen xyz"),
        Err("unrecognized request: position fen xyz".to_string())
    );
}

#[test]
fn position_moves_stop_at_a_bad_move() {
    let req = UciRequest::try_from("position startpos moves e2e4 zz e7e5").unwrap();
    assert_eq!(
        req,
        UciRequest::Position {
            start: PositionSpec::StartPos,
            moves: vec![mv(sqr(File::E, Rank::R2), sqr(File::E, Rank::R4))],
        }
    );
}

#[test]
fn position_fen_with_trailing_space_before_moves() {
    let req =
        UciRequest::try_from("position fen 8/8/8/8/8/8/8/8 w - - 0 1  moves a2a4").unwrap();
    match req {
        UciRequest::Position { start: PositionSpec::Fen(f), moves } => {
            assert_eq!(f, Fen::try_from("8/8/8/8/8/8/8/8 w - - 0 1").unwrap());
            assert_eq!(moves, vec![mv(sqr(File::A, Rank::R2), sqr(File::A, Rank::R4))]);
        }
        other => panic!("unexpected {other:?}"),
    }
}

#[test]
fn setoption_value_word_without_value() {
    assert_eq!(
        UciRequest::try_from("setoption name Hash value"),
        Ok(UciRequest::SetOption { name: "Hash".to_string(), value: None })
    );
}

#[test]
fn setoption_name_loses_trailing_spaces() {
    assert_eq!(
        UciRequest::try_from("setoption name Hash   value 1"),
        Ok(UciRequest::SetOption {
            name: "Hash".to_string(),
            value: Some("1".to_string()),
        })
    );
}

#[test]
fn register_without_code_is_refused() {
    assert!(UciRequest::try_from("register name x").is_err());
}

#[test]
fn debug_needs_on_or_off() {
    assert!(UciRequest::try_from("debug maybe").is_err());
}

#[test]
fn format_request_writes_debug() {
    assert_eq!(format_request(&UciRequest::Debug(true)), "debug on");
}

// Responses read from text

#[test]
fn parse_response_drops_surrounding_white_space() {
    assert_eq!(parse_response(" readyok\r"), Some(UciResponse::ReadyOk));
}

#[test]
fn unknown_response_error_names_the_line() {
    assert_eq!(
        UciResponse::try_from("nonsense"),
        Err("unrecognized response: nonsense".to_string())
    );
}

#[test]
fn deserialize_response_leaves_the_rest() {
    let (rest, resp) = deserialize_response("uciok now").unwrap();
    assert_eq!(resp, UciResponse::UciOk);
    assert_eq!(rest, " now");
}

#[test]
fn fmt_response_writes_readyok() {
    assert_eq!(fmt_response(&UciResponse::ReadyOk), "readyok");
}

#[test]
fn bestmove_ponder_without_move_is_dropped() {
    assert_eq!(
        UciResponse::try_from("bestmove e2e4 ponder"),
        Ok(UciResponse::BestMove {
            mov: mv(sqr(File::E, Rank::R2), sqr(File::E, Rank::R4)),
            ponder: None,
        })
    );
}

#[test]
fn promotion_letter_is_read() {
    assert_eq!(
        UciResponse::try_from("bestmove a7a8n"),
        Ok(UciResponse::BestMove {
            mov: Move {
                from: sqr(File::A, Rank::R7),
                to: sqr(File::A, Rank::R8),
                promotion: Some(Promotion::Knight),
            },
            ponder: None,
        })
    );
}

#[test]
fn info_score_keeps_low_32_bits() {
    match UciResponse::try_from("info score cp 4294967297").unwrap() {
        UciResponse::Info(f) => assert_eq!(
            f.score,
            Some(Score::Centipawns { value: 1, bound: ScoreBound::Exact })
        ),
        other => panic!("unexpected {other:?}"),
    }
}

#[test]
fn info_string_takes_the_rest_of_the_line() {
    match UciResponse::try_from("info depth 2 string hello  world").unwrap() {
        UciResponse::Info(f) => {
            assert_eq!(f.depth, Some(2));
            assert_eq!(f.string, Some("hello  world".to_string()));
        }
        other => panic!("unexpected {other:?}"),
    }
}

#[test]
fn info_currmovenumber_is_not_currmove() {
    match UciResponse::try_from("info currmovenumber 3").unwrap() {
        UciResponse::Info(f) => {
            assert_eq!(f.currmovenumber, Some(3));
            assert_eq!(f.currmove, None);
        }
        other => panic!("unexpected {other:?}"),
    }
}

#[test]
fn option_string_empty_marker_is_no_default() {
    assert_eq!(
        UciResponse::try_from("option name X type string default <empty>"),
        Ok(UciResponse::Option {
            name: "X".to_string(),
            option_type: OptionType::Str { default: None },
        })
    );
}

#[test]
fn option_combo_values() {
    assert_eq!(
        UciResponse::try_from("option name Style type combo default Normal var Solid var Normal"),
        Ok(UciResponse::Option {
            name: "Style".to_string(),
            option_type: OptionType::Combo {
                default: "Normal".to_string(),
                vars: vec!["Solid".to_string(), "Normal".to_string()],
            },
        })
    );
}

#[test]
fn option_spin_extremes_read_back() {
    let resp = UciResponse::Option {
        name: "Big".to_string(),
        option_type: OptionType::Spin { default: 0, min: i64::MIN, max: i64::MAX },
    };
    let text = serialize_response(&resp);
    assert_eq!(
        text,
        "option name Big type spin default 0 min -9223372036854775808 max 9223372036854775807"
    );
    assert_eq!(UciResponse::try_from(text.as_str()), Ok(resp));
}

#[test]
fn registration_ok_reads_back() {
    assert_eq!(
        UciResponse::try_from("registration ok"),
        Ok(UciResponse::Registration(CheckStatus::Okay))
    );
}

// FEN

#[test]
fn fen_text_after_fullmove_is_ignored() {
    let f = Fen::try_from("8/8/8/8/8/8/8/8 w - - 0 1 extra").unwrap();
    assert_eq!(f.to_string(), "8/8/8/8/8/8/8/8 w - - 0 1");
}

#[test]
fn fen_error_names_the_text() {
    assert_eq!(Fen::try_from("8/8"), Err("invalid FEN: 8/8".to_string()));
}

#[test]
fn fen_rank_of_nine_squares_is_refused() {
    assert!(Fen::try_from("8/8/8/8/8/8/8/p8 w - - 0 1").is_err());
}

#[test]
fn fen_startpos_writes_the_standard_text() {
    assert_eq!(
        Fen::startpos().to_string(),
        "rnbqkbnr/pppppppp/8/8/8/8/PPPPPPPP/RNBQKBNR w KQkq - 0 1"
    );
}

// Squares and colours

#[test]
fn square_index_reads_back_for_every_square() {
    for i in 0..64u8 {
        assert_eq!(Square::from_index(i).index(), i);
    }
}

#[test]
fn opposite_twice_is_the_same_colour() {
    assert_eq!(Color::White.opposite().opposite(), Color::White);
    assert_eq!(Color::Black.opposite(), Color::White);
}

#[test]
fn mailbox_square_numbers() {
    assert_eq!(sq(4, 3), 28);
    assert_eq!(file_of(28), 4);
    assert_eq!(rank_of(28), 3);
    assert_eq!(parse_square("e4"), Ok(28));
    assert_eq!(parse_square("z9"), Err("invalid square: z9".to_string()));
    assert_eq!(parse_square("e44"), Err("invalid square: e44".to_string()));
}

// Search and evaluation

#[test]
fn random_search_picks_the_move_the_generator_names() {
    let board = Mailbox::startpos();
    let moves = board.generate_moves();
    let mut search = RandomSearch::new(42);
    let m = search.search(&board, &StaticEval::new(0)).unwrap();
    assert_eq!(m, moves[(xorshift(42) as usize) % moves.len()]);
}

#[test]
fn random_search_zero_seed_acts_as_one() {
    let board = Mailbox::startpos();
    let eval = StaticEval::new(0);
    let mut a = RandomSearch::new(0);
    let mut b = RandomSearch::new(1);
    assert_eq!(a.search(&board, &eval), b.search(&board, &eval));
}

#[test]
fn static_eval_scores_every_position_alike() {
    let eval = StaticEval::new(7);
    assert_eq!(eval.evaluate(&Mailbox::startpos()), 7);
    assert_eq!(StaticEval::default().evaluate(&Mailbox::startpos()), 0);
}

// The engine

fn engine() -> Engine<Mailbox, RandomSearch, StaticEval> {
    Engine::new(RandomSearch::new(42), StaticEval::new(0))
}

#[test]
fn engine_answers_uci_with_its_id() {
    let mut e = engine();
    let (out, go_on) = e.handle(UciRequest::Uci);
    let texts: Vec<String> = out.iter().map(serialize_response).collect();
    assert_eq!(texts, vec!["id name cheers", "id author theklisha", "uciok"]);
    assert!(go_on);
}

#[test]
fn engine_answers_isready() {
    let mut e = engine();
    assert_eq!(e.handle(UciRequest::IsReady), (vec![UciResponse::ReadyOk], true));
}

#[test]
fn engine_sets_up_a_position() {
    let mut e = engine();
    let req = UciRequest::try_from("position startpos moves e2e4").unwrap();
    assert_eq!(e.handle(req), (vec![], true));
    assert_eq!(
        e.board.fen(),
        Fen::try_from("rnbqkbnr/pppppppp/8/8/4P3/8/PPPP1PPP/RNBQKBNR b KQkq e3 0 1").unwrap()
    );
    assert_eq!(e.handle(UciRequest::UciNewGame), (vec![], true));
    assert_eq!(e.board.fen(), Fen::startpos());
}

#[test]
fn engine_go_sends_info_then_a_legal_move() {
    let mut e = engine();
    let (out, go_on) = e.handle(UciRequest::try_from("go depth 1").unwrap());
    assert!(go_on);
    assert_eq!(out.len(), 2);
    assert_eq!(serialize_response(&out[0]), "info depth 1 score cp 0");
    match &out[1] {
        UciResponse::BestMove { mov, ponder: None } => {
            assert!(Mailbox::startpos().generate_moves().contains(mov));
        }
        other => panic!("unexpected {other:?}"),
    }
}

#[test]
fn engine_go_when_mated_sends_only_info() {
    let mut e = engine();
    let req = UciRequest::try_from(
        "position fen rnb1kbnr/pppp1ppp/8/4p3/6Pq/5P2/PPPPP2P/RNBQKBNR w KQkq - 1 3",
    )
    .unwrap();
    e.handle(req);
    let (out, go_on) = e.handle(UciRequest::try_from("go").unwrap());
    assert!(go_on);
    assert_eq!(out.len(), 1);
}

#[test]
fn engine_session_after_e2e4_answers_a7a5() {
    let mut e: Engine<Mailbox, RandomSearch, StaticEval> =
        Engine::new(RandomSearch::default(), StaticEval::default());
    assert_eq!(e.handle(UciRequest::IsReady), (vec![UciResponse::ReadyOk], true));
    let req = UciRequest::Position {
        start: PositionSpec::StartPos,
        moves: vec![mv(sqr(File::E, Rank::R2), sqr(File::E, Rank::R4))],
    };
    assert_eq!(e.handle(req), (vec![], true));
    let (out, go_on) = e.handle(UciRequest::try_from("go").unwrap());
    assert!(go_on);
    let texts: Vec<String> = out.iter().map(serialize_response).collect();
    assert_eq!(texts, vec!["info depth 1 score cp 0", "bestmove a7a5"]);
    assert_eq!(e.handle(UciRequest::Quit), (vec![], false));
}

#[test]
fn engine_go_advances_the_chooser_once_per_pick() {
    let board = Mailbox::startpos();
    let moves = board.generate_moves();
    let mut e = engine();
    let (first, _) = e.handle(UciRequest::try_from("go").unwrap());
    let (second, _) = e.handle(UciRequest::try_from("go").unwrap());
    let x1 = xorshift(42);
    let x2 = xorshift(x1);
    assert_eq!(first[1], UciResponse::BestMove { mov: moves[(x1 as usize) % moves.len()], ponder: None });
    assert_eq!(second[1], UciResponse::BestMove { mov: moves[(x2 as usize) % moves.len()], ponder: None });
}

#[test]
fn is_attacked_takes_indices_past_the_board() {
    let board = Mailbox::startpos();
    // Index 64 is file a, one rank above the eighth: the rook on a8 sees it.
    assert!(board.is_attacked(64, Color::Black));
    assert!(!board.is_attacked(64, Color::White));
    // Index 72 is file a, two ranks above the eighth: the knight on b8 jumps there.
    assert!(board.is_attacked(72, Color::Black));
    // Three ranks above the board nothing reaches it.
    assert!(!board.is_attacked(80, Color::Black));
    assert!(!board.is_attacked(255, Color::Black));
    assert!(!board.is_attacked(255, Color::White));
}

#[test]
fn engine_stops_on_quit_and_ignores_stop() {
    let mut e = engine();
    assert_eq!(e.handle(UciRequest::Stop), (vec![], true));
    assert_eq!(e.handle(UciRequest::Quit), (vec![], false));
}

#[test]
fn older_interface_opposite_colour() {
    assert_eq!(cheers::board::Color::White.opposite(), cheers::board::Color::Black);
    assert_eq!(cheers::board::Color::Black.opposite(), cheers::board::Color::White);
}

// Laws of move generation, on concrete positions

fn board_of(s: &str) -> Mailbox {
    Mailbox::from_fen(&Fen::try_from(s).unwrap())
}

fn promo(from: Square, to: Square, p: Promotion) -> Move {
    Move { from, to, promotion: Some(p) }
}

#[test]
fn legal_moves_hold_castling_en_passant_and_promotions_once_each() {
    let b = board_of("r3k2r/1P6/8/3pP3/8/8/8/R3K2R w KQkq d6 0 1");
    let moves = b.generate_moves();
    for p in [Promotion::Queen, Promotion::Rook, Promotion::Bishop, Promotion::Knight] {
        assert!(moves.contains(&promo(sqr(File::B, Rank::R7), sqr(File::B, Rank::R8), p)));
        assert!(moves.contains(&promo(sqr(File::B, Rank::R7), sqr(File::A, Rank::R8), p)));
    }
    assert!(!moves.contains(&mv(sqr(File::B, Rank::R7), sqr(File::B, Rank::R8))));
    assert!(moves.contains(&mv(sqr(File::E, Rank::R5), sqr(File::D, Rank::R6))));
    assert!(moves.contains(&mv(sqr(File::E, Rank::R1), sqr(File::G, Rank::R1))));
    assert!(moves.contains(&mv(sqr(File::E, Rank::R1), sqr(File::C, Rank::R1))));
    for (i, a) in moves.iter().enumerate() {
        for c in &moves[i + 1..] {
            assert_ne!(a, c);
        }
    }
    for m in &moves {
        assert_eq!(b.piece_at(m.from).map(|p| p.0), Some(Color::White));
    }
}

#[test]
fn legal_moves_leave_out_moves_into_check() {
    // The knight on e2 is pinned by the rook on e8; it has no legal move.
    let b = board_of("4r1k1/8/8/8/8/8/4N3/4K3 w - - 0 1");
    let moves = b.generate_moves();
    assert!(moves.iter().all(|m| m.from != sqr(File::E, Rank::R2)));
    assert!(moves.contains(&mv(sqr(File::E, Rank::R1), sqr(File::D, Rank::R1))));
}

#[test]
fn do_move_from_an_empty_square_changes_nothing() {
    let b = Mailbox::startpos();
    let after = b.do_move(mv(sqr(File::E, Rank::R4), sqr(File::E, Rank::R5)));
    assert_eq!(after, b);
}

#[test]
fn castling_right_without_its_king_at_home_can_list_a_move_twice() {
    // A kingside right kept while the king stands on h1: the step to g1 and
    // the castling move to g1 are the same move.
    let b = board_of("k7/8/8/8/8/8/8/7K w K - 0 1");
    let moves = b.generate_moves();
    let h1g1 = mv(sqr(File::H, Rank::R1), sqr(File::G, Rank::R1));
    assert_eq!(moves.iter().filter(|m| **m == h1g1).count(), 2);
}

// Lines read back

#[test]
fn request_line_reads_back_through_surrounding_white_space() {
    let r = UciRequest::SetOption { name: "Hash".to_string(), value: Some("32".to_string()) };
    let line = format!("  {} \r\n", format_request(&r));
    assert_eq!(parse_request(&line), Some(r.clone()));
    assert_eq!(parse_request(&format_request(&r)), Some(r));
}

#[test]
fn request_line_ending_in_a_blank_loses_it() {
    let r = UciRequest::SetOption { name: "Hash".to_string(), value: Some("32 ".to_string()) };
    assert_eq!(
        parse_request(&format_request(&r)),
        Some(UciRequest::SetOption { name: "Hash".to_string(), value: Some("32".to_string()) })
    );
}

#[test]
fn response_line_reads_back_unless_it_ends_in_a_blank() {
    let r = UciResponse::IdName("cheers".to_string());
    assert_eq!(parse_response(&fmt_response(&r)), Some(r));
    let padded = UciResponse::IdName("cheers ".to_string());
    assert_eq!(
        parse_response(&fmt_response(&padded)),
        Some(UciResponse::IdName("cheers".to_string()))
    );
}
