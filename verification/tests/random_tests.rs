use cheers::board::mailbox::Mailbox;
use cheers::eval::static_eval::StaticEval;
use cheers::search::random::RandomSearch;
use cheers::{Board, Fen, Search};

#[test]
fn returns_legal_move_from_startpos() {
    let mut search = RandomSearch::new(12345);
    let eval = StaticEval::new(0);
    let board = Mailbox::startpos();
    let mov = search.search(&board, &eval);
    assert!(mov.is_some());
    let legal_moves = board.generate_moves();
    assert!(legal_moves.contains(&mov.unwrap()));
}

#[test]
fn returns_none_on_checkmate() {
    let mut search = RandomSearch::new(12345);
    let eval = StaticEval::new(0);
    let board = Mailbox::from_fen(
        &Fen::try_from("rnb1kbnr/pppp1ppp/8/4p3/6Pq/5P2/PPPPP2P/RNBQKBNR w KQkq - 1 3").unwrap(),
    );
    assert_eq!(search.search(&board, &eval), None);
}

#[test]
fn different_seeds_produce_variety() {
    let eval = StaticEval::new(0);
    let board = Mailbox::startpos();
    let mut results = std::collections::HashSet::new();
    for seed in 1..=100u64 {
        let mut search = RandomSearch::new(seed);
        if let Some(m) = search.search(&board, &eval) {
            results.insert((m.from, m.to));
        }
    }
    assert!(results.len() > 1);
}

#[test]
fn successive_calls_vary() {
    let eval = StaticEval::new(0);
    let board = Mailbox::startpos();
    let mut search = RandomSearch::new(42);
    let mut results = std::collections::HashSet::new();
    for _ in 0..50 {
        if let Some(m) = search.search(&board, &eval) {
            results.insert((m.from, m.to));
        }
    }
    assert!(results.len() > 1);
}
