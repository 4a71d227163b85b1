# cheers

A small chess engine that speaks UCI, written in Verus: the board, the move
rules, FEN and the UCI codec are verified against their specifications.

Layout:

- `src/lib.rs` — colours, pieces, squares, moves, castling rights, and the
  `Board`, `Eval` and `Search` traits.
- `src/board/` — the mailbox board (`mailbox.rs`) proved against the move
  rules of `rules.rs`, and the layout of a bitboard board. `move_laws.rs`
  states the rules piece by piece and proves that the legal move list holds
  exactly the moves they allow that leave the mover's king safe, each once.
- `src/fen/` — reading and writing FEN; `readback.rs` proves that a record
  written as text reads back as itself.
- `src/uci/` — the UCI messages, their text (`ser.rs`), the grammar that
  reads them (`grammar.rs`, `de.rs`, `de_response.rs`), whole lines
  (`codec.rs`), and the proofs that written messages read back
  (`readback.rs`, `readback_response.rs`), also as whole lines with the
  white space around them dropped (`codec.rs`).
- `src/text.rs` — characters, decimal numbers, blanks, keywords.
- `src/engine.rs` — what the engine answers to each request.
- `src/eval/`, `src/search/` — a constant evaluation and a random move chooser.
- `app/main.rs` — the program: standard input and output, threads, channels.
- `tests/` — scenario tests.
