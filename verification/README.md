# chess_engine

A small chess engine whose rules are verified with Verus.

- `src/bits.rs` — facts about single bits of 64-bit words.
- `src/board.rs` — colours, pieces and the bitboard: placing, removing and
  reading pieces, occupancy, king squares and attacked squares.
- `src/game.rs` — a game: move validation (`make_move_uci`), legal move
  generation, check, checkmate and stalemate, and FEN output.
- `src/eval.rs` — material evaluation.
- `src/dennis_engine.rs` — an engine that plays a random legal move.
- `src/uci.rs` — the UCI protocol: reading `position` and `go`, and the
  answer to each input line (`uci_step`).
- `src/text.rs` — white space, trimming, words and decimal numbers.
- `src/laws.rs` — properties that tie the operations together, such as
  "every listed legal move is accepted" and "no listed move means the game
  is over".
- `app/` — the WebAssembly API, and the UCI loop that reads lines and
  prints the answers.
