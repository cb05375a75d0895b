# Quicksand

A small UCI chess engine whose logic is verified with Verus.

- `src/chess.rs`: colors, pieces, moves and positions. Move generation,
  making moves, hashing and FEN parsing come from `cozy_chess`, behind the
  trusted functions of this module; a position keeps what the engine reads
  of the board as plain values.
- `src/engine/`: the engine the program runs: piece-square evaluation,
  move lists with a stable sort, a transposition table, and the
  iterative-deepening alpha-beta search with aspiration windows,
  null-move pruning and a quiescence search. `bot.rs` is a one-ply bot.
- `src/core_engine/`: a simpler alpha-beta engine over material counts.
- `src/uci.rs`: which command a line is, the position a `position` command
  sets up, and the depth a `go` asks for.
- `src/debug.rs`: the text picture of a board.
- `app/main.rs`: the program: reads commands, prints replies.

Each search function is specified exactly by a spec function of the same
shape (`ab`, `qsearch`, `window_search`, `deepen`, `material_ab`, ...),
including the transposition table it leaves and the node counter.
