//! Quicksand: a small UCI chess engine whose search, evaluation,
//! transposition table and command handling are verified with Verus.
//! Chess rules (move generation, making moves, hashing, FEN parsing)
//! come from the `cozy_chess` crate behind the trusted items of [`chess`].

pub mod chess;
pub mod engine;
pub mod core_engine;
pub mod uci;
pub mod debug;
