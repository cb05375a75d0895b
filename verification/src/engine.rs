//! The search engine: evaluation, move lists, transposition table and
//! the iterative-deepening alpha-beta search.

pub mod evaluation;
pub mod move_list;
pub mod transposition_table;
pub mod utils;
pub mod engine;
pub mod bot;
