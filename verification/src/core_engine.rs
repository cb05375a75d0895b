//! The first engine: plain alpha-beta over material counts, without a
//! transposition table.

pub mod evaluation;
pub mod move_list;
pub mod engine;
