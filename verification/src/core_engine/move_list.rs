//! The move list shared with the main engine.

pub use crate::engine::move_list::{MoveList, MoveListIntoIter};
