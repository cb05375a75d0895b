//! A one-ply bot: plays the move after which the evaluation is highest
//! (white) or lowest (black).

use vstd::prelude::*;
use crate::chess::{ChessMove, Color, Position, PositionModel, legal_moves_of, position_after};
use crate::engine::evaluation::{evaluate, evaluation};
use crate::engine::move_list::MoveList;
use crate::engine::utils::{get_legal_moves, all_legal};

verus! {

/// The evaluation of the position after the `k`-th legal move.
pub open spec fn reply_score(m: PositionModel, k: int) -> int {
    evaluation(position_after(m, legal_moves_of(m)[k]))
}

/// The `k`-th legal move is the bot's pick: for white the first move whose
/// reply score is the largest and above -100000, for black the first whose
/// reply score is the smallest and below 100000, else the first move.
pub open spec fn is_bot_pick(m: PositionModel, k: int) -> bool {
    let n = legal_moves_of(m).len() as int;
    &&& 0 <= k < n
    &&& if m.side_to_move == Color::White {
        &&& (k == 0 || reply_score(m, k) > -100_000)
        &&& forall|j: int|
            0 <= j < n ==> #[trigger] reply_score(m, j) <= reply_score(m, k) || reply_score(m, j)
                <= -100_000
        &&& forall|j: int| 0 <= j < k ==> #[trigger] reply_score(m, j) < reply_score(m, k)
    } else {
        &&& (k == 0 || reply_score(m, k) < 100_000)
        &&& forall|j: int|
            0 <= j < n ==> #[trigger] reply_score(m, j) >= reply_score(m, k) || reply_score(m, j)
                >= 100_000
        &&& forall|j: int| 0 <= j < k ==> #[trigger] reply_score(m, j) > reply_score(m, k)
    }
}

/// The bot's move in a position with at least one legal move.
pub fn get_best_move(board: &Position) -> (r: ChessMove)
    requires
        legal_moves_of(board@).len() > 0,
    ensures
        exists|k: int| #[trigger] is_bot_pick(board@, k) && r == legal_moves_of(board@)[k],
{
    let legal_moves: MoveList = get_legal_moves(board);
    let ghost m = board@;
    let ghost n = legal_moves_of(m).len() as int;
    let white = board.side_to_move() == Color::White;
    let mut best_score: i32 = if white {
        -100_000
    } else {
        100_000
    };
    let mut best_move = legal_moves.index(0).unwrap();
    let ghost mut k: int = 0;
    let mut index: usize = 0;
    while index < legal_moves.count()
        invariant
            legal_moves@ == legal_moves_of(m),
            all_legal(m, legal_moves@),
            n == legal_moves@.len(),
            m == board@,
            n > 0,
            white == (m.side_to_move == Color::White),
            index <= n,
            0 <= k < n,
            best_move == legal_moves@[k],
            k == 0 || k < index,
            best_score == if k == 0 && (index == 0 || (white && reply_score(m, 0) <= -100_000) || (
            !white && reply_score(m, 0) >= 100_000)) {
                if white {
                    -100_000int
                } else {
                    100_000int
                }
            } else {
                reply_score(m, k)
            },
            white ==> (k == 0 || reply_score(m, k) > -100_000),
            !white ==> (k == 0 || reply_score(m, k) < 100_000),
            white ==> forall|j: int| 0 <= j < index ==> #[trigger] reply_score(m, j) <= best_score,
            !white ==> forall|j: int| 0 <= j < index ==> #[trigger] reply_score(m, j) >= best_score,
            white ==> forall|j: int| 0 <= j < k ==> #[trigger] reply_score(m, j) < reply_score(m, k),
            !white ==> forall|j: int| 0 <= j < k ==> #[trigger] reply_score(m, j) > reply_score(m, k),
        decreases n - index,
    {
        let current_move = legal_moves.index(index).unwrap();
        let next_board = board.play(current_move);
        let score = evaluate(&next_board);
        assert(score == reply_score(m, index as int));
        if white {
            if score > best_score {
                best_score = score;
                best_move = current_move;
                proof {
                    k = index as int;
                }
            }
        } else {
            if score < best_score {
                best_score = score;
                best_move = current_move;
                proof {
                    k = index as int;
                }
            }
        }
        index = index + 1;
    }
    proof {
        assert(is_bot_pick(m, k));
    }
    best_move
}

} // verus!
