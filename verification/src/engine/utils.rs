//! Search context and move generation helpers.

use vstd::prelude::*;
use crate::chess::{
    ChessMove, Position, PositionModel, legal_moves_of, move_is_legal, move_on_board, has_bit,
    color_index, opposite, opposite_color, bit_is_set,
};
use crate::engine::move_list::MoveList;

verus! {

/// The state of one node of the search.
#[derive(Clone, Copy, PartialEq, Eq, Structural, Debug)]
pub struct SearchCTX {
    /// Plies left to search before the quiescence search.
    pub depth: i32,
    /// Plies from the root.
    pub ply: usize,
    /// The score the side to move is already sure of.
    pub alpha: i32,
    /// The score above which the opponent avoids this node.
    pub beta: i32,
}

/// The moves of `s` that land on a square of `enemy`, in order.
pub open spec fn moves_onto(s: Seq<ChessMove>, enemy: u64) -> Seq<ChessMove>
    decreases s.len(),
{
    if s.len() == 0 {
        Seq::empty()
    } else {
        let rest = moves_onto(s.drop_last(), enemy);
        if has_bit(enemy, s.last().to as int) {
            rest.push(s.last())
        } else {
            rest
        }
    }
}

/// The legal captures of a position: its legal moves, in generation
/// order, that land on a piece of the side not to move.
pub open spec fn legal_captures_of(m: PositionModel) -> Seq<ChessMove> {
    moves_onto(legal_moves_of(m), m.colors[color_index(opposite(m.side_to_move))])
}

proof fn lemma_moves_onto_subset(s: Seq<ChessMove>, enemy: u64)
    ensures
        forall|i: int|
            0 <= i < moves_onto(s, enemy).len() ==> s.contains(#[trigger] moves_onto(s, enemy)[i]),
    decreases s.len(),
{
    if s.len() > 0 {
        lemma_moves_onto_subset(s.drop_last(), enemy);
        let rest = moves_onto(s.drop_last(), enemy);
        assert forall|i: int| 0 <= i < moves_onto(s, enemy).len() implies s.contains(
            #[trigger] moves_onto(s, enemy)[i],
        ) by {
            if i < rest.len() {
                let x = rest[i];
                assert(s.drop_last().contains(x));
                let j = choose|j: int| 0 <= j < s.drop_last().len() && s.drop_last()[j] == x;
                assert(s[j] == x);
            } else {
                assert(moves_onto(s, enemy)[i] == s[s.len() - 1]);
            }
        }
    }
}

/// `s` holds every legal move of `m` on real squares.
pub open spec fn holds_every_legal_move(m: PositionModel, s: Seq<ChessMove>) -> bool {
    forall|mv: ChessMove|
        mv.from < 64 && mv.to < 64 && #[trigger] move_is_legal(m, mv) ==> s.contains(mv)
}

/// `s` holds every legal move of `m` on real squares that lands on a piece
/// of the side not to move.
pub open spec fn holds_every_legal_capture(m: PositionModel, s: Seq<ChessMove>) -> bool {
    forall|mv: ChessMove|
        mv.from < 64 && mv.to < 64 && #[trigger] move_is_legal(m, mv) && has_bit(
            m.colors[color_index(opposite(m.side_to_move))],
            mv.to as int,
        ) ==> s.contains(mv)
}

proof fn lemma_moves_onto_keeps(s: Seq<ChessMove>, enemy: u64)
    ensures
        forall|mv: ChessMove|
            s.contains(mv) && has_bit(enemy, mv.to as int) ==> #[trigger] moves_onto(s, enemy).contains(mv),
        s.no_duplicates() ==> moves_onto(s, enemy).no_duplicates(),
    decreases s.len(),
{
    if s.len() > 0 {
        let d = s.drop_last();
        lemma_moves_onto_keeps(d, enemy);
        lemma_moves_onto_subset(d, enemy);
        let rest = moves_onto(d, enemy);
        assert forall|mv: ChessMove|
            s.contains(mv) && has_bit(enemy, mv.to as int) implies #[trigger] moves_onto(s, enemy).contains(mv) by {
            let j = choose|j: int| 0 <= j < s.len() && s[j] == mv;
            let full = moves_onto(s, enemy);
            assert(full == if has_bit(enemy, s.last().to as int) {
                rest.push(s.last())
            } else {
                rest
            });
            if j < s.len() - 1 {
                assert(d[j] == mv);
                assert(d.contains(mv));
                assert(rest.contains(mv));
                let k = choose|k: int| 0 <= k < rest.len() && rest[k] == mv;
                assert(full[k] == mv);
            } else {
                assert(moves_onto(s, enemy) == rest.push(s.last()));
                assert(moves_onto(s, enemy)[rest.len() as int] == mv);
            }
        }
        if s.no_duplicates() {
            assert(d.no_duplicates());
            if has_bit(enemy, s.last().to as int) {
                assert forall|k: int| 0 <= k < rest.len() implies rest[k] != s.last() by {
                    assert(d.contains(rest[k]));
                    let j = choose|j: int| 0 <= j < d.len() && d[j] == rest[k];
                    assert(s[j] == rest[k]);
                }
            }
        }
    }
}

/// Every move of `s2` is a move of `s1`.
pub open spec fn moves_within(s1: Seq<ChessMove>, s2: Seq<ChessMove>) -> bool {
    forall|i: int| 0 <= i < s2.len() ==> s1.contains(#[trigger] s2[i])
}

/// Every move of `s` is legal in `m` and starts on a piece of the side to move.
pub open spec fn all_legal(m: PositionModel, s: Seq<ChessMove>) -> bool {
    forall|i: int|
        0 <= i < s.len() ==> move_is_legal(m, #[trigger] s[i]) && move_on_board(m, s[i])
}

/// Moves taken from a list of legal moves are legal.
pub proof fn lemma_all_legal_within(m: PositionModel, s1: Seq<ChessMove>, s2: Seq<ChessMove>)
    requires
        all_legal(m, s1),
        moves_within(s1, s2),
    ensures
        all_legal(m, s2),
{
    assert forall|i: int| 0 <= i < s2.len() implies move_is_legal(m, #[trigger] s2[i])
        && move_on_board(m, s2[i]) by {
        assert(s1.contains(s2[i]));
        let j = choose|j: int| 0 <= j < s1.len() && s1[j] == s2[i];
        assert(move_is_legal(m, s1[j]));
    }
}

/// All legal moves of a position, in generation order.
pub fn get_legal_moves(board: &Position) -> (r: MoveList)
    ensures
        r@ == legal_moves_of(board@),
        all_legal(board@, r@),
        holds_every_legal_move(board@, r@),
        r@.no_duplicates(),
{
    let moves = board.legal_moves();
    let mut legal_moves = MoveList::new();
    let mut i: usize = 0;
    while i < moves.len()
        invariant
            i <= moves@.len(),
            legal_moves@ == moves@.take(i as int),
        decreases moves.len() - i,
    {
        legal_moves.push(moves[i]);
        assert(moves@.take(i + 1) == moves@.take(i as int).push(moves@[i as int]));
        i = i + 1;
    }
    assert(moves@.take(moves@.len() as int) == moves@);
    legal_moves
}

/// The legal moves of a position that capture a piece of the side not to
/// move, in generation order (en passant and castling are not among them).
pub fn get_legal_captures(board: &Position) -> (r: MoveList)
    ensures
        r@ == legal_captures_of(board@),
        all_legal(board@, r@),
        holds_every_legal_capture(board@, r@),
        r@.no_duplicates(),
{
    let enemy_pieces = board.colors(opposite_color(board.side_to_move()));
    let moves = board.legal_moves();
    let mut legal_captures = MoveList::new();
    let mut i: usize = 0;
    while i < moves.len()
        invariant
            i <= moves@.len(),
            legal_captures@ == moves_onto(moves@.take(i as int), enemy_pieces),
            forall|j: int|
                0 <= j < moves@.len() ==> move_on_board(board@, #[trigger] moves@[j]),
        decreases moves.len() - i,
    {
        let mv = moves[i];
        assert(moves@.take(i + 1).drop_last() == moves@.take(i as int));
        if bit_is_set(enemy_pieces, mv.to) {
            legal_captures.push(mv);
        }
        i = i + 1;
    }
    assert(moves@.take(moves@.len() as int) == moves@);
    proof {
        lemma_moves_onto_subset(moves@, enemy_pieces);
        lemma_moves_onto_keeps(moves@, enemy_pieces);
        assert forall|k: int| 0 <= k < legal_captures@.len() implies move_is_legal(
            board@,
            #[trigger] legal_captures@[k],
        ) && move_on_board(board@, legal_captures@[k]) by {
            let x = legal_captures@[k];
            assert(moves@.contains(x));
            let j = choose|j: int| 0 <= j < moves@.len() && moves@[j] == x;
            assert(move_is_legal(board@, moves@[j]));
        }
    }
    legal_captures
}

} // verus!
