//! Alpha-beta search over material, with a quiescence search of captures.

use vstd::prelude::*;
use crate::chess::{ChessMove, Piece, Position, PositionModel, legal_moves_of, move_on_board, piece_at, position_after};
use crate::core_engine::evaluation::{PIECE_VALUES, evaluate, get_piece_value, material_evaluation, lemma_material_evaluation_bounded};
use crate::engine::evaluation::{is_capture};
use crate::engine::move_list::{
    MoveList, key_fn_ok, key_of, key_spec, is_stable_sort_by_key, lemma_stable_sort_same_keys, sorted_by_key,
    lemma_sorted_same_keys, lemma_sorted_keeps_moves, lemma_sorted_elements,
};
use crate::engine::utils::{
    all_legal, lemma_all_legal_within, legal_captures_of, moves_within, holds_every_legal_move,
    holds_every_legal_capture,
};
use crate::engine::engine::wadd;
use crate::chess::piece_index;

verus! {

/// Ordering bonus of captures.
pub const CAPTURE_BONUS: i32 = 10_000;

/// A score that can be negated: anything but `i32::MIN`.
pub open spec fn bounded(x: int) -> bool {
    -i32::MAX <= x <= i32::MAX
}

/// Ten times the material value of the captured piece (a pawn when the
/// target square is empty) less the value of the moving piece.
pub open spec fn material_mvv_lva(m: PositionModel, mv: ChessMove) -> int {
    let victim = match piece_at(m, mv.to as int) {
        Some(p) => p,
        None => Piece::Pawn,
    };
    PIECE_VALUES@[piece_index(victim)] * 10 - PIECE_VALUES@[piece_index(
        piece_at(m, mv.from as int).unwrap(),
    )]
}

/// Captures (en passant included) first, by MVV-LVA; quiet moves score 0.
pub open spec fn material_move_score(m: PositionModel, mv: ChessMove) -> int {
    if is_capture(m, mv) {
        CAPTURE_BONUS + material_mvv_lva(m, mv)
    } else {
        0
    }
}

/// MVV-LVA as a key.
pub open spec fn mvv_lva_key(m: PositionModel) -> spec_fn(ChessMove) -> int {
    |mv: ChessMove| material_mvv_lva(m, mv)
}

/// The move score as a key.
pub open spec fn material_key(m: PositionModel) -> spec_fn(ChessMove) -> int {
    |mv: ChessMove| material_move_score(m, mv)
}

/// The legal moves in the order the search tries them.
pub open spec fn material_search_order(m: PositionModel) -> Seq<ChessMove> {
    sorted_by_key(legal_moves_of(m), material_key(m))
}

/// The legal captures in the order the quiescence search tries them.
pub open spec fn material_capture_order(m: PositionModel) -> Seq<ChessMove> {
    sorted_by_key(legal_captures_of(m), mvv_lva_key(m))
}

/// The larger of two scores.
pub open spec fn larger(a: int, b: int) -> int {
    if a > b {
        a
    } else {
        b
    }
}

/// The quiescence search of `m` at `qs_depth` in the window
/// `(alpha, beta)`, from node counter `n`: its value and the counter after
/// it (one more for every position searched). Past depth two the value is
/// the material balance; otherwise, when not in check, `beta` if the
/// balance reaches it, else the balance after trying the captures (a
/// capture scoring at least `beta` is returned); in check, -100000 after
/// trying every legal move likewise.
pub open spec fn material_qs(m: PositionModel, alpha: int, beta: int, qs_depth: int, n: i32) -> (int, i32)
    decreases 3 - qs_depth, 1int, 0int,
{
    let n1 = wadd(n, 1);
    if qs_depth > 2 {
        (material_evaluation(m), n1)
    } else if m.checkers != 0 {
        material_qs_moves(m, beta, qs_depth, legal_moves_of(m), 0, alpha, -100_000, n1)
    } else {
        let s = material_evaluation(m);
        if s >= beta {
            (beta, n1)
        } else {
            material_qs_moves(m, beta, qs_depth, material_capture_order(m), 0, larger(s, alpha), s, n1)
        }
    }
}

/// The quiescence search's loop over `moves[i..]`.
pub open spec fn material_qs_moves(
    m: PositionModel,
    beta: int,
    qs_depth: int,
    moves: Seq<ChessMove>,
    i: int,
    alpha: int,
    best: int,
    n: i32,
) -> (int, i32)
    decreases 3 - qs_depth, 0int, moves.len() - i,
{
    if i < 0 || i >= moves.len() || qs_depth > 2 {
        (best, n)
    } else {
        let (v, n1) = material_qs(position_after(m, moves[i]), -beta, -alpha, qs_depth + 1, n);
        let score = -v;
        if score >= beta {
            (score, n1)
        } else {
            material_qs_moves(m, beta, qs_depth, moves, i + 1, larger(score, alpha), best, n1)
        }
    }
}

/// The alpha-beta search of `m`, `depth` plies deep, in the window
/// `(alpha, beta)`, from node counter `n`: its value and the counter.
pub open spec fn material_ab(m: PositionModel, depth: int, alpha: int, beta: int, n: i32) -> (int, i32)
    decreases depth, 1int, 0int,
{
    if depth <= 0 {
        material_qs(m, alpha, beta, 0, n)
    } else {
        let moves = material_search_order(m);
        if moves.len() == 0 {
            (
                if m.checkers == 0 {
                    0
                } else {
                    -90_000 - depth
                },
                n,
            )
        } else {
            material_ab_moves(m, depth, beta, moves, 0, alpha, -100_000, n)
        }
    }
}

/// The alpha-beta search's loop over `moves[i..]`.
pub open spec fn material_ab_moves(
    m: PositionModel,
    depth: int,
    beta: int,
    moves: Seq<ChessMove>,
    i: int,
    alpha: int,
    best: int,
    n: i32,
) -> (int, i32)
    decreases depth, 0int, moves.len() - i,
{
    if i < 0 || i >= moves.len() || depth <= 0 {
        (best, n)
    } else {
        let (v, n1) = material_ab(position_after(m, moves[i]), depth - 1, -beta, -alpha, n);
        let score = -v;
        if score >= beta {
            (larger(score, best), n1)
        } else {
            material_ab_moves(m, depth, beta, moves, i + 1, larger(score, alpha), larger(score, best), n1)
        }
    }
}

/// The root loop over `moves[i..]`: the first move of highest score above
/// `best_score`, each move searched three plies deeper, and the node
/// counter.
pub open spec fn material_pick_from(
    m: PositionModel,
    moves: Seq<ChessMove>,
    i: int,
    best_score: int,
    best_move: Option<ChessMove>,
    n: i32,
) -> (Option<ChessMove>, i32)
    decreases moves.len() - i,
{
    if i < 0 || i >= moves.len() {
        (best_move, n)
    } else {
        let (v, n1) = material_ab(position_after(m, moves[i]), 3, -100_000, 100_000, n);
        let score = -v;
        if score > best_score {
            material_pick_from(m, moves, i + 1, score, Some(moves[i]), n1)
        } else {
            material_pick_from(m, moves, i + 1, best_score, best_move, n1)
        }
    }
}

/// The move the engine picks, and the number of positions its quiescence
/// searches visit.
pub open spec fn material_pick(m: PositionModel) -> (Option<ChessMove>, i32) {
    let moves = material_search_order(m);
    material_pick_from(m, moves, 0, -100_000, Some(moves[0]), 0)
}

/// The negamax value over material, `depth` plies deep: at depth zero the
/// material balance; with no legal move 0, or `-90000 - depth` when in
/// check; otherwise the best of the search's floor -100000 and the negated
/// values after each legal move.
pub open spec fn material_negamax(m: PositionModel, depth: int) -> int
    decreases depth, 1int, 0int,
{
    if depth <= 0 {
        material_evaluation(m)
    } else if legal_moves_of(m).len() == 0 {
        if m.checkers == 0 {
            0
        } else {
            -90_000 - depth
        }
    } else {
        material_negamax_moves(m, depth, legal_moves_of(m), 0, -100_000)
    }
}

/// The best of `best` and the negated values after `moves[i..]`.
pub open spec fn material_negamax_moves(m: PositionModel, depth: int, moves: Seq<ChessMove>, i: int, best: int) -> int
    decreases depth, 0int, moves.len() - i,
{
    if i < 0 || i >= moves.len() || depth <= 0 {
        best
    } else {
        material_negamax_moves(m, depth, moves, i + 1, larger(best, -material_negamax(position_after(m, moves[i]), depth - 1)))
    }
}

/// Every position `depth` plies below `m` is quiet: not in check and with
/// no capture.
pub open spec fn quiet_leaves(m: PositionModel, depth: int) -> bool
    decreases depth, 1int, 0int,
{
    if depth <= 0 {
        m.checkers == 0 && legal_captures_of(m).len() == 0
    } else {
        quiet_children(m, depth, legal_moves_of(m), 0)
    }
}

/// The positions after `moves[i..]` have quiet leaves `depth - 1` plies
/// below them.
pub open spec fn quiet_children(m: PositionModel, depth: int, moves: Seq<ChessMove>, i: int) -> bool
    decreases depth, 0int, moves.len() - i,
{
    if i < 0 || i >= moves.len() || depth <= 0 {
        true
    } else {
        quiet_leaves(position_after(m, moves[i]), depth - 1) && quiet_children(m, depth, moves, i + 1)
    }
}

proof fn lemma_quiet_children(m: PositionModel, depth: int, moves: Seq<ChessMove>, i: int)
    requires
        quiet_children(m, depth, moves, i),
        depth > 0,
        0 <= i,
    ensures
        forall|j: int| i <= j < moves.len() ==> quiet_leaves(position_after(m, #[trigger] moves[j]), depth - 1),
    decreases moves.len() - i,
{
    if i < moves.len() {
        lemma_quiet_children(m, depth, moves, i + 1);
    }
}

proof fn lemma_material_negamax_moves_max(m: PositionModel, depth: int, moves: Seq<ChessMove>, i: int, b1: int, b2: int)
    ensures
        material_negamax_moves(m, depth, moves, i, larger(b1, b2)) == larger(b1, material_negamax_moves(m, depth, moves, i, b2)),
    decreases moves.len() - i,
{
    if 0 <= i < moves.len() && depth > 0 {
        let c = -material_negamax(position_after(m, moves[i]), depth - 1);
        lemma_material_negamax_moves_max(m, depth, moves, i + 1, b1, larger(b2, c));
        assert(larger(larger(b1, b2), c) == larger(b1, larger(b2, c)));
    }
}

proof fn lemma_material_negamax_moves_bounds(m: PositionModel, depth: int, moves: Seq<ChessMove>, i: int, b: int)
    requires
        0 <= i,
        depth > 0,
    ensures
        ({
            let r = material_negamax_moves(m, depth, moves, i, b);
            &&& r >= b
            &&& forall|j: int| i <= j < moves.len() ==> r >= -material_negamax(position_after(m, #[trigger] moves[j]), depth - 1)
            &&& (r == b || exists|j: int| i <= j < moves.len() && r == -material_negamax(position_after(m, #[trigger] moves[j]), depth - 1))
        }),
    decreases moves.len() - i,
{
    if i < moves.len() {
        let c = -material_negamax(position_after(m, moves[i]), depth - 1);
        lemma_material_negamax_moves_bounds(m, depth, moves, i + 1, larger(b, c));
        let r = material_negamax_moves(m, depth, moves, i, b);
        if r != b && r == larger(b, c) {
            assert(r == -material_negamax(position_after(m, moves[i]), depth - 1));
        }
    }
}

proof fn lemma_material_negamax_same_moves(m: PositionModel, depth: int, s1: Seq<ChessMove>, s2: Seq<ChessMove>, b: int)
    requires
        depth > 0,
        forall|mv: ChessMove| #[trigger] s1.contains(mv) <==> s2.contains(mv),
    ensures
        material_negamax_moves(m, depth, s1, 0, b) == material_negamax_moves(m, depth, s2, 0, b),
{
    lemma_material_negamax_moves_bounds(m, depth, s1, 0, b);
    lemma_material_negamax_moves_bounds(m, depth, s2, 0, b);
    let r1 = material_negamax_moves(m, depth, s1, 0, b);
    let r2 = material_negamax_moves(m, depth, s2, 0, b);
    if r1 != b {
        let j = choose|j: int| 0 <= j < s1.len() && r1 == -material_negamax(position_after(m, #[trigger] s1[j]), depth - 1);
        assert(s1.contains(s1[j]));
        let k = choose|k: int| 0 <= k < s2.len() && s2[k] == s1[j];
        assert(r2 >= -material_negamax(position_after(m, s2[k]), depth - 1));
    }
    if r2 != b {
        let j = choose|j: int| 0 <= j < s2.len() && r2 == -material_negamax(position_after(m, #[trigger] s2[j]), depth - 1);
        assert(s2.contains(s2[j]));
        assert(s1.contains(s2[j]));
        let k = choose|k: int| 0 <= k < s1.len() && s1[k] == s2[j];
        assert(r1 >= -material_negamax(position_after(m, s1[k]), depth - 1));
    }
}

proof fn lemma_material_ab_moves_negamax(
    m: PositionModel,
    depth: int,
    beta: int,
    moves: Seq<ChessMove>,
    i: int,
    alpha: int,
    best: int,
    n: i32,
)
    requires
        depth >= 1,
        alpha < beta,
        0 <= i <= moves.len(),
        forall|j: int| i <= j < moves.len() ==> quiet_leaves(position_after(m, #[trigger] moves[j]), depth - 1),
    ensures
        ({
            let r = material_ab_moves(m, depth, beta, moves, i, alpha, best, n).0;
            let v = material_negamax_moves(m, depth, moves, i, best);
            &&& r >= beta ==> v >= r
            &&& r < beta ==> v <= r
            &&& alpha < r < beta ==> v >= r
        }),
    decreases depth, 0int, moves.len() - i,
{
    if i < moves.len() {
        let child = position_after(m, moves[i]);
        assert(quiet_leaves(child, depth - 1));
        lemma_material_ab_negamax(child, depth - 1, -beta, -alpha, n);
        let (cv, n1) = material_ab(child, depth - 1, -beta, -alpha, n);
        let qc = material_negamax(child, depth - 1);
        let score = -cv;
        let x = material_negamax_moves(m, depth, moves, i + 1, best);
        lemma_material_negamax_moves_max(m, depth, moves, i + 1, -qc, best);
        assert(larger(best, -qc) == larger(-qc, best));
        lemma_material_negamax_moves_max(m, depth, moves, i + 1, best, best);
        if score < beta {
            lemma_material_ab_moves_negamax(m, depth, beta, moves, i + 1, larger(score, alpha), larger(score, best), n1);
            lemma_material_negamax_moves_max(m, depth, moves, i + 1, score, best);
        }
    } else {
        lemma_material_negamax_moves_max(m, depth, moves, i, best, best);
    }
}

/// The material search is alpha-beta over the negamax value: when every
/// position at its leaves is quiet (not in check, no capture), a score
/// strictly inside the window is [`material_negamax`] of the position, a
/// score at or below alpha is an upper bound of it, and one at or above
/// beta a lower bound. The children's values are negated: a move is as
/// good for the side to move as its result is bad for the other side.
pub proof fn lemma_material_ab_negamax(m: PositionModel, depth: int, alpha: int, beta: int, n: i32)
    requires
        depth >= 0,
        alpha < beta,
        quiet_leaves(m, depth),
    ensures
        ({
            let r = material_ab(m, depth, alpha, beta, n).0;
            let v = material_negamax(m, depth);
            &&& r <= alpha ==> v <= r
            &&& r >= beta ==> v >= r
            &&& alpha < r < beta ==> v == r
        }),
    decreases depth, 1int, 0int,
{
    if depth == 0 {
        lemma_sorted_elements(legal_captures_of(m), mvv_lva_key(m));
    } else {
        let moves = material_search_order(m);
        lemma_sorted_elements(legal_moves_of(m), material_key(m));
        if moves.len() > 0 {
            lemma_quiet_children(m, depth, legal_moves_of(m), 0);
            lemma_sorted_keeps_moves(legal_moves_of(m), material_key(m));
            assert forall|j: int| 0 <= j < moves.len() implies quiet_leaves(position_after(m, #[trigger] moves[j]), depth - 1) by {
                assert(moves.contains(moves[j]));
                assert(legal_moves_of(m).contains(moves[j]));
                let k = choose|k: int| 0 <= k < legal_moves_of(m).len() && legal_moves_of(m)[k] == moves[j];
                assert(quiet_leaves(position_after(m, legal_moves_of(m)[k]), depth - 1));
            }
            lemma_material_ab_moves_negamax(m, depth, beta, moves, 0, alpha, -100_000, n);
            lemma_material_negamax_same_moves(m, depth, moves, legal_moves_of(m), -100_000);
        }
    }
}

/// The search engine.
pub struct Engine {
    pub nodes_searched: i32,
}

impl Engine {
    /// A fresh engine.
    pub fn new() -> (r: Engine)
        ensures
            r.nodes_searched == 0,
    {
        Engine { nodes_searched: 0 }
    }

    /// MVV-LVA score of a move whose origin holds a piece.
    pub fn mvv_lva_score(&self, board: &Position, mv: ChessMove) -> (r: i32)
        requires
            mv.from < 64,
            mv.to < 64,
            piece_at(board@, mv.from as int) is Some,
        ensures
            r == material_mvv_lva(board@, mv),
    {
        let attacker = board.piece_on(mv.from).unwrap();
        let victim = match board.piece_on(mv.to) {
            Some(p) => p,
            None => Piece::Pawn,
        };
        get_piece_value(victim) * 10 - get_piece_value(attacker)
    }

    /// Ordering score of a move: captures (en passant included) by
    /// MVV-LVA, above quiet moves, which score 0. A capture must start on
    /// a piece.
    pub fn score_move(&self, board: &Position, mv: ChessMove) -> (r: i32)
        requires
            mv.from < 64,
            mv.to < 64,
            piece_at(board@, mv.from as int) is Some || piece_at(board@, mv.to as int) is None,
        ensures
            r == material_move_score(board@, mv),
    {
        let is_en_passant = board.piece_on(mv.from) == Some(Piece::Pawn) && mv.from % 8 != mv.to % 8
            && board.piece_on(mv.to).is_none();
        if board.piece_on(mv.to).is_some() || is_en_passant {
            CAPTURE_BONUS + self.mvv_lva_score(board, mv)
        } else {
            0
        }
    }

    /// The legal captures, most valuable victim first (a stable sort by
    /// MVV-LVA of the captures in generation order).
    pub fn get_legal_captures(&self, board: &Position) -> (r: MoveList)
        ensures
            r@ == material_capture_order(board@),
            exists|p: Seq<int>|
                #[trigger] is_stable_sort_by_key(legal_captures_of(board@), r@, p, mvv_lva_key(board@)),
            all_legal(board@, r@),
            holds_every_legal_capture(board@, r@),
            r@.no_duplicates(),
            moves_within(legal_captures_of(board@), r@),
    {
        let mut legal_captures = crate::engine::utils::get_legal_captures(board);
        let ghost captures = legal_captures@;
        let key_fn = |mv: ChessMove| -> (k: i32)
            requires
                move_on_board(board@, mv),
            ensures
                k == material_mvv_lva(board@, mv),
            { self.mvv_lva_score(board, mv) };
        assert(key_fn_ok(key_fn, legal_captures@));
        legal_captures.sort_by_key(key_fn);
        proof {
            lemma_all_legal_within(board@, captures, legal_captures@);
            let p = choose|p: Seq<int>|
                #[trigger] is_stable_sort_by_key(captures, legal_captures@, p, key_spec(key_fn));
            assert forall|i: int| 0 <= i < captures.len() implies key_spec(key_fn)(#[trigger] captures[i])
                == mvv_lva_key(board@)(captures[i]) by {
                assert(call_ensures(key_fn, (captures[i],), key_of(key_fn, captures[i])));
            }
            lemma_stable_sort_same_keys(captures, legal_captures@, p, key_spec(key_fn), mvv_lva_key(board@));
            lemma_sorted_same_keys(captures, key_spec(key_fn), mvv_lva_key(board@));
            lemma_sorted_keeps_moves(captures, mvv_lva_key(board@));
        }
        legal_captures
    }

    /// Sorts moves whose origins hold pieces by decreasing move score,
    /// moves of equal score keeping their order.
    fn order_moves(&self, board: &Position, moves: &mut MoveList)
        requires
            all_legal(board@, old(moves)@),
        ensures
            final(moves)@ == sorted_by_key(old(moves)@, material_key(board@)),
            all_legal(board@, final(moves)@),
            final(moves)@.len() == old(moves)@.len(),
            moves_within(old(moves)@, final(moves)@),
    {
        let ghost before = moves@;
        let key_fn = |mv: ChessMove| -> (k: i32)
            requires
                move_on_board(board@, mv),
            ensures
                k == material_move_score(board@, mv),
            { self.score_move(board, mv) };
        assert(key_fn_ok(key_fn, moves@));
        moves.sort_by_key(key_fn);
        proof {
            lemma_all_legal_within(board@, before, moves@);
            assert forall|i: int| 0 <= i < before.len() implies key_spec(key_fn)(#[trigger] before[i])
                == material_key(board@)(before[i]) by {
                assert(call_ensures(key_fn, (before[i],), key_of(key_fn, before[i])));
            }
            lemma_sorted_same_keys(before, key_spec(key_fn), material_key(board@));
        }
    }

    /// The best move after searching every legal move three plies deeper
    /// (moves tried best-ordered first; the first move of highest score
    /// wins). The position must have a legal move.
    pub fn get_best_move(&mut self, board: &Position) -> (r: Option<ChessMove>)
        requires
            legal_moves_of(board@).len() > 0,
        ensures
            (r, final(self).nodes_searched) == material_pick(board@),
            r matches Some(mv) && legal_moves_of(board@).contains(mv),
    {
        self.nodes_searched = 0;
        let mut legal_moves = self.get_legal_moves(board);
        let ghost generated = legal_moves@;
        self.order_moves(board, &mut legal_moves);
        let mut best_score: i32 = -100_000;
        let mut best_move = legal_moves.index(0);
        let ghost moves = legal_moves@;
        let ghost m = board@;
        let mut iter = legal_moves.into_iter();
        loop
            invariant
                iter.list@ == moves,
                iter.index <= moves.len(),
                all_legal(board@, moves),
                moves.len() == generated.len(),
                generated == legal_moves_of(board@),
                moves == material_search_order(m),
                m == board@,
                moves_within(generated, moves),
                best_move matches Some(mv) && moves.contains(mv),
                bounded(best_score as int),
                material_pick(m) == material_pick_from(
                    m,
                    moves,
                    iter.index as int,
                    best_score as int,
                    best_move,
                    self.nodes_searched,
                ),
            ensures
                material_pick(m) == (best_move, self.nodes_searched),
                best_move matches Some(mv) && moves.contains(mv),
            decreases moves.len() - iter.index,
        {
            let ghost idx = iter.index;
            let current_move = match iter.next() {
                Some(mv) => mv,
                None => break,
            };
            assert(current_move == moves[idx as int]);
            let next_board = board.play(current_move);
            let score = -self.alpha_beta(&next_board, 3, -100_000, 100_000);
            if score > best_score {
                best_score = score;
                best_move = Some(current_move);
            }
        }
        proof {
            let mv = best_move.unwrap();
            let j = choose|j: int| 0 <= j < moves.len() && moves[j] == mv;
            assert(generated.contains(moves[j]));
        }
        best_move
    }

    /// Alpha-beta search of `depth` plies, then the quiescence search.
    pub fn alpha_beta(&mut self, board: &Position, depth: i32, alpha: i32, beta: i32) -> (r: i32)
        requires
            0 <= depth <= i32::MAX - 90_000,
            bounded(alpha as int),
            bounded(beta as int),
        ensures
            (r as int, final(self).nodes_searched) == material_ab(
                board@,
                depth as int,
                alpha as int,
                beta as int,
                old(self).nodes_searched,
            ),
            bounded(r as int),
            depth > 0 && board@.checkers != 0 && legal_moves_of(board@).len() == 0 ==> r == -90_000
                - depth,
            depth > 0 && board@.checkers == 0 && legal_moves_of(board@).len() == 0 ==> r == 0,
            depth == 0 && board@.checkers == 0 && material_evaluation(board@) < beta
                && legal_captures_of(board@).len() == 0 ==> r == material_evaluation(board@),
        decreases depth, 1int, 0int,
    {
        if depth == 0 {
            return self.quiescence_search(board, alpha, beta, 0);
        }
        let ghost m = board@;
        let ghost alpha0 = alpha;
        let ghost n0 = self.nodes_searched;
        let mut alpha = alpha;
        let mut legal_moves = self.get_legal_moves(board);
        self.order_moves(board, &mut legal_moves);
        let mut best_score: i32 = -100_000;
        if legal_moves.is_empty() {
            if !board.in_check() {
                return 0;
            } else {
                return -90_000 - depth;
            }
        }
        let ghost moves = legal_moves@;
        let mut iter = legal_moves.into_iter();
        loop
            invariant_except_break
                material_ab(m, depth as int, alpha0 as int, beta as int, n0) == material_ab_moves(
                    m,
                    depth as int,
                    beta as int,
                    moves,
                    iter.index as int,
                    alpha as int,
                    best_score as int,
                    self.nodes_searched,
                ),
            invariant
                iter.list@ == moves,
                iter.index <= moves.len(),
                all_legal(board@, moves),
                m == board@,
                1 <= depth <= i32::MAX - 90_000,
                bounded(alpha as int),
                bounded(beta as int),
                bounded(best_score as int),
            ensures
                material_ab(m, depth as int, alpha0 as int, beta as int, n0) == (
                    best_score as int,
                    self.nodes_searched,
                ),
                bounded(best_score as int),
            decreases moves.len() - iter.index,
        {
            let ghost idx = iter.index;
            let current_move = match iter.next() {
                Some(mv) => mv,
                None => break,
            };
            assert(current_move == moves[idx as int]);
            let next_board = board.play(current_move);
            let score = -self.alpha_beta(&next_board, depth - 1, -beta, -alpha);
            if score > best_score {
                best_score = score;
            }
            if score > alpha {
                alpha = score;
            }
            if score >= beta {
                break;
            }
        }
        best_score
    }

    /// Quiescence search: the material balance (unless in check) as a
    /// floor, failing hard at `beta`, improved by searching captures (all
    /// moves when in check) until three plies deep.
    pub fn quiescence_search(&mut self, board: &Position, alpha: i32, beta: i32, qs_depth: i32) -> (r: i32)
        requires
            bounded(alpha as int),
            bounded(beta as int),
        ensures
            (r as int, final(self).nodes_searched) == material_qs(
                board@,
                alpha as int,
                beta as int,
                qs_depth as int,
                old(self).nodes_searched,
            ),
            bounded(r as int),
            qs_depth > 2 ==> r == material_evaluation(board@),
            qs_depth <= 2 && board@.checkers == 0 && material_evaluation(board@) >= beta ==> r == beta,
            qs_depth <= 2 && board@.checkers == 0 && material_evaluation(board@) < beta
                && legal_captures_of(board@).len() == 0 ==> r == material_evaluation(board@),
            qs_depth <= 2 && board@.checkers != 0 && legal_moves_of(board@).len() == 0 ==> r
                == -100_000,
        decreases 0int, 0int, 3 - qs_depth,
    {
        let ghost n0 = self.nodes_searched;
        self.nodes_searched = self.nodes_searched.wrapping_add(1);
        proof {
            lemma_material_evaluation_bounded(board@);
        }
        if qs_depth > 2 {
            return evaluate(board);
        }
        let ghost m = board@;
        let mut lower = alpha;
        let is_check = board.in_check();
        let best_score = if is_check {
            -100_000
        } else {
            let static_score = evaluate(board);
            if static_score >= beta {
                return beta;
            }
            if static_score > lower {
                lower = static_score;
            }
            static_score
        };
        let legal_moves = if is_check {
            self.get_legal_moves(board)
        } else {
            self.get_legal_captures(board)
        };
        let ghost moves = legal_moves@;
        assert(moves.len() == if is_check {
            legal_moves_of(board@).len()
        } else {
            legal_captures_of(board@).len()
        }) by {
            if !is_check {
                let p = choose|p: Seq<int>|
                    #[trigger] is_stable_sort_by_key(legal_captures_of(board@), moves, p, mvv_lva_key(board@));
            }
        }
        let mut iter = legal_moves.into_iter();
        loop
            invariant
                iter.list@ == moves,
                iter.index <= moves.len(),
                all_legal(board@, moves),
                m == board@,
                qs_depth <= 2,
                is_check == (board@.checkers != 0),
                !is_check ==> material_evaluation(board@) < beta,
                !is_check ==> best_score == material_evaluation(board@),
                is_check ==> best_score == -100_000,
                moves.len() == if is_check {
                    legal_moves_of(board@).len()
                } else {
                    legal_captures_of(board@).len()
                },
                bounded(lower as int),
                bounded(alpha as int),
                bounded(beta as int),
                bounded(best_score as int),
                n0 == old(self).nodes_searched,
                material_qs(m, alpha as int, beta as int, qs_depth as int, n0) == material_qs_moves(
                    m,
                    beta as int,
                    qs_depth as int,
                    moves,
                    iter.index as int,
                    lower as int,
                    best_score as int,
                    self.nodes_searched,
                ),
            ensures
                material_qs(m, alpha as int, beta as int, qs_depth as int, n0) == (
                    best_score as int,
                    self.nodes_searched,
                ),
                bounded(best_score as int),
            decreases moves.len() - iter.index,
        {
            let ghost idx = iter.index;
            let current_move = match iter.next() {
                Some(mv) => mv,
                None => break,
            };
            assert(current_move == moves[idx as int]);
            let next_board = board.play(current_move);
            let ghost n1 = self.nodes_searched;
            let score = -self.quiescence_search(&next_board, -beta, -lower, qs_depth + 1);
            if score >= beta {
                assert(material_qs_moves(
                    m,
                    beta as int,
                    qs_depth as int,
                    moves,
                    idx as int,
                    lower as int,
                    best_score as int,
                    n1,
                ) == (score as int, self.nodes_searched));
                return score;
            }
            if score > lower {
                lower = score;
            }
        }
        best_score
    }

    /// The legal moves in generation order.
    pub fn get_legal_moves(&self, board: &Position) -> (r: MoveList)
        ensures
            r@ == legal_moves_of(board@),
            all_legal(board@, r@),
            holds_every_legal_move(board@, r@),
            r@.no_duplicates(),
    {
        crate::engine::utils::get_legal_moves(board)
    }
}

} // verus!
