//! Iterative-deepening negamax alpha-beta search with aspiration windows,
//! a transposition table, null-move pruning and a quiescence search.
//!
//! Scores are `i32` with two's-complement wrapping arithmetic, as an
//! optimized build computes them.

use vstd::prelude::*;
use vstd::wrapping::i32_specs;
use crate::chess::{
    ChessMove, Position, PositionModel, legal_moves_of, move_is_legal, move_on_board, position_after,
    position_after_null_move,
};
use crate::engine::evaluation::{
    INFINITY, MATE_SCORE, evaluate, evaluation, score_move, move_order_score,
};
use crate::engine::move_list::{
    MoveList, key_fn_ok, key_of, key_spec, sorted_by_key, lemma_sorted_same_keys, lemma_sorted_elements,
    lemma_sorted_keeps_moves,
};
use crate::engine::transposition_table::{
    Bound, TTEntry, TranspositionTable, TableView, table_wf, probe_result, after_store, sized_for,
};
use crate::engine::utils::{
    SearchCTX, get_legal_moves, get_legal_captures, legal_captures_of, all_legal, moves_within,
    lemma_all_legal_within,
};

verus! {

/// Beyond this many plies from the root the quiescence search stops and
/// returns the static evaluation.
pub const MAX_PLY: i32 = 8;

/// Half the width of the aspiration window around the previous score.
pub const WINDOW: i32 = 20;

/// `-x` in two's complement (so `i32::MIN` stays `i32::MIN`).
pub open spec fn neg(x: i32) -> i32 {
    i32_specs::wrapping_sub(0, x)
}

/// `x + y` in two's complement.
pub open spec fn wadd(x: i32, y: i32) -> i32 {
    i32_specs::wrapping_add(x, y)
}

/// `x - y` in two's complement.
pub open spec fn wsub(x: i32, y: i32) -> i32 {
    i32_specs::wrapping_sub(x, y)
}

fn negate(x: i32) -> (r: i32)
    ensures
        r == neg(x),
{
    0i32.wrapping_sub(x)
}

/// The larger of two scores.
fn max_score(a: i32, b: i32) -> (r: i32)
    ensures
        r == if a >= b { a } else { b },
{
    if a >= b {
        a
    } else {
        b
    }
}

/// No move, or a legal move of `m`.
pub open spec fn legal_or_none(m: PositionModel, mv: Option<ChessMove>) -> bool {
    match mv {
        Some(x) => legal_moves_of(m).contains(x),
        None => true,
    }
}

/// `x + y` for generation counters, wrapping at 256.
pub open spec fn wadd_u8(x: u8, y: u8) -> u8 {
    vstd::wrapping::u8_specs::wrapping_add(x, y)
}

/// A mate score (at least `MATE_SCORE - MAX_PLY` from zero) made relative
/// to the node for storing: mates are counted from the stored node.
pub open spec fn to_tt_score(score: i32, ply: i32) -> i32 {
    if score >= MATE_SCORE - MAX_PLY {
        wadd(score, ply)
    } else if score <= -MATE_SCORE + MAX_PLY {
        wsub(score, ply)
    } else {
        score
    }
}

/// A stored mate score made relative to the root again.
pub open spec fn from_tt_score(score: i32, ply: i32) -> i32 {
    if score >= MATE_SCORE - MAX_PLY {
        wsub(score, ply)
    } else if score <= -MATE_SCORE + MAX_PLY {
        wadd(score, ply)
    } else {
        score
    }
}

/// Move ordering by [`move_order_score`], as a key.
pub open spec fn order_key(m: PositionModel, tt_move: Option<ChessMove>) -> spec_fn(ChessMove) -> int {
    |mv: ChessMove| move_order_score(m, mv, tt_move)
}

/// The larger of two scores.
pub open spec fn max_of(a: i32, b: i32) -> i32 {
    if a >= b {
        a
    } else {
        b
    }
}

/// The moves the quiescence search tries, in order: all legal moves when
/// in check, else the captures, ordered by [`order_key`].
pub open spec fn quiescence_moves(m: PositionModel) -> Seq<ChessMove> {
    sorted_by_key(
        if m.checkers != 0 {
            legal_moves_of(m)
        } else {
            legal_captures_of(m)
        },
        order_key(m, None),
    )
}

/// The quiescence search of `m`, `ply` plies from the root, in the window
/// `(alpha, beta)`, from node counter `n`: its value, and the counter after
/// it (one more for every position searched).
pub open spec fn qsearch(m: PositionModel, ply: int, alpha: i32, beta: i32, n: i32) -> (i32, i32)
    decreases MAX_PLY + 1 - ply, 1int, 0int,
{
    let n1 = wadd(n, 1);
    if ply > MAX_PLY || ply < 0 {
        (evaluation(m) as i32, n1)
    } else if m.checkers != 0 {
        qsearch_moves(m, ply, beta, quiescence_moves(m), 0, alpha, (-MATE_SCORE + ply) as i32, n1)
    } else {
        let stand_pat = evaluation(m) as i32;
        if stand_pat >= beta {
            (stand_pat, n1)
        } else {
            qsearch_moves(
                m,
                ply,
                beta,
                quiescence_moves(m),
                0,
                max_of(stand_pat, alpha),
                stand_pat,
                n1,
            )
        }
    }
}

/// The quiescence search's loop over `moves[i..]` with the current alpha,
/// best score and node counter.
pub open spec fn qsearch_moves(
    m: PositionModel,
    ply: int,
    beta: i32,
    moves: Seq<ChessMove>,
    i: int,
    alpha: i32,
    best: i32,
    n: i32,
) -> (i32, i32)
    decreases MAX_PLY + 1 - ply, 0int, moves.len() - i,
{
    if i < 0 || i >= moves.len() || ply > MAX_PLY || ply < 0 {
        (best, n)
    } else {
        let (v, n1) = qsearch(position_after(m, moves[i]), ply + 1, neg(beta), neg(alpha), n);
        let score = neg(v);
        if score >= beta {
            (score, n1)
        } else {
            qsearch_moves(m, ply, beta, moves, i + 1, max_of(score, alpha), max_of(score, best), n1)
        }
    }
}

/// The larger of two integers.
pub open spec fn int_max(a: int, b: int) -> int {
    if a >= b {
        a
    } else {
        b
    }
}

/// Every quiescence score lies within this bound of zero.
pub open spec fn q_bound() -> int {
    800_000
}

/// The minimax value the quiescence search looks for: past `MAX_PLY` the
/// static evaluation; otherwise the best of the static evaluation (or, in
/// check, the mate score) and the negated values after each of the
/// quiescence moves.
pub open spec fn qvalue(m: PositionModel, ply: int) -> int
    decreases MAX_PLY + 1 - ply, 1int, 0int,
{
    if ply > MAX_PLY || ply < 0 {
        evaluation(m)
    } else {
        qvalue_moves(
            m,
            ply,
            quiescence_moves(m),
            0,
            if m.checkers != 0 {
                -MATE_SCORE + ply
            } else {
                evaluation(m)
            },
        )
    }
}

/// The best of `best` and the negated values after `moves[i..]`.
pub open spec fn qvalue_moves(m: PositionModel, ply: int, moves: Seq<ChessMove>, i: int, best: int) -> int
    decreases MAX_PLY + 1 - ply, 0int, moves.len() - i,
{
    if i < 0 || i >= moves.len() || ply > MAX_PLY || ply < 0 {
        best
    } else {
        qvalue_moves(m, ply, moves, i + 1, int_max(best, -qvalue(position_after(m, moves[i]), ply + 1)))
    }
}

proof fn lemma_qvalue_moves_max(m: PositionModel, ply: int, moves: Seq<ChessMove>, i: int, b1: int, b2: int)
    ensures
        qvalue_moves(m, ply, moves, i, int_max(b1, b2)) == int_max(b1, qvalue_moves(m, ply, moves, i, b2)),
    decreases moves.len() - i,
{
    if 0 <= i < moves.len() && 0 <= ply <= MAX_PLY {
        let c = -qvalue(position_after(m, moves[i]), ply + 1);
        lemma_qvalue_moves_max(m, ply, moves, i + 1, b1, int_max(b2, c));
        assert(int_max(int_max(b1, b2), c) == int_max(b1, int_max(b2, c)));
    }
}

proof fn lemma_qsearch_moves_fail_soft(
    m: PositionModel,
    ply: int,
    beta: i32,
    moves: Seq<ChessMove>,
    i: int,
    alpha: i32,
    best: i32,
    n: i32,
)
    requires
        0 <= ply <= MAX_PLY,
        i32::MIN < alpha < beta,
        -q_bound() <= best <= q_bound(),
        0 <= i <= moves.len(),
    ensures
        ({
            let r = qsearch_moves(m, ply, beta, moves, i, alpha, best, n).0 as int;
            let v = qvalue_moves(m, ply, moves, i, best as int);
            &&& -q_bound() <= r <= q_bound()
            &&& r >= beta ==> v >= r
            &&& r < beta ==> v <= r
            &&& alpha < r < beta ==> v >= r
        }),
    decreases MAX_PLY + 1 - ply, 0int, moves.len() - i,
{
    if i < moves.len() {
        let child = position_after(m, moves[i]);
        let (cv, n1) = qsearch(child, ply + 1, neg(beta), neg(alpha), n);
        lemma_qsearch_fail_soft(child, ply + 1, neg(beta), neg(alpha), n);
        let qc = qvalue(child, ply + 1);
        let score = neg(cv);
        assert(score == -cv);
        let x = qvalue_moves(m, ply, moves, i + 1, best as int);
        lemma_qvalue_moves_max(m, ply, moves, i + 1, -qc, best as int);
        assert(int_max(best as int, -qc) == int_max(-qc, best as int));
        assert(qvalue_moves(m, ply, moves, i, best as int) == int_max(-qc, x));
        if score < beta {
            lemma_qsearch_moves_fail_soft(m, ply, beta, moves, i + 1, max_of(score, alpha), max_of(score, best), n1);
            lemma_qvalue_moves_max(m, ply, moves, i + 1, score as int, best as int);
            assert(int_max(score as int, best as int) == max_of(score, best));
        }
    } else {
        lemma_qvalue_moves_max(m, ply, moves, i, best as int, best as int);
    }
}

/// The quiescence search fails soft: a score strictly inside the window
/// is the quiescence minimax value [`qvalue`], a score at or below alpha is
/// an upper bound of it, and one at or above beta a lower bound; every
/// score lies within [`q_bound`] of zero.
pub proof fn lemma_qsearch_fail_soft(m: PositionModel, ply: int, alpha: i32, beta: i32, n: i32)
    requires
        i32::MIN < alpha < beta,
    ensures
        ({
            let r = qsearch(m, ply, alpha, beta, n).0 as int;
            &&& -q_bound() <= r <= q_bound()
            &&& r <= alpha ==> qvalue(m, ply) <= r
            &&& r >= beta ==> qvalue(m, ply) >= r
            &&& alpha < r < beta ==> qvalue(m, ply) == r
        }),
    decreases MAX_PLY + 1 - ply, 1int, 0int,
{
    crate::engine::evaluation::lemma_evaluation_bounded(m);
    if 0 <= ply <= MAX_PLY {
        let moves = quiescence_moves(m);
        let n1 = wadd(n, 1);
        if m.checkers != 0 {
            lemma_qsearch_moves_fail_soft(m, ply, beta, moves, 0, alpha, (-MATE_SCORE + ply) as i32, n1);
        } else {
            let sp = evaluation(m) as i32;
            lemma_qvalue_moves_max(m, ply, moves, 0, sp as int, sp as int);
            if sp < beta {
                lemma_qsearch_moves_fail_soft(m, ply, beta, moves, 0, max_of(sp, alpha), sp, n1);
            }
        }
    }
}

/// Searched with the widest window, the quiescence search gives its
/// minimax value.
pub proof fn lemma_qsearch_full_window(m: PositionModel, ply: int, n: i32)
    ensures
        qsearch(m, ply, -i32::MAX as i32, i32::MAX, n).0 == qvalue(m, ply),
{
    lemma_qsearch_fail_soft(m, ply, -i32::MAX as i32, i32::MAX, n);
}

/// How a node's best score bounds its true score, given the window it was
/// searched in.
pub open spec fn bound_of(best_score: i32, entry_alpha: i32, beta: i32) -> Bound {
    if best_score <= entry_alpha {
        Bound::Upper
    } else if best_score >= beta {
        Bound::Lower
    } else {
        Bound::Exact
    }
}

/// The table entry a searched node stores.
pub open spec fn node_entry(
    m: PositionModel,
    ctx: SearchCTX,
    best_score: i32,
    best_move: Option<ChessMove>,
    age: u8,
) -> TTEntry {
    TTEntry {
        key: m.hash,
        depth: ctx.depth as u8,
        score: to_tt_score(best_score, ctx.ply as i32),
        bound: bound_of(best_score, ctx.alpha, ctx.beta),
        best_move,
        age,
    }
}

/// The score a table entry settles a node with, if it does: an entry for
/// the position searched at least as deep, away from the root, whose
/// (root-relative) score is exact, or a lower bound at least beta, or an
/// upper bound at most alpha.
pub open spec fn tt_cutoff(t: TableView, m: PositionModel, ctx: SearchCTX) -> Option<i32> {
    match probe_result(t, m.hash) {
        Some(e) => if e.depth >= ctx.depth && ctx.ply > 0 {
            let s = from_tt_score(e.score, ctx.ply as i32);
            match e.bound {
                Bound::Exact => Some(s),
                Bound::Lower => if s >= ctx.beta {
                    Some(s)
                } else {
                    None
                },
                Bound::Upper => if s <= ctx.alpha {
                    Some(s)
                } else {
                    None
                },
            }
        } else {
            None
        },
        None => None,
    }
}

/// The move the table remembers for a position, if any.
pub open spec fn tt_move_of(t: TableView, m: PositionModel) -> Option<ChessMove> {
    match probe_result(t, m.hash) {
        Some(e) => e.best_move,
        None => None,
    }
}

/// The moves the alpha-beta search tries, in order.
pub open spec fn search_moves(m: PositionModel, tt_move: Option<ChessMove>) -> Seq<ChessMove> {
    sorted_by_key(legal_moves_of(m), order_key(m, tt_move))
}

/// The window of the null-move search.
pub open spec fn null_ctx(ctx: SearchCTX) -> SearchCTX {
    SearchCTX {
        depth: (ctx.depth - 3) as i32,
        ply: (ctx.ply + 1) as usize,
        alpha: neg(ctx.beta),
        beta: wadd(neg(ctx.beta), 1),
    }
}

/// The window of a child searched under the current alpha.
pub open spec fn child_ctx(ctx: SearchCTX, alpha: i32) -> SearchCTX {
    SearchCTX {
        depth: (ctx.depth - 1) as i32,
        ply: (ctx.ply + 1) as usize,
        alpha: neg(ctx.beta),
        beta: neg(alpha),
    }
}

/// The alpha-beta search of `m` from table `t`, recorded root move `best`
/// and node counter `n`, in search generation `age`: its score, the table
/// it leaves, the root move it leaves recorded and the node counter after
/// it.
pub open spec fn ab(t: TableView, best: Option<ChessMove>, age: u8, m: PositionModel, ctx: SearchCTX, n: i32) -> (
    i32,
    TableView,
    Option<ChessMove>,
    i32,
)
    decreases ctx.depth, 2int, 0int,
{
    let n1 = wadd(n, 1);
    if ctx.depth < 0 {
        (0, t, best, n1)
    } else {
        match tt_cutoff(t, m, ctx) {
            Some(s) => (s, t, best, n1),
            None => if ctx.depth == 0 {
                let (q, n2) = qsearch(m, ctx.ply as int, ctx.alpha, ctx.beta, n1);
                (q, t, best, n2)
            } else {
                let try_null = m.checkers == 0 && ctx.depth >= 3;
                let (null_value, t1, b1, n2) = if try_null {
                    ab(t, best, age, position_after_null_move(m), null_ctx(ctx), n1)
                } else {
                    (0i32, t, best, n1)
                };
                if try_null && neg(null_value) >= ctx.beta {
                    (ctx.beta, t1, b1, n2)
                } else {
                    let moves = search_moves(m, tt_move_of(t, m));
                    if moves.len() == 0 {
                        (
                            if m.checkers == 0 {
                                0i32
                            } else {
                                wadd((-MATE_SCORE) as i32, ctx.ply as i32)
                            },
                            t1,
                            b1,
                            n2,
                        )
                    } else {
                        let (best_score, best_move, t2, b2, n3) = ab_moves(
                            t1,
                            b1,
                            age,
                            m,
                            ctx,
                            moves,
                            0,
                            ctx.alpha,
                            (-INFINITY) as i32,
                            None,
                            n2,
                        );
                        (
                            best_score,
                            after_store(t2, node_entry(m, ctx, best_score, best_move, age)),
                            b2,
                            n3,
                        )
                    }
                }
            },
        }
    }
}

/// The alpha-beta search's loop over `moves[i..]`: the best score and move
/// found, the table left, the root move left recorded and the node counter.
pub open spec fn ab_moves(
    t: TableView,
    best: Option<ChessMove>,
    age: u8,
    m: PositionModel,
    ctx: SearchCTX,
    moves: Seq<ChessMove>,
    i: int,
    alpha: i32,
    best_score: i32,
    best_move: Option<ChessMove>,
    n: i32,
) -> (i32, Option<ChessMove>, TableView, Option<ChessMove>, i32)
    decreases ctx.depth, 1int, moves.len() - i,
{
    if i < 0 || i >= moves.len() || ctx.depth < 1 {
        (best_score, best_move, t, best, n)
    } else {
        let mv = moves[i];
        let (v, t1, b1, n1) = ab(t, best, age, position_after(m, mv), child_ctx(ctx, alpha), n);
        let score = neg(v);
        let improved = score > best_score;
        let bs = if improved {
            score
        } else {
            best_score
        };
        let bm = if improved {
            Some(mv)
        } else {
            best_move
        };
        let b2 = if improved && ctx.ply == 0 {
            Some(mv)
        } else {
            b1
        };
        if score >= ctx.beta {
            (bs, bm, t1, b2, n1)
        } else {
            ab_moves(t1, b2, age, m, ctx, moves, i + 1, max_of(score, alpha), bs, bm, n1)
        }
    }
}

/// The root window of one search.
pub open spec fn root_ctx(depth: i32, alpha: i32, beta: i32) -> SearchCTX {
    SearchCTX { depth, ply: 0, alpha, beta }
}

/// The number of sides of a window that are not yet open.
pub open spec fn closed_sides(alpha: i32, beta: i32) -> int {
    (if alpha == -INFINITY {
        0int
    } else {
        1int
    }) + (if beta == INFINITY {
        0int
    } else {
        1int
    })
}

/// The aspiration search at one depth from window `(alpha, beta)`: a score
/// at or below a closed alpha opens alpha, one at or above a closed beta
/// opens beta, and the search is repeated; otherwise the score stands.
/// Gives the score, the table left, the root move left recorded and the
/// node counter.
pub open spec fn window_search(
    t: TableView,
    best: Option<ChessMove>,
    age: u8,
    m: PositionModel,
    depth: i32,
    alpha: i32,
    beta: i32,
    n: i32,
) -> (i32, TableView, Option<ChessMove>, i32)
    decreases closed_sides(alpha, beta),
{
    let (score, t1, b1, n1) = ab(t, best, age, m, root_ctx(depth, alpha, beta), n);
    if score <= alpha && alpha != -INFINITY {
        window_search(t1, b1, age, m, depth, (-INFINITY) as i32, beta, n1)
    } else if score >= beta && beta != INFINITY {
        window_search(t1, b1, age, m, depth, alpha, INFINITY, n1)
    } else {
        (score, t1, b1, n1)
    }
}

/// The first window at `depth`: `WINDOW` around the previous score from the
/// third depth on, else fully open.
pub open spec fn first_window(depth: int, score: i32) -> (i32, i32) {
    if depth >= 3 {
        (wsub(score, WINDOW), wadd(score, WINDOW))
    } else {
        ((-INFINITY) as i32, INFINITY)
    }
}

/// Iterative deepening from `depth` to `max_depth`, after the previous
/// score `score`, with node counter `n`: the table, recorded root move and
/// node counter it leaves, and `done` followed by the line of each depth
/// (whose node count starts from zero).
pub open spec fn deepen(
    t: TableView,
    best: Option<ChessMove>,
    age: u8,
    m: PositionModel,
    depth: int,
    max_depth: int,
    score: i32,
    n: i32,
    done: Seq<DepthInfo>,
) -> (TableView, Option<ChessMove>, i32, Seq<DepthInfo>)
    decreases max_depth + 1 - depth,
{
    if depth > max_depth {
        (t, best, n, done)
    } else {
        let (alpha, beta) = first_window(depth, score);
        let (s, t1, b1, n1) = window_search(t, best, age, m, depth as i32, alpha, beta, 0);
        deepen(
            t1,
            b1,
            age,
            m,
            depth + 1,
            max_depth,
            s,
            n1,
            done.push(DepthInfo { depth: depth as i32, score: s, nodes: n1, best_move: b1 }),
        )
    }
}

/// The negamax value the alpha-beta search looks for, `depth` plies deep
/// and `ply` plies from the root: at depth zero the quiescence value; with
/// no legal move 0, or the mate score when in check; otherwise the best of
/// the search's floor `-INFINITY` and the negated values after each legal
/// move.
pub open spec fn negamax(m: PositionModel, depth: int, ply: int) -> int
    decreases depth, 1int, 0int,
{
    if depth <= 0 {
        qvalue(m, ply)
    } else if legal_moves_of(m).len() == 0 {
        if m.checkers == 0 {
            0
        } else {
            -MATE_SCORE + ply
        }
    } else {
        negamax_moves(m, depth, ply, legal_moves_of(m), 0, -INFINITY)
    }
}

/// The best of `best` and the negated values after `moves[i..]`.
pub open spec fn negamax_moves(m: PositionModel, depth: int, ply: int, moves: Seq<ChessMove>, i: int, best: int) -> int
    decreases depth, 0int, moves.len() - i,
{
    if i < 0 || i >= moves.len() || depth <= 0 {
        best
    } else {
        negamax_moves(m, depth, ply, moves, i + 1, int_max(best, -negamax(position_after(m, moves[i]), depth - 1, ply + 1)))
    }
}

/// The search of `m` takes no table cutoff and no null-move cutoff, at
/// its root or anywhere below it.
pub open spec fn ab_clean(t: TableView, best: Option<ChessMove>, age: u8, m: PositionModel, ctx: SearchCTX, n: i32) -> bool
    decreases ctx.depth, 2int, 0int,
{
    let n1 = wadd(n, 1);
    &&& ctx.depth >= 0
    &&& tt_cutoff(t, m, ctx) is None
    &&& (ctx.depth == 0 || {
        let try_null = m.checkers == 0 && ctx.depth >= 3;
        let (null_value, t1, b1, n2) = if try_null {
            ab(t, best, age, position_after_null_move(m), null_ctx(ctx), n1)
        } else {
            (0i32, t, best, n1)
        };
        &&& !(try_null && neg(null_value) >= ctx.beta)
        &&& ab_moves_clean(t1, b1, age, m, ctx, search_moves(m, tt_move_of(t, m)), 0, ctx.alpha, (-INFINITY) as i32, None, n2)
    })
}

/// The search's loop over `moves[i..]` takes no table or null-move cutoff.
pub open spec fn ab_moves_clean(
    t: TableView,
    best: Option<ChessMove>,
    age: u8,
    m: PositionModel,
    ctx: SearchCTX,
    moves: Seq<ChessMove>,
    i: int,
    alpha: i32,
    best_score: i32,
    best_move: Option<ChessMove>,
    n: i32,
) -> bool
    decreases ctx.depth, 1int, moves.len() - i,
{
    if i < 0 || i >= moves.len() || ctx.depth < 1 {
        true
    } else {
        let mv = moves[i];
        let (v, t1, b1, n1) = ab(t, best, age, position_after(m, mv), child_ctx(ctx, alpha), n);
        let score = neg(v);
        let improved = score > best_score;
        let bs = if improved {
            score
        } else {
            best_score
        };
        let bm = if improved {
            Some(mv)
        } else {
            best_move
        };
        let b2 = if improved && ctx.ply == 0 {
            Some(mv)
        } else {
            b1
        };
        &&& ab_clean(t, best, age, position_after(m, mv), child_ctx(ctx, alpha), n)
        &&& (score >= ctx.beta || ab_moves_clean(t1, b2, age, m, ctx, moves, i + 1, max_of(score, alpha), bs, bm, n1))
    }
}

proof fn lemma_negamax_moves_max(
    m: PositionModel,
    depth: int,
    ply: int,
    moves: Seq<ChessMove>,
    i: int,
    b1: int,
    b2: int,
)
    ensures
        negamax_moves(m, depth, ply, moves, i, int_max(b1, b2)) == int_max(b1, negamax_moves(m, depth, ply, moves, i, b2)),
    decreases moves.len() - i,
{
    if 0 <= i < moves.len() && depth > 0 {
        let c = -negamax(position_after(m, moves[i]), depth - 1, ply + 1);
        lemma_negamax_moves_max(m, depth, ply, moves, i + 1, b1, int_max(b2, c));
        assert(int_max(int_max(b1, b2), c) == int_max(b1, int_max(b2, c)));
    }
}

proof fn lemma_negamax_moves_bounds(m: PositionModel, depth: int, ply: int, moves: Seq<ChessMove>, i: int, b: int)
    requires
        0 <= i,
        depth > 0,
    ensures
        ({
            let r = negamax_moves(m, depth, ply, moves, i, b);
            &&& r >= b
            &&& forall|j: int| i <= j < moves.len() ==> r >= -negamax(position_after(m, #[trigger] moves[j]), depth - 1, ply + 1)
            &&& (r == b || exists|j: int| i <= j < moves.len() && r == -negamax(position_after(m, #[trigger] moves[j]), depth - 1, ply + 1))
        }),
    decreases moves.len() - i,
{
    if i < moves.len() {
        let c = -negamax(position_after(m, moves[i]), depth - 1, ply + 1);
        lemma_negamax_moves_bounds(m, depth, ply, moves, i + 1, int_max(b, c));
        let r = negamax_moves(m, depth, ply, moves, i, b);
        if r != b && r == int_max(b, c) {
            assert(r == -negamax(position_after(m, moves[i]), depth - 1, ply + 1));
        }
    }
}

proof fn lemma_negamax_moves_same_moves(m: PositionModel, depth: int, ply: int, s1: Seq<ChessMove>, s2: Seq<ChessMove>, b: int)
    requires
        depth > 0,
        forall|mv: ChessMove| #[trigger] s1.contains(mv) <==> s2.contains(mv),
    ensures
        negamax_moves(m, depth, ply, s1, 0, b) == negamax_moves(m, depth, ply, s2, 0, b),
{
    lemma_negamax_moves_bounds(m, depth, ply, s1, 0, b);
    lemma_negamax_moves_bounds(m, depth, ply, s2, 0, b);
    let r1 = negamax_moves(m, depth, ply, s1, 0, b);
    let r2 = negamax_moves(m, depth, ply, s2, 0, b);
    if r1 != b {
        let j = choose|j: int| 0 <= j < s1.len() && r1 == -negamax(position_after(m, #[trigger] s1[j]), depth - 1, ply + 1);
        assert(s1.contains(s1[j]));
        let k = choose|k: int| 0 <= k < s2.len() && s2[k] == s1[j];
        assert(r2 >= -negamax(position_after(m, s2[k]), depth - 1, ply + 1));
    }
    if r2 != b {
        let j = choose|j: int| 0 <= j < s2.len() && r2 == -negamax(position_after(m, #[trigger] s2[j]), depth - 1, ply + 1);
        assert(s2.contains(s2[j]));
        assert(s1.contains(s2[j]));
        let k = choose|k: int| 0 <= k < s1.len() && s1[k] == s2[j];
        assert(r1 >= -negamax(position_after(m, s1[k]), depth - 1, ply + 1));
    }
}

proof fn lemma_ab_moves_fail_soft(
    t: TableView,
    best: Option<ChessMove>,
    age: u8,
    m: PositionModel,
    ctx: SearchCTX,
    moves: Seq<ChessMove>,
    i: int,
    alpha: i32,
    best_score: i32,
    best_move: Option<ChessMove>,
    n: i32,
)
    requires
        ab_moves_clean(t, best, age, m, ctx, moves, i, alpha, best_score, best_move, n),
        ctx.depth >= 1,
        ctx.ply as int + ctx.depth as int <= i32::MAX,
        i32::MIN < alpha < ctx.beta,
        best_score > i32::MIN,
        0 <= i <= moves.len(),
    ensures
        ({
            let r = ab_moves(t, best, age, m, ctx, moves, i, alpha, best_score, best_move, n).0 as int;
            let v = negamax_moves(m, ctx.depth as int, ctx.ply as int, moves, i, best_score as int);
            &&& r > i32::MIN
            &&& r >= ctx.beta ==> v >= r
            &&& r < ctx.beta ==> v <= r
            &&& alpha < r < ctx.beta ==> v >= r
        }),
    decreases ctx.depth, 0int, moves.len() - i,
{
    let depth = ctx.depth as int;
    let ply = ctx.ply as int;
    if i < moves.len() {
        let mv = moves[i];
        let child = position_after(m, mv);
        let cctx = child_ctx(ctx, alpha);
        assert(cctx.depth == depth - 1 && cctx.ply == ply + 1);
        let (cv, t1, b1, n1) = ab(t, best, age, child, cctx, n);
        lemma_ab_fail_soft(t, best, age, child, cctx, n);
        let qc = negamax(child, depth - 1, ply + 1);
        let score = neg(cv);
        assert(score == -cv);
        let x = negamax_moves(m, depth, ply, moves, i + 1, best_score as int);
        lemma_negamax_moves_max(m, depth, ply, moves, i + 1, -qc, best_score as int);
        assert(int_max(best_score as int, -qc) == int_max(-qc, best_score as int));
        assert(negamax_moves(m, depth, ply, moves, i, best_score as int) == int_max(-qc, x));
        let bs = if score > best_score {
            score
        } else {
            best_score
        };
        let bm = if score > best_score {
            Some(mv)
        } else {
            best_move
        };
        let b2 = if score > best_score && ctx.ply == 0 {
            Some(mv)
        } else {
            b1
        };
        lemma_negamax_moves_max(m, depth, ply, moves, i + 1, best_score as int, best_score as int);
        if score < ctx.beta {
            lemma_ab_moves_fail_soft(t1, b2, age, m, ctx, moves, i + 1, max_of(score, alpha), bs, bm, n1);
            lemma_negamax_moves_max(m, depth, ply, moves, i + 1, score as int, best_score as int);
            assert(int_max(score as int, best_score as int) == bs);
        }
    } else {
        lemma_negamax_moves_max(m, depth, ply, moves, i, best_score as int, best_score as int);
    }
}

/// The alpha-beta search fails soft around the negamax value: when it
/// takes no table cutoff and no null-move cutoff, a score strictly inside
/// the window is [`negamax`] of the position, a score at or below alpha is
/// an upper bound of it, and one at or above beta a lower bound.
pub proof fn lemma_ab_fail_soft(t: TableView, best: Option<ChessMove>, age: u8, m: PositionModel, ctx: SearchCTX, n: i32)
    requires
        ab_clean(t, best, age, m, ctx, n),
        ctx.ply as int + ctx.depth as int <= i32::MAX,
        i32::MIN < ctx.alpha < ctx.beta,
    ensures
        ({
            let r = ab(t, best, age, m, ctx, n).0 as int;
            let v = negamax(m, ctx.depth as int, ctx.ply as int);
            &&& r > i32::MIN
            &&& r <= ctx.alpha ==> v <= r
            &&& r >= ctx.beta ==> v >= r
            &&& ctx.alpha < r < ctx.beta ==> v == r
        }),
    decreases ctx.depth, 1int, 0int,
{
    let n1 = wadd(n, 1);
    if ctx.depth == 0 {
        lemma_qsearch_fail_soft(m, ctx.ply as int, ctx.alpha, ctx.beta, n1);
    } else {
        let try_null = m.checkers == 0 && ctx.depth >= 3;
        let (null_value, t1, b1, n2) = if try_null {
            ab(t, best, age, position_after_null_move(m), null_ctx(ctx), n1)
        } else {
            (0i32, t, best, n1)
        };
        let moves = search_moves(m, tt_move_of(t, m));
        lemma_sorted_elements(legal_moves_of(m), order_key(m, tt_move_of(t, m)));
        if moves.len() > 0 {
            lemma_ab_moves_fail_soft(t1, b1, age, m, ctx, moves, 0, ctx.alpha, (-INFINITY) as i32, None, n2);
            lemma_sorted_keeps_moves(legal_moves_of(m), order_key(m, tt_move_of(t, m)));
            lemma_negamax_moves_same_moves(m, ctx.depth as int, ctx.ply as int, moves, legal_moves_of(m), -INFINITY);
        }
    }
}

proof fn lemma_ab_keeps_best(t: TableView, best: Option<ChessMove>, age: u8, m: PositionModel, ctx: SearchCTX, n: i32)
    requires
        ctx.ply > 0,
        ctx.ply as int + ctx.depth as int <= i32::MAX,
    ensures
        ab(t, best, age, m, ctx, n).2 == best,
    decreases ctx.depth, 1int, 0int,
{
    if ctx.depth >= 1 && tt_cutoff(t, m, ctx) is None {
        let n1 = wadd(n, 1);
        let try_null = m.checkers == 0 && ctx.depth >= 3;
        if try_null {
            lemma_ab_keeps_best(t, best, age, position_after_null_move(m), null_ctx(ctx), n1);
        }
        let (null_value, t1, b1, n2) = if try_null {
            ab(t, best, age, position_after_null_move(m), null_ctx(ctx), n1)
        } else {
            (0i32, t, best, n1)
        };
        let moves = search_moves(m, tt_move_of(t, m));
        lemma_ab_moves_keeps_best(t1, b1, age, m, ctx, moves, 0, ctx.alpha, (-INFINITY) as i32, None, n2);
    }
}

proof fn lemma_ab_moves_keeps_best(
    t: TableView,
    best: Option<ChessMove>,
    age: u8,
    m: PositionModel,
    ctx: SearchCTX,
    moves: Seq<ChessMove>,
    i: int,
    alpha: i32,
    best_score: i32,
    best_move: Option<ChessMove>,
    n: i32,
)
    requires
        ctx.ply > 0,
        ctx.ply as int + ctx.depth as int <= i32::MAX,
    ensures
        ab_moves(t, best, age, m, ctx, moves, i, alpha, best_score, best_move, n).3 == best,
    decreases ctx.depth, 0int, moves.len() - i,
{
    if 0 <= i < moves.len() && ctx.depth >= 1 {
        let mv = moves[i];
        let cctx = child_ctx(ctx, alpha);
        lemma_ab_keeps_best(t, best, age, position_after(m, mv), cctx, n);
        let (v, t1, b1, n1) = ab(t, best, age, position_after(m, mv), cctx, n);
        let score = neg(v);
        let bs = if score > best_score {
            score
        } else {
            best_score
        };
        let bm = if score > best_score {
            Some(mv)
        } else {
            best_move
        };
        lemma_ab_moves_keeps_best(t1, b1, age, m, ctx, moves, i + 1, max_of(score, alpha), bs, bm, n1);
    }
}

proof fn lemma_root_moves_record(
    t: TableView,
    best: Option<ChessMove>,
    age: u8,
    m: PositionModel,
    ctx: SearchCTX,
    moves: Seq<ChessMove>,
    i: int,
    alpha: i32,
    best_score: i32,
    best_move: Option<ChessMove>,
    n: i32,
)
    requires
        ab_moves_clean(t, best, age, m, ctx, moves, i, alpha, best_score, best_move, n),
        ctx.ply == 0,
        ctx.depth >= 1,
        i32::MIN < alpha < ctx.beta,
        best_score > i32::MIN,
        0 <= i <= moves.len(),
    ensures
        ({
            let (r, bm, tr, b, nr) = ab_moves(t, best, age, m, ctx, moves, i, alpha, best_score, best_move, n);
            ||| r == best_score && b == best
            ||| r > best_score && exists|j: int|
                i <= j < moves.len() && b == Some(#[trigger] moves[j]) && (alpha < r < ctx.beta ==> -negamax(
                    position_after(m, moves[j]),
                    ctx.depth - 1,
                    1,
                ) == r)
        }),
    decreases moves.len() - i,
{
    if i < moves.len() {
        let mv = moves[i];
        let child = position_after(m, mv);
        let cctx = child_ctx(ctx, alpha);
        assert(cctx.depth == ctx.depth - 1 && cctx.ply == 1);
        lemma_ab_keeps_best(t, best, age, child, cctx, n);
        lemma_ab_fail_soft(t, best, age, child, cctx, n);
        let (v, t1, b1, n1) = ab(t, best, age, child, cctx, n);
        let score = neg(v);
        assert(score == -v);
        let bs = if score > best_score {
            score
        } else {
            best_score
        };
        let bm = if score > best_score {
            Some(mv)
        } else {
            best_move
        };
        let b2 = if score > best_score {
            Some(mv)
        } else {
            b1
        };
        if score < ctx.beta {
            let alpha2 = max_of(score, alpha);
            lemma_root_moves_record(t1, b2, age, m, ctx, moves, i + 1, alpha2, bs, bm, n1);
            let (r, bmr, tr, b, nr) = ab_moves(t1, b2, age, m, ctx, moves, i + 1, alpha2, bs, bm, n1);
            if r > bs {
                let j = choose|j: int|
                    i + 1 <= j < moves.len() && b == Some(#[trigger] moves[j]) && (alpha2 < r < ctx.beta ==> -negamax(
                        position_after(m, moves[j]),
                        ctx.depth - 1,
                        1,
                    ) == r);
                assert(i <= j < moves.len() && b == Some(moves[j]));
            } else if score > best_score {
                assert(b == Some(moves[i]));
            }
        }
    }
}

/// At the root the search records a move that attains its score: after a
/// root search that takes no table or null-move cutoff, of a position with
/// legal moves, whenever the score is above the search's floor
/// `-INFINITY` the recorded best move is a legal move, and when the score
/// lies strictly inside the window, the negated [`negamax`] value after
/// that move is the score.
pub proof fn lemma_root_records_best_move(t: TableView, best: Option<ChessMove>, age: u8, m: PositionModel, ctx: SearchCTX, n: i32)
    requires
        ab_clean(t, best, age, m, ctx, n),
        ctx.ply == 0,
        ctx.depth >= 1,
        i32::MIN < ctx.alpha < ctx.beta,
        legal_moves_of(m).len() > 0,
    ensures
        ({
            let (r, tr, b, nr) = ab(t, best, age, m, ctx, n);
            r > -INFINITY ==> exists|mv: ChessMove|
                b == Some(mv) && #[trigger] legal_moves_of(m).contains(mv) && (ctx.alpha < r < ctx.beta ==> -negamax(
                    position_after(m, mv),
                    ctx.depth - 1,
                    1,
                ) == r)
        }),
{
    let n1 = wadd(n, 1);
    let try_null = m.checkers == 0 && ctx.depth >= 3;
    if try_null {
        lemma_ab_keeps_best(t, best, age, position_after_null_move(m), null_ctx(ctx), n1);
    }
    let (null_value, t1, b1, n2) = if try_null {
        ab(t, best, age, position_after_null_move(m), null_ctx(ctx), n1)
    } else {
        (0i32, t, best, n1)
    };
    let moves = search_moves(m, tt_move_of(t, m));
    lemma_sorted_elements(legal_moves_of(m), order_key(m, tt_move_of(t, m)));
    lemma_root_moves_record(t1, b1, age, m, ctx, moves, 0, ctx.alpha, (-INFINITY) as i32, None, n2);
    let (r, bm, t2, b2, n3) = ab_moves(t1, b1, age, m, ctx, moves, 0, ctx.alpha, (-INFINITY) as i32, None, n2);
    if r > -INFINITY {
        let j = choose|j: int|
            0 <= j < moves.len() && b2 == Some(#[trigger] moves[j]) && (ctx.alpha < r < ctx.beta ==> -negamax(
                position_after(m, moves[j]),
                ctx.depth - 1,
                1,
            ) == r);
        assert(legal_moves_of(m).contains(moves[j]));
    }
}

/// The search result of one iteration of the iterative deepening.
#[derive(Clone, Copy, PartialEq, Eq, Structural, Debug)]
pub struct DepthInfo {
    /// The depth searched.
    pub depth: i32,
    /// The score of the root at that depth.
    pub score: i32,
    /// The positions visited at that depth (re-searches included).
    pub nodes: i32,
    /// The best root move recorded after that depth.
    pub best_move: Option<ChessMove>,
}

/// The best move found and one line of information per completed depth.
pub struct SearchReport {
    /// The best root move of the deepest search, if any.
    pub best_move: Option<ChessMove>,
    /// One line per depth, from depth one up.
    pub infos: Vec<DepthInfo>,
}

/// The search engine.
pub struct Engine {
    best_move: Option<ChessMove>,
    nodes: i32,
    tt: TranspositionTable,
    age: u8,
}

/// The recorded best move is unchanged, or the search is at the root and
/// it is a legal move of the root position.
pub open spec fn best_kept_or_root_move(
    before: Option<ChessMove>,
    after: Option<ChessMove>,
    m: PositionModel,
    ply: usize,
) -> bool {
    after == before || (ply == 0 && match after {
        Some(mv) => legal_moves_of(m).contains(mv),
        None => false,
    })
}

/// The table cannot cut the search short: the node is the root, or the
/// table holds nothing for its hash.
pub open spec fn no_cutoff(t: TableView, key: u64, ply: usize) -> bool {
    ply == 0 || probe_result(t, key) is None
}

/// Storing a score and reading it back at the same distance from the root
/// gives the score back (when the adjustment does not overflow).
pub proof fn lemma_tt_score_round_trip(score: i32, ply: i32)
    requires
        0 <= ply,
        score + ply <= i32::MAX,
        score - ply >= i32::MIN,
    ensures
        from_tt_score(to_tt_score(score, ply), ply) == score,
{
}

/// The table holds an exact score for `key` searched at least `depth` deep.
pub open spec fn exact_hit(t: TableView, key: u64, depth: i32) -> bool {
    match probe_result(t, key) {
        Some(e) => e.depth >= depth && e.bound == Bound::Exact,
        None => false,
    }
}

impl Engine {
    /// The table of the engine.
    pub closed spec fn table(&self) -> TableView {
        self.tt@
    }

    /// The best root move of the current search.
    pub closed spec fn best(&self) -> Option<ChessMove> {
        self.best_move
    }

    /// The search generation.
    pub closed spec fn generation(&self) -> u8 {
        self.age
    }

    /// The nodes visited since the current depth started.
    pub closed spec fn node_count(&self) -> i32 {
        self.nodes
    }

    /// The engine's table is well formed.
    pub open spec fn wf(&self) -> bool {
        table_wf(self.table())
    }

    /// A fresh engine with an empty 64 MiB transposition table.
    pub fn new() -> (r: Engine)
        ensures
            r.wf(),
            r.best() is None,
            r.generation() == 0,
            r.node_count() == 0,
            sized_for(r.table(), 64),
            forall|i: int| 0 <= i < r.table().entries.len() ==> #[trigger] r.table().entries[i] is None,
    {
        Engine { best_move: None, nodes: 0, tt: TranspositionTable::new(64), age: 0 }
    }

    /// Iterative deepening from depth 1 to `max_depth`, each depth after the
    /// second first searched in a window of `WINDOW` around the previous
    /// score and widened on the side it fails; a side is opened at most
    /// once, so each depth ends after at most three searches. Returns the
    /// best root move and one line of information per depth.
    pub fn search(&mut self, board: &Position, max_depth: i32) -> (r: SearchReport)
        requires
            old(self).wf(),
            max_depth < i32::MAX,
        ensures
            final(self).wf(),
            final(self).generation() == wadd_u8(old(self).generation(), 1),
            r.best_move == final(self).best(),
            (final(self).table(), r.best_move, final(self).node_count(), r.infos@) == deepen(
                old(self).table(),
                None,
                wadd_u8(old(self).generation(), 1),
                board@,
                1,
                max_depth as int,
                0,
                old(self).node_count(),
                seq![],
            ),
            r.best_move matches Some(mv) ==> legal_moves_of(board@).contains(mv),
            max_depth < 1 ==> r.best_move is None && r.infos@.len() == 0,
            max_depth >= 1 ==> r.infos@.len() == max_depth,
            forall|i: int| 0 <= i < r.infos@.len() ==> #[trigger] r.infos@[i].depth == i + 1,
            forall|i: int|
                0 <= i < r.infos@.len() ==> legal_or_none(board@, (#[trigger] r.infos@[i]).best_move),
    {
        let ghost t0 = self.table();
        let ghost m = board@;
        self.best_move = None;
        self.age = self.age.wrapping_add(1);
        let ghost age = self.generation();
        let mut score: i32 = 0;
        let mut infos: Vec<DepthInfo> = Vec::new();
        let mut depth: i32 = 1;
        let ghost n0 = self.node_count();
        assert(infos@ =~= seq![]);
        while depth <= max_depth
            invariant
                self.wf(),
                self.generation() == wadd_u8(old(self).generation(), 1),
                age == self.generation(),
                m == board@,
                self.best() matches Some(mv) ==> legal_moves_of(board@).contains(mv),
                1 <= depth,
                max_depth < i32::MAX,
                depth <= max_depth + 1 || max_depth < 1,
                max_depth < 1 ==> depth == 1 && self.best() is None,
                infos@.len() == depth - 1,
                forall|i: int| 0 <= i < infos@.len() ==> #[trigger] infos@[i].depth == i + 1,
                forall|i: int|
                    0 <= i < infos@.len() ==> legal_or_none(board@, (#[trigger] infos@[i]).best_move),
                deepen(t0, None, age, m, 1, max_depth as int, 0, n0, seq![]) == deepen(
                    self.table(),
                    self.best(),
                    age,
                    m,
                    depth as int,
                    max_depth as int,
                    score,
                    self.node_count(),
                    infos@,
                ),
            decreases max_depth - depth + 1,
        {
            self.nodes = 0;
            let ghost td = self.table();
            let ghost bd = self.best();
            let ghost prev = score;
            let (mut alpha, mut beta) = if depth >= 3 {
                (score.wrapping_sub(WINDOW), score.wrapping_add(WINDOW))
            } else {
                (-INFINITY, INFINITY)
            };
            let ghost a0 = alpha;
            let ghost b0 = beta;
            assert((a0, b0) == first_window(depth as int, prev));
            let mut search_window = true;
            while search_window
                invariant
                    self.wf(),
                    self.generation() == wadd_u8(old(self).generation(), 1),
                    age == self.generation(),
                    m == board@,
                    self.best() matches Some(mv) ==> legal_moves_of(board@).contains(mv),
                    1 <= depth <= max_depth,
                    max_depth < i32::MAX,
                    search_window ==> window_search(td, bd, age, m, depth, a0, b0, 0) == window_search(
                        self.table(),
                        self.best(),
                        age,
                        m,
                        depth,
                        alpha,
                        beta,
                        self.node_count(),
                    ),
                    !search_window ==> window_search(td, bd, age, m, depth, a0, b0, 0) == (
                        score,
                        self.table(),
                        self.best(),
                        self.node_count(),
                    ),
                decreases (if search_window { 1int } else { 0int }) + closed_sides(alpha, beta),
            {
                score = self.alpha_beta(board, SearchCTX { depth: depth, ply: 0, alpha: alpha, beta: beta });
                if score <= alpha && alpha != -INFINITY {
                    alpha = -INFINITY;
                } else if score >= beta && beta != INFINITY {
                    beta = INFINITY;
                } else {
                    search_window = false;
                }
            }
            infos.push(DepthInfo { depth: depth, score: score, nodes: self.nodes, best_move: self.best_move });
            depth = depth + 1;
        }
        SearchReport { best_move: self.best_move, infos }
    }

    /// The best move found by searching `max_depth` plies deep (see
    /// [`Engine::search`]); `None` when `max_depth` is below one. A search
    /// of one ply or more needs a position with a legal move.
    pub fn get_best_move(&mut self, board: &Position, max_depth: i32) -> (r: Option<ChessMove>)
        requires
            old(self).wf(),
            max_depth < i32::MAX,
            max_depth >= 1 ==> legal_moves_of(board@).len() > 0,
        ensures
            final(self).wf(),
            final(self).generation() == wadd_u8(old(self).generation(), 1),
            (final(self).table(), r) == ({
                let (t, b, n, lines) = deepen(
                    old(self).table(),
                    None,
                    wadd_u8(old(self).generation(), 1),
                    board@,
                    1,
                    max_depth as int,
                    0,
                    old(self).node_count(),
                    seq![],
                );
                (t, b)
            }),
            r matches Some(mv) ==> legal_moves_of(board@).contains(mv),
            max_depth < 1 ==> r is None,
    {
        self.search(board, max_depth).best_move
    }

    /// Negamax alpha-beta search of `ctx.depth` plies, then the quiescence
    /// search. Reuses table entries searched at least as deep (away from the
    /// root), tries a null move first when not in check with three or more
    /// plies left, orders moves best first, and stores the result in the
    /// table. At the root it records the best move found.
    pub fn alpha_beta(&mut self, board: &Position, ctx: SearchCTX) -> (r: i32)
        requires
            old(self).wf(),
            ctx.depth >= 0,
            ctx.ply as int + ctx.depth as int <= i32::MAX,
        ensures
            final(self).wf(),
            final(self).generation() == old(self).generation(),
            best_kept_or_root_move(old(self).best(), final(self).best(), board@, ctx.ply),
            ctx.ply > 0 && exact_hit(old(self).table(), board@.hash, ctx.depth) ==> r == from_tt_score(
                probe_result(old(self).table(), board@.hash).unwrap().score,
                ctx.ply as i32,
            ),
            no_cutoff(old(self).table(), board@.hash, ctx.ply) && ctx.depth > 0 && board@.checkers != 0
                && legal_moves_of(board@).len() == 0 ==> r == wadd((-MATE_SCORE) as i32, ctx.ply as i32),
            no_cutoff(old(self).table(), board@.hash, ctx.ply) && 0 < ctx.depth < 3 && board@.checkers
                == 0 && legal_moves_of(board@).len() == 0 ==> r == 0,
            ctx.ply == 0 && ctx.depth == 0 && board@.checkers == 0 && legal_captures_of(board@).len()
                == 0 ==> r == evaluation(board@),
            (r, final(self).table(), final(self).best(), final(self).node_count()) == ab(
                old(self).table(),
                old(self).best(),
                old(self).generation(),
                board@,
                ctx,
                old(self).node_count(),
            ),
        decreases ctx.depth, 1int, 0int,
    {
        let ghost t0 = self.table();
        let ghost b0 = self.best();
        let ghost age = self.generation();
        let ghost m = board@;
        let ghost n0 = self.node_count();
        self.nodes = self.nodes.wrapping_add(1);
        let key = board.hash();
        let mut tt_move: Option<ChessMove> = None;
        match self.tt.probe(key) {
            Some(entry) => {
                tt_move = entry.best_move;
                if entry.depth as i32 >= ctx.depth && ctx.ply > 0 {
                    let score = self.score_from_tt(entry.score, ctx.ply as i32);
                    match entry.bound {
                        Bound::Exact => {
                            return score;
                        },
                        Bound::Lower => {
                            if score >= ctx.beta {
                                return score;
                            }
                        },
                        Bound::Upper => {
                            if score <= ctx.alpha {
                                return score;
                            }
                        },
                    }
                }
            },
            None => {},
        }
        assert(tt_cutoff(t0, m, ctx) is None);
        assert(tt_move == tt_move_of(t0, m));
        if ctx.depth == 0 {
            return self.quiescence_search(board, ctx);
        }
        let is_check = board.in_check();
        if !is_check && ctx.depth >= 3 {
            match board.null_move() {
                Some(next_board) => {
                    let null_score = negate(
                        self.alpha_beta(
                            &next_board,
                            SearchCTX {
                                depth: ctx.depth - 3,
                                ply: ctx.ply + 1,
                                alpha: negate(ctx.beta),
                                beta: negate(ctx.beta).wrapping_add(1),
                            },
                        ),
                    );
                    if null_score >= ctx.beta {
                        return ctx.beta;
                    }
                },
                None => {},
            }
        }
        let ghost t1 = self.table();
        let ghost b1 = self.best();
        let ghost n2 = self.node_count();
        assert((t1, b1, n2) == (if m.checkers == 0 && ctx.depth >= 3 {
            let (v, ta, ba, na) = ab(t0, b0, age, position_after_null_move(m), null_ctx(ctx), wadd(n0, 1));
            (ta, ba, na)
        } else {
            (t0, b0, wadd(n0, 1))
        }));
        let ghost best_before = self.best();
        let mut legal_moves = get_legal_moves(board);
        let ghost generated = legal_moves@;
        let key_fn = |mv: ChessMove| -> (k: i32)
            requires
                move_on_board(board@, mv),
            ensures
                k == move_order_score(board@, mv, tt_move),
            { score_move(board, &mv, &tt_move) };
        assert(key_fn_ok(key_fn, legal_moves@));
        legal_moves.sort_by_key(key_fn);
        proof {
            lemma_all_legal_within(board@, generated, legal_moves@);
            assert forall|i: int| 0 <= i < generated.len() implies key_spec(key_fn)(#[trigger] generated[i])
                == order_key(board@, tt_move)(generated[i]) by {
                assert(call_ensures(key_fn, (generated[i],), key_of(key_fn, generated[i])));
            }
            lemma_sorted_same_keys(generated, key_spec(key_fn), order_key(board@, tt_move));
            assert(legal_moves@ == search_moves(m, tt_move_of(t0, m)));
        }
        if legal_moves.is_empty() {
            if !board.in_check() {
                return 0;
            } else {
                return (-MATE_SCORE).wrapping_add(ctx.ply as i32);
            }
        }
        let entry_alpha = ctx.alpha;
        let mut alpha = ctx.alpha;
        let mut best_score = -INFINITY;
        let mut best_move: Option<ChessMove> = None;
        let ghost moves = legal_moves@;
        let mut iter = legal_moves.into_iter();
        loop
            invariant_except_break
                ab_moves(t1, b1, age, m, ctx, moves, 0, ctx.alpha, (-INFINITY) as i32, None, n2) == ab_moves(
                    self.table(),
                    self.best(),
                    age,
                    m,
                    ctx,
                    moves,
                    iter.index as int,
                    alpha,
                    best_score,
                    best_move,
                    self.node_count(),
                ),
            invariant
                self.wf(),
                self.generation() == old(self).generation(),
                best_kept_or_root_move(best_before, self.best(), board@, ctx.ply),
                best_before == old(self).best(),
                iter.list@ == moves,
                iter.index <= moves.len(),
                all_legal(board@, moves),
                moves_within(generated, moves),
                generated == legal_moves_of(board@),
                ctx.depth >= 1,
                ctx.ply as int + ctx.depth as int <= i32::MAX,
                m == board@,
                age == self.generation(),
            ensures
                ab_moves(t1, b1, age, m, ctx, moves, 0, ctx.alpha, (-INFINITY) as i32, None, n2) == (
                    best_score,
                    best_move,
                    self.table(),
                    self.best(),
                    self.node_count(),
                ),
                self.wf(),
                self.generation() == old(self).generation(),
                best_kept_or_root_move(best_before, self.best(), board@, ctx.ply),
            decreases moves.len() - iter.index,
        {
            let ghost idx = iter.index;
            let current_move = match iter.next() {
                Some(mv) => mv,
                None => {
                    assert(ab_moves(self.table(), self.best(), age, m, ctx, moves, idx as int, alpha, best_score, best_move, self.node_count())
                        == (best_score, best_move, self.table(), self.best(), self.node_count()));
                    break;
                },
            };
            assert(current_move == moves[idx as int]);
            let next_board = board.play(current_move);
            let score = negate(
                self.alpha_beta(
                    &next_board,
                    SearchCTX {
                        depth: ctx.depth - 1,
                        ply: ctx.ply + 1,
                        alpha: negate(ctx.beta),
                        beta: negate(alpha),
                    },
                ),
            );
            if score > best_score {
                best_score = score;
                best_move = Some(current_move);
                if ctx.ply == 0 {
                    self.best_move = Some(current_move);
                    proof {
                        assert(generated.contains(current_move));
                    }
                }
            }
            alpha = max_score(score, alpha);
            if score >= ctx.beta {
                break;
            }
        }
        let bound = if best_score <= entry_alpha {
            Bound::Upper
        } else if best_score >= ctx.beta {
            Bound::Lower
        } else {
            Bound::Exact
        };
        let stored = self.score_to_tt(best_score, ctx.ply as i32);
        self.tt.store(
            &TTEntry {
                key: board.hash(),
                depth: ctx.depth as u8,
                score: stored,
                bound,
                best_move,
                age: self.age,
            },
        );
        best_score
    }

    /// The quiescence search: the static evaluation (unless in check) as a
    /// floor, improved by searching captures (all moves when in check)
    /// until the position is quiet or `MAX_PLY` plies from the root.
    pub fn quiescence_search(&mut self, board: &Position, ctx: SearchCTX) -> (r: i32)
        requires
            old(self).wf(),
            ctx.ply <= i32::MAX,
            ctx.depth as int + ctx.ply as int > i32::MIN + MAX_PLY,
        ensures
            final(self).wf(),
            final(self).table() == old(self).table(),
            final(self).best() == old(self).best(),
            final(self).generation() == old(self).generation(),
            (r, final(self).node_count()) == qsearch(board@, ctx.ply as int, ctx.alpha, ctx.beta, old(self).node_count()),
            ctx.ply > MAX_PLY ==> r == evaluation(board@),
            ctx.ply <= MAX_PLY && board@.checkers == 0 && evaluation(board@) >= ctx.beta ==> r
                == evaluation(board@),
            ctx.ply <= MAX_PLY && board@.checkers == 0 && legal_captures_of(board@).len() == 0 ==> r
                == evaluation(board@),
            ctx.ply <= MAX_PLY && board@.checkers != 0 && legal_moves_of(board@).len() == 0 ==> r
                == -MATE_SCORE + ctx.ply,
        decreases 0int, 0int, MAX_PLY + 1 - ctx.ply,
    {
        let ghost n0 = self.node_count();
        self.nodes = self.nodes.wrapping_add(1);
        if ctx.ply as i32 > MAX_PLY {
            return evaluate(board);
        }
        let mut alpha = ctx.alpha;
        let is_check = board.in_check();
        proof {
            crate::engine::evaluation::lemma_evaluation_bounded(board@);
        }
        let mut best_score = if is_check {
            -MATE_SCORE + ctx.ply as i32
        } else {
            let static_score = evaluate(board);
            if static_score >= ctx.beta {
                return static_score;
            }
            alpha = max_score(static_score, alpha);
            static_score
        };
        let mut legal_moves = if is_check {
            get_legal_moves(board)
        } else {
            get_legal_captures(board)
        };
        let ghost generated = legal_moves@;
        let ghost alpha0 = alpha;
        let ghost best0 = best_score;
        let no_move: Option<ChessMove> = None;
        let key_fn = |mv: ChessMove| -> (k: i32)
            requires
                move_on_board(board@, mv),
            ensures
                k == move_order_score(board@, mv, None),
            { score_move(board, &mv, &no_move) };
        assert(key_fn_ok(key_fn, legal_moves@));
        legal_moves.sort_by_key(key_fn);
        proof {
            lemma_all_legal_within(board@, generated, legal_moves@);
            assert forall|i: int| 0 <= i < generated.len() implies key_spec(key_fn)(#[trigger] generated[i])
                == order_key(board@, None)(generated[i]) by {
                assert(call_ensures(key_fn, (generated[i],), key_of(key_fn, generated[i])));
            }
            lemma_sorted_same_keys(generated, key_spec(key_fn), order_key(board@, None));
            assert(legal_moves@ == quiescence_moves(board@));
        }
        let ghost moves = legal_moves@;
        let mut iter = legal_moves.into_iter();
        loop
            invariant
                self.wf(),
                moves == quiescence_moves(board@),
                n0 == old(self).node_count(),
                qsearch(board@, ctx.ply as int, ctx.alpha, ctx.beta, n0) == qsearch_moves(
                    board@,
                    ctx.ply as int,
                    ctx.beta,
                    moves,
                    iter.index as int,
                    alpha,
                    best_score,
                    self.node_count(),
                ),
                self.table() == old(self).table(),
                self.best() == old(self).best(),
                self.generation() == old(self).generation(),
                iter.list@ == moves,
                iter.index <= moves.len(),
                all_legal(board@, moves),
                ctx.ply <= MAX_PLY,
                ctx.depth as int + ctx.ply as int > i32::MIN + MAX_PLY,
                is_check == (board@.checkers != 0),
                !is_check ==> evaluation(board@) < ctx.beta,
                moves.len() == if is_check {
                    legal_moves_of(board@).len()
                } else {
                    legal_captures_of(board@).len()
                },
                moves.len() == 0 ==> best_score == if is_check {
                    -MATE_SCORE + ctx.ply
                } else {
                    evaluation(board@)
                },
                iter.index == 0 ==> best_score == if is_check {
                    -MATE_SCORE + ctx.ply
                } else {
                    evaluation(board@)
                },
            ensures
                qsearch(board@, ctx.ply as int, ctx.alpha, ctx.beta, n0) == (best_score, self.node_count()),
            decreases moves.len() - iter.index,
        {
            let current_move = match iter.next() {
                Some(mv) => mv,
                None => {
                    assert(iter.index >= moves.len());
                    assert(qsearch_moves(board@, ctx.ply as int, ctx.beta, moves, iter.index as int, alpha, best_score, self.node_count()) == (best_score, self.node_count()));
                    break;
                },
            };
            let next_board = board.play(current_move);
            let score = negate(
                self.quiescence_search(
                    &next_board,
                    SearchCTX {
                        depth: ctx.depth - 1,
                        ply: ctx.ply + 1,
                        alpha: negate(ctx.beta),
                        beta: negate(alpha),
                    },
                ),
            );
            best_score = max_score(score, best_score);
            if score >= ctx.beta {
                return score;
            }
            alpha = max_score(score, alpha);
        }
        best_score
    }

    /// A score to store in the table for a node `ply` plies from the root.
    pub fn score_to_tt(&self, score: i32, ply: i32) -> (r: i32)
        ensures
            r == to_tt_score(score, ply),
    {
        if score >= MATE_SCORE - MAX_PLY {
            score.wrapping_add(ply)
        } else if score <= -MATE_SCORE + MAX_PLY {
            score.wrapping_sub(ply)
        } else {
            score
        }
    }

    /// A stored score read back at a node `ply` plies from the root.
    pub fn score_from_tt(&self, score: i32, ply: i32) -> (r: i32)
        ensures
            r == from_tt_score(score, ply),
    {
        if score >= MATE_SCORE - MAX_PLY {
            score.wrapping_sub(ply)
        } else if score <= -MATE_SCORE + MAX_PLY {
            score.wrapping_add(ply)
        } else {
            score
        }
    }
}

} // verus!
