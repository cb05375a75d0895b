//! Material evaluation.

use vstd::prelude::*;
use crate::chess::{Color, Piece, Position, PositionModel, has_bit, piece_index, piece_to_index, bit_is_set, opposite};

verus! {

/// Material value of each piece kind, indexed by piece index.
pub const PIECE_VALUES: [i32; 6] = [100, 320, 330, 500, 900, 0];

/// The number of set bits of `bb` below bit `n`.
pub open spec fn bit_count(bb: u64, n: int) -> int
    decreases n,
{
    if n <= 0 {
        0
    } else {
        bit_count(bb, n - 1) + if has_bit(bb, n - 1) {
            1int
        } else {
            0int
        }
    }
}

proof fn lemma_bit_count_bounded(bb: u64, n: int)
    requires
        0 <= n,
    ensures
        0 <= bit_count(bb, n) <= n,
    decreases n,
{
    if n > 0 {
        lemma_bit_count_bounded(bb, n - 1);
    }
}

/// The number of set bits of a bitboard (`BitBoard::len`).
pub fn count_bits(bb: u64) -> (r: u32)
    ensures
        r == bit_count(bb, 64),
        r <= 64,
{
    let mut count: u32 = 0;
    let mut i: u8 = 0;
    while i < 64
        invariant
            i <= 64,
            count == bit_count(bb, i as int),
            count <= i,
        decreases 64 - i,
    {
        if bit_is_set(bb, i) {
            count = count + 1;
        }
        i = i + 1;
    }
    count
}

/// The number of pieces of color index `c` and kind index `p`.
pub open spec fn piece_count(m: PositionModel, c: int, p: int) -> int {
    bit_count(m.colors[c] & m.pieces[p], 64)
}

/// The material of the pieces of color index `c` and kinds `0..k`.
pub open spec fn color_material(m: PositionModel, c: int, k: int) -> int
    decreases k,
{
    if k <= 0 {
        0
    } else {
        color_material(m, c, k - 1) + PIECE_VALUES@[k - 1] * piece_count(m, c, k - 1)
    }
}

/// The evaluation's running total after white's kinds `0..k` (`ci == 0`)
/// or after all of white and black's kinds `0..k` (`ci == 1`).
pub open spec fn material_partial(m: PositionModel, ci: int, k: int) -> int {
    if ci == 0 {
        color_material(m, 0, k)
    } else {
        color_material(m, 0, 6) - color_material(m, 1, k)
    }
}

/// The material balance from the side to move's point of view.
pub open spec fn material_evaluation(m: PositionModel) -> int {
    if m.side_to_move == Color::Black {
        -material_partial(m, 1, 6)
    } else {
        material_partial(m, 1, 6)
    }
}

proof fn lemma_color_material_bounded(m: PositionModel, c: int, k: int)
    requires
        0 <= k <= 6,
    ensures
        0 <= color_material(m, c, k) <= 57600 * k,
    decreases k,
{
    if k > 0 {
        lemma_color_material_bounded(m, c, k - 1);
        lemma_bit_count_bounded(m.colors[c] & m.pieces[k - 1], 64);
        let n = piece_count(m, c, k - 1);
        let v = PIECE_VALUES@[k - 1];
        assert(0 <= v <= 900);
        assert(0 <= v * n <= 900 * 64) by (nonlinear_arith)
            requires
                0 <= v <= 900,
                0 <= n <= 64,
        ;
    }
}

proof fn lemma_material_partial_bounded(m: PositionModel, ci: int, k: int)
    requires
        0 <= k <= 6,
    ensures
        -345600 <= material_partial(m, ci, k) <= 345600,
{
    lemma_color_material_bounded(m, 0, k);
    lemma_color_material_bounded(m, 0, 6);
    lemma_color_material_bounded(m, 1, k);
}

/// Every material evaluation lies within 345600 of zero.
pub proof fn lemma_material_evaluation_bounded(m: PositionModel)
    ensures
        -345600 <= material_evaluation(m) <= 345600,
{
    lemma_material_partial_bounded(m, 1, 6);
}

proof fn lemma_color_material_depends_on_board(m1: PositionModel, m2: PositionModel, c: int, k: int)
    requires
        m1.pieces == m2.pieces,
        m1.colors == m2.colors,
    ensures
        color_material(m1, c, k) == color_material(m2, c, k),
    decreases k,
{
    if k > 0 {
        lemma_color_material_depends_on_board(m1, m2, c, k - 1);
    }
}

/// The material balance is seen from the side to move: the same pieces
/// with the other side to move evaluate to the negation.
pub proof fn lemma_material_evaluation_flips_with_side(m1: PositionModel, m2: PositionModel)
    requires
        m1.pieces == m2.pieces,
        m1.colors == m2.colors,
        m2.side_to_move == opposite(m1.side_to_move),
    ensures
        material_evaluation(m2) == -material_evaluation(m1),
{
    lemma_color_material_depends_on_board(m1, m2, 0, 6);
    lemma_color_material_depends_on_board(m1, m2, 1, 6);
}

/// `m2` is `m1` with one more piece, of kind index `p` and color index `c`,
/// on the square `sq`, which is empty in `m1`; the side to move is the same.
pub open spec fn adds_material(m1: PositionModel, m2: PositionModel, p: int, c: int, sq: int) -> bool {
    &&& 0 <= p < 6
    &&& 0 <= c < 2
    &&& 0 <= sq < 64
    &&& m2.side_to_move == m1.side_to_move
    &&& forall|q: int, ci: int|
        0 <= q < 6 && 0 <= ci < 2 ==> !#[trigger] has_bit(m1.colors[ci] & m1.pieces[q], sq)
    &&& forall|q: int, ci: int, x: int|
        0 <= q < 6 && 0 <= ci < 2 ==> (#[trigger] has_bit(m2.colors[ci] & m2.pieces[q], x) == (has_bit(
            m1.colors[ci] & m1.pieces[q],
            x,
        ) || (x == sq && q == p && ci == c)))
}

proof fn lemma_bit_count_adds(m1: PositionModel, m2: PositionModel, p: int, c: int, sq: int, q: int, ci: int, n: int)
    requires
        adds_material(m1, m2, p, c, sq),
        0 <= q < 6,
        0 <= ci < 2,
        0 <= n <= 64,
    ensures
        bit_count(m2.colors[ci] & m2.pieces[q], n) == bit_count(m1.colors[ci] & m1.pieces[q], n) + if q == p
            && ci == c && sq < n {
            1int
        } else {
            0int
        },
    decreases n,
{
    if n > 0 {
        lemma_bit_count_adds(m1, m2, p, c, sq, q, ci, n - 1);
        assert(has_bit(m2.colors[ci] & m2.pieces[q], n - 1) == (has_bit(m1.colors[ci] & m1.pieces[q], n - 1) || (
        n - 1 == sq && q == p && ci == c)));
        assert(!has_bit(m1.colors[ci] & m1.pieces[q], sq));
    }
}

proof fn lemma_color_material_adds(m1: PositionModel, m2: PositionModel, p: int, c: int, sq: int, ci: int, k: int)
    requires
        adds_material(m1, m2, p, c, sq),
        0 <= ci < 2,
        0 <= k <= 6,
    ensures
        color_material(m2, ci, k) == color_material(m1, ci, k) + if ci == c && p < k {
            PIECE_VALUES@[p] as int
        } else {
            0
        },
    decreases k,
{
    if k > 0 {
        lemma_color_material_adds(m1, m2, p, c, sq, ci, k - 1);
        lemma_bit_count_adds(m1, m2, p, c, sq, k - 1, ci, 64);
        let v = PIECE_VALUES@[k - 1] as int;
        let n1 = piece_count(m1, ci, k - 1);
        assert(v * (n1 + 1) == v * n1 + v) by (nonlinear_arith);
    }
}

/// Every piece counts: adding a piece of kind `p` and color index `c` on an
/// empty square raises the material balance by `PIECE_VALUES[p]` when that
/// color is to move, and lowers it by that value otherwise.
pub proof fn lemma_material_adds_piece_value(m1: PositionModel, m2: PositionModel, p: int, c: int, sq: int)
    requires
        adds_material(m1, m2, p, c, sq),
    ensures
        material_evaluation(m2) == material_evaluation(m1) + if (c == 0) == (m1.side_to_move == Color::White) {
            PIECE_VALUES@[p] as int
        } else {
            -(PIECE_VALUES@[p] as int)
        },
{
    lemma_color_material_adds(m1, m2, p, c, sq, 0, 6);
    lemma_color_material_adds(m1, m2, p, c, sq, 1, 6);
}

/// The material value of a piece.
pub fn get_piece_value(piece: Piece) -> (r: i32)
    ensures
        r == PIECE_VALUES@[piece_index(piece)],
{
    PIECE_VALUES[piece_to_index(piece)]
}

/// Material balance from the side to move's point of view.
pub fn evaluate(board: &Position) -> (r: i32)
    ensures
        r == material_evaluation(board@),
{
    let mut score: i32 = 0;
    let colors = [Color::White, Color::Black];
    let mut ci: usize = 0;
    while ci < 2
        invariant
            ci <= 2,
            colors@ == seq![Color::White, Color::Black],
            score == if ci == 0 {
                0
            } else if ci == 1 {
                material_partial(board@, 0, 6)
            } else {
                material_partial(board@, 1, 6)
            },
        decreases 2 - ci,
    {
        let color = colors[ci];
        let mut k: usize = 0;
        while k < 6
            invariant
                ci < 2,
                color == colors@[ci as int],
                colors@ == seq![Color::White, Color::Black],
                k <= 6,
                score == if ci == 0 || k > 0 {
                    material_partial(board@, ci as int, k as int)
                } else {
                    material_partial(board@, 0, 6)
                },
            decreases 6 - k,
        {
            let piece = crate::chess::piece_from_index(k);
            let pieces = board.colored_pieces(color, piece);
            let count = count_bits(pieces);
            proof {
                lemma_material_partial_bounded(board@, ci as int, k as int);
                lemma_material_partial_bounded(board@, 0, 6);
                lemma_material_partial_bounded(board@, ci as int, (k + 1) as int);
                lemma_bit_count_bounded(board@.colors[ci as int] & board@.pieces[k as int], 64);
                assert(0 <= PIECE_VALUES@[k as int] <= 900);
                assert(0 <= PIECE_VALUES@[k as int] * count <= 900 * 64) by (nonlinear_arith)
                    requires
                        0 <= PIECE_VALUES@[k as int] <= 900,
                        0 <= count <= 64,
                ;
            }
            if color == Color::White {
                score = score + PIECE_VALUES[k] * count as i32;
            } else {
                score = score - PIECE_VALUES[k] * count as i32;
            }
            k = k + 1;
        }
        ci = ci + 1;
    }
    proof {
        lemma_material_partial_bounded(board@, 1, 6);
    }
    if board.side_to_move() == Color::Black {
        score = -score;
    }
    score
}

} // verus!
