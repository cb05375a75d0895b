//! Static evaluation: material plus piece-square tables, seen from the
//! side to move.

use vstd::prelude::*;
use crate::chess::{
    Color, Piece, ChessMove, PositionModel, Position, has_bit, color_index, piece_index, piece_at,
    piece_to_index, color_to_index, bit_is_set, opposite,
};

verus! {

/// A score above every real evaluation, used as an open window bound.
pub const INFINITY: i32 = 32_001;

/// The score of giving mate at the root; mates found `n` plies deeper
/// score `n` less.
pub const MATE_SCORE: i32 = 32_000;

/// Middle-game material value of each piece kind, indexed by piece index.
pub const MG_VALUE: [i32; 6] = [82, 337, 365, 477, 1025, 0];

pub const MG_PAWN_TABLE: [i32; 64] = [
        0,     0,     0,     0,     0,     0,     0,     0,
       50,    50,    50,    50,    50,    50,    50,    50,
       10,    10,    20,    30,    30,    20,    10,    10,
        5,     5,    10,    25,    25,    10,     5,     5,
        0,     0,     0,    20,    20,     0,     0,     0,
        5,    -5,   -10,     0,     0,   -10,    -5,     5,
        5,    10,    10,   -20,   -20,    10,    10,     5,
        0,     0,     0,     0,     0,     0,     0,     0,
];

pub const MG_KNIGHT_TABLE: [i32; 64] = [
      -50,   -40,   -30,   -30,   -30,   -30,   -40,   -50,
      -40,   -20,     0,     0,     0,     0,   -20,   -40,
      -30,     0,    10,    15,    15,    10,     0,   -30,
      -30,     5,    15,    20,    20,    15,     5,   -30,
      -30,     0,    15,    20,    20,    15,     0,   -30,
      -30,     5,    10,    15,    15,    10,     5,   -30,
      -40,   -20,     0,     5,     5,     0,   -20,   -40,
      -50,   -40,   -30,   -30,   -30,   -30,   -40,   -50,
];

pub const MG_BISHOP_TABLE: [i32; 64] = [
      -20,   -10,   -10,   -10,   -10,   -10,   -10,   -20,
      -10,     0,     0,     0,     0,     0,     0,   -10,
      -10,     0,     5,    10,    10,     5,     0,   -10,
      -10,     5,     5,    10,    10,     5,     5,   -10,
      -10,     0,    10,    10,    10,    10,     0,   -10,
      -10,    10,    10,    10,    10,    10,    10,   -10,
      -10,     5,     0,     0,     0,     0,     5,   -10,
      -20,   -10,   -10,   -10,   -10,   -10,   -10,   -20,
];

pub const MG_ROOK_TABLE: [i32; 64] = [
        0,     0,     0,     0,     0,     0,     0,     0,
        5,    10,    10,    10,    10,    10,    10,     5,
       -5,     0,     0,     0,     0,     0,     0,    -5,
       -5,     0,     0,     0,     0,     0,     0,    -5,
       -5,     0,     0,     0,     0,     0,     0,    -5,
       -5,     0,     0,     0,     0,     0,     0,    -5,
       -5,     0,     0,     0,     0,     0,     0,    -5,
        0,     0,     0,     5,     5,     0,     0,     0,
];

pub const MG_QUEEN_TABLE: [i32; 64] = [
      -20,   -10,   -10,    -5,    -5,   -10,   -10,   -20,
      -10,     0,     0,     0,     0,     0,     0,   -10,
      -10,     0,     5,     5,     5,     5,     0,   -10,
       -5,     0,     5,     5,     5,     5,     0,    -5,
        0,     0,     5,     5,     5,     5,     0,    -5,
      -10,     5,     5,     5,     5,     5,     0,   -10,
      -10,     0,     5,     0,     0,     0,     0,   -10,
      -20,   -10,   -10,    -5,    -5,   -10,   -10,   -20,
];

pub const MG_KING_TABLE: [i32; 64] = [
      -30,   -40,   -40,   -50,   -50,   -40,   -40,   -30,
      -30,   -40,   -40,   -50,   -50,   -40,   -40,   -30,
      -30,   -40,   -40,   -50,   -50,   -40,   -40,   -30,
      -30,   -40,   -40,   -50,   -50,   -40,   -40,   -30,
      -20,   -30,   -30,   -40,   -40,   -30,   -30,   -20,
      -10,   -20,   -20,   -20,   -20,   -20,   -20,   -10,
       20,    20,     0,     0,     0,     0,    20,    20,
       20,    30,    10,     0,     0,    10,    30,    20,
];

pub const MG_TABLES: [[i32; 64]; 6] = [
    [
           82,    82,    82,    82,    82,    82,    82,    82,
          132,   132,   132,   132,   132,   132,   132,   132,
           92,    92,   102,   112,   112,   102,    92,    92,
           87,    87,    92,   107,   107,    92,    87,    87,
           82,    82,    82,   102,   102,    82,    82,    82,
           87,    77,    72,    82,    82,    72,    77,    87,
           87,    92,    92,    62,    62,    92,    92,    87,
           82,    82,    82,    82,    82,    82,    82,    82,
    ],
    [
          287,   297,   307,   307,   307,   307,   297,   287,
          297,   317,   337,   337,   337,   337,   317,   297,
          307,   337,   347,   352,   352,   347,   337,   307,
          307,   342,   352,   357,   357,   352,   342,   307,
          307,   337,   352,   357,   357,   352,   337,   307,
          307,   342,   347,   352,   352,   347,   342,   307,
          297,   317,   337,   342,   342,   337,   317,   297,
          287,   297,   307,   307,   307,   307,   297,   287,
    ],
    [
          345,   355,   355,   355,   355,   355,   355,   345,
          355,   365,   365,   365,   365,   365,   365,   355,
          355,   365,   370,   375,   375,   370,   365,   355,
          355,   370,   370,   375,   375,   370,   370,   355,
          355,   365,   375,   375,   375,   375,   365,   355,
          355,   375,   375,   375,   375,   375,   375,   355,
          355,   370,   365,   365,   365,   365,   370,   355,
          345,   355,   355,   355,   355,   355,   355,   345,
    ],
    [
          477,   477,   477,   477,   477,   477,   477,   477,
          482,   487,   487,   487,   487,   487,   487,   482,
          472,   477,   477,   477,   477,   477,   477,   472,
          472,   477,   477,   477,   477,   477,   477,   472,
          472,   477,   477,   477,   477,   477,   477,   472,
          472,   477,   477,   477,   477,   477,   477,   472,
          472,   477,   477,   477,   477,   477,   477,   472,
          477,   477,   477,   482,   482,   477,   477,   477,
    ],
    [
         1005,  1015,  1015,  1020,  1020,  1015,  1015,  1005,
         1015,  1025,  1025,  1025,  1025,  1025,  1025,  1015,
         1015,  1025,  1030,  1030,  1030,  1030,  1025,  1015,
         1020,  1025,  1030,  1030,  1030,  1030,  1025,  1020,
         1025,  1025,  1030,  1030,  1030,  1030,  1025,  1020,
         1015,  1030,  1030,  1030,  1030,  1030,  1025,  1015,
         1015,  1025,  1030,  1025,  1025,  1025,  1025,  1015,
         1005,  1015,  1015,  1020,  1020,  1015,  1015,  1005,
    ],
    [
          -30,   -40,   -40,   -50,   -50,   -40,   -40,   -30,
          -30,   -40,   -40,   -50,   -50,   -40,   -40,   -30,
          -30,   -40,   -40,   -50,   -50,   -40,   -40,   -30,
          -30,   -40,   -40,   -50,   -50,   -40,   -40,   -30,
          -20,   -30,   -30,   -40,   -40,   -30,   -30,   -20,
          -10,   -20,   -20,   -20,   -20,   -20,   -20,   -10,
           20,    20,     0,     0,     0,     0,    20,    20,
           20,    30,    10,     0,     0,    10,    30,    20,
    ],
];

/// Every entry of `t` below index `n` lies in `lo..=hi`.
pub open spec fn entries_within(t: Seq<i32>, lo: int, hi: int, n: int) -> bool
    decreases n,
{
    if n <= 0 {
        true
    } else {
        lo <= t[n - 1] <= hi && entries_within(t, lo, hi, n - 1)
    }
}

proof fn lemma_entries_within(t: Seq<i32>, lo: int, hi: int, n: int)
    requires
        entries_within(t, lo, hi, n),
    ensures
        forall|i: int| 0 <= i < n ==> lo <= #[trigger] t[i] <= hi,
    decreases n,
{
    if n > 0 {
        lemma_entries_within(t, lo, hi, n - 1);
    }
}

/// Every merged table entry lies within 1030 of zero.
pub proof fn lemma_mg_tables_bounded()
    ensures
        forall|p: int, i: int|
            0 <= p < 6 && 0 <= i < 64 ==> -1030 <= #[trigger] MG_TABLES@[p]@[i] <= 1030,
{
    reveal_with_fuel(entries_within, 65);
    assert(entries_within(MG_TABLES@[0]@, -1030, 1030, 64));
    assert(entries_within(MG_TABLES@[1]@, -1030, 1030, 64));
    assert(entries_within(MG_TABLES@[2]@, -1030, 1030, 64));
    assert(entries_within(MG_TABLES@[3]@, -1030, 1030, 64));
    assert(entries_within(MG_TABLES@[4]@, -1030, 1030, 64));
    assert(entries_within(MG_TABLES@[5]@, -1030, 1030, 64));
    lemma_entries_within(MG_TABLES@[0]@, -1030, 1030, 64);
    lemma_entries_within(MG_TABLES@[1]@, -1030, 1030, 64);
    lemma_entries_within(MG_TABLES@[2]@, -1030, 1030, 64);
    lemma_entries_within(MG_TABLES@[3]@, -1030, 1030, 64);
    lemma_entries_within(MG_TABLES@[4]@, -1030, 1030, 64);
    lemma_entries_within(MG_TABLES@[5]@, -1030, 1030, 64);
}

/// The piece-square table of a piece kind, indexed by piece index.
pub open spec fn pst_table(p: int) -> Seq<i32> {
    if p == 0 {
        MG_PAWN_TABLE@
    } else if p == 1 {
        MG_KNIGHT_TABLE@
    } else if p == 2 {
        MG_BISHOP_TABLE@
    } else if p == 3 {
        MG_ROOK_TABLE@
    } else if p == 4 {
        MG_QUEEN_TABLE@
    } else {
        MG_KING_TABLE@
    }
}

/// `merged` holds `value` added to each of the first `n` entries of `table`.
pub open spec fn merged_upto(merged: Seq<i32>, value: int, table: Seq<i32>, n: int) -> bool
    decreases n,
{
    if n <= 0 {
        true
    } else {
        merged[n - 1] == value + table[n - 1] && merged_upto(merged, value, table, n - 1)
    }
}

proof fn lemma_merged_upto(merged: Seq<i32>, value: int, table: Seq<i32>, n: int)
    requires
        merged_upto(merged, value, table, n),
    ensures
        forall|i: int| 0 <= i < n ==> #[trigger] merged[i] == value + table[i],
    decreases n,
{
    if n > 0 {
        lemma_merged_upto(merged, value, table, n - 1);
    }
}

/// Each merged table is its piece's material value added to every entry of
/// its piece-square table.
pub proof fn lemma_mg_tables_merged()
    ensures
        forall|p: int, i: int|
            0 <= p < 6 && 0 <= i < 64 ==> #[trigger] MG_TABLES@[p]@[i] == MG_VALUE@[p]
                + pst_table(p)[i],
{
    reveal_with_fuel(merged_upto, 65);
    assert(merged_upto(MG_TABLES@[0]@, MG_VALUE@[0] as int, MG_PAWN_TABLE@, 64));
    assert(merged_upto(MG_TABLES@[1]@, MG_VALUE@[1] as int, MG_KNIGHT_TABLE@, 64));
    assert(merged_upto(MG_TABLES@[2]@, MG_VALUE@[2] as int, MG_BISHOP_TABLE@, 64));
    assert(merged_upto(MG_TABLES@[3]@, MG_VALUE@[3] as int, MG_ROOK_TABLE@, 64));
    assert(merged_upto(MG_TABLES@[4]@, MG_VALUE@[4] as int, MG_QUEEN_TABLE@, 64));
    assert(merged_upto(MG_TABLES@[5]@, MG_VALUE@[5] as int, MG_KING_TABLE@, 64));
    lemma_merged_upto(MG_TABLES@[0]@, MG_VALUE@[0] as int, MG_PAWN_TABLE@, 64);
    lemma_merged_upto(MG_TABLES@[1]@, MG_VALUE@[1] as int, MG_KNIGHT_TABLE@, 64);
    lemma_merged_upto(MG_TABLES@[2]@, MG_VALUE@[2] as int, MG_BISHOP_TABLE@, 64);
    lemma_merged_upto(MG_TABLES@[3]@, MG_VALUE@[3] as int, MG_ROOK_TABLE@, 64);
    lemma_merged_upto(MG_TABLES@[4]@, MG_VALUE@[4] as int, MG_QUEEN_TABLE@, 64);
    lemma_merged_upto(MG_TABLES@[5]@, MG_VALUE@[5] as int, MG_KING_TABLE@, 64);
}

/// Adds `value` to every entry of a piece-square table.
pub fn merge_scores(value: i32, table: [i32; 64]) -> (merged: [i32; 64])
    requires
        forall|i: int| 0 <= i < 64 ==> i32::MIN <= value + #[trigger] table@[i] <= i32::MAX,
    ensures
        forall|i: int| 0 <= i < 64 ==> #[trigger] merged@[i] == value + table@[i],
{
    let mut merged = [0i32; 64];
    let mut i: usize = 0;
    while i < 64
        invariant
            i <= 64,
            forall|j: int| 0 <= j < 64 ==> i32::MIN <= value + #[trigger] table@[j] <= i32::MAX,
            forall|j: int| 0 <= j < i ==> #[trigger] merged@[j] == value + table@[j],
        decreases 64 - i,
    {
        merged[i] = value + table[i];
        i = i + 1;
    }
    merged
}

/// The middle-game material value of a piece.
pub fn get_piece_value(piece: Piece) -> (r: i32)
    ensures
        r == MG_VALUE@[piece_index(piece)],
{
    MG_VALUE[piece_to_index(piece)]
}

/// The table square of `sq` for `color`: white reads the tables with the
/// rank flipped, black reads them as they are.
pub open spec fn pst_square(sq: int, color: Color) -> int {
    match color {
        Color::White => (7 - sq / 8) * 8 + sq % 8,
        Color::Black => sq,
    }
}

/// The table index of a square for a color.
pub fn pst_index(square: u8, color: Color) -> (r: usize)
    requires
        square < 64,
    ensures
        r == pst_square(square as int, color),
        r < 64,
{
    match color {
        Color::White => {
            assert((square ^ 56u8) as int == (7 - square / 8) * 8 + square % 8 && (square ^ 56u8) < 64)
                by (bit_vector)
                requires
                    square < 64u8,
            ;
            (square ^ 56) as usize
        },
        Color::Black => square as usize,
    }
}

/// The table score of square `sq` for the pieces of color `c` and kind `p`.
pub open spec fn square_score(m: PositionModel, c: Color, p: int, sq: int) -> int {
    if has_bit(m.colors[color_index(c)] & m.pieces[p], sq) {
        MG_TABLES@[p]@[pst_square(sq, c)] as int
    } else {
        0
    }
}

/// The table score of the pieces of color `c` and kind `p` on squares `0..n`.
pub open spec fn kind_score(m: PositionModel, c: Color, p: int, n: int) -> int
    decreases n,
{
    if n <= 0 {
        0
    } else {
        kind_score(m, c, p, n - 1) + square_score(m, c, p, n - 1)
    }
}

/// The table score of the pieces of color `c` and of the kinds `0..k`.
pub open spec fn color_score(m: PositionModel, c: Color, k: int) -> int
    decreases k,
{
    if k <= 0 {
        0
    } else {
        color_score(m, c, k - 1) + kind_score(m, c, k - 1, 64)
    }
}

/// White's table score minus black's.
pub open spec fn material_balance(m: PositionModel) -> int {
    color_score(m, Color::White, 6) - color_score(m, Color::Black, 6)
}

/// The evaluation of a position from the side to move's point of view.
pub open spec fn evaluation(m: PositionModel) -> int {
    if m.side_to_move == Color::Black {
        -material_balance(m)
    } else {
        material_balance(m)
    }
}

proof fn lemma_kind_score_bounded(m: PositionModel, c: Color, p: int, n: int)
    requires
        0 <= p < 6,
        0 <= n <= 64,
    ensures
        -1030 * n <= kind_score(m, c, p, n) <= 1030 * n,
    decreases n,
{
    if n > 0 {
        lemma_kind_score_bounded(m, c, p, n - 1);
        lemma_mg_tables_bounded();
        if has_bit(m.colors[color_index(c)] & m.pieces[p], n - 1) {
            let sq = n - 1;
            assert(0 <= pst_square(sq, c) < 64);
            assert(-1030 <= MG_TABLES@[p]@[pst_square(sq, c)] <= 1030);
        }
    }
}

proof fn lemma_color_score_bounded(m: PositionModel, c: Color, k: int)
    requires
        0 <= k <= 6,
    ensures
        -65920 * k <= color_score(m, c, k) <= 65920 * k,
    decreases k,
{
    if k > 0 {
        lemma_color_score_bounded(m, c, k - 1);
        lemma_kind_score_bounded(m, c, k - 1, 64);
    }
}

/// The evaluation is seen from the side to move: the same pieces with the
/// other side to move (as after a null move) evaluate to the negation.
pub proof fn lemma_evaluation_flips_with_side(m1: PositionModel, m2: PositionModel)
    requires
        m1.pieces == m2.pieces,
        m1.colors == m2.colors,
        m2.side_to_move == opposite(m1.side_to_move),
    ensures
        evaluation(m2) == -evaluation(m1),
{
    lemma_color_score_depends_on_board(m1, m2, Color::White, 6);
    lemma_color_score_depends_on_board(m1, m2, Color::Black, 6);
}

proof fn lemma_color_score_depends_on_board(m1: PositionModel, m2: PositionModel, c: Color, k: int)
    requires
        m1.pieces == m2.pieces,
        m1.colors == m2.colors,
    ensures
        color_score(m1, c, k) == color_score(m2, c, k),
    decreases k,
{
    if k > 0 {
        lemma_color_score_depends_on_board(m1, m2, c, k - 1);
        lemma_kind_score_depends_on_board(m1, m2, c, k - 1, 64);
    }
}

proof fn lemma_kind_score_depends_on_board(m1: PositionModel, m2: PositionModel, c: Color, p: int, n: int)
    requires
        m1.pieces == m2.pieces,
        m1.colors == m2.colors,
    ensures
        kind_score(m1, c, p, n) == kind_score(m2, c, p, n),
    decreases n,
{
    if n > 0 {
        lemma_kind_score_depends_on_board(m1, m2, c, p, n - 1);
    }
}

/// `g(0) + ... + g(n - 1)`.
pub open spec fn sum_to(g: spec_fn(int) -> int, n: int) -> int
    decreases n,
{
    if n <= 0 {
        0
    } else {
        sum_to(g, n - 1) + g(n - 1)
    }
}

/// A square with its rank mirrored: a1 and a8 trade places, the file stays.
pub open spec fn flip_square(sq: int) -> int {
    (7 - sq / 8) * 8 + sq % 8
}

/// `m2` is `m1` seen in a mirror between the two sides: every piece of one
/// color on a square stands, with the other color, on the square with the
/// rank mirrored, and the other side is to move.
pub open spec fn is_color_mirror(m1: PositionModel, m2: PositionModel) -> bool {
    &&& m2.side_to_move == opposite(m1.side_to_move)
    &&& forall|p: int, sq: int|
        0 <= p < 6 && 0 <= sq < 64 ==> (#[trigger] has_bit(m2.colors[0] & m2.pieces[p], sq) == has_bit(
            m1.colors[1] & m1.pieces[p],
            flip_square(sq),
        ))
    &&& forall|p: int, sq: int|
        0 <= p < 6 && 0 <= sq < 64 ==> (#[trigger] has_bit(m2.colors[1] & m2.pieces[p], sq) == has_bit(
            m1.colors[0] & m1.pieces[p],
            flip_square(sq),
        ))
}

proof fn lemma_sum_to_ext(g1: spec_fn(int) -> int, g2: spec_fn(int) -> int, n: int)
    requires
        forall|i: int| 0 <= i < n ==> #[trigger] g1(i) == g2(i),
    ensures
        sum_to(g1, n) == sum_to(g2, n),
    decreases n,
{
    if n > 0 {
        lemma_sum_to_ext(g1, g2, n - 1);
    }
}

proof fn lemma_sum_flip(g: spec_fn(int) -> int)
    ensures
        sum_to(|sq: int| g(flip_square(sq)), 64) == sum_to(g, 64),
{
    reveal_with_fuel(sum_to, 65);
}

proof fn lemma_kind_score_sum(m: PositionModel, c: Color, p: int, n: int)
    ensures
        kind_score(m, c, p, n) == sum_to(|sq: int| square_score(m, c, p, sq), n),
    decreases n,
{
    if n > 0 {
        lemma_kind_score_sum(m, c, p, n - 1);
    }
}

proof fn lemma_kind_score_mirror(m1: PositionModel, m2: PositionModel, p: int)
    requires
        is_color_mirror(m1, m2),
        0 <= p < 6,
    ensures
        kind_score(m2, Color::White, p, 64) == kind_score(m1, Color::Black, p, 64),
        kind_score(m2, Color::Black, p, 64) == kind_score(m1, Color::White, p, 64),
{
    let w2 = |sq: int| square_score(m2, Color::White, p, sq);
    let b2 = |sq: int| square_score(m2, Color::Black, p, sq);
    let w1 = |sq: int| square_score(m1, Color::White, p, sq);
    let b1 = |sq: int| square_score(m1, Color::Black, p, sq);
    lemma_kind_score_sum(m2, Color::White, p, 64);
    lemma_kind_score_sum(m2, Color::Black, p, 64);
    lemma_kind_score_sum(m1, Color::White, p, 64);
    lemma_kind_score_sum(m1, Color::Black, p, 64);
    assert forall|sq: int| 0 <= sq < 64 implies w2(sq) == b1(flip_square(sq)) && b2(sq) == w1(
        flip_square(sq),
    ) by {
        assert(has_bit(m2.colors[0] & m2.pieces[p], sq) == has_bit(m1.colors[1] & m1.pieces[p], flip_square(sq)));
        assert(has_bit(m2.colors[1] & m2.pieces[p], sq) == has_bit(m1.colors[0] & m1.pieces[p], flip_square(sq)));
        assert(flip_square(flip_square(sq)) == sq);
    }
    lemma_sum_to_ext(w2, |sq: int| b1(flip_square(sq)), 64);
    lemma_sum_to_ext(b2, |sq: int| w1(flip_square(sq)), 64);
    lemma_sum_flip(b1);
    lemma_sum_flip(w1);
}

proof fn lemma_color_score_mirror(m1: PositionModel, m2: PositionModel, k: int)
    requires
        is_color_mirror(m1, m2),
        0 <= k <= 6,
    ensures
        color_score(m2, Color::White, k) == color_score(m1, Color::Black, k),
        color_score(m2, Color::Black, k) == color_score(m1, Color::White, k),
    decreases k,
{
    if k > 0 {
        lemma_color_score_mirror(m1, m2, k - 1);
        lemma_kind_score_mirror(m1, m2, k - 1);
    }
}

/// The evaluation treats the two sides alike: a position and its mirror
/// image with the colors swapped and the other side to move evaluate the
/// same.
pub proof fn lemma_evaluation_color_mirror(m1: PositionModel, m2: PositionModel)
    requires
        is_color_mirror(m1, m2),
    ensures
        evaluation(m2) == evaluation(m1),
{
    lemma_color_score_mirror(m1, m2, 6);
}

/// `m2` is `m1` with one more piece, of kind index `p` and color `c`, on the
/// square `sq`, which is empty in `m1`; the side to move is the same.
pub open spec fn adds_piece(m1: PositionModel, m2: PositionModel, p: int, c: Color, sq: int) -> bool {
    &&& 0 <= p < 6
    &&& 0 <= sq < 64
    &&& m2.side_to_move == m1.side_to_move
    &&& forall|q: int, ci: int|
        0 <= q < 6 && 0 <= ci < 2 ==> !#[trigger] has_bit(m1.colors[ci] & m1.pieces[q], sq)
    &&& forall|q: int, ci: int, x: int|
        0 <= q < 6 && 0 <= ci < 2 ==> (#[trigger] has_bit(m2.colors[ci] & m2.pieces[q], x) == (has_bit(
            m1.colors[ci] & m1.pieces[q],
            x,
        ) || (x == sq && q == p && ci == color_index(c))))
}

proof fn lemma_kind_score_adds(m1: PositionModel, m2: PositionModel, p: int, c: Color, sq: int, q: int, c2: Color, n: int)
    requires
        adds_piece(m1, m2, p, c, sq),
        0 <= q < 6,
        0 <= n <= 64,
    ensures
        kind_score(m2, c2, q, n) == kind_score(m1, c2, q, n) + if q == p && c2 == c && sq < n {
            MG_TABLES@[p]@[pst_square(sq, c)] as int
        } else {
            0
        },
    decreases n,
{
    if n > 0 {
        lemma_kind_score_adds(m1, m2, p, c, sq, q, c2, n - 1);
        let ci = color_index(c2);
        assert(has_bit(m2.colors[ci] & m2.pieces[q], n - 1) == (has_bit(m1.colors[ci] & m1.pieces[q], n - 1) || (
        n - 1 == sq && q == p && ci == color_index(c))));
        assert(!has_bit(m1.colors[ci] & m1.pieces[q], sq));
        assert(color_index(c2) == color_index(c) <==> c2 == c);
    }
}

proof fn lemma_color_score_adds(m1: PositionModel, m2: PositionModel, p: int, c: Color, sq: int, c2: Color, k: int)
    requires
        adds_piece(m1, m2, p, c, sq),
        0 <= k <= 6,
    ensures
        color_score(m2, c2, k) == color_score(m1, c2, k) + if c2 == c && p < k {
            MG_TABLES@[p]@[pst_square(sq, c)] as int
        } else {
            0
        },
    decreases k,
{
    if k > 0 {
        lemma_color_score_adds(m1, m2, p, c, sq, c2, k - 1);
        lemma_kind_score_adds(m1, m2, p, c, sq, k - 1, c2, 64);
    }
}

/// Every piece counts: adding a piece of kind `p` and color `c` on an
/// empty square `sq` raises the evaluation by the table value
/// `MG_TABLES[p][pst_square(sq, c)]` when `c` is to move, and lowers it by
/// that value otherwise.
pub proof fn lemma_evaluation_adds_piece_value(m1: PositionModel, m2: PositionModel, p: int, c: Color, sq: int)
    requires
        adds_piece(m1, m2, p, c, sq),
    ensures
        evaluation(m2) == evaluation(m1) + if c == m1.side_to_move {
            MG_TABLES@[p]@[pst_square(sq, c)] as int
        } else {
            -(MG_TABLES@[p]@[pst_square(sq, c)] as int)
        },
{
    lemma_color_score_adds(m1, m2, p, c, sq, Color::White, 6);
    lemma_color_score_adds(m1, m2, p, c, sq, Color::Black, 6);
}

/// The evaluation of every position lies within 791040 of zero.
pub proof fn lemma_evaluation_bounded(m: PositionModel)
    ensures
        -791040 <= evaluation(m) <= 791040,
{
    lemma_color_score_bounded(m, Color::White, 6);
    lemma_color_score_bounded(m, Color::Black, 6);
}

/// Material and piece-square score of a position, from the side to move's
/// point of view.
pub fn evaluate(board: &Position) -> (r: i32)
    ensures
        r == evaluation(board@),
{
    let mut mg_score: i32 = 0;
    let colors = [Color::White, Color::Black];
    let mut ci: usize = 0;
    while ci < 2
        invariant
            ci <= 2,
            colors@ == seq![Color::White, Color::Black],
            mg_score == if ci == 0 {
                0
            } else if ci == 1 {
                color_score(board@, Color::White, 6)
            } else {
                material_balance(board@)
            },
        decreases 2 - ci,
    {
        let color = colors[ci];
        let sign: i32 = if ci == 0 { 1 } else { -1 };
        let ghost base = mg_score as int;
        proof {
            lemma_color_score_bounded(board@, Color::White, 6);
        }
        let mut piece_index: usize = 0;
        while piece_index < 6
            invariant
                ci < 2,
                color == colors@[ci as int],
                colors@ == seq![Color::White, Color::Black],
                sign == if ci == 0 { 1int } else { -1int },
                -395520 <= base <= 395520,
                piece_index <= 6,
                mg_score == base + signed(ci as int, color_score(board@, color, piece_index as int)),
            decreases 6 - piece_index,
        {
            let squares = board.colors(color) & board.pieces(crate::chess::piece_from_index(piece_index));
            let ghost before = mg_score as int;
            proof {
                lemma_color_score_bounded(board@, color, piece_index as int);
            }
            let mut sq: u8 = 0;
            while sq < 64
                invariant
                    ci < 2,
                    color == colors@[ci as int],
                    sign == if ci == 0 { 1int } else { -1int },
                    piece_index < 6,
                    -395520 <= base <= 395520,
                    -65920 * piece_index <= color_score(board@, color, piece_index as int) <= 65920
                        * piece_index,
                    squares == board@.colors[color_index(color)] & board@.pieces[piece_index as int],
                    sq <= 64,
                    before == base + signed(ci as int, color_score(board@, color, piece_index as int)),
                    mg_score == before + signed(ci as int, kind_score(board@, color, piece_index as int, sq as int)),
                decreases 64 - sq,
            {
                proof {
                    lemma_kind_score_bounded(board@, color, piece_index as int, sq as int);
                    lemma_mg_tables_bounded();
                }
                if bit_is_set(squares, sq) {
                    let idx = pst_index(sq, color);
                    let value = MG_TABLES[piece_index][idx];
                    assert(-1030 <= value <= 1030);
                    assert(sign * value == signed(ci as int, value as int)) by (nonlinear_arith)
                        requires
                            sign == if ci == 0 { 1int } else { -1int },
                    ;
                    mg_score = mg_score + sign * value;
                }
                sq = sq + 1;
            }
            piece_index = piece_index + 1;
        }
        ci = ci + 1;
    }
    let mut score = mg_score;
    proof {
        lemma_color_score_bounded(board@, Color::White, 6);
        lemma_color_score_bounded(board@, Color::Black, 6);
    }
    if board.side_to_move() == Color::Black {
        score = -score;
    }
    score
}

/// Ordering bonus of the move that the transposition table remembers.
pub const TT_MOVE_BONUS: i32 = 1_000_000;

/// Ordering bonus of captures.
pub const CAPTURE_BONUS: i32 = 10_000;

/// The spec value of a piece kind.
pub open spec fn piece_value(p: Piece) -> int {
    MG_VALUE@[piece_index(p)] as int
}

/// A pawn moving sideways to an empty square: an en passant capture.
pub open spec fn is_en_passant(m: PositionModel, mv: ChessMove) -> bool {
    &&& piece_at(m, mv.from as int) == Some(Piece::Pawn)
    &&& mv.from % 8 != mv.to % 8
    &&& piece_at(m, mv.to as int) is None
}

/// A move onto an occupied square, or an en passant capture.
pub open spec fn is_capture(m: PositionModel, mv: ChessMove) -> bool {
    piece_at(m, mv.to as int) is Some || is_en_passant(m, mv)
}

/// Most valuable victim, least valuable attacker: ten times the value of
/// the piece on the target square (a pawn when it is empty) less the value
/// of the moving piece.
pub open spec fn mvv_lva(m: PositionModel, mv: ChessMove) -> int {
    let victim = match piece_at(m, mv.to as int) {
        Some(p) => p,
        None => Piece::Pawn,
    };
    piece_value(victim) * 10 - piece_value(piece_at(m, mv.from as int).unwrap())
}

/// The ordering score of a move: the remembered move first, then captures
/// by MVV-LVA, then quiet moves.
pub open spec fn move_order_score(m: PositionModel, mv: ChessMove, tt_move: Option<ChessMove>) -> int {
    if tt_move == Some(mv) {
        TT_MOVE_BONUS as int
    } else if is_capture(m, mv) {
        CAPTURE_BONUS + mvv_lva(m, mv)
    } else {
        0
    }
}

/// MVV-LVA score of a move whose origin holds a piece.
pub fn mvv_lva_score(board: &Position, mv: &ChessMove) -> (r: i32)
    requires
        mv.from < 64,
        mv.to < 64,
        piece_at(board@, mv.from as int) is Some,
    ensures
        r == mvv_lva(board@, *mv),
{
    let attacker = match board.piece_on(mv.from) {
        Some(p) => p,
        None => Piece::Pawn,
    };
    let victim = match board.piece_on(mv.to) {
        Some(p) => p,
        None => Piece::Pawn,
    };
    get_piece_value(victim) * 10 - get_piece_value(attacker)
}

/// Ordering score of a move whose origin holds a piece.
pub fn score_move(board: &Position, mv: &ChessMove, tt_move: &Option<ChessMove>) -> (r: i32)
    requires
        mv.from < 64,
        mv.to < 64,
        piece_at(board@, mv.from as int) is Some,
    ensures
        r == move_order_score(board@, *mv, *tt_move),
{
    let is_tt_move = match tt_move {
        Some(t) => *t == *mv,
        None => false,
    };
    if is_tt_move {
        return TT_MOVE_BONUS;
    }
    let is_en_passant = board.piece_on(mv.from) == Some(Piece::Pawn) && mv.from % 8 != mv.to % 8
        && board.piece_on(mv.to).is_none();
    if board.piece_on(mv.to).is_some() || is_en_passant {
        CAPTURE_BONUS + mvv_lva_score(board, mv)
    } else {
        0
    }
}

/// `x` for the first color, `-x` for the second.
pub open spec fn signed(ci: int, x: int) -> int {
    if ci == 0 {
        x
    } else {
        -x
    }
}

} // verus!
