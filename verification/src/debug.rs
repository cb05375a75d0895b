//! Drawing a board as text: piece letters and chess glyphs, and the
//! picture of a whole board.

use vstd::prelude::*;
use crate::chess::{
    Color, Piece, Position, PositionModel, piece_at, color_at, rank_digit, file_letter, rank_digit_char,
    file_letter_char,
};

verus! {

/// The FEN letter of a piece: upper case for white, lower case for black.
pub open spec fn piece_letter(piece: Piece, color: Color) -> char {
    match (piece, color) {
        (Piece::Pawn, Color::White) => 'P',
        (Piece::Knight, Color::White) => 'N',
        (Piece::Bishop, Color::White) => 'B',
        (Piece::Rook, Color::White) => 'R',
        (Piece::Queen, Color::White) => 'Q',
        (Piece::King, Color::White) => 'K',
        (Piece::Pawn, Color::Black) => 'p',
        (Piece::Knight, Color::Black) => 'n',
        (Piece::Bishop, Color::Black) => 'b',
        (Piece::Rook, Color::Black) => 'r',
        (Piece::Queen, Color::Black) => 'q',
        (Piece::King, Color::Black) => 'k',
    }
}

/// The chess glyph of a piece: the filled glyphs (U+265A to U+265F) for
/// white, the outlined ones (U+2654 to U+2659) for black.
pub open spec fn piece_glyph(piece: Piece, color: Color) -> char {
    match (piece, color) {
        (Piece::Pawn, Color::White) => '\u{265F}',
        (Piece::Knight, Color::White) => '\u{265E}',
        (Piece::Bishop, Color::White) => '\u{265D}',
        (Piece::Rook, Color::White) => '\u{265C}',
        (Piece::Queen, Color::White) => '\u{265B}',
        (Piece::King, Color::White) => '\u{265A}',
        (Piece::Pawn, Color::Black) => '\u{2659}',
        (Piece::Knight, Color::Black) => '\u{2658}',
        (Piece::Bishop, Color::Black) => '\u{2657}',
        (Piece::Rook, Color::Black) => '\u{2656}',
        (Piece::Queen, Color::Black) => '\u{2655}',
        (Piece::King, Color::Black) => '\u{2654}',
    }
}

/// The chess glyph of a piece.
pub fn ascii_repr(piece: Piece, color: Color) -> (r: char)
    ensures
        r == piece_glyph(piece, color),
{
    match color {
        Color::White => match piece {
            Piece::Pawn => '\u{265F}',
            Piece::Knight => '\u{265E}',
            Piece::Bishop => '\u{265D}',
            Piece::Rook => '\u{265C}',
            Piece::Queen => '\u{265B}',
            Piece::King => '\u{265A}',
        },
        Color::Black => match piece {
            Piece::Pawn => '\u{2659}',
            Piece::Knight => '\u{2658}',
            Piece::Bishop => '\u{2657}',
            Piece::Rook => '\u{2656}',
            Piece::Queen => '\u{2655}',
            Piece::King => '\u{2654}',
        },
    }
}

/// The FEN letter of a piece.
pub fn char_repr(piece: Piece, color: Color) -> (r: char)
    ensures
        r == piece_letter(piece, color),
{
    match color {
        Color::White => match piece {
            Piece::Pawn => 'P',
            Piece::Knight => 'N',
            Piece::Bishop => 'B',
            Piece::Rook => 'R',
            Piece::Queen => 'Q',
            Piece::King => 'K',
        },
        Color::Black => match piece {
            Piece::Pawn => 'p',
            Piece::Knight => 'n',
            Piece::Bishop => 'b',
            Piece::Rook => 'r',
            Piece::Queen => 'q',
            Piece::King => 'k',
        },
    }
}

/// The letter of the piece on a square (`None` for an empty square).
pub fn square_letter(board: &Position, square: u8) -> (r: Option<char>)
    requires
        square < 64,
    ensures
        r == match (piece_at(board@, square as int), color_at(board@, square as int)) {
            (Some(p), Some(c)) => Some(piece_letter(p, c)),
            _ => None,
        },
{
    match (board.piece_on(square), board.color_on(square)) {
        (Some(p), Some(c)) => Some(char_repr(p, c)),
        _ => None,
    }
}

/// A ruled line of the picture: `+---` for each file and a closing `+`.
pub open spec fn rule() -> Seq<char> {
    Seq::new(33, |i: int| if i % 4 == 0 { '+' } else { '-' })
}

/// One square as drawn: ` X |` with the letter of its piece, or `   |`.
pub open spec fn square_cell(m: PositionModel, sq: int) -> Seq<char> {
    match (piece_at(m, sq), color_at(m, sq)) {
        (Some(p), Some(c)) => seq![' ', piece_letter(p, c), ' ', '|'],
        _ => seq![' ', ' ', ' ', '|'],
    }
}

/// The first `n` squares of a rank as drawn, from the a-file on.
pub open spec fn rank_cells(m: PositionModel, rank: int, n: int) -> Seq<char>
    decreases n,
{
    if n <= 0 {
        Seq::empty()
    } else {
        rank_cells(m, rank, n - 1) + square_cell(m, rank * 8 + n - 1)
    }
}

/// A ruled line on a line of its own, indented by two spaces.
pub open spec fn rule_line() -> Seq<char> {
    seq!['\n', ' ', ' '] + rule()
}

/// One rank as drawn: a ruled line, then the rank's digit and its squares.
pub open spec fn rank_rows(m: PositionModel, rank: int) -> Seq<char> {
    rule_line() + seq!['\n', rank_digit(rank), ' ', '|'] + rank_cells(m, rank, 8)
}

/// The top `k` ranks as drawn, the eighth first.
pub open spec fn top_ranks(m: PositionModel, k: int) -> Seq<char>
    decreases k,
{
    if k <= 0 {
        Seq::empty()
    } else {
        top_ranks(m, k - 1) + rank_rows(m, 8 - k)
    }
}

/// The file letters under the board, each under its squares.
pub open spec fn footer() -> Seq<char> {
    Seq::new(33, |i: int| if i % 4 == 0 && i >= 4 { file_letter(i / 4 - 1) } else { ' ' }).push('\n')
}

/// The picture of a board: the ranks from the eighth down, each with its
/// digit and `| X |` cells, between ruled lines, and the file letters.
pub open spec fn board_picture_of(m: PositionModel) -> Seq<char> {
    top_ranks(m, 8) + rule_line() + seq!['\n'] + footer()
}

fn push_rule_line(out: &mut Vec<char>)
    ensures
        final(out)@ == old(out)@ + rule_line(),
{
    let ghost before = out@;
    out.push('\n');
    out.push(' ');
    out.push(' ');
    let ghost start = out@;
    assert(start == before + seq!['\n', ' ', ' ']);
    let mut i: usize = 0;
    while i < 33
        invariant
            i <= 33,
            out@ == start + rule().take(i as int),
        decreases 33 - i,
    {
        if i % 4 == 0 {
            out.push('+');
        } else {
            out.push('-');
        }
        assert(rule().take(i + 1) == rule().take(i as int).push(rule()[i as int]));
        i = i + 1;
    }
    assert(rule().take(33) == rule());
    assert(out@ == before + rule_line());
}

fn push_rank(out: &mut Vec<char>, board: &Position, rank: u8)
    requires
        rank < 8,
    ensures
        final(out)@ == old(out)@ + rank_rows(board@, rank as int),
{
    let ghost before = out@;
    push_rule_line(out);
    out.push('\n');
    out.push(rank_digit_char(rank));
    out.push(' ');
    out.push('|');
    let ghost mid = out@;
    assert(mid == before + rule_line() + seq!['\n', rank_digit(rank as int), ' ', '|']);
    let mut file: u8 = 0;
    while file < 8
        invariant
            rank < 8,
            file <= 8,
            out@ == mid + rank_cells(board@, rank as int, file as int),
        decreases 8 - file,
    {
        let ghost prev = out@;
        match square_letter(board, rank * 8 + file) {
            Some(letter) => {
                out.push(' ');
                out.push(letter);
                out.push(' ');
                out.push('|');
            },
            None => {
                out.push(' ');
                out.push(' ');
                out.push(' ');
                out.push('|');
            },
        }
        assert(out@ == prev + square_cell(board@, rank * 8 + file));
        file = file + 1;
    }
}

fn push_footer(out: &mut Vec<char>)
    ensures
        final(out)@ == old(out)@ + footer(),
{
    let ghost before = out@;
    let ghost letters = Seq::new(
        33,
        |i: int| if i % 4 == 0 && i >= 4 { file_letter(i / 4 - 1) } else { ' ' },
    );
    let mut i: usize = 0;
    while i < 33
        invariant
            i <= 33,
            out@ == before + letters.take(i as int),
            letters == Seq::new(
                33,
                |i: int| if i % 4 == 0 && i >= 4 { file_letter(i / 4 - 1) } else { ' ' },
            ),
        decreases 33 - i,
    {
        if i % 4 == 0 && i >= 4 {
            out.push(file_letter_char(i / 4 - 1));
        } else {
            out.push(' ');
        }
        assert(letters.take(i + 1) == letters.take(i as int).push(letters[i as int]));
        i = i + 1;
    }
    out.push('\n');
    assert(letters.take(33) == letters);
    assert(out@ == before + footer());
}

/// The picture of a board as text, as the board printer draws it.
pub fn board_picture(board: &Position) -> (r: Vec<char>)
    ensures
        r@ == board_picture_of(board@),
{
    let mut out: Vec<char> = Vec::new();
    let mut k: u8 = 0;
    while k < 8
        invariant
            k <= 8,
            out@ == top_ranks(board@, k as int),
        decreases 8 - k,
    {
        push_rank(&mut out, board, 7 - k);
        k = k + 1;
    }
    push_rule_line(&mut out);
    out.push('\n');
    push_footer(&mut out);
    out
}

} // verus!
