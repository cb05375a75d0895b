//! The UCI command handling: which command a line is, the position it
//! sets up, and the depth a `go` asks for. Reading lines and printing
//! replies is left to the program around the library.

use vstd::prelude::*;
use vstd::string::*;
use crate::chess::{
    ChessMove, Piece, Position, PositionModel, start_model, move_is_legal, position_after,
    position_from_fen, uci_move_in, file_letter, rank_digit, file_letter_char, rank_digit_char,
};

verus! {

/// The commands the engine understands.
#[derive(Clone, Copy, PartialEq, Eq, Structural, Debug)]
pub enum UciCommand {
    Uci,
    IsReady,
    Position,
    Go,
    Quit,
    Unknown,
}

/// Whether two texts are equal, compared byte by byte in UTF-8.
fn str_eq(a: &str, b: &str) -> (r: bool)
    ensures
        r == (a@ == b@),
{
    let x = a.as_bytes();
    let y = b.as_bytes();
    proof {
        vstd::utf8::encode_utf8_decode_utf8(a@);
        vstd::utf8::encode_utf8_decode_utf8(b@);
    }
    if x.len() != y.len() {
        return false;
    }
    let mut i: usize = 0;
    while i < x.len()
        invariant
            i <= x@.len(),
            x@.len() == y@.len(),
            x@ == a.spec_bytes(),
            y@ == b.spec_bytes(),
            forall|j: int| 0 <= j < i ==> x@[j] == y@[j],
        decreases x.len() - i,
    {
        if x[i] != y[i] {
            return false;
        }
        i = i + 1;
    }
    assert(x@ =~= y@);
    true
}

proof fn lemma_digits_value_prefix(s: Seq<char>, k: int)
    requires
        all_digits(s),
        0 <= k <= s.len(),
    ensures
        0 <= digits_value(s.take(k)) <= digits_value(s),
    decreases s.len(),
{
    if s.len() > 0 {
        let d = s.drop_last();
        assert(all_digits(d)) by {
            assert forall|i: int| 0 <= i < d.len() implies '0' <= #[trigger] d[i] <= '9' by {
                assert(d[i] == s[i]);
            }
        }
        if k == s.len() {
            assert(s.take(k) =~= s);
            lemma_digits_value_prefix(d, d.len() as int);
            assert(d.take(d.len() as int) =~= d);
        } else {
            lemma_digits_value_prefix(d, k);
            assert(d.take(k) =~= s.take(k));
            lemma_digits_value_prefix(d, d.len() as int);
            assert(d.take(d.len() as int) =~= d);
        }
        assert('0' <= s.last() <= '9');
    }
}

/// Parses a decimal integer as `<i32 as FromStr>::from_str` does: an
/// optional sign, then one or more decimal digits, the value in range.
fn parse_i32(text: &str) -> (r: Option<i32>)
    ensures
        r == i32_text_value(text@),
{
    let ghost s = text@;
    let n = text.unicode_len();
    let signed = n > 0 && (text.get_char(0) == '-' || text.get_char(0) == '+');
    let negative = n > 0 && text.get_char(0) == '-';
    let start: usize = if signed {
        1
    } else {
        0
    };
    let ghost body = s.subrange(start as int, n as int);
    assert(body =~= if s.len() > 0 && (s[0] == '-' || s[0] == '+') {
        s.drop_first()
    } else {
        s
    });
    if start == n {
        return None;
    }
    let mut value: i64 = 0;
    let mut i: usize = start;
    while i < n
        invariant
            start <= i <= n,
            n == s.len(),
            s == text@,
            body == s.subrange(start as int, n as int),
            body == if s.len() > 0 && (s[0] == '-' || s[0] == '+') {
                s.drop_first()
            } else {
                s
            },
            body.len() > 0,
            all_digits(body.take(i - start)),
            value == digits_value(body.take(i - start)),
            0 <= value <= 2147483648,
        decreases n - i,
    {
        let c = text.get_char(i);
        assert(body[i - start] == c);
        if c < '0' || c > '9' {
            assert(!all_digits(body));
            return None;
        }
        let ghost prefix = body.take(i - start);
        assert(body.take(i + 1 - start).drop_last() =~= prefix);
        assert(all_digits(body.take(i + 1 - start))) by {
            let t = body.take(i + 1 - start);
            assert forall|j: int| 0 <= j < t.len() implies '0' <= #[trigger] t[j] <= '9' by {
                if j < t.len() - 1 {
                    assert(t[j] == prefix[j]);
                }
            }
        }
        value = value * 10 + (c as u32 - 48) as i64;
        i = i + 1;
        if value > 2147483648 {
            proof {
                if all_digits(body) {
                    lemma_digits_value_prefix(body, i - start);
                }
            }
            return None;
        }
    }
    assert(body.take(n - start) =~= body);
    if negative {
        Some((-value) as i32)
    } else if value > 2147483647 {
        None
    } else {
        Some(value as i32)
    }
}

/// The value of a decimal digit.
pub open spec fn digit_value(c: char) -> int {
    c as int - '0' as int
}

/// Whether every character of `s` is a decimal digit.
pub open spec fn all_digits(s: Seq<char>) -> bool {
    forall|i: int| 0 <= i < s.len() ==> '0' <= #[trigger] s[i] <= '9'
}

/// The number that a string of decimal digits writes.
pub open spec fn digits_value(s: Seq<char>) -> int
    decreases s.len(),
{
    if s.len() == 0 {
        0
    } else {
        digits_value(s.drop_last()) * 10 + digit_value(s.last())
    }
}

/// The `i32` that a text writes: an optional `+` or `-`, then one or more
/// decimal digits, the value in range.
pub open spec fn i32_text_value(s: Seq<char>) -> Option<i32> {
    let negative = s.len() > 0 && s[0] == '-';
    let body = if s.len() > 0 && (s[0] == '-' || s[0] == '+') {
        s.drop_first()
    } else {
        s
    };
    if body.len() == 0 || !all_digits(body) {
        None
    } else {
        let v = if negative {
            -digits_value(body)
        } else {
            digits_value(body)
        };
        if i32::MIN <= v <= i32::MAX {
            Some(v as i32)
        } else {
            None
        }
    }
}

/// The texts of a command line's words.
pub open spec fn words(command: Seq<&str>) -> Seq<Seq<char>> {
    command.map_values(|w: &str| w@)
}

/// The command a non-empty line starts with.
pub open spec fn command_kind_of(first: Seq<char>) -> UciCommand {
    if first == "uci"@ {
        UciCommand::Uci
    } else if first == "isready"@ {
        UciCommand::IsReady
    } else if first == "position"@ {
        UciCommand::Position
    } else if first == "go"@ {
        UciCommand::Go
    } else if first == "quit"@ {
        UciCommand::Quit
    } else {
        UciCommand::Unknown
    }
}

/// The command of a line split into words; `None` for an empty line.
pub fn command_kind(command: &Vec<&str>) -> (r: Option<UciCommand>)
    ensures
        r == if command@.len() == 0 {
            None
        } else {
            Some(command_kind_of(command@[0]@))
        },
{
    if command.len() == 0 {
        return None;
    }
    let first = command[0];
    if str_eq(first, "uci") {
        Some(UciCommand::Uci)
    } else if str_eq(first, "isready") {
        Some(UciCommand::IsReady)
    } else if str_eq(first, "position") {
        Some(UciCommand::Position)
    } else if str_eq(first, "go") {
        Some(UciCommand::Go)
    } else if str_eq(first, "quit") {
        Some(UciCommand::Quit)
    } else {
        Some(UciCommand::Unknown)
    }
}

/// The search depth a `go` command asks for: the number after `depth`,
/// else 3; `None` when the command has no second word, or `depth` is not
/// followed by a number.
pub fn search_depth(command: &Vec<&str>) -> (r: Option<i32>)
    ensures
        r == if command@.len() < 2 {
            None
        } else if command@[1]@ == "depth"@ {
            if command@.len() < 3 {
                None
            } else {
                i32_text_value(command@[2]@)
            }
        } else {
            Some(3i32)
        },
{
    if command.len() < 2 {
        return None;
    }
    if str_eq(command[1], "depth") {
        if command.len() < 3 {
            None
        } else {
            parse_i32(command[2])
        }
    } else {
        Some(3)
    }
}

/// How playing a list of UCI moves ended.
#[derive(Clone, Copy, PartialEq, Eq, Structural, Debug)]
pub enum MovesOutcome {
    /// Every move was played.
    AllPlayed,
    /// A move text was not a move; it and the moves after it were skipped.
    Malformed,
    /// A move was not legal; it and the moves after it were not played.
    Illegal,
}

/// A position set up by a command, and how its moves went.
pub struct SetUp {
    pub position: Position,
    pub outcome: MovesOutcome,
}

/// Plays move texts in turn from `m`: stops at the first text that is not
/// a move, or not a legal one.
pub open spec fn replay(m: PositionModel, texts: Seq<Seq<char>>) -> (PositionModel, MovesOutcome)
    decreases texts.len(),
{
    if texts.len() == 0 {
        (m, MovesOutcome::AllPlayed)
    } else {
        match uci_move_in(m, texts[0]) {
            None => (m, MovesOutcome::Malformed),
            Some(mv) => if move_is_legal(m, mv) {
                replay(position_after(m, mv), texts.drop_first())
            } else {
                (m, MovesOutcome::Illegal)
            },
        }
    }
}

/// Plays the move texts `moves[start..]` from `board`, in turn.
pub fn apply_moves(board: Position, moves: &Vec<&str>, start: usize) -> (r: SetUp)
    requires
        start <= moves@.len(),
    ensures
        (r.position@, r.outcome) == replay(board@, words(moves@).skip(start as int)),
{
    let ghost texts = words(moves@);
    let mut new_board = board;
    let mut i = start;
    while i < moves.len()
        invariant
            start <= i <= moves@.len(),
            texts == words(moves@),
            replay(new_board@, texts.skip(i as int)) == replay(board@, texts.skip(start as int)),
        decreases moves.len() - i,
    {
        assert(texts.skip(i as int)[0] == moves@[i as int]@);
        assert(texts.skip(i as int).drop_first() == texts.skip(i + 1));
        match new_board.parse_uci_move(moves[i]) {
            Some(mv) => {
                if new_board.is_legal(mv) {
                    new_board = new_board.play(mv);
                } else {
                    return SetUp { position: new_board, outcome: MovesOutcome::Illegal };
                }
            },
            None => {
                return SetUp { position: new_board, outcome: MovesOutcome::Malformed };
            },
        }
        i = i + 1;
    }
    assert(texts.skip(i as int).len() == 0);
    SetUp { position: new_board, outcome: MovesOutcome::AllPlayed }
}

/// The index of the first word `moves` at or after `i`, if any.
pub open spec fn first_moves_from(w: Seq<Seq<char>>, i: int) -> Option<int>
    decreases w.len() - i,
{
    if i < 0 || i >= w.len() {
        None
    } else if w[i] == "moves"@ {
        Some(i)
    } else {
        first_moves_from(w, i + 1)
    }
}

/// The index of the first word `moves`, if any.
pub open spec fn moves_index(w: Seq<Seq<char>>) -> Option<int> {
    first_moves_from(w, 0)
}

proof fn lemma_first_moves_from(w: Seq<Seq<char>>, i: int)
    requires
        0 <= i,
    ensures
        first_moves_from(w, i) matches Some(k) ==> i <= k < w.len() && w[k] == "moves"@,
    decreases w.len() - i,
{
    if i < w.len() && w[i] != "moves"@ {
        lemma_first_moves_from(w, i + 1);
    }
}

/// Words joined by single spaces.
pub open spec fn joined(w: Seq<Seq<char>>) -> Seq<char>
    decreases w.len(),
{
    if w.len() == 0 {
        Seq::empty()
    } else if w.len() == 1 {
        w[0]
    } else {
        joined(w.drop_last()) + " "@ + w.last()
    }
}

/// The position a `position` command sets up, and how its moves went:
/// `startpos` or `fen <words up to moves>` (an unreadable FEN gives the
/// start position), then the moves after `moves`; anything else gives the
/// start position.
pub open spec fn position_command(w: Seq<Seq<char>>, start: PositionModel) -> (PositionModel, MovesOutcome) {
    if w.len() < 2 {
        (start, MovesOutcome::AllPlayed)
    } else if w[1] == "startpos"@ {
        if w.len() > 3 && w[2] == "moves"@ {
            replay(start, w.skip(3))
        } else {
            (start, MovesOutcome::AllPlayed)
        }
    } else if w[1] == "fen"@ {
        let fen_end = match moves_index(w) {
            Some(i) => i,
            None => w.len() as int,
        };
        let board = match position_from_fen(joined(w.subrange(2, fen_end))) {
            Some(b) => b,
            None => start,
        };
        match moves_index(w) {
            Some(i) => replay(board, w.skip(i + 1)),
            None => (board, MovesOutcome::AllPlayed),
        }
    } else {
        (start, MovesOutcome::AllPlayed)
    }
}

/// The index of the first word `moves`, if any.
fn find_moves(command: &Vec<&str>) -> (r: Option<usize>)
    ensures
        r == match moves_index(words(command@)) {
            Some(i) => Some(i as usize),
            None => None::<usize>,
        },
        r matches Some(i) ==> i < command@.len() && words(command@)[i as int] == "moves"@,
{
    let ghost w = words(command@);
    let mut i: usize = 0;
    while i < command.len()
        invariant
            i <= command@.len(),
            w == words(command@),
            moves_index(w) == first_moves_from(w, i as int),
        decreases command.len() - i,
    {
        assert(w[i as int] == command@[i as int]@);
        if str_eq(command[i], "moves") {
            return Some(i);
        }
        i = i + 1;
    }
    None
}

/// `words[from..to]` joined by single spaces.
fn join_words(command: &Vec<&str>, from: usize, to: usize) -> (r: String)
    requires
        from <= to <= command@.len(),
    ensures
        r@ == joined(words(command@).subrange(from as int, to as int)),
{
    let ghost w = words(command@);
    let mut text = String::new();
    let mut i = from;
    while i < to
        invariant
            from <= i <= to <= command@.len(),
            w == words(command@),
            text@ == joined(w.subrange(from as int, i as int)),
        decreases to - i,
    {
        assert(w.subrange(from as int, i + 1).drop_last() == w.subrange(from as int, i as int));
        if i > from {
            text.append(" ");
        }
        text.append(command[i]);
        i = i + 1;
    }
    text
}

/// Sets up the position a `position` command describes.
pub fn position(command: &Vec<&str>) -> (r: SetUp)
    requires
        command@.len() >= 2 && command@[1]@ == "fen"@ ==> command@[0]@ != "moves"@,
    ensures
        (r.position@, r.outcome) == position_command(words(command@), start_model()),
{
    let board = Position::startpos();
    let ghost start = board@;
    let ghost w = words(command@);
    let r = if command.len() < 2 {
        SetUp { position: board, outcome: MovesOutcome::AllPlayed }
    } else if str_eq(command[1], "startpos") {
        assert(w[1] == command@[1]@);
        if command.len() > 3 && str_eq(command[2], "moves") {
            assert(w[2] == command@[2]@);
            let res = apply_moves(board, command, 3);
            assert((res.position@, res.outcome) == position_command(w, start));
            res
        } else {
            assert(command@.len() > 3 ==> w[2] == command@[2]@);
            SetUp { position: board, outcome: MovesOutcome::AllPlayed }
        }
    } else if str_eq(command[1], "fen") {
        assert(w[1] == command@[1]@);
        let moves_idx = find_moves(command);
        proof {
            lemma_first_moves_from(w, 0);
        }
        let fen_end = match moves_idx {
            Some(i) => i,
            None => command.len(),
        };
        assert(fen_end >= 2) by {
            reveal_strlit("fen");
            reveal_strlit("moves");
            assert("fen"@.len() == 3 && "moves"@.len() == 5);
            if moves_idx is Some {
                assert(w[0] == command@[0]@);
                assert(w[1] == "fen"@);
                assert(w[1] != "moves"@);
            }
        }
        let fen_str = join_words(command, 2, fen_end);
        let ghost fen_model = position_from_fen(joined(w.subrange(2, fen_end as int)));
        let fen_board = match Position::from_fen(fen_str.as_str()) {
            Some(b) => b,
            None => board,
        };
        assert(fen_board@ == match fen_model {
            Some(b) => b,
            None => start,
        });
        match moves_idx {
            Some(idx) => {
                let res = apply_moves(fen_board, command, idx + 1);
                assert((res.position@, res.outcome) == position_command(w, start));
                res
            },
            None => {
                let res = SetUp { position: fen_board, outcome: MovesOutcome::AllPlayed };
                assert((res.position@, res.outcome) == position_command(w, start));
                res
            },
        }
    } else {
        assert(w[1] == command@[1]@);
        SetUp { position: board, outcome: MovesOutcome::AllPlayed }
    };
    assert((r.position@, r.outcome) == position_command(w, start));
    r
}

/// The letter of a promotion piece, in lower case.
pub open spec fn promotion_letter(p: Piece) -> char {
    match p {
        Piece::Pawn => 'p',
        Piece::Knight => 'n',
        Piece::Bishop => 'b',
        Piece::Rook => 'r',
        Piece::Queen => 'q',
        Piece::King => 'k',
    }
}

/// The UCI text of a move: its two squares by file letter and rank digit,
/// then the letter of the promotion piece, if any.
pub open spec fn move_text_of(mv: ChessMove) -> Seq<char> {
    let squares = seq![
        file_letter(mv.from as int % 8),
        rank_digit(mv.from as int / 8),
        file_letter(mv.to as int % 8),
        rank_digit(mv.to as int / 8),
    ];
    match mv.promotion {
        Some(p) => squares.push(promotion_letter(p)),
        None => squares,
    }
}

fn promotion_char(p: Piece) -> (r: char)
    ensures
        r == promotion_letter(p),
{
    match p {
        Piece::Pawn => 'p',
        Piece::Knight => 'n',
        Piece::Bishop => 'b',
        Piece::Rook => 'r',
        Piece::Queen => 'q',
        Piece::King => 'k',
    }
}

/// The UCI text of a move, as `bestmove` and `pv` report it.
pub fn move_text(mv: ChessMove) -> (r: Vec<char>)
    requires
        mv.from < 64,
        mv.to < 64,
    ensures
        r@ == move_text_of(mv),
{
    let mut text: Vec<char> = Vec::new();
    text.push(file_letter_char((mv.from % 8) as usize));
    text.push(rank_digit_char(mv.from / 8));
    text.push(file_letter_char((mv.to % 8) as usize));
    text.push(rank_digit_char(mv.to / 8));
    match mv.promotion {
        Some(p) => text.push(promotion_char(p)),
        None => {},
    }
    text
}

} // verus!
