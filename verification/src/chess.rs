//! The chess vocabulary of the library: colors, pieces, moves and positions.
//!
//! A [`Position`] holds, as plain values, everything the engine reads of a
//! board (bitboards, side to move, hash and checkers), next to the
//! `cozy_chess` board it was read from. Only the trusted functions of this module build positions, so the
//! plain fields always describe the board beside them.

use vstd::prelude::*;

verus! {

/// A side to move.
#[derive(Clone, Copy, PartialEq, Eq, Structural, Debug)]
pub enum Color {
    White,
    Black,
}

/// A chess piece, ordered by approximate material value.
#[derive(Clone, Copy, PartialEq, Eq, Structural, Debug)]
pub enum Piece {
    Pawn,
    Knight,
    Bishop,
    Rook,
    Queen,
    King,
}

/// A move from square `from` to square `to` (squares are numbered
/// `rank * 8 + file`, so a1 is 0 and h8 is 63), with an optional promotion.
/// Castling is written as the king capturing its own rook.
#[derive(Clone, Copy, PartialEq, Eq, Structural, Debug)]
pub struct ChessMove {
    pub from: u8,
    pub to: u8,
    pub promotion: Option<Piece>,
}

/// The index of a color (white 0, black 1).
pub open spec fn color_index(c: Color) -> int {
    match c {
        Color::White => 0,
        Color::Black => 1,
    }
}

/// The index of a piece (pawn 0 up to king 5).
pub open spec fn piece_index(p: Piece) -> int {
    match p {
        Piece::Pawn => 0,
        Piece::Knight => 1,
        Piece::Bishop => 2,
        Piece::Rook => 3,
        Piece::Queen => 4,
        Piece::King => 5,
    }
}

/// The other color.
pub open spec fn opposite(c: Color) -> Color {
    match c {
        Color::White => Color::Black,
        Color::Black => Color::White,
    }
}

/// Whether bit `i` of `bb` is set.
pub open spec fn has_bit(bb: u64, i: int) -> bool {
    0 <= i < 64 && (bb >> (i as u64)) & 1u64 == 1u64
}

/// The index of a color (white 0, black 1).
pub fn color_to_index(c: Color) -> (r: usize)
    ensures
        r == color_index(c),
{
    match c {
        Color::White => 0,
        Color::Black => 1,
    }
}

/// The index of a piece (pawn 0 up to king 5).
pub fn piece_to_index(p: Piece) -> (r: usize)
    ensures
        r == piece_index(p),
{
    match p {
        Piece::Pawn => 0,
        Piece::Knight => 1,
        Piece::Bishop => 2,
        Piece::Rook => 3,
        Piece::Queen => 4,
        Piece::King => 5,
    }
}

/// The other color.
pub fn opposite_color(c: Color) -> (r: Color)
    ensures
        r == opposite(c),
{
    match c {
        Color::White => Color::Black,
        Color::Black => Color::White,
    }
}

/// Whether bit `i` of `bb` is set.
pub fn bit_is_set(bb: u64, i: u8) -> (r: bool)
    requires
        i < 64,
    ensures
        r == has_bit(bb, i as int),
{
    (bb >> i) & 1 == 1
}

/// `cozy_chess::Board`, opaque to the proofs: a position holds one beside
/// its plain contents.
#[verifier::external_type_specification]
#[verifier::external_body]
pub struct ExBoard(cozy_chess::Board);

/// `cozy_chess::Move`, opaque to the proofs: moves are handed to
/// `cozy_chess` in this form.
#[verifier::external_type_specification]
#[verifier::external_body]
pub struct ExMove(cozy_chess::Move);

/// The plain contents of a [`Position`].
pub struct PositionModel {
    /// Occupancy of each piece kind, indexed by [`piece_index`].
    pub pieces: Seq<u64>,
    /// Occupancy of each color, indexed by [`color_index`].
    pub colors: Seq<u64>,
    pub side_to_move: Color,
    /// The rook files each color may still castle with (short, long),
    /// indexed by [`color_index`].
    pub castle_rights: Seq<(Option<u8>, Option<u8>)>,
    /// The file of a pawn that may be taken en passant, if any.
    pub en_passant: Option<u8>,
    /// The plies since the last capture or pawn move.
    pub halfmove_clock: u8,
    /// The number of the full move, starting at one.
    pub fullmove_number: u16,
    /// The incrementally updated Zobrist hash of the position.
    pub hash: u64,
    /// The pieces giving check to the side to move.
    pub checkers: u64,
}

/// A legal chess position.
pub struct Position {
    board: cozy_chess::Board,
    pieces: [u64; 6],
    colors: [u64; 2],
    side_to_move: Color,
    castle_rights: [(Option<u8>, Option<u8>); 2],
    en_passant: Option<u8>,
    halfmove_clock: u8,
    fullmove_number: u16,
    hash: u64,
    checkers: u64,
}

impl View for Position {
    type V = PositionModel;

    closed spec fn view(&self) -> PositionModel {
        PositionModel {
            pieces: self.pieces@,
            colors: self.colors@,
            side_to_move: self.side_to_move,
            castle_rights: self.castle_rights@,
            en_passant: self.en_passant,
            halfmove_clock: self.halfmove_clock,
            fullmove_number: self.fullmove_number,
            hash: self.hash,
            checkers: self.checkers,
        }
    }
}

/// The piece kind with the given index.
pub open spec fn piece_of_index(i: int) -> Piece {
    if i == 0 {
        Piece::Pawn
    } else if i == 1 {
        Piece::Knight
    } else if i == 2 {
        Piece::Bishop
    } else if i == 3 {
        Piece::Rook
    } else if i == 4 {
        Piece::Queen
    } else {
        Piece::King
    }
}

/// The piece kind with the given index.
pub fn piece_from_index(i: usize) -> (r: Piece)
    requires
        i < 6,
    ensures
        r == piece_of_index(i as int),
        piece_index(r) == i,
{
    if i == 0 {
        Piece::Pawn
    } else if i == 1 {
        Piece::Knight
    } else if i == 2 {
        Piece::Bishop
    } else if i == 3 {
        Piece::Rook
    } else if i == 4 {
        Piece::Queen
    } else {
        Piece::King
    }
}

/// The first piece kind (in index order) whose occupancy holds `sq`,
/// looking at kinds `k..6`.
pub open spec fn piece_at_from(m: PositionModel, sq: int, k: int) -> Option<Piece>
    decreases 6 - k,
{
    if k >= 6 || k < 0 {
        None
    } else if has_bit(m.pieces[k], sq) {
        Some(piece_of_index(k))
    } else {
        piece_at_from(m, sq, k + 1)
    }
}

/// The piece kind standing on square `sq`, if any.
pub open spec fn piece_at(m: PositionModel, sq: int) -> Option<Piece> {
    piece_at_from(m, sq, 0)
}

/// The color of the piece standing on square `sq`, if any.
pub open spec fn color_at(m: PositionModel, sq: int) -> Option<Color> {
    if has_bit(m.colors[0], sq) {
        Some(Color::White)
    } else if has_bit(m.colors[1], sq) {
        Some(Color::Black)
    } else {
        None
    }
}

/// The legal moves of a position, in the order in which `cozy_chess`
/// generates them.
pub uninterp spec fn legal_moves_of(pos: PositionModel) -> Seq<ChessMove>;

/// Whether `cozy_chess` judges a move legal in a position.
pub uninterp spec fn move_is_legal(pos: PositionModel, mv: ChessMove) -> bool;

/// The position after playing a legal move.
pub uninterp spec fn position_after(pos: PositionModel, mv: ChessMove) -> PositionModel;

/// The position after passing the turn.
pub uninterp spec fn position_after_null_move(pos: PositionModel) -> PositionModel;

/// The position that a FEN (or Shredder FEN) text describes, if it is valid.
pub uninterp spec fn position_from_fen(fen: Seq<char>) -> Option<PositionModel>;

/// The move that a UCI move text denotes in a position (castling written
/// as the king's two-square step is turned into king-takes-rook), if the
/// text is well formed.
pub uninterp spec fn uci_move_in(pos: PositionModel, text: Seq<char>) -> Option<ChessMove>;

/// The FEN of the start position.
pub open spec fn start_fen() -> Seq<char> {
    "rnbqkbnr/pppppppp/8/8/8/8/PPPPPPPP/RNBQKBNR w KQkq - 0 1"@
}

/// The start position: what its FEN describes.
pub open spec fn start_model() -> PositionModel {
    position_from_fen(start_fen()).unwrap()
}

/// The start position, but for its hash.
pub open spec fn is_start_model(m: PositionModel) -> bool {
    &&& m.pieces =~= seq![
        0x00ff_0000_0000_ff00u64,
        0x4200_0000_0000_0042u64,
        0x2400_0000_0000_0024u64,
        0x8100_0000_0000_0081u64,
        0x0800_0000_0000_0008u64,
        0x1000_0000_0000_0010u64,
    ]
    &&& m.colors =~= seq![0x0000_0000_0000_ffffu64, 0xffff_0000_0000_0000u64]
    &&& m.side_to_move == Color::White
    &&& m.castle_rights =~= seq![(Some(7u8), Some(0u8)), (Some(7u8), Some(0u8))]
    &&& m.en_passant is None
    &&& m.halfmove_clock == 0
    &&& m.fullmove_number == 1
    &&& m.checkers == 0
}

/// Whether a move starts on a square holding a piece of the side to move
/// and names real squares.
pub open spec fn move_on_board(m: PositionModel, mv: ChessMove) -> bool {
    &&& mv.from < 64
    &&& mv.to < 64
    &&& has_bit(m.colors[color_index(m.side_to_move)], mv.from as int)
    &&& piece_at(m, mv.from as int) is Some
}

/// Reads the plain contents of a `cozy_chess` board into a position, by
/// `Board::pieces`, `Board::colors`, `Board::side_to_move`,
/// `Board::castle_rights`, `Board::en_passant`, `Board::halfmove_clock`,
/// `Board::fullmove_number`, `Board::hash` and `Board::checkers`
/// (bitboards as their `u64`, files as their index). Nothing is claimed of
/// the result: that its fields describe the board beside them is what
/// every position of this module rests on.
#[verifier::external_body]
fn position_from_board(board: cozy_chess::Board) -> Position {
    Position {
        pieces: cozy_chess::Piece::ALL.map(|p| board.pieces(p).0),
        colors: cozy_chess::Color::ALL.map(|c| board.colors(c).0),
        side_to_move: if board.side_to_move() == cozy_chess::Color::White { Color::White } else { Color::Black },
        castle_rights: cozy_chess::Color::ALL.map(|c| board.castle_rights(c))
            .map(|r| (r.short.map(|f| f as u8), r.long.map(|f| f as u8))),
        en_passant: board.en_passant().map(|f| f as u8),
        halfmove_clock: board.halfmove_clock(),
        fullmove_number: board.fullmove_number(),
        hash: board.hash(),
        checkers: board.checkers().0,
        board,
    }
}

/// Writes a move of this library as a `cozy_chess` move, its squares and
/// promotion piece by `Square::index` and `Piece::index` (callers keep the
/// squares below 64). Nothing is claimed of the result.
#[verifier::external_body]
fn to_cozy_move(mv: ChessMove) -> cozy_chess::Move
    requires
        mv.from < 64,
        mv.to < 64,
{
    cozy_chess::Move {
        from: cozy_chess::Square::index(mv.from as usize),
        to: cozy_chess::Square::index(mv.to as usize),
        promotion: mv.promotion.map(|p| cozy_chess::Piece::index(piece_to_index(p))),
    }
}

/// Reads a `cozy_chess` move as a move of this library: squares and
/// promotion piece by their indices. Nothing is claimed of the result.
#[verifier::external_body]
fn from_cozy_move(mv: cozy_chess::Move) -> ChessMove {
    ChessMove {
        from: mv.from as u8,
        to: mv.to as u8,
        promotion: mv.promotion.map(|p| piece_from_index(p as usize)),
    }
}

impl Position {
    /// The start position (`cozy_chess::Board::default`): the position
    /// its FEN describes, with the pieces where they start, white to move.
    #[verifier::external_body]
    pub(crate) fn startpos() -> (r: Position)
        ensures
            position_from_fen(start_fen()) == Some(r@),
            is_start_model(r@),
    {
        position_from_board(cozy_chess::Board::default())
    }

    /// Parses a FEN or Shredder FEN (`<cozy_chess::Board as FromStr>::from_str`):
    /// claimed to give the position [`position_from_fen`] names for the text,
    /// and `None` exactly when it names none.
    #[verifier::external_body]
    pub(crate) fn from_fen(fen: &str) -> (r: Option<Position>)
        ensures
            match r {
                Some(p) => position_from_fen(fen@) == Some(p@),
                None => position_from_fen(fen@) is None,
            },
    {
        fen.parse::<cozy_chess::Board>().ok().map(position_from_board)
    }

    /// All legal moves (`cozy_chess::Board::generate_moves`, every group
    /// unpacked in order): claimed to be the moves [`legal_moves_of`] names,
    /// each legal, on real squares and starting on a piece of the side to
    /// move, every legal move once.
    #[verifier::external_body]
    pub(crate) fn legal_moves(&self) -> (r: Vec<ChessMove>)
        ensures
            r@ == legal_moves_of(self@),
            forall|i: int|
                0 <= i < r@.len() ==> move_is_legal(self@, #[trigger] r@[i]) && move_on_board(
                    self@,
                    r@[i],
                ),
            forall|mv: ChessMove|
                mv.from < 64 && mv.to < 64 && #[trigger] move_is_legal(self@, mv) ==> r@.contains(mv),
            r@.no_duplicates(),
    {
        let mut moves = Vec::new();
        self.board.generate_moves(|group| {
            moves.extend(group.into_iter().map(from_cozy_move));
            false
        });
        moves
    }

    /// Whether a move is legal here (`cozy_chess::Board::is_legal`): claimed
    /// to be [`move_is_legal`].
    #[verifier::external_body]
    pub(crate) fn is_legal(&self, mv: ChessMove) -> (r: bool)
        requires
            mv.from < 64,
            mv.to < 64,
        ensures
            r == move_is_legal(self@, mv),
    {
        self.board.is_legal(to_cozy_move(mv))
    }

    /// The position after a legal move (`cozy_chess::Board::play_unchecked`
    /// on a copy of the board): claimed to be [`position_after`].
    #[verifier::external_body]
    pub(crate) fn play(&self, mv: ChessMove) -> (r: Position)
        requires
            move_is_legal(self@, mv),
            mv.from < 64,
            mv.to < 64,
        ensures
            r@ == position_after(self@, mv),
    {
        let mut board = self.board.clone();
        board.play_unchecked(to_cozy_move(mv));
        position_from_board(board)
    }

    /// The position after passing the turn (`cozy_chess::Board::null_move`):
    /// there is one exactly when the side to move is not in check; in it the
    /// other side moves, the pieces are those of this position and no
    /// checkers are recorded.
    #[verifier::external_body]
    pub(crate) fn null_move(&self) -> (r: Option<Position>)
        ensures
            r is Some <==> self@.checkers == 0,
            r matches Some(p) ==> {
                &&& p@ == position_after_null_move(self@)
                &&& p@.side_to_move == opposite(self@.side_to_move)
                &&& p@.pieces == self@.pieces
                &&& p@.colors == self@.colors
                &&& p@.checkers == 0
            },
    {
        self.board.null_move().map(position_from_board)
    }

    /// Parses a UCI move text (`cozy_chess::util::parse_uci_move`): claimed
    /// to give what [`uci_move_in`] names, on real squares.
    #[verifier::external_body]
    pub(crate) fn parse_uci_move(&self, text: &str) -> (r: Option<ChessMove>)
        ensures
            r == uci_move_in(self@, text@),
            r matches Some(mv) ==> mv.from < 64 && mv.to < 64,
    {
        cozy_chess::util::parse_uci_move(&self.board, text).ok().map(from_cozy_move)
    }

    /// The side to move.
    pub fn side_to_move(&self) -> (r: Color)
        ensures
            r == self@.side_to_move,
    {
        self.side_to_move
    }

    /// The Zobrist hash of the position.
    pub fn hash(&self) -> (r: u64)
        ensures
            r == self@.hash,
    {
        self.hash
    }

    /// The pieces giving check to the side to move.
    pub fn checkers(&self) -> (r: u64)
        ensures
            r == self@.checkers,
    {
        self.checkers
    }

    /// Whether the side to move is in check.
    pub fn in_check(&self) -> (r: bool)
        ensures
            r == (self@.checkers != 0),
    {
        self.checkers != 0
    }

    /// The occupancy of a piece kind.
    pub fn pieces(&self, p: Piece) -> (r: u64)
        ensures
            r == self@.pieces[piece_index(p)],
    {
        self.pieces[piece_to_index(p)]
    }

    /// The occupancy of a color.
    pub fn colors(&self, c: Color) -> (r: u64)
        ensures
            r == self@.colors[color_index(c)],
    {
        self.colors[color_to_index(c)]
    }

    /// The pieces of one color and kind.
    pub fn colored_pieces(&self, c: Color, p: Piece) -> (r: u64)
        ensures
            r == self@.colors[color_index(c)] & self@.pieces[piece_index(p)],
    {
        self.colors(c) & self.pieces(p)
    }

    /// The plies since the last capture or pawn move.
    pub fn halfmove_clock(&self) -> (r: u8)
        ensures
            r == self@.halfmove_clock,
    {
        self.halfmove_clock
    }

    /// The number of the full move, starting at one.
    pub fn fullmove_number(&self) -> (r: u16)
        ensures
            r == self@.fullmove_number,
    {
        self.fullmove_number
    }

    /// The file of a pawn that may be taken en passant, if any.
    pub fn en_passant(&self) -> (r: Option<u8>)
        ensures
            r == self@.en_passant,
    {
        self.en_passant
    }

    /// The rook files a color may still castle with (short, long).
    pub fn castle_rights(&self, c: Color) -> (r: (Option<u8>, Option<u8>))
        ensures
            r == self@.castle_rights[color_index(c)],
    {
        self.castle_rights[color_to_index(c)]
    }

    /// The piece kind on a square, if any (the first kind, in index order,
    /// whose occupancy holds the square).
    pub fn piece_on(&self, sq: u8) -> (r: Option<Piece>)
        requires
            sq < 64,
        ensures
            r == piece_at(self@, sq as int),
    {
        let mut k: usize = 0;
        while k < 6
            invariant
                k <= 6,
                sq < 64,
                piece_at(self@, sq as int) == piece_at_from(self@, sq as int, k as int),
            decreases 6 - k,
        {
            if bit_is_set(self.pieces[k], sq) {
                return Some(piece_from_index(k));
            }
            k = k + 1;
        }
        None
    }

    /// The color of the piece on a square, if any.
    pub fn color_on(&self, sq: u8) -> (r: Option<Color>)
        requires
            sq < 64,
        ensures
            r == color_at(self@, sq as int),
    {
        if bit_is_set(self.colors[0], sq) {
            Some(Color::White)
        } else if bit_is_set(self.colors[1], sq) {
            Some(Color::Black)
        } else {
            None
        }
    }
}

/// The number of a rank (`0` for the first) as a digit.
pub open spec fn rank_digit(rank: int) -> char {
    if rank == 0 {
        '1'
    } else if rank == 1 {
        '2'
    } else if rank == 2 {
        '3'
    } else if rank == 3 {
        '4'
    } else if rank == 4 {
        '5'
    } else if rank == 5 {
        '6'
    } else if rank == 6 {
        '7'
    } else {
        '8'
    }
}

/// The letter of a file (`0` for the a-file).
pub open spec fn file_letter(file: int) -> char {
    if file == 0 {
        'a'
    } else if file == 1 {
        'b'
    } else if file == 2 {
        'c'
    } else if file == 3 {
        'd'
    } else if file == 4 {
        'e'
    } else if file == 5 {
        'f'
    } else if file == 6 {
        'g'
    } else {
        'h'
    }
}

/// The digit of a rank.
pub fn rank_digit_char(rank: u8) -> (r: char)
    ensures
        r == rank_digit(rank as int),
{
    if rank == 0 {
        '1'
    } else if rank == 1 {
        '2'
    } else if rank == 2 {
        '3'
    } else if rank == 3 {
        '4'
    } else if rank == 4 {
        '5'
    } else if rank == 5 {
        '6'
    } else if rank == 6 {
        '7'
    } else {
        '8'
    }
}

/// The letter of a file.
pub fn file_letter_char(file: usize) -> (r: char)
    ensures
        r == file_letter(file as int),
{
    if file == 0 {
        'a'
    } else if file == 1 {
        'b'
    } else if file == 2 {
        'c'
    } else if file == 3 {
        'd'
    } else if file == 4 {
        'e'
    } else if file == 5 {
        'f'
    } else if file == 6 {
        'g'
    } else {
        'h'
    }
}

} // verus!
