use quicksand::chess::{ChessMove, Color, Piece, Position};
use quicksand::core_engine::engine::Engine as MaterialEngine;
use quicksand::core_engine::evaluation::{evaluate as material_evaluate, get_piece_value as material_value};
use quicksand::debug::{ascii_repr, board_picture, char_repr, square_letter};
use quicksand::engine::bot::get_best_move as bot_move;
use quicksand::engine::engine::Engine as SearchEngine;
use quicksand::engine::evaluation::evaluate;
use quicksand::engine::move_list::MoveList;
use quicksand::engine::utils::{get_legal_moves, SearchCTX};
use quicksand::uci::{command_kind, move_text, position, search_depth, UciCommand};

fn at(text: &str) -> Position {
    let mut words = vec!["position", "fen"];
    words.extend(text.split_whitespace());
    position(&words).position
}

fn after(text: &str, uci_move: &str) -> Position {
    let mut words = vec!["position", "fen"];
    words.extend(text.split_whitespace());
    words.push("moves");
    words.push(uci_move);
    position(&words).position
}

fn mv(from: u8, to: u8) -> ChessMove {
    ChessMove { from, to, promotion: None }
}

#[test]
fn start_position_picture() {
    let start = position(&vec!["position", "startpos"]).position;
    let rows = ["rnbqkbnr", "pppppppp", "        ", "        ", "        ", "        ", "PPPPPPPP", "RNBQKBNR"];
    let mut expected = String::new();
    for (i, row) in rows.iter().enumerate() {
        expected.push_str("\n  +---+---+---+---+---+---+---+---+\n");
        expected.push_str(&format!("{} |", 8 - i));
        for c in row.chars() {
            if c == ' ' {
                expected.push_str("   |");
            } else {
                expected.push_str(&format!(" {} |", c));
            }
        }
    }
    expected.push_str("\n  +---+---+---+---+---+---+---+---+\n    a   b   c   d   e   f   g   h\n");
    let picture: String = board_picture(&start).into_iter().collect();
    assert_eq!(picture, expected);
}

#[test]
fn piece_letters_and_glyphs() {
    assert_eq!(char_repr(Piece::Knight, Color::White), 'N');
    assert_eq!(char_repr(Piece::Queen, Color::Black), 'q');
    assert_eq!(ascii_repr(Piece::Pawn, Color::White), '\u{265F}');
    assert_eq!(ascii_repr(Piece::King, Color::Black), '\u{2654}');
    let start = position(&vec!["position", "startpos"]).position;
    assert_eq!(square_letter(&start, 3), Some('Q'));
    assert_eq!(square_letter(&start, 62), Some('n'));
    assert_eq!(square_letter(&start, 27), None);
}

#[test]
fn material_balance() {
    let start = position(&vec!["position", "startpos"]).position;
    assert_eq!(material_evaluate(&start), 0);
    assert_eq!(material_evaluate(&at("4k3/8/8/8/8/8/8/3QK3 w - - 0 1")), 900);
    assert_eq!(material_evaluate(&at("4k3/8/8/8/8/8/8/3QK3 b - - 0 1")), -900);
    assert_eq!(material_evaluate(&at("4k3/pp6/8/8/8/8/8/2N1K3 w - - 0 1")), 120);
    assert_eq!(material_value(Piece::Rook), 500);
}

#[test]
fn material_move_scores() {
    let pos = at("4k3/8/8/3p4/4P3/8/8/3QK3 w - - 0 1");
    let engine = MaterialEngine::new();
    // pawn takes pawn: capture bonus + 10 * 100 - 100
    assert_eq!(engine.score_move(&pos, mv(28, 35)), 10_900);
    // queen takes pawn: capture bonus + 10 * 100 - 900
    assert_eq!(engine.score_move(&pos, mv(3, 35)), 10_100);
    assert_eq!(engine.score_move(&pos, mv(28, 36)), 0);
    // an empty target counts as a pawn
    assert_eq!(engine.mvv_lva_score(&pos, mv(28, 36)), 900);
    let captures = engine.get_legal_captures(&pos);
    assert_eq!(captures.count(), 2);
    assert_eq!(captures.index(0), Some(mv(28, 35)));
    assert_eq!(captures.index(1), Some(mv(3, 35)));
    assert_eq!(engine.get_legal_moves(&pos).count(), get_legal_moves(&pos).count());
}

#[test]
fn material_en_passant_is_a_capture() {
    // black just played d7d5; the e5 pawn may take en passant on d6
    let pos = at("4k3/8/8/3pP3/8/8/8/4K3 w - d6 0 2");
    let engine = MaterialEngine::new();
    assert_eq!(engine.score_move(&pos, mv(36, 43)), 10_900);
}

#[test]
fn material_engine_mates_in_one() {
    let pos = at("6k1/5ppp/8/8/8/8/8/R5K1 w - - 0 1");
    let mut engine = MaterialEngine::new();
    assert_eq!(engine.get_best_move(&pos), Some(mv(0, 56)));
    assert!(engine.nodes_searched > 0);
}

#[test]
fn material_engine_mate_and_stalemate_scores() {
    let mut engine = MaterialEngine::new();
    let mated = at("R5k1/5ppp/8/8/8/8/8/6K1 b - - 1 1");
    assert_eq!(engine.alpha_beta(&mated, 2, -100_000, 100_000), -90_002);
    let stalemated = at("7k/5Q2/6K1/8/8/8/8/8 b - - 0 1");
    assert_eq!(engine.alpha_beta(&stalemated, 1, -100_000, 100_000), 0);
}

#[test]
fn material_quiescence_fails_hard() {
    let mut engine = MaterialEngine::new();
    let up_a_queen = at("4k3/8/8/8/8/8/8/3QK3 w - - 0 1");
    assert_eq!(engine.quiescence_search(&up_a_queen, -100_000, 100, 0), 100);
    assert_eq!(engine.quiescence_search(&up_a_queen, -100_000, 100_000, 0), 900);
    let before = engine.nodes_searched;
    assert_eq!(engine.quiescence_search(&up_a_queen, -100_000, 100, 3), 900);
    assert_eq!(engine.nodes_searched, before + 1);
    assert_eq!(engine.alpha_beta(&up_a_queen, 0, -100_000, 100_000), 900);
}

#[test]
fn bot_takes_the_reply_of_highest_score() {
    let text = "7k/8/8/8/8/8/8/K7 w - - 0 1";
    let pos = at(text);
    let picked = bot_move(&pos);
    let candidates = [("a1a2", mv(0, 8)), ("a1b1", mv(0, 1)), ("a1b2", mv(0, 9))];
    let best = candidates.iter().map(|(t, _)| evaluate(&after(text, t))).max().unwrap();
    let (text_of_pick, _) = candidates.iter().find(|(_, m)| *m == picked).unwrap();
    assert_eq!(evaluate(&after(text, text_of_pick)), best);
    assert_eq!(get_legal_moves(&pos).count(), 3);
}

#[test]
fn search_and_best_move_agree() {
    let pos = at("r1bqkbnr/pppp1ppp/2n5/4p3/4P3/5N2/PPPP1PPP/RNBQKB1R w KQkq - 2 3");
    let mut first = SearchEngine::new();
    let report = first.search(&pos, 3);
    let mut second = SearchEngine::new();
    assert_eq!(second.get_best_move(&pos, 3), report.best_move);
    assert_eq!(report.infos.len(), 3);
    assert_eq!(report.infos[2].best_move, report.best_move);
}

#[test]
fn moves_in_uci_notation() {
    use_text(mv(12, 28), "e2e4");
    use_text(ChessMove { from: 52, to: 60, promotion: Some(Piece::Queen) }, "e7e8q");
    use_text(ChessMove { from: 9, to: 0, promotion: Some(Piece::Knight) }, "b2a1n");
    use_text(mv(63, 0), "h8a1");
}

fn use_text(m: ChessMove, expected: &str) {
    let text: String = move_text(m).into_iter().collect();
    assert_eq!(text, expected);
    let cozy = cozy_chess::Move {
        from: cozy_chess::Square::index(m.from as usize),
        to: cozy_chess::Square::index(m.to as usize),
        promotion: m.promotion.map(|p| match p {
            Piece::Pawn => cozy_chess::Piece::Pawn,
            Piece::Knight => cozy_chess::Piece::Knight,
            Piece::Bishop => cozy_chess::Piece::Bishop,
            Piece::Rook => cozy_chess::Piece::Rook,
            Piece::Queen => cozy_chess::Piece::Queen,
            Piece::King => cozy_chess::Piece::King,
        }),
    };
    assert_eq!(format!("{}", cozy), expected);
}

#[test]
fn start_position_is_its_fen() {
    let start = position(&vec!["position", "startpos"]).position;
    let from_fen = at("rnbqkbnr/pppppppp/8/8/8/8/PPPPPPPP/RNBQKBNR w KQkq - 0 1");
    assert_eq!(start.hash(), from_fen.hash());
    assert_eq!(start.checkers(), 0);
    assert_eq!(start.colors(Color::White), from_fen.colors(Color::White));
}

#[test]
fn position_keeps_counters_and_rights() {
    let set = position(&vec!["position", "startpos", "moves", "e2e4", "e7e5", "g1f3"]);
    let pos = set.position;
    assert_eq!(pos.fullmove_number(), 2);
    assert_eq!(pos.halfmove_clock(), 1);
    assert_eq!(pos.en_passant(), None);
    assert_eq!(pos.castle_rights(Color::White), (Some(7), Some(0)));
    let after_two = position(&vec!["position", "startpos", "moves", "e2e4", "e7e5"]).position;
    assert_eq!(after_two.fullmove_number(), 2);
    assert_eq!(after_two.halfmove_clock(), 0);
    assert_eq!(after_two.en_passant(), Some(4));
    let no_rights = at("4k3/8/8/8/8/8/8/4K2R w K - 3 40");
    assert_eq!(no_rights.castle_rights(Color::White), (Some(7), None));
    assert_eq!(no_rights.castle_rights(Color::Black), (None, None));
    assert_eq!(no_rights.halfmove_clock(), 3);
    assert_eq!(no_rights.fullmove_number(), 40);
}

#[test]
fn legal_moves_are_listed_once() {
    let start = position(&vec!["position", "startpos"]).position;
    let moves = get_legal_moves(&start);
    assert_eq!(moves.count(), 20);
    for i in 0..moves.count() {
        for j in 0..i {
            assert_ne!(moves.index(i), moves.index(j));
        }
    }
}

#[test]
fn quiescence_fails_soft_around_its_value() {
    use_window_checks("4k3/8/8/3p4/4P3/8/8/3QK3 w - - 0 1");
    use_window_checks("r3k3/8/8/3q4/4P3/2N5/8/3QK3 w - - 0 1");
}

fn use_window_checks(text: &str) {
    let pos = at(text);
    let q = |alpha: i32, beta: i32| {
        let mut engine = SearchEngine::new();
        engine.quiescence_search(&pos, SearchCTX { depth: 0, ply: 0, alpha, beta })
    };
    let value = q(-i32::MAX, i32::MAX);
    assert_eq!(q(value - 1, value + 1), value);
    let high = q(value + 10, value + 20);
    assert!(high <= value + 10 && value <= high);
    let low = q(value - 20, value - 10);
    assert!(low >= value - 10 && value >= low);
}

#[test]
fn mirrored_positions_evaluate_alike() {
    let a = at("r3k2r/ppp2ppp/2n5/3q4/4P3/2N5/PPP2PPP/R3K2R w KQkq - 0 1");
    let b = at("r3k2r/ppp2ppp/2n5/4p3/3Q4/2N5/PPP2PPP/R3K2R b KQkq - 0 1");
    assert_eq!(evaluate(&a), evaluate(&b));
}

#[test]
fn pushed_moves_come_back_in_order() {
    let mut list = MoveList::new();
    assert_eq!(list.count(), 0);
    assert_eq!(list.index(0), None);
    let pushed = [mv(12, 28), mv(6, 21), mv(1, 18)];
    for (k, m) in pushed.iter().enumerate() {
        list.push(*m);
        assert_eq!(list.count(), k + 1);
    }
    for i in 0..3 {
        assert_eq!(list.index(i), Some(pushed[i]));
    }
    assert_eq!(list.index(3), None);
    assert_eq!(list.index(100), None);
    let mut it = list.into_iter();
    for i in 0..3 {
        assert_eq!(it.next(), Some(pushed[i]));
    }
    for _ in 0..5 {
        assert_eq!(it.next(), None);
    }
}

#[test]
fn alpha_beta_fails_soft_around_its_value() {
    for depth in 1..3 {
        let text = "r3k3/8/8/3q4/4P3/2N5/8/3QK3 w - - 0 1";
        let pos = at(text);
        let search = |alpha: i32, beta: i32| {
            let mut engine = SearchEngine::new();
            engine.alpha_beta(&pos, SearchCTX { depth, ply: 0, alpha, beta })
        };
        let value = search(-i32::MAX, i32::MAX);
        assert_eq!(search(value - 1, value + 1), value);
        let high = search(value + 10, value + 20);
        assert!(high <= value + 10 && value <= high);
        let low = search(value - 20, value - 10);
        assert!(low >= value - 10 && value >= low);
    }
}

#[test]
fn depth_texts_parse_as_i32() {
    use_depth("-2147483648", Some(i32::MIN));
    use_depth("2147483647", Some(i32::MAX));
    use_depth("2147483648", None);
    use_depth("99999999999999", None);
    use_depth("007", Some(7));
    use_depth("-0", Some(0));
    use_depth("+", None);
    use_depth("-", None);
    use_depth("", None);
    use_depth("1 2", None);
    use_depth("\u{663}", None);
    use_depth("é5", None);
}

fn use_depth(text: &str, expected: Option<i32>) {
    assert_eq!(search_depth(&vec!["go", "depth", text]), expected);
    assert_eq!(text.parse::<i32>().ok(), expected);
}

#[test]
fn command_words_compare_exactly() {
    assert_eq!(command_kind(&vec!["go"]), Some(UciCommand::Go));
    assert_eq!(command_kind(&vec!["goo"]), Some(UciCommand::Unknown));
    assert_eq!(command_kind(&vec!["Go"]), Some(UciCommand::Unknown));
    assert_eq!(command_kind(&vec!["qu\u{ef}t"]), Some(UciCommand::Unknown));
}
