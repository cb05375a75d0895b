use quicksand::chess::{ChessMove, Color, Piece, Position};
use quicksand::engine::engine::{Engine, MAX_PLY};
use quicksand::engine::evaluation::{evaluate, get_piece_value, merge_scores, pst_index, score_move, INFINITY, MATE_SCORE, MG_PAWN_TABLE, MG_TABLES, MG_VALUE};
use quicksand::engine::move_list::MoveList;
use quicksand::engine::transposition_table::{Bound, TTEntry, TranspositionTable, SLOT_BYTES};
use quicksand::engine::utils::{get_legal_captures, get_legal_moves, SearchCTX};
use quicksand::uci::{command_kind, position, search_depth, MovesOutcome, UciCommand};

fn fen(text: &str) -> Position {
    let mut words = vec!["position", "fen"];
    words.extend(text.split_whitespace());
    position(&words).position
}

fn startpos() -> Position {
    position(&vec!["position", "startpos"]).position
}

fn mv(from: u8, to: u8) -> ChessMove {
    ChessMove { from, to, promotion: None }
}

#[test]
fn start_position_contents() {
    let pos = startpos();
    assert_eq!(pos.side_to_move(), Color::White);
    assert_eq!(pos.pieces(Piece::Pawn), 0x00ff_0000_0000_ff00);
    assert_eq!(pos.colors(Color::Black), 0xffff_0000_0000_0000);
    assert_eq!(pos.piece_on(4), Some(Piece::King));
    assert_eq!(pos.color_on(60), Some(Color::Black));
    assert_eq!(pos.piece_on(30), None);
    assert!(!pos.in_check());
    assert_eq!(get_legal_moves(&pos).count(), 20);
    assert_eq!(get_legal_captures(&pos).count(), 0);
}

#[test]
fn start_position_evaluates_to_zero() {
    assert_eq!(evaluate(&startpos()), 0);
}

#[test]
fn evaluation_is_from_side_to_move() {
    let white = fen("4k3/8/8/8/8/8/8/3QK3 w - - 0 1");
    let black = fen("4k3/8/8/8/8/8/8/3QK3 b - - 0 1");
    let w = evaluate(&white);
    assert!(w > 0);
    assert_eq!(evaluate(&black), -w);
    // white reads the tables rank-flipped: queen d1 -> 59, king e1 -> 60;
    // black reads them as they are: king e8 -> 60
    let expected = MG_TABLES[4][59] + MG_TABLES[5][60] - MG_TABLES[5][60];
    assert_eq!(expected, 1020);
    assert_eq!(w, expected);
}

#[test]
fn merged_tables_add_material() {
    let merged = merge_scores(MG_VALUE[0], MG_PAWN_TABLE);
    assert_eq!(merged, MG_TABLES[0]);
    assert_eq!(merged[8], 82 + 50);
    assert_eq!(get_piece_value(Piece::Queen), 1025);
}

#[test]
fn table_index_flips_rank_for_white() {
    assert_eq!(pst_index(0, Color::White), 56);
    assert_eq!(pst_index(63, Color::White), 7);
    assert_eq!(pst_index(12, Color::Black), 12);
}

#[test]
fn slot_size_matches_layout() {
    assert_eq!(std::mem::size_of::<Option<TTEntry>>(), SLOT_BYTES);
}

fn entry(key: u64, depth: u8, score: i32, age: u8) -> TTEntry {
    TTEntry { key, depth, score, bound: Bound::Exact, best_move: Some(mv(12, 28)), age }
}

#[test]
fn table_store_then_probe() {
    let mut tt = TranspositionTable::new(1);
    // 1 MiB / 24 bytes = 43690 slots, rounded up to 65536 and halved
    assert_eq!(tt.index(32768 + 5), 5);
    assert_eq!(tt.probe(77), None);
    let e = entry(77, 3, 120, 1);
    tt.store(&e);
    assert_eq!(tt.probe(77), Some(e));
    // another hash of the same slot is not mistaken for it
    assert_eq!(tt.probe(77 + 32768), None);
}

#[test]
fn table_keeps_deeper_entry_of_same_age() {
    let mut tt = TranspositionTable::new(1);
    let deep = entry(9, 6, 10, 2);
    tt.store(&deep);
    tt.store(&entry(9 + 32768, 2, 99, 2));
    assert_eq!(tt.probe(9), Some(deep));
    // an entry of a newer search replaces it
    let newer = entry(9 + 32768, 1, 5, 3);
    tt.store(&newer);
    assert_eq!(tt.probe(9 + 32768), Some(newer));
    assert_eq!(tt.probe(9), None);
}

#[test]
fn sort_is_stable_and_descending() {
    let mut list = MoveList::new();
    list.push(mv(1, 2));
    list.push(mv(3, 4));
    list.push(mv(5, 6));
    list.push(mv(7, 8));
    list.sort_by_key(|m: ChessMove| if m.from == 5 { 10 } else if m.from == 1 { -1 } else { 0 });
    assert_eq!(list.index(0), Some(mv(5, 6)));
    assert_eq!(list.index(1), Some(mv(3, 4)));
    assert_eq!(list.index(2), Some(mv(7, 8)));
    assert_eq!(list.index(3), Some(mv(1, 2)));
    assert_eq!(list.index(4), None);
    let mut it = list.into_iter();
    assert_eq!(it.next(), Some(mv(5, 6)));
}

#[test]
fn captures_are_ordered_first() {
    // white pawn e4 can take d5 (a pawn), white queen d1 can take d5 too
    let pos = fen("4k3/8/8/3p4/4P3/8/8/3QK3 w - - 0 1");
    let capture = mv(28, 35);
    let quiet = mv(28, 36);
    assert!(score_move(&pos, &capture, &None) > score_move(&pos, &quiet, &None));
    assert_eq!(score_move(&pos, &quiet, &None), 0);
    assert_eq!(score_move(&pos, &quiet, &Some(quiet)), 1_000_000);
    // pawn takes pawn: 10 * 82 - 82
    assert_eq!(score_move(&pos, &capture, &None), 10_000 + 738);
    assert_eq!(get_legal_captures(&pos).count(), 2);
}

#[test]
fn finds_mate_in_one() {
    let pos = fen("6k1/5ppp/8/8/8/8/8/R5K1 w - - 0 1");
    let mut engine = Engine::new();
    assert_eq!(engine.get_best_move(&pos, 3), Some(mv(0, 56)));
}

#[test]
fn search_reports_each_depth() {
    let pos = startpos();
    let mut engine = Engine::new();
    let report = engine.search(&pos, 2);
    assert_eq!(report.infos.len(), 2);
    assert_eq!(report.infos[0].depth, 1);
    assert_eq!(report.infos[1].depth, 2);
    assert!(report.best_move.is_some());
    assert!(report.infos[1].nodes > 0);
}

#[test]
fn depth_below_one_finds_nothing() {
    let mut engine = Engine::new();
    assert_eq!(engine.get_best_move(&startpos(), 0), None);
}

#[test]
fn checkmated_root_scores_mate() {
    let pos = fen("R5k1/5ppp/8/8/8/8/8/6K1 b - - 1 1");
    assert!(pos.in_check());
    assert_eq!(get_legal_moves(&pos).count(), 0);
    let mut engine = Engine::new();
    let score = engine.alpha_beta(&pos, SearchCTX { depth: 2, ply: 0, alpha: -INFINITY, beta: INFINITY });
    assert_eq!(score, -MATE_SCORE);
    let report = engine.search(&pos, 3);
    assert_eq!(report.best_move, None);
    assert_eq!(report.infos[0].best_move, None);
}

#[test]
fn stalemated_root_scores_zero() {
    let pos = fen("7k/5Q2/6K1/8/8/8/8/8 b - - 0 1");
    assert!(!pos.in_check());
    assert_eq!(get_legal_moves(&pos).count(), 0);
    let mut engine = Engine::new();
    let score = engine.alpha_beta(&pos, SearchCTX { depth: 1, ply: 0, alpha: -INFINITY, beta: INFINITY });
    assert_eq!(score, 0);
}

#[test]
fn quiescence_past_max_ply_is_static() {
    let pos = fen("4k3/8/8/3p4/4P3/8/8/3QK3 w - - 0 1");
    let mut engine = Engine::new();
    let ply = (MAX_PLY + 1) as usize;
    let score = engine.quiescence_search(&pos, SearchCTX { depth: 0, ply, alpha: -INFINITY, beta: INFINITY });
    assert_eq!(score, evaluate(&pos));
}

#[test]
fn mate_scores_are_made_node_relative() {
    let engine = Engine::new();
    assert_eq!(engine.score_to_tt(MATE_SCORE - 3, 2), MATE_SCORE - 1);
    assert_eq!(engine.score_from_tt(MATE_SCORE - 1, 2), MATE_SCORE - 3);
    assert_eq!(engine.score_to_tt(-MATE_SCORE + 3, 2), -MATE_SCORE + 1);
    assert_eq!(engine.score_to_tt(150, 4), 150);
    assert_eq!(engine.score_from_tt(engine.score_to_tt(-MATE_SCORE + 5, 3), 3), -MATE_SCORE + 5);
}

#[test]
fn command_kinds() {
    assert_eq!(command_kind(&vec![]), None);
    assert_eq!(command_kind(&vec!["uci"]), Some(UciCommand::Uci));
    assert_eq!(command_kind(&vec!["isready"]), Some(UciCommand::IsReady));
    assert_eq!(command_kind(&vec!["position", "startpos"]), Some(UciCommand::Position));
    assert_eq!(command_kind(&vec!["go"]), Some(UciCommand::Go));
    assert_eq!(command_kind(&vec!["quit"]), Some(UciCommand::Quit));
    assert_eq!(command_kind(&vec!["ucinewgame"]), Some(UciCommand::Unknown));
}

#[test]
fn go_depths() {
    assert_eq!(search_depth(&vec!["go", "depth", "5"]), Some(5));
    assert_eq!(search_depth(&vec!["go", "depth", "+7"]), Some(7));
    assert_eq!(search_depth(&vec!["go", "depth", "x"]), None);
    assert_eq!(search_depth(&vec!["go", "depth"]), None);
    assert_eq!(search_depth(&vec!["go", "infinite"]), Some(3));
    assert_eq!(search_depth(&vec!["go"]), None);
}

#[test]
fn position_with_moves() {
    let set = position(&vec!["position", "startpos", "moves", "e2e4", "e7e5"]);
    assert_eq!(set.outcome, MovesOutcome::AllPlayed);
    assert_eq!(set.position.side_to_move(), Color::White);
    assert_eq!(set.position.piece_on(28), Some(Piece::Pawn));
    assert_eq!(set.position.piece_on(36), Some(Piece::Pawn));
    let expected = fen("rnbqkbnr/pppp1ppp/8/4p3/4P3/8/PPPP1PPP/RNBQKBNR w KQkq e6 0 2");
    assert_eq!(set.position.hash(), expected.hash());
}

#[test]
fn position_with_bad_moves() {
    let malformed = position(&vec!["position", "startpos", "moves", "e2e4", "zz", "e7e5"]);
    assert_eq!(malformed.outcome, MovesOutcome::Malformed);
    assert_eq!(malformed.position.side_to_move(), Color::Black);
    let illegal = position(&vec!["position", "startpos", "moves", "e2e5"]);
    assert_eq!(illegal.outcome, MovesOutcome::Illegal);
    assert_eq!(illegal.position.hash(), startpos().hash());
}

#[test]
fn position_from_fen_and_fallback() {
    let set = position(&vec!["position", "fen", "8/8/8/8/8/8/8/K1k5", "w", "-", "-", "0", "1"]);
    assert_eq!(set.position.piece_on(0), Some(Piece::King));
    assert_eq!(set.position.piece_on(2), Some(Piece::King));
    let bad = position(&vec!["position", "fen", "not", "a", "fen"]);
    assert_eq!(bad.position.hash(), startpos().hash());
    let short = position(&vec!["position"]);
    assert_eq!(short.position.hash(), startpos().hash());
    let other = position(&vec!["position", "sideways"]);
    assert_eq!(other.position.hash(), startpos().hash());
}

#[test]
fn castling_in_uci_notation() {
    let set = position(&vec![
        "position", "fen", "r3k2r/8/8/8/8/8/8/R3K2R", "w", "KQkq", "-", "0", "1", "moves", "e1g1",
    ]);
    assert_eq!(set.outcome, MovesOutcome::AllPlayed);
    assert_eq!(set.position.piece_on(6), Some(Piece::King));
    assert_eq!(set.position.piece_on(5), Some(Piece::Rook));
}
