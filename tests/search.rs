use chess_engine::alphabeta::AlphaBetaSearch;
use chess_engine::board::Board;
use chess_engine::engine::Engine;
use chess_engine::eval::MaterialEvaluator;
use chess_engine::minimax::MinimaxSearch;
use chess_engine::search::SearchAlgorithm;
use chess_engine::tt::{Bound, TTEntry, TranspositionTable};
use chess_engine::types::{move_from_uci, uci_from_move};

fn tactical_capture_fen() -> &'static str {
    "3rk3/8/8/8/8/8/8/3QK3 w - - 0 1"
}

fn quiescence_recapture_fen() -> &'static str {
    "4k3/8/8/8/8/4p3/3p4/3Q2K1 w - - 0 1"
}

#[test]
fn alphabeta_matches_minimax_depth1() {
    let mut board = Board::new();
    board.set_fen(tactical_capture_fen()).expect("fen");

    let mut minimax = MinimaxSearch;
    let mut alphabeta = AlphaBetaSearch::new();

    let mut mini_best: Vec<String> = minimax
        .search(&mut board, &MaterialEvaluator, 1)
        .best_moves
        .iter()
        .filter_map(|mv| uci_from_move(*mv))
        .collect();

    let mut alpha_best: Vec<String> = alphabeta
        .search(&mut board, &MaterialEvaluator, 1)
        .best_moves
        .iter()
        .filter_map(|mv| uci_from_move(*mv))
        .collect();

    mini_best.sort();
    alpha_best.sort();

    for mv in alpha_best {
        assert!(mini_best.iter().any(|best| best == &mv));
    }
}

#[test]
fn seeded_search_depth_is_deterministic() {
    let mut engine_a = Engine::with_components(MaterialEvaluator, MinimaxSearch);
    engine_a.set_rng_seed(7);
    engine_a.set_position_startpos();

    let mut engine_b = Engine::with_components(MaterialEvaluator, MinimaxSearch);
    engine_b.set_rng_seed(7);
    engine_b.set_position_startpos();

    let move_a = engine_a.search_depth(1);
    let move_b = engine_b.search_depth(1);

    assert_eq!(move_a, move_b);
}

#[test]
fn minimax_avoids_losing_queen_in_quiescence() {
    let mut board = Board::new();
    board.set_fen(quiescence_recapture_fen()).expect("fen");

    let mut search = MinimaxSearch;
    let result = search.search(&mut board, &MaterialEvaluator, 1);
    let best_moves: Vec<String> = result.best_moves.iter().filter_map(|mv| uci_from_move(*mv)).collect();

    assert!(!best_moves.iter().any(|mv| mv == "d1d2"));
}

#[test]
fn alphabeta_avoids_losing_queen_in_quiescence() {
    let mut board = Board::new();
    board.set_fen(quiescence_recapture_fen()).expect("fen");

    let mut search = AlphaBetaSearch::new();
    let result = search.search(&mut board, &MaterialEvaluator, 1);
    let best_moves: Vec<String> = result.best_moves.iter().filter_map(|mv| uci_from_move(*mv)).collect();

    assert!(!best_moves.iter().any(|mv| mv == "d1d2"));
}

#[test]
fn alphabeta_depth3_includes_ba6() {
    let mut board = Board::new();
    board
        .set_fen("rnbqkbnr/pppp1ppp/8/4p3/8/4P3/PPPP1PPP/RNBQKBNR w KQkq - 0 2")
        .expect("fen");

    let mut search = AlphaBetaSearch::new();
    let result = search.search(&mut board, &MaterialEvaluator, 3);
    let best_moves: Vec<String> = result.best_moves.iter().filter_map(|mv| uci_from_move(*mv)).collect();

    assert!(!best_moves.iter().any(|mv| mv == "f1a6"));
}

#[test]
fn alphabeta_best_moves_subset_of_minimax_depth2_startpos() {
    let mut board = Board::new();
    board.set_startpos();

    let mut minimax = MinimaxSearch;
    let mut alphabeta = AlphaBetaSearch::new();

    let mini_best: Vec<String> = minimax
        .search(&mut board, &MaterialEvaluator, 2)
        .best_moves
        .iter()
        .filter_map(|mv| uci_from_move(*mv))
        .collect();

    let alpha_best: Vec<String> = alphabeta
        .search(&mut board, &MaterialEvaluator, 2)
        .best_moves
        .iter()
        .filter_map(|mv| uci_from_move(*mv))
        .collect();

    for mv in alpha_best {
        assert!(mini_best.iter().any(|best| best == &mv));
    }
}

#[test]
fn prefers_mate_over_material_capture() {
    let mut board = Board::new();
    board.set_fen("1k6/8/8/8/7Q/8/PPP5/1K1Bq3 b - - 0 1").expect("fen");

    let mut search = MinimaxSearch;
    let result = search.search(&mut board, &MaterialEvaluator, 1);
    let best_moves: Vec<String> = result.best_moves.iter().filter_map(|mv| uci_from_move(*mv)).collect();

    assert_eq!(best_moves, vec!["e1d1".to_string()]);
}

#[test]
fn alphabeta_prefers_mate_over_material_capture() {
    let mut board = Board::new();
    board.set_fen("1k6/8/8/8/7Q/8/PPP5/1K1Bq3 b - - 0 1").expect("fen");
    let mut search = AlphaBetaSearch::new();
    let result = search.search(&mut board, &MaterialEvaluator, 1);
    let best_moves: Vec<String> = result.best_moves.iter().filter_map(|mv| uci_from_move(*mv)).collect();
    assert_eq!(best_moves, vec!["e1d1".to_string()]);
    assert_eq!(result.score, 30_000);
}

#[test]
fn search_leaves_board_unchanged() {
    let mut board = Board::new();
    board.set_fen(tactical_capture_fen()).expect("fen");
    let before = board.squares.clone();
    let hash = board.hash;
    let mut search = AlphaBetaSearch::new();
    let _ = search.search(&mut board, &MaterialEvaluator, 2);
    assert_eq!(board.squares, before);
    assert_eq!(board.hash, hash);
}

#[test]
fn mated_side_has_no_best_move() {
    let mut board = Board::new();
    board.set_fen("7k/6Q1/6K1/8/8/8/8/8 b - - 0 1").expect("fen");
    let mut search = MinimaxSearch;
    let result = search.search(&mut board, &MaterialEvaluator, 2);
    assert!(result.best_moves.is_empty());
    let mut engine = Engine::with_components(MaterialEvaluator, AlphaBetaSearch::new());
    engine.set_position_fen("7k/6Q1/6K1/8/8/8/8/8 b - - 0 1").expect("fen");
    assert_eq!(engine.search_depth(2), "0000");
}

#[test]
fn seeded_engines_agree_after_the_same_commands() {
    let moves = vec!["e2e4".to_string(), "e7e5".to_string()];
    let mut a = Engine::with_components(MaterialEvaluator, AlphaBetaSearch::new());
    let mut b = Engine::with_components(MaterialEvaluator, AlphaBetaSearch::new());
    a.set_rng_seed(42);
    b.set_rng_seed(42);
    a.set_position_startpos();
    b.set_position_startpos();
    a.apply_move_list(&moves).expect("moves");
    b.apply_move_list(&moves).expect("moves");
    assert_eq!(a.search_depth(2), b.search_depth(2));
}

#[test]
fn engine_reports_bad_move_lists() {
    let mut engine = Engine::with_components(MaterialEvaluator, MinimaxSearch);
    engine.set_position_startpos();
    let err = engine.apply_move_list(&["e2e5x".to_string()]).unwrap_err();
    assert!(err.contains("invalid UCI move"));
    let err = engine.apply_move_list(&["e7e5".to_string()]).unwrap_err();
    assert!(err.contains("side to move"));
}

#[test]
fn table_probe_requires_the_full_key() {
    let mut tt = TranspositionTable::new(4);
    let mv = move_from_uci("e2e4");
    tt.store(TTEntry { key: 5, depth: 2, score: 10, bound: Bound::Exact, best_move: mv });
    assert_eq!(tt.probe(5).map(|e| e.score), Some(10));
    assert!(tt.probe(1).is_none());
    assert!(tt.probe(9).is_none());
}

#[test]
fn table_keeps_the_deeper_entry() {
    let mut tt = TranspositionTable::new(3);
    tt.store(TTEntry { key: 1, depth: 4, score: 10, bound: Bound::Lower, best_move: None });
    tt.store(TTEntry { key: 5, depth: 2, score: 20, bound: Bound::Upper, best_move: None });
    assert_eq!(tt.probe(1).map(|e| e.depth), Some(4));
    assert!(tt.probe(5).is_none());
    tt.store(TTEntry { key: 5, depth: 4, score: 30, bound: Bound::Exact, best_move: None });
    assert_eq!(tt.probe(5).map(|e| e.score), Some(30));
    assert!(tt.probe(1).is_none());
}
