use chess_engine::board::Board;
use chess_engine::fen::parse_fen;
use chess_engine::movegen::{
    game_status, generate_legal, generate_pseudo_legal, is_square_attacked, offset_square, perft,
};
use chess_engine::types::{square_from_algebraic, uci_from_move, Color, GameStatus};
use chess_engine::zobrist::compute_hash;

#[test]
fn offset_square_rejects_offboard() {
    let a1 = square_from_algebraic("a1").unwrap();
    assert!(offset_square(a1, -16).is_none());
    assert!(offset_square(a1, -1).is_none());
}

#[test]
fn offset_square_allows_onboard() {
    let a1 = square_from_algebraic("a1").unwrap();
    let a2 = offset_square(a1, 16).expect("a2");
    assert_eq!(a2.index(), 16);
}

#[test]
fn generate_startpos_pseudo_legal_count() {
    let mut board = Board::new();
    board.set_startpos();
    let moves = generate_pseudo_legal(&board);
    assert_eq!(moves.len(), 20);
}

#[test]
fn generate_en_passant_move() {
    let data = parse_fen("8/8/8/3pP3/8/8/8/8 w - d6 0 1").expect("fen");
    let mut board = Board::new();
    board.squares = data.squares;
    board.side_to_move = data.side_to_move;
    board.castling_rights = data.castling_rights;
    board.en_passant = data.en_passant;
    let moves = generate_pseudo_legal(&board);
    let has_ep = moves.iter().filter_map(|mv| uci_from_move(*mv)).any(|uci| uci == "e5d6");
    assert!(has_ep);
}

#[test]
fn generate_castling_moves() {
    let mut board = Board::new();
    board.set_fen("r3k2r/8/8/8/8/8/8/R3K2R w KQkq - 0 1").expect("fen");
    let moves = generate_pseudo_legal(&board);
    let uci_moves: Vec<String> = moves.iter().filter_map(|mv| uci_from_move(*mv)).collect();
    assert!(uci_moves.iter().any(|mv| mv == "e1g1"));
    assert!(uci_moves.iter().any(|mv| mv == "e1c1"));
}

#[test]
fn generate_legal_startpos_count() {
    let mut board = Board::new();
    board.set_startpos();
    let moves = generate_legal(&mut board);
    assert_eq!(moves.len(), 20);
}

#[test]
fn perft_startpos_depths() {
    let mut board = Board::new();
    board.set_startpos();
    assert_eq!(perft(&mut board, 1), 20);
    assert_eq!(perft(&mut board, 2), 400);
    assert_eq!(perft(&mut board, 3), 8902);
    assert_eq!(perft(&mut board, 4), 197281);
}

#[test]
fn castling_through_an_attacked_square_is_not_generated() {
    let mut board = Board::new();
    board.set_fen("4kr2/8/8/8/8/8/8/R3K2R w KQ - 0 1").expect("fen");
    let moves: Vec<String> = generate_legal(&mut board).iter().filter_map(|mv| uci_from_move(*mv)).collect();
    assert!(!moves.iter().any(|mv| mv == "e1g1"));
    assert!(moves.iter().any(|mv| mv == "e1c1"));
}

#[test]
fn castling_out_of_check_is_not_generated() {
    let mut board = Board::new();
    board.set_fen("4r1k1/8/8/8/8/8/8/R3K2R w KQ - 0 1").expect("fen");
    let moves: Vec<String> = generate_legal(&mut board).iter().filter_map(|mv| uci_from_move(*mv)).collect();
    assert!(!moves.iter().any(|mv| mv == "e1g1"));
    assert!(!moves.iter().any(|mv| mv == "e1c1"));
}

#[test]
fn promotions_expand_in_queen_rook_bishop_knight_order() {
    let mut board = Board::new();
    board.set_fen("7k/P7/8/8/8/8/8/K7 w - - 0 1").expect("fen");
    let moves: Vec<String> = generate_pseudo_legal(&board).iter().filter_map(|mv| uci_from_move(*mv)).collect();
    let pawn_moves: Vec<&String> = moves.iter().filter(|mv| mv.starts_with("a7")).collect();
    assert_eq!(pawn_moves, vec!["a7a8q", "a7a8r", "a7a8b", "a7a8n"]);
}

#[test]
fn generation_is_deterministic() {
    let mut a = Board::new();
    let mut b = Board::new();
    a.set_fen("r3k2r/pppq1ppp/2n2n2/3pp3/3PP3/2N2N2/PPPQ1PPP/R3K2R w KQkq - 0 1").expect("fen");
    b.set_fen("r3k2r/pppq1ppp/2n2n2/3pp3/3PP3/2N2N2/PPPQ1PPP/R3K2R w KQkq - 0 1").expect("fen");
    assert_eq!(generate_legal(&mut a), generate_legal(&mut b));
}

#[test]
fn attacks_match_captures_on_an_enemy_piece() {
    let mut board = Board::new();
    board.set_fen("4k3/8/8/3n4/8/2N5/8/4K3 w - - 0 1").expect("fen");
    let d5 = square_from_algebraic("d5").unwrap();
    let e5 = square_from_algebraic("e5").unwrap();
    assert!(is_square_attacked(&board, d5, Color::White));
    assert!(!is_square_attacked(&board, e5, Color::White));
    let captures = generate_pseudo_legal(&board).iter().filter(|mv| mv.to == d5).count();
    assert_eq!(captures, 1);
}

#[test]
fn pawn_pushes_are_not_attacks() {
    let mut board = Board::new();
    board.set_fen("4k3/8/8/8/8/8/4P3/4K3 w - - 0 1").expect("fen");
    let e3 = square_from_algebraic("e3").unwrap();
    let d3 = square_from_algebraic("d3").unwrap();
    assert!(!is_square_attacked(&board, e3, Color::White));
    assert!(is_square_attacked(&board, d3, Color::White));
}

#[test]
fn status_reports_mate_and_stalemate() {
    let mut board = Board::new();
    board.set_fen("7k/6Q1/6K1/8/8/8/8/8 b - - 0 1").expect("fen");
    assert_eq!(game_status(&mut board), GameStatus::Checkmate);
    board.set_fen("7k/8/6QK/8/8/8/8/8 b - - 0 1").expect("fen");
    assert_eq!(game_status(&mut board), GameStatus::Stalemate);
    board.set_startpos();
    assert_eq!(game_status(&mut board), GameStatus::Ongoing);
}

#[test]
fn make_and_unmake_restore_every_field() {
    let mut board = Board::new();
    board.set_fen("r3k2r/pPpq1ppp/2n2n2/3pP3/8/2N2N2/PPPQ1PPP/R3K2R w KQkq d6 0 1").expect("fen");
    let squares = board.squares.clone();
    let (rights, ep, half, full, side, hash) = (
        board.castling_rights,
        board.en_passant,
        board.halfmove_clock,
        board.fullmove_number,
        board.side_to_move,
        board.hash,
    );
    for mv in generate_legal(&mut board) {
        let undo = board.make_move(mv).expect("legal move");
        board.unmake_move(mv, undo);
        assert_eq!(board.squares, squares);
        assert_eq!(board.castling_rights, rights);
        assert_eq!(board.en_passant, ep);
        assert_eq!(board.halfmove_clock, half);
        assert_eq!(board.fullmove_number, full);
        assert_eq!(board.side_to_move, side);
        assert_eq!(board.hash, hash);
    }
}

#[test]
fn incremental_hash_matches_recomputation() {
    let mut board = Board::new();
    board.set_fen("r3k2r/pPpq1ppp/2n2n2/3pP3/8/2N2N2/PPPQ1PPP/R3K2R w KQkq d6 0 1").expect("fen");
    assert_eq!(board.hash, compute_hash(&board));
    for mv in generate_legal(&mut board) {
        let undo = board.make_move(mv).expect("legal move");
        assert_eq!(board.hash, compute_hash(&board));
        for reply in generate_legal(&mut board) {
            let undo2 = board.make_move(reply).expect("legal reply");
            assert_eq!(board.hash, compute_hash(&board));
            board.unmake_move(reply, undo2);
        }
        board.unmake_move(mv, undo);
    }
}

#[test]
fn en_passant_positions_hash_by_file() {
    let mut a = Board::new();
    let mut b = Board::new();
    a.set_fen("4k3/8/8/3pP3/8/8/8/4K3 w - d6 0 1").expect("fen");
    b.set_fen("4k3/8/8/3pP3/8/8/8/4K3 w - - 0 1").expect("fen");
    assert_ne!(a.hash, b.hash);
}
