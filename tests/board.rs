use chess_engine::board::Board;
use chess_engine::castling::{has_kingside, has_queenside};
use chess_engine::fen::STARTPOS_FEN;
use chess_engine::types::{move_from_uci, square_from_algebraic, Color, PieceKind};

#[test]
fn apply_move_updates_side_and_piece() {
    let mut board = Board::new();
    board.set_fen(STARTPOS_FEN).expect("startpos");

    let mv = move_from_uci("e2e4").expect("move");
    board.apply_move(mv).expect("apply move");

    let e2 = square_from_algebraic("e2").unwrap().index() as usize;
    let e4 = square_from_algebraic("e4").unwrap().index() as usize;
    assert!(board.squares[e2].is_none());
    let piece = board.squares[e4].expect("piece on e4");
    assert_eq!(piece.kind, PieceKind::Pawn);
    assert_eq!(piece.color, Color::White);
    assert_eq!(board.side_to_move, Color::Black);
}

#[test]
fn apply_move_rejects_wrong_side() {
    let mut board = Board::new();
    board.set_fen(STARTPOS_FEN).expect("startpos");

    let mv = move_from_uci("e7e5").expect("move");
    let err = board.apply_move(mv).unwrap_err();
    assert!(err.contains("side to move"));
}

#[test]
fn apply_move_sets_en_passant_on_double_push() {
    let mut board = Board::new();
    board.set_fen(STARTPOS_FEN).expect("startpos");

    let mv = move_from_uci("e2e4").expect("move");
    board.apply_move(mv).expect("apply move");

    let ep = board.en_passant.expect("en passant square");
    assert_eq!(square_from_algebraic("e3").unwrap(), ep);
}

#[test]
fn apply_move_clears_en_passant_on_single_push() {
    let mut board = Board::new();
    board.set_fen(STARTPOS_FEN).expect("startpos");

    let mv = move_from_uci("e2e3").expect("move");
    board.apply_move(mv).expect("apply move");

    assert!(board.en_passant.is_none());
}

#[test]
fn apply_move_sets_en_passant_for_black_double_push() {
    let mut board = Board::new();
    board.set_fen(STARTPOS_FEN).expect("startpos");

    board.apply_move(move_from_uci("e2e4").unwrap()).expect("apply move");
    board.apply_move(move_from_uci("a7a5").unwrap()).expect("apply move");

    let ep = board.en_passant.expect("en passant square");
    assert_eq!(square_from_algebraic("a6").unwrap(), ep);
}

#[test]
fn apply_move_handles_white_en_passant_capture() {
    let mut board = Board::new();
    board.set_fen(STARTPOS_FEN).expect("startpos");

    board.apply_move(move_from_uci("e2e4").unwrap()).expect("apply move");
    board.apply_move(move_from_uci("a7a6").unwrap()).expect("apply move");
    board.apply_move(move_from_uci("e4e5").unwrap()).expect("apply move");
    board.apply_move(move_from_uci("d7d5").unwrap()).expect("apply move");
    board.apply_move(move_from_uci("e5d6").unwrap()).expect("apply move");

    let d5 = square_from_algebraic("d5").unwrap().index() as usize;
    let d6 = square_from_algebraic("d6").unwrap().index() as usize;
    assert!(board.squares[d5].is_none());
    let pawn = board.squares[d6].expect("pawn on d6");
    assert_eq!(pawn.kind, PieceKind::Pawn);
    assert_eq!(pawn.color, Color::White);
}

#[test]
fn apply_move_handles_black_en_passant_capture() {
    let mut board = Board::new();
    board.set_fen(STARTPOS_FEN).expect("startpos");

    board.apply_move(move_from_uci("a2a3").unwrap()).expect("apply move");
    board.apply_move(move_from_uci("d7d5").unwrap()).expect("apply move");
    board.apply_move(move_from_uci("a3a4").unwrap()).expect("apply move");
    board.apply_move(move_from_uci("d5d4").unwrap()).expect("apply move");
    board.apply_move(move_from_uci("e2e4").unwrap()).expect("apply move");
    board.apply_move(move_from_uci("d4e3").unwrap()).expect("apply move");

    let e4 = square_from_algebraic("e4").unwrap().index() as usize;
    let e3 = square_from_algebraic("e3").unwrap().index() as usize;
    assert!(board.squares[e4].is_none());
    let pawn = board.squares[e3].expect("pawn on e3");
    assert_eq!(pawn.kind, PieceKind::Pawn);
    assert_eq!(pawn.color, Color::Black);
}

#[test]
fn apply_move_handles_white_castle_kingside() {
    let mut board = Board::new();
    board.set_fen("r3k2r/8/8/8/8/8/8/R3K2R w KQkq - 0 1").expect("fen");

    board.apply_move(move_from_uci("e1g1").unwrap()).expect("castle");

    let g1 = square_from_algebraic("g1").unwrap().index() as usize;
    let f1 = square_from_algebraic("f1").unwrap().index() as usize;
    assert_eq!(board.squares[g1].unwrap().kind, PieceKind::King);
    assert_eq!(board.squares[f1].unwrap().kind, PieceKind::Rook);
    assert_eq!(board.squares[f1].unwrap().color, Color::White);
}

#[test]
fn apply_move_handles_black_castle_queenside() {
    let mut board = Board::new();
    board.set_fen("r3k2r/8/8/8/8/8/8/R3K2R b KQkq - 0 1").expect("fen");

    board.apply_move(move_from_uci("e8c8").unwrap()).expect("castle");

    let c8 = square_from_algebraic("c8").unwrap().index() as usize;
    let d8 = square_from_algebraic("d8").unwrap().index() as usize;
    assert_eq!(board.squares[c8].unwrap().kind, PieceKind::King);
    assert_eq!(board.squares[d8].unwrap().kind, PieceKind::Rook);
    assert_eq!(board.squares[d8].unwrap().color, Color::Black);
}

#[test]
fn apply_move_revokes_castling_on_king_move() {
    let mut board = Board::new();
    board.set_fen("r3k2r/8/8/8/8/8/8/R3K2R w KQkq - 0 1").expect("fen");

    board.apply_move(move_from_uci("e1f1").unwrap()).expect("move");

    assert!(!has_kingside(board.castling_rights, Color::White));
    assert!(!has_queenside(board.castling_rights, Color::White));
    assert!(has_kingside(board.castling_rights, Color::Black));
    assert!(has_queenside(board.castling_rights, Color::Black));
}

#[test]
fn apply_move_revokes_castling_on_rook_move() {
    let mut board = Board::new();
    board.set_fen("r3k2r/8/8/8/8/8/8/R3K2R w KQkq - 0 1").expect("fen");

    board.apply_move(move_from_uci("h1h2").unwrap()).expect("move");

    assert!(!has_kingside(board.castling_rights, Color::White));
    assert!(has_queenside(board.castling_rights, Color::White));
}

#[test]
fn apply_move_revokes_castling_on_rook_capture() {
    let mut board = Board::new();
    board.set_fen("r3k2r/8/8/8/8/8/8/R3K2R w KQkq - 0 1").expect("fen");

    board.apply_move(move_from_uci("a1a8").unwrap()).expect("capture");

    assert!(!has_queenside(board.castling_rights, Color::Black));
    assert!(has_kingside(board.castling_rights, Color::Black));
}

#[test]
fn make_move_reports_each_fault_and_keeps_the_board() {
    let mut board = Board::new();
    board.set_startpos();
    let hash = board.hash;
    let err = board.make_move(move_from_uci("e3e4").unwrap()).unwrap_err();
    assert_eq!(err, "no piece on from square");
    assert_eq!(board.hash, hash);

    board.set_fen("4k3/8/8/8/8/8/8/2K5 w - - 0 1").expect("fen");
    let err = board.make_move(move_from_uci("c1a1").unwrap()).unwrap_err();
    assert_eq!(err, "invalid castling target");

    board.set_fen("4k3/8/8/8/8/8/8/4K3 w - - 0 1").expect("fen");
    let err = board.make_move(move_from_uci("e1g1").unwrap()).unwrap_err();
    assert_eq!(err, "no rook for castling");

    board.set_fen("4k3/8/8/8/8/8/8/4K2N w - - 0 1").expect("fen");
    let squares = board.squares.clone();
    let err = board.make_move(move_from_uci("e1g1").unwrap()).unwrap_err();
    assert_eq!(err, "invalid rook for castling");
    assert_eq!(board.squares, squares);

    board.set_fen("4k3/8/8/8/8/8/1P6/4K3 w - - 0 1").expect("fen");
    board.en_passant = square_from_algebraic("c1");
    let err = board.make_move(move_from_uci("b2c1").unwrap()).unwrap_err();
    assert_eq!(err, "invalid en passant capture");
}

#[test]
fn unmake_restores_a_capture_with_promotion() {
    let mut board = Board::new();
    board.set_fen("r3k3/1P6/8/8/8/8/8/4K3 w q - 0 1").expect("fen");
    let before = board.squares.clone();
    let hash = board.hash;
    let mv = move_from_uci("b7a8q").unwrap();
    let undo = board.make_move(mv).expect("capture");
    let a8 = square_from_algebraic("a8").unwrap().index() as usize;
    assert_eq!(board.squares[a8].unwrap().kind, PieceKind::Queen);
    assert!(!has_queenside(board.castling_rights, Color::Black));
    assert_eq!(board.halfmove_clock, 0);
    board.unmake_move(mv, undo);
    assert_eq!(board.squares, before);
    assert_eq!(board.hash, hash);
    assert!(has_queenside(board.castling_rights, Color::Black));
}

#[test]
fn move_lists_stop_at_the_first_bad_move() {
    let mut board = Board::new();
    board.set_startpos();
    let moves = vec!["e2e4".to_string(), "zz".to_string(), "e7e5".to_string()];
    let err = board.apply_uci_move_list(&moves).unwrap_err();
    assert!(err.contains("invalid UCI move: zz"));
    assert_eq!(board.side_to_move, Color::Black);
    let e5 = square_from_algebraic("e5").unwrap().index() as usize;
    assert!(board.squares[e5].is_none());
}

#[test]
fn clocks_follow_the_moves() {
    let mut board = Board::new();
    board.set_startpos();
    board.apply_move(move_from_uci("g1f3").unwrap()).expect("move");
    assert_eq!(board.halfmove_clock, 1);
    assert_eq!(board.fullmove_number, 1);
    board.apply_move(move_from_uci("g8f6").unwrap()).expect("move");
    assert_eq!(board.halfmove_clock, 2);
    assert_eq!(board.fullmove_number, 2);
    board.apply_move(move_from_uci("e2e4").unwrap()).expect("move");
    assert_eq!(board.halfmove_clock, 0);
}
