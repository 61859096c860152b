use chess_engine::board::Board;
use chess_engine::fen::{parse_fen, validate_fen_semantics, STARTPOS_FEN};
use chess_engine::types::{square_from_algebraic, Color, PieceKind};

#[test]
fn parses_startpos() {
    let data = parse_fen(STARTPOS_FEN).expect("startpos parse");
    assert_eq!(data.side_to_move, Color::White);
    assert!(data.en_passant.is_none());

    let e1 = square_from_algebraic("e1").unwrap().index() as usize;
    let e8 = square_from_algebraic("e8").unwrap().index() as usize;
    let a2 = square_from_algebraic("a2").unwrap().index() as usize;

    let e1_piece = data.squares[e1].expect("e1 piece");
    let e8_piece = data.squares[e8].expect("e8 piece");
    let a2_piece = data.squares[a2].expect("a2 piece");

    assert_eq!(e1_piece.color, Color::White);
    assert_eq!(e1_piece.kind, PieceKind::King);
    assert_eq!(e8_piece.color, Color::Black);
    assert_eq!(e8_piece.kind, PieceKind::King);
    assert_eq!(a2_piece.color, Color::White);
    assert_eq!(a2_piece.kind, PieceKind::Pawn);
}

#[test]
fn rejects_invalid_field_count() {
    let err = parse_fen("8/8/8/8/8/8/8/8 w - - 0").unwrap_err();
    assert!(err.contains("6 fields"));
}

#[test]
fn rejects_invalid_side() {
    let err = parse_fen("8/8/8/8/8/8/8/8 x - - 0 1").unwrap_err();
    assert!(err.contains("side"));
}

#[test]
fn rejects_missing_king() {
    let mut board = Board::new();
    let err = board.set_fen("8/8/8/8/8/8/8/4K3 w - - 0 1").unwrap_err();
    assert!(err.contains("king"));
}

#[test]
fn rejects_pawn_on_last_rank() {
    let mut board = Board::new();
    let err = board.set_fen("7k/8/8/8/8/8/8/P3K3 w - - 0 1").unwrap_err();
    assert!(err.contains("pawn"));
}

#[test]
fn rejects_both_kings_in_check() {
    let mut board = Board::new();
    let err = board.set_fen("8/8/8/8/8/8/4Kk2/8 w - - 0 1").unwrap_err();
    assert!(err.contains("check"));
}

#[test]
fn rejects_invalid_castling_rights() {
    let mut board = Board::new();
    let err = board.set_fen("4k3/8/8/8/8/8/8/4K3 w K - 0 1").unwrap_err();
    assert!(err.contains("castling"));
}

#[test]
fn rejects_invalid_en_passant() {
    let mut board = Board::new();
    let err = board.set_fen("8/8/8/4p3/8/8/8/4K2k w - e6 0 1").unwrap_err();
    assert!(err.contains("en passant"));
}

#[test]
fn rejects_empty_board_for_missing_kings() {
    let mut board = Board::new();
    let err = board.set_fen("8/8/8/8/8/8/8/8 w - - 0 1").unwrap_err();
    assert!(err.contains("missing white king"));
}

#[test]
fn rejected_fen_leaves_board_unchanged() {
    let mut board = Board::new();
    board.set_startpos();
    let before = board.hash;
    assert!(board.set_fen("8/8/8/8/8/8/4Kk2/8 w - - 0 1").is_err());
    assert_eq!(board.hash, before);
    assert_eq!(board.castling_rights, 15);
}

#[test]
fn rejects_duplicate_castling_letters() {
    let err = parse_fen("r3k2r/8/8/8/8/8/8/R3K2R w KK - 0 1").unwrap_err();
    assert!(err.contains("castling"));
}

#[test]
fn rejects_malformed_ranks() {
    assert!(parse_fen("9/8/8/8/8/8/8/8 w - - 0 1").is_err());
    assert!(parse_fen("7/8/8/8/8/8/8/8 w - - 0 1").is_err());
    assert!(parse_fen("8/8/8/8/8/8/8 w - - 0 1").is_err());
    assert!(parse_fen("8/8/8/8/8/8/8/8/8 w - - 0 1").is_err());
    assert!(parse_fen("7x/8/8/8/8/8/8/8 w - - 0 1").is_err());
}

#[test]
fn rejects_bad_clocks_and_en_passant_text() {
    assert!(parse_fen("8/8/8/8/8/8/8/8 w - - x 1").is_err());
    assert!(parse_fen("8/8/8/8/8/8/8/8 w - - 0 -1").is_err());
    assert!(parse_fen("8/8/8/8/8/8/8/8 w - E3 0 1").is_err());
    assert!(parse_fen("8/8/8/8/8/8/8/8 w - e9 0 1").is_err());
}

#[test]
fn reads_clocks_and_en_passant() {
    let data = parse_fen("4k3/8/8/3pP3/8/8/8/4K3 w - d6 12 34").expect("fen");
    assert_eq!(data.halfmove_clock, 12);
    assert_eq!(data.fullmove_number, 34);
    assert_eq!(data.en_passant, square_from_algebraic("d6"));
    assert!(validate_fen_semantics(&data).is_ok());
}

#[test]
fn accepts_valid_en_passant_target() {
    let mut board = Board::new();
    board.set_fen("4k3/8/8/3pP3/8/8/8/4K3 w - d6 0 1").expect("fen");
    assert_eq!(board.en_passant, square_from_algebraic("d6"));
}
