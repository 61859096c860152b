use chess_engine::types::{
    algebraic_from_square, move_from_uci, square_from_algebraic, square_from_coords, uci_from_move,
    Move, PieceKind, Square,
};

#[test]
fn algebraic_round_trip() {
    let square = square_from_algebraic("e2").expect("square");
    assert_eq!(square.index(), 20);
    assert_eq!(algebraic_from_square(square).as_deref(), Some("e2"));
}

#[test]
fn invalid_algebraic_returns_none() {
    assert!(square_from_algebraic("i9").is_none());
    assert!(square_from_algebraic("e0").is_none());
    assert!(square_from_algebraic("e22").is_none());
}

#[test]
fn parse_uci_move() {
    let mv = move_from_uci("e2e4").expect("move");
    assert_eq!(algebraic_from_square(mv.from).as_deref(), Some("e2"));
    assert_eq!(algebraic_from_square(mv.to).as_deref(), Some("e4"));
    assert!(mv.promotion.is_none());
}

#[test]
fn parse_promotion_move() {
    let mv = move_from_uci("e7e8q").expect("promotion");
    assert_eq!(algebraic_from_square(mv.from).as_deref(), Some("e7"));
    assert_eq!(algebraic_from_square(mv.to).as_deref(), Some("e8"));
    assert_eq!(mv.promotion, Some(PieceKind::Queen));
    assert_eq!(uci_from_move(mv).as_deref(), Some("e7e8q"));
}

#[test]
fn reject_invalid_move_text() {
    assert!(move_from_uci("e2e").is_none());
    assert!(move_from_uci("e2e4qq").is_none());
    assert!(move_from_uci("e2e4x").is_none());
}

#[test]
fn upper_case_squares_and_promotions_are_read() {
    let mv = move_from_uci("A7A8N").expect("move");
    assert_eq!(mv.from, Square(0x60));
    assert_eq!(mv.to, Square(0x70));
    assert_eq!(mv.promotion, Some(PieceKind::Knight));
}

#[test]
fn off_board_square_has_no_name() {
    assert!(algebraic_from_square(Square(0x08)).is_none());
    assert!(algebraic_from_square(Square(0x80)).is_none());
    assert_eq!(algebraic_from_square(Square(0x77)).as_deref(), Some("h8"));
}

#[test]
fn pawn_or_king_promotion_has_no_text() {
    let mv = Move { from: Square(0x64), to: Square(0x74), promotion: Some(PieceKind::King) };
    assert!(uci_from_move(mv).is_none());
}

#[test]
fn coordinates_outside_the_board_give_none() {
    assert_eq!(square_from_coords(7, 7), Some(Square(0x77)));
    assert!(square_from_coords(8, 0).is_none());
    assert!(square_from_coords(0, 8).is_none());
}
