use chess_engine::board::Board;
use chess_engine::eval::{Evaluator, MaterialEvaluator};

#[test]
fn material_eval_scores_side_to_move() {
    let mut board = Board::new();
    board.set_fen("4k3/8/8/8/8/8/P7/4K3 w - - 0 1").expect("fen");
    let eval = MaterialEvaluator.evaluate(&board);
    assert_eq!(eval, 100);

    board.set_fen("4k3/8/8/8/8/8/P7/4K3 b - - 0 1").expect("fen");
    let eval = MaterialEvaluator.evaluate(&board);
    assert_eq!(eval, -100);
}

#[test]
fn material_eval_balances_both_sides() {
    let mut board = Board::new();
    board.set_fen("4k3/8/8/8/8/8/Pp6/4K3 w - - 0 1").expect("fen");
    let eval = MaterialEvaluator.evaluate(&board);
    assert_eq!(eval, 0);
}

#[test]
fn material_eval_counts_each_piece_value() {
    let mut board = Board::new();
    board.set_fen("4k3/8/8/8/8/8/8/QRBNK3 w - - 0 1").expect("fen");
    assert_eq!(MaterialEvaluator.evaluate(&board), 900 + 500 + 330 + 320);
    board.set_startpos();
    assert_eq!(MaterialEvaluator.evaluate(&board), 0);
}
