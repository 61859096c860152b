use vstd::prelude::*;
use crate::board::{Board, BoardView};
use crate::types::{Color, Piece, PieceKind};

verus! {

/// The largest magnitude an evaluation may have.
pub const EVAL_LIMIT: i32 = 1_000_000;

/// Scores a position from the side to move's point of view.
pub trait Evaluator {
    spec fn score_of(&self, b: BoardView) -> int;

    /// Every evaluation lies within the limit.
    proof fn lemma_score_bounded(&self, b: BoardView)
        ensures
            -EVAL_LIMIT <= self.score_of(b) <= EVAL_LIMIT,
    ;

    fn evaluate(&self, board: &Board) -> (r: i32)
        requires
            board.wf(),
        ensures
            r == self.score_of(board@),
            -EVAL_LIMIT <= r <= EVAL_LIMIT,
    ;
}

/// Sums piece values: positive for the side to move, negative for the other side.
pub struct MaterialEvaluator;

pub open spec fn piece_value(k: PieceKind) -> int {
    match k {
        PieceKind::Pawn => 100,
        PieceKind::Knight => 320,
        PieceKind::Bishop => 330,
        PieceKind::Rook => 500,
        PieceKind::Queen => 900,
        PieceKind::King => 0,
    }
}

/// What the piece on one slot adds to the material balance of side `side`.
pub open spec fn slot_value(e: Option<Piece>, side: Color) -> int {
    match e {
        Some(p) => if p.color == side {
            piece_value(p.kind)
        } else {
            -piece_value(p.kind)
        },
        None => 0,
    }
}

/// The material balance of the first `n` slots for side `side`.
pub open spec fn material(s: Seq<Option<Piece>>, side: Color, n: nat) -> int
    decreases n,
{
    if n == 0 {
        0
    } else {
        material(s, side, (n - 1) as nat) + slot_value(s[n - 1], side)
    }
}

proof fn lemma_material_bounded(s: Seq<Option<Piece>>, side: Color, n: nat)
    ensures
        -900 * n <= material(s, side, n) <= 900 * n,
    decreases n,
{
    if n > 0 {
        lemma_material_bounded(s, side, (n - 1) as nat);
    }
}

fn value_of(kind: PieceKind) -> (r: i32)
    ensures
        r == piece_value(kind),
{
    match kind {
        PieceKind::Pawn => 100,
        PieceKind::Knight => 320,
        PieceKind::Bishop => 330,
        PieceKind::Rook => 500,
        PieceKind::Queen => 900,
        PieceKind::King => 0,
    }
}

impl Evaluator for MaterialEvaluator {
    open spec fn score_of(&self, b: BoardView) -> int {
        material(b.squares, b.side_to_move, 128)
    }

    proof fn lemma_score_bounded(&self, b: BoardView) {
        lemma_material_bounded(b.squares, b.side_to_move, 128);
    }

    fn evaluate(&self, board: &Board) -> (r: i32) {
        let mut score: i32 = 0;
        let mut i: usize = 0;
        while i < 128
            invariant
                board.wf(),
                i <= 128,
                score == material(board@.squares, board.side_to_move, i as nat),
                -900 * i <= score <= 900 * i,
            decreases 128 - i,
        {
            match board.squares[i] {
                Some(p) => {
                    let value = value_of(p.kind);
                    if p.color == board.side_to_move {
                        score = score + value;
                    } else {
                        score = score - value;
                    }
                },
                None => {},
            }
            i += 1;
        }
        score
    }
}

} // verus!
