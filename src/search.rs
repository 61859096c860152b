use vstd::prelude::*;
use crate::board::{Board, BoardView};
use crate::eval::Evaluator;
use crate::movegen::{gen_ok, legal_moves, position_ok};
use crate::types::Move;

verus! {

/// The score of being mated with no plies left; faster mates score further from zero.
pub const MATE_SCORE: i32 = 30_000;
/// Extra plies of captures and promotions searched beyond the horizon.
pub const QUIESCE_DEPTH: u32 = 4;
/// The deepest search accepted: mate scores stay far inside `i32`.
pub const MAX_DEPTH: u32 = 1_000_000;

/// The outcome of a root search: the moves that tie for the best score, the score, and
/// the number of nodes visited.
#[derive(Clone)]
pub struct SearchResult {
    pub best_moves: Vec<Move>,
    pub score: i32,
    pub nodes: u64,
}

/// A score whose negation is an `i32` too.
pub open spec fn negatable(x: i32) -> bool {
    x > i32::MIN
}

/// The best moves are legal moves of the position, and there are some exactly when the
/// position has a legal move.
pub open spec fn result_sound(b: BoardView, r: SearchResult) -> bool {
    &&& forall|i: int| 0 <= i < r.best_moves@.len() ==> legal_moves(b).contains(#[trigger] r.best_moves@[i])
    &&& forall|i: int| 0 <= i < r.best_moves@.len() ==> gen_ok(b, #[trigger] r.best_moves@[i])
    &&& (r.best_moves@.len() == 0 <==> legal_moves(b).len() == 0)
}

/// A root search to a fixed depth.
pub trait SearchAlgorithm<E: Evaluator> {
    spec fn ready(&self) -> bool;

    /// What this algorithm's result at `depth` on position `b` with evaluator `e` satisfies,
    /// beyond `result_sound`.
    spec fn result_ok(&self, e: E, b: BoardView, depth: u32, r: SearchResult) -> bool;

    fn search(&mut self, board: &mut Board, evaluator: &E, depth: u32) -> (r: SearchResult)
        requires
            old(self).ready(),
            position_ok(old(board)@),
            depth <= MAX_DEPTH,
        ensures
            final(self).ready(),
            final(board)@ == old(board)@,
            result_sound(old(board)@, r),
            old(self).result_ok(*evaluator, old(board)@, depth, r),
    ;

    /// As `search`, trying the given root moves first where the algorithm orders moves.
    fn search_with_root_ordering(
        &mut self,
        board: &mut Board,
        evaluator: &E,
        depth: u32,
        preferred_root: Option<&[Move]>,
    ) -> (r: SearchResult)
        requires
            old(self).ready(),
            position_ok(old(board)@),
            depth <= MAX_DEPTH,
        ensures
            final(self).ready(),
            final(board)@ == old(board)@,
            result_sound(old(board)@, r),
            old(self).result_ok(*evaluator, old(board)@, depth, r),
    ;
}

} // verus!
