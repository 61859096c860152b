use vstd::prelude::*;
use crate::board::Board;
use crate::eval::Evaluator;
use crate::movegen::{
    all_gen_ok, gen_ok, generate_legal, in_check, is_king_in_check, legal_moves, lemma_gen_ok_facts,
    position_ok,
};
use crate::apply_move::board_after;
use crate::board::BoardView;
use crate::quiescence::{quiesce_mm, quiesce_value};
use crate::search::{negatable, result_sound, SearchAlgorithm, SearchResult, MATE_SCORE, MAX_DEPTH, QUIESCE_DEPTH};
use crate::types::Move;

verus! {

/// Plain negamax over every legal move, without pruning.
pub struct MinimaxSearch;

/// The horizon value: quiescence with the widest negatable window.
#[verifier::opaque]
pub open spec fn horizon_value<E: Evaluator>(e: E, b: BoardView) -> int {
    quiesce_value(e, b, (i32::MIN / 2) as int, (i32::MAX / 2) as int, QUIESCE_DEPTH as nat)
}

/// The negamax value of a position searched `depth` plies deep: quiescence at the horizon;
/// in check at the horizon, the best evasion scored by quiescence one ply further; mate scores
/// that favour quicker mates; zero for stalemate.
pub open spec fn negamax_value<E: Evaluator>(e: E, b: BoardView, depth: nat) -> int
    decreases depth, 1nat, 0nat,
{
    if depth == 0 && !in_check(b, b.side_to_move) {
        horizon_value(e, b)
    } else if legal_moves(b).len() == 0 {
        if in_check(b, b.side_to_move) {
            -(MATE_SCORE + depth)
        } else {
            0
        }
    } else if depth == 0 {
        best_evasion(e, b, legal_moves(b), legal_moves(b).len())
    } else {
        best_child(e, b, legal_moves(b), (depth - 1) as nat, legal_moves(b).len())
    }
}

/// The largest negated horizon value among the first `n` moves (`i32::MIN` for none).
pub open spec fn best_evasion<E: Evaluator>(e: E, b: BoardView, ms: Seq<Move>, n: nat) -> int
    decreases n,
{
    if n == 0 || n > ms.len() {
        i32::MIN as int
    } else {
        let prev = best_evasion(e, b, ms, (n - 1) as nat);
        let v = -horizon_value(e, board_after(b, ms[n - 1]));
        if v > prev {
            v
        } else {
            prev
        }
    }
}

/// The largest negated child value among the first `n` moves (`i32::MIN` for none).
pub open spec fn best_child<E: Evaluator>(e: E, b: BoardView, ms: Seq<Move>, d: nat, n: nat) -> int
    decreases d + 1, 0nat, n,
{
    if n == 0 || n > ms.len() {
        i32::MIN as int
    } else {
        let prev = best_child(e, b, ms, d, (n - 1) as nat);
        let v = -negamax_value(e, board_after(b, ms[n - 1]), d);
        if v > prev {
            v
        } else {
            prev
        }
    }
}

/// The moves among the first `n` whose value is `best`, in their order.
pub open spec fn ties<E: Evaluator>(e: E, b: BoardView, ms: Seq<Move>, d: nat, best: int, n: nat) -> Seq<Move>
    decreases n,
{
    if n == 0 || n > ms.len() {
        Seq::empty()
    } else {
        ties(e, b, ms, d, best, (n - 1) as nat) + if -negamax_value(e, board_after(b, ms[n - 1]), d)
            == best {
            seq![ms[n - 1]]
        } else {
            Seq::empty()
        }
    }
}

/// The best score the side to move can force `depth` plies deep, each reply negated for the
/// side that chose it; the board is left as it was.
fn collapse_opponent_replies<E: Evaluator>(board: &mut Board, evaluator: &E, depth: u32, nodes: &mut u64) -> (r: i32)
    requires
        position_ok(old(board)@),
        depth <= MAX_DEPTH,
    ensures
        final(board)@ == old(board)@,
        negatable(r),
        r == negamax_value(*evaluator, old(board)@, depth as nat),
    decreases depth, 1int,
{
    reveal(horizon_value);
    let side = board.side_to_move;
    if depth == 0 && !is_king_in_check(board, side) {
        *nodes = nodes.saturating_add(1);
        return quiesce_mm(board, evaluator, nodes, QUIESCE_DEPTH);
    }
    let ghost b = board@;
    let moves = generate_legal(board);
    if moves.len() == 0 {
        *nodes = nodes.saturating_add(1);
        if is_king_in_check(board, side) {
            return -MATE_SCORE - depth as i32;
        }
        return 0;
    }
    if depth == 0 {
        return best_evasion_score(board, evaluator, &moves, nodes);
    }
    let mut best = i32::MIN;
    let mut i: usize = 0;
    while i < moves.len()
        invariant
            board@ == b,
            position_ok(b),
            moves@ == legal_moves(b),
            all_gen_ok(b, moves@),
            moves@.len() > 0,
            i <= moves.len(),
            0 < depth <= MAX_DEPTH,
            i > 0 ==> negatable(best),
            best == best_child(*evaluator, b, moves@, (depth - 1) as nat, i as nat),
        decreases moves.len() - i,
    {
        assert(gen_ok(b, moves@[i as int]));
        let score = collapsed_score_for_move(board, evaluator, depth - 1, moves[i], nodes);
        if score > best {
            best = score;
        }
        i += 1;
    }
    best
}

#[verifier::spinoff_prover]
#[verifier::rlimit(100)]
proof fn lemma_best_evasion_bounded<E: Evaluator>(e: E, b: BoardView, ms: Seq<Move>, n: nat)
    requires
        0 < n <= ms.len(),
    ensures
        -crate::eval::EVAL_LIMIT <= best_evasion(e, b, ms, n) <= crate::eval::EVAL_LIMIT,
    decreases n,
{
    let c = board_after(b, ms[n - 1]);
    let h = horizon_value(e, c);
    crate::search_laws::lemma_horizon_value_bounded(e, c);
    let prev = best_evasion(e, b, ms, (n - 1) as nat);
    if n > 1 {
        lemma_best_evasion_bounded(e, b, ms, (n - 1) as nat);
    }
    assert(best_evasion(e, b, ms, n) == (if -h > prev { -h } else { prev }));
}

/// Values at the horizon stay within the evaluation limit.
pub proof fn lemma_negamax0_bounded<E: Evaluator>(e: E, b: BoardView)
    ensures
        -crate::eval::EVAL_LIMIT <= negamax_value(e, b, 0) <= crate::eval::EVAL_LIMIT,
{
    crate::search_laws::lemma_horizon_value_bounded(e, b);
    if legal_moves(b).len() > 0 {
        lemma_best_evasion_bounded(e, b, legal_moves(b), legal_moves(b).len());
    }
}

/// The best child value is at most any bound on every child value.
pub proof fn lemma_best_child_le<E: Evaluator>(e: E, b: BoardView, ms: Seq<Move>, d: nat, n: nat, x: int)
    requires
        n <= ms.len(),
        x >= i32::MIN,
        forall|k: int| 0 <= k < n ==> -negamax_value(e, board_after(b, #[trigger] ms[k]), d) <= x,
    ensures
        best_child(e, b, ms, d, n) <= x,
    decreases n,
{
    if n > 0 {
        lemma_best_child_le(e, b, ms, d, (n - 1) as nat, x);
    }
}

/// A move of the list whose value is the given best is among the moves tying for it.
pub proof fn lemma_ties_contains<E: Evaluator>(e: E, b: BoardView, ms: Seq<Move>, d: nat, best: int, n: nat, k: int)
    requires
        0 <= k < n <= ms.len(),
        -negamax_value(e, board_after(b, ms[k]), d) == best,
    ensures
        ties(e, b, ms, d, best, n).contains(ms[k]),
    decreases n,
{
    if k < n - 1 {
        lemma_ties_contains(e, b, ms, d, best, (n - 1) as nat, k);
        let prev = ties(e, b, ms, d, best, (n - 1) as nat);
        let w = choose|w: int| 0 <= w < prev.len() && prev[w] == ms[k];
        assert(ties(e, b, ms, d, best, n)[w] == ms[k]);
    } else {
        let t = ties(e, b, ms, d, best, n);
        assert(t[t.len() - 1] == ms[k]);
    }
}

pub proof fn lemma_best_child_mono<E: Evaluator>(e: E, b: BoardView, ms: Seq<Move>, d: nat, i: nat, j: nat)
    requires
        i <= j <= ms.len(),
    ensures
        best_child(e, b, ms, d, i) <= best_child(e, b, ms, d, j),
    decreases j - i,
{
    if i < j {
        lemma_best_child_mono(e, b, ms, d, i, (j - 1) as nat);
    }
}

pub proof fn lemma_best_evasion_mono<E: Evaluator>(e: E, b: BoardView, ms: Seq<Move>, i: nat, j: nat)
    requires
        i <= j <= ms.len(),
    ensures
        best_evasion(e, b, ms, i) <= best_evasion(e, b, ms, j),
    decreases j - i,
{
    if i < j {
        lemma_best_evasion_mono(e, b, ms, i, (j - 1) as nat);
    }
}

proof fn lemma_horizon_unfold<E: Evaluator>(e: E, b: BoardView)
    ensures
        horizon_value(e, b) == quiesce_value(e, b, (i32::MIN / 2) as int, (i32::MAX / 2) as int, QUIESCE_DEPTH as nat),
{
    reveal(horizon_value);
}

/// The negated horizon value of the position after a legal move; the board is left as it was.
fn evasion_score_for_move<E: Evaluator>(board: &mut Board, evaluator: &E, mv: Move, nodes: &mut u64) -> (r: i32)
    requires
        position_ok(old(board)@),
        gen_ok(old(board)@, mv),
    ensures
        final(board)@ == old(board)@,
        negatable(r),
        r == -horizon_value(*evaluator, board_after(old(board)@, mv)),
{
    proof {
        lemma_gen_ok_facts(board@, mv);
        lemma_horizon_unfold(*evaluator, board_after(board@, mv));
    }
    match board.make_move(mv) {
        Ok(undo) => {
            let score = -quiesce_mm(board, evaluator, nodes, QUIESCE_DEPTH);
            board.unmake_move(mv, undo);
            score
        },
        Err(_) => 0,
    }
}

/// In check at the horizon: the best of the legal moves, each scored by quiescence one ply
/// further; the board is left as it was.
fn best_evasion_score<E: Evaluator>(board: &mut Board, evaluator: &E, moves: &Vec<Move>, nodes: &mut u64) -> (r: i32)
    requires
        position_ok(old(board)@),
        all_gen_ok(old(board)@, moves@),
        moves@.len() > 0,
    ensures
        final(board)@ == old(board)@,
        negatable(r),
        r == best_evasion(*evaluator, old(board)@, moves@, moves@.len()),
{
    let ghost b = board@;
    let mut best = i32::MIN;
    let mut i: usize = 0;
    while i < moves.len()
        invariant
            board@ == b,
            position_ok(b),
            all_gen_ok(b, moves@),
            moves@.len() > 0,
            i <= moves.len(),
            i > 0 ==> negatable(best),
            best == best_evasion(*evaluator, b, moves@, i as nat),
        decreases moves.len() - i,
    {
        assert(gen_ok(b, moves@[i as int]));
        let score = evasion_score_for_move(board, evaluator, moves[i], nodes);
        if score > best {
            best = score;
        }
        i += 1;
    }
    best
}

/// The score of one legal move: the negated best reply; the board is left as it was.
fn collapsed_score_for_move<E: Evaluator>(board: &mut Board, evaluator: &E, depth: u32, mv: Move, nodes: &mut u64) -> (r: i32)
    requires
        position_ok(old(board)@),
        gen_ok(old(board)@, mv),
        depth < MAX_DEPTH,
    ensures
        final(board)@ == old(board)@,
        negatable(r),
        r == -negamax_value(*evaluator, board_after(old(board)@, mv), depth as nat),
    decreases depth + 1, 0int,
{
    proof {
        lemma_gen_ok_facts(board@, mv);
    }
    match board.make_move(mv) {
        Ok(undo) => {
            let score = -collapse_opponent_replies(board, evaluator, depth, nodes);
            board.unmake_move(mv, undo);
            score
        },
        Err(_) => 0,
    }
}

pub proof fn lemma_best_child_bounds<E: Evaluator>(e: E, b: BoardView, ms: Seq<Move>, d: nat, n: nat)
    requires
        n <= ms.len(),
    ensures
        forall|k: int| 0 <= k < n ==> -negamax_value(e, board_after(b, #[trigger] ms[k]), d) <= best_child(e, b, ms, d, n),
    decreases n,
{
    if n > 0 {
        lemma_best_child_bounds(e, b, ms, d, (n - 1) as nat);
    }
}

proof fn lemma_ties_above<E: Evaluator>(e: E, b: BoardView, ms: Seq<Move>, d: nat, x: int, n: nat)
    requires
        n <= ms.len(),
        x > best_child(e, b, ms, d, n),
    ensures
        ties(e, b, ms, d, x, n) == Seq::<Move>::empty(),
    decreases n,
{
    if n > 0 {
        lemma_best_child_bounds(e, b, ms, d, n);
        assert(best_child(e, b, ms, d, n) >= best_child(e, b, ms, d, (n - 1) as nat));
        lemma_ties_above(e, b, ms, d, x, (n - 1) as nat);
        assert(-negamax_value(e, board_after(b, ms[n - 1]), d) <= best_child(e, b, ms, d, n));
    }
}

/// The minimax root result: without legal moves, no move and the static evaluation; otherwise
/// the largest negated child value and every legal move reaching it, in generation order.
pub open spec fn minimax_result<E: Evaluator>(e: E, b: BoardView, depth: u32, r: SearchResult) -> bool {
    let ms = legal_moves(b);
    let d = if depth == 0 { 0nat } else { (depth - 1) as nat };
    if ms.len() == 0 {
        r.score == e.score_of(b)
    } else {
        &&& r.score == best_child(e, b, ms, d, ms.len())
        &&& r.best_moves@ == ties(e, b, ms, d, r.score as int, ms.len())
    }
}

impl MinimaxSearch {
    /// The root search: the largest negated child value over the legal moves, and every legal
    /// move that reaches it, in generation order. Without legal moves: no move, and the static
    /// evaluation.
    pub fn search_all<E: Evaluator>(&mut self, board: &mut Board, evaluator: &E, depth: u32) -> (r: SearchResult)
        requires
            position_ok(old(board)@),
            depth <= MAX_DEPTH,
        ensures
            final(board)@ == old(board)@,
            result_sound(old(board)@, r),
            minimax_result(*evaluator, old(board)@, depth, r),
    {
        let ghost b = board@;
        let mut nodes: u64 = 0;
        let moves = generate_legal(board);
        if moves.len() == 0 {
            return SearchResult { best_moves: Vec::new(), score: evaluator.evaluate(board), nodes };
        }
        let child_depth = if depth == 0 { 0 } else { depth - 1 };
        let mut best_score = i32::MIN;
        let mut best_moves: Vec<Move> = Vec::new();
        let mut i: usize = 0;
        while i < moves.len()
            invariant
                board@ == b,
                position_ok(b),
                moves@ == legal_moves(b),
                all_gen_ok(b, moves@),
                i <= moves.len(),
                child_depth < MAX_DEPTH,
                i > 0 ==> best_moves@.len() > 0,
                i == 0 ==> best_score == i32::MIN,
                forall|k: int| 0 <= k < best_moves@.len() ==> moves@.contains(#[trigger] best_moves@[k]),
                forall|k: int| 0 <= k < best_moves@.len() ==> gen_ok(b, #[trigger] best_moves@[k]),
                child_depth as nat == (if depth == 0 { 0nat } else { (depth - 1) as nat }),
                best_score == best_child(*evaluator, b, moves@, child_depth as nat, i as nat),
                best_moves@ == ties(*evaluator, b, moves@, child_depth as nat, best_score as int, i as nat),
            decreases moves.len() - i,
        {
            let mv = moves[i];
            assert(gen_ok(b, moves@[i as int]));
            let score = collapsed_score_for_move(board, evaluator, child_depth, mv, &mut nodes);
            assert(moves@.contains(mv)) by {
                assert(moves@[i as int] == mv);
            }
            if score > best_score {
                proof {
                    lemma_ties_above(*evaluator, b, moves@, child_depth as nat, score as int, i as nat);
                }
                best_score = score;
                best_moves = Vec::new();
                best_moves.push(mv);
                assert(best_moves@ =~= ties(*evaluator, b, moves@, child_depth as nat, best_score as int, (i + 1) as nat));
            } else if score == best_score {
                best_moves.push(mv);
                assert(best_moves@ =~= ties(*evaluator, b, moves@, child_depth as nat, best_score as int, (i + 1) as nat));
            } else {
                assert(best_moves@ =~= ties(*evaluator, b, moves@, child_depth as nat, best_score as int, (i + 1) as nat));
            }
            i += 1;
        }
        SearchResult { best_moves, score: best_score, nodes }
    }
}

impl<E: Evaluator> SearchAlgorithm<E> for MinimaxSearch {
    open spec fn ready(&self) -> bool {
        true
    }

    open spec fn result_ok(&self, e: E, b: BoardView, depth: u32, r: SearchResult) -> bool {
        minimax_result(e, b, depth, r)
    }

    fn search(&mut self, board: &mut Board, evaluator: &E, depth: u32) -> (r: SearchResult) {
        self.search_all(board, evaluator, depth)
    }

    fn search_with_root_ordering(
        &mut self,
        board: &mut Board,
        evaluator: &E,
        depth: u32,
        preferred_root: Option<&[Move]>,
    ) -> (r: SearchResult) {
        self.search_all(board, evaluator, depth)
    }
}

} // verus!
