use vstd::prelude::*;
use crate::board::Board;
use crate::eval::Evaluator;
use crate::movegen::{
    all_gen_ok, gen_ok, generate_legal, is_king_in_check, legal_moves, lemma_gen_ok_facts,
    position_ok,
};
use crate::quiescence::quiesce_ab;
use crate::search::{negatable, result_sound, SearchAlgorithm, SearchResult, MATE_SCORE, MAX_DEPTH, QUIESCE_DEPTH};
use crate::tt::{slot_of, Bound, TTEntry, TranspositionTable};
use crate::board::BoardView;
use crate::movegen::in_check;
use crate::search_laws::{
    fail_soft, lemma_horizon_exact, lemma_quiesce_fail_soft, lemma_window_end, lemma_window_step, quiet_value,
    window_state,
};
use crate::minimax::{
    best_child, best_evasion, horizon_value, lemma_best_evasion_mono, lemma_negamax0_bounded, negamax_value, ties,
};
use crate::apply_move::board_after;
use crate::types::Move;

verus! {

/// Number of transposition-table slots.
pub const TT_SIZE: usize = 1_048_576;

/// Negamax with alpha-beta pruning, a transposition table, and principal-variation search
/// at the root.
pub struct AlphaBetaSearch {
    tt: TranspositionTable,
}

pub fn contains_move(list: &[Move], mv: Move) -> (r: bool)
    ensures
        r == list@.contains(mv),
{
    let mut i: usize = 0;
    while i < list.len()
        invariant
            i <= list.len(),
            forall|k: int| 0 <= k < i ==> list@[k] != mv,
        decreases list.len() - i,
    {
        if list[i] == mv {
            assert(list@[i as int] == mv);
            return true;
        }
        i += 1;
    }
    false
}

proof fn lemma_push_keeps(s: Seq<Move>, y: Move)
    requires
        s.no_duplicates(),
        !s.contains(y),
    ensures
        forall|x: Move| s.contains(x) ==> #[trigger] s.push(y).contains(x),
        s.push(y).contains(y),
        s.push(y).no_duplicates(),
{
    assert forall|x: Move| s.contains(x) implies #[trigger] s.push(y).contains(x) by {
        let w = choose|w: int| 0 <= w < s.len() && s[w] == x;
        assert(s.push(y)[w] == x);
    }
    assert(s.push(y)[s.len() as int] == y);
}

/// Appends to `acc`, in order, each of the first `n` moves of `s` that is in `pool` and not
/// already in the result.
pub open spec fn append_new(acc: Seq<Move>, s: Seq<Move>, pool: Seq<Move>, n: nat) -> Seq<Move>
    decreases n,
{
    if n == 0 || n > s.len() {
        acc
    } else {
        let a = append_new(acc, s, pool, (n - 1) as nat);
        if pool.contains(s[n - 1]) && !a.contains(s[n - 1]) {
            a.push(s[n - 1])
        } else {
            a
        }
    }
}

/// The search order: the table's move if it is a listed move, then the preferred moves in
/// their order, then the remaining moves in their order.
pub open spec fn ordered_moves(moves: Seq<Move>, primary: Option<Move>, preferred: Seq<Move>) -> Seq<Move> {
    let first = match primary {
        Some(p) => if moves.contains(p) {
            seq![p]
        } else {
            Seq::empty()
        },
        None => Seq::empty(),
    };
    append_new(append_new(first, preferred, moves, preferred.len()), moves, moves, moves.len())
}

pub open spec fn preferred_seq(preferred: Option<&[Move]>) -> Seq<Move> {
    match preferred {
        Some(p) => p@,
        None => Seq::empty(),
    }
}

/// Orders moves for search: the table's move first, then the preferred moves in their order,
/// then the rest in their order; only moves of the list appear, each once.
pub fn reorder_moves(moves: &[Move], primary: Option<Move>, preferred: Option<&[Move]>) -> (r: Vec<Move>)
    ensures
        forall|i: int| 0 <= i < r@.len() ==> moves@.contains(#[trigger] r@[i]),
        forall|i: int| 0 <= i < moves@.len() ==> r@.contains(#[trigger] moves@[i]),
        r@.no_duplicates(),
        primary is Some && moves@.contains(primary.unwrap()) ==> r@.len() > 0 && r@[0] == primary.unwrap(),
        r@ == ordered_moves(moves@, primary, preferred_seq(preferred)),
{
    let mut ordered: Vec<Move> = Vec::new();
    if let Some(p) = primary {
        if contains_move(moves, p) {
            ordered.push(p);
        }
    }
    let ghost first = ordered@;
    assert(first == match primary {
        Some(p) => if moves@.contains(p) {
            seq![p]
        } else {
            Seq::<Move>::empty()
        },
        None => Seq::<Move>::empty(),
    }) by {
        if let Some(p) = primary {
            if moves@.contains(p) {
                assert(first =~= seq![p]);
            }
        }
    }
    if let Some(pref) = preferred {
        let mut i: usize = 0;
        while i < pref.len()
            invariant
                i <= pref.len(),
                ordered@ == append_new(first, pref@, moves@, i as nat),
                forall|k: int| 0 <= k < ordered@.len() ==> moves@.contains(#[trigger] ordered@[k]),
                ordered@.no_duplicates(),
                ordered@.len() >= first.len(),
                first.len() > 0 ==> ordered@[0] == first[0],
            decreases pref.len() - i,
        {
            let mv = pref[i];
            if contains_move(moves, mv) && !contains_move(ordered.as_slice(), mv) {
                proof {
                    lemma_push_keeps(ordered@, mv);
                }
                ordered.push(mv);
            }
            i += 1;
        }
    }
    let ghost mid = ordered@;
    assert(mid == append_new(first, preferred_seq(preferred), moves@, preferred_seq(preferred).len()));
    let mut j: usize = 0;
    while j < moves.len()
        invariant
            j <= moves.len(),
            ordered@ == append_new(mid, moves@, moves@, j as nat),
            forall|k: int| 0 <= k < ordered@.len() ==> moves@.contains(#[trigger] ordered@[k]),
            forall|k: int| 0 <= k < j ==> ordered@.contains(#[trigger] moves@[k]),
            ordered@.no_duplicates(),
            ordered@.len() >= first.len(),
            first.len() > 0 ==> ordered@[0] == first[0],
        decreases moves.len() - j,
    {
        let mv = moves[j];
        assert(moves@.contains(mv)) by {
            assert(moves@[j as int] == mv);
        }
        if !contains_move(ordered.as_slice(), mv) {
            proof {
                lemma_push_keeps(ordered@, mv);
            }
            ordered.push(mv);
        }
        j += 1;
    }
    ordered
}

/// A member of a list of generated moves is a generated move.
proof fn lemma_member_gen_ok(b: crate::board::BoardView, s: Seq<Move>, x: Move)
    requires
        all_gen_ok(b, s),
        s.contains(x),
    ensures
        gen_ok(b, x),
{
    let k = choose|k: int| 0 <= k < s.len() && s[k] == x;
    assert(gen_ok(b, s[k]));
}

/// The window test of a stored entry: exact, or a bound that already decides the window.
pub open spec fn entry_decides(e: TTEntry, alpha: i32, beta: i32) -> bool {
    match e.bound {
        Bound::Exact => true,
        Bound::Lower => e.score >= beta,
        Bound::Upper => e.score <= alpha,
    }
}

/// The bound that a result carries with respect to the window it was searched in.
pub open spec fn bound_of(best: i32, alpha_orig: i32, beta: i32) -> Bound {
    if best <= alpha_orig {
        Bound::Upper
    } else if best >= beta {
        Bound::Lower
    } else {
        Bound::Exact
    }
}

fn bound_for(best: i32, alpha_orig: i32, beta: i32) -> (r: Bound)
    ensures
        r == bound_of(best, alpha_orig, beta),
{
    if best <= alpha_orig {
        Bound::Upper
    } else if best >= beta {
        Bound::Lower
    } else {
        Bound::Exact
    }
}

fn tt_move(tt: &TranspositionTable, key: u64) -> (r: Option<Move>)
    requires
        tt.wf(),
    ensures
        table_empty(*tt) ==> r is None,
{
    proof {
        tt.lemma_slot_in_range(key);
    }
    match tt.probe(key) {
        Some(entry) => entry.best_move,
        None => None,
    }
}

/// One evasion at the horizon: the negated quiescence score of the position after it, in the
/// negated window; the board is left as it was.
fn evasion_in_window<E: Evaluator>(board: &mut Board, evaluator: &E, mv: Move, alpha: i32, beta: i32, nodes: &mut u64) -> (r: i32)
    requires
        position_ok(old(board)@),
        gen_ok(old(board)@, mv),
        negatable(alpha),
        negatable(beta),
    ensures
        final(board)@ == old(board)@,
        negatable(r),
        alpha < beta ==> fail_soft(
            -(r as int),
            -(beta as int),
            -(alpha as int),
            horizon_value(*evaluator, board_after(old(board)@, mv)),
        ),
{
    proof {
        lemma_gen_ok_facts(board@, mv);
        lemma_horizon_exact(*evaluator, board_after(board@, mv));
        if alpha < beta {
            lemma_quiesce_fail_soft(*evaluator, board_after(board@, mv), -(beta as int), -(alpha as int), QUIESCE_DEPTH as nat);
        }
    }
    match board.make_move(mv) {
        Ok(undo) => {
            let score = -quiesce_ab(board, evaluator, -beta, -alpha, nodes, QUIESCE_DEPTH);
            board.unmake_move(mv, undo);
            score
        },
        Err(_) => 0,
    }
}

/// In check at the horizon: the evasions are searched one ply further by quiescence, with
/// alpha-beta pruning; the board is left as it was.
#[verifier::spinoff_prover]
#[verifier::rlimit(100)]
fn evasions_in_window<E: Evaluator>(board: &mut Board, evaluator: &E, moves: &Vec<Move>, alpha: i32, beta: i32, nodes: &mut u64) -> (r: i32)
    requires
        position_ok(old(board)@),
        all_gen_ok(old(board)@, moves@),
        moves@.len() > 0,
        negatable(alpha),
        negatable(beta),
    ensures
        final(board)@ == old(board)@,
        negatable(r),
        alpha < beta ==> fail_soft(r as int, alpha as int, beta as int, best_evasion(*evaluator, old(board)@, moves@, moves@.len())),
{
    let ghost b = board@;
    let ghost alpha0 = alpha;
    let ghost e = *evaluator;
    let mut alpha = alpha;
    let mut best = i32::MIN;
    let mut i: usize = 0;
    while i < moves.len()
        invariant_except_break
            alpha0 < beta ==> best < beta && window_state(alpha0 as int, alpha as int, best as int, best_evasion(e, b, moves@, i as nat)),
        invariant
            board@ == b,
            position_ok(b),
            all_gen_ok(b, moves@),
            moves@.len() > 0,
            i <= moves.len(),
            negatable(alpha),
            negatable(beta),
            negatable(alpha0),
            e == *evaluator,
            i > 0 ==> negatable(best),
            i == 0 ==> best == i32::MIN && alpha == alpha0,
        ensures
            negatable(best),
            alpha0 < beta ==> fail_soft(best as int, alpha0 as int, beta as int, best_evasion(e, b, moves@, moves@.len())),
        decreases moves.len() - i,
    {
        assert(gen_ok(b, moves@[i as int]));
        let mv = moves[i];
        let score = evasion_in_window(board, evaluator, mv, alpha, beta, nodes);
        proof {
            if alpha0 < beta {
                lemma_window_step(alpha0 as int, beta as int, alpha as int, best as int,
                    best_evasion(e, b, moves@, i as nat), score as int, -horizon_value(e, board_after(b, mv)));
            }
        }
        if score > best {
            best = score;
        }
        if score > alpha {
            alpha = score;
        }
        i += 1;
        if alpha >= beta {
            proof {
                if alpha0 < beta {
                    lemma_best_evasion_mono(e, b, moves@, i as nat, moves@.len());
                }
            }
            break;
        }
    }
    best
}

/// Every slot of the table is empty.
pub open spec fn table_empty(t: TranspositionTable) -> bool {
    forall|i: int| 0 <= i < t.view().len() ==> t.view()[i] is None
}

/// Makes a move, searches the position after it one ply shallower in the negated window, and
/// takes the move back.
fn child_score<E: Evaluator>(
    search: &mut AlphaBetaSearch,
    board: &mut Board,
    evaluator: &E,
    mv: Move,
    depth: u32,
    alpha: i32,
    beta: i32,
    nodes: &mut u64,
) -> (r: i32)
    requires
        old(search).tt.wf(),
        position_ok(old(board)@),
        gen_ok(old(board)@, mv),
        0 < depth <= MAX_DEPTH,
        negatable(alpha),
        negatable(beta),
    ensures
        final(search).tt.wf(),
        final(board)@ == old(board)@,
        negatable(r),
        depth == 1 ==> *final(search) == *old(search),
        depth == 1 && table_empty(old(search).tt) && alpha < beta ==> fail_soft(
            -(r as int),
            -(beta as int),
            -(alpha as int),
            negamax_value(*evaluator, board_after(old(board)@, mv), 0),
        ),
    decreases depth, 0int,
{
    proof {
        lemma_gen_ok_facts(board@, mv);
    }
    match board.make_move(mv) {
        Ok(undo) => {
            proof {
                search.tt.lemma_slot_in_range(board@.hash);
            }
            let score = -alphabeta(search, board, evaluator, depth - 1, -beta, -alpha, nodes);
            board.unmake_move(mv, undo);
            score
        },
        Err(_) => 0,
    }
}

/// The table holds an entry for this key that is deep enough and whose bound decides the
/// window, so the search returns its score at once.
pub open spec fn answers(t: TranspositionTable, key: u64, depth: u32, alpha: i32, beta: i32) -> bool {
    match t.view()[slot_of(key, t.spec_mask())] {
        Some(e) => e.key == key && e.depth >= depth && e.score > i32::MIN && entry_decides(e, alpha, beta),
        None => false,
    }
}

/// What a node's score is when the table does not answer for it: mate scores that favour quicker
/// mates, zero for stalemate below the horizon, and at the horizon out of check a fail-soft
/// quiescence score.
pub open spec fn node_scores<E: Evaluator>(e: E, b: BoardView, depth: u32, alpha: i32, beta: i32, r: i32) -> bool {
    let side = b.side_to_move;
    &&& (legal_moves(b).len() == 0 && in_check(b, side) ==> r == -(MATE_SCORE + depth))
    &&& (legal_moves(b).len() == 0 && !in_check(b, side) && depth > 0 ==> r == 0)
    &&& (depth == 0 && !in_check(b, side) && alpha < beta ==> fail_soft(
        r as int,
        alpha as int,
        beta as int,
        quiet_value(e, b, QUIESCE_DEPTH as nat),
    ))
}

/// Alpha-beta negamax below the root; the board is left as it was.
fn alphabeta<E: Evaluator>(
    search: &mut AlphaBetaSearch,
    board: &mut Board,
    evaluator: &E,
    depth: u32,
    alpha: i32,
    beta: i32,
    nodes: &mut u64,
) -> (r: i32)
    requires
        old(search).tt.wf(),
        position_ok(old(board)@),
        depth <= MAX_DEPTH,
        negatable(alpha),
        negatable(beta),
    ensures
        final(search).tt.wf(),
        final(board)@ == old(board)@,
        negatable(r),
        !answers(old(search).tt, old(board)@.hash, depth, alpha, beta) ==> node_scores(*evaluator, old(board)@, depth, alpha, beta, r),
        !answers(old(search).tt, old(board)@.hash, depth, alpha, beta) && depth == 0 && alpha < beta ==> fail_soft(
            r as int,
            alpha as int,
            beta as int,
            negamax_value(*evaluator, old(board)@, 0),
        ),
        depth == 0 ==> *final(search) == *old(search),
        table_empty(old(search).tt) && depth == 1 && alpha < beta ==> fail_soft(
            r as int,
            alpha as int,
            beta as int,
            negamax_value(*evaluator, old(board)@, 1),
        ),
    decreases depth, 1int,
{
    proof {
        old(search).tt.lemma_slot_in_range(old(board)@.hash);
    }
    let mut alpha = alpha;
    *nodes = nodes.saturating_add(1);
    let alpha_orig = alpha;
    let key = board.hash();
    if let Some(entry) = search.tt.probe(key) {
        if entry.depth >= depth && entry.score > i32::MIN {
            match entry.bound {
                Bound::Exact => return entry.score,
                Bound::Lower => if entry.score >= beta {
                    return entry.score;
                },
                Bound::Upper => if entry.score <= alpha {
                    return entry.score;
                },
            }
        }
    }
    let side = board.side_to_move;
    if depth == 0 {
        if !is_king_in_check(board, side) {
            let q = quiesce_ab(board, evaluator, alpha, beta, nodes, QUIESCE_DEPTH);
            proof {
                if alpha < beta {
                    crate::search_laws::lemma_quiesce_fail_soft(*evaluator, board@, alpha as int, beta as int, QUIESCE_DEPTH as nat);
                    lemma_horizon_exact(*evaluator, board@);
                }
            }
            return q;
        }
        let moves = generate_legal(board);
        if moves.len() == 0 {
            return -MATE_SCORE - depth as i32;
        }
        return evasions_in_window(board, evaluator, &moves, alpha, beta, nodes);
    }
    let ghost b = board@;
    let legal = generate_legal(board);
    if legal.len() == 0 {
        if is_king_in_check(board, side) {
            return -MATE_SCORE - depth as i32;
        }
        return 0;
    }
    let ghost legal_v = legal@;
    let ghost search0 = *search;
    let ghost e = *evaluator;
    let ghost full = depth == 1 && table_empty(search.tt) && alpha_orig < beta;
    let tt_best = tt_move(&search.tt, key);
    let moves = match tt_best {
        Some(_) => reorder_moves(legal.as_slice(), tt_best, None),
        None => legal,
    };
    assert(moves@.contains(legal_v[0]));
    let mut best = i32::MIN;
    let mut best_move: Option<Move> = None;
    let mut i: usize = 0;
    while i < moves.len()
        invariant_except_break
            full ==> best < beta && window_state(alpha_orig as int, alpha as int, best as int, best_child(e, b, legal_v, 0, i as nat)),
        invariant
            search.tt.wf(),
            board@ == b,
            position_ok(b),
            legal_v == legal_moves(b),
            all_gen_ok(b, legal_v),
            forall|k: int| 0 <= k < moves@.len() ==> legal_v.contains(#[trigger] moves@[k]),
            moves@.len() > 0,
            i <= moves.len(),
            0 < depth <= MAX_DEPTH,
            negatable(alpha),
            negatable(beta),
            negatable(alpha_orig),
            e == *evaluator,
            i > 0 ==> negatable(best),
            i == 0 ==> best == i32::MIN && alpha == alpha_orig,
            full ==> *search == search0 && moves@ == legal_v,
            full == (depth == 1 && table_empty(search0.tt) && alpha_orig < beta),
        ensures
            negatable(best),
            full ==> *search == search0,
            full ==> fail_soft(best as int, alpha_orig as int, beta as int, best_child(e, b, legal_v, 0, legal_v.len())),
        decreases moves.len() - i,
    {
        let mv = moves[i];
        proof {
            assert(legal_v.contains(moves@[i as int]));
            lemma_member_gen_ok(b, legal_v, mv);
        }
        let score = child_score(search, board, evaluator, mv, depth, alpha, beta, nodes);
        proof {
            if full {
                lemma_window_step(alpha_orig as int, beta as int, alpha as int, best as int,
                    best_child(e, b, legal_v, 0, i as nat), score as int, -negamax_value(e, board_after(b, mv), 0));
            }
        }
        if score > best {
            best = score;
            best_move = Some(mv);
        }
        if score > alpha {
            alpha = score;
        }
        i += 1;
        if alpha >= beta {
            proof {
                if full {
                    crate::minimax::lemma_best_child_mono(e, b, legal_v, 0, i as nat, legal_v.len());
                }
            }
            break;
        }
    }
    let bound = bound_for(best, alpha_orig, beta);
    search.tt.store(TTEntry { key, depth, score: best, bound, best_move });
    best
}

impl AlphaBetaSearch {
    /// The transposition table is well formed.
    pub closed spec fn table_ok(&self) -> bool {
        self.tt.wf()
    }

    /// No search has stored anything yet.
    pub closed spec fn fresh(&self) -> bool {
        table_empty(self.tt)
    }

    pub fn new() -> (r: Self)
        ensures
            r.table_ok(),
            r.fresh(),
    {
        AlphaBetaSearch { tt: TranspositionTable::new(TT_SIZE) }
    }

    /// Searches one root move: the first with the full window, the others with a null window
    /// first and the full window only when they might improve on `alpha`. Returns the score
    /// and whether it came from a full-window search.
    fn probe_root_move<E: Evaluator>(
        &mut self,
        board: &mut Board,
        evaluator: &E,
        child_depth: u32,
        alpha: i32,
        beta: i32,
        first_move: bool,
        nodes: &mut u64,
    ) -> (r: (i32, bool))
        requires
            old(self).tt.wf(),
            position_ok(old(board)@),
            child_depth <= MAX_DEPTH,
            negatable(alpha),
            negatable(beta),
        ensures
            final(self).tt.wf(),
            final(board)@ == old(board)@,
            negatable(r.0),
            first_move ==> r.1,
            child_depth == 0 && table_empty(old(self).tt) ==> *final(self) == *old(self),
            child_depth == 0 && table_empty(old(self).tt) && beta == i32::MAX ==> ({
                let v = -negamax_value(*evaluator, old(board)@, 0);
                &&& (first_move && alpha < -crate::eval::EVAL_LIMIT ==> r.0 == v)
                &&& (!first_move && -crate::eval::EVAL_LIMIT <= alpha <= crate::eval::EVAL_LIMIT ==> (r.1
                    ==> r.0 == v && v > alpha) && (!r.1 ==> v <= alpha))
            }),
    {
        proof {
            old(self).tt.lemma_slot_in_range(old(board)@.hash);
            lemma_negamax0_bounded(*evaluator, old(board)@);
        }
        if first_move {
            let score = -alphabeta(self, board, evaluator, child_depth, -beta, -alpha, nodes);
            return (score, true);
        }
        let null_beta = if alpha == i32::MAX { alpha } else { alpha + 1 };
        let score = -alphabeta(self, board, evaluator, child_depth, -null_beta, -alpha, nodes);
        if score > alpha {
            let full = -alphabeta(self, board, evaluator, child_depth, -beta, -alpha, nodes);
            return (full, true);
        }
        (score, false)
    }

    /// Makes a root move, scores it, and takes it back.
    fn score_root_move<E: Evaluator>(
        &mut self,
        board: &mut Board,
        evaluator: &E,
        mv: Move,
        child_depth: u32,
        alpha: i32,
        beta: i32,
        first_move: bool,
        nodes: &mut u64,
    ) -> (r: (i32, bool))
        requires
            old(self).tt.wf(),
            position_ok(old(board)@),
            gen_ok(old(board)@, mv),
            child_depth <= MAX_DEPTH,
            negatable(alpha),
            negatable(beta),
        ensures
            final(self).tt.wf(),
            final(board)@ == old(board)@,
            negatable(r.0),
            first_move ==> r.1,
            child_depth == 0 && table_empty(old(self).tt) ==> *final(self) == *old(self),
            -crate::eval::EVAL_LIMIT <= root_value(*evaluator, old(board)@, mv) <= crate::eval::EVAL_LIMIT,
            child_depth == 0 && table_empty(old(self).tt) && beta == i32::MAX ==> ({
                let v = root_value(*evaluator, old(board)@, mv);
                &&& (first_move && alpha < -crate::eval::EVAL_LIMIT ==> r.0 == v)
                &&& (!first_move && -crate::eval::EVAL_LIMIT <= alpha <= crate::eval::EVAL_LIMIT ==> (r.1
                    ==> r.0 == v && v > alpha) && (!r.1 ==> v <= alpha))
            }),
    {
        proof {
            lemma_gen_ok_facts(board@, mv);
            reveal(root_value);
            lemma_negamax0_bounded(*evaluator, board_after(board@, mv));
        }
        match board.make_move(mv) {
            Ok(undo) => {
                let r = self.probe_root_move(board, evaluator, child_depth, alpha, beta, first_move, nodes);
                board.unmake_move(mv, undo);
                r
            },
            Err(_) => (0, true),
        }
    }

    fn search_root<E: Evaluator>(
        &mut self,
        board: &mut Board,
        evaluator: &E,
        depth: u32,
        preferred_root: Option<&[Move]>,
    ) -> (r: SearchResult)
        requires
            old(self).tt.wf(),
            position_ok(old(board)@),
            depth <= MAX_DEPTH,
        ensures
            final(self).tt.wf(),
            final(board)@ == old(board)@,
            result_sound(old(board)@, r),
            alphabeta_result(*evaluator, old(board)@, r),
            old(self).fresh() && depth == 1 ==> fresh_root_result(*evaluator, old(board)@, r),
    {
        let ghost b = board@;
        let ghost self0 = *self;
        let ghost e = *evaluator;
        let ghost full = table_empty(self.tt) && depth == 1;
        let mut nodes: u64 = 0;
        let mut best_moves: Vec<Move> = Vec::new();
        let mut best_score = i32::MIN;
        let mut alpha = i32::MIN + 1;
        let beta = i32::MAX;
        let alpha_orig = alpha;
        let legal = generate_legal(board);
        let key = board.hash();
        let tt_best = tt_move(&self.tt, key);
        let moves = reorder_moves(legal.as_slice(), tt_best, preferred_root);
        if moves.len() == 0 {
            proof {
                if legal@.len() > 0 {
                    assert(moves@.contains(legal@[0]));
                }
            }
            return SearchResult { best_moves: Vec::new(), score: evaluator.evaluate(board), nodes };
        }
        let child_depth = if depth == 0 { 0 } else { depth - 1 };
        let mut first_move = true;
        let mut i: usize = 0;
        while i < moves.len()
            invariant
                self.tt.wf(),
                board@ == b,
                position_ok(b),
                legal@ == legal_moves(b),
                all_gen_ok(b, legal@),
                forall|k: int| 0 <= k < moves@.len() ==> legal@.contains(#[trigger] moves@[k]),
                forall|k: int| 0 <= k < legal@.len() ==> moves@.contains(#[trigger] legal@[k]),
                moves@.len() > 0,
                i <= moves.len(),
                child_depth < MAX_DEPTH,
                negatable(alpha),
                beta == i32::MAX,
                first_move <==> i == 0,
                i == 0 ==> alpha == i32::MIN + 1,
                i > 0 ==> best_moves@.len() > 0 && negatable(best_score),
                i == 0 ==> best_score == i32::MIN,
                forall|k: int| 0 <= k < best_moves@.len() ==> legal@.contains(#[trigger] best_moves@[k]),
                forall|k: int| 0 <= k < best_moves@.len() ==> gen_ok(b, #[trigger] best_moves@[k]),
                forall|k: int| 0 <= k < best_moves@.len() ==> in_prefix(moves@, i as int, #[trigger] best_moves@[k]),
                best_moves@.no_duplicates(),
                moves@.no_duplicates(),
                e == *evaluator,
                full == (table_empty(self0.tt) && depth == 1),
                full ==> *self == self0 && child_depth == 0,
                full && i > 0 ==> alpha == best_score && -crate::eval::EVAL_LIMIT <= best_score <= crate::eval::EVAL_LIMIT,
                full ==> forall|j: int| 0 <= j < i ==> root_value(e, b, #[trigger] moves@[j]) <= best_score,
                full ==> forall|k: int| 0 <= k < best_moves@.len() ==> root_value(e, b, #[trigger] best_moves@[k]) == best_score,
            decreases moves.len() - i,
        {
            let mv = moves[i];
            proof {
                assert(legal@.contains(moves@[i as int]));
                lemma_member_gen_ok(b, legal@, mv);
                assert forall|k: int| 0 <= k < best_moves@.len() implies best_moves@[k] != mv by {
                    assert(in_prefix(moves@, i as int, best_moves@[k]));
                    let j = choose|j: int| 0 <= j < i && moves@[j] == best_moves@[k];
                    assert(moves@[j] != moves@[i as int]);
                }
                assert forall|k: int| 0 <= k < best_moves@.len() implies in_prefix(moves@, i + 1, #[trigger] best_moves@[k]) by {
                    assert(in_prefix(moves@, i as int, best_moves@[k]));
                }
                assert(in_prefix(moves@, i + 1, mv)) by {
                    assert(moves@[i as int] == mv);
                }
            }
            let ghost old_best = best_score;
            let ghost v = root_value(e, b, mv);
            let (score, exact) = self.score_root_move(board, evaluator, mv, child_depth, alpha, beta, first_move, &mut nodes);
            proof {
                if full {
                    assert(moves@[i as int] == mv);
                    if i == 0 {
                        assert(score == v);
                    } else {
                        assert(exact ==> score == v && v > old_best);
                        assert(!exact ==> v <= old_best);
                    }
                }
            }
            first_move = false;
            if exact {
                if score > best_score {
                    best_score = score;
                    best_moves = Vec::new();
                    best_moves.push(mv);
                } else if score == best_score {
                    best_moves.push(mv);
                }
                if score > alpha {
                    alpha = score;
                }
            }
            proof {
                if full {
                    assert(v <= best_score);
                    assert forall|j: int| 0 <= j < i + 1 implies root_value(e, b, #[trigger] moves@[j]) <= best_score by {
                        if j < i {
                            assert(root_value(e, b, moves@[j]) <= old_best);
                        } else {
                            assert(moves@[j] == mv);
                        }
                    }
                }
            }
            i += 1;
        }
        proof {
            reveal(root_value);
            if full {
                let lm = legal@;
                assert forall|k: int| 0 <= k < lm.len() implies -negamax_value(e, board_after(b, #[trigger] lm[k]), 0)
                    <= best_score by {
                    assert(moves@.contains(lm[k]));
                    let j = choose|j: int| 0 <= j < moves@.len() && moves@[j] == lm[k];
                    assert(root_value(e, b, moves@[j]) <= best_score);
                }
                crate::minimax::lemma_best_child_le(e, b, lm, 0, lm.len(), best_score as int);
                let m0 = best_moves@[0];
                assert(lm.contains(m0));
                let k0 = choose|k: int| 0 <= k < lm.len() && lm[k] == m0;
                assert(root_value(e, b, m0) == best_score);
                crate::minimax::lemma_best_child_bounds(e, b, lm, 0, lm.len());
                assert(-negamax_value(e, board_after(b, lm[k0]), 0) <= best_child(e, b, lm, 0, lm.len()));
                assert forall|k: int| 0 <= k < best_moves@.len() implies ties(e, b, lm, 0, best_score as int, lm.len()).contains(
                    #[trigger] best_moves@[k],
                ) by {
                    assert(lm.contains(best_moves@[k]));
                    let kk = choose|kk: int| 0 <= kk < lm.len() && lm[kk] == best_moves@[k];
                    assert(root_value(e, b, best_moves@[k]) == best_score);
                    crate::minimax::lemma_ties_contains(e, b, lm, 0, best_score as int, lm.len(), kk);
                }
            }
        }
        let bound = bound_for(best_score, alpha_orig, beta);
        let first = best_moves[0];
        self.tt.store(TTEntry { key, depth, score: best_score, bound, best_move: Some(first) });
        SearchResult { best_moves, score: best_score, nodes }
    }
}

/// The value of a root move at depth one: the negated horizon value of the position after it.
#[verifier::opaque]
pub open spec fn root_value<E: Evaluator>(e: E, b: BoardView, m: Move) -> int {
    -negamax_value(e, board_after(b, m), 0)
}

/// A depth-one root result of a search that starts from an empty table: when there is a legal
/// move, the score is the negamax value and every best move is among those tying for it (the
/// moves that the minimax root returns).
pub open spec fn fresh_root_result<E: Evaluator>(e: E, b: BoardView, r: SearchResult) -> bool {
    legal_moves(b).len() > 0 ==> {
        &&& r.score == negamax_value(e, b, 1)
        &&& forall|k: int|
            0 <= k < r.best_moves@.len() ==> ties(e, b, legal_moves(b), 0, r.score as int, legal_moves(b).len()).contains(
                #[trigger] r.best_moves@[k],
            )
    }
}

/// `x` is among the first `i` moves of `s`.
pub open spec fn in_prefix(s: Seq<Move>, i: int, x: Move) -> bool {
    exists|j: int| 0 <= j < i && s[j] == x
}

/// The alpha-beta root result: distinct best moves, and the static evaluation when there is
/// no legal move.
pub open spec fn alphabeta_result<E: Evaluator>(e: E, b: BoardView, r: SearchResult) -> bool {
    &&& r.best_moves@.no_duplicates()
    &&& (legal_moves(b).len() == 0 ==> r.score == e.score_of(b))
}

impl<E: Evaluator> SearchAlgorithm<E> for AlphaBetaSearch {
    open spec fn ready(&self) -> bool {
        self.table_ok()
    }

    open spec fn result_ok(&self, e: E, b: BoardView, depth: u32, r: SearchResult) -> bool {
        &&& alphabeta_result(e, b, r)
        &&& (self.fresh() && depth == 1 ==> fresh_root_result(e, b, r))
    }

    fn search(&mut self, board: &mut Board, evaluator: &E, depth: u32) -> (r: SearchResult) {
        self.search_root(board, evaluator, depth, None)
    }

    fn search_with_root_ordering(
        &mut self,
        board: &mut Board,
        evaluator: &E,
        depth: u32,
        preferred_root: Option<&[Move]>,
    ) -> (r: SearchResult) {
        self.search_root(board, evaluator, depth, preferred_root)
    }
}

/// Alpha-beta and minimax agree at depth one: when the alpha-beta search starts from an empty
/// table, its score is the minimax score and each of its best moves is a minimax best move.
pub proof fn lemma_alphabeta_within_minimax<E: Evaluator>(e: E, b: BoardView, ab: SearchResult, mm: SearchResult)
    requires
        fresh_root_result(e, b, ab),
        crate::minimax::minimax_result(e, b, 1, mm),
        legal_moves(b).len() > 0,
    ensures
        ab.score == mm.score,
        forall|k: int| 0 <= k < ab.best_moves@.len() ==> mm.best_moves@.contains(#[trigger] ab.best_moves@[k]),
{
    let ms = legal_moves(b);
    assert(negamax_value(e, b, 1) == best_child(e, b, ms, 0, ms.len()));
    assert forall|k: int| 0 <= k < ab.best_moves@.len() implies mm.best_moves@.contains(#[trigger] ab.best_moves@[k]) by {
        assert(ties(e, b, ms, 0, ab.score as int, ms.len()).contains(ab.best_moves@[k]));
    }
}

} // verus!
