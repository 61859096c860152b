use vstd::prelude::*;
use crate::apply_move::board_after;
use crate::board::BoardView;
use crate::eval::{Evaluator, EVAL_LIMIT};
use crate::quiescence::{noisy_list, quiesce_loop, quiesce_value};
use crate::minimax::horizon_value;
use crate::search::QUIESCE_DEPTH;
use crate::types::Move;

verus! {

/// The value that quiescence search approximates, free of any window: the better of standing
/// pat and the negated values of the legal captures and promotions, `qd` plies deep.
pub open spec fn quiet_value<E: Evaluator>(e: E, b: BoardView, qd: nat) -> int
    decreases qd, 1nat, 0nat,
{
    if qd == 0 || noisy_list(b).len() == 0 {
        e.score_of(b)
    } else {
        quiet_prefix(e, b, noisy_list(b), qd, noisy_list(b).len())
    }
}

/// Standing pat against the first `i` noisy moves.
pub open spec fn quiet_prefix<E: Evaluator>(e: E, b: BoardView, ns: Seq<Move>, qd: nat, i: nat) -> int
    decreases qd, 0nat, i,
{
    if i == 0 || qd == 0 || i > ns.len() {
        e.score_of(b)
    } else {
        let prev = quiet_prefix(e, b, ns, qd, (i - 1) as nat);
        let v = -quiet_value(e, board_after(b, ns[i - 1]), (qd - 1) as nat);
        if v > prev {
            v
        } else {
            prev
        }
    }
}

/// A fail-soft search result: a bound on the true value outside the window, the value inside.
pub open spec fn fail_soft(r: int, alpha: int, beta: int, v: int) -> bool {
    &&& (r <= alpha ==> v <= r)
    &&& (r >= beta ==> v >= r)
    &&& (alpha < r < beta ==> r == v)
}

proof fn lemma_quiet_bounded<E: Evaluator>(e: E, b: BoardView, qd: nat)
    ensures
        -EVAL_LIMIT <= quiet_value(e, b, qd) <= EVAL_LIMIT,
    decreases qd, 1nat, 0nat,
{
    e.lemma_score_bounded(b);
    if !(qd == 0 || noisy_list(b).len() == 0) {
        lemma_quiet_prefix_bounded(e, b, noisy_list(b), qd, noisy_list(b).len());
    }
}

proof fn lemma_quiet_prefix_bounded<E: Evaluator>(e: E, b: BoardView, ns: Seq<Move>, qd: nat, i: nat)
    ensures
        -EVAL_LIMIT <= quiet_prefix(e, b, ns, qd, i) <= EVAL_LIMIT,
        e.score_of(b) <= quiet_prefix(e, b, ns, qd, i),
    decreases qd, 0nat, i,
{
    e.lemma_score_bounded(b);
    if !(i == 0 || qd == 0 || i > ns.len()) {
        lemma_quiet_prefix_bounded(e, b, ns, qd, (i - 1) as nat);
        lemma_quiet_bounded(e, board_after(b, ns[i - 1]), (qd - 1) as nat);
    }
}

proof fn lemma_quiet_prefix_mono<E: Evaluator>(e: E, b: BoardView, ns: Seq<Move>, qd: nat, i: nat, j: nat)
    requires
        i <= j <= ns.len(),
        qd > 0,
    ensures
        quiet_prefix(e, b, ns, qd, i) <= quiet_prefix(e, b, ns, qd, j),
    decreases j - i,
{
    if i < j {
        lemma_quiet_prefix_mono(e, b, ns, qd, i, (j - 1) as nat);
    }
}

/// Quiescence inside a window is fail-soft with respect to the window-free value.
pub proof fn lemma_quiesce_fail_soft<E: Evaluator>(e: E, b: BoardView, alpha: int, beta: int, qd: nat)
    requires
        alpha < beta,
    ensures
        fail_soft(quiesce_value(e, b, alpha, beta, qd), alpha, beta, quiet_value(e, b, qd)),
    decreases qd, 1nat, 0nat,
{
    let sp = e.score_of(b);
    let ns = noisy_list(b);
    if sp >= beta {
        if !(qd == 0 || ns.len() == 0) {
            lemma_quiet_prefix_bounded(e, b, ns, qd, ns.len());
        }
    } else if qd == 0 || ns.len() == 0 {
    } else {
        let a = if sp > alpha { sp } else { alpha };
        lemma_quiesce_loop_fail_soft(e, b, ns, alpha, a, beta, qd, 0);
    }
}

proof fn lemma_quiesce_loop_fail_soft<E: Evaluator>(
    e: E,
    b: BoardView,
    ns: Seq<Move>,
    alpha: int,
    a: int,
    beta: int,
    qd: nat,
    i: int,
)
    requires
        qd > 0,
        ns == noisy_list(b),
        ns.len() > 0,
        0 <= i <= ns.len(),
        alpha < beta,
        a < beta,
        a == (if quiet_prefix(e, b, ns, qd, i as nat) > alpha { quiet_prefix(e, b, ns, qd, i as nat) } else { alpha }),
    ensures
        fail_soft(quiesce_loop(e, b, ns, a, beta, qd, i), alpha, beta, quiet_value(e, b, qd)),
    decreases qd, 0nat, ns.len() - i,
{
    if i < ns.len() {
        let child = board_after(b, ns[i]);
        let c = quiesce_value(e, child, -beta, -a, (qd - 1) as nat);
        let vc = quiet_value(e, child, (qd - 1) as nat);
        lemma_quiesce_fail_soft(e, child, -beta, -a, (qd - 1) as nat);
        let s = -c;
        if s >= beta {
            lemma_quiet_prefix_mono(e, b, ns, qd, (i + 1) as nat, ns.len());
            assert(quiet_prefix(e, b, ns, qd, (i + 1) as nat) >= -vc);
        } else {
            let a2 = if s > a { s } else { a };
            assert(quiet_prefix(e, b, ns, qd, (i + 1) as nat) == (if -vc > quiet_prefix(e, b, ns, qd, i as nat) {
                -vc
            } else {
                quiet_prefix(e, b, ns, qd, i as nat)
            }));
            lemma_quiesce_loop_fail_soft(e, b, ns, alpha, a2, beta, qd, i + 1);
        }
    }
}

/// At the horizon, the widest negatable window gives the window-free value exactly.
pub proof fn lemma_horizon_exact<E: Evaluator>(e: E, b: BoardView)
    ensures
        horizon_value(e, b) == quiet_value(e, b, QUIESCE_DEPTH as nat),
{
    reveal(horizon_value);
    lemma_quiet_bounded(e, b, QUIESCE_DEPTH as nat);
    lemma_quiesce_fail_soft(e, b, (i32::MIN / 2) as int, (i32::MAX / 2) as int, QUIESCE_DEPTH as nat);
}

/// The state of a fail-soft loop over children: `best` the best child score so far (or the
/// lowest `i32` before any), `alpha` the raised bound, `m` the true maximum of the children seen
/// (likewise).
pub open spec fn window_state(alpha0: int, alpha: int, best: int, m: int) -> bool {
    &&& alpha == (if best > alpha0 { best } else { alpha0 })
    &&& m <= best
    &&& (best > alpha0 ==> best == m)
}

/// One child step of a fail-soft loop: the child's negated result `s` is fail-soft in the
/// negated window against its negated true value `v`.
pub proof fn lemma_window_step(alpha0: int, beta: int, alpha: int, best: int, m: int, s: int, v: int)
    requires
        alpha0 < beta,
        best < beta,
        window_state(alpha0, alpha, best, m),
        fail_soft(-s, -beta, -alpha, -v),
    ensures
        ({
            let best2 = if s > best { s } else { best };
            let alpha2 = if s > alpha { s } else { alpha };
            let m2 = if v > m { v } else { m };
            &&& (alpha2 < beta ==> window_state(alpha0, alpha2, best2, m2) && best2 < beta)
            &&& (alpha2 >= beta ==> best2 >= beta && m2 >= best2)
        }),
{
}

/// The end of a fail-soft loop that did not cut off: its best score is fail-soft.
pub proof fn lemma_window_end(alpha0: int, beta: int, alpha: int, best: int, m: int)
    requires
        alpha0 < beta,
        best < beta,
        window_state(alpha0, alpha, best, m),
    ensures
        fail_soft(best, alpha0, beta, m),
{
}

/// Horizon values stay within the evaluation limit.
pub proof fn lemma_horizon_value_bounded<E: Evaluator>(e: E, b: BoardView)
    ensures
        -EVAL_LIMIT <= horizon_value(e, b) <= EVAL_LIMIT,
{
    lemma_horizon_exact(e, b);
    lemma_quiet_bounded(e, b, QUIESCE_DEPTH as nat);
}

} // verus!
