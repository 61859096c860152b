use vstd::prelude::*;
use crate::apply_move::{board_after, make_ok};
use crate::board::{Board, BoardView};
use crate::eval::Evaluator;
use crate::movegen::{
    all_gen_ok, gen_ok, generate_pseudo_legal, is_king_in_check, legal,
    lemma_gen_ok_facts, position_ok, pseudo_moves,
};
use crate::search::negatable;
use crate::types::{Color, Move, PieceKind};

verus! {

/// A capture (of a piece on the target, or en passant) or a promotion.
pub open spec fn noisy(b: BoardView, mv: Move) -> bool {
    ||| mv.promotion is Some
    ||| (b.squares[mv.to.0 as int] matches Some(p) && p.color != b.side_to_move)
    ||| (b.squares[mv.to.0 as int] is None && b.squares[mv.from.0 as int] == Some(
        crate::types::Piece { color: b.side_to_move, kind: PieceKind::Pawn },
    ) && b.en_passant == Some(mv.to))
}

/// The legal noisy moves among the first `n` of `s`, in their order.
pub open spec fn noisy_prefix(b: BoardView, s: Seq<Move>, n: nat) -> Seq<Move>
    decreases n,
{
    if n == 0 {
        Seq::empty()
    } else {
        noisy_prefix(b, s, (n - 1) as nat) + if noisy(b, s[n - 1]) && legal(b, s[n - 1]) {
            seq![s[n - 1]]
        } else {
            Seq::empty()
        }
    }
}

/// The legal captures and promotions of a position, in generation order.
#[verifier::opaque]
pub open spec fn noisy_list(b: BoardView) -> Seq<Move> {
    noisy_prefix(b, pseudo_moves(b), pseudo_moves(b).len())
}

/// Collects the legal captures and promotions; the board is left as it was.
pub fn noisy_moves(board: &mut Board) -> (r: Vec<Move>)
    requires
        position_ok(old(board)@),
    ensures
        final(board)@ == old(board)@,
        r@ == noisy_list(old(board)@),
        all_gen_ok(old(board)@, r@),
{
    reveal(noisy_list);
    let ghost b = board@;
    let moves = generate_pseudo_legal(board);
    let mut noisy_list_v: Vec<Move> = Vec::new();
    let side = board.side_to_move;
    let mut i: usize = 0;
    while i < moves.len()
        invariant
            board@ == b,
            position_ok(b),
            side == b.side_to_move,
            moves@ == pseudo_moves(b),
            all_gen_ok(b, moves@),
            i <= moves.len(),
            noisy_list_v@ == noisy_prefix(b, moves@, i as nat),
            all_gen_ok(b, noisy_list_v@),
        decreases moves.len() - i,
    {
        let mv = moves[i];
        proof {
            assert(gen_ok(b, moves@[i as int]));
            lemma_gen_ok_facts(b, mv);
        }
        let is_promotion = mv.promotion.is_some();
        let is_capture = match board.squares[mv.to.0 as usize] {
            Some(piece) => piece.color != side,
            None => {
                let is_pawn = match board.squares[mv.from.0 as usize] {
                    Some(piece) => piece.color == side && piece.kind == PieceKind::Pawn,
                    None => false,
                };
                is_pawn && board.en_passant == Some(mv.to)
            },
        };
        let ghost before = noisy_list_v@;
        if is_promotion || is_capture {
            match board.make_move(mv) {
                Ok(undo) => {
                    let illegal = is_king_in_check(board, side);
                    board.unmake_move(mv, undo);
                    if !illegal {
                        noisy_list_v.push(mv);
                        proof {
                            assert(all_gen_ok(b, seq![mv]));
                            crate::movegen::lemma_all_gen_ok_concat(b, before, seq![mv]);
                            assert(noisy_list_v@ =~= before + seq![mv]);
                        }
                    }
                },
                Err(_) => {},
            }
        }
        assert(noisy_list_v@ =~= noisy_prefix(b, moves@, (i + 1) as nat));
        i += 1;
    }
    noisy_list_v
}

/// The value of quiescence search: stand pat on the evaluation, else the best of the legal
/// captures and promotions searched `qd` plies further, inside the window.
pub open spec fn quiesce_value<E: Evaluator>(e: E, b: BoardView, alpha: int, beta: int, qd: nat) -> int
    decreases qd, 1nat, 0nat,
{
    let sp = e.score_of(b);
    if sp >= beta {
        sp
    } else if qd == 0 {
        sp
    } else if noisy_list(b).len() == 0 {
        sp
    } else {
        quiesce_loop(e, b, noisy_list(b), if sp > alpha { sp } else { alpha }, beta, qd, 0)
    }
}

/// The noisy moves from index `i` on, with `alpha` raised by those before it.
pub open spec fn quiesce_loop<E: Evaluator>(
    e: E,
    b: BoardView,
    ns: Seq<Move>,
    alpha: int,
    beta: int,
    qd: nat,
    i: int,
) -> int
    decreases qd, 0nat, ns.len() - i,
{
    if qd == 0 || i < 0 || i >= ns.len() {
        alpha
    } else {
        let score = -quiesce_value(e, board_after(b, ns[i]), -beta, -alpha, (qd - 1) as nat);
        if score >= beta {
            score
        } else {
            quiesce_loop(e, b, ns, if score > alpha { score } else { alpha }, beta, qd, i + 1)
        }
    }
}

/// The node counter went up by at least one, saturating at `u64::MAX`.
pub open spec fn counted(before: u64, after: u64) -> bool {
    after >= before && (before < u64::MAX ==> after > before)
}

/// Searches captures and promotions beyond the horizon, standing pat on the static evaluation;
/// the board is left as it was.
pub fn quiesce_core<E: Evaluator>(
    board: &mut Board,
    evaluator: &E,
    alpha: i32,
    beta: i32,
    nodes: &mut u64,
    q_depth: u32,
) -> (r: i32)
    requires
        position_ok(old(board)@),
        negatable(alpha),
        negatable(beta),
    ensures
        final(board)@ == old(board)@,
        negatable(r),
        r == quiesce_value(*evaluator, old(board)@, alpha as int, beta as int, q_depth as nat),
        counted(*old(nodes), *final(nodes)),
    decreases q_depth,
{
    let ghost b = board@;
    let ghost alpha0 = alpha;
    let ghost n0 = *nodes;
    let mut alpha = alpha;
    *nodes = nodes.saturating_add(1);
    let stand_pat = evaluator.evaluate(board);
    if stand_pat >= beta {
        return stand_pat;
    }
    if stand_pat > alpha {
        alpha = stand_pat;
    }
    if q_depth == 0 {
        return stand_pat;
    }
    let moves = noisy_moves(board);
    if moves.len() == 0 {
        return stand_pat;
    }
    let mut result = alpha;
    let mut i: usize = 0;
    while i < moves.len()
        invariant_except_break
            result == alpha,
            quiesce_value(*evaluator, b, alpha0 as int, beta as int, q_depth as nat) == quiesce_loop(
                *evaluator,
                b,
                moves@,
                alpha as int,
                beta as int,
                q_depth as nat,
                i as int,
            ),
        invariant
            board@ == b,
            position_ok(b),
            moves@ == noisy_list(b),
            all_gen_ok(b, moves@),
            i <= moves.len(),
            q_depth > 0,
            negatable(alpha),
            negatable(beta),
            negatable(result),
            counted(n0, *nodes),
        ensures
            result == quiesce_value(*evaluator, b, alpha0 as int, beta as int, q_depth as nat),
        decreases moves.len() - i,
    {
        let mv = moves[i];
        proof {
            assert(gen_ok(b, moves@[i as int]));
            lemma_gen_ok_facts(b, mv);
        }
        match board.make_move(mv) {
            Ok(undo) => {
                let score = -quiesce_core(board, evaluator, -beta, -alpha, nodes, q_depth - 1);
                board.unmake_move(mv, undo);
                if score >= beta {
                    result = score;
                    break;
                }
                if score > alpha {
                    alpha = score;
                }
            },
            Err(_) => {},
        }
        result = alpha;
        i += 1;
    }
    result
}

/// Quiescence inside an alpha-beta window.
pub fn quiesce_ab<E: Evaluator>(
    board: &mut Board,
    evaluator: &E,
    alpha: i32,
    beta: i32,
    nodes: &mut u64,
    q_depth: u32,
) -> (r: i32)
    requires
        position_ok(old(board)@),
        negatable(alpha),
        negatable(beta),
    ensures
        final(board)@ == old(board)@,
        negatable(r),
        r == quiesce_value(*evaluator, old(board)@, alpha as int, beta as int, q_depth as nat),
        counted(*old(nodes), *final(nodes)),
{
    quiesce_core(board, evaluator, alpha, beta, nodes, q_depth)
}

/// Quiescence with the widest window whose bounds can still be negated.
pub fn quiesce_mm<E: Evaluator>(board: &mut Board, evaluator: &E, nodes: &mut u64, q_depth: u32) -> (r: i32)
    requires
        position_ok(old(board)@),
    ensures
        final(board)@ == old(board)@,
        negatable(r),
        r == quiesce_value(*evaluator, old(board)@, (i32::MIN / 2) as int, (i32::MAX / 2) as int, q_depth as nat),
        counted(*old(nodes), *final(nodes)),
{
    quiesce_core(board, evaluator, i32::MIN / 2, i32::MAX / 2, nodes, q_depth)
}

} // verus!
