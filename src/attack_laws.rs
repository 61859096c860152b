use vstd::prelude::*;
use crate::board::BoardView;
use crate::movegen::{
    advance, attacked, board_moves, castling_moves, holds, jump_attack, jump_moves, jump_one, moves_at,
    offsets, pawn_attack, pawn_capture, pawn_diagonal, pawn_en_passant, pawn_pushes, pawn_source,
    piece_moves, pseudo_moves, ray, ray_measure, slider_attack, slider_hit, slider_moves, step,
    OffsetTable,
};
use crate::types::{onboard, Color, Move, Piece, PieceKind};

verus! {

/// Some move of the list lands on `x`.
pub open spec fn lands(s: Seq<Move>, x: int) -> bool {
    exists|k: int| 0 <= k < s.len() && (#[trigger] s[k]).to.0 as int == x
}

pub proof fn lemma_lands_concat(s1: Seq<Move>, s2: Seq<Move>, x: int)
    ensures
        lands(s1 + s2, x) == (lands(s1, x) || lands(s2, x)),
{
    if lands(s1 + s2, x) {
        let k = choose|k: int| 0 <= k < (s1 + s2).len() && (#[trigger] (s1 + s2)[k]).to.0 as int == x;
        if k < s1.len() {
            assert(s1[k] == (s1 + s2)[k]);
        } else {
            assert(s2[k - s1.len()] == (s1 + s2)[k]);
        }
    }
    if lands(s1, x) {
        let k = choose|k: int| 0 <= k < s1.len() && (#[trigger] s1[k]).to.0 as int == x;
        assert((s1 + s2)[k] == s1[k]);
    }
    if lands(s2, x) {
        let k = choose|k: int| 0 <= k < s2.len() && (#[trigger] s2[k]).to.0 as int == x;
        assert((s1 + s2)[k + s1.len()] == s2[k]);
    }
}

/// A piece of the other side than `c` stands on `x`.
pub open spec fn enemy_on(b: BoardView, x: int, c: Color) -> bool {
    b.squares[x] matches Some(p) && p.color != c
}

/// From `cur`, stepping by `d` over empty squares, `x` is reached.
pub open spec fn ray_reaches(b: BoardView, cur: int, d: int, x: int) -> bool
    decreases ray_measure(cur, d),
{
    if d == 0 || !(0 <= cur < 128) {
        false
    } else {
        match step(cur, d) {
            None => false,
            Some(n) => n == x || (b.squares[n] is None && ray_reaches(b, n, d, x)),
        }
    }
}

/// A slider's ray lands on an enemy-occupied square exactly when the square is reached over
/// empty squares.
pub proof fn lemma_ray_lands(b: BoardView, f: int, c: Color, cur: int, d: int, x: int)
    requires
        b.squares.len() == 128,
        onboard(x),
        enemy_on(b, x, c),
    ensures
        lands(ray(b, f, c, cur, d), x) == ray_reaches(b, cur, d, x),
    decreases ray_measure(cur, d),
{
    if d != 0 && 0 <= cur < 128 {
        match step(cur, d) {
            None => {
                assert(ray(b, f, c, cur, d) =~= Seq::<Move>::empty());
            },
            Some(n) => {
                let first = crate::movegen::plain(f, n);
                assert(first.to.0 as int == n);
                match b.squares[n] {
                    None => {
                        lemma_ray_lands(b, f, c, n, d, x);
                        lemma_lands_concat(seq![first], ray(b, f, c, n, d), x);
                        if n == x {
                            assert(false);
                        }
                        if lands(seq![first], x) {
                            let k = choose|k: int| 0 <= k < 1 && (#[trigger] seq![first][k]).to.0 as int == x;
                            assert(seq![first][k] == first);
                        }
                    },
                    Some(p) => {
                        if p.color != c {
                            if n == x {
                                assert(seq![first][0] == first);
                            } else if lands(seq![first], x) {
                                let k = choose|k: int| 0 <= k < 1 && (#[trigger] seq![first][k]).to.0 as int == x;
                                assert(seq![first][k] == first);
                            }
                        } else {
                            assert(n != x);
                        }
                    },
                }
            },
        }
    }
}

/// The square `t` steps of `d` away from `cur`.
pub open spec fn at(cur: int, d: int, t: int) -> int {
    cur + t * d
}

/// The first `j` steps from `cur` along `d` stay on the board, and all but the last are empty.
pub open spec fn clear_path(b: BoardView, cur: int, d: int, j: int) -> bool {
    &&& forall|t: int| 1 <= t <= j ==> onboard(#[trigger] at(cur, d, t))
    &&& forall|t: int| 1 <= t < j ==> b.squares[#[trigger] at(cur, d, t)] is None
}

proof fn lemma_at_shift(cur: int, d: int, t: int)
    ensures
        at(cur + d, d, t - 1) == at(cur, d, t),
        at(cur, d, 1) == cur + d,
{
    assert((t - 1) * d + d == t * d) by (nonlinear_arith);
}

/// `x` is reached from `cur` along `d` over empty squares exactly when it lies `j` steps away
/// on a clear path.
pub proof fn lemma_ray_reaches_index(b: BoardView, cur: int, d: int, x: int)
    requires
        0 <= cur < 128,
        d != 0,
    ensures
        ray_reaches(b, cur, d, x) <==> exists|j: int| 1 <= j && x == at(cur, d, j) && clear_path(b, cur, d, j),
    decreases ray_measure(cur, d),
{
    lemma_at_shift(cur, d, 1);
    match step(cur, d) {
        None => {
            if exists|j: int| 1 <= j && x == at(cur, d, j) && clear_path(b, cur, d, j) {
                let j = choose|j: int| 1 <= j && x == at(cur, d, j) && clear_path(b, cur, d, j);
                assert(onboard(at(cur, d, 1)));
            }
        },
        Some(n) => {
            lemma_ray_reaches_index(b, n, d, x);
            if ray_reaches(b, cur, d, x) {
                if n == x {
                    assert(clear_path(b, cur, d, 1));
                } else {
                    let j = choose|j: int| 1 <= j && x == at(n, d, j) && clear_path(b, n, d, j);
                    lemma_at_shift(cur, d, j + 1);
                    assert forall|t: int| 1 <= t <= j + 1 implies onboard(#[trigger] at(cur, d, t)) by {
                        lemma_at_shift(cur, d, t);
                        if t > 1 {
                            assert(onboard(at(n, d, t - 1)));
                        }
                    }
                    assert forall|t: int| 1 <= t < j + 1 implies b.squares[#[trigger] at(cur, d, t)] is None by {
                        lemma_at_shift(cur, d, t);
                        if t > 1 {
                            assert(b.squares[at(n, d, t - 1)] is None);
                        }
                    }
                    assert(clear_path(b, cur, d, j + 1));
                }
            }
            if exists|j: int| 1 <= j && x == at(cur, d, j) && clear_path(b, cur, d, j) {
                let j = choose|j: int| 1 <= j && x == at(cur, d, j) && clear_path(b, cur, d, j);
                if j > 1 {
                    lemma_at_shift(cur, d, j);
                    assert(b.squares[at(cur, d, 1)] is None);
                    assert forall|t: int| 1 <= t <= j - 1 implies onboard(#[trigger] at(n, d, t)) by {
                        lemma_at_shift(cur, d, t + 1);
                        assert(onboard(at(cur, d, t + 1)));
                    }
                    assert forall|t: int| 1 <= t < j - 1 implies b.squares[#[trigger] at(n, d, t)] is None by {
                        lemma_at_shift(cur, d, t + 1);
                        assert(b.squares[at(cur, d, t + 1)] is None);
                    }
                    assert(clear_path(b, n, d, j - 1));
                }
            }
        },
    }
}

/// The first piece met from `cur` along `d` is a `k` of color `c` exactly when such a piece
/// stands `j` steps away on a clear path.
pub proof fn lemma_slider_hit_index(b: BoardView, cur: int, d: int, c: Color, k: PieceKind)
    requires
        0 <= cur < 128,
        d != 0,
    ensures
        slider_hit(b, cur, d, c, k) <==> exists|j: int|
            1 <= j && clear_path(b, cur, d, j) && crate::movegen::holds(b, #[trigger] at(cur, d, j), c, k),
    decreases ray_measure(cur, d),
{
    lemma_at_shift(cur, d, 1);
    match step(cur, d) {
        None => {
            if exists|j: int| 1 <= j && clear_path(b, cur, d, j) && crate::movegen::holds(b, #[trigger] at(cur, d, j), c, k) {
                let j = choose|j: int| 1 <= j && clear_path(b, cur, d, j) && crate::movegen::holds(b, #[trigger] at(cur, d, j), c, k);
                assert(onboard(at(cur, d, 1)));
            }
        },
        Some(n) => {
            lemma_slider_hit_index(b, n, d, c, k);
            if slider_hit(b, cur, d, c, k) {
                if b.squares[n] is None {
                    let j = choose|j: int| 1 <= j && clear_path(b, n, d, j) && crate::movegen::holds(b, #[trigger] at(n, d, j), c, k);
                    lemma_at_shift(cur, d, j + 1);
                    assert forall|t: int| 1 <= t <= j + 1 implies onboard(#[trigger] at(cur, d, t)) by {
                        lemma_at_shift(cur, d, t);
                        if t > 1 {
                            assert(onboard(at(n, d, t - 1)));
                        }
                    }
                    assert forall|t: int| 1 <= t < j + 1 implies b.squares[#[trigger] at(cur, d, t)] is None by {
                        lemma_at_shift(cur, d, t);
                        if t > 1 {
                            assert(b.squares[at(n, d, t - 1)] is None);
                        }
                    }
                    assert(clear_path(b, cur, d, j + 1));
                } else {
                    assert(clear_path(b, cur, d, 1));
                }
            }
            if exists|j: int| 1 <= j && clear_path(b, cur, d, j) && crate::movegen::holds(b, #[trigger] at(cur, d, j), c, k) {
                let j = choose|j: int| 1 <= j && clear_path(b, cur, d, j) && crate::movegen::holds(b, #[trigger] at(cur, d, j), c, k);
                if j > 1 {
                    lemma_at_shift(cur, d, j);
                    assert(b.squares[at(cur, d, 1)] is None);
                    assert forall|t: int| 1 <= t <= j - 1 implies onboard(#[trigger] at(n, d, t)) by {
                        lemma_at_shift(cur, d, t + 1);
                        assert(onboard(at(cur, d, t + 1)));
                    }
                    assert forall|t: int| 1 <= t < j - 1 implies b.squares[#[trigger] at(n, d, t)] is None by {
                        lemma_at_shift(cur, d, t + 1);
                        assert(b.squares[at(cur, d, t + 1)] is None);
                    }
                    assert(clear_path(b, n, d, j - 1));
                    assert(crate::movegen::holds(b, at(n, d, j - 1), c, k));
                }
            }
        },
    }
}

/// A clear path read backwards: from its far end, along the opposite direction, it is clear
/// back to the start.
pub proof fn lemma_clear_path_reverse(b: BoardView, x: int, d: int, j: int)
    requires
        onboard(x),
        1 <= j,
        clear_path(b, x, d, j),
    ensures
        clear_path(b, at(x, d, j), -d, j),
        at(at(x, d, j), -d, j) == x,
{
    let a = at(x, d, j);
    assert forall|t: int| 1 <= t <= j implies onboard(#[trigger] at(a, -d, t)) by {
        assert(at(a, -d, t) == at(x, d, j - t)) by (nonlinear_arith)
            requires a == x + j * d;
        if t < j {
            assert(onboard(at(x, d, j - t)));
        } else {
            assert(at(x, d, 0) == x) by (nonlinear_arith);
        }
    }
    assert forall|t: int| 1 <= t < j implies b.squares[#[trigger] at(a, -d, t)] is None by {
        assert(at(a, -d, t) == at(x, d, j - t)) by (nonlinear_arith)
            requires a == x + j * d;
        assert(b.squares[at(x, d, j - t)] is None);
    }
    assert(at(a, -d, j) == x) by (nonlinear_arith)
        requires a == x + j * d;
}

// ---------------------------------------------------------------- per piece

proof fn lemma_single_lands(m: Move, x: int)
    ensures
        lands(seq![m], x) == (m.to.0 as int == x),
{
    if lands(seq![m], x) {
        let k = choose|k: int| 0 <= k < 1 && (#[trigger] seq![m][k]).to.0 as int == x;
        assert(seq![m][k] == m);
    }
    if m.to.0 as int == x {
        assert(seq![m][0] == m);
    }
}

proof fn lemma_empty_lands(x: int)
    ensures
        !lands(Seq::<Move>::empty(), x),
{
}

proof fn lemma_advance_lands(f: int, t: int, x: int)
    requires
        onboard(t),
    ensures
        lands(advance(f, t), x) == (t == x),
{
    let s = advance(f, t);
    if lands(s, x) {
        let k = choose|k: int| 0 <= k < s.len() && (#[trigger] s[k]).to.0 as int == x;
    }
    if t == x {
        assert(s[0].to.0 as int == x);
    }
}

/// Jump moves land on an enemy-occupied `x` exactly when one offset leads there.
proof fn lemma_jump_lands(b: BoardView, f: int, c: Color, offs: Seq<int>, n: nat, x: int)
    requires
        onboard(x),
        enemy_on(b, x, c),
        n <= offs.len(),
    ensures
        lands(jump_moves(b, f, c, offs, n), x) <==> exists|k: int| 0 <= k < n && f + offs[k] == x,
    decreases n,
{
    if n > 0 {
        lemma_jump_lands(b, f, c, offs, (n - 1) as nat, x);
        lemma_lands_concat(jump_moves(b, f, c, offs, (n - 1) as nat), jump_one(b, f, c, offs[n - 1]), x);
        let d = offs[n - 1];
        match step(f, d) {
            Some(t) => {
                lemma_single_lands(crate::movegen::plain(f, t), x);
            },
            None => {},
        }
        if exists|k: int| 0 <= k < n && f + offs[k] == x {
            let k = choose|k: int| 0 <= k < n && f + offs[k] == x;
            if k < n - 1 {
                assert(exists|k2: int| 0 <= k2 < n - 1 && f + offs[k2] == x);
            }
        }
    }
}

/// Slider moves land on an enemy-occupied `x` exactly when one ray reaches it.
proof fn lemma_slider_lands(b: BoardView, f: int, c: Color, offs: Seq<int>, n: nat, x: int)
    requires
        b.squares.len() == 128,
        onboard(x),
        enemy_on(b, x, c),
        n <= offs.len(),
    ensures
        lands(slider_moves(b, f, c, offs, n), x) <==> exists|k: int| 0 <= k < n && ray_reaches(b, f, offs[k], x),
    decreases n,
{
    if n > 0 {
        lemma_slider_lands(b, f, c, offs, (n - 1) as nat, x);
        lemma_lands_concat(slider_moves(b, f, c, offs, (n - 1) as nat), ray(b, f, c, f, offs[n - 1]), x);
        lemma_ray_lands(b, f, c, f, offs[n - 1], x);
        if exists|k: int| 0 <= k < n && ray_reaches(b, f, offs[k], x) {
            let k = choose|k: int| 0 <= k < n && ray_reaches(b, f, offs[k], x);
            if k < n - 1 {
                assert(exists|k2: int| 0 <= k2 < n - 1 && ray_reaches(b, f, offs[k2], x));
            }
        }
    }
}

/// Pawn moves land on an enemy-occupied `x` exactly when `x` is one of its two forward diagonals.
proof fn lemma_pawn_lands(b: BoardView, f: int, c: Color, x: int)
    requires
        onboard(x),
        onboard(f),
        enemy_on(b, x, c),
        b.squares[f] == Some(Piece { color: c, kind: PieceKind::Pawn }),
    ensures
        lands(crate::movegen::pawn_moves(b, f, c), x) <==> (x == f + pawn_diagonal(c, 0) || x == f
            + pawn_diagonal(c, 1)),
{
    reveal(pawn_pushes);
    reveal(pawn_capture);
    reveal(pawn_en_passant);
    let d0 = pawn_diagonal(c, 0);
    let d1 = pawn_diagonal(c, 1);
    let pushes = pawn_pushes(b, f, c);
    let c0 = pawn_capture(b, f, d0);
    let c1 = pawn_capture(b, f, d1);
    let e0 = pawn_en_passant(b, f, d0);
    let e1 = pawn_en_passant(b, f, d1);
    lemma_lands_concat(pushes, c0, x);
    lemma_lands_concat(pushes + c0, c1, x);
    lemma_lands_concat(pushes + c0 + c1, e0, x);
    lemma_lands_concat(pushes + c0 + c1 + e0, e1, x);
    assert(!lands(pushes, x)) by {
        match step(f, crate::movegen::forward(c)) {
            Some(t) => if b.squares[t] is None {
                lemma_advance_lands(f, t, x);
                let rest = match step(f, 2 * crate::movegen::forward(c)) {
                    Some(t2) => if crate::types::rank_of(f) == crate::movegen::pawn_home_rank(c)
                        && b.squares[t2] is None {
                        seq![crate::movegen::plain(f, t2)]
                    } else {
                        Seq::empty()
                    },
                    None => Seq::empty(),
                };
                lemma_lands_concat(advance(f, t), rest, x);
                match step(f, 2 * crate::movegen::forward(c)) {
                    Some(t2) => {
                        lemma_single_lands(crate::movegen::plain(f, t2), x);
                    },
                    None => {},
                }
            },
            None => {},
        }
    }
    match step(f, d0) {
        Some(t) => {
            lemma_advance_lands(f, t, x);
            lemma_single_lands(crate::movegen::plain(f, t), x);
        },
        None => {},
    }
    match step(f, d1) {
        Some(t) => {
            lemma_advance_lands(f, t, x);
            lemma_single_lands(crate::movegen::plain(f, t), x);
        },
        None => {},
    }
}

// ---------------------------------------------------------------- attack side

proof fn lemma_jump_attack_index(b: BoardView, x: int, c: Color, k: PieceKind, offs: Seq<int>, n: nat)
    requires
        n <= offs.len(),
    ensures
        jump_attack(b, x, c, k, offs, n) <==> exists|i: int|
            0 <= i < n && onboard(x + offs[i]) && holds(b, #[trigger] (x + offs[i]), c, k),
    decreases n,
{
    if n > 0 {
        lemma_jump_attack_index(b, x, c, k, offs, (n - 1) as nat);
        if exists|i: int| 0 <= i < n && onboard(x + offs[i]) && holds(b, #[trigger] (x + offs[i]), c, k) {
            let i = choose|i: int| 0 <= i < n && onboard(x + offs[i]) && holds(b, #[trigger] (x + offs[i]), c, k);
            if i < n - 1 {
                assert(exists|i2: int| 0 <= i2 < n - 1 && onboard(x + offs[i2]) && holds(b, #[trigger] (x + offs[i2]), c, k));
            }
        }
    }
}

proof fn lemma_slider_attack_index(b: BoardView, x: int, c: Color, k: PieceKind, offs: Seq<int>, n: nat)
    requires
        n <= offs.len(),
    ensures
        slider_attack(b, x, c, k, offs, n) <==> exists|i: int| 0 <= i < n && #[trigger] slider_hit(b, x, offs[i], c, k),
    decreases n,
{
    if n > 0 {
        lemma_slider_attack_index(b, x, c, k, offs, (n - 1) as nat);
        if exists|i: int| 0 <= i < n && #[trigger] slider_hit(b, x, offs[i], c, k) {
            let i = choose|i: int| 0 <= i < n && #[trigger] slider_hit(b, x, offs[i], c, k);
            if i < n - 1 {
                assert(exists|i2: int| 0 <= i2 < n - 1 && #[trigger] slider_hit(b, x, offs[i2], c, k));
            }
        }
    }
}

/// Each offset table holds the opposite of each of its offsets, mirrored.
proof fn lemma_offsets_symmetric(t: OffsetTable)
    ensures
        forall|k: int| 0 <= k < offsets(t).len() ==> #[trigger] offsets(t)[offsets(t).len() - 1 - k] == -offsets(t)[k],
        forall|k: int| 0 <= k < offsets(t).len() ==> offsets(t)[k] != 0,
{
    let o = offsets(t);
    assert forall|k: int| 0 <= k < o.len() implies #[trigger] o[o.len() - 1 - k] == -o[k] && o[k] != 0 by {
        if k == 0 {} else if k == 1 {} else if k == 2 {} else if k == 3 {} else if k == 4 {} else if k == 5 {} else if k == 6 {} else {}
    }
}

/// A slider of kind `k` and color `c` on `a` reaches `x` along one of the table's directions
/// exactly when, looking from `x` along the table, the first piece met is that slider.
proof fn lemma_slider_reverse(b: BoardView, x: int, a: int, c: Color, k: PieceKind, t: OffsetTable, i: int)
    requires
        onboard(x),
        0 <= i < offsets(t).len(),
        holds(b, a, c, k),
        onboard(a),
    ensures
        ray_reaches(b, a, offsets(t)[i], x) ==> slider_hit(b, x, offsets(t)[offsets(t).len() - 1 - i], c, k),
{
    lemma_offsets_symmetric(t);
    let d = offsets(t)[i];
    let e = offsets(t)[offsets(t).len() - 1 - i];
    assert(e == -d);
    if ray_reaches(b, a, d, x) {
        lemma_ray_reaches_index(b, a, d, x);
        let j = choose|j: int| 1 <= j && x == at(a, d, j) && clear_path(b, a, d, j);
        lemma_clear_path_reverse(b, a, d, j);
        assert(-d == e);
        lemma_slider_hit_index(b, x, e, c, k);
        assert(at(x, e, j) == a);
        assert(holds(b, at(x, e, j), c, k));
    }
}

proof fn lemma_hit_reverse(b: BoardView, x: int, c: Color, k: PieceKind, t: OffsetTable, i: int)
    requires
        onboard(x),
        0 <= i < offsets(t).len(),
        slider_hit(b, x, offsets(t)[i], c, k),
    ensures
        exists|a: int| onboard(a) && holds(b, a, c, k) && ray_reaches(b, a, offsets(t)[offsets(t).len() - 1 - i], x),
{
    lemma_offsets_symmetric(t);
    let d = offsets(t)[i];
    let e = offsets(t)[offsets(t).len() - 1 - i];
    lemma_slider_hit_index(b, x, d, c, k);
    let j = choose|j: int| 1 <= j && clear_path(b, x, d, j) && holds(b, #[trigger] at(x, d, j), c, k);
    let a = at(x, d, j);
    assert(onboard(a));
    lemma_clear_path_reverse(b, x, d, j);
    assert(e == -d);
    lemma_ray_reaches_index(b, a, e, x);
    assert(ray_reaches(b, a, e, x));
}

// ---------------------------------------------------------------- assembly

proof fn lemma_board_moves_lands(b: BoardView, n: nat, x: int)
    ensures
        lands(board_moves(b, n), x) <==> exists|i: int| 0 <= i < n && #[trigger] lands(moves_at(b, i), x),
    decreases n,
{
    if n > 0 {
        lemma_board_moves_lands(b, (n - 1) as nat, x);
        lemma_lands_concat(board_moves(b, (n - 1) as nat), moves_at(b, n - 1), x);
        if exists|i: int| 0 <= i < n && #[trigger] lands(moves_at(b, i), x) {
            let i = choose|i: int| 0 <= i < n && #[trigger] lands(moves_at(b, i), x);
            if i < n - 1 {
                assert(exists|i2: int| 0 <= i2 < n - 1 && #[trigger] lands(moves_at(b, i2), x));
            }
        }
    }
}

proof fn lemma_castling_lands_nowhere_occupied(b: BoardView, x: int)
    requires
        b.squares[x] is Some,
    ensures
        !lands(castling_moves(b), x),
{
    let c = b.side_to_move;
    let r = crate::movegen::home_rank(c) * 16;
    let ks = if crate::movegen::castle_kingside_ok(b, c) {
        seq![crate::movegen::plain(r + 4, r + 6)]
    } else {
        Seq::<Move>::empty()
    };
    let qs = if crate::movegen::castle_queenside_ok(b, c) {
        seq![crate::movegen::plain(r + 4, r + 2)]
    } else {
        Seq::<Move>::empty()
    };
    lemma_lands_concat(ks, qs, x);
    lemma_single_lands(crate::movegen::plain(r + 4, r + 6), x);
    lemma_single_lands(crate::movegen::plain(r + 4, r + 2), x);
}

/// A piece of the side to move whose moves land on an enemy-occupied square attacks it.
proof fn lemma_moves_to_attack(b: BoardView, i: int, x: int)
    requires
        b.wf(),
        onboard(x),
        enemy_on(b, x, b.side_to_move),
        lands(moves_at(b, i), x),
    ensures
        attacked(b, x, b.side_to_move),
{
    let c = b.side_to_move;
    assert(onboard(i) && b.squares[i] is Some);
    let p = b.squares[i].unwrap();
    assert(p.color == c);
    let diag = offsets(OffsetTable::Diagonal);
    let orth = offsets(OffsetTable::Orthogonal);
    lemma_offsets_symmetric(OffsetTable::Diagonal);
    lemma_offsets_symmetric(OffsetTable::Orthogonal);
    lemma_offsets_symmetric(OffsetTable::Knight);
    lemma_offsets_symmetric(OffsetTable::King);
    match p.kind {
        PieceKind::Pawn => {
            lemma_pawn_lands(b, i, c, x);
        },
        PieceKind::Knight | PieceKind::King => {
            let t = if p.kind == PieceKind::Knight { OffsetTable::Knight } else { OffsetTable::King };
            let offs = offsets(t);
            lemma_jump_lands(b, i, c, offs, 8, x);
            let k = choose|k: int| 0 <= k < 8 && i + offs[k] == x;
            assert(offs[7 - k] == -offs[k]);
            assert(x + offs[7 - k] == i);
            lemma_jump_attack_index(b, x, c, p.kind, offs, 8);
        },
        _ => {
            let (in_diag, in_orth) = if p.kind == PieceKind::Queen {
                lemma_lands_concat(slider_moves(b, i, c, diag, 4), slider_moves(b, i, c, orth, 4), x);
                (lands(slider_moves(b, i, c, diag, 4), x), lands(slider_moves(b, i, c, orth, 4), x))
            } else if p.kind == PieceKind::Bishop {
                (true, false)
            } else {
                (false, true)
            };
            if in_diag {
                lemma_slider_lands(b, i, c, diag, 4, x);
                let k = choose|k: int| 0 <= k < 4 && ray_reaches(b, i, diag[k], x);
                lemma_slider_reverse(b, x, i, c, p.kind, OffsetTable::Diagonal, k);
                lemma_slider_attack_index(b, x, c, p.kind, diag, 4);
                assert(slider_hit(b, x, diag[3 - k], c, p.kind));
            } else {
                lemma_slider_lands(b, i, c, orth, 4, x);
                let k = choose|k: int| 0 <= k < 4 && ray_reaches(b, i, orth[k], x);
                lemma_slider_reverse(b, x, i, c, p.kind, OffsetTable::Orthogonal, k);
                lemma_slider_attack_index(b, x, c, p.kind, orth, 4);
                assert(slider_hit(b, x, orth[3 - k], c, p.kind));
            }
        },
    }
}

/// An attacked enemy-occupied square is where some piece of the attacker's moves land.
proof fn lemma_attack_to_moves(b: BoardView, x: int)
    requires
        b.wf(),
        onboard(x),
        enemy_on(b, x, b.side_to_move),
        attacked(b, x, b.side_to_move),
    ensures
        exists|i: int| 0 <= i < 128 && #[trigger] lands(moves_at(b, i), x),
{
    let c = b.side_to_move;
    let diag = offsets(OffsetTable::Diagonal);
    let orth = offsets(OffsetTable::Orthogonal);
    lemma_offsets_symmetric(OffsetTable::Diagonal);
    lemma_offsets_symmetric(OffsetTable::Orthogonal);
    lemma_offsets_symmetric(OffsetTable::Knight);
    lemma_offsets_symmetric(OffsetTable::King);
    if pawn_attack(b, x, c) {
        let a = if step(x, pawn_source(c, 0)) matches Some(a0) && holds(b, a0, c, PieceKind::Pawn) {
            x + pawn_source(c, 0)
        } else {
            x + pawn_source(c, 1)
        };
        lemma_pawn_lands(b, a, c, x);
        assert(lands(moves_at(b, a), x));
    } else if jump_attack(b, x, c, PieceKind::Knight, offsets(OffsetTable::Knight), 8) || jump_attack(
        b,
        x,
        c,
        PieceKind::King,
        offsets(OffsetTable::King),
        8,
    ) {
        let (t, kind) = if jump_attack(b, x, c, PieceKind::Knight, offsets(OffsetTable::Knight), 8) {
            (OffsetTable::Knight, PieceKind::Knight)
        } else {
            (OffsetTable::King, PieceKind::King)
        };
        let offs = offsets(t);
        lemma_jump_attack_index(b, x, c, kind, offs, 8);
        let k = choose|k: int| 0 <= k < 8 && onboard(x + offs[k]) && holds(b, #[trigger] (x + offs[k]), c, kind);
        let a = x + offs[k];
        assert(offs[7 - k] == -offs[k]);
        assert(a + offs[7 - k] == x);
        lemma_jump_lands(b, a, c, offs, 8, x);
        assert(lands(moves_at(b, a), x));
    } else {
        let (t, kind) = if slider_attack(b, x, c, PieceKind::Bishop, diag, 4) {
            (OffsetTable::Diagonal, PieceKind::Bishop)
        } else if slider_attack(b, x, c, PieceKind::Rook, orth, 4) {
            (OffsetTable::Orthogonal, PieceKind::Rook)
        } else if slider_attack(b, x, c, PieceKind::Queen, diag, 4) {
            (OffsetTable::Diagonal, PieceKind::Queen)
        } else {
            (OffsetTable::Orthogonal, PieceKind::Queen)
        };
        let offs = offsets(t);
        lemma_slider_attack_index(b, x, c, kind, offs, 4);
        let k = choose|k: int| 0 <= k < 4 && #[trigger] slider_hit(b, x, offs[k], c, kind);
        lemma_hit_reverse(b, x, c, kind, t, k);
        let a = choose|a: int| onboard(a) && holds(b, a, c, kind) && ray_reaches(b, a, offs[3 - k], x);
        lemma_slider_lands(b, a, c, offs, 4, x);
        assert(lands(slider_moves(b, a, c, offs, 4), x));
        if kind == PieceKind::Queen {
            lemma_lands_concat(slider_moves(b, a, c, diag, 4), slider_moves(b, a, c, orth, 4), x);
        }
        assert(lands(moves_at(b, a), x));
    }
}

/// Attack symmetry: a square holding a piece of the side not to move is attacked by the side to
/// move exactly when some pseudo-legal move of the side to move (own king safety ignored) lands
/// on it; pawn pushes, which never land on an occupied square, count for nothing.
pub proof fn lemma_attack_symmetry(b: BoardView, x: int)
    requires
        b.wf(),
        onboard(x),
        enemy_on(b, x, b.side_to_move),
    ensures
        attacked(b, x, b.side_to_move) <==> lands(pseudo_moves(b), x),
{
    lemma_lands_concat(board_moves(b, 128), castling_moves(b), x);
    lemma_castling_lands_nowhere_occupied(b, x);
    lemma_board_moves_lands(b, 128, x);
    if attacked(b, x, b.side_to_move) {
        lemma_attack_to_moves(b, x);
    }
    if lands(pseudo_moves(b), x) {
        let i = choose|i: int| 0 <= i < 128 && #[trigger] lands(moves_at(b, i), x);
        lemma_moves_to_attack(b, i, x);
    }
}

} // verus!
