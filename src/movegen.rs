use vstd::prelude::*;
use crate::apply_move::{board_after, make_ok, sound_move};
use crate::board::{Board, BoardView};
use crate::castling::{has_kingside, has_queenside, kingside_bit, queenside_bit};
use crate::types::{
    Color, GameStatus, Move, Piece, PieceKind, Square, onboard, file_of, rank_of, opponent,
    is_valid_square,
};

verus! {

/// The four offset tables of the piece moves.
#[derive(Clone, Copy, PartialEq, Eq, Structural)]
pub enum OffsetTable {
    Knight,
    Diagonal,
    Orthogonal,
    King,
}

pub open spec fn offsets(t: OffsetTable) -> Seq<int> {
    match t {
        OffsetTable::Knight => seq![-33int, -31, -18, -14, 14, 18, 31, 33],
        OffsetTable::Diagonal => seq![-17int, -15, 15, 17],
        OffsetTable::Orthogonal => seq![-16int, -1, 1, 16],
        OffsetTable::King => seq![-17int, -16, -15, -1, 1, 15, 16, 17],
    }
}

pub fn offset_count(t: OffsetTable) -> (r: usize)
    ensures
        r == offsets(t).len(),
{
    match t {
        OffsetTable::Knight => 8,
        OffsetTable::Diagonal => 4,
        OffsetTable::Orthogonal => 4,
        OffsetTable::King => 8,
    }
}

pub fn offset_at(t: OffsetTable, k: usize) -> (r: i8)
    requires
        k < offsets(t).len(),
    ensures
        r == offsets(t)[k as int],
{
    match t {
        OffsetTable::Knight => if k == 0 {
            -33
        } else if k == 1 {
            -31
        } else if k == 2 {
            -18
        } else if k == 3 {
            -14
        } else if k == 4 {
            14
        } else if k == 5 {
            18
        } else if k == 6 {
            31
        } else {
            33
        },
        OffsetTable::Diagonal => if k == 0 {
            -17
        } else if k == 1 {
            -15
        } else if k == 2 {
            15
        } else {
            17
        },
        OffsetTable::Orthogonal => if k == 0 {
            -16
        } else if k == 1 {
            -1
        } else if k == 2 {
            1
        } else {
            16
        },
        OffsetTable::King => if k == 0 {
            -17
        } else if k == 1 {
            -16
        } else if k == 2 {
            -15
        } else if k == 3 {
            -1
        } else if k == 4 {
            1
        } else if k == 5 {
            15
        } else if k == 6 {
            16
        } else {
            17
        },
    }
}

/// The square reached from `i` by offset `d`, if it is on the board.
pub open spec fn step(i: int, d: int) -> Option<int> {
    if onboard(i + d) {
        Some(i + d)
    } else {
        None
    }
}

pub fn is_onboard(square: Square) -> (r: bool)
    ensures
        r == onboard(square.0 as int),
{
    is_valid_square(square.index())
}

pub fn offset_square(square: Square, offset: i8) -> (r: Option<Square>)
    ensures
        r == (match step(square.0 as int, offset as int) {
            Some(t) => Some(Square(t as u8)),
            None => None::<Square>,
        }),
{
    let index: i16 = square.index() as i16 + offset as i16;
    if index < 0 || index > 127 {
        return None;
    }
    let candidate = Square(index as u8);
    if is_onboard(candidate) {
        Some(candidate)
    } else {
        None
    }
}

pub open spec fn plain(from: int, to: int) -> Move {
    Move { from: Square(from as u8), to: Square(to as u8), promotion: None }
}

pub open spec fn promoting(from: int, to: int, k: PieceKind) -> Move {
    Move { from: Square(from as u8), to: Square(to as u8), promotion: Some(k) }
}

/// A pawn landing on `to`: four promotions on the last ranks, else one plain move.
pub open spec fn advance(from: int, to: int) -> Seq<Move> {
    if rank_of(to) == 0 || rank_of(to) == 7 {
        seq![
            promoting(from, to, PieceKind::Queen),
            promoting(from, to, PieceKind::Rook),
            promoting(from, to, PieceKind::Bishop),
            promoting(from, to, PieceKind::Knight),
        ]
    } else {
        seq![plain(from, to)]
    }
}

pub open spec fn forward(c: Color) -> int {
    match c {
        Color::White => 16,
        Color::Black => -16,
    }
}

pub open spec fn pawn_home_rank(c: Color) -> int {
    match c {
        Color::White => 1,
        Color::Black => 6,
    }
}

#[verifier::opaque]
pub open spec fn pawn_pushes(b: BoardView, from: int, c: Color) -> Seq<Move> {
    match step(from, forward(c)) {
        Some(t) => if b.squares[t] is None {
            advance(from, t) + match step(from, 2 * forward(c)) {
                Some(t2) => if rank_of(from) == pawn_home_rank(c) && b.squares[t2] is None {
                    seq![plain(from, t2)]
                } else {
                    Seq::empty()
                },
                None => Seq::empty(),
            }
        } else {
            Seq::empty()
        },
        None => Seq::empty(),
    }
}

#[verifier::opaque]
pub open spec fn pawn_capture(b: BoardView, from: int, d: int) -> Seq<Move> {
    match step(from, d) {
        Some(t) => match b.squares[t] {
            Some(p) => if p.color != b.squares[from].unwrap().color {
                advance(from, t)
            } else {
                Seq::empty()
            },
            None => Seq::empty(),
        },
        None => Seq::empty(),
    }
}

#[verifier::opaque]
pub open spec fn pawn_en_passant(b: BoardView, from: int, d: int) -> Seq<Move> {
    match (b.en_passant, step(from, d)) {
        (Some(e), Some(t)) => if e.0 as int == t {
            seq![plain(from, t)]
        } else {
            Seq::empty()
        },
        _ => Seq::empty(),
    }
}

/// The two diagonal offsets of a pawn of color `c`, in generation order.
pub open spec fn pawn_diagonal(c: Color, k: int) -> int {
    match c {
        Color::White => if k == 0 {
            15
        } else {
            17
        },
        Color::Black => if k == 0 {
            -15
        } else {
            -17
        },
    }
}

pub open spec fn pawn_moves(b: BoardView, from: int, c: Color) -> Seq<Move> {
    pawn_pushes(b, from, c) + pawn_capture(b, from, pawn_diagonal(c, 0)) + pawn_capture(
        b,
        from,
        pawn_diagonal(c, 1),
    ) + pawn_en_passant(b, from, pawn_diagonal(c, 0)) + pawn_en_passant(
        b,
        from,
        pawn_diagonal(c, 1),
    )
}

pub open spec fn jump_one(b: BoardView, from: int, c: Color, d: int) -> Seq<Move> {
    match step(from, d) {
        Some(t) => match b.squares[t] {
            None => seq![plain(from, t)],
            Some(p) => if p.color != c {
                seq![plain(from, t)]
            } else {
                Seq::empty()
            },
        },
        None => Seq::empty(),
    }
}

pub open spec fn jump_moves(b: BoardView, from: int, c: Color, offs: Seq<int>, n: nat) -> Seq<
    Move,
>
    decreases n,
{
    if n == 0 {
        Seq::empty()
    } else {
        jump_moves(b, from, c, offs, (n - 1) as nat) + jump_one(b, from, c, offs[n - 1])
    }
}

pub open spec fn ray_measure(cur: int, d: int) -> int {
    if d > 0 {
        128 - cur
    } else {
        cur
    }
}

/// The moves of a slider from `from` along `d`, continuing from `cur`.
pub open spec fn ray(b: BoardView, from: int, c: Color, cur: int, d: int) -> Seq<Move>
    decreases ray_measure(cur, d),
{
    if d == 0 || !(0 <= cur < 128) {
        Seq::empty()
    } else {
        match step(cur, d) {
            None => Seq::empty(),
            Some(n) => match b.squares[n] {
                None => seq![plain(from, n)] + ray(b, from, c, n, d),
                Some(p) => if p.color != c {
                    seq![plain(from, n)]
                } else {
                    Seq::empty()
                },
            },
        }
    }
}

pub open spec fn slider_moves(b: BoardView, from: int, c: Color, offs: Seq<int>, n: nat) -> Seq<
    Move,
>
    decreases n,
{
    if n == 0 {
        Seq::empty()
    } else {
        slider_moves(b, from, c, offs, (n - 1) as nat) + ray(b, from, c, from, offs[n - 1])
    }
}

pub open spec fn piece_moves(b: BoardView, from: int, p: Piece) -> Seq<Move> {
    match p.kind {
        PieceKind::Pawn => pawn_moves(b, from, p.color),
        PieceKind::Knight => jump_moves(b, from, p.color, offsets(OffsetTable::Knight), 8),
        PieceKind::Bishop => slider_moves(b, from, p.color, offsets(OffsetTable::Diagonal), 4),
        PieceKind::Rook => slider_moves(b, from, p.color, offsets(OffsetTable::Orthogonal), 4),
        PieceKind::Queen => slider_moves(b, from, p.color, offsets(OffsetTable::Diagonal), 4)
            + slider_moves(b, from, p.color, offsets(OffsetTable::Orthogonal), 4),
        PieceKind::King => jump_moves(b, from, p.color, offsets(OffsetTable::King), 8),
    }
}

pub open spec fn moves_at(b: BoardView, i: int) -> Seq<Move> {
    if onboard(i) {
        match b.squares[i] {
            Some(p) => if p.color == b.side_to_move {
                piece_moves(b, i, p)
            } else {
                Seq::empty()
            },
            None => Seq::empty(),
        }
    } else {
        Seq::empty()
    }
}

/// The moves of the pieces on the first `n` slots, slot by slot.
pub open spec fn board_moves(b: BoardView, n: nat) -> Seq<Move>
    decreases n,
{
    if n == 0 {
        Seq::empty()
    } else {
        board_moves(b, (n - 1) as nat) + moves_at(b, n - 1)
    }
}

// ---------------------------------------------------------------- attacks

pub open spec fn holds(b: BoardView, i: int, c: Color, k: PieceKind) -> bool {
    b.squares[i] == Some(Piece { color: c, kind: k })
}

/// The first piece met from `cur` along `d` is a `k` of color `c`.
pub open spec fn slider_hit(b: BoardView, cur: int, d: int, c: Color, k: PieceKind) -> bool
    decreases ray_measure(cur, d),
{
    if d == 0 || !(0 <= cur < 128) {
        false
    } else {
        match step(cur, d) {
            None => false,
            Some(n) => match b.squares[n] {
                None => slider_hit(b, n, d, c, k),
                Some(p) => p == Piece { color: c, kind: k },
            },
        }
    }
}

pub open spec fn slider_attack(b: BoardView, sq: int, c: Color, k: PieceKind, offs: Seq<int>, n: nat) -> bool
    decreases n,
{
    if n == 0 {
        false
    } else {
        slider_attack(b, sq, c, k, offs, (n - 1) as nat) || slider_hit(b, sq, offs[n - 1], c, k)
    }
}

pub open spec fn jump_attack(b: BoardView, sq: int, c: Color, k: PieceKind, offs: Seq<int>, n: nat) -> bool
    decreases n,
{
    if n == 0 {
        false
    } else {
        jump_attack(b, sq, c, k, offs, (n - 1) as nat) || match step(sq, offs[n - 1]) {
            Some(a) => holds(b, a, c, k),
            None => false,
        }
    }
}

/// The two squares from which a pawn of color `c` would capture on a square.
pub open spec fn pawn_source(c: Color, k: int) -> int {
    match c {
        Color::White => if k == 0 {
            -15
        } else {
            -17
        },
        Color::Black => if k == 0 {
            15
        } else {
            17
        },
    }
}

pub open spec fn pawn_attack(b: BoardView, sq: int, c: Color) -> bool {
    (match step(sq, pawn_source(c, 0)) {
        Some(a) => holds(b, a, c, PieceKind::Pawn),
        None => false,
    }) || (match step(sq, pawn_source(c, 1)) {
        Some(a) => holds(b, a, c, PieceKind::Pawn),
        None => false,
    })
}

/// Some piece of color `c` attacks square `sq`.
pub open spec fn attacked(b: BoardView, sq: int, c: Color) -> bool {
    ||| pawn_attack(b, sq, c)
    ||| jump_attack(b, sq, c, PieceKind::Knight, offsets(OffsetTable::Knight), 8)
    ||| slider_attack(b, sq, c, PieceKind::Bishop, offsets(OffsetTable::Diagonal), 4)
    ||| slider_attack(b, sq, c, PieceKind::Rook, offsets(OffsetTable::Orthogonal), 4)
    ||| slider_attack(b, sq, c, PieceKind::Queen, offsets(OffsetTable::Diagonal), 4)
    ||| slider_attack(b, sq, c, PieceKind::Queen, offsets(OffsetTable::Orthogonal), 4)
    ||| jump_attack(b, sq, c, PieceKind::King, offsets(OffsetTable::King), 8)
}

// ---------------------------------------------------------------- castling

pub open spec fn home_rank(c: Color) -> int {
    match c {
        Color::White => 0,
        Color::Black => 7,
    }
}

pub open spec fn castle_kingside_ok(b: BoardView, c: Color) -> bool {
    let r = home_rank(c) * 16;
    &&& b.castling_rights & kingside_bit(c) != 0
    &&& holds(b, r + 7, c, PieceKind::Rook)
    &&& b.squares[r + 5] is None
    &&& b.squares[r + 6] is None
    &&& !attacked(b, r + 4, opponent(c))
    &&& !attacked(b, r + 5, opponent(c))
}

pub open spec fn castle_queenside_ok(b: BoardView, c: Color) -> bool {
    let r = home_rank(c) * 16;
    &&& b.castling_rights & queenside_bit(c) != 0
    &&& holds(b, r, c, PieceKind::Rook)
    &&& b.squares[r + 1] is None
    &&& b.squares[r + 2] is None
    &&& b.squares[r + 3] is None
    &&& !attacked(b, r + 4, opponent(c))
    &&& !attacked(b, r + 3, opponent(c))
}

/// Castling moves of the side to move: the king steps two files toward a rook whose right is
/// held, over empty squares, neither standing on nor crossing an attacked square.
pub open spec fn castling_moves(b: BoardView) -> Seq<Move> {
    let c = b.side_to_move;
    let r = home_rank(c) * 16;
    if holds(b, r + 4, c, PieceKind::King) {
        (if castle_kingside_ok(b, c) {
            seq![plain(r + 4, r + 6)]
        } else {
            Seq::empty()
        }) + (if castle_queenside_ok(b, c) {
            seq![plain(r + 4, r + 2)]
        } else {
            Seq::empty()
        })
    } else {
        Seq::empty()
    }
}

/// Every pseudo-legal move of the side to move, in generation order.
pub open spec fn pseudo_moves(b: BoardView) -> Seq<Move> {
    board_moves(b, 128) + castling_moves(b)
}

// ---------------------------------------------------------------- positions

/// The en-passant target, if set, lies on the rank behind an enemy pawn that just advanced two.
pub open spec fn en_passant_ok(b: BoardView) -> bool {
    b.en_passant matches Some(e) ==> {
        let v = e.0 as int - forward(b.side_to_move);
        &&& onboard(e.0 as int)
        &&& rank_of(e.0 as int) == (if b.side_to_move == Color::White {
            5int
        } else {
            2int
        })
        &&& holds(b, v, opponent(b.side_to_move), PieceKind::Pawn)
    }
}

/// A position on which moves can be generated, made and taken back.
pub open spec fn position_ok(b: BoardView) -> bool {
    b.wf() && en_passant_ok(b)
}

/// A generated move can be made and taken back, and leaves a position of the same kind.
#[verifier::opaque]
pub open spec fn gen_ok(b: BoardView, mv: Move) -> bool {
    sound_move(b, mv) && position_ok(board_after(b, mv)) && promotion_ok(mv)
}

/// No promotion, or a promotion to a queen, rook, bishop or knight.
pub open spec fn promotion_ok(mv: Move) -> bool {
    match mv.promotion {
        None => true,
        Some(k) => crate::types::promotion_letter(k) is Some,
    }
}

pub open spec fn all_gen_ok(b: BoardView, s: Seq<Move>) -> bool {
    forall|i: int| 0 <= i < s.len() ==> gen_ok(b, #[trigger] s[i])
}

/// On-board squares `d = 16 * dr + df` apart differ by `dr` ranks and `df` files.
pub proof fn lemma_step_coords(i: int, dr: int, df: int)
    requires
        onboard(i),
        onboard(i + 16 * dr + df),
        -2 <= df <= 2,
    ensures
        rank_of(i + 16 * dr + df) == rank_of(i) + dr,
        file_of(i + 16 * dr + df) == file_of(i) + df,
{
    let r = i / 16;
    let f = i % 16;
    let j = i + 16 * dr + df;
    assert(i == 16 * r + f);
    if f + df < 0 {
        vstd::arithmetic::div_mod::lemma_fundamental_div_mod_converse(j, 16, r + dr - 1, f + df + 16);
        assert(false);
    } else {
        vstd::arithmetic::div_mod::lemma_fundamental_div_mod_converse(j, 16, r + dr, f + df);
    }
}

proof fn lemma_jump_attack_mono(b: BoardView, sq: int, c: Color, k: PieceKind, offs: Seq<int>, n: nat, m: nat)
    requires
        n <= m,
        jump_attack(b, sq, c, k, offs, n),
    ensures
        jump_attack(b, sq, c, k, offs, m),
    decreases m - n,
{
    if n < m {
        lemma_jump_attack_mono(b, sq, c, k, offs, n, (m - 1) as nat);
    }
}

proof fn lemma_slider_attack_mono(b: BoardView, sq: int, c: Color, k: PieceKind, offs: Seq<int>, n: nat, m: nat)
    requires
        n <= m,
        slider_attack(b, sq, c, k, offs, n),
    ensures
        slider_attack(b, sq, c, k, offs, m),
    decreases m - n,
{
    if n < m {
        lemma_slider_attack_mono(b, sq, c, k, offs, n, (m - 1) as nat);
    }
}

pub fn opposite_color(color: Color) -> (r: Color)
    ensures
        r == opponent(color),
{
    match color {
        Color::White => Color::Black,
        Color::Black => Color::White,
    }
}

fn is_attacked_by_pawn(board: &Board, square: Square, by_color: Color) -> (r: bool)
    requires
        board.wf(),
    ensures
        r == pawn_attack(board@, square.0 as int, by_color),
{
    let (o0, o1): (i8, i8) = match by_color {
        Color::White => (-15, -17),
        Color::Black => (15, 17),
    };
    let a0 = match offset_square(square, o0) {
        Some(a) => match board.squares[a.0 as usize] {
            Some(p) => p.color == by_color && p.kind == PieceKind::Pawn,
            None => false,
        },
        None => false,
    };
    if a0 {
        return true;
    }
    match offset_square(square, o1) {
        Some(a) => match board.squares[a.0 as usize] {
            Some(p) => p.color == by_color && p.kind == PieceKind::Pawn,
            None => false,
        },
        None => false,
    }
}

fn is_attacked_by_jump(board: &Board, square: Square, by_color: Color, kind: PieceKind, table: OffsetTable) -> (r: bool)
    requires
        board.wf(),
    ensures
        r == jump_attack(board@, square.0 as int, by_color, kind, offsets(table), offsets(table).len()),
{
    let n = offset_count(table);
    let mut k: usize = 0;
    while k < n
        invariant
            board.wf(),
            n == offsets(table).len(),
            k <= n,
            !jump_attack(board@, square.0 as int, by_color, kind, offsets(table), k as nat),
        decreases n - k,
    {
        let hit = match offset_square(square, offset_at(table, k)) {
            Some(a) => match board.squares[a.0 as usize] {
                Some(p) => p.color == by_color && p.kind == kind,
                None => false,
            },
            None => false,
        };
        if hit {
            proof {
                lemma_jump_attack_mono(board@, square.0 as int, by_color, kind, offsets(table), (k + 1) as nat, n as nat);
            }
            return true;
        }
        k += 1;
    }
    false
}

fn slides_to(board: &Board, square: Square, offset: i8, by_color: Color, kind: PieceKind) -> (r: bool)
    requires
        board.wf(),
        square.0 < 128,
    ensures
        r == slider_hit(board@, square.0 as int, offset as int, by_color, kind),
{
    if offset == 0 {
        return false;
    }
    let mut current = square;
    loop
        invariant
            board.wf(),
            current.0 < 128,
            offset != 0,
            slider_hit(board@, square.0 as int, offset as int, by_color, kind)
                == slider_hit(board@, current.0 as int, offset as int, by_color, kind),
        decreases ray_measure(current.0 as int, offset as int),
    {
        let next = match offset_square(current, offset) {
            Some(s) => s,
            None => return false,
        };
        match board.squares[next.0 as usize] {
            None => {
                current = next;
            },
            Some(p) => {
                return p.color == by_color && p.kind == kind;
            },
        }
    }
}

fn is_attacked_by_slider(board: &Board, square: Square, by_color: Color, kind: PieceKind, table: OffsetTable) -> (r: bool)
    requires
        board.wf(),
        square.0 < 128,
    ensures
        r == slider_attack(board@, square.0 as int, by_color, kind, offsets(table), offsets(table).len()),
{
    let n = offset_count(table);
    let mut k: usize = 0;
    while k < n
        invariant
            board.wf(),
            square.0 < 128,
            n == offsets(table).len(),
            k <= n,
            !slider_attack(board@, square.0 as int, by_color, kind, offsets(table), k as nat),
        decreases n - k,
    {
        if slides_to(board, square, offset_at(table, k), by_color, kind) {
            proof {
                lemma_slider_attack_mono(board@, square.0 as int, by_color, kind, offsets(table), (k + 1) as nat, n as nat);
            }
            return true;
        }
        k += 1;
    }
    false
}

/// Whether a piece of `by_color` attacks `square`.
pub fn is_square_attacked(board: &Board, square: Square, by_color: Color) -> (r: bool)
    requires
        board.wf(),
        square.0 < 128,
    ensures
        r == attacked(board@, square.0 as int, by_color),
{
    if is_attacked_by_pawn(board, square, by_color) {
        return true;
    }
    if is_attacked_by_jump(board, square, by_color, PieceKind::Knight, OffsetTable::Knight) {
        return true;
    }
    if is_attacked_by_slider(board, square, by_color, PieceKind::Bishop, OffsetTable::Diagonal) {
        return true;
    }
    if is_attacked_by_slider(board, square, by_color, PieceKind::Rook, OffsetTable::Orthogonal) {
        return true;
    }
    if is_attacked_by_slider(board, square, by_color, PieceKind::Queen, OffsetTable::Diagonal) {
        return true;
    }
    if is_attacked_by_slider(board, square, by_color, PieceKind::Queen, OffsetTable::Orthogonal) {
        return true;
    }
    is_attacked_by_jump(board, square, by_color, PieceKind::King, OffsetTable::King)
}

/// The first slot, in index order, that holds the king of `c`.
pub open spec fn king_square(b: BoardView, c: Color) -> Option<int>
    decreases 128int,
{
    king_square_from(b, c, 0)
}

pub open spec fn king_square_from(b: BoardView, c: Color, i: int) -> Option<int>
    decreases 128 - i,
{
    if !(0 <= i < 128) {
        None
    } else if onboard(i) && holds(b, i, c, PieceKind::King) {
        Some(i)
    } else {
        king_square_from(b, c, i + 1)
    }
}

proof fn lemma_king_square_range(b: BoardView, c: Color, i: int)
    ensures
        king_square_from(b, c, i) matches Some(k) ==> onboard(k),
    decreases 128 - i,
{
    if 0 <= i < 128 && !(onboard(i) && holds(b, i, c, PieceKind::King)) {
        lemma_king_square_range(b, c, i + 1);
    }
}

pub fn find_king(board: &Board, color: Color) -> (r: Option<Square>)
    requires
        board.wf(),
    ensures
        r == (match king_square(board@, color) {
            Some(i) => Some(Square(i as u8)),
            None => None::<Square>,
        }),
        r matches Some(s) ==> onboard(s.0 as int),
{
    let mut index: u8 = 0;
    while index < 128
        invariant
            board.wf(),
            index <= 128,
            king_square(board@, color) == king_square_from(board@, color, index as int),
        decreases 128 - index,
    {
        if is_valid_square(index) {
            match board.squares[index as usize] {
                Some(p) => {
                    if p.color == color && p.kind == PieceKind::King {
                        return Some(Square(index));
                    }
                },
                None => {},
            }
        }
        index += 1;
    }
    None
}

/// The king of `c` stands on a square attacked by the other side.
#[verifier::opaque]
pub open spec fn in_check(b: BoardView, c: Color) -> bool {
    match king_square(b, c) {
        Some(k) => attacked(b, k, opponent(c)),
        None => false,
    }
}

pub fn is_king_in_check(board: &Board, color: Color) -> (r: bool)
    requires
        board.wf(),
    ensures
        r == in_check(board@, color),
{
    proof {
        lemma_king_square_range(board@, color, 0);
        reveal(in_check);
    }
    let king = match find_king(board, color) {
        Some(s) => s,
        None => return false,
    };
    is_square_attacked(board, king, opposite_color(color))
}

// ---------------------------------------------------------------- generation

pub proof fn lemma_all_gen_ok_concat(b: BoardView, s1: Seq<Move>, s2: Seq<Move>)
    requires
        all_gen_ok(b, s1),
        all_gen_ok(b, s2),
    ensures
        all_gen_ok(b, s1 + s2),
{
    assert forall|i: int| 0 <= i < (s1 + s2).len() implies gen_ok(b, #[trigger] (s1 + s2)[i]) by {
        if i < s1.len() {
            assert((s1 + s2)[i] == s1[i]);
        } else {
            assert((s1 + s2)[i] == s2[i - s1.len()]);
        }
    }
}

/// A move that is neither a castle, nor an en-passant capture, nor a double pawn advance.
proof fn lemma_simple_gen_ok(b: BoardView, mv: Move)
    requires
        position_ok(b),
        crate::apply_move::move_onboard(mv),
        mv.from != mv.to,
        b.squares[mv.from.0 as int] matches Some(p) && p.color == b.side_to_move,
        !crate::apply_move::is_castle(b, mv),
        !crate::apply_move::is_en_passant_capture(b, mv),
        crate::apply_move::en_passant_after(b, mv) is None,
        promotion_ok(mv),
    ensures
        gen_ok(b, mv),
{
    reveal(gen_ok);
    assert(make_ok(b, mv));
    assert(board_after(b, mv).squares.len() == 128);
}

/// A pawn step of one rank forward, straight or diagonal.
proof fn lemma_pawn_step_gen_ok(b: BoardView, from: int, to: int, promo: Option<PieceKind>)
    requires
        position_ok(b),
        onboard(from),
        onboard(to),
        b.squares[from] == Some(Piece { color: b.side_to_move, kind: PieceKind::Pawn }),
        rank_of(to) == rank_of(from) + forward(b.side_to_move) / 16,
        -1 <= file_of(to) - file_of(from) <= 1,
        promotion_ok(Move { from: Square(from as u8), to: Square(to as u8), promotion: promo }),
    ensures
        gen_ok(b, Move { from: Square(from as u8), to: Square(to as u8), promotion: promo }),
{
    let mv = Move { from: Square(from as u8), to: Square(to as u8), promotion: promo };
    assert(mv.from.0 as int == from && mv.to.0 as int == to);
    if crate::apply_move::is_en_passant_capture(b, mv) {
        let v = crate::apply_move::en_passant_victim(b, mv);
        assert(v == to - forward(b.side_to_move));
        assert(rank_of(v) == rank_of(from));
        assert(v == 16 * rank_of(from) + file_of(to));
        if file_of(to) == file_of(from) {
            assert(v == from);
            assert(false);
        }
        assert(v != from);
        reveal(gen_ok);
        assert(make_ok(b, mv));
        assert(board_after(b, mv).squares.len() == 128);
    } else {
        lemma_simple_gen_ok(b, mv);
    }
}

proof fn lemma_advance_gen_ok(b: BoardView, from: int, to: int)
    requires
        position_ok(b),
        onboard(from),
        onboard(to),
        b.squares[from] == Some(Piece { color: b.side_to_move, kind: PieceKind::Pawn }),
        rank_of(to) == rank_of(from) + forward(b.side_to_move) / 16,
        -1 <= file_of(to) - file_of(from) <= 1,
    ensures
        all_gen_ok(b, advance(from, to)),
{
    lemma_pawn_step_gen_ok(b, from, to, None);
    lemma_pawn_step_gen_ok(b, from, to, Some(PieceKind::Queen));
    lemma_pawn_step_gen_ok(b, from, to, Some(PieceKind::Rook));
    lemma_pawn_step_gen_ok(b, from, to, Some(PieceKind::Bishop));
    lemma_pawn_step_gen_ok(b, from, to, Some(PieceKind::Knight));
}

/// A pawn of the side to move, on a position fit for generation, stepping diagonally forward.
pub open spec fn own_pawn_step(b: BoardView, from: int, d: int) -> bool {
    &&& position_ok(b)
    &&& b.squares[from] == Some(Piece { color: b.side_to_move, kind: PieceKind::Pawn })
    &&& (d == forward(b.side_to_move) - 1 || d == forward(b.side_to_move) + 1)
}

pub fn add_pawn_advance(from: Square, to: Square, moves: &mut Vec<Move>)
    requires
        to.0 < 128,
    ensures
        final(moves)@ == old(moves)@ + advance(from.0 as int, to.0 as int),
{
    let to_rank = to.0 >> 4;
    proof {
        crate::types::lemma_valid_square_bits(to.0);
    }
    if to_rank == 0 || to_rank == 7 {
        moves.push(Move { from, to, promotion: Some(PieceKind::Queen) });
        moves.push(Move { from, to, promotion: Some(PieceKind::Rook) });
        moves.push(Move { from, to, promotion: Some(PieceKind::Bishop) });
        moves.push(Move { from, to, promotion: Some(PieceKind::Knight) });
    } else {
        moves.push(Move { from, to, promotion: None });
    }
    assert(final(moves)@ =~= old(moves)@ + advance(from.0 as int, to.0 as int));
}

proof fn lemma_step_ok(from: int, d: int)
    requires
        onboard(from),
        onboard(from + d),
        d == 15 || d == 16 || d == 17 || d == -15 || d == -16 || d == -17,
    ensures
        rank_of(from + d) == rank_of(from) + (if d > 0 { 1int } else { -1int }),
        file_of(from + d) - file_of(from) == (if d == 15 || d == -17 { -1int } else if d == 16 || d == -16 { 0int } else { 1int }),
{
    if d == 15 {
        lemma_step_coords(from, 1, -1);
    } else if d == 16 {
        lemma_step_coords(from, 1, 0);
    } else if d == 17 {
        lemma_step_coords(from, 1, 1);
    } else if d == -15 {
        lemma_step_coords(from, -1, 1);
    } else if d == -16 {
        lemma_step_coords(from, -1, 0);
    } else {
        lemma_step_coords(from, -1, -1);
    }
}

pub fn generate_pawn_capture(board: &Board, from: Square, offset: i8, moves: &mut Vec<Move>)
    requires
        board.wf(),
        onboard(from.0 as int),
        board@.squares[from.0 as int] is Some,
    ensures
        final(moves)@ == old(moves)@ + pawn_capture(board@, from.0 as int, offset as int),
        own_pawn_step(board@, from.0 as int, offset as int) && all_gen_ok(board@, old(moves)@)
            ==> all_gen_ok(board@, final(moves)@),
{
    reveal(pawn_capture);
    let target = match offset_square(from, offset) {
        Some(square) => square,
        None => return,
    };
    let target_piece = match board.squares[target.0 as usize] {
        Some(piece) => piece,
        None => return,
    };
    let from_piece = match board.squares[from.0 as usize] {
        Some(p) => p,
        None => return,
    };
    if target_piece.color == from_piece.color {
        return;
    }
    add_pawn_advance(from, target, moves);
    proof {
        let b = board@;
        if own_pawn_step(b, from.0 as int, offset as int) && all_gen_ok(b, old(moves)@) {
            lemma_step_ok(from.0 as int, offset as int);
            lemma_advance_gen_ok(b, from.0 as int, target.0 as int);
            lemma_all_gen_ok_concat(b, old(moves)@, advance(from.0 as int, target.0 as int));
        }
    }
}

pub fn generate_en_passant(board: &Board, from: Square, offset: i8, moves: &mut Vec<Move>)
    requires
        board.wf(),
        onboard(from.0 as int),
    ensures
        final(moves)@ == old(moves)@ + pawn_en_passant(board@, from.0 as int, offset as int),
        own_pawn_step(board@, from.0 as int, offset as int) && all_gen_ok(board@, old(moves)@)
            ==> all_gen_ok(board@, final(moves)@),
{
    reveal(pawn_en_passant);
    let ep = match board.en_passant {
        Some(square) => square,
        None => return,
    };
    let target = match offset_square(from, offset) {
        Some(square) => square,
        None => return,
    };
    if target != ep {
        return;
    }
    let mv = Move { from, to: ep, promotion: None };
    moves.push(mv);
    proof {
        let b = board@;
        assert(final(moves)@ =~= old(moves)@ + pawn_en_passant(b, from.0 as int, offset as int));
        if own_pawn_step(b, from.0 as int, offset as int) && all_gen_ok(b, old(moves)@) {
            lemma_step_ok(from.0 as int, offset as int);
            lemma_pawn_step_gen_ok(b, from.0 as int, target.0 as int, None);
            assert(all_gen_ok(b, seq![mv]));
            lemma_all_gen_ok_concat(b, old(moves)@, seq![mv]);
        }
    }
}

/// The double advance of a pawn from its home rank over an empty square.
proof fn lemma_double_push_gen_ok(b: BoardView, from: int)
    requires
        position_ok(b),
        onboard(from),
        b.squares[from] == Some(Piece { color: b.side_to_move, kind: PieceKind::Pawn }),
        rank_of(from) == pawn_home_rank(b.side_to_move),
        onboard(from + forward(b.side_to_move)),
        onboard(from + 2 * forward(b.side_to_move)),
        b.squares[from + forward(b.side_to_move)] is None,
        b.squares[from + 2 * forward(b.side_to_move)] is None,
    ensures
        gen_ok(b, plain(from, from + 2 * forward(b.side_to_move))),
{
    let f = forward(b.side_to_move);
    let to = from + 2 * f;
    let mv = plain(from, to);
    if f == 16 {
        lemma_step_coords(from, 2, 0);
        lemma_step_coords(from, 1, 0);
    } else {
        lemma_step_coords(from, -2, 0);
        lemma_step_coords(from, -1, 0);
    }
    assert(mv.from.0 as int == from && mv.to.0 as int == to);
    assert(!crate::apply_move::is_en_passant_capture(b, mv));
    assert(make_ok(b, mv));
    let a = board_after(b, mv);
    assert(a.squares.len() == 128);
    assert(a.squares[to] == b.squares[from]);
    reveal(gen_ok);
}

fn generate_pawn_pushes(board: &Board, from: Square, piece: Piece, moves: &mut Vec<Move>)
    requires
        board.wf(),
        onboard(from.0 as int),
        board@.squares[from.0 as int] == Some(piece),
        piece.kind == PieceKind::Pawn,
    ensures
        final(moves)@ == old(moves)@ + pawn_pushes(board@, from.0 as int, piece.color),
        position_ok(board@) && piece.color == board.side_to_move && all_gen_ok(board@, old(moves)@)
            ==> all_gen_ok(board@, final(moves)@),
{
    let ghost b = board@;
    let ghost f = from.0 as int;
    let ghost start = moves@;
    let ghost fit = position_ok(b) && piece.color == b.side_to_move && all_gen_ok(b, start);
    reveal(pawn_pushes);
    let (dir, home): (i8, u8) = match piece.color {
        Color::White => (16, 1),
        Color::Black => (-16, 6),
    };
    proof {
        crate::types::lemma_valid_square_bits(from.0);
    }
    let from_rank = from.0 >> 4;
    let to = match offset_square(from, dir) {
        Some(t) => t,
        None => return,
    };
    if board.squares[to.0 as usize].is_some() {
        return;
    }
    add_pawn_advance(from, to, moves);
    proof {
        if fit {
            lemma_step_ok(f, dir as int);
            lemma_advance_gen_ok(b, f, to.0 as int);
            lemma_all_gen_ok_concat(b, start, advance(f, to.0 as int));
        }
    }
    let ghost mid = moves@;
    let two = offset_square(from, 2 * dir);
    if from_rank == home {
        if let Some(to2) = two {
            if board.squares[to2.0 as usize].is_none() {
                moves.push(Move { from, to: to2, promotion: None });
                proof {
                    if fit {
                        lemma_double_push_gen_ok(b, f);
                        assert(all_gen_ok(b, seq![plain(f, to2.0 as int)]));
                        lemma_all_gen_ok_concat(b, mid, seq![plain(f, to2.0 as int)]);
                        assert(moves@ =~= mid + seq![plain(f, to2.0 as int)]);
                    }
                }
            }
        }
    }
    assert(moves@ =~= start + pawn_pushes(b, f, piece.color));
}

pub fn generate_pawn_moves(board: &Board, from: Square, piece: Piece, moves: &mut Vec<Move>)
    requires
        board.wf(),
        onboard(from.0 as int),
        board@.squares[from.0 as int] == Some(piece),
        piece.kind == PieceKind::Pawn,
    ensures
        final(moves)@ == old(moves)@ + pawn_moves(board@, from.0 as int, piece.color),
        position_ok(board@) && piece.color == board.side_to_move && all_gen_ok(board@, old(moves)@)
            ==> all_gen_ok(board@, final(moves)@),
{
    let ghost start = moves@;
    let ghost b = board@;
    let ghost f = from.0 as int;
    let (d0, d1): (i8, i8) = match piece.color {
        Color::White => (15, 17),
        Color::Black => (-15, -17),
    };
    proof {
        if position_ok(b) && piece.color == b.side_to_move {
            assert(own_pawn_step(b, f, d0 as int));
            assert(own_pawn_step(b, f, d1 as int));
        }
    }
    generate_pawn_pushes(board, from, piece, moves);
    generate_pawn_capture(board, from, d0, moves);
    generate_pawn_capture(board, from, d1, moves);
    generate_en_passant(board, from, d0, moves);
    generate_en_passant(board, from, d1, moves);
    assert(d0 as int == pawn_diagonal(piece.color, 0) && d1 as int == pawn_diagonal(piece.color, 1));
    assert(moves@ =~= start + pawn_moves(board@, from.0 as int, piece.color));
}

/// A non-pawn piece of the side to move on `from`.
pub open spec fn own_piece(b: BoardView, from: int, piece: Piece) -> bool {
    &&& position_ok(b)
    &&& b.squares[from] == Some(piece)
    &&& piece.color == b.side_to_move
    &&& piece.kind != PieceKind::Pawn
}

proof fn lemma_jump_geometry(from: int, d: int)
    requires
        onboard(from),
        onboard(from + d),
        offsets(OffsetTable::King).contains(d),
    ensures
        rank_of(from + d) == rank_of(from) ==> -1 <= file_of(from + d) - file_of(from) <= 1,
{
    let offs = offsets(OffsetTable::King);
    let k = choose|k: int| 0 <= k < offs.len() && offs[k] == d;
    if d == 1 {
        lemma_step_coords(from, 0, 1);
    } else if d == -1 {
        lemma_step_coords(from, 0, -1);
    } else {
        lemma_step_ok(from, d);
    }
}

pub fn generate_jump_moves(board: &Board, from: Square, piece: Piece, table: OffsetTable, moves: &mut Vec<Move>)
    requires
        board.wf(),
        onboard(from.0 as int),
        (piece.kind == PieceKind::Knight && table == OffsetTable::Knight) || (piece.kind
            == PieceKind::King && table == OffsetTable::King),
    ensures
        final(moves)@ == old(moves)@ + jump_moves(board@, from.0 as int, piece.color, offsets(table), offsets(table).len()),
        own_piece(board@, from.0 as int, piece) && all_gen_ok(board@, old(moves)@)
            ==> all_gen_ok(board@, final(moves)@),
{
    let ghost b = board@;
    let ghost f = from.0 as int;
    let ghost start = moves@;
    let ghost fit = own_piece(b, f, piece) && all_gen_ok(b, start);
    let n = offset_count(table);
    let mut k: usize = 0;
    while k < n
        invariant
            board.wf(),
            b == board@,
            f == from.0 as int,
            onboard(f),
            n == offsets(table).len(),
            k <= n,
            (piece.kind == PieceKind::Knight && table == OffsetTable::Knight) || (piece.kind
                == PieceKind::King && table == OffsetTable::King),
            moves@ == start + jump_moves(b, f, piece.color, offsets(table), k as nat),
            fit ==> all_gen_ok(b, moves@),
            fit == (own_piece(b, f, piece) && all_gen_ok(b, start)),
        decreases n - k,
    {
        let d = offset_at(table, k);
        let ghost before = moves@;
        match offset_square(from, d) {
            Some(to) => {
                let push = match board.squares[to.0 as usize] {
                    None => true,
                    Some(target) => target.color != piece.color,
                };
                if push {
                    let mv = Move { from, to, promotion: None };
                    moves.push(mv);
                    proof {
                        if fit {
                            if piece.kind == PieceKind::King {
                                assert(offsets(table)[k as int] == d as int);
                                assert(offsets(OffsetTable::King).contains(d as int));
                                lemma_jump_geometry(f, d as int);
                            }
                            lemma_simple_gen_ok(b, mv);
                            assert(all_gen_ok(b, seq![mv]));
                            lemma_all_gen_ok_concat(b, before, seq![mv]);
                            assert(moves@ =~= before + seq![mv]);
                        }
                    }
                }
            },
            None => {},
        }
        assert(moves@ =~= start + jump_moves(b, f, piece.color, offsets(table), (k + 1) as nat));
        k += 1;
    }
}

fn generate_ray(board: &Board, from: Square, piece: Piece, offset: i8, moves: &mut Vec<Move>)
    requires
        board.wf(),
        onboard(from.0 as int),
    ensures
        final(moves)@ == old(moves)@ + ray(board@, from.0 as int, piece.color, from.0 as int, offset as int),
        own_piece(board@, from.0 as int, piece) && piece.kind != PieceKind::King && all_gen_ok(board@, old(moves)@)
            ==> all_gen_ok(board@, final(moves)@),
{
    let ghost b = board@;
    let ghost f = from.0 as int;
    let ghost d = offset as int;
    let ghost start = moves@;
    let ghost fit = own_piece(b, f, piece) && piece.kind != PieceKind::King && all_gen_ok(b, start);
    if offset == 0 {
        assert(moves@ =~= start + ray(b, f, piece.color, f, d));
        return;
    }
    let mut current = from;
    loop
        invariant_except_break
            start + ray(b, f, piece.color, f, d) == moves@ + ray(b, f, piece.color, current.0 as int, d),
        invariant
            board.wf(),
            b == board@,
            f == from.0 as int,
            d == offset as int,
            d != 0,
            onboard(f),
            0 <= current.0 < 128,
            ray_measure(current.0 as int, d) <= ray_measure(f, d),
            fit ==> all_gen_ok(b, moves@),
            fit == (own_piece(b, f, piece) && piece.kind != PieceKind::King && all_gen_ok(b, start)),
        ensures
            moves@ == start + ray(b, f, piece.color, f, d),
            fit ==> all_gen_ok(b, moves@),
        decreases ray_measure(current.0 as int, d),
    {
        let ghost before = moves@;
        let ghost cur = current.0 as int;
        let next = match offset_square(current, offset) {
            Some(s) => s,
            None => {
                assert(ray(b, f, piece.color, cur, d) =~= Seq::<Move>::empty());
                assert(moves@ =~= start + ray(b, f, piece.color, f, d));
                break;
            },
        };
        let mv = Move { from, to: next, promotion: None };
        proof {
            if fit {
                lemma_simple_gen_ok(b, mv);
                assert(all_gen_ok(b, seq![mv]));
                lemma_all_gen_ok_concat(b, before, seq![mv]);
            }
        }
        match board.squares[next.0 as usize] {
            None => {
                moves.push(mv);
                assert(moves@ =~= before + seq![mv]);
                assert(before + ray(b, f, piece.color, cur, d) =~= moves@ + ray(b, f, piece.color, next.0 as int, d));
                current = next;
            },
            Some(target) => {
                if target.color != piece.color {
                    moves.push(mv);
                    assert(moves@ =~= before + seq![mv]);
                    assert(ray(b, f, piece.color, cur, d) =~= seq![mv]);
                } else {
                    assert(ray(b, f, piece.color, cur, d) =~= Seq::<Move>::empty());
                }
                assert(moves@ =~= start + ray(b, f, piece.color, f, d));
                break;
            },
        }
    }
}

pub fn generate_slider_moves(board: &Board, from: Square, piece: Piece, table: OffsetTable, moves: &mut Vec<Move>)
    requires
        board.wf(),
        onboard(from.0 as int),
    ensures
        final(moves)@ == old(moves)@ + slider_moves(board@, from.0 as int, piece.color, offsets(table), offsets(table).len()),
        own_piece(board@, from.0 as int, piece) && piece.kind != PieceKind::King && all_gen_ok(board@, old(moves)@)
            ==> all_gen_ok(board@, final(moves)@),
{
    let ghost b = board@;
    let ghost f = from.0 as int;
    let ghost start = moves@;
    let ghost fit = own_piece(b, f, piece) && piece.kind != PieceKind::King && all_gen_ok(b, start);
    let n = offset_count(table);
    let mut k: usize = 0;
    while k < n
        invariant
            board.wf(),
            b == board@,
            f == from.0 as int,
            onboard(f),
            n == offsets(table).len(),
            k <= n,
            moves@ == start + slider_moves(b, f, piece.color, offsets(table), k as nat),
            fit ==> all_gen_ok(b, moves@),
            fit == (own_piece(b, f, piece) && piece.kind != PieceKind::King && all_gen_ok(b, start)),
        decreases n - k,
    {
        generate_ray(board, from, piece, offset_at(table, k), moves);
        assert(moves@ =~= start + slider_moves(b, f, piece.color, offsets(table), (k + 1) as nat));
        k += 1;
    }
}

proof fn lemma_castle_gen_ok(b: BoardView, to: int)
    requires
        position_ok(b),
        holds(b, home_rank(b.side_to_move) * 16 + 4, b.side_to_move, PieceKind::King),
        to == home_rank(b.side_to_move) * 16 + 6 ==> castle_kingside_ok(b, b.side_to_move),
        to == home_rank(b.side_to_move) * 16 + 2 ==> castle_queenside_ok(b, b.side_to_move),
        to == home_rank(b.side_to_move) * 16 + 6 || to == home_rank(b.side_to_move) * 16 + 2,
    ensures
        gen_ok(b, plain(home_rank(b.side_to_move) * 16 + 4, to)),
{
    let r = home_rank(b.side_to_move) * 16;
    let mv = plain(r + 4, to);
    assert(mv.from.0 as int == r + 4 && mv.to.0 as int == to);
    assert(crate::apply_move::is_castle(b, mv));
    assert(make_ok(b, mv));
    reveal(gen_ok);
    assert(board_after(b, mv).squares.len() == 128);
}

/// Appends the castling moves of `color`, whose home rank is `rank`, to `moves`.
pub fn generate_castling_for_color(board: &Board, color: Color, rank: u8, moves: &mut Vec<Move>)
    requires
        board.wf(),
        color == board.side_to_move,
        rank as int == home_rank(color),
    ensures
        final(moves)@ == old(moves)@ + castling_moves(board@),
        position_ok(board@) && all_gen_ok(board@, old(moves)@) ==> all_gen_ok(board@, final(moves)@),
{
    let ghost b = board@;
    let ghost start = moves@;
    let base: u8 = rank * 16;
    let king_square = Square(base + 4);
    let king_ok = match board.squares[(base + 4) as usize] {
        Some(p) => p.kind == PieceKind::King && p.color == color,
        None => false,
    };
    if !king_ok {
        assert(moves@ =~= start + castling_moves(b));
        return;
    }
    let enemy = opposite_color(color);
    let king_safe = !is_square_attacked(board, king_square, enemy);
    if has_kingside(board.castling_rights, color) {
        let rook_ok = match board.squares[(base + 7) as usize] {
            Some(p) => p.kind == PieceKind::Rook && p.color == color,
            None => false,
        };
        if rook_ok && board.squares[(base + 5) as usize].is_none() && board.squares[(base + 6) as usize].is_none()
            && king_safe && !is_square_attacked(board, Square(base + 5), enemy) {
            let mv = Move { from: king_square, to: Square(base + 6), promotion: None };
            moves.push(mv);
            proof {
                if position_ok(b) && all_gen_ok(b, start) {
                    lemma_castle_gen_ok(b, base + 6);
                    assert(all_gen_ok(b, seq![mv]));
                    lemma_all_gen_ok_concat(b, start, seq![mv]);
                }
            }
        }
    }
    let ghost mid = moves@;
    assert(mid =~= start + (if castle_kingside_ok(b, color) { seq![plain(base + 4, base + 6)] } else { Seq::empty() }));
    if has_queenside(board.castling_rights, color) {
        let rook_ok = match board.squares[base as usize] {
            Some(p) => p.kind == PieceKind::Rook && p.color == color,
            None => false,
        };
        if rook_ok && board.squares[(base + 1) as usize].is_none() && board.squares[(base + 2) as usize].is_none()
            && board.squares[(base + 3) as usize].is_none() && king_safe
            && !is_square_attacked(board, Square(base + 3), enemy) {
            let mv = Move { from: king_square, to: Square(base + 2), promotion: None };
            moves.push(mv);
            proof {
                if position_ok(b) && all_gen_ok(b, mid) {
                    lemma_castle_gen_ok(b, base + 2);
                    assert(all_gen_ok(b, seq![mv]));
                    lemma_all_gen_ok_concat(b, mid, seq![mv]);
                }
            }
        }
    }
    assert(moves@ =~= start + castling_moves(b));
}

pub fn generate_castling_moves(board: &Board, moves: &mut Vec<Move>)
    requires
        board.wf(),
    ensures
        final(moves)@ == old(moves)@ + castling_moves(board@),
        position_ok(board@) && all_gen_ok(board@, old(moves)@) ==> all_gen_ok(board@, final(moves)@),
{
    let side = board.side_to_move;
    match side {
        Color::White => generate_castling_for_color(board, side, 0, moves),
        Color::Black => generate_castling_for_color(board, side, 7, moves),
    }
}

fn generate_piece_moves(board: &Board, from: Square, piece: Piece, moves: &mut Vec<Move>)
    requires
        board.wf(),
        onboard(from.0 as int),
        board@.squares[from.0 as int] == Some(piece),
    ensures
        final(moves)@ == old(moves)@ + piece_moves(board@, from.0 as int, piece),
        position_ok(board@) && piece.color == board.side_to_move && all_gen_ok(board@, old(moves)@)
            ==> all_gen_ok(board@, final(moves)@),
{
    let ghost start = moves@;
    match piece.kind {
        PieceKind::Pawn => generate_pawn_moves(board, from, piece, moves),
        PieceKind::Knight => generate_jump_moves(board, from, piece, OffsetTable::Knight, moves),
        PieceKind::Bishop => generate_slider_moves(board, from, piece, OffsetTable::Diagonal, moves),
        PieceKind::Rook => generate_slider_moves(board, from, piece, OffsetTable::Orthogonal, moves),
        PieceKind::Queen => {
            generate_slider_moves(board, from, piece, OffsetTable::Diagonal, moves);
            generate_slider_moves(board, from, piece, OffsetTable::Orthogonal, moves);
            assert(moves@ =~= start + piece_moves(board@, from.0 as int, piece));
        },
        PieceKind::King => generate_jump_moves(board, from, piece, OffsetTable::King, moves),
    }
}

/// Every pseudo-legal move of the side to move, in the fixed generation order: slots in
/// ascending index order, each piece's offsets in table order, promotions as Queen, Rook,
/// Bishop, Knight; castling last.
pub fn generate_pseudo_legal(board: &Board) -> (r: Vec<Move>)
    requires
        board.wf(),
    ensures
        r@ == pseudo_moves(board@),
        position_ok(board@) ==> all_gen_ok(board@, r@),
{
    let ghost b = board@;
    let mut moves: Vec<Move> = Vec::new();
    let side = board.side_to_move;
    let mut index: u8 = 0;
    while index < 128
        invariant
            board.wf(),
            b == board@,
            side == b.side_to_move,
            index <= 128,
            moves@ == board_moves(b, index as nat),
            position_ok(b) ==> all_gen_ok(b, moves@),
        decreases 128 - index,
    {
        if is_valid_square(index) {
            match board.squares[index as usize] {
                Some(piece) => {
                    if piece.color == side {
                        generate_piece_moves(board, Square(index), piece, &mut moves);
                    }
                },
                None => {},
            }
        }
        assert(moves@ =~= board_moves(b, (index + 1) as nat));
        index += 1;
    }
    generate_castling_moves(board, &mut moves);
    moves
}

// ---------------------------------------------------------------- legality

/// A move that can be made and does not leave the mover's own king attacked.
pub open spec fn legal(b: BoardView, mv: Move) -> bool {
    make_ok(b, mv) && !in_check(board_after(b, mv), b.side_to_move)
}

/// The legal moves among the first `n` moves of `s`, in their order.
pub open spec fn legal_prefix(b: BoardView, s: Seq<Move>, n: nat) -> Seq<Move>
    decreases n,
{
    if n == 0 {
        Seq::empty()
    } else {
        legal_prefix(b, s, (n - 1) as nat) + if legal(b, s[n - 1]) {
            seq![s[n - 1]]
        } else {
            Seq::empty()
        }
    }
}

/// The legal moves of a position, in generation order.
#[verifier::opaque]
pub open spec fn legal_moves(b: BoardView) -> Seq<Move> {
    legal_prefix(b, pseudo_moves(b), pseudo_moves(b).len())
}

/// What a generated move guarantees: it can be made, taken back, and leaves a fit position.
pub proof fn lemma_gen_ok_facts(b: BoardView, mv: Move)
    requires
        gen_ok(b, mv),
    ensures
        sound_move(b, mv),
        make_ok(b, mv),
        crate::apply_move::move_onboard(mv),
        position_ok(board_after(b, mv)),
        crate::apply_move::board_restored(board_after(b, mv), mv, crate::apply_move::undo_of(b, mv)) == b,
        crate::apply_move::undo_in_range(mv, crate::apply_move::undo_of(b, mv)),
        crate::types::uci_text(mv) is Some,
{
    reveal(gen_ok);
    crate::laws::lemma_unmake_restores(b, mv);
}

/// The legal moves of the side to move, in generation order; the board is left as it was.
pub fn generate_legal(board: &mut Board) -> (r: Vec<Move>)
    requires
        position_ok(old(board)@),
    ensures
        final(board)@ == old(board)@,
        r@ == legal_moves(old(board)@),
        all_gen_ok(old(board)@, r@),
{
    let ghost b = board@;
    reveal(legal_moves);
    let pseudo = generate_pseudo_legal(board);
    let mut legal_list: Vec<Move> = Vec::new();
    let mover = board.side_to_move;
    let mut i: usize = 0;
    while i < pseudo.len()
        invariant
            board@ == b,
            position_ok(b),
            mover == b.side_to_move,
            pseudo@ == pseudo_moves(b),
            all_gen_ok(b, pseudo@),
            i <= pseudo.len(),
            legal_list@ == legal_prefix(b, pseudo@, i as nat),
            all_gen_ok(b, legal_list@),
        decreases pseudo.len() - i,
    {
        let mv = pseudo[i];
        proof {
            assert(gen_ok(b, pseudo@[i as int]));
            lemma_gen_ok_facts(b, mv);
        }
        let ghost before = legal_list@;
        match board.make_move(mv) {
            Ok(undo) => {
                let in_check = is_king_in_check(board, mover);
                board.unmake_move(mv, undo);
                if !in_check {
                    legal_list.push(mv);
                    proof {
                        assert(all_gen_ok(b, seq![mv]));
                        lemma_all_gen_ok_concat(b, before, seq![mv]);
                        assert(legal_list@ =~= before + seq![mv]);
                    }
                }
            },
            Err(_) => {},
        }
        assert(legal_list@ =~= legal_prefix(b, pseudo@, (i + 1) as nat));
        i += 1;
    }
    legal_list
}

pub open spec fn saturating_add_u64(a: u64, b: u64) -> u64 {
    if a as int + b as int > u64::MAX {
        u64::MAX
    } else {
        (a + b) as u64
    }
}

/// The number of leaf positions `depth` plies below a position (saturating at `u64::MAX`).
pub open spec fn perft_count(b: BoardView, depth: nat) -> u64
    decreases depth, 1nat, 0nat,
{
    if depth == 0 {
        1
    } else {
        perft_sum(b, legal_moves(b), depth, legal_moves(b).len())
    }
}

/// The leaf counts below the first `n` moves of `s`, added up.
pub open spec fn perft_sum(b: BoardView, s: Seq<Move>, depth: nat, n: nat) -> u64
    decreases depth, 0nat, n,
{
    if n == 0 || depth == 0 {
        0
    } else {
        saturating_add_u64(
            perft_sum(b, s, depth, (n - 1) as nat),
            perft_count(board_after(b, s[n - 1]), (depth - 1) as nat),
        )
    }
}

/// Counts the leaves of the legal move tree to the given depth; the board is left as it was.
pub fn perft(board: &mut Board, depth: u32) -> (r: u64)
    requires
        position_ok(old(board)@),
    ensures
        final(board)@ == old(board)@,
        r == perft_count(old(board)@, depth as nat),
    decreases depth,
{
    if depth == 0 {
        return 1;
    }
    let ghost b = board@;
    let moves = generate_legal(board);
    let mut nodes: u64 = 0;
    let mut i: usize = 0;
    while i < moves.len()
        invariant
            board@ == b,
            position_ok(b),
            depth > 0,
            moves@ == legal_moves(b),
            all_gen_ok(b, moves@),
            i <= moves.len(),
            nodes == perft_sum(b, moves@, depth as nat, i as nat),
        decreases moves.len() - i,
    {
        let mv = moves[i];
        proof {
            assert(gen_ok(b, moves@[i as int]));
            lemma_gen_ok_facts(b, mv);
        }
        match board.make_move(mv) {
            Ok(undo) => {
                let child = perft(board, depth - 1);
                board.unmake_move(mv, undo);
                nodes = nodes.saturating_add(child);
            },
            Err(_) => {},
        }
        i += 1;
    }
    nodes
}

/// Checkmate when the side to move has no legal move and is in check, stalemate when it has
/// none and is not, otherwise the game goes on.
pub open spec fn status_of(b: BoardView) -> GameStatus {
    if legal_moves(b).len() == 0 {
        if in_check(b, b.side_to_move) {
            GameStatus::Checkmate
        } else {
            GameStatus::Stalemate
        }
    } else {
        GameStatus::Ongoing
    }
}

pub fn game_status(board: &mut Board) -> (r: GameStatus)
    requires
        position_ok(old(board)@),
    ensures
        final(board)@ == old(board)@,
        r == status_of(old(board)@),
{
    let moves = generate_legal(board);
    if moves.len() == 0 {
        if is_king_in_check(board, board.side_to_move) {
            GameStatus::Checkmate
        } else {
            GameStatus::Stalemate
        }
    } else {
        GameStatus::Ongoing
    }
}

/// Attacks depend on the slots alone.
pub proof fn lemma_attacked_ignores_hash(a: BoardView, b: BoardView, sq: int, c: Color)
    requires
        a.squares == b.squares,
    ensures
        attacked(a, sq, c) == attacked(b, sq, c),
{
    assert(pawn_attack(a, sq, c) == pawn_attack(b, sq, c));
    lemma_jump_attack_same(a, b, sq, c, PieceKind::Knight, offsets(OffsetTable::Knight), 8);
    lemma_jump_attack_same(a, b, sq, c, PieceKind::King, offsets(OffsetTable::King), 8);
    lemma_slider_attack_same(a, b, sq, c, PieceKind::Bishop, offsets(OffsetTable::Diagonal), 4);
    lemma_slider_attack_same(a, b, sq, c, PieceKind::Rook, offsets(OffsetTable::Orthogonal), 4);
    lemma_slider_attack_same(a, b, sq, c, PieceKind::Queen, offsets(OffsetTable::Diagonal), 4);
    lemma_slider_attack_same(a, b, sq, c, PieceKind::Queen, offsets(OffsetTable::Orthogonal), 4);
}

proof fn lemma_jump_attack_same(a: BoardView, b: BoardView, sq: int, c: Color, k: PieceKind, offs: Seq<int>, n: nat)
    requires
        a.squares == b.squares,
    ensures
        jump_attack(a, sq, c, k, offs, n) == jump_attack(b, sq, c, k, offs, n),
    decreases n,
{
    if n > 0 {
        lemma_jump_attack_same(a, b, sq, c, k, offs, (n - 1) as nat);
    }
}

proof fn lemma_slider_hit_same(a: BoardView, b: BoardView, cur: int, d: int, c: Color, k: PieceKind)
    requires
        a.squares == b.squares,
    ensures
        slider_hit(a, cur, d, c, k) == slider_hit(b, cur, d, c, k),
    decreases ray_measure(cur, d),
{
    if d != 0 && 0 <= cur < 128 {
        if let Some(n) = step(cur, d) {
            lemma_slider_hit_same(a, b, n, d, c, k);
        }
    }
}

proof fn lemma_slider_attack_same(a: BoardView, b: BoardView, sq: int, c: Color, k: PieceKind, offs: Seq<int>, n: nat)
    requires
        a.squares == b.squares,
    ensures
        slider_attack(a, sq, c, k, offs, n) == slider_attack(b, sq, c, k, offs, n),
    decreases n,
{
    if n > 0 {
        lemma_slider_attack_same(a, b, sq, c, k, offs, (n - 1) as nat);
        lemma_slider_hit_same(a, b, sq, offs[n - 1], c, k);
    }
}

} // verus!
