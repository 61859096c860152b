use vstd::prelude::*;
use vstd::wrapping::u64_specs::{wrapping_add, wrapping_mul};
use crate::board::{Board, BoardView};
use crate::types::{Color, Move, Piece, PieceKind, Square, onboard, file_of, rank_of, is_valid_square, lemma_valid_square_bits};

verus! {

pub const ZOBRIST_SEED: u64 = 0x9e37_79b9_7f4a_7c15;
pub const SPLITMIX_GAMMA: u64 = 0x9e37_79b9_7f4a_7c15;
pub const SPLITMIX_MUL1: u64 = 0xbf58_476d_1ce4_e5b9;
pub const SPLITMIX_MUL2: u64 = 0x94d0_49bb_1331_11eb;

/// First of the sixteen castling-mask keys, after the 768 piece-square keys.
pub const CASTLING_KEY_BASE: u64 = 768;
/// First of the eight en-passant file keys.
pub const EN_PASSANT_KEY_BASE: u64 = 784;
/// The side-to-move key.
pub const SIDE_KEY_INDEX: u64 = 792;

/// The SplitMix64 output function applied to a state.
pub open spec fn mix(state: u64) -> u64 {
    let a = wrapping_mul(state ^ (state >> 30u64), SPLITMIX_MUL1);
    let b = wrapping_mul(a ^ (a >> 27u64), SPLITMIX_MUL2);
    b ^ (b >> 31u64)
}

/// The SplitMix64 state after `n` steps from the seed.
pub open spec fn splitmix_state(n: u64) -> u64 {
    wrapping_add(ZOBRIST_SEED, wrapping_mul(n, SPLITMIX_GAMMA))
}

/// The `k`-th key drawn from a SplitMix64 generator started at the seed.
pub open spec fn zobrist_key(k: u64) -> u64 {
    mix(splitmix_state((k + 1) as u64))
}

/// A SplitMix64 pseudo-random generator.
#[derive(Clone, Copy)]
pub struct SplitMix64 {
    pub state: u64,
}

impl SplitMix64 {
    pub fn new(seed: u64) -> (r: Self)
        ensures
            r.state == seed,
    {
        SplitMix64 { state: seed }
    }

    pub fn next_u64(&mut self) -> (r: u64)
        ensures
            final(self).state == wrapping_add(old(self).state, SPLITMIX_GAMMA),
            r == mix(final(self).state),
    {
        let z0 = self.state.wrapping_add(SPLITMIX_GAMMA);
        self.state = z0;
        let z1 = (z0 ^ (z0 >> 30)).wrapping_mul(SPLITMIX_MUL1);
        let z2 = (z1 ^ (z1 >> 27)).wrapping_mul(SPLITMIX_MUL2);
        z2 ^ (z2 >> 31)
    }
}

/// The key at a position of the key table.
pub fn key_at(k: u64) -> (r: u64)
    requires
        k <= SIDE_KEY_INDEX,
    ensures
        r == zobrist_key(k),
{
    let mut rng = SplitMix64::new(ZOBRIST_SEED.wrapping_add(k.wrapping_mul(SPLITMIX_GAMMA)));
    let r = rng.next_u64();
    proof {
        lemma_state_step(k);
    }
    r
}

proof fn lemma_state_step(k: u64)
    requires
        k <= SIDE_KEY_INDEX,
    ensures
        wrapping_add(splitmix_state(k), SPLITMIX_GAMMA) == splitmix_state((k + 1) as u64),
{
    let m: int = 0x1_0000_0000_0000_0000;
    let g = SPLITMIX_GAMMA as int;
    let s = ZOBRIST_SEED as int;
    assert((k as int + 1) * g == k as int * g + g) by (nonlinear_arith);
    vstd::arithmetic::div_mod::lemma_add_mod_noop(k as int * g, g, m);
    vstd::arithmetic::div_mod::lemma_add_mod_noop(s, k as int * g, m);
    vstd::arithmetic::div_mod::lemma_add_mod_noop(s, k as int * g + g, m);
    vstd::arithmetic::div_mod::lemma_add_mod_noop(s + k as int * g, g, m);
    vstd::arithmetic::div_mod::lemma_mod_bound(k as int * g, m);
    assert(0 <= k as int * g) by (nonlinear_arith)
        requires 0 <= k as int, 0 <= g;
}

/// Position of a piece among the twelve piece kinds of the key table.
pub open spec fn piece_index(p: Piece) -> int {
    let base = match p.kind {
        PieceKind::Pawn => 0,
        PieceKind::Knight => 1,
        PieceKind::Bishop => 2,
        PieceKind::Rook => 3,
        PieceKind::Queen => 4,
        PieceKind::King => 5,
    };
    match p.color {
        Color::White => base,
        Color::Black => base + 6,
    }
}

/// Index of an on-board 0x88 square among the sixty-four real squares.
pub open spec fn square64(i: int) -> int {
    rank_of(i) * 8 + file_of(i)
}

/// The key of a piece standing on a square (zero for an off-board index).
pub open spec fn piece_key(p: Piece, i: int) -> u64 {
    if onboard(i) {
        zobrist_key((piece_index(p) * 64 + square64(i)) as u64)
    } else {
        0
    }
}

/// What one slot of the board adds to the hash.
pub open spec fn slot_key(entry: Option<Piece>, i: int) -> u64 {
    match entry {
        Some(p) => piece_key(p, i),
        None => 0,
    }
}

/// The XOR of the keys of the pieces on the first `n` slots.
pub open spec fn squares_hash(s: Seq<Option<Piece>>, n: nat) -> u64
    decreases n,
{
    if n == 0 {
        0
    } else {
        squares_hash(s, (n - 1) as nat) ^ slot_key(s[n - 1], n - 1)
    }
}

pub open spec fn side_key(c: Color) -> u64 {
    match c {
        Color::White => 0,
        Color::Black => zobrist_key(SIDE_KEY_INDEX),
    }
}

pub open spec fn castling_key(rights: u8) -> u64 {
    zobrist_key((CASTLING_KEY_BASE + (rights & 0x0fu8)) as u64)
}

pub open spec fn en_passant_key(ep: Option<Square>) -> u64 {
    match ep {
        Some(sq) => if sq.0 & 0x0fu8 < 8 {
            zobrist_key((EN_PASSANT_KEY_BASE + (sq.0 & 0x0fu8)) as u64)
        } else {
            0
        },
        None => 0,
    }
}

/// The hash of a position computed from scratch.
pub open spec fn full_hash(b: BoardView) -> u64 {
    squares_hash(b.squares, 128) ^ side_key(b.side_to_move) ^ castling_key(b.castling_rights)
        ^ en_passant_key(b.en_passant)
}

pub(crate) fn piece_index_of(p: Piece) -> (r: u64)
    ensures
        r == piece_index(p),
{
    let base: u64 = match p.kind {
        PieceKind::Pawn => 0,
        PieceKind::Knight => 1,
        PieceKind::Bishop => 2,
        PieceKind::Rook => 3,
        PieceKind::Queen => 4,
        PieceKind::King => 5,
    };
    match p.color {
        Color::White => base,
        Color::Black => base + 6,
    }
}

pub(crate) fn piece_square_key(p: Piece, sq: u8) -> (r: u64)
    ensures
        r == piece_key(p, sq as int),
{
    if !is_valid_square(sq) {
        return 0;
    }
    proof {
        lemma_valid_square_bits(sq);
    }
    let sq64 = ((sq >> 4) as u64) * 8 + ((sq & 0x0f) as u64);
    key_at(piece_index_of(p) * 64 + sq64)
}

pub(crate) fn castling_key_of(rights: u8) -> (r: u64)
    ensures
        r == castling_key(rights),
{
    proof {
        assert(rights & 0x0fu8 <= 15) by (bit_vector);
    }
    key_at(CASTLING_KEY_BASE + (rights & 0x0f) as u64)
}

pub(crate) fn en_passant_key_of(ep: Option<Square>) -> (r: u64)
    ensures
        r == en_passant_key(ep),
{
    match ep {
        Some(sq) => {
            let file = sq.0 & 0x0f;
            if file < 8 {
                key_at(EN_PASSANT_KEY_BASE + file as u64)
            } else {
                0
            }
        },
        None => 0,
    }
}

pub(crate) fn side_key_of(c: Color) -> (r: u64)
    ensures
        r == side_key(c),
{
    match c {
        Color::White => 0,
        Color::Black => key_at(SIDE_KEY_INDEX),
    }
}

pub fn compute_hash(board: &Board) -> (r: u64)
    requires
        board.wf(),
    ensures
        r == full_hash(board@),
{
    let mut hash: u64 = 0;
    let mut index: usize = 0;
    while index < 128
        invariant
            board.wf(),
            index <= 128,
            hash == squares_hash(board@.squares, index as nat),
        decreases 128 - index,
    {
        let entry = board.squares[index];
        let k = match entry {
            Some(p) => piece_square_key(p, index as u8),
            None => 0,
        };
        hash = hash ^ k;
        index += 1;
    }
    hash = hash ^ side_key_of(board.side_to_move);
    hash = hash ^ castling_key_of(board.castling_rights);
    hash = hash ^ en_passant_key_of(board.en_passant);
    hash
}

/// The key of an optional piece on an optional square.
pub open spec fn opt_piece_key(p: Option<Piece>, sq: Option<Square>) -> u64 {
    match (p, sq) {
        (Some(p), Some(s)) => piece_key(p, s.0 as int),
        _ => 0,
    }
}

/// The keys of a rook that hops between two squares while castling.
pub open spec fn rook_hop_key(color: Color, hop: Option<(Square, Square)>) -> u64 {
    match hop {
        Some((a, b)) => piece_key(Piece { color, kind: PieceKind::Rook }, a.0 as int) ^ piece_key(
            Piece { color, kind: PieceKind::Rook },
            b.0 as int,
        ),
        None => 0,
    }
}

/// The hash after a move, from the hash before it and what the move changed.
pub open spec fn updated_hash(
    before: u64,
    after: BoardView,
    mv: Move,
    moving_piece: Piece,
    moved_piece: Piece,
    captured: Option<Piece>,
    captured_square: Option<Square>,
    rook_move: Option<(Square, Square)>,
    previous_castling: u8,
    previous_en_passant: Option<Square>,
) -> u64 {
    before ^ castling_key(previous_castling) ^ en_passant_key(previous_en_passant) ^ zobrist_key(
        SIDE_KEY_INDEX,
    ) ^ piece_key(moving_piece, mv.from.0 as int) ^ opt_piece_key(captured, captured_square)
        ^ piece_key(moved_piece, mv.to.0 as int) ^ rook_hop_key(moved_piece.color, rook_move)
        ^ castling_key(after.castling_rights) ^ en_passant_key(after.en_passant)
}

/// Updates the hash held by `board` (the position after the move) for the move's changes.
pub fn update_hash_for_move(
    board: &Board,
    mv: Move,
    moving_piece: Piece,
    moved_piece: Piece,
    captured: Option<Piece>,
    captured_square: Option<Square>,
    rook_move: Option<(Square, Square)>,
    previous_castling: u8,
    previous_en_passant: Option<Square>,
) -> (r: u64)
    ensures
        r == updated_hash(
            board.hash,
            board@,
            mv,
            moving_piece,
            moved_piece,
            captured,
            captured_square,
            rook_move,
            previous_castling,
            previous_en_passant,
        ),
{
    let mut hash = board.hash;
    hash = hash ^ castling_key_of(previous_castling);
    hash = hash ^ en_passant_key_of(previous_en_passant);
    hash = hash ^ key_at(SIDE_KEY_INDEX);
    hash = hash ^ piece_square_key(moving_piece, mv.from.0);
    let cap_key = match (captured, captured_square) {
        (Some(p), Some(s)) => piece_square_key(p, s.0),
        _ => 0,
    };
    hash = hash ^ cap_key;
    hash = hash ^ piece_square_key(moved_piece, mv.to.0);
    let rook = Piece { color: moved_piece.color, kind: PieceKind::Rook };
    let hop_key = match rook_move {
        Some((a, b)) => piece_square_key(rook, a.0) ^ piece_square_key(rook, b.0),
        None => 0,
    };
    hash = hash ^ hop_key;
    hash = hash ^ castling_key_of(board.castling_rights);
    hash = hash ^ en_passant_key_of(board.en_passant);
    hash
}

} // verus!
