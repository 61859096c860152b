use vstd::prelude::*;
use crate::apply_move::{
    arriving_piece, board_after, board_restored, captured_of, captured_square_of,
    en_passant_victim, from_ix, is_castle, is_en_passant_capture, mover, origin_cleared,
    rook_from_ix, rook_move_of, rook_to_ix, sound_move, squares_after, to_ix, undo_in_range,
    undo_of,
};
use crate::board::BoardView;
use crate::movegen::{
    board_moves, castling_moves, in_check, jump_moves, jump_one, king_square_from, legal, legal_moves,
    legal_prefix, lemma_attacked_ignores_hash, moves_at, pawn_capture, pawn_en_passant, pawn_pushes,
    pseudo_moves, ray, ray_measure, slider_moves, step,
};
use crate::types::{Color, Move, Piece, PieceKind, Square};
use crate::zobrist::{
    castling_key, en_passant_key, opt_piece_key, piece_key, rook_hop_key, side_key, slot_key,
    squares_hash, zobrist_key, SIDE_KEY_INDEX,
};

verus! {

/// Taking back a sound move with the record that making it returned restores every field of
/// the position: slots, rights, en-passant target, clocks, side to move and hash.
pub proof fn lemma_unmake_restores(b: BoardView, mv: Move)
    requires
        sound_move(b, mv),
    ensures
        board_restored(board_after(b, mv), mv, undo_of(b, mv)) == b,
        undo_in_range(mv, undo_of(b, mv)),
{
    let r = board_restored(board_after(b, mv), mv, undo_of(b, mv));
    assert(r.squares =~= b.squares);
    assert(r =~= b);
}

proof fn lemma_xor_update(x: u64, a: u64, b: u64, c: u64)
    ensures
        (x ^ c) ^ a ^ b == (x ^ a ^ b) ^ c,
        x ^ a ^ a ^ b == x ^ b,
        x ^ 0 == x,
{
    assert((x ^ c) ^ a ^ b == (x ^ a ^ b) ^ c) by (bit_vector);
    assert(x ^ a ^ a ^ b == x ^ b) by (bit_vector);
    assert(x ^ 0 == x) by (bit_vector);
}

/// Writing one slot changes the hash of the slots by the keys of the old and new entries.
pub proof fn lemma_squares_hash_update(s: Seq<Option<Piece>>, i: int, v: Option<Piece>, n: nat)
    requires
        0 <= i < s.len(),
        n <= s.len(),
    ensures
        squares_hash(s.update(i, v), n) == if i < n {
            squares_hash(s, n) ^ slot_key(s[i], i) ^ slot_key(v, i)
        } else {
            squares_hash(s, n)
        },
    decreases n,
{
    if n > 0 {
        lemma_squares_hash_update(s, i, v, (n - 1) as nat);
        let h = squares_hash(s, (n - 1) as nat);
        if i == n - 1 {
            lemma_xor_update(h, slot_key(s[i], i), slot_key(v, i), 0);
        } else if i < n - 1 {
            lemma_xor_update(h, slot_key(s[i], i), slot_key(v, i), slot_key(s[n - 1], n - 1));
        }
    }
}

proof fn lemma_update_full(s: Seq<Option<Piece>>, i: int, v: Option<Piece>)
    requires
        s.len() == 128,
        0 <= i < 128,
    ensures
        squares_hash(s.update(i, v), 128) == squares_hash(s, 128) ^ slot_key(s[i], i) ^ slot_key(
            v,
            i,
        ),
{
    lemma_squares_hash_update(s, i, v, 128);
}

/// The hash of the slots after a sound move, from the hash before it and the keys it moved.
proof fn lemma_squares_after_hash(b: BoardView, mv: Move)
    requires
        sound_move(b, mv),
    ensures
        squares_hash(squares_after(b, mv), 128) == squares_hash(b.squares, 128) ^ piece_key(
            mover(b, mv),
            from_ix(mv),
        ) ^ opt_piece_key(captured_of(b, mv), captured_square_of(b, mv)) ^ piece_key(
            arriving_piece(b, mv),
            to_ix(mv),
        ) ^ rook_hop_key(arriving_piece(b, mv).color, rook_move_of(b, mv)),
{
    let s0 = b.squares;
    let f = from_ix(mv);
    let t = to_ix(mv);
    let h0 = squares_hash(s0, 128);
    let pkf = piece_key(mover(b, mv), f);
    let capk = opt_piece_key(captured_of(b, mv), captured_square_of(b, mv));
    let pkt = piece_key(arriving_piece(b, mv), t);
    let hop = rook_hop_key(arriving_piece(b, mv).color, rook_move_of(b, mv));
    let s1 = origin_cleared(b, mv);
    lemma_update_full(s0, f, None);
    let h1 = squares_hash(s1, 128);
    assert(h1 == h0 ^ pkf ^ 0u64);
    lemma_xor_update(h0 ^ pkf, 0, 0, 0);
    assert(h1 == h0 ^ pkf);
    let s2 = if is_en_passant_capture(b, mv) {
        s1.update(en_passant_victim(b, mv), None)
    } else {
        s1
    };
    let h2 = squares_hash(s2, 128);
    let s3 = s2.update(t, Some(arriving_piece(b, mv)));
    let h3 = squares_hash(s3, 128);
    lemma_update_full(s2, t, Some(arriving_piece(b, mv)));
    if is_en_passant_capture(b, mv) {
        let c = en_passant_victim(b, mv);
        lemma_update_full(s1, c, None);
        assert(Square(c as u8).0 as int == c);
        assert(slot_key(s1[c], c) == capk);
        assert(h2 == h1 ^ capk ^ 0u64);
        lemma_xor_update(h1 ^ capk, 0, 0, 0);
        assert(s2[t] == s0[t]);
        assert(h3 == h2 ^ 0u64 ^ pkt);
        assert((h2 ^ 0u64 ^ pkt) == h2 ^ pkt) by (bit_vector);
        assert(h3 == h0 ^ pkf ^ capk ^ pkt);
    } else {
        assert(slot_key(s2[t], t) == capk);
        assert(h3 == h0 ^ pkf ^ capk ^ pkt);
    }
    if is_castle(b, mv) {
        let rf = rook_from_ix(mv);
        let rt = rook_to_ix(mv);
        let rook = Piece { color: arriving_piece(b, mv).color, kind: PieceKind::Rook };
        assert(s1[rf] == Some(rook));
        assert(s3[rf] == Some(rook));
        let s4 = s3.update(rf, None);
        lemma_update_full(s3, rf, None);
        let h4 = squares_hash(s4, 128);
        assert(s4[rt] is None);
        lemma_update_full(s4, rt, Some(rook));
        let h5 = squares_hash(s4.update(rt, Some(rook)), 128);
        assert(Square(rf as u8).0 as int == rf);
        assert(Square(rt as u8).0 as int == rt);
        assert(hop == piece_key(rook, rf) ^ piece_key(rook, rt));
        let a = piece_key(rook, rf);
        let d = piece_key(rook, rt);
        assert(h5 == ((h3 ^ a) ^ 0u64) ^ 0u64 ^ d);
        assert(((h3 ^ a) ^ 0u64) ^ 0u64 ^ d == h3 ^ (a ^ d)) by (bit_vector);
        assert(squares_after(b, mv) == s4.update(rt, Some(rook)));
    } else {
        assert(hop == 0);
        lemma_xor_update(h3, 0, 0, 0);
    }
}

/// Making a sound move on a position whose stored hash is the hash computed from scratch
/// yields a position of which that is true again.
pub proof fn lemma_make_keeps_hash(b: BoardView, mv: Move)
    requires
        sound_move(b, mv),
        b.hash_ok(),
    ensures
        board_after(b, mv).hash_ok(),
        board_after(b, mv).wf(),
{
    lemma_squares_after_hash(b, mv);
    let a = board_after(b, mv);
    let h0 = squares_hash(b.squares, 128);
    let pkf = piece_key(mover(b, mv), from_ix(mv));
    let capk = opt_piece_key(captured_of(b, mv), captured_square_of(b, mv));
    let pkt = piece_key(arriving_piece(b, mv), to_ix(mv));
    let hop = rook_hop_key(arriving_piece(b, mv).color, rook_move_of(b, mv));
    let s0 = side_key(b.side_to_move);
    let s1 = side_key(a.side_to_move);
    let k = zobrist_key(SIDE_KEY_INDEX);
    let c0 = castling_key(b.castling_rights);
    let c1 = castling_key(a.castling_rights);
    let e0 = en_passant_key(b.en_passant);
    let e1 = en_passant_key(a.en_passant);
    assert(s1 == s0 ^ k) by {
        let z = k;
        assert(0u64 ^ z == z) by (bit_vector);
        assert(z ^ z == 0u64) by (bit_vector);
    }
    assert(a.squares.len() == 128);
    assert((h0 ^ s0 ^ c0 ^ e0) ^ c0 ^ e0 ^ k ^ pkf ^ capk ^ pkt ^ hop ^ c1 ^ e1 == (h0 ^ pkf ^ capk
        ^ pkt ^ hop) ^ (s0 ^ k) ^ c1 ^ e1) by (bit_vector);
}

/// The position after making each move of a list in turn.
pub open spec fn after_moves(b: BoardView, ms: Seq<Move>) -> BoardView
    decreases ms.len(),
{
    if ms.len() == 0 {
        b
    } else {
        board_after(after_moves(b, ms.drop_last()), ms.last())
    }
}

/// Each move of the list is sound in the position where it is made.
pub open spec fn sound_sequence(b: BoardView, ms: Seq<Move>) -> bool {
    forall|i: int| 0 <= i < ms.len() ==> sound_move(after_moves(b, ms.take(i)), #[trigger] ms[i])
}

/// After any sequence of sound moves (every legal move that the generator returns is one),
/// the incrementally maintained hash equals the hash computed from scratch.
pub proof fn lemma_hash_consistent_after_moves(b: BoardView, ms: Seq<Move>)
    requires
        b.wf(),
        b.hash_ok(),
        sound_sequence(b, ms),
    ensures
        after_moves(b, ms).hash_ok(),
        after_moves(b, ms).wf(),
    decreases ms.len(),
{
    if ms.len() > 0 {
        let n = ms.len() - 1;
        let prefix = ms.drop_last();
        assert forall|i: int| 0 <= i < prefix.len() implies sound_move(
            after_moves(b, prefix.take(i)),
            #[trigger] prefix[i],
        ) by {
            assert(prefix.take(i) =~= ms.take(i));
            assert(prefix[i] == ms[i]);
        }
        lemma_hash_consistent_after_moves(b, prefix);
        assert(ms.take(n) =~= prefix);
        assert(sound_move(after_moves(b, ms.take(n)), ms[n]));
        lemma_make_keeps_hash(after_moves(b, prefix), ms.last());
    }
}

/// Two positions agree on everything that move generation reads: the slots, the side to move,
/// the castling rights and the en-passant target (the hash and the clocks may differ).
pub open spec fn same_position(a: BoardView, b: BoardView) -> bool {
    &&& a.squares == b.squares
    &&& a.side_to_move == b.side_to_move
    &&& a.castling_rights == b.castling_rights
    &&& a.en_passant == b.en_passant
}

proof fn lemma_jump_moves_same(a: BoardView, b: BoardView, f: int, c: Color, offs: Seq<int>, n: nat)
    requires
        same_position(a, b),
    ensures
        jump_moves(a, f, c, offs, n) == jump_moves(b, f, c, offs, n),
    decreases n,
{
    if n > 0 {
        lemma_jump_moves_same(a, b, f, c, offs, (n - 1) as nat);
        assert(jump_one(a, f, c, offs[n - 1]) == jump_one(b, f, c, offs[n - 1]));
    }
}

proof fn lemma_ray_same(a: BoardView, b: BoardView, f: int, c: Color, cur: int, d: int)
    requires
        same_position(a, b),
    ensures
        ray(a, f, c, cur, d) == ray(b, f, c, cur, d),
    decreases ray_measure(cur, d),
{
    if d != 0 && 0 <= cur < 128 {
        if let Some(n) = step(cur, d) {
            lemma_ray_same(a, b, f, c, n, d);
        }
    }
}

proof fn lemma_slider_moves_same(a: BoardView, b: BoardView, f: int, c: Color, offs: Seq<int>, n: nat)
    requires
        same_position(a, b),
    ensures
        slider_moves(a, f, c, offs, n) == slider_moves(b, f, c, offs, n),
    decreases n,
{
    if n > 0 {
        lemma_slider_moves_same(a, b, f, c, offs, (n - 1) as nat);
        lemma_ray_same(a, b, f, c, f, offs[n - 1]);
    }
}

proof fn lemma_board_moves_same(a: BoardView, b: BoardView, n: nat)
    requires
        same_position(a, b),
    ensures
        board_moves(a, n) == board_moves(b, n),
    decreases n,
{
    reveal(pawn_pushes);
    reveal(pawn_capture);
    reveal(pawn_en_passant);
    if n > 0 {
        lemma_board_moves_same(a, b, (n - 1) as nat);
        let i = n - 1;
        if crate::types::onboard(i) {
            if let Some(p) = a.squares[i] {
                let offs_k = crate::movegen::offsets(crate::movegen::OffsetTable::Knight);
                let offs_g = crate::movegen::offsets(crate::movegen::OffsetTable::King);
                let offs_d = crate::movegen::offsets(crate::movegen::OffsetTable::Diagonal);
                let offs_o = crate::movegen::offsets(crate::movegen::OffsetTable::Orthogonal);
                lemma_jump_moves_same(a, b, i, p.color, offs_k, 8);
                lemma_jump_moves_same(a, b, i, p.color, offs_g, 8);
                lemma_slider_moves_same(a, b, i, p.color, offs_d, 4);
                lemma_slider_moves_same(a, b, i, p.color, offs_o, 4);
            }
        }
        assert(moves_at(a, i) == moves_at(b, i));
    }
}

proof fn lemma_king_square_same(a: BoardView, b: BoardView, c: Color, i: int)
    requires
        a.squares == b.squares,
    ensures
        king_square_from(a, c, i) == king_square_from(b, c, i),
    decreases 128 - i,
{
    if 0 <= i < 128 {
        lemma_king_square_same(a, b, c, i + 1);
    }
}

proof fn lemma_in_check_same(a: BoardView, b: BoardView, c: Color)
    requires
        a.squares == b.squares,
    ensures
        in_check(a, c) == in_check(b, c),
{
    reveal(in_check);
    lemma_king_square_same(a, b, c, 0);
    if let Some(k) = crate::movegen::king_square(a, c) {
        lemma_attacked_ignores_hash(a, b, k, crate::types::opponent(c));
    }
}

proof fn lemma_legal_prefix_same(a: BoardView, b: BoardView, s: Seq<Move>, n: nat)
    requires
        same_position(a, b),
        n <= s.len(),
    ensures
        legal_prefix(a, s, n) == legal_prefix(b, s, n),
    decreases n,
{
    if n > 0 {
        lemma_legal_prefix_same(a, b, s, (n - 1) as nat);
        let mv = s[n - 1];
        assert(board_after(a, mv).squares == board_after(b, mv).squares);
        lemma_in_check_same(board_after(a, mv), board_after(b, mv), a.side_to_move);
        assert(legal(a, mv) == legal(b, mv));
    }
}

/// Move generation is deterministic: positions that agree on the slots, the side to move, the
/// castling rights and the en-passant target have the same pseudo-legal and legal move lists,
/// in the same order, whatever their hash and clocks.
pub proof fn lemma_generation_deterministic(a: BoardView, b: BoardView)
    requires
        same_position(a, b),
    ensures
        pseudo_moves(a) == pseudo_moves(b),
        legal_moves(a) == legal_moves(b),
{
    lemma_board_moves_same(a, b, 128);
    let r = crate::movegen::home_rank(a.side_to_move) * 16;
    lemma_attacked_ignores_hash(a, b, r + 4, crate::types::opponent(a.side_to_move));
    lemma_attacked_ignores_hash(a, b, r + 5, crate::types::opponent(a.side_to_move));
    lemma_attacked_ignores_hash(a, b, r + 3, crate::types::opponent(a.side_to_move));
    assert(castling_moves(a) == castling_moves(b));
    reveal(legal_moves);
    lemma_legal_prefix_same(a, b, pseudo_moves(a), pseudo_moves(a).len());
}

} // verus!
