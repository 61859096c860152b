use vstd::prelude::*;
use crate::board::{Board, BoardView};
use crate::castling::{kingside_bit, queenside_bit, revoke_all, revoke_kingside, revoke_queenside};
use crate::types::{Color, Move, Piece, PieceKind, Square, onboard, file_of, rank_of, opponent};
use crate::zobrist::{update_hash_for_move, updated_hash};

verus! {

/// What `make_move` records so that `unmake_move` can restore the position.
#[derive(Debug, Clone, Copy)]
pub struct MoveUndo {
    pub captured: Option<Piece>,
    pub captured_square: Option<Square>,
    pub previous_en_passant: Option<Square>,
    pub previous_castling_rights: u8,
    pub previous_halfmove_clock: u32,
    pub previous_fullmove_number: u32,
    pub previous_side_to_move: Color,
    pub rook_move: Option<(Square, Square)>,
    pub moved_piece: Piece,
    pub previous_hash: u64,
}

pub open spec fn from_ix(mv: Move) -> int {
    mv.from.0 as int
}

pub open spec fn to_ix(mv: Move) -> int {
    mv.to.0 as int
}

/// Both squares of the move are real squares.
pub open spec fn move_onboard(mv: Move) -> bool {
    onboard(from_ix(mv)) && onboard(to_ix(mv))
}

/// The piece that stands on the move's origin.
pub open spec fn mover(b: BoardView, mv: Move) -> Piece {
    b.squares[from_ix(mv)].unwrap()
}

pub open spec fn lands_on_piece(b: BoardView, mv: Move) -> bool {
    b.squares[to_ix(mv)] is Some
}

pub open spec fn is_en_passant_capture(b: BoardView, mv: Move) -> bool {
    mover(b, mv).kind == PieceKind::Pawn && b.en_passant == Some(mv.to) && !lands_on_piece(b, mv)
}

/// A king move of two files along its home rank.
pub open spec fn is_castle(b: BoardView, mv: Move) -> bool {
    &&& mover(b, mv).kind == PieceKind::King
    &&& rank_of(from_ix(mv)) == (if mover(b, mv).color == Color::White { 0int } else { 7int })
    &&& rank_of(from_ix(mv)) == rank_of(to_ix(mv))
    &&& (file_of(from_ix(mv)) - file_of(to_ix(mv)) == 2 || file_of(to_ix(mv)) - file_of(
        from_ix(mv),
    ) == 2)
}

/// The square of the pawn taken en passant: one rank behind the target, seen from the mover.
pub open spec fn en_passant_victim(b: BoardView, mv: Move) -> int {
    match mover(b, mv).color {
        Color::White => to_ix(mv) - 16,
        Color::Black => to_ix(mv) + 16,
    }
}

/// The piece that arrives on the target: the mover, or its promotion.
pub open spec fn arriving_piece(b: BoardView, mv: Move) -> Piece {
    match mv.promotion {
        Some(k) => Piece { color: mover(b, mv).color, kind: k },
        None => mover(b, mv),
    }
}

pub open spec fn rook_from_ix(mv: Move) -> int {
    rank_of(from_ix(mv)) * 16 + if file_of(to_ix(mv)) == 6 {
        7int
    } else {
        0int
    }
}

pub open spec fn rook_to_ix(mv: Move) -> int {
    rank_of(from_ix(mv)) * 16 + if file_of(to_ix(mv)) == 6 {
        5int
    } else {
        3int
    }
}

/// The slots once the origin has been emptied.
pub open spec fn origin_cleared(b: BoardView, mv: Move) -> Seq<Option<Piece>> {
    b.squares.update(from_ix(mv), None)
}

/// Why a move cannot be made on a position, if it cannot.
pub enum MoveFault {
    NoPiece,
    WrongSide,
    BadEnPassant,
    BadCastleTarget,
    NoRook,
    BadRook,
}

pub open spec fn move_fault(b: BoardView, mv: Move) -> Option<MoveFault> {
    if b.squares[from_ix(mv)] is None {
        Some(MoveFault::NoPiece)
    } else if mover(b, mv).color != b.side_to_move {
        Some(MoveFault::WrongSide)
    } else if is_en_passant_capture(b, mv) && !(0 <= en_passant_victim(b, mv) < 128) {
        Some(MoveFault::BadEnPassant)
    } else if is_castle(b, mv) && file_of(to_ix(mv)) != 6 && file_of(to_ix(mv)) != 2 {
        Some(MoveFault::BadCastleTarget)
    } else if is_castle(b, mv) && origin_cleared(b, mv)[rook_from_ix(mv)] is None {
        Some(MoveFault::NoRook)
    } else if is_castle(b, mv) && origin_cleared(b, mv)[rook_from_ix(mv)] != Some(
        Piece { color: mover(b, mv).color, kind: PieceKind::Rook },
    ) {
        Some(MoveFault::BadRook)
    } else {
        None
    }
}

/// `make_move` accepts the move on this position.
pub open spec fn make_ok(b: BoardView, mv: Move) -> bool {
    move_fault(b, mv) is None
}

/// The text of the error that `make_move` reports for a fault.
pub open spec fn fault_message(f: MoveFault) -> Seq<char> {
    match f {
        MoveFault::NoPiece => "no piece on from square"@,
        MoveFault::WrongSide => "piece does not match side to move"@,
        MoveFault::BadEnPassant => "invalid en passant capture"@,
        MoveFault::BadCastleTarget => "invalid castling target"@,
        MoveFault::NoRook => "no rook for castling"@,
        MoveFault::BadRook => "invalid rook for castling"@,
    }
}

pub open spec fn captures(b: BoardView, mv: Move) -> bool {
    lands_on_piece(b, mv) || is_en_passant_capture(b, mv)
}

pub open spec fn captured_square_of(b: BoardView, mv: Move) -> Option<Square> {
    if is_en_passant_capture(b, mv) {
        Some(Square(en_passant_victim(b, mv) as u8))
    } else if lands_on_piece(b, mv) {
        Some(mv.to)
    } else {
        None
    }
}

pub open spec fn captured_of(b: BoardView, mv: Move) -> Option<Piece> {
    if is_en_passant_capture(b, mv) {
        origin_cleared(b, mv)[en_passant_victim(b, mv)]
    } else if lands_on_piece(b, mv) {
        origin_cleared(b, mv)[to_ix(mv)]
    } else {
        None
    }
}

pub open spec fn rook_move_of(b: BoardView, mv: Move) -> Option<(Square, Square)> {
    if is_castle(b, mv) {
        Some((Square(rook_from_ix(mv) as u8), Square(rook_to_ix(mv) as u8)))
    } else {
        None
    }
}

/// The slots after the move: origin emptied, victim removed, piece placed, rook hopped.
pub open spec fn squares_after(b: BoardView, mv: Move) -> Seq<Option<Piece>> {
    let s1 = origin_cleared(b, mv);
    let s2 = if is_en_passant_capture(b, mv) {
        s1.update(en_passant_victim(b, mv), None)
    } else {
        s1
    };
    let s3 = s2.update(to_ix(mv), Some(arriving_piece(b, mv)));
    if is_castle(b, mv) {
        s3.update(rook_from_ix(mv), None).update(rook_to_ix(mv), s1[rook_from_ix(mv)])
    } else {
        s3
    }
}

/// The en-passant target after a move: behind a pawn that advanced two ranks from home.
pub open spec fn en_passant_after(b: BoardView, mv: Move) -> Option<Square> {
    let p = mover(b, mv);
    if p.kind == PieceKind::Pawn && p.color == Color::White && rank_of(from_ix(mv)) == 1
        && rank_of(to_ix(mv)) == 3 {
        Some(Square((from_ix(mv) + 16) as u8))
    } else if p.kind == PieceKind::Pawn && p.color == Color::Black && rank_of(from_ix(mv)) == 6
        && rank_of(to_ix(mv)) == 4 {
        Some(Square((from_ix(mv) - 16) as u8))
    } else {
        None
    }
}

/// The rights that a corner square carries: moving from it or capturing on it revokes them.
pub open spec fn corner_revoke(rights: u8, sq: int) -> u8 {
    if sq == 0 {
        rights & !queenside_bit(Color::White)
    } else if sq == 7 {
        rights & !kingside_bit(Color::White)
    } else if sq == 112 {
        rights & !queenside_bit(Color::Black)
    } else if sq == 119 {
        rights & !kingside_bit(Color::Black)
    } else {
        rights
    }
}

/// The home corners of a color's rooks.
pub open spec fn own_corner(color: Color, sq: int) -> bool {
    match color {
        Color::White => sq == 0 || sq == 7,
        Color::Black => sq == 112 || sq == 119,
    }
}

pub open spec fn castling_after(b: BoardView, mv: Move) -> u8 {
    let p = mover(b, mv);
    let c0 = b.castling_rights;
    let c1 = if p.kind == PieceKind::King {
        c0 & !kingside_bit(p.color) & !queenside_bit(p.color)
    } else {
        c0
    };
    let c2 = if p.kind == PieceKind::Rook && own_corner(p.color, from_ix(mv)) {
        corner_revoke(c1, from_ix(mv))
    } else {
        c1
    };
    if captures(b, mv) {
        corner_revoke(c2, to_ix(mv))
    } else {
        c2
    }
}

pub open spec fn saturating_inc(x: u32) -> u32 {
    if x == u32::MAX {
        x
    } else {
        (x + 1) as u32
    }
}

pub open spec fn halfmove_after(b: BoardView, mv: Move) -> u32 {
    if mover(b, mv).kind == PieceKind::Pawn || captures(b, mv) {
        0
    } else {
        saturating_inc(b.halfmove_clock)
    }
}

pub open spec fn fullmove_after(b: BoardView) -> u32 {
    if b.side_to_move == Color::Black {
        saturating_inc(b.fullmove_number)
    } else {
        b.fullmove_number
    }
}

/// The position after the move, before its hash is brought up to date.
pub open spec fn board_after_unhashed(b: BoardView, mv: Move) -> BoardView {
    BoardView {
        squares: squares_after(b, mv),
        side_to_move: opponent(b.side_to_move),
        castling_rights: castling_after(b, mv),
        en_passant: en_passant_after(b, mv),
        halfmove_clock: halfmove_after(b, mv),
        fullmove_number: fullmove_after(b),
        hash: b.hash,
    }
}

/// The position after `make_move`.
pub open spec fn board_after(b: BoardView, mv: Move) -> BoardView {
    let a = board_after_unhashed(b, mv);
    BoardView {
        hash: updated_hash(
            b.hash,
            a,
            mv,
            mover(b, mv),
            arriving_piece(b, mv),
            captured_of(b, mv),
            captured_square_of(b, mv),
            rook_move_of(b, mv),
            b.castling_rights,
            b.en_passant,
        ),
        ..a
    }
}

/// The undo record of `make_move`.
pub open spec fn undo_of(b: BoardView, mv: Move) -> MoveUndo {
    MoveUndo {
        captured: captured_of(b, mv),
        captured_square: captured_square_of(b, mv),
        previous_en_passant: b.en_passant,
        previous_castling_rights: b.castling_rights,
        previous_halfmove_clock: b.halfmove_clock,
        previous_fullmove_number: b.fullmove_number,
        previous_side_to_move: b.side_to_move,
        rook_move: rook_move_of(b, mv),
        moved_piece: mover(b, mv),
        previous_hash: b.hash,
    }
}

/// The position that `unmake_move` restores from a position, a move and its undo record.
pub open spec fn board_restored(b: BoardView, mv: Move, u: MoveUndo) -> BoardView {
    let s0 = b.squares;
    let s1 = match u.rook_move {
        Some((rf, rt)) => s0.update(rt.0 as int, None).update(rf.0 as int, s0[rt.0 as int]),
        None => s0,
    };
    let s2 = s1.update(to_ix(mv), None).update(from_ix(mv), Some(u.moved_piece));
    let s3 = match u.captured_square {
        Some(c) => s2.update(c.0 as int, u.captured),
        None => s2,
    };
    BoardView {
        squares: s3,
        side_to_move: u.previous_side_to_move,
        castling_rights: u.previous_castling_rights,
        en_passant: u.previous_en_passant,
        halfmove_clock: u.previous_halfmove_clock,
        fullmove_number: u.previous_fullmove_number,
        hash: u.previous_hash,
    }
}

/// The rook hop of a castle lands on an empty square.
pub open spec fn rook_path_clear(b: BoardView, mv: Move) -> bool {
    is_castle(b, mv) ==> b.squares[rook_to_ix(mv)] is None
}

/// A move that `make_move` accepts, between two distinct real squares, whose castling rook
/// lands on an empty square and whose en-passant victim is not the mover itself.
pub open spec fn sound_move(b: BoardView, mv: Move) -> bool {
    &&& b.wf()
    &&& move_onboard(mv)
    &&& mv.from != mv.to
    &&& make_ok(b, mv)
    &&& rook_path_clear(b, mv)
    &&& (is_en_passant_capture(b, mv) ==> en_passant_victim(b, mv) != from_ix(mv))
}

fn fault_text(f: MoveFault) -> (r: String)
    ensures
        r@ == fault_message(f),
{
    match f {
        MoveFault::NoPiece => String::from_str("no piece on from square"),
        MoveFault::WrongSide => String::from_str("piece does not match side to move"),
        MoveFault::BadEnPassant => String::from_str("invalid en passant capture"),
        MoveFault::BadCastleTarget => String::from_str("invalid castling target"),
        MoveFault::NoRook => String::from_str("no rook for castling"),
        MoveFault::BadRook => String::from_str("invalid rook for castling"),
    }
}

/// Applies a move and discards the undo record.
pub fn apply_move(board: &mut Board, mv: Move) -> (r: Result<(), String>)
    requires
        old(board).wf(),
        move_onboard(mv),
    ensures
        r is Ok <==> make_ok(old(board)@, mv),
        r is Ok ==> final(board)@ == board_after(old(board)@, mv),
        r matches Err(e) ==> final(board)@ == old(board)@ && e@ == fault_message(
            move_fault(old(board)@, mv).unwrap(),
        ),
{
    match make_move(board, mv) {
        Ok(_) => Ok(()),
        Err(e) => Err(e),
    }
}

struct MoveContext {
    piece: Piece,
    from_index: u8,
    to_index: u8,
    from_rank: u8,
    to_file: u8,
    to_rank: u8,
    was_capture: bool,
    is_castle: bool,
    is_en_passant_capture: bool,
}

impl MoveContext {
    spec fn matches(self, b: BoardView, mv: Move) -> bool {
        &&& b.squares[from_ix(mv)] is Some
        &&& self.piece == mover(b, mv)
        &&& self.from_index == mv.from.0
        &&& self.to_index == mv.to.0
        &&& self.from_rank == rank_of(from_ix(mv))
        &&& self.to_file == file_of(to_ix(mv))
        &&& self.to_rank == rank_of(to_ix(mv))
        &&& self.was_capture == lands_on_piece(b, mv)
        &&& self.is_castle == is_castle(b, mv)
        &&& self.is_en_passant_capture == is_en_passant_capture(b, mv)
    }

    fn new(board: &Board, mv: Move) -> (r: Result<Self, MoveFault>)
        requires
            board.wf(),
            move_onboard(mv),
        ensures
            r matches Ok(c) ==> c.matches(board@, mv) && mover(board@, mv).color
                == board.side_to_move,
            r matches Err(f) ==> f == move_fault(board@, mv).unwrap() && (f == MoveFault::NoPiece
                || f == MoveFault::WrongSide),
            r is Err <==> (board@.squares[from_ix(mv)] is None || mover(board@, mv).color
                != board.side_to_move),
    {
        let from_index = mv.from.0;
        let to_index = mv.to.0;
        let piece = match board.squares[from_index as usize] {
            Some(p) => p,
            None => return Err(MoveFault::NoPiece),
        };
        if piece.color != board.side_to_move {
            return Err(MoveFault::WrongSide);
        }
        let was_capture = board.squares[to_index as usize].is_some();
        let is_en_passant_capture = piece.kind == PieceKind::Pawn && board.en_passant == Some(
            mv.to,
        ) && !was_capture;
        proof {
            crate::types::lemma_valid_square_bits(from_index);
            crate::types::lemma_valid_square_bits(to_index);
        }
        let from_file = from_index & 0x0f;
        let to_file = to_index & 0x0f;
        let from_rank = from_index >> 4;
        let to_rank = to_index >> 4;
        let home: u8 = match piece.color {
            Color::White => 0,
            Color::Black => 7,
        };
        let is_castle = piece.kind == PieceKind::King && from_rank == home && from_rank == to_rank
            && (from_file == to_file + 2 || to_file == from_file + 2);
        Ok(MoveContext {
            piece,
            from_index,
            to_index,
            from_rank,
            to_file,
            to_rank,
            was_capture,
            is_castle,
            is_en_passant_capture,
        })
    }
}

fn update_castling_rights(rights: &mut u8, piece: Piece, from_index: u8, to_index: u8, was_capture: bool)
    ensures
        *final(rights) == ({
            let c0 = *old(rights);
            let c1 = if piece.kind == PieceKind::King {
                c0 & !kingside_bit(piece.color) & !queenside_bit(piece.color)
            } else {
                c0
            };
            let c2 = if piece.kind == PieceKind::Rook && own_corner(piece.color, from_index as int) {
                corner_revoke(c1, from_index as int)
            } else {
                c1
            };
            if was_capture {
                corner_revoke(c2, to_index as int)
            } else {
                c2
            }
        }),
{
    if piece.kind == PieceKind::King {
        revoke_all(rights, piece.color);
    }
    if piece.kind == PieceKind::Rook {
        match (piece.color, from_index) {
            (Color::White, 0) => revoke_queenside(rights, Color::White),
            (Color::White, 7) => revoke_kingside(rights, Color::White),
            (Color::Black, 112) => revoke_queenside(rights, Color::Black),
            (Color::Black, 119) => revoke_kingside(rights, Color::Black),
            _ => {},
        }
    }
    if was_capture {
        match to_index {
            0 => revoke_queenside(rights, Color::White),
            7 => revoke_kingside(rights, Color::White),
            112 => revoke_queenside(rights, Color::Black),
            119 => revoke_kingside(rights, Color::Black),
            _ => {},
        }
    }
}

/// Makes a move and returns what is needed to take it back. Fails, with the board unchanged,
/// when no piece of the side to move stands on the origin or a castle lacks its rook.
#[verifier::spinoff_prover]
#[verifier::rlimit(60)]
pub fn make_move(board: &mut Board, mv: Move) -> (r: Result<MoveUndo, String>)
    requires
        old(board).wf(),
        move_onboard(mv),
    ensures
        r is Ok <==> make_ok(old(board)@, mv),
        r matches Ok(u) ==> final(board)@ == board_after(old(board)@, mv) && u == undo_of(
            old(board)@,
            mv,
        ),
        r matches Err(e) ==> final(board)@ == old(board)@ && e@ == fault_message(
            move_fault(old(board)@, mv).unwrap(),
        ),
        final(board).wf(),
{
    let ghost b0 = board@;
    let ctx = match MoveContext::new(board, mv) {
        Ok(c) => c,
        Err(f) => return Err(fault_text(f)),
    };
    let piece = ctx.piece;
    let from_index = ctx.from_index as usize;
    let to_index = ctx.to_index as usize;
    let capture_index: usize = if ctx.is_en_passant_capture {
        match piece.color {
            Color::White => {
                if to_index < 16 {
                    return Err(fault_text(MoveFault::BadEnPassant));
                }
                to_index - 16
            },
            Color::Black => {
                if to_index + 16 >= 128 {
                    return Err(fault_text(MoveFault::BadEnPassant));
                }
                to_index + 16
            },
        }
    } else {
        0
    };
    let mut rook_from: usize = 0;
    let mut rook_to: usize = 0;
    let mut rook_piece = piece;
    if ctx.is_castle {
        let rank = ctx.from_rank as usize;
        if ctx.to_file == 6 {
            rook_from = rank * 16 + 7;
            rook_to = rank * 16 + 5;
        } else if ctx.to_file == 2 {
            rook_from = rank * 16;
            rook_to = rank * 16 + 3;
        } else {
            return Err(fault_text(MoveFault::BadCastleTarget));
        }
        let slot = if rook_from == from_index {
            None
        } else {
            board.squares[rook_from]
        };
        match slot {
            None => return Err(fault_text(MoveFault::NoRook)),
            Some(rook) => {
                if rook.kind != PieceKind::Rook || rook.color != piece.color {
                    return Err(fault_text(MoveFault::BadRook));
                }
                rook_piece = rook;
            },
        }
    }
    assert(make_ok(b0, mv));
    let moved_piece = match mv.promotion {
        Some(kind) => Piece { color: piece.color, kind },
        None => piece,
    };
    let previous_castling = board.castling_rights;
    let previous_en_passant = board.en_passant;
    let previous_hash = board.hash;
    let previous_halfmove = board.halfmove_clock;
    let previous_fullmove = board.fullmove_number;
    let previous_side = board.side_to_move;

    board.squares.set(from_index, None);
    let mut captured: Option<Piece> = None;
    let mut captured_square: Option<Square> = None;
    if ctx.is_en_passant_capture {
        captured = board.squares[capture_index];
        captured_square = Some(Square(capture_index as u8));
        board.squares.set(capture_index, None);
    } else if ctx.was_capture {
        captured = board.squares[to_index];
        captured_square = Some(mv.to);
    }
    board.squares.set(to_index, Some(moved_piece));
    let mut rook_move: Option<(Square, Square)> = None;
    if ctx.is_castle {
        board.squares.set(rook_from, None);
        board.squares.set(rook_to, Some(rook_piece));
        rook_move = Some((Square(rook_from as u8), Square(rook_to as u8)));
    }
    assert(board.squares@ =~= squares_after(b0, mv));

    let mut new_en_passant: Option<Square> = None;
    if piece.kind == PieceKind::Pawn {
        let from_rank = ctx.from_rank;
        let to_rank = ctx.to_rank;
        if piece.color == Color::White && from_rank == 1 && to_rank == 3 {
            new_en_passant = Some(Square(ctx.from_index + 16));
        } else if piece.color == Color::Black && from_rank == 6 && to_rank == 4 {
            new_en_passant = Some(Square(ctx.from_index - 16));
        }
    }
    board.en_passant = new_en_passant;

    let was_capture = ctx.was_capture || ctx.is_en_passant_capture;
    update_castling_rights(&mut board.castling_rights, piece, ctx.from_index, ctx.to_index, was_capture);

    if piece.kind == PieceKind::Pawn || was_capture {
        board.halfmove_clock = 0;
    } else {
        board.halfmove_clock = board.halfmove_clock.saturating_add(1);
    }
    if board.side_to_move == Color::Black {
        board.fullmove_number = board.fullmove_number.saturating_add(1);
    }
    board.side_to_move = match board.side_to_move {
        Color::White => Color::Black,
        Color::Black => Color::White,
    };
    assert(board@ =~= board_after_unhashed(b0, mv));

    board.hash = update_hash_for_move(
        board,
        mv,
        piece,
        moved_piece,
        captured,
        captured_square,
        rook_move,
        previous_castling,
        previous_en_passant,
    );
    assert(board@ =~= board_after(b0, mv));

    Ok(MoveUndo {
        captured,
        captured_square,
        previous_en_passant,
        previous_castling_rights: previous_castling,
        previous_halfmove_clock: previous_halfmove,
        previous_fullmove_number: previous_fullmove,
        previous_side_to_move: previous_side,
        rook_move,
        moved_piece: piece,
        previous_hash,
    })
}

/// Squares named by an undo record, all of them real slots of the table.
pub open spec fn undo_in_range(mv: Move, u: MoveUndo) -> bool {
    &&& move_onboard(mv)
    &&& (u.rook_move matches Some((a, b)) ==> a.0 < 128 && b.0 < 128)
    &&& (u.captured_square matches Some(c) ==> c.0 < 128)
}

/// Takes a move back with the record that `make_move` returned for it.
pub fn unmake_move(board: &mut Board, mv: Move, undo: MoveUndo)
    requires
        old(board).wf(),
        undo_in_range(mv, undo),
    ensures
        final(board)@ == board_restored(old(board)@, mv, undo),
        final(board).wf(),
{
    let ghost b0 = board@;
    board.side_to_move = undo.previous_side_to_move;
    board.halfmove_clock = undo.previous_halfmove_clock;
    board.fullmove_number = undo.previous_fullmove_number;
    board.castling_rights = undo.previous_castling_rights;
    board.en_passant = undo.previous_en_passant;
    board.hash = undo.previous_hash;

    if let Some((rook_from, rook_to)) = undo.rook_move {
        let rook = board.squares[rook_to.0 as usize];
        board.squares.set(rook_to.0 as usize, None);
        board.squares.set(rook_from.0 as usize, rook);
    }
    board.squares.set(mv.to.0 as usize, None);
    board.squares.set(mv.from.0 as usize, Some(undo.moved_piece));
    if let Some(square) = undo.captured_square {
        board.squares.set(square.0 as usize, undo.captured);
    }
    assert(board@ =~= board_restored(b0, mv, undo));
}

impl Board {
    pub fn make_move(&mut self, mv: Move) -> (r: Result<MoveUndo, String>)
        requires
            old(self).wf(),
            move_onboard(mv),
        ensures
            r is Ok <==> make_ok(old(self)@, mv),
            r matches Ok(u) ==> final(self)@ == board_after(old(self)@, mv) && u == undo_of(
                old(self)@,
                mv,
            ),
            r matches Err(e) ==> final(self)@ == old(self)@ && e@ == fault_message(
                move_fault(old(self)@, mv).unwrap(),
            ),
            final(self).wf(),
    {
        make_move(self, mv)
    }

    pub fn unmake_move(&mut self, mv: Move, undo: MoveUndo)
        requires
            old(self).wf(),
            undo_in_range(mv, undo),
        ensures
            final(self)@ == board_restored(old(self)@, mv, undo),
            final(self).wf(),
    {
        unmake_move(self, mv, undo)
    }

    pub fn apply_move(&mut self, mv: Move) -> (r: Result<(), String>)
        requires
            old(self).wf(),
            move_onboard(mv),
        ensures
            r is Ok <==> make_ok(old(self)@, mv),
            r is Ok ==> final(self)@ == board_after(old(self)@, mv),
            r matches Err(e) ==> final(self)@ == old(self)@ && e@ == fault_message(
                move_fault(old(self)@, mv).unwrap(),
            ),
            final(self).wf(),
    {
        match make_move(self, mv) {
            Ok(_) => Ok(()),
            Err(e) => Err(e),
        }
    }
}

} // verus!
