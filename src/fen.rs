use vstd::prelude::*;
use crate::board::{empty_slots, empty_squares, Board, BoardView};
use crate::castling::{
    has_kingside, has_queenside, kingside_bit, queenside_bit, CASTLE_BLACK_KING,
    CASTLE_BLACK_QUEEN, CASTLE_WHITE_KING, CASTLE_WHITE_QUEEN,
};
use crate::movegen::{attacked, holds, is_square_attacked, king_square, king_square_from};
use crate::text::{fields, split_fields, parse_u32, u32_of};
use crate::types::{
    chars_of, is_valid_square, onboard, opponent, rank_of, Color, Piece, PieceKind, Square,
};

verus! {

pub const STARTPOS_FEN: &'static str = "rnbqkbnr/pppppppp/8/8/8/8/PPPPPPPP/RNBQKBNR w KQkq - 0 1";

/// The fields of a FEN record, before the semantic checks.
#[derive(Debug)]
pub struct FenData {
    pub squares: Vec<Option<Piece>>,
    pub side_to_move: Color,
    pub castling_rights: u8,
    pub en_passant: Option<Square>,
    pub halfmove_clock: u32,
    pub fullmove_number: u32,
}

impl View for FenData {
    type V = BoardView;

    open spec fn view(&self) -> BoardView {
        BoardView {
            squares: self.squares@,
            side_to_move: self.side_to_move,
            castling_rights: self.castling_rights,
            en_passant: self.en_passant,
            halfmove_clock: self.halfmove_clock,
            fullmove_number: self.fullmove_number,
            hash: 0,
        }
    }
}

// ---------------------------------------------------------------- syntax

pub open spec fn piece_of_char(c: char) -> Option<Piece> {
    let white = Color::White;
    let black = Color::Black;
    if c == 'P' {
        Some(Piece { color: white, kind: PieceKind::Pawn })
    } else if c == 'N' {
        Some(Piece { color: white, kind: PieceKind::Knight })
    } else if c == 'B' {
        Some(Piece { color: white, kind: PieceKind::Bishop })
    } else if c == 'R' {
        Some(Piece { color: white, kind: PieceKind::Rook })
    } else if c == 'Q' {
        Some(Piece { color: white, kind: PieceKind::Queen })
    } else if c == 'K' {
        Some(Piece { color: white, kind: PieceKind::King })
    } else if c == 'p' {
        Some(Piece { color: black, kind: PieceKind::Pawn })
    } else if c == 'n' {
        Some(Piece { color: black, kind: PieceKind::Knight })
    } else if c == 'b' {
        Some(Piece { color: black, kind: PieceKind::Bishop })
    } else if c == 'r' {
        Some(Piece { color: black, kind: PieceKind::Rook })
    } else if c == 'q' {
        Some(Piece { color: black, kind: PieceKind::Queen })
    } else if c == 'k' {
        Some(Piece { color: black, kind: PieceKind::King })
    } else {
        None
    }
}

pub fn piece_from_fen(ch: char) -> (r: Option<Piece>)
    ensures
        r == piece_of_char(ch),
{
    let (color, kind) = if ch == 'P' {
        (Color::White, PieceKind::Pawn)
    } else if ch == 'N' {
        (Color::White, PieceKind::Knight)
    } else if ch == 'B' {
        (Color::White, PieceKind::Bishop)
    } else if ch == 'R' {
        (Color::White, PieceKind::Rook)
    } else if ch == 'Q' {
        (Color::White, PieceKind::Queen)
    } else if ch == 'K' {
        (Color::White, PieceKind::King)
    } else if ch == 'p' {
        (Color::Black, PieceKind::Pawn)
    } else if ch == 'n' {
        (Color::Black, PieceKind::Knight)
    } else if ch == 'b' {
        (Color::Black, PieceKind::Bishop)
    } else if ch == 'r' {
        (Color::Black, PieceKind::Rook)
    } else if ch == 'q' {
        (Color::Black, PieceKind::Queen)
    } else if ch == 'k' {
        (Color::Black, PieceKind::King)
    } else {
        return None;
    };
    Some(Piece { color, kind })
}

/// One character of the placement field applied to (rank, file, slots).
pub open spec fn place_step(st: (int, int, Seq<Option<Piece>>), c: char) -> Option<
    (int, int, Seq<Option<Piece>>),
> {
    let (rank, file, sq) = st;
    if c == '/' {
        if file != 8 || rank == 0 {
            None
        } else {
            Some((rank - 1, 0, sq))
        }
    } else if '0' <= c <= '9' {
        let e = c as int - '0' as int;
        if e == 0 || file + e > 8 {
            None
        } else {
            Some((rank, file + e, sq))
        }
    } else {
        match piece_of_char(c) {
            None => None,
            Some(p) => if file > 7 {
                None
            } else {
                Some((rank, file + 1, sq.update(rank * 16 + file, Some(p))))
            },
        }
    }
}

pub open spec fn place_fold(p: Seq<char>, n: nat) -> Option<(int, int, Seq<Option<Piece>>)>
    decreases n,
{
    if n == 0 {
        Some((7, 0, empty_squares()))
    } else {
        match place_fold(p, (n - 1) as nat) {
            Some(st) => place_step(st, p[n - 1]),
            None => None,
        }
    }
}

/// The slots described by a placement field: eight ranks of exactly eight files each.
pub open spec fn placement_spec(p: Seq<char>) -> Option<Seq<Option<Piece>>> {
    match place_fold(p, p.len()) {
        Some((rank, file, sq)) => if rank == 0 && file == 8 {
            Some(sq)
        } else {
            None
        },
        None => None,
    }
}

fn parse_piece_placement(placement: &Vec<char>) -> (r: Result<Vec<Option<Piece>>, String>)
    ensures
        r matches Ok(v) ==> placement_spec(placement@) == Some(v@) && v@.len() == 128,
        r is Err ==> placement_spec(placement@) is None,
{
    let mut squares = empty_slots();
    let mut rank: u8 = 7;
    let mut file: u8 = 0;
    let mut i: usize = 0;
    while i < placement.len()
        invariant
            i <= placement.len(),
            rank <= 7,
            file <= 8,
            squares@.len() == 128,
            place_fold(placement@, i as nat) == Some((rank as int, file as int, squares@)),
        decreases placement.len() - i,
    {
        let ch = placement[i];
        if ch == '/' {
            if file != 8 {
                proof { lemma_place_fold_stuck(placement@, (i + 1) as nat); }
                return Err(String::from_str("invalid FEN rank length"));
            }
            if rank == 0 {
                proof { lemma_place_fold_stuck(placement@, (i + 1) as nat); }
                return Err(String::from_str("too many ranks in FEN"));
            }
            rank = rank - 1;
            file = 0;
        } else if '0' <= ch && ch <= '9' {
            let empty = (ch as u32 - '0' as u32) as u8;
            if empty == 0 || file + empty > 8 {
                proof { lemma_place_fold_stuck(placement@, (i + 1) as nat); }
                return Err(String::from_str("invalid empty count in FEN"));
            }
            file = file + empty;
        } else {
            let piece = match piece_from_fen(ch) {
                Some(p) => p,
                None => {
                    proof { lemma_place_fold_stuck(placement@, (i + 1) as nat); }
                    return Err(String::from_str("invalid piece in FEN"));
                },
            };
            if file > 7 {
                proof { lemma_place_fold_stuck(placement@, (i + 1) as nat); }
                return Err(String::from_str("invalid FEN rank length"));
            }
            let square = (rank * 16 + file) as usize;
            squares.set(square, Some(piece));
            file = file + 1;
        }
        i += 1;
    }
    if rank != 0 || file != 8 {
        return Err(String::from_str("invalid FEN rank count"));
    }
    Ok(squares)
}

/// Once the placement fold fails it stays failed.
proof fn lemma_place_fold_stuck(p: Seq<char>, n: nat)
    requires
        n <= p.len(),
        place_fold(p, n) is None,
    ensures
        place_fold(p, p.len()) is None,
    decreases p.len() - n,
{
    if n < p.len() {
        lemma_place_fold_stuck(p, n + 1);
    }
}

pub open spec fn castle_bit_of(c: char) -> Option<u8> {
    if c == 'K' {
        Some(CASTLE_WHITE_KING)
    } else if c == 'Q' {
        Some(CASTLE_WHITE_QUEEN)
    } else if c == 'k' {
        Some(CASTLE_BLACK_KING)
    } else if c == 'q' {
        Some(CASTLE_BLACK_QUEEN)
    } else {
        None
    }
}

pub open spec fn castling_fold(t: Seq<char>, n: nat) -> Option<u8>
    decreases n,
{
    if n == 0 {
        Some(0)
    } else {
        match (castling_fold(t, (n - 1) as nat), castle_bit_of(t[n - 1])) {
            (Some(m), Some(b)) => if m & b != 0 {
                None
            } else {
                Some(m | b)
            },
            _ => None,
        }
    }
}

/// The rights mask of a castling field: `-`, or letters of `KQkq` each at most once.
pub open spec fn castling_spec(t: Seq<char>) -> Option<u8> {
    if t == seq!['-'] {
        Some(0)
    } else {
        castling_fold(t, t.len())
    }
}

proof fn lemma_castling_fold_stuck(t: Seq<char>, n: nat)
    requires
        n <= t.len(),
        castling_fold(t, n) is None,
    ensures
        castling_fold(t, t.len()) is None,
    decreases t.len() - n,
{
    if n < t.len() {
        lemma_castling_fold_stuck(t, n + 1);
    }
}

fn castle_bit(c: char) -> (r: Option<u8>)
    ensures
        r == castle_bit_of(c),
{
    if c == 'K' {
        Some(CASTLE_WHITE_KING)
    } else if c == 'Q' {
        Some(CASTLE_WHITE_QUEEN)
    } else if c == 'k' {
        Some(CASTLE_BLACK_KING)
    } else if c == 'q' {
        Some(CASTLE_BLACK_QUEEN)
    } else {
        None
    }
}

fn parse_castling_rights(text: &Vec<char>) -> (r: Result<u8, String>)
    ensures
        r matches Ok(m) ==> castling_spec(text@) == Some(m),
        r is Err ==> castling_spec(text@) is None,
{
    if text.len() == 1 && text[0] == '-' {
        assert(text@ =~= seq!['-']);
        return Ok(0);
    }
    assert(text@ != seq!['-']);
    let mut rights: u8 = 0;
    let mut i: usize = 0;
    while i < text.len()
        invariant
            i <= text.len(),
            castling_fold(text@, i as nat) == Some(rights),
            text@ != seq!['-'],
        decreases text.len() - i,
    {
        let bit: u8 = match castle_bit(text[i]) {
            Some(b) => b,
            None => {
                proof {
                    lemma_castling_fold_stuck(text@, (i + 1) as nat);
                }
                return Err(String::from_str("invalid castling rights"));
            },
        };
        if rights & bit != 0 {
            proof { lemma_castling_fold_stuck(text@, (i + 1) as nat); }
            return Err(String::from_str("duplicate castling rights"));
        }
        rights = rights | bit;
        i += 1;
    }
    Ok(rights)
}

/// The en-passant field: `-`, or a lower-case square name.
pub open spec fn en_passant_spec(t: Seq<char>) -> Option<Option<Square>> {
    if t == seq!['-'] {
        Some(None)
    } else if t.len() == 2 && 'a' <= t[0] <= 'h' && '1' <= t[1] <= '8' {
        Some(Some(Square(((t[1] as int - '1' as int) * 16 + (t[0] as int - 'a' as int)) as u8)))
    } else {
        None
    }
}

fn parse_en_passant(text: &Vec<char>) -> (r: Result<Option<Square>, String>)
    ensures
        r matches Ok(e) ==> en_passant_spec(text@) == Some(e),
        r is Err ==> en_passant_spec(text@) is None,
{
    if text.len() == 1 && text[0] == '-' {
        assert(text@ =~= seq!['-']);
        return Ok(None);
    }
    assert(text@ != seq!['-']);
    if text.len() != 2 {
        return Err(String::from_str("invalid en passant square"));
    }
    let f = text[0];
    let r = text[1];
    if f < 'a' || f > 'h' || r < '1' || r > '8' {
        return Err(String::from_str("invalid en passant square"));
    }
    let file = (f as u32 - 'a' as u32) as u8;
    let rank = (r as u32 - '1' as u32) as u8;
    Ok(Some(Square(rank * 16 + file)))
}

pub open spec fn side_spec(t: Seq<char>) -> Option<Color> {
    if t == seq!['w'] {
        Some(Color::White)
    } else if t == seq!['b'] {
        Some(Color::Black)
    } else {
        None
    }
}

/// The position a FEN text describes, before the semantic checks; its hash is left at zero.
#[verifier::opaque]
pub open spec fn fen_spec(text: Seq<char>) -> Option<BoardView> {
    let fs = fields(text);
    if fs.len() != 6 {
        None
    } else {
        match (
            placement_spec(fs[0]),
            side_spec(fs[1]),
            castling_spec(fs[2]),
            en_passant_spec(fs[3]),
            u32_of(fs[4]),
            u32_of(fs[5]),
        ) {
            (Some(sq), Some(side), Some(rights), Some(ep), Some(half), Some(full)) => Some(
                BoardView {
                    squares: sq,
                    side_to_move: side,
                    castling_rights: rights,
                    en_passant: ep,
                    halfmove_clock: half,
                    fullmove_number: full,
                    hash: 0,
                },
            ),
            _ => None,
        }
    }
}

/// The message for a record without six fields, or with a bad side-to-move field after a good
/// placement.
#[verifier::opaque]
pub open spec fn fen_shape_error(t: Seq<char>) -> Option<Seq<char>> {
    let fs = fields(t);
    if fs.len() != 6 {
        Some("FEN must have 6 fields"@)
    } else if placement_spec(fs[0]) is Some && side_spec(fs[1]) is None {
        Some("invalid side to move"@)
    } else {
        None
    }
}

/// Parses the six fields of a FEN record.
pub fn parse_fen(fen: &str) -> (r: Result<FenData, String>)
    ensures
        r matches Ok(d) ==> fen_spec(fen@) == Some(d@) && d.squares@.len() == 128 && (
        d.en_passant matches Some(e) ==> onboard(e.0 as int)),
        r is Err ==> fen_spec(fen@) is None,
        fen_shape_error(fen@) matches Some(m) ==> (r matches Err(e) && e@ == m),
{
    reveal(fen_shape_error);
    reveal(fen_spec);
    let chars = chars_of(fen);
    let parts = split_fields(&chars);
    if parts.len() != 6 {
        return Err(String::from_str("FEN must have 6 fields"));
    }
    let squares = match parse_piece_placement(&parts[0]) {
        Ok(s) => s,
        Err(e) => return Err(e),
    };
    let side_text = &parts[1];
    let side_to_move = if side_text.len() == 1 && side_text[0] == 'w' {
        assert(side_text@ =~= seq!['w']);
        Color::White
    } else if side_text.len() == 1 && side_text[0] == 'b' {
        assert(side_text@ =~= seq!['b']);
        Color::Black
    } else {
        assert(side_text@ != seq!['w'] && side_text@ != seq!['b']);
        return Err(String::from_str("invalid side to move"));
    };
    let castling_rights = match parse_castling_rights(&parts[2]) {
        Ok(m) => m,
        Err(e) => return Err(e),
    };
    let en_passant = match parse_en_passant(&parts[3]) {
        Ok(e) => e,
        Err(e) => return Err(e),
    };
    let halfmove_clock = match parse_u32(&parts[4]) {
        Some(v) => v,
        None => return Err(String::from_str("invalid halfmove clock")),
    };
    let fullmove_number = match parse_u32(&parts[5]) {
        Some(v) => v,
        None => return Err(String::from_str("invalid fullmove number")),
    };
    Ok(
        FenData {
            squares,
            side_to_move,
            castling_rights,
            en_passant,
            halfmove_clock,
            fullmove_number,
        },
    )
}

// ---------------------------------------------------------------- semantics

pub open spec fn is_pawn(e: Option<Piece>) -> bool {
    e matches Some(p) && p.kind == PieceKind::Pawn
}

/// No pawn stands on the first or the last rank among the first `n` slots.
pub open spec fn edge_pawn_free(v: BoardView, n: int) -> bool {
    forall|i: int|
        0 <= i < n && onboard(i) && is_pawn(#[trigger] v.squares[i]) ==> rank_of(i) != 0
            && rank_of(i) != 7
}

/// The number of kings of color `c` on the first `n` slots.
pub open spec fn king_count(v: BoardView, c: Color, n: nat) -> nat
    decreases n,
{
    if n == 0 {
        0
    } else {
        king_count(v, c, (n - 1) as nat) + if onboard(n - 1) && holds(v, n - 1, c, PieceKind::King) {
            1nat
        } else {
            0nat
        }
    }
}

/// Each castling right names a king and a rook on their home squares.
pub open spec fn rights_consistent(v: BoardView) -> bool {
    &&& (v.castling_rights & kingside_bit(Color::White) != 0 ==> holds(v, 4, Color::White, PieceKind::King)
        && holds(v, 7, Color::White, PieceKind::Rook))
    &&& (v.castling_rights & queenside_bit(Color::White) != 0 ==> holds(v, 4, Color::White, PieceKind::King)
        && holds(v, 0, Color::White, PieceKind::Rook))
    &&& (v.castling_rights & kingside_bit(Color::Black) != 0 ==> holds(v, 116, Color::Black, PieceKind::King)
        && holds(v, 119, Color::Black, PieceKind::Rook))
    &&& (v.castling_rights & queenside_bit(Color::Black) != 0 ==> holds(v, 116, Color::Black, PieceKind::King)
        && holds(v, 112, Color::Black, PieceKind::Rook))
}

pub open spec fn pawn_on(v: BoardView, x: int, c: Color) -> bool {
    0 <= x <= 127 && onboard(x) && holds(v, x, c, PieceKind::Pawn)
}

/// The en-passant target lies on the right rank, is empty, has the enemy pawn beyond it, and
/// a pawn of the side to move can take that pawn.
pub open spec fn en_passant_valid(v: BoardView, e: int) -> bool {
    let white = v.side_to_move == Color::White;
    let victim = if white { e - 16 } else { e + 16 };
    let left = if white { e - 17 } else { e + 17 };
    let right = if white { e - 15 } else { e + 15 };
    &&& rank_of(e) == (if white { 5int } else { 2int })
    &&& v.squares[e] is None
    &&& pawn_on(v, victim, opponent(v.side_to_move))
    &&& (pawn_on(v, left, v.side_to_move) || pawn_on(v, right, v.side_to_move))
}

/// The text parses as FEN and passes the semantic checks.
#[verifier::opaque]
pub open spec fn fen_accepted(text: Seq<char>) -> bool {
    fen_spec(text) matches Some(v) && fen_semantics_ok(v)
}

/// The semantic checks on a parsed position.
pub open spec fn fen_semantics_ok(v: BoardView) -> bool {
    &&& edge_pawn_free(v, 128)
    &&& king_count(v, Color::White, 128) == 1
    &&& king_count(v, Color::Black, 128) == 1
    &&& rights_consistent(v)
    &&& !(attacked(v, king_square(v, Color::White).unwrap(), Color::Black) && attacked(
        v,
        king_square(v, Color::Black).unwrap(),
        Color::White,
    ))
    &&& (v.en_passant matches Some(e) ==> en_passant_valid(v, e.0 as int))
}

proof fn lemma_king_count_mono(v: BoardView, c: Color, n: nat, m: nat)
    requires
        n <= m,
    ensures
        king_count(v, c, n) <= king_count(v, c, m),
    decreases m - n,
{
    if n < m {
        lemma_king_count_mono(v, c, n, (m - 1) as nat);
    }
}

proof fn lemma_no_king_before(v: BoardView, c: Color, i: int)
    requires
        0 <= i <= 128,
        king_count(v, c, i as nat) == 0,
    ensures
        king_square_from(v, c, 0) == king_square_from(v, c, i),
    decreases i,
{
    if i > 0 {
        lemma_no_king_before(v, c, i - 1);
    }
}

/// The message of the first failing en-passant check, if one fails.
pub open spec fn en_passant_error(v: BoardView, e: int) -> Option<Seq<char>> {
    let white = v.side_to_move == Color::White;
    let victim = if white { e - 16 } else { e + 16 };
    let left = if white { e - 17 } else { e + 17 };
    let right = if white { e - 15 } else { e + 15 };
    if rank_of(e) != (if white { 5int } else { 2int }) {
        Some("invalid en passant rank"@)
    } else if v.squares[e] is Some {
        Some("en passant square is occupied"@)
    } else if !pawn_on(v, victim, opponent(v.side_to_move)) {
        Some("missing pawn for en passant"@)
    } else if !(pawn_on(v, left, v.side_to_move) || pawn_on(v, right, v.side_to_move)) {
        Some("no pawn can capture en passant"@)
    } else {
        None
    }
}

/// The message of the first failing semantic check, in the order: pawns on the edge ranks,
/// too many kings, a missing white king, a missing black king, each castling right, both kings
/// in check, the en-passant target.
#[verifier::opaque]
pub open spec fn semantic_error(v: BoardView) -> Option<Seq<char>> {
    let w = Color::White;
    let bl = Color::Black;
    let rights = v.castling_rights;
    if !edge_pawn_free(v, 128) {
        Some("invalid pawn on first or eighth rank"@)
    } else if king_count(v, w, 128) > 1 || king_count(v, bl, 128) > 1 {
        Some("invalid king count"@)
    } else if king_count(v, w, 128) == 0 {
        Some("missing white king"@)
    } else if king_count(v, bl, 128) == 0 {
        Some("missing black king"@)
    } else if rights & kingside_bit(w) != 0 && !(holds(v, 4, w, PieceKind::King) && holds(v, 7, w, PieceKind::Rook)) {
        Some("invalid white kingside castling rights"@)
    } else if rights & queenside_bit(w) != 0 && !(holds(v, 4, w, PieceKind::King) && holds(v, 0, w, PieceKind::Rook)) {
        Some("invalid white queenside castling rights"@)
    } else if rights & kingside_bit(bl) != 0 && !(holds(v, 116, bl, PieceKind::King) && holds(v, 119, bl, PieceKind::Rook)) {
        Some("invalid black kingside castling rights"@)
    } else if rights & queenside_bit(bl) != 0 && !(holds(v, 116, bl, PieceKind::King) && holds(v, 112, bl, PieceKind::Rook)) {
        Some("invalid black queenside castling rights"@)
    } else if attacked(v, king_square(v, w).unwrap(), bl) && attacked(v, king_square(v, bl).unwrap(), w) {
        Some("both kings are in check"@)
    } else {
        match v.en_passant {
            Some(e) => en_passant_error(v, e.0 as int),
            None => None,
        }
    }
}

fn is_piece_at(data: &FenData, square: u8, color: Color, kind: PieceKind) -> (r: bool)
    requires
        data.squares@.len() == 128,
        square < 128,
    ensures
        r == holds(data@, square as int, color, kind),
{
    match data.squares[square as usize] {
        Some(p) => p.color == color && p.kind == kind,
        None => false,
    }
}

fn pawn_at_index(data: &FenData, index: i16, color: Color) -> (r: bool)
    requires
        data.squares@.len() == 128,
    ensures
        r == pawn_on(data@, index as int, color),
{
    if index < 0 || index > 127 || !is_valid_square(index as u8) {
        return false;
    }
    is_piece_at(data, index as u8, color, PieceKind::Pawn)
}

fn validate_en_passant(data: &FenData, ep: Square) -> (r: Result<(), String>)
    requires
        data.squares@.len() == 128,
        onboard(ep.0 as int),
    ensures
        r is Ok <==> en_passant_valid(data@, ep.0 as int),
        r is Ok <==> en_passant_error(data@, ep.0 as int) is None,
        r matches Err(m) ==> en_passant_error(data@, ep.0 as int) == Some(m@),
{
    proof {
        crate::types::lemma_valid_square_bits(ep.0);
    }
    let white = data.side_to_move == Color::White;
    let rank = ep.0 >> 4;
    let expected: u8 = if white { 5 } else { 2 };
    if rank != expected {
        return Err(String::from_str("invalid en passant rank"));
    }
    if data.squares[ep.0 as usize].is_some() {
        return Err(String::from_str("en passant square is occupied"));
    }
    let e = ep.0 as i16;
    let opponent_pawn_index: i16 = if white { e - 16 } else { e + 16 };
    let opponent_color = if white { Color::Black } else { Color::White };
    if !pawn_at_index(data, opponent_pawn_index, opponent_color) {
        return Err(String::from_str("missing pawn for en passant"));
    }
    let (left, right): (i16, i16) = if white { (e - 17, e - 15) } else { (e + 17, e + 15) };
    if !pawn_at_index(data, left, data.side_to_move) && !pawn_at_index(data, right, data.side_to_move) {
        return Err(String::from_str("no pawn can capture en passant"));
    }
    Ok(())
}

fn copy_slots(v: &Vec<Option<Piece>>) -> (r: Vec<Option<Piece>>)
    ensures
        r@ == v@,
{
    let mut out: Vec<Option<Piece>> = Vec::new();
    let mut i: usize = 0;
    while i < v.len()
        invariant
            i <= v.len(),
            out@ == v@.subrange(0, i as int),
        decreases v.len() - i,
    {
        out.push(v[i]);
        i += 1;
    }
    assert(out@ =~= v@);
    out
}

/// Checks that a parsed position can occur: pawns off the edge ranks, one king per side,
/// castling rights backed by king and rook, not both kings in check, a sound en-passant target.
pub fn validate_fen_semantics(data: &FenData) -> (r: Result<(), String>)
    requires
        data.squares@.len() == 128,
        data.en_passant matches Some(e) ==> onboard(e.0 as int),
    ensures
        r is Ok <==> fen_semantics_ok(data@),
        r is Ok <==> semantic_error(data@) is None,
        r matches Err(m) ==> semantic_error(data@) == Some(m@),
{
    reveal(semantic_error);
    let ghost v = data@;
    let mut pawn_index: u8 = 0;
    while pawn_index < 128
        invariant
            data.squares@.len() == 128,
            v == data@,
            pawn_index <= 128,
            edge_pawn_free(v, pawn_index as int),
        decreases 128 - pawn_index,
    {
        if is_valid_square(pawn_index) {
            if let Some(piece) = data.squares[pawn_index as usize] {
                proof {
                    crate::types::lemma_valid_square_bits(pawn_index);
                }
                let rank = pawn_index >> 4;
                if piece.kind == PieceKind::Pawn && (rank == 0 || rank == 7) {
                    assert(is_pawn(v.squares[pawn_index as int]));
                    proof {
                        reveal(semantic_error);
                    }
                    return Err(String::from_str("invalid pawn on first or eighth rank"));
                }
            }
        }
        pawn_index += 1;
    }
    let mut white_king: Option<u8> = None;
    let mut black_king: Option<u8> = None;
    let mut index: u8 = 0;
    while index < 128
        invariant
            data.squares@.len() == 128,
            v == data@,
            index <= 128,
            edge_pawn_free(v, 128),
            white_king is None <==> king_count(v, Color::White, index as nat) == 0,
            white_king matches Some(k) ==> king_count(v, Color::White, index as nat) == 1
                && king_square(v, Color::White) == Some(k as int) && k < 128,
            black_king is None <==> king_count(v, Color::Black, index as nat) == 0,
            black_king matches Some(k) ==> king_count(v, Color::Black, index as nat) == 1
                && king_square(v, Color::Black) == Some(k as int) && k < 128,
        decreases 128 - index,
    {
        if is_valid_square(index) {
            if let Some(piece) = data.squares[index as usize] {
                if piece.kind == PieceKind::King {
                    match piece.color {
                        Color::White => {
                            if white_king.is_some() {
                                proof {
                                    lemma_king_count_mono(v, Color::White, (index + 1) as nat, 128);
                                    reveal(semantic_error);
                                }
                                return Err(String::from_str("invalid king count"));
                            }
                            proof {
                                lemma_no_king_before(v, Color::White, index as int);
                            }
                            white_king = Some(index);
                        },
                        Color::Black => {
                            if black_king.is_some() {
                                proof {
                                    lemma_king_count_mono(v, Color::Black, (index + 1) as nat, 128);
                                    reveal(semantic_error);
                                }
                                return Err(String::from_str("invalid king count"));
                            }
                            proof {
                                lemma_no_king_before(v, Color::Black, index as int);
                            }
                            black_king = Some(index);
                        },
                    }
                }
            }
        }
        index += 1;
    }
    let wk = match white_king {
        Some(k) => k,
        None => return Err(String::from_str("missing white king")),
    };
    let bk = match black_king {
        Some(k) => k,
        None => return Err(String::from_str("missing black king")),
    };
    let rights = data.castling_rights;
    if has_kingside(rights, Color::White) {
        if !is_piece_at(data, 4, Color::White, PieceKind::King) || !is_piece_at(data, 7, Color::White, PieceKind::Rook) {
            return Err(String::from_str("invalid white kingside castling rights"));
        }
    }
    if has_queenside(rights, Color::White) {
        if !is_piece_at(data, 4, Color::White, PieceKind::King) || !is_piece_at(data, 0, Color::White, PieceKind::Rook) {
            return Err(String::from_str("invalid white queenside castling rights"));
        }
    }
    if has_kingside(rights, Color::Black) {
        if !is_piece_at(data, 116, Color::Black, PieceKind::King) || !is_piece_at(data, 119, Color::Black, PieceKind::Rook) {
            return Err(String::from_str("invalid black kingside castling rights"));
        }
    }
    if has_queenside(rights, Color::Black) {
        if !is_piece_at(data, 116, Color::Black, PieceKind::King) || !is_piece_at(data, 112, Color::Black, PieceKind::Rook) {
            return Err(String::from_str("invalid black queenside castling rights"));
        }
    }
    let board = Board {
        squares: copy_slots(&data.squares),
        side_to_move: data.side_to_move,
        castling_rights: data.castling_rights,
        en_passant: data.en_passant,
        halfmove_clock: data.halfmove_clock,
        fullmove_number: data.fullmove_number,
        hash: 0,
    };
    assert(board@.squares == v.squares);
    let white_in_check = is_square_attacked(&board, Square(wk), Color::Black);
    let black_in_check = is_square_attacked(&board, Square(bk), Color::White);
    proof {
        crate::movegen::lemma_attacked_ignores_hash(board@, v, wk as int, Color::Black);
        crate::movegen::lemma_attacked_ignores_hash(board@, v, bk as int, Color::White);
    }
    if white_in_check && black_in_check {
        return Err(String::from_str("both kings are in check"));
    }
    if let Some(ep) = data.en_passant {
        match validate_en_passant(data, ep) {
            Ok(()) => {},
            Err(e) => return Err(e),
        }
    }
    Ok(())
}

} // verus!
