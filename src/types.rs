use vstd::prelude::*;

verus! {

/// The two sides of a game.
#[derive(Debug, Clone, Copy, PartialEq, Eq, Structural)]
pub enum Color {
    White,
    Black,
}

/// The six kinds of chess pieces.
#[derive(Debug, Clone, Copy, PartialEq, Eq, Structural)]
pub enum PieceKind {
    Pawn,
    Knight,
    Bishop,
    Rook,
    Queen,
    King,
}

/// A piece: a color and a kind.
#[derive(Debug, Clone, Copy, PartialEq, Eq, Structural)]
pub struct Piece {
    pub color: Color,
    pub kind: PieceKind,
}

/// A square in 0x88 encoding: the high nibble is the rank, the low nibble the file.
#[derive(Debug, Clone, Copy, PartialEq, Eq, Structural)]
pub struct Square(pub u8);

/// A move from one square to another, with an optional promotion kind.
#[derive(Debug, Clone, Copy, PartialEq, Eq, Structural)]
pub struct Move {
    pub from: Square,
    pub to: Square,
    pub promotion: Option<PieceKind>,
}

/// Whether the side to move is mated, stalemated, or can still play.
#[derive(Debug, Clone, Copy, PartialEq, Eq, Structural)]
pub enum GameStatus {
    Ongoing,
    Checkmate,
    Stalemate,
}

impl Square {
    pub fn index(self) -> (r: u8)
        ensures
            r == self.0,
    {
        self.0
    }
}

/// The other side.
pub open spec fn opponent(c: Color) -> Color {
    match c {
        Color::White => Color::Black,
        Color::Black => Color::White,
    }
}

/// An index names a real square when neither 0x08 nor 0x80 is set in it.
pub open spec fn onboard(i: int) -> bool {
    0 <= i < 128 && i % 16 < 8
}

pub open spec fn file_of(i: int) -> int {
    i % 16
}

pub open spec fn rank_of(i: int) -> int {
    i / 16
}

pub proof fn lemma_valid_square_bits(square: u8)
    ensures
        (square & 0x88u8 == 0) <==> onboard(square as int),
        square & 0x0fu8 == square % 16,
        square >> 4u8 == square / 16,
{
    assert(square & 0x88u8 == 0 <==> (square < 128 && square % 16 < 8)) by (bit_vector);
    assert(square & 0x0fu8 == square % 16) by (bit_vector);
    assert(square >> 4u8 == square / 16) by (bit_vector);
}

pub fn is_valid_square(square: u8) -> (r: bool)
    ensures
        r == onboard(square as int),
{
    proof {
        lemma_valid_square_bits(square);
    }
    (square & 0x88) == 0
}

pub fn square_from_coords(file: u8, rank: u8) -> (r: Option<Square>)
    ensures
        r == (if file <= 7 && rank <= 7 {
            Some(Square((rank * 16 + file) as u8))
        } else {
            None::<Square>
        }),
{
    if file > 7 || rank > 7 {
        return None;
    }
    let square = rank * 16 + file;
    if is_valid_square(square) {
        Some(Square(square))
    } else {
        None
    }
}

/// The file letter of a character, upper or lower case.
pub open spec fn file_char_value(c: char) -> Option<int> {
    if 'a' <= c <= 'h' {
        Some(c as int - 'a' as int)
    } else if 'A' <= c <= 'H' {
        Some(c as int - 'A' as int)
    } else {
        None
    }
}

pub open spec fn rank_char_value(c: char) -> Option<int> {
    if '1' <= c <= '8' {
        Some(c as int - '1' as int)
    } else {
        None
    }
}

/// The square named by two characters such as `e4`.
pub open spec fn square_of_chars(f: char, r: char) -> Option<Square> {
    match (file_char_value(f), rank_char_value(r)) {
        (Some(file), Some(rank)) => Some(Square((rank * 16 + file) as u8)),
        _ => None,
    }
}

pub open spec fn algebraic_spec(text: Seq<char>) -> Option<Square> {
    if text.len() == 2 {
        square_of_chars(text[0], text[1])
    } else {
        None
    }
}

/// The lower-case algebraic name of an on-board square.
pub open spec fn square_name(i: int) -> Seq<char> {
    seq![(file_of(i) + 'a' as int) as char, (rank_of(i) + '1' as int) as char]
}

fn char_square(file_char: char, rank_char: char) -> (r: Option<Square>)
    ensures
        r == square_of_chars(file_char, rank_char),
{
    let file: u8 = if 'a' <= file_char && file_char <= 'h' {
        (file_char as u32 - 'a' as u32) as u8
    } else if 'A' <= file_char && file_char <= 'H' {
        (file_char as u32 - 'A' as u32) as u8
    } else {
        return None;
    };
    let rank: u8 = if '1' <= rank_char && rank_char <= '8' {
        (rank_char as u32 - '1' as u32) as u8
    } else {
        return None;
    };
    square_from_coords(file, rank)
}

/// Reads the characters of a string into a vector.
pub fn chars_of(text: &str) -> (r: Vec<char>)
    ensures
        r@ == text@,
{
    let n = text.unicode_len();
    let mut out: Vec<char> = Vec::new();
    let mut i: usize = 0;
    while i < n
        invariant
            n == text@.len(),
            i <= n,
            out@ == text@.subrange(0, i as int),
        decreases n - i,
    {
        out.push(text.get_char(i));
        i += 1;
    }
    assert(out@ =~= text@);
    out
}

pub fn square_from_algebraic(text: &str) -> (r: Option<Square>)
    ensures
        r == algebraic_spec(text@),
{
    let chars = chars_of(text);
    if chars.len() != 2 {
        return None;
    }
    char_square(chars[0], chars[1])
}

/// The promotion kind named by a letter of `qrbn`, in either case.
pub open spec fn promotion_of_char(c: char) -> Option<PieceKind> {
    if c == 'q' || c == 'Q' {
        Some(PieceKind::Queen)
    } else if c == 'r' || c == 'R' {
        Some(PieceKind::Rook)
    } else if c == 'b' || c == 'B' {
        Some(PieceKind::Bishop)
    } else if c == 'n' || c == 'N' {
        Some(PieceKind::Knight)
    } else {
        None
    }
}

/// The move named by UCI text: four characters, or five with a promotion letter.
pub open spec fn uci_move_spec(t: Seq<char>) -> Option<Move> {
    if t.len() != 4 && t.len() != 5 {
        None
    } else {
        match (square_of_chars(t[0], t[1]), square_of_chars(t[2], t[3])) {
            (Some(from), Some(to)) => if t.len() == 4 {
                Some(Move { from, to, promotion: None })
            } else {
                match promotion_of_char(t[4]) {
                    Some(k) => Some(Move { from, to, promotion: Some(k) }),
                    None => None,
                }
            },
            _ => None,
        }
    }
}

fn promotion_from_char(c: char) -> (r: Option<PieceKind>)
    ensures
        r == promotion_of_char(c),
{
    if c == 'q' || c == 'Q' {
        Some(PieceKind::Queen)
    } else if c == 'r' || c == 'R' {
        Some(PieceKind::Rook)
    } else if c == 'b' || c == 'B' {
        Some(PieceKind::Bishop)
    } else if c == 'n' || c == 'N' {
        Some(PieceKind::Knight)
    } else {
        None
    }
}

pub fn move_from_uci(text: &str) -> (r: Option<Move>)
    ensures
        r == uci_move_spec(text@),
{
    let t = chars_of(text);
    if t.len() != 4 && t.len() != 5 {
        return None;
    }
    let from = match char_square(t[0], t[1]) {
        Some(s) => s,
        None => return None,
    };
    let to = match char_square(t[2], t[3]) {
        Some(s) => s,
        None => return None,
    };
    if t.len() == 4 {
        return Some(Move { from, to, promotion: None });
    }
    match promotion_from_char(t[4]) {
        Some(k) => Some(Move { from, to, promotion: Some(k) }),
        None => None,
    }
}

/// Relies on String::push: appends one character.
#[verifier::external_body]
pub(crate) fn push_char(s: &mut String, c: char)
    ensures
        final(s)@ == old(s)@.push(c),
{
    s.push(c);
}

pub fn algebraic_from_square(square: Square) -> (r: Option<String>)
    ensures
        onboard(square.0 as int) ==> (r matches Some(s) && s@ == square_name(square.0 as int)),
        !onboard(square.0 as int) ==> r is None,
{
    let index = square.index();
    if !is_valid_square(index) {
        return None;
    }
    proof {
        lemma_valid_square_bits(index);
    }
    let file = index & 0x0f;
    let rank = index >> 4;
    let mut s = String::new();
    push_char(&mut s, (97u8 + file) as char);
    push_char(&mut s, (49u8 + rank) as char);
    assert(s@ =~= square_name(square.0 as int));
    Some(s)
}

/// The UCI letter of a promotion kind.
pub open spec fn promotion_letter(k: PieceKind) -> Option<char> {
    match k {
        PieceKind::Queen => Some('q'),
        PieceKind::Rook => Some('r'),
        PieceKind::Bishop => Some('b'),
        PieceKind::Knight => Some('n'),
        _ => None,
    }
}

/// The UCI text of a move with on-board squares and a valid promotion kind.
pub open spec fn uci_text(mv: Move) -> Option<Seq<char>> {
    if !onboard(mv.from.0 as int) || !onboard(mv.to.0 as int) {
        None
    } else {
        match mv.promotion {
            None => Some(square_name(mv.from.0 as int) + square_name(mv.to.0 as int)),
            Some(k) => match promotion_letter(k) {
                Some(c) => Some(square_name(mv.from.0 as int) + square_name(mv.to.0 as int).push(c)),
                None => None,
            },
        }
    }
}

pub fn uci_from_move(mv: Move) -> (r: Option<String>)
    ensures
        r matches Some(s) ==> uci_text(mv) == Some(s@),
        r is None ==> uci_text(mv) is None,
{
    let from = match algebraic_from_square(mv.from) {
        Some(s) => s,
        None => return None,
    };
    let to = match algebraic_from_square(mv.to) {
        Some(s) => s,
        None => return None,
    };
    let promo: Option<char> = match mv.promotion {
        None => None,
        Some(PieceKind::Queen) => Some('q'),
        Some(PieceKind::Rook) => Some('r'),
        Some(PieceKind::Bishop) => Some('b'),
        Some(PieceKind::Knight) => Some('n'),
        Some(_) => return None,
    };
    let mut out = from;
    push_char(&mut out, to.as_str().get_char(0));
    push_char(&mut out, to.as_str().get_char(1));
    if let Some(c) = promo {
        push_char(&mut out, c);
    }
    assert(out@ =~= uci_text(mv).unwrap());
    Some(out)
}

} // verus!
