use vstd::prelude::*;
use crate::apply_move::{board_after, make_ok, move_onboard};
use crate::fen::{fen_semantics_ok, fen_spec, parse_fen, validate_fen_semantics};
use crate::movegen::{holds, position_ok};
use crate::types::{move_from_uci, onboard, uci_move_spec, Color, Piece, PieceKind, Square};
use crate::zobrist::{compute_hash, full_hash};

verus! {

/// A position: 128 slots in 0x88 layout and the state that goes with them.
pub struct Board {
    pub squares: Vec<Option<Piece>>,
    pub side_to_move: Color,
    pub castling_rights: u8,
    pub en_passant: Option<Square>,
    pub halfmove_clock: u32,
    pub fullmove_number: u32,
    pub hash: u64,
}

/// The mathematical value of a position.
#[verifier::ext_equal]
pub struct BoardView {
    pub squares: Seq<Option<Piece>>,
    pub side_to_move: Color,
    pub castling_rights: u8,
    pub en_passant: Option<Square>,
    pub halfmove_clock: u32,
    pub fullmove_number: u32,
    pub hash: u64,
}

impl View for Board {
    type V = BoardView;

    open spec fn view(&self) -> BoardView {
        BoardView {
            squares: self.squares@,
            side_to_move: self.side_to_move,
            castling_rights: self.castling_rights,
            en_passant: self.en_passant,
            halfmove_clock: self.halfmove_clock,
            fullmove_number: self.fullmove_number,
            hash: self.hash,
        }
    }
}

impl BoardView {
    /// The slot table has its 128 entries.
    pub open spec fn wf(self) -> bool {
        self.squares.len() == 128
    }

    /// The stored hash agrees with the hash computed from scratch.
    pub open spec fn hash_ok(self) -> bool {
        self.hash == full_hash(self)
    }
}

/// 128 empty slots.
pub open spec fn empty_squares() -> Seq<Option<Piece>> {
    Seq::new(128, |i: int| None::<Piece>)
}

/// The empty position: White to move, no rights, clocks at their start.
pub open spec fn empty_board() -> BoardView {
    let b = BoardView {
        squares: empty_squares(),
        side_to_move: Color::White,
        castling_rights: 0,
        en_passant: None,
        halfmove_clock: 0,
        fullmove_number: 1,
        hash: 0,
    };
    BoardView { hash: full_hash(b), ..b }
}

pub(crate) fn empty_slots() -> (r: Vec<Option<Piece>>)
    ensures
        r@ == empty_squares(),
{
    let mut v: Vec<Option<Piece>> = Vec::new();
    let mut i: usize = 0;
    while i < 128
        invariant
            i <= 128,
            v@ == Seq::new(i as nat, |j: int| None::<Piece>),
        decreases 128 - i,
    {
        v.push(None);
        i += 1;
        assert(v@ =~= Seq::new(i as nat, |j: int| None::<Piece>));
    }
    v
}

impl Board {
    pub open spec fn wf(&self) -> bool {
        self@.wf()
    }

    pub fn new() -> (r: Self)
        ensures
            r@ == empty_board(),
            r.wf(),
    {
        let mut b = Board {
            squares: empty_slots(),
            side_to_move: Color::White,
            castling_rights: 0,
            en_passant: None,
            halfmove_clock: 0,
            fullmove_number: 1,
            hash: 0,
        };
        b.hash = crate::zobrist::compute_hash(&b);
        b
    }

    pub fn clear(&mut self)
        ensures
            final(self)@ == empty_board(),
    {
        *self = Board::new();
    }

    pub fn hash(&self) -> (r: u64)
        ensures
            r == self.hash,
    {
        self.hash
    }
}

/// A position with its hash computed from scratch.
pub open spec fn with_hash(v: BoardView) -> BoardView {
    BoardView { hash: full_hash(v), ..v }
}

/// The back-rank piece on a file of the initial position.
pub open spec fn back_rank_kind(file: int) -> PieceKind {
    if file == 0 || file == 7 {
        PieceKind::Rook
    } else if file == 1 || file == 6 {
        PieceKind::Knight
    } else if file == 2 || file == 5 {
        PieceKind::Bishop
    } else if file == 3 {
        PieceKind::Queen
    } else {
        PieceKind::King
    }
}

/// The slot contents of the initial position.
pub open spec fn start_piece(i: int) -> Option<Piece> {
    if 0 <= i < 8 {
        Some(Piece { color: Color::White, kind: back_rank_kind(i) })
    } else if 16 <= i < 24 {
        Some(Piece { color: Color::White, kind: PieceKind::Pawn })
    } else if 96 <= i < 104 {
        Some(Piece { color: Color::Black, kind: PieceKind::Pawn })
    } else if 112 <= i < 120 {
        Some(Piece { color: Color::Black, kind: back_rank_kind(i - 112) })
    } else {
        None
    }
}

/// The initial position: White to move, all four castling rights, no en-passant target.
pub open spec fn start_board() -> BoardView {
    with_hash(
        BoardView {
            squares: Seq::new(128, |i: int| start_piece(i)),
            side_to_move: Color::White,
            castling_rights: 15,
            en_passant: None,
            halfmove_clock: 0,
            fullmove_number: 1,
            hash: 0,
        },
    )
}

fn back_rank(file: u8) -> (r: PieceKind)
    ensures
        r == back_rank_kind(file as int),
{
    if file == 0 || file == 7 {
        PieceKind::Rook
    } else if file == 1 || file == 6 {
        PieceKind::Knight
    } else if file == 2 || file == 5 {
        PieceKind::Bishop
    } else if file == 3 {
        PieceKind::Queen
    } else {
        PieceKind::King
    }
}

fn start_slot(i: u8) -> (r: Option<Piece>)
    ensures
        r == start_piece(i as int),
{
    if i < 8 {
        Some(Piece { color: Color::White, kind: back_rank(i) })
    } else if 16 <= i && i < 24 {
        Some(Piece { color: Color::White, kind: PieceKind::Pawn })
    } else if 96 <= i && i < 104 {
        Some(Piece { color: Color::Black, kind: PieceKind::Pawn })
    } else if 112 <= i && i < 120 {
        Some(Piece { color: Color::Black, kind: back_rank(i - 112) })
    } else {
        None
    }
}

/// Applies the UCI moves of a list in turn, stopping at the first that cannot be read or made.
#[verifier::opaque]
pub open spec fn play_list(b: BoardView, ms: Seq<Seq<char>>, n: nat) -> (BoardView, bool)
    decreases n,
{
    if n == 0 {
        (b, true)
    } else {
        let (p, ok) = play_list(b, ms, (n - 1) as nat);
        if !ok {
            (p, false)
        } else {
            play_step(p, ms[n - 1])
        }
    }
}

/// Reads one UCI move and makes it, if both succeed.
#[verifier::opaque]
pub open spec fn play_step(p: BoardView, t: Seq<char>) -> (BoardView, bool) {
    match uci_move_spec(t) {
        Some(mv) => if make_ok(p, mv) {
            (board_after(p, mv), true)
        } else {
            (p, false)
        },
        None => (p, false),
    }
}

pub proof fn lemma_uci_move_onboard(t: Seq<char>)
    requires
        uci_move_spec(t) is Some,
    ensures
        move_onboard(uci_move_spec(t).unwrap()),
{
    let mv = uci_move_spec(t).unwrap();
    let f = mv.from.0 as int;
    let g = mv.to.0 as int;
    let ff = crate::types::file_char_value(t[0]).unwrap();
    let fr = crate::types::rank_char_value(t[1]).unwrap();
    let tf = crate::types::file_char_value(t[2]).unwrap();
    let tr = crate::types::rank_char_value(t[3]).unwrap();
    vstd::arithmetic::div_mod::lemma_fundamental_div_mod_converse(fr * 16 + ff, 16, fr, ff);
    vstd::arithmetic::div_mod::lemma_fundamental_div_mod_converse(tr * 16 + tf, 16, tr, tf);
}

impl Board {
    /// Sets the initial position.
    pub fn set_startpos(&mut self)
        ensures
            final(self)@ == start_board(),
            position_ok(final(self)@),
            final(self)@.hash_ok(),
    {
        let mut squares: Vec<Option<Piece>> = Vec::new();
        let mut i: u8 = 0;
        while i < 128
            invariant
                i <= 128,
                squares@ == Seq::new(i as nat, |j: int| start_piece(j)),
            decreases 128 - i,
        {
            squares.push(start_slot(i));
            i += 1;
            assert(squares@ =~= Seq::new(i as nat, |j: int| start_piece(j)));
        }
        let mut b = Board {
            squares,
            side_to_move: Color::White,
            castling_rights: 15,
            en_passant: None,
            halfmove_clock: 0,
            fullmove_number: 1,
            hash: 0,
        };
        b.hash = compute_hash(&b);
        *self = b;
    }

    /// Sets the position of a FEN record that parses and passes the semantic checks; otherwise
    /// reports why and leaves the board as it was.
    pub fn set_fen(&mut self, fen: &str) -> (r: Result<(), String>)
        ensures
            r is Ok <==> crate::fen::fen_accepted(fen@),
            r is Ok ==> final(self)@ == with_hash(fen_spec(fen@).unwrap()) && position_ok(final(self)@)
                && final(self)@.hash_ok(),
            r is Err ==> final(self)@ == old(self)@,
            r matches Err(m) ==> (fen_spec(fen@) is Some ==> crate::fen::semantic_error(fen_spec(fen@).unwrap()) == Some(m@)),
            crate::fen::fen_shape_error(fen@) matches Some(m) ==> (r matches Err(e) && e@ == m),
    {
        let data = match checked_fen(fen) {
            Ok(d) => d,
            Err(e) => return Err(e),
        };
        let mut b = Board {
            squares: data.squares,
            side_to_move: data.side_to_move,
            castling_rights: data.castling_rights,
            en_passant: data.en_passant,
            halfmove_clock: data.halfmove_clock,
            fullmove_number: data.fullmove_number,
            hash: 0,
        };
        b.hash = compute_hash(&b);
        assert(b@ =~= with_hash(fen_spec(fen@).unwrap()));
        *self = b;
        Ok(())
    }

    fn play_one(&mut self, text: &String) -> (r: Result<(), String>)
        requires
            old(self).wf(),
        ensures
            final(self).wf(),
            play_step(old(self)@, text@) == (final(self)@, r is Ok),
    {
        reveal(play_step);
        let parsed = match move_from_uci(text.as_str()) {
            Some(mv) => mv,
            None => {
                let mut msg = String::from_str("invalid UCI move: ");
                msg.append(text.as_str());
                return Err(msg);
            },
        };
        proof {
            lemma_uci_move_onboard(text@);
        }
        self.apply_move(parsed)
    }

    /// Plays a list of UCI moves in turn. Stops at the first that cannot be read or made, with
    /// the moves before it played.
    pub fn apply_uci_move_list(&mut self, moves: &[String]) -> (r: Result<(), String>)
        requires
            old(self).wf(),
        ensures
            final(self).wf(),
            ({
                let (p, ok) = play_list(old(self)@, texts(moves@), moves@.len());
                &&& final(self)@ == p
                &&& (r is Ok <==> ok)
            }),
    {
        reveal(play_list);
        let ghost b0 = self@;
        let ghost ms = texts(moves@);
        let mut i: usize = 0;
        let mut result: Result<(), String> = Ok(());
        while i < moves.len()
            invariant_except_break
                result is Ok,
                play_list(b0, ms, i as nat) == (self@, true),
            invariant
                self.wf(),
                i <= moves.len(),
                ms == texts(moves@),
                ms.len() == moves@.len(),
            ensures
                play_list(b0, ms, ms.len()) == (self@, result is Ok),
            decreases moves.len() - i,
        {
            assert(ms[i as int] == moves@[i as int]@);
            let ghost before = self@;
            let res = self.play_one(&moves[i]);
            proof {
                reveal(play_list);
            }
            assert(play_list(b0, ms, (i + 1) as nat) == play_step(before, ms[i as int]));
            match res {
                Ok(()) => {},
                Err(e) => {
                    proof {
                        lemma_play_list_stuck(b0, ms, (i + 1) as nat);
                    }
                    result = Err(e);
                    break;
                },
            }
            i += 1;
        }
        result
    }
}

/// The characters of each string of a list.
pub open spec fn texts(moves: Seq<String>) -> Seq<Seq<char>> {
    moves.map_values(|m: String| m@)
}

/// Parses a FEN record and applies the semantic checks, reporting the first failure.
fn checked_fen(fen: &str) -> (r: Result<crate::fen::FenData, String>)
    ensures
        r is Ok <==> crate::fen::fen_accepted(fen@),
        r matches Ok(d) ==> fen_spec(fen@) == Some(d@) && d.squares@.len() == 128 && position_ok(d@),
        r matches Err(m) ==> (fen_spec(fen@) is Some ==> crate::fen::semantic_error(fen_spec(fen@).unwrap()) == Some(m@)),
        crate::fen::fen_shape_error(fen@) matches Some(m) ==> (r matches Err(e) && e@ == m),
{
    reveal(crate::fen::fen_accepted);
    let parsed = parse_fen(fen);
    let data = match parsed {
        Ok(d) => d,
        Err(e) => {
            assert(fen_spec(fen@) is None);
            return Err(e);
        },
    };
    match validate_fen_semantics(&data) {
        Ok(()) => Ok(data),
        Err(e) => Err(e),
    }
}

/// Once a list stops, later moves change nothing.
proof fn lemma_play_list_stuck(b: BoardView, ms: Seq<Seq<char>>, n: nat)
    requires
        n <= ms.len(),
        !play_list(b, ms, n).1,
    ensures
        play_list(b, ms, ms.len()) == play_list(b, ms, n),
    decreases ms.len() - n,
{
    reveal(play_list);
    if n < ms.len() {
        lemma_play_list_stuck(b, ms, n + 1);
    }
}

/// Whether the position is one on which moves can be generated, made and taken back.
pub fn is_position_ok(board: &Board) -> (r: bool)
    ensures
        r == position_ok(board@),
{
    if board.squares.len() != 128 {
        return false;
    }
    match board.en_passant {
        None => true,
        Some(e) => {
            if !crate::types::is_valid_square(e.0) {
                return false;
            }
            proof {
                crate::types::lemma_valid_square_bits(e.0);
            }
            let rank = e.0 >> 4;
            let (expected, victim, them): (u8, i16, Color) = match board.side_to_move {
                Color::White => (5, e.0 as i16 - 16, Color::Black),
                Color::Black => (2, e.0 as i16 + 16, Color::White),
            };
            if rank != expected || victim < 0 || victim > 127 {
                return false;
            }
            match board.squares[victim as usize] {
                Some(p) => p.color == them && p.kind == PieceKind::Pawn,
                None => false,
            }
        },
    }
}

} // verus!
