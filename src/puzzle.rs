use vstd::prelude::*;
use crate::engine::Engine;
use crate::eval::Evaluator;
use crate::search::SearchAlgorithm;
use crate::text::{fields, split_fields};
use crate::types::{chars_of, push_char};

verus! {

/// A mate puzzle: its id, the position, and the solution moves, the first of which is played
/// for the side to move before the engine answers.
#[derive(Debug, Clone)]
pub struct Puzzle {
    pub id: String,
    pub fen: String,
    pub moves: Vec<String>,
    pub mate: u8,
}

/// The text without its trailing carriage returns.
pub open spec fn strip_cr(s: Seq<char>) -> Seq<char>
    decreases s.len(),
{
    if s.len() > 0 && s.last() == '\r' {
        strip_cr(s.drop_last())
    } else {
        s
    }
}

/// The position of the first comma at or after `i`, or the length.
pub open spec fn comma_at(s: Seq<char>, i: int) -> int
    decreases s.len() - i,
{
    if i < 0 || i >= s.len() {
        s.len() as int
    } else if s[i] == ',' {
        i
    } else {
        comma_at(s, i + 1)
    }
}

/// The first three comma-separated fields, when the text has at least two commas.
pub open spec fn three_fields(s: Seq<char>) -> Option<(Seq<char>, Seq<char>, Seq<char>)> {
    let a = comma_at(s, 0);
    if a >= s.len() {
        None
    } else {
        let b = comma_at(s, a + 1);
        if b >= s.len() {
            None
        } else {
            let c = comma_at(s, b + 1);
            Some((s.subrange(0, a), s.subrange(a + 1, b), s.subrange(b + 1, c)))
        }
    }
}

proof fn lemma_comma_at_range(s: Seq<char>, i: int)
    requires
        0 <= i <= s.len(),
    ensures
        i <= comma_at(s, i) <= s.len(),
    decreases s.len() - i,
{
    if i < s.len() && s[i] != ',' {
        lemma_comma_at_range(s, i + 1);
    }
}

fn find_comma(s: &Vec<char>, from: usize) -> (r: usize)
    requires
        from <= s@.len(),
    ensures
        r == comma_at(s@, from as int),
{
    let mut i = from;
    while i < s.len() && s[i] != ','
        invariant
            from <= i <= s@.len(),
            comma_at(s@, from as int) == comma_at(s@, i as int),
        decreases s.len() - i,
    {
        i += 1;
    }
    i
}

fn slice_string(s: &Vec<char>, a: usize, b: usize) -> (r: String)
    requires
        a <= b <= s@.len(),
    ensures
        r@ == s@.subrange(a as int, b as int),
{
    let mut out = String::new();
    let mut i = a;
    while i < b
        invariant
            a <= i <= b <= s@.len(),
            out@ == s@.subrange(a as int, i as int),
        decreases b - i,
    {
        push_char(&mut out, s[i]);
        i += 1;
    }
    out
}

fn strip_trailing_cr(s: &Vec<char>) -> (r: usize)
    ensures
        r <= s@.len(),
        s@.subrange(0, r as int) == strip_cr(s@),
{
    let mut n = s.len();
    assert(s@.subrange(0, n as int) =~= s@);
    while n > 0 && s[n - 1] == '\r'
        invariant
            n <= s@.len(),
            strip_cr(s@.subrange(0, n as int)) == strip_cr(s@),
        decreases n,
    {
        assert(s@.subrange(0, n as int).drop_last() =~= s@.subrange(0, n - 1));
        n -= 1;
    }
    n
}

/// The first three comma-separated fields of a row.
pub fn parse_first_three_fields(line: &str) -> (r: Result<Vec<String>, String>)
    ensures
        r is Ok <==> three_fields(line@) is Some,
        r matches Ok(v) ==> v@.len() == 3 && v@[0]@ == three_fields(line@).unwrap().0
            && v@[1]@ == three_fields(line@).unwrap().1 && v@[2]@ == three_fields(line@).unwrap().2,
{
    let s = chars_of(line);
    let a = find_comma(&s, 0);
    proof {
        lemma_comma_at_range(s@, 0);
    }
    if a >= s.len() {
        return Err(String::from_str("expected at least 3 CSV fields"));
    }
    let b = find_comma(&s, a + 1);
    proof {
        lemma_comma_at_range(s@, a + 1);
    }
    if b >= s.len() {
        return Err(String::from_str("expected at least 3 CSV fields"));
    }
    let c = find_comma(&s, b + 1);
    proof {
        lemma_comma_at_range(s@, b + 1);
    }
    let mut out: Vec<String> = Vec::new();
    out.push(slice_string(&s, 0, a));
    out.push(slice_string(&s, a + 1, b));
    out.push(slice_string(&s, b + 1, c));
    Ok(out)
}

/// The puzzle of a CSV row: id, FEN, and whitespace-separated solution moves, which must not
/// be empty. Trailing carriage returns are ignored.
pub open spec fn puzzle_spec(line: Seq<char>) -> Option<(Seq<char>, Seq<char>, Seq<Seq<char>>)> {
    match three_fields(strip_cr(line)) {
        Some((id, fen, moves)) => if fields(moves).len() == 0 {
            None
        } else {
            Some((id, fen, fields(moves)))
        },
        None => None,
    }
}

pub fn parse_puzzle_row(line: &str, mate: u8) -> (r: Result<Puzzle, String>)
    ensures
        r is Ok <==> puzzle_spec(line@) is Some,
        r matches Ok(p) ==> ({
            let (id, fen, moves) = puzzle_spec(line@).unwrap();
            &&& p.id@ == id
            &&& p.fen@ == fen
            &&& p.moves@.len() == moves.len()
            &&& forall|k: int| 0 <= k < moves.len() ==> (#[trigger] p.moves@[k])@ == moves[k]
            &&& p.mate == mate
        }),
{
    let s = chars_of(line);
    let n = strip_trailing_cr(&s);
    let trimmed = slice_string(&s, 0, n);
    let parts = match parse_first_three_fields(trimmed.as_str()) {
        Ok(v) => v,
        Err(e) => return Err(e),
    };
    let id = parts[0].clone();
    let fen = parts[1].clone();
    let move_chars = chars_of(parts[2].as_str());
    let tokens = split_fields(&move_chars);
    if tokens.len() == 0 {
        return Err(String::from_str("Moves value is empty"));
    }
    let mut moves: Vec<String> = Vec::new();
    let mut i: usize = 0;
    while i < tokens.len()
        invariant
            i <= tokens@.len(),
            moves@.len() == i,
            forall|k: int| 0 <= k < i ==> (#[trigger] moves@[k])@ == tokens@[k]@,
        decreases tokens.len() - i,
    {
        moves.push(slice_string(&tokens[i], 0, tokens[i].len()));
        assert(tokens@[i as int]@.subrange(0, tokens@[i as int]@.len() as int) =~= tokens@[i as int]@);
        i += 1;
    }
    Ok(Puzzle { id, fen, moves, mate })
}

/// The path of the puzzle file for mates in `mate` moves.
pub open spec fn mate_path(mate: u8) -> Seq<char> {
    "bench/puzzles/mateIn"@ + decimal(mate as nat) + ".csv"@
}

/// The decimal digits of a number.
pub open spec fn decimal(n: nat) -> Seq<char>
    decreases n,
{
    if n < 10 {
        seq![(n + '0' as nat) as char]
    } else {
        decimal(n / 10).push(((n % 10) + '0' as nat) as char)
    }
}

fn push_decimal(s: &mut String, n: u8)
    ensures
        final(s)@ == old(s)@ + decimal(n as nat),
    decreases n,
{
    if n >= 10 {
        push_decimal(s, n / 10);
    }
    push_char(s, ((n % 10) + 48) as char);
    assert(final(s)@ =~= old(s)@ + decimal(n as nat));
}

pub fn mate_to_path(mate: u8) -> (r: String)
    ensures
        r@ == mate_path(mate),
{
    let mut s = String::from_str("bench/puzzles/mateIn");
    push_decimal(&mut s, mate);
    s.append(".csv");
    s
}

fn one_move(text: &String) -> (r: Vec<String>)
    ensures
        r@.len() == 1,
        r@[0]@ == text@,
{
    let mut v: Vec<String> = Vec::new();
    v.push(text.clone());
    v
}

/// Plays a puzzle: the first solution move for the side to move, then the engine answers at
/// `depth` and the expected moves alternate with its answers. Solved when every answer is the
/// expected move. Fails, with the reason, when the puzzle's position does not set; a puzzle
/// without moves counts as unsolved.
pub fn run_puzzle<E: Evaluator, S: SearchAlgorithm<E>>(engine: &mut Engine<E, S>, puzzle: &Puzzle, depth: u32) -> (r: Result<bool, String>)
    requires
        old(engine).wf(),
    ensures
        final(engine).wf(),
        r is Err <==> (puzzle.moves@.len() > 0 && !crate::fen::fen_accepted(puzzle.fen@)),
        puzzle.moves@.len() == 0 ==> r == Ok::<bool, String>(false),
        r == Ok::<bool, String>(true) ==> puzzle.moves@.len() > 0 && crate::fen::fen_accepted(puzzle.fen@),
{
    if puzzle.moves.len() == 0 {
        return Ok(false);
    }
    match engine.set_position_fen(puzzle.fen.as_str()) {
        Ok(()) => {},
        Err(e) => return Err(e),
    }
    let _ = engine.apply_move_list(one_move(&puzzle.moves[0]).as_slice());
    let mut solved = true;
    let mut idx: usize = 1;
    while idx < puzzle.moves.len()
        invariant
            engine.wf(),
            1 <= idx <= puzzle.moves@.len(),
        decreases puzzle.moves.len() - idx,
    {
        let expected = &puzzle.moves[idx];
        if idx % 2 == 1 {
            let best = engine.search_depth(depth);
            if best != *expected {
                solved = false;
                break;
            }
        }
        let _ = engine.apply_move_list(one_move(expected).as_slice());
        idx += 1;
    }
    Ok(solved)
}

} // verus!
