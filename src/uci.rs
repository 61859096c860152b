use vstd::prelude::*;
use crate::text::{fields, parse_u32, parse_u64, split_fields, u32_of, u64_of};
use crate::types::{chars_of, push_char};

verus! {

/// A line of the protocol, read.
#[derive(Debug)]
pub enum Command {
    Uci,
    IsReady,
    UciNewGame,
    Position(PositionCommand),
    Go(GoCommand),
    Stop,
    Quit,
    Unknown(String),
}

/// `position`: a FEN (none for the start position) and the moves to play after it.
#[derive(Debug, Default)]
pub struct PositionCommand {
    pub fen: Option<String>,
    pub moves: Vec<String>,
}

/// `go` and its limits; a limit whose value does not read as a number is left out.
#[derive(Debug, Default, Clone, Copy, PartialEq, Eq, Structural)]
pub struct GoCommand {
    pub depth: Option<u32>,
    pub movetime: Option<u64>,
    pub wtime: Option<u64>,
    pub btime: Option<u64>,
    pub winc: Option<u64>,
    pub binc: Option<u64>,
}

/// The first index at or after `i` where `t` holds the word `w`.
pub open spec fn index_of(t: Seq<Seq<char>>, w: Seq<char>, i: int) -> Option<int>
    decreases t.len() - i,
{
    if i < 0 || i >= t.len() {
        None
    } else if t[i] == w {
        Some(i)
    } else {
        index_of(t, w, i + 1)
    }
}

/// The words joined with single spaces.
pub open spec fn joined(t: Seq<Seq<char>>) -> Seq<char>
    decreases t.len(),
{
    if t.len() == 0 {
        Seq::empty()
    } else if t.len() == 1 {
        t[0]
    } else {
        joined(t.drop_last()) + seq![' '] + t.last()
    }
}

/// The FEN and moves of the arguments of `position`, if they are well formed.
pub open spec fn position_spec(t: Seq<Seq<char>>) -> Option<(Option<Seq<char>>, Seq<Seq<char>>)> {
    if t.len() == 0 {
        None
    } else if t[0] == seq!['s', 't', 'a', 'r', 't', 'p', 'o', 's'] {
        match index_of(t, seq!['m', 'o', 'v', 'e', 's'], 0) {
            Some(m) => Some((None, t.skip(m + 1))),
            None => Some((None, Seq::empty())),
        }
    } else if t[0] == seq!['f', 'e', 'n'] {
        if t.len() < 7 {
            None
        } else if t.len() > 8 && t[7] == seq!['m', 'o', 'v', 'e', 's'] {
            Some((Some(joined(t.subrange(1, 7))), t.skip(8)))
        } else {
            Some((Some(joined(t.subrange(1, 7))), Seq::empty()))
        }
    } else {
        None
    }
}

/// The limits of a `go` command read from index `i` on, starting from `g`.
pub open spec fn go_from(t: Seq<Seq<char>>, i: int, g: GoCommand) -> GoCommand
    decreases t.len() - i,
{
    if i < 0 || i >= t.len() {
        g
    } else if i + 1 < t.len() && t[i] == seq!['d', 'e', 'p', 't', 'h'] {
        go_from(t, i + 2, GoCommand { depth: u32_of(t[i + 1]), ..g })
    } else if i + 1 < t.len() && t[i] == seq!['m', 'o', 'v', 'e', 't', 'i', 'm', 'e'] {
        go_from(t, i + 2, GoCommand { movetime: u64_of(t[i + 1]), ..g })
    } else if i + 1 < t.len() && t[i] == seq!['w', 't', 'i', 'm', 'e'] {
        go_from(t, i + 2, GoCommand { wtime: u64_of(t[i + 1]), ..g })
    } else if i + 1 < t.len() && t[i] == seq!['b', 't', 'i', 'm', 'e'] {
        go_from(t, i + 2, GoCommand { btime: u64_of(t[i + 1]), ..g })
    } else if i + 1 < t.len() && t[i] == seq!['w', 'i', 'n', 'c'] {
        go_from(t, i + 2, GoCommand { winc: u64_of(t[i + 1]), ..g })
    } else if i + 1 < t.len() && t[i] == seq!['b', 'i', 'n', 'c'] {
        go_from(t, i + 2, GoCommand { binc: u64_of(t[i + 1]), ..g })
    } else {
        go_from(t, i + 1, g)
    }
}

pub open spec fn no_limits() -> GoCommand {
    GoCommand { depth: None, movetime: None, wtime: None, btime: None, winc: None, binc: None }
}

/// The characters of an optional string.
pub open spec fn fen_text(f: Option<String>) -> Option<Seq<char>> {
    match f {
        Some(s) => Some(s@),
        None => None,
    }
}

/// The strings of a list, as characters.
pub open spec fn string_texts(v: Seq<String>) -> Seq<Seq<char>> {
    v.map_values(|s: String| s@)
}

/// What a line of the protocol means.
pub open spec fn command_matches(line: Seq<char>, c: Command) -> bool {
    let t = fields(line);
    if t.len() == 0 {
        c matches Command::Unknown(s) && s@ == line
    } else {
        let first = t[0];
        let rest = t.skip(1);
        if first == seq!['u', 'c', 'i'] {
            c is Uci
        } else if first == seq!['i', 's', 'r', 'e', 'a', 'd', 'y'] {
            c is IsReady
        } else if first == seq!['u', 'c', 'i', 'n', 'e', 'w', 'g', 'a', 'm', 'e'] {
            c is UciNewGame
        } else if first == seq!['p', 'o', 's', 'i', 't', 'i', 'o', 'n'] {
            match position_spec(rest) {
                Some((fen, moves)) => c matches Command::Position(p) && fen_text(p.fen) == fen && string_texts(p.moves@) == moves,
                None => c matches Command::Unknown(s) && s@ == line,
            }
        } else if first == seq!['g', 'o'] {
            c == Command::Go(go_from(rest, 0, no_limits()))
        } else if first == seq!['s', 't', 'o', 'p'] {
            c is Stop
        } else if first == seq!['q', 'u', 'i', 't'] {
            c is Quit
        } else {
            c matches Command::Unknown(s) && s@ == line
        }
    }
}

fn chars_eq(a: &Vec<char>, b: &str) -> (r: bool)
    ensures
        r == (a@ == b@),
{
    let bc = chars_of(b);
    if a.len() != bc.len() {
        return false;
    }
    let mut i: usize = 0;
    while i < a.len()
        invariant
            a@.len() == bc@.len(),
            bc@ == b@,
            i <= a.len(),
            forall|k: int| 0 <= k < i ==> a@[k] == bc@[k],
        decreases a.len() - i,
    {
        if a[i] != bc[i] {
            return false;
        }
        i += 1;
    }
    assert(a@ =~= bc@);
    true
}

fn string_of(chars: &Vec<char>) -> (r: String)
    ensures
        r@ == chars@,
{
    let mut s = String::new();
    let mut i: usize = 0;
    while i < chars.len()
        invariant
            i <= chars.len(),
            s@ == chars@.subrange(0, i as int),
        decreases chars.len() - i,
    {
        push_char(&mut s, chars[i]);
        i += 1;
    }
    assert(s@ =~= chars@);
    s
}

fn strings_from(tokens: &Vec<Vec<char>>, start: usize) -> (r: Vec<String>)
    requires
        start <= tokens@.len(),
    ensures
        r@.len() == tokens@.len() - start,
        forall|k: int| 0 <= k < r@.len() ==> (#[trigger] r@[k])@ == tokens@[start + k]@,
{
    let mut out: Vec<String> = Vec::new();
    let mut i: usize = start;
    while i < tokens.len()
        invariant
            start <= i <= tokens@.len(),
            out@.len() == i - start,
            forall|k: int| 0 <= k < out@.len() ==> (#[trigger] out@[k])@ == tokens@[start + k]@,
        decreases tokens.len() - i,
    {
        out.push(string_of(&tokens[i]));
        i += 1;
    }
    out
}

proof fn lemma_joined_step(t: Seq<Seq<char>>, n: int)
    requires
        1 <= n < t.len(),
    ensures
        joined(t.subrange(0, n + 1)) == joined(t.subrange(0, n)) + seq![' '] + t[n],
{
    assert(t.subrange(0, n + 1).drop_last() =~= t.subrange(0, n));
}

fn parse_position(tokens: &Vec<Vec<char>>) -> (r: Option<Command>)
    requires
        1 <= tokens@.len(),
    ensures
        ({
            let t = tokens@.map_values(|v: Vec<char>| v@).skip(1);
            match position_spec(t) {
                Some((fen, moves)) => r matches Some(Command::Position(p)) && fen_text(p.fen) == fen && string_texts(p.moves@) == moves,
                None => r is None,
            }
        }),
{
    let ghost all = tokens@.map_values(|v: Vec<char>| v@);
    let ghost t = all.skip(1);
    let n = tokens.len();
    if n == 1 {
        return None;
    }
    assert(t[0] == tokens@[1]@);
    if chars_eq(&tokens[1], "startpos") {
        proof {
            reveal_strlit("startpos");
            assert("startpos"@ =~= seq!['s', 't', 'a', 'r', 't', 'p', 'o', 's']);
        }
        let mut m: usize = 1;
        while m < n && !chars_eq(&tokens[m], "moves")
            invariant
                1 <= m <= n,
                n == tokens@.len(),
                all == tokens@.map_values(|v: Vec<char>| v@),
                t == all.skip(1),
                index_of(t, seq!['m', 'o', 'v', 'e', 's'], 0) == index_of(t, seq!['m', 'o', 'v', 'e', 's'], m - 1),
            decreases n - m,
        {
            proof {
                reveal_strlit("moves");
                assert("moves"@ =~= seq!['m', 'o', 'v', 'e', 's']);
                assert(t[m - 1] == tokens@[m as int]@);
            }
            m += 1;
        }
        let moves = if m < n {
            proof {
                reveal_strlit("moves");
                assert("moves"@ =~= seq!['m', 'o', 'v', 'e', 's']);
                assert(t[m - 1] == tokens@[m as int]@);
            }
            strings_from(tokens, m + 1)
        } else {
            Vec::new()
        };
        let cmd = PositionCommand { fen: None, moves };
        assert(string_texts(cmd.moves@) =~= match index_of(t, seq!['m', 'o', 'v', 'e', 's'], 0) {
            Some(k) => t.skip(k + 1),
            None => Seq::empty(),
        });
        return Some(Command::Position(cmd));
    }
    proof {
        reveal_strlit("startpos");
        assert("startpos"@ =~= seq!['s', 't', 'a', 'r', 't', 'p', 'o', 's']);
    }
    if chars_eq(&tokens[1], "fen") {
        proof {
            reveal_strlit("fen");
            assert("fen"@ =~= seq!['f', 'e', 'n']);
        }
        if n < 8 {
            return None;
        }
        let mut fen = string_of(&tokens[2]);
        let mut k: usize = 3;
        proof {
            assert(t.subrange(1, 2) =~= seq![t[1]]);
        }
        while k < 8
            invariant
                3 <= k <= 8,
                n == tokens@.len(),
                n >= 8,
                all == tokens@.map_values(|v: Vec<char>| v@),
                t == all.skip(1),
                fen@ == joined(t.subrange(1, k - 1)),
            decreases 8 - k,
        {
            proof {
                lemma_joined_step(t.subrange(1, 7), (k - 2) as int);
                assert(t.subrange(1, 7).subrange(0, k - 1) =~= t.subrange(1, k as int));
                assert(t.subrange(1, 7).subrange(0, k - 2) =~= t.subrange(1, k - 1));
            }
            push_char(&mut fen, ' ');
            let word = string_of(&tokens[k]);
            fen.append(word.as_str());
            assert(fen@ =~= joined(t.subrange(1, k as int)));
            k += 1;
        }
        let moves = if n > 9 && chars_eq(&tokens[8], "moves") {
            strings_from(tokens, 9)
        } else {
            Vec::new()
        };
        proof {
            reveal_strlit("moves");
            assert("moves"@ =~= seq!['m', 'o', 'v', 'e', 's']);
            if n > 8 {
                assert(t[7] == tokens@[8]@);
            }
        }
        let cmd = PositionCommand { fen: Some(fen), moves };
        assert(string_texts(cmd.moves@) =~= if t.len() > 8 && t[7] == seq!['m', 'o', 'v', 'e', 's'] {
            t.skip(8)
        } else {
            Seq::empty()
        });
        return Some(Command::Position(cmd));
    }
    proof {
        reveal_strlit("fen");
        assert("fen"@ =~= seq!['f', 'e', 'n']);
    }
    None
}

fn parse_go(tokens: &Vec<Vec<char>>) -> (r: GoCommand)
    requires
        1 <= tokens@.len(),
    ensures
        r == go_from(tokens@.map_values(|v: Vec<char>| v@).skip(1), 0, no_limits()),
{
    let ghost t = tokens@.map_values(|v: Vec<char>| v@).skip(1);
    let mut cmd = GoCommand { depth: None, movetime: None, wtime: None, btime: None, winc: None, binc: None };
    let n = tokens.len();
    let mut i: usize = 1;
    proof {
        reveal_strlit("depth");
        reveal_strlit("movetime");
        reveal_strlit("wtime");
        reveal_strlit("btime");
        reveal_strlit("winc");
        reveal_strlit("binc");
        assert("depth"@ =~= seq!['d', 'e', 'p', 't', 'h']);
        assert("movetime"@ =~= seq!['m', 'o', 'v', 'e', 't', 'i', 'm', 'e']);
        assert("wtime"@ =~= seq!['w', 't', 'i', 'm', 'e']);
        assert("btime"@ =~= seq!['b', 't', 'i', 'm', 'e']);
        assert("winc"@ =~= seq!['w', 'i', 'n', 'c']);
        assert("binc"@ =~= seq!['b', 'i', 'n', 'c']);
    }
    while i < n
        invariant
            1 <= i,
            n == tokens@.len(),
            t == tokens@.map_values(|v: Vec<char>| v@).skip(1),
            go_from(t, 0, no_limits()) == go_from(t, i - 1, cmd),
            "depth"@ == seq!['d', 'e', 'p', 't', 'h'],
            "movetime"@ == seq!['m', 'o', 'v', 'e', 't', 'i', 'm', 'e'],
            "wtime"@ == seq!['w', 't', 'i', 'm', 'e'],
            "btime"@ == seq!['b', 't', 'i', 'm', 'e'],
            "winc"@ == seq!['w', 'i', 'n', 'c'],
            "binc"@ == seq!['b', 'i', 'n', 'c'],
        decreases n - i,
    {
        let key = &tokens[i];
        assert(t[i - 1] == tokens@[i as int]@);
        if i + 1 < n {
            assert(t[i as int] == tokens@[i + 1]@);
            let value = &tokens[i + 1];
            if chars_eq(key, "depth") {
                cmd.depth = parse_u32(value);
                i += 2;
                continue;
            } else if chars_eq(key, "movetime") {
                cmd.movetime = parse_u64(value);
                i += 2;
                continue;
            } else if chars_eq(key, "wtime") {
                cmd.wtime = parse_u64(value);
                i += 2;
                continue;
            } else if chars_eq(key, "btime") {
                cmd.btime = parse_u64(value);
                i += 2;
                continue;
            } else if chars_eq(key, "winc") {
                cmd.winc = parse_u64(value);
                i += 2;
                continue;
            } else if chars_eq(key, "binc") {
                cmd.binc = parse_u64(value);
                i += 2;
                continue;
            }
        }
        i += 1;
    }
    cmd
}

/// Reads one line of the protocol.
pub fn parse_line(line: &str) -> (r: Command)
    ensures
        command_matches(line@, r),
{
    let chars = chars_of(line);
    let tokens = split_fields(&chars);
    let ghost all = tokens@.map_values(|v: Vec<char>| v@);
    assert(all =~= fields(line@));
    if tokens.len() == 0 {
        return Command::Unknown(String::from_str(line));
    }
    let first = &tokens[0];
    assert(all[0] == first@);
    proof {
        reveal_strlit("uci");
        reveal_strlit("isready");
        reveal_strlit("ucinewgame");
        reveal_strlit("position");
        reveal_strlit("go");
        reveal_strlit("stop");
        reveal_strlit("quit");
        assert("uci"@ =~= seq!['u', 'c', 'i']);
        assert("isready"@ =~= seq!['i', 's', 'r', 'e', 'a', 'd', 'y']);
        assert("ucinewgame"@ =~= seq!['u', 'c', 'i', 'n', 'e', 'w', 'g', 'a', 'm', 'e']);
        assert("position"@ =~= seq!['p', 'o', 's', 'i', 't', 'i', 'o', 'n']);
        assert("go"@ =~= seq!['g', 'o']);
        assert("stop"@ =~= seq!['s', 't', 'o', 'p']);
        assert("quit"@ =~= seq!['q', 'u', 'i', 't']);
    }
    if chars_eq(first, "uci") {
        Command::Uci
    } else if chars_eq(first, "isready") {
        Command::IsReady
    } else if chars_eq(first, "ucinewgame") {
        Command::UciNewGame
    } else if chars_eq(first, "position") {
        match parse_position(&tokens) {
            Some(c) => c,
            None => Command::Unknown(String::from_str(line)),
        }
    } else if chars_eq(first, "go") {
        Command::Go(parse_go(&tokens))
    } else if chars_eq(first, "stop") {
        Command::Stop
    } else if chars_eq(first, "quit") {
        Command::Quit
    } else {
        Command::Unknown(String::from_str(line))
    }
}

} // verus!
