use vstd::prelude::*;
use rand::{Rng, SeedableRng};
use rand::rngs::{SmallRng, ThreadRng};
use crate::board::{empty_board, is_position_ok, Board};
use crate::eval::Evaluator;
use crate::movegen::{game_status, legal_moves, position_ok, status_of};
use crate::search::{result_sound, SearchAlgorithm, SearchResult, MAX_DEPTH};
use crate::types::{uci_from_move, uci_text, GameStatus, Move};

verus! {

#[verifier::external_type_specification]
#[verifier::external_body]
pub struct ExSmallRng(SmallRng);

#[verifier::external_type_specification]
#[verifier::external_body]
pub struct ExThreadRng(ThreadRng);

/// Relies on rand's SeedableRng::seed_from_u64 for SmallRng: a generator determined by the seed.
#[verifier::external_body]
fn seeded_rng(seed: u64) -> SmallRng {
    SmallRng::seed_from_u64(seed)
}

/// Relies on rand::thread_rng: a handle to the thread's generator.
#[verifier::external_body]
fn thread_rng_handle() -> ThreadRng {
    rand::thread_rng()
}

/// Relies on rand's Rng::gen_range on SmallRng: a value of the half-open range `0..n`, which
/// must not be empty.
#[verifier::external_body]
fn small_index(rng: &mut SmallRng, n: usize) -> (r: usize)
    requires
        n > 0,
    ensures
        r < n,
{
    rng.gen_range(0..n)
}

/// Relies on rand's Rng::gen_range on ThreadRng: a value of the half-open range `0..n`, which
/// must not be empty.
#[verifier::external_body]
fn thread_index(rng: &mut ThreadRng, n: usize) -> (r: usize)
    requires
        n > 0,
    ensures
        r < n,
{
    rng.gen_range(0..n)
}

/// The no-move sentinel of the protocol.
pub open spec fn null_move_text() -> Seq<char> {
    seq!['0', '0', '0', '0']
}

fn null_move() -> (r: String)
    ensures
        r@ == null_move_text(),
{
    let mut s = String::new();
    crate::types::push_char(&mut s, '0');
    crate::types::push_char(&mut s, '0');
    crate::types::push_char(&mut s, '0');
    crate::types::push_char(&mut s, '0');
    s
}

/// The UCI text of the move at `index` of a tie list, or the sentinel for an empty list.
pub fn choose_move(moves: &[Move], index: usize) -> (r: String)
    requires
        moves@.len() == 0 || index < moves@.len(),
    ensures
        moves@.len() == 0 ==> r@ == null_move_text(),
        moves@.len() > 0 && uci_text(moves@[index as int]) is Some ==> Some(r@) == uci_text(
            moves@[index as int],
        ),
        moves@.len() > 0 && uci_text(moves@[index as int]) is None ==> r@ == null_move_text(),
{
    if moves.len() == 0 {
        return null_move();
    }
    match uci_from_move(moves[index]) {
        Some(s) => s,
        None => null_move(),
    }
}

/// The depth the deepening loop ends at.
pub open spec fn clamp_depth(depth: u32) -> u32 {
    if depth > MAX_DEPTH { MAX_DEPTH } else { depth }
}

/// A result that is sound for the position and meets the algorithm's own result spec at that
/// depth, for some state of the algorithm.
pub open spec fn final_result<E: Evaluator, S: SearchAlgorithm<E>>(e: E, b: crate::board::BoardView, depth: u32, r: SearchResult) -> bool {
    &&& result_sound(b, r)
    &&& exists|s: S| s.result_ok(e, b, depth, r)
}

/// The text names one of the best moves of the last deepening iteration, whose result is sound
/// and meets the algorithm's result spec.
pub open spec fn picked_from_final<E: Evaluator, S: SearchAlgorithm<E>>(e: E, b: crate::board::BoardView, depth: u32, t: Seq<char>) -> bool {
    exists|r: SearchResult|
        final_result::<E, S>(e, b, clamp_depth(depth), r) && exists|i: int|
            0 <= i < r.best_moves@.len() && uci_text(#[trigger] r.best_moves@[i]) == Some(t)
}

proof fn lemma_best_have_text(b: crate::board::BoardView, r: SearchResult)
    requires
        result_sound(b, r),
    ensures
        forall|i: int| 0 <= i < r.best_moves@.len() ==> (#[trigger] uci_text(r.best_moves@[i])) is Some,
{
    assert forall|i: int| 0 <= i < r.best_moves@.len() implies (#[trigger] uci_text(r.best_moves@[i])) is Some by {
        crate::movegen::lemma_gen_ok_facts(b, r.best_moves@[i]);
    }
}

proof fn lemma_picked<E: Evaluator, S: SearchAlgorithm<E>>(e: E, b: crate::board::BoardView, depth: u32, r: SearchResult, t: Seq<char>)
    requires
        final_result::<E, S>(e, b, clamp_depth(depth), r),
        legal_moves(b).len() > 0,
        exists|i: int| 0 <= i < r.best_moves@.len() && uci_text(#[trigger] r.best_moves@[i]) == Some(t),
    ensures
        t != null_move_text(),
        picked_from_final::<E, S>(e, b, depth, t),
{
    let i = choose|i: int| 0 <= i < r.best_moves@.len() && uci_text(#[trigger] r.best_moves@[i]) == Some(t);
    lemma_uci_text_not_null(r.best_moves@[i]);
}

proof fn lemma_uci_text_not_null(mv: Move)
    requires
        uci_text(mv) is Some,
    ensures
        uci_text(mv).unwrap() != null_move_text(),
{
    let t = uci_text(mv).unwrap();
    assert(t[0] != '0');
}

/// Holds a position, an evaluator, a search algorithm and an optional seeded generator that
/// breaks ties among the best root moves.
pub struct Engine<E: Evaluator, S: SearchAlgorithm<E>> {
    evaluator: E,
    search: S,
    board: Board,
    rng: Option<SmallRng>,
}

impl<E: Evaluator, S: SearchAlgorithm<E>> Engine<E, S> {
    /// The board has its slots and the search algorithm is ready.
    pub closed spec fn wf(&self) -> bool {
        self.board.wf() && self.search.ready()
    }

    pub closed spec fn position(&self) -> crate::board::BoardView {
        self.board@
    }

    /// Ties are broken by a seeded generator.
    pub closed spec fn seeded(&self) -> bool {
        self.rng is Some
    }

    pub closed spec fn evaluator_of(&self) -> E {
        self.evaluator
    }

    pub fn with_components(evaluator: E, search: S) -> (r: Self)
        requires
            search.ready(),
        ensures
            r.position() == empty_board(),
            r.wf(),
    {
        Engine { evaluator, search, board: Board::new(), rng: None }
    }

    /// Breaks later ties with a generator seeded from `seed`.
    pub fn set_rng_seed(&mut self, seed: u64)
        requires
            old(self).wf(),
        ensures
            final(self).wf(),
            final(self).position() == old(self).position(),
            final(self).seeded(),
    {
        self.rng = Some(seeded_rng(seed));
    }

    pub fn set_position_startpos(&mut self)
        requires
            old(self).wf(),
        ensures
            final(self).wf(),
            final(self).position() == crate::board::start_board(),
    {
        self.board.set_startpos();
    }

    pub fn set_position_fen(&mut self, fen: &str) -> (r: Result<(), String>)
        requires
            old(self).wf(),
        ensures
            final(self).wf(),
            r is Ok <==> crate::fen::fen_accepted(fen@),
            r is Ok ==> final(self).position() == crate::board::with_hash(crate::fen::fen_spec(fen@).unwrap()),
            r is Err ==> final(self).position() == old(self).position(),
    {
        self.board.set_fen(fen)
    }

    /// Plays a list of UCI moves; stops at the first that cannot be read or made.
    pub fn apply_move_list(&mut self, moves: &[String]) -> (r: Result<(), String>)
        requires
            old(self).wf(),
        ensures
            final(self).wf(),
            ({
                let (p, ok) = crate::board::play_list(old(self).position(), crate::board::texts(moves@), moves@.len());
                &&& final(self).position() == p
                &&& (r is Ok <==> ok)
            }),
    {
        self.board.apply_uci_move_list(moves)
    }

    /// One root search at `depth`, trying the preferred moves first where the algorithm can.
    /// A position on which moves cannot be generated gives an empty result.
    pub fn search_depth_result(&mut self, depth: u32, preferred_root: Option<&[Move]>) -> (r: SearchResult)
        requires
            old(self).wf(),
        ensures
            final(self).wf(),
            final(self).position() == old(self).position(),
            final(self).evaluator_of() == old(self).evaluator_of(),
            position_ok(old(self).position()) && depth <= MAX_DEPTH ==> result_sound(old(self).position(), r),
            position_ok(old(self).position()) && depth <= MAX_DEPTH ==> exists|s: S|
                s.result_ok(old(self).evaluator_of(), old(self).position(), depth, r),
            !(position_ok(old(self).position()) && depth <= MAX_DEPTH) ==> r.best_moves@.len() == 0,
    {
        if depth > MAX_DEPTH || !is_position_ok(&self.board) {
            return SearchResult { best_moves: Vec::new(), score: 0, nodes: 0 };
        }
        self.search.search_with_root_ordering(&mut self.board, &self.evaluator, depth, preferred_root)
    }

    /// Searches at depths 1 to `depth` (or at 0 alone), each iteration trying the previous
    /// best moves first; returns the last result and the nodes of all iterations.
    fn search_iterative_depth(&mut self, depth: u32) -> (r: (SearchResult, u64))
        requires
            old(self).wf(),
        ensures
            final(self).wf(),
            final(self).position() == old(self).position(),
            final(self).evaluator_of() == old(self).evaluator_of(),
            position_ok(old(self).position()) ==> final_result::<E, S>(old(self).evaluator_of(), old(self).position(), clamp_depth(depth), r.0),
            !position_ok(old(self).position()) ==> r.0.best_moves@.len() == 0,
    {
        let depth = if depth > MAX_DEPTH { MAX_DEPTH } else { depth };
        let mut total_nodes: u64 = 0;
        if depth == 0 {
            let result = self.search_depth_result(0, None);
            total_nodes = total_nodes.saturating_add(result.nodes);
            return (result, total_nodes);
        }
        let mut last = self.search_depth_result(1, None);
        total_nodes = total_nodes.saturating_add(last.nodes);
        let mut current: u32 = 1;
        while current < depth
            invariant
                self.wf(),
                self.position() == old(self).position(),
                1 <= current <= depth <= MAX_DEPTH,
                self.evaluator_of() == old(self).evaluator_of(),
                position_ok(old(self).position()) ==> final_result::<E, S>(old(self).evaluator_of(), old(self).position(), current, last),
                !position_ok(old(self).position()) ==> last.best_moves@.len() == 0,
            decreases depth - current,
        {
            current += 1;
            let result = self.search_depth_result(current, Some(last.best_moves.as_slice()));
            total_nodes = total_nodes.saturating_add(result.nodes);
            last = result;
        }
        (last, total_nodes)
    }

    /// Picks one of the tying best moves: with the seeded generator if there is one, else with
    /// the thread's generator. Empty list gives the sentinel `0000`.
    pub fn pick_best_move(&mut self, moves: &[Move]) -> (r: String)
        requires
            old(self).wf(),
        ensures
            final(self).wf(),
            final(self).position() == old(self).position(),
            moves@.len() == 0 ==> r@ == null_move_text(),
            moves@.len() > 0 && r@ != null_move_text() ==> exists|i: int|
                0 <= i < moves@.len() && uci_text(#[trigger] moves@[i]) == Some(r@),
            moves@.len() > 0 && (forall|i: int| 0 <= i < moves@.len() ==> (#[trigger] uci_text(moves@[i])) is Some)
                ==> exists|i: int| 0 <= i < moves@.len() && uci_text(#[trigger] moves@[i]) == Some(r@),
    {
        if moves.len() == 0 {
            return choose_move(moves, 0);
        }
        let index = match &mut self.rng {
            Some(rng) => small_index(rng, moves.len()),
            None => {
                let mut rng = thread_rng_handle();
                thread_index(&mut rng, moves.len())
            },
        };
        choose_move(moves, index)
    }

    /// The best move at `depth` as UCI text, and the nodes searched.
    pub fn search_depth_with_stats(&mut self, depth: u32) -> (r: (String, u64))
        requires
            old(self).wf(),
        ensures
            final(self).wf(),
            final(self).position() == old(self).position(),
            position_ok(old(self).position()) && legal_moves(old(self).position()).len() == 0
                ==> r.0@ == null_move_text(),
            r.0@ != null_move_text() ==> exists|mv: crate::types::Move|
                legal_moves(old(self).position()).contains(mv) && uci_text(mv) == Some(r.0@),
            position_ok(old(self).position()) && legal_moves(old(self).position()).len() > 0 ==> (r.0@
                != null_move_text() && picked_from_final::<E, S>(old(self).evaluator_of(), old(self).position(), depth, r.0@)),
    {
        let (result, total_nodes) = self.search_iterative_depth(depth);
        let best = &result.best_moves;
        proof {
            if position_ok(old(self).position()) {
                lemma_best_have_text(old(self).position(), result);
            }
        }
        let text = self.pick_best_move(best.as_slice());
        proof {
            if position_ok(old(self).position()) && legal_moves(old(self).position()).len() > 0 {
                lemma_picked::<E, S>(old(self).evaluator_of(), old(self).position(), depth, result, text@);
            }
            if text@ != null_move_text() {
                let i = choose|i: int| 0 <= i < best@.len() && uci_text(#[trigger] best@[i]) == Some(text@);
                assert(legal_moves(old(self).position()).contains(best@[i]));
            }
        }
        (text, total_nodes)
    }

    pub fn search_depth(&mut self, depth: u32) -> (r: String)
        requires
            old(self).wf(),
        ensures
            final(self).wf(),
            final(self).position() == old(self).position(),
            position_ok(old(self).position()) && legal_moves(old(self).position()).len() == 0
                ==> r@ == null_move_text(),
            r@ != null_move_text() ==> exists|mv: crate::types::Move|
                legal_moves(old(self).position()).contains(mv) && uci_text(mv) == Some(r@),
            position_ok(old(self).position()) && legal_moves(old(self).position()).len() > 0 ==> (r@
                != null_move_text() && picked_from_final::<E, S>(old(self).evaluator_of(), old(self).position(), depth, r@)),
    {
        let (best_move, _) = self.search_depth_with_stats(depth);
        best_move
    }

    /// The status of the position; one on which moves cannot be generated counts as ongoing.
    pub fn game_status(&mut self) -> (r: GameStatus)
        requires
            old(self).wf(),
        ensures
            final(self).wf(),
            final(self).position() == old(self).position(),
            position_ok(old(self).position()) ==> r == status_of(old(self).position()),
            !position_ok(old(self).position()) ==> r == GameStatus::Ongoing,
    {
        if !is_position_ok(&self.board) {
            return GameStatus::Ongoing;
        }
        game_status(&mut self.board)
    }

    /// Nothing runs in the background, so there is nothing to stop.
    pub fn stop_search(&mut self)
        requires
            old(self).wf(),
        ensures
            final(self).wf(),
            final(self).position() == old(self).position(),
    {
    }

    /// Clears the position.
    pub fn reset_state(&mut self)
        requires
            old(self).wf(),
        ensures
            final(self).wf(),
            final(self).position() == empty_board(),
    {
        self.board.clear();
    }
}

} // verus!
