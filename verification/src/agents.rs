//! Move sources and the game driver: the baseline random agent, the
//! rollout-evaluation agent, and the loop that plays one game to its end.

use rand::Rng;
use rayon::iter::IntoParallelIterator;
use rayon::iter::IntoParallelRefIterator;
use rayon::iter::ParallelIterator;
use vstd::prelude::*;

verus! {

use crate::game::ActionError;
use crate::game::COLS;
use crate::game::ROWS;
use crate::game::Connect4Action;
use crate::game::Connect4Check;
use crate::game::Connect4Result;
use crate::game::Connect4State;
use crate::game::apply_action;
use crate::game::check_action;
use crate::game::check_matches;
use crate::game::check_state;
use crate::game::has_legal_move;
use crate::game::has_win;
use crate::game::in_progress;
use crate::game::is_full;
use crate::game::is_legal;
use crate::game::lemma_not_full_has_legal;
use crate::game::lemma_occupied_bounds;
use crate::game::occupied;
use crate::game::state_wf;

/// How many playouts the rollout agent runs per candidate move.
pub const SIMULATIONS: usize = 100;

/// How many uniformly random samples the baseline agent draws before it falls
/// back to a left-to-right scan for an open column.
pub const SAMPLE_ATTEMPTS: usize = 10000;

/// A move source: anything that can produce a legal action for a game that
/// still has an open column. The driver never consults an agent on a board
/// without one.
pub trait Agent {
    fn choose_move(&self, state: &Connect4State) -> (action: Connect4Action)
        requires
            state_wf(*state),
            has_legal_move(*state),
        ensures
            is_legal(*state, action.column as int),
    ;
}

/// Relies on rand's `Rng::gen_range` on the thread-local generator: the result
/// lies in the given half-open range, here `0..COLS`.
#[verifier::external_body]
fn random_column() -> (column: usize)
    ensures
        column < COLS,
{
    rand::thread_rng().gen_range(0..COLS)
}

/// The lowest-indexed open column.
fn first_legal_column(state: &Connect4State) -> (action: Connect4Action)
    requires
        state_wf(*state),
        has_legal_move(*state),
    ensures
        is_legal(*state, action.column as int),
{
    let mut col: usize = 0;
    while col < COLS - 1
        invariant
            state_wf(*state),
            has_legal_move(*state),
            col <= COLS - 1,
            forall|c: int| 0 <= c < col ==> !is_legal(*state, c),
        decreases COLS - col,
    {
        let action = Connect4Action { column: col };
        if check_action(state, &action) {
            return action;
        }
        col += 1;
    }
    proof {
        let w = choose|c: int| #[trigger] is_legal(*state, c);
        assert(is_legal(*state, COLS - 1));
    }
    Connect4Action { column: COLS - 1 }
}

/// The baseline agent: samples uniformly random columns, rejecting illegal
/// ones, until a legal one comes up.
pub struct RandAgent;

impl Agent for RandAgent {
    fn choose_move(&self, state: &Connect4State) -> (action: Connect4Action) {
        let mut attempts: usize = SAMPLE_ATTEMPTS;
        while attempts > 0
            invariant
                state_wf(*state),
            decreases attempts,
        {
            let action = Connect4Action { column: random_column() };
            if check_action(state, &action) {
                return action;
            }
            attempts -= 1;
        }
        first_legal_column(state)
    }
}

/// Play one game to its end: repeatedly ask the agent whose turn it is for an
/// action, apply it, and stop as soon as the state turns terminal. The
/// returned outcome is the terminal status of the final state.
pub fn play<B: Agent, R: Agent>(
    state: &mut Connect4State,
    blue_agent: &B,
    red_agent: &R,
) -> (outcome: Result<Connect4Result, ActionError>)
    requires
        state_wf(*old(state)),
        in_progress(old(state).board@),
    ensures
        outcome is Ok,
        state_wf(*final(state)),
        outcome matches Ok(result) ==> check_matches(
            final(state).board@,
            Connect4Check::Over(result),
        ),
{
    loop
        invariant
            state_wf(*state),
            in_progress(state.board@),
        decreases (ROWS * COLS) - occupied(state.board@),
    {
        proof {
            lemma_occupied_bounds(state.board@);
            lemma_not_full_has_legal(*state);
        }
        let action = if state.next_player == 0 {
            blue_agent.choose_move(state)
        } else {
            red_agent.choose_move(state)
        };
        apply_action(state, &action)?;
        match check_state(state) {
            Connect4Check::Over(result) => {
                return Ok(result);
            },
            Connect4Check::InProgress => {},
        }
        proof {
            lemma_occupied_bounds(state.board@);
        }
    }
}

/// The score of one finished game seen from `player`: a win counts 1, a loss
/// counts -1, a tie counts 0.
pub fn outcome_score(result: &Connect4Result, player: usize) -> (score: i32)
    ensures
        (*result matches Connect4Result::Winner(w) && w == player) ==> score == 1,
        (*result matches Connect4Result::Winner(w) && w != player) ==> score == -1,
        *result == Connect4Result::Tie ==> score == 0,
{
    match result {
        Connect4Result::Winner(w) => {
            if *w == player {
                1
            } else {
                -1
            }
        },
        Connect4Result::Tie => 0,
    }
}

/// One playout: play an independent copy of `state` to its end with random
/// moves on both sides, and score the outcome from `player`'s perspective. A
/// state that is already terminal scores as it stands, with no moves played.
pub fn simulate_one(state: &Connect4State, player: usize) -> (score: i32)
    requires
        state_wf(*state),
    ensures
        -1 <= score <= 1,
        player < 2 && has_win(state.board@, player) && !has_win(
            state.board@,
            (1 - player) as usize,
        ) ==> score == 1,
        player < 2 && has_win(state.board@, (1 - player) as usize)
            && !has_win(state.board@, player) ==> score == -1,
        is_full(state.board@) && !has_win(state.board@, 0)
            && !has_win(state.board@, 1) ==> score == 0,
{
    let mut sim = state.clone();
    match check_state(&sim) {
        Connect4Check::Over(result) => outcome_score(&result, player),
        Connect4Check::InProgress => match play(&mut sim, &RandAgent, &RandAgent) {
            Ok(result) => outcome_score(&result, player),
            Err(_) => 0,
        },
    }
}

/// Relies on rayon's parallel range iterator: the map runs `count` independent
/// playouts, each scored in `-1..=1` by the verified `simulate_one`, and the
/// sum of `count` such scores lies in `-count..=count`.
#[verifier::external_body]
fn parallel_playout_total(state: &Connect4State, player: usize, count: usize) -> (total: i64)
    requires
        state_wf(*state),
        count <= 1000000,
    ensures
        -(count as int) <= total <= count as int,
{
    (0..count).into_par_iter().map(|_task: usize| simulate_one(state, player) as i64).sum()
}

/// The summed playout score of one candidate successor state.
fn candidate_total(state: &Connect4State, player: usize, count: usize) -> (total: i64)
    requires
        state_wf(*state),
        count <= 1000000,
    ensures
        -(count as int) <= total <= count as int,
{
    parallel_playout_total(state, player, count)
}

/// Relies on rayon's parallel slice iterator: the map turns each successor
/// state into its playout total through the verified `candidate_total`, and
/// `collect` keeps one result per input, in input order.
#[verifier::external_body]
fn parallel_candidate_totals(successors: &Vec<Connect4State>, player: usize, count: usize) -> (totals:
    Vec<i64>)
    requires
        forall|i: int| 0 <= i < successors@.len() ==> state_wf(#[trigger] successors@[i]),
        count <= 1000000,
    ensures
        totals@.len() == successors@.len(),
        forall|i: int|
            0 <= i < totals@.len() ==> -(count as int) <= #[trigger] totals@[i] <= count as int,
{
    successors.par_iter().map(|successor| candidate_total(successor, player, count)).collect()
}

/// The position of the best total: the first index whose score no other index
/// beats. Ties go to the earlier index.
pub fn best_index(totals: &Vec<i64>) -> (best: usize)
    requires
        totals@.len() > 0,
    ensures
        best < totals@.len(),
        forall|j: int| 0 <= j < totals@.len() ==> totals@[j] <= totals@[best as int],
        forall|j: int| 0 <= j < best ==> totals@[j] < totals@[best as int],
{
    let mut best: usize = 0;
    let mut i: usize = 1;
    while i < totals.len()
        invariant
            best < i <= totals@.len(),
            forall|j: int| 0 <= j < i ==> totals@[j] <= totals@[best as int],
            forall|j: int| 0 <= j < best ==> totals@[j] < totals@[best as int],
        decreases totals@.len() - i,
    {
        if totals[i] > totals[best] {
            best = i;
        }
        i += 1;
    }
    best
}

/// The rollout-evaluation agent: for every legal column it applies the move,
/// runs a fixed number of independent random-versus-random playouts from the
/// successor state in parallel, sums the outcomes seen from the player to
/// move, and picks the column with the highest total. Ties go to the
/// lowest-numbered column. With the playout count fixed, ranking the summed
/// outcomes ranks the per-playout net-outcome rates the same way.
pub struct MctsAgent;

impl Agent for MctsAgent {
    fn choose_move(&self, state: &Connect4State) -> (action: Connect4Action) {
        let player = state.next_player;

        let mut candidates: Vec<usize> = Vec::new();
        let mut col: usize = 0;
        while col < COLS
            invariant
                state_wf(*state),
                col <= COLS,
                forall|k: int|
                    0 <= k < candidates@.len() ==> is_legal(
                        *state,
                        #[trigger] candidates@[k] as int,
                    ),
                forall|c: int|
                    0 <= c < col && is_legal(*state, c) ==> exists|k: int|
                        0 <= k < candidates@.len() && #[trigger] candidates@[k] == c,
            decreases COLS - col,
        {
            let ghost prev = candidates@;
            let action = Connect4Action { column: col };
            if check_action(state, &action) {
                candidates.push(col);
            }
            proof {
                assert forall|c: int| 0 <= c < col + 1 && is_legal(*state, c) implies exists|k: int|
                    0 <= k < candidates@.len() && #[trigger] candidates@[k] == c by {
                    if c < col {
                        let k = choose|k: int| 0 <= k < prev.len() && #[trigger] prev[k] == c;
                        assert(candidates@[k] == c);
                    } else {
                        assert(candidates@[candidates@.len() - 1] == c);
                    }
                }
            }
            col += 1;
        }
        proof {
            let w = choose|c: int| #[trigger] is_legal(*state, c);
            assert(exists|k: int|
                0 <= k < candidates@.len() && #[trigger] candidates@[k] == w);
        }

        let mut successors: Vec<Connect4State> = Vec::new();
        let mut i: usize = 0;
        while i < candidates.len()
            invariant
                state_wf(*state),
                i <= candidates@.len(),
                successors@.len() == i,
                forall|k: int|
                    0 <= k < candidates@.len() ==> is_legal(
                        *state,
                        #[trigger] candidates@[k] as int,
                    ),
                forall|k: int| 0 <= k < i ==> state_wf(#[trigger] successors@[k]),
            decreases candidates@.len() - i,
        {
            let mut next_state = state.clone();
            let action = Connect4Action { column: candidates[i] };
            let _ = apply_action(&mut next_state, &action).unwrap();
            successors.push(next_state);
            i += 1;
        }

        let totals = parallel_candidate_totals(&successors, player, SIMULATIONS);
        let best = best_index(&totals);
        Connect4Action { column: candidates[best] }
    }
}

} // verus!
