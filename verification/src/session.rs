//! The guessing session: a hidden target and a read-evaluate-respond loop.
//!
//! A session holds an immutable target drawn at start and a state that is one
//! of awaiting a guess, won, or aborted. Each step takes one line of input:
//! an unparseable line aborts the session at once, a correct guess wins it,
//! and any other guess leaves it awaiting the next line.
use crate::text::{int_value, is_int_string, parse_i32, trim, trimmed};
use vstd::prelude::*;

verus! {

/// The classification of a single guess attempt.
#[derive(Clone, Copy, Debug, PartialEq, Eq, Structural)]
pub enum Outcome {
    TooLow,
    TooHigh,
    Correct,
    Unparseable,
}

/// Where a session stands: awaiting input, or in one of the terminal states.
#[derive(Clone, Copy, Debug, PartialEq, Eq, Structural)]
pub enum SessionState {
    AwaitingGuess,
    Won,
    Aborted,
}

/// How a parsed guess compares against the target.
pub open spec fn guess_outcome(target: int, guess: int) -> Outcome {
    if guess < target {
        Outcome::TooLow
    } else if guess > target {
        Outcome::TooHigh
    } else {
        Outcome::Correct
    }
}

/// The outcome of feeding one raw line to a session with the given target.
pub open spec fn step_outcome(target: int, line: Seq<char>) -> Outcome {
    if is_int_string(trimmed(line)) {
        guess_outcome(target, int_value(trimmed(line)))
    } else {
        Outcome::Unparseable
    }
}

/// The state a step leaves the session in, from the outcome it produced.
pub open spec fn outcome_state(o: Outcome) -> SessionState {
    match o {
        Outcome::Correct => SessionState::Won,
        Outcome::Unparseable => SessionState::Aborted,
        _ => SessionState::AwaitingGuess,
    }
}

/// The outcomes a session with the given target emits for `lines`, stopping
/// after the first terminal outcome.
pub open spec fn run_outcomes(target: int, lines: Seq<Seq<char>>) -> Seq<Outcome>
    decreases lines.len(),
{
    if lines.len() == 0 {
        Seq::empty()
    } else {
        let o = step_outcome(target, lines.first());
        if outcome_state(o) == SessionState::AwaitingGuess {
            seq![o] + run_outcomes(target, lines.drop_first())
        } else {
            seq![o]
        }
    }
}

/// The state a session with the given target ends in after `lines`: input
/// exhaustion aborts, a terminal outcome decides, otherwise recurse.
pub open spec fn run_final_state(target: int, lines: Seq<Seq<char>>) -> SessionState
    decreases lines.len(),
{
    if lines.len() == 0 {
        SessionState::Aborted
    } else {
        let o = step_outcome(target, lines.first());
        if outcome_state(o) == SessionState::AwaitingGuess {
            run_final_state(target, lines.drop_first())
        } else {
            outcome_state(o)
        }
    }
}

/// Relies on rand::Rng::gen_range on an inclusive i32 range: for
/// low <= high it does not panic and returns a value within [low, high].
#[verifier::external_body]
fn draw_uniform(low: i32, high: i32) -> (r: i32)
    requires
        low <= high,
    ensures
        low <= r <= high,
{
    rand::Rng::gen_range(&mut rand::thread_rng(), low..=high)
}

/// One complete guessing game: the hidden target and the session state.
pub struct GuessSession {
    target: i32,
    state: SessionState,
}

impl GuessSession {
    /// The hidden target, as contracts see it.
    pub closed spec fn spec_target(self) -> int {
        self.target as int
    }

    /// The session state, as contracts see it.
    pub closed spec fn spec_state(self) -> SessionState {
        self.state
    }

    /// A session with an injected target, for callers that supply their own
    /// entropy.
    pub fn new(target: i32) -> (s: Self)
        ensures
            s.spec_target() == target,
            s.spec_state() == SessionState::AwaitingGuess,
    {
        GuessSession { target, state: SessionState::AwaitingGuess }
    }

    /// A session whose target is drawn uniformly from the inclusive range.
    pub fn start(range_low: i32, range_high: i32) -> (s: Self)
        requires
            range_low <= range_high,
        ensures
            range_low <= s.spec_target() <= range_high,
            s.spec_state() == SessionState::AwaitingGuess,
    {
        GuessSession { target: draw_uniform(range_low, range_high), state: SessionState::AwaitingGuess }
    }

    /// The observability hook: reveals the drawn target.
    pub fn revealed_target(&self) -> (t: i32)
        ensures
            t == self.spec_target(),
    {
        self.target
    }

    /// The current session state.
    pub fn state(&self) -> (st: SessionState)
        ensures
            st == self.spec_state(),
    {
        self.state
    }

    /// Feeds one raw line to the session: trims it, parses it as a signed
    /// integer, and compares against the target. An unparseable line aborts
    /// the session; a correct guess wins it; otherwise it keeps awaiting.
    pub fn step(&mut self, line: &str) -> (o: Outcome)
        requires
            old(self).spec_state() == SessionState::AwaitingGuess,
        ensures
            final(self).spec_target() == old(self).spec_target(),
            o == step_outcome(old(self).spec_target(), line@),
            final(self).spec_state() == outcome_state(o),
    {
        let t = trim(line);
        match parse_i32(t) {
            None => {
                self.state = SessionState::Aborted;
                Outcome::Unparseable
            },
            Some(g) => {
                if g < self.target {
                    Outcome::TooLow
                } else if g > self.target {
                    Outcome::TooHigh
                } else {
                    self.state = SessionState::Won;
                    Outcome::Correct
                }
            },
        }
    }

    /// Feeds `lines` in order until a terminal outcome or the end of input,
    /// returning the outcomes emitted. Exhausting the input aborts the
    /// session.
    pub fn run(&mut self, lines: &Vec<String>) -> (outs: Vec<Outcome>)
        requires
            old(self).spec_state() == SessionState::AwaitingGuess,
        ensures
            final(self).spec_target() == old(self).spec_target(),
            outs@ == run_outcomes(old(self).spec_target(), lines@.map_values(|l: String| l@)),
            final(self).spec_state() == run_final_state(
                old(self).spec_target(),
                lines@.map_values(|l: String| l@),
            ),
    {
        let ghost t = old(self).spec_target();
        let ghost all = lines@.map_values(|l: String| l@);
        let mut outs: Vec<Outcome> = Vec::new();
        let mut idx: usize = 0;
        let mut done: bool = false;
        proof {
            assert(all.skip(0) =~= all);
            assert(Seq::<Outcome>::empty() + run_outcomes(t, all) =~= run_outcomes(t, all));
            assert(outs@ =~= Seq::<Outcome>::empty());
        }
        while idx < lines.len() && !done
            invariant
                0 <= idx <= lines.len(),
                all == lines@.map_values(|l: String| l@),
                all.len() == lines@.len(),
                self.spec_target() == t,
                !done ==> self.spec_state() == SessionState::AwaitingGuess,
                !done ==> run_outcomes(t, all) == outs@ + run_outcomes(t, all.skip(idx as int)),
                !done ==> run_final_state(t, all) == run_final_state(t, all.skip(idx as int)),
                done ==> outs@ == run_outcomes(t, all),
                done ==> self.spec_state() == run_final_state(t, all),
            decreases lines.len() - idx,
        {
            let ghost rest = all.skip(idx as int);
            let ghost outs_before = outs@;
            proof {
                assert(rest.first() == all[idx as int]);
                assert(rest.drop_first() =~= all.skip(idx + 1));
            }
            let o = self.step(lines[idx].as_str());
            outs.push(o);
            match o {
                Outcome::TooLow | Outcome::TooHigh => {},
                _ => {
                    done = true;
                },
            }
            idx = idx + 1;
            proof {
                assert(outs@ =~= outs_before + seq![o]);
                if done {
                    assert(run_outcomes(t, rest) == seq![o]);
                } else {
                    assert(run_outcomes(t, rest) == seq![o] + run_outcomes(
                        t,
                        all.skip(idx as int),
                    ));
                    assert(outs_before + (seq![o] + run_outcomes(t, all.skip(idx as int)))
                        =~= (outs_before + seq![o]) + run_outcomes(t, all.skip(idx as int)));
                }
            }
        }
        if !done {
            proof {
                assert(all.skip(idx as int) =~= Seq::<Seq<char>>::empty());
                assert(outs@ + run_outcomes(t, all.skip(idx as int)) =~= outs@);
            }
            self.state = SessionState::Aborted;
        }
        outs
    }
}

impl Outcome {
    /// The status line the session reports for this outcome.
    pub fn message(&self) -> (r: &'static str)
        ensures
            *self == Outcome::TooLow ==> r@ == "Too small!"@,
            *self == Outcome::TooHigh ==> r@ == "Too big!"@,
            *self == Outcome::Correct ==> r@ == "You win!"@,
            *self == Outcome::Unparseable ==> r@ == "Yo you entered incorrect"@,
    {
        match self {
            Outcome::TooLow => "Too small!",
            Outcome::TooHigh => "Too big!",
            Outcome::Correct => "You win!",
            Outcome::Unparseable => "Yo you entered incorrect",
        }
    }
}

/// Law: a parsed guess below the target reports TooLow and the session keeps
/// awaiting guesses.
pub proof fn law_low_guess_continues(target: int, line: Seq<char>)
    requires
        is_int_string(trimmed(line)),
        int_value(trimmed(line)) < target,
    ensures
        step_outcome(target, line) == Outcome::TooLow,
        outcome_state(step_outcome(target, line)) == SessionState::AwaitingGuess,
{
}

/// Law: a parsed guess above the target reports TooHigh and the session keeps
/// awaiting guesses.
pub proof fn law_high_guess_continues(target: int, line: Seq<char>)
    requires
        is_int_string(trimmed(line)),
        int_value(trimmed(line)) > target,
    ensures
        step_outcome(target, line) == Outcome::TooHigh,
        outcome_state(step_outcome(target, line)) == SessionState::AwaitingGuess,
{
}

/// Law: a line that parses to exactly the target reports Correct and wins the
/// session.
pub proof fn law_exact_guess_wins(target: int, line: Seq<char>)
    requires
        is_int_string(trimmed(line)),
        int_value(trimmed(line)) == target,
    ensures
        step_outcome(target, line) == Outcome::Correct,
        outcome_state(step_outcome(target, line)) == SessionState::Won,
{
}

/// Law: a line that does not parse as an integer reports Unparseable and
/// aborts the session.
pub proof fn law_unparseable_aborts(target: int, line: Seq<char>)
    requires
        !is_int_string(trimmed(line)),
    ensures
        step_outcome(target, line) == Outcome::Unparseable,
        outcome_state(step_outcome(target, line)) == SessionState::Aborted,
{
}

/// Law: with no input at all the session ends aborted having emitted no
/// outcome.
pub proof fn law_empty_input_aborts(target: int)
    ensures
        run_outcomes(target, Seq::empty()) == Seq::<Outcome>::empty(),
        run_final_state(target, Seq::empty()) == SessionState::Aborted,
{
}

} // verus!
