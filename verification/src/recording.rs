//! Recordings of runs, and what replaying one gives.

use crate::tape::{blank, Tape};
use crate::transition_fn::{Action, Rules};
use crate::turing_machine::{
    apply, can_step, is_on_tape, lemma_one_more_step, on_tape, run_steps, trace, Config,
};
use vstd::prelude::*;

verus! {

/// A log of the movements and operations of a specific `TuringMachine`:
/// the tape, the state and the head location before the run, and the rule
/// applied by each of its steps, in order.
#[derive(Debug, PartialEq)]
pub struct Recording {
    pub input: Tape,
    pub init_state: u64,
    pub init_head_loc: i64,
    pub steps: Vec<Action>,
}

/// `c` after the recorded `steps` are applied to it in order, each one
/// writing under the head and then moving the head.
pub open spec fn replay(c: Config, steps: Seq<Action>) -> Config
    decreases steps.len(),
{
    if steps.len() == 0 {
        c
    } else {
        apply(replay(c, steps.drop_last()), steps.last())
    }
}

/// Whether `steps` can be replayed from `c` with the head on the tape
/// before each of them.
pub open spec fn replayable(c: Config, steps: Seq<Action>) -> bool {
    forall|k: int| 0 <= k < steps.len() ==> on_tape(#[trigger] replay(c, steps.take(k)).head)
}

/// Replaying the trace of a run gives the configuration that the run ended
/// in, and every shorter replay gives the configuration that the run passed
/// through after as many steps.
pub proof fn lemma_replay_matches_run(rules: Rules, c: Config, n: nat)
    ensures
        replay(c, trace(rules, c, n)) == run_steps(rules, c, n),
        forall|k: int|
            0 <= k <= trace(rules, c, n).len() ==> #[trigger] replay(
                c,
                trace(rules, c, n).take(k),
            ) == run_steps(rules, c, k as nat),
        replayable(c, trace(rules, c, n)),
    decreases n,
{
    let full = trace(rules, c, n);
    if n == 0 {
        assert forall|k: int| 0 <= k <= full.len() implies #[trigger] replay(c, full.take(k))
            == run_steps(rules, c, k as nat) by {
            assert(full.take(k) =~= full);
        }
    } else {
        let m = (n - 1) as nat;
        let shorter = trace(rules, c, m);
        lemma_replay_matches_run(rules, c, m);
        lemma_one_more_step(rules, c, m);
        if can_step(rules, run_steps(rules, c, m)) {
            assert(full.drop_last() =~= shorter);
            assert forall|k: int| 0 <= k <= full.len() implies #[trigger] replay(c, full.take(k))
                == run_steps(rules, c, k as nat) by {
                if k == full.len() {
                    assert(full.take(k) =~= full);
                } else {
                    assert(full.take(k) =~= shorter.take(k));
                }
            }
        }
        assert forall|k: int| 0 <= k < full.len() implies on_tape(
            #[trigger] replay(c, full.take(k)).head,
        ) by {
            if k < shorter.len() {
                assert(full.take(k) =~= shorter.take(k));
            } else {
                assert(k == m);
                assert(replay(c, full.take(k)) == run_steps(rules, c, m));
            }
        }
    }
}

/// Replays one recorded step: writes its symbol at `head_loc` and returns
/// its state and the location that the head moves to.
pub fn replay_step(tape: &mut Tape, head_loc: i64, action: Action) -> (next: (u64, i64))
    requires
        on_tape(head_loc as int),
    ensures
        (Config { state: next.0, head: next.1 as int, tape: final(tape)@ }) == apply(
            Config { state: next.0, head: head_loc as int, tape: old(tape)@ },
            action,
        ),
{
    tape.write(head_loc, action.1);
    if action.2 {
        (action.0, head_loc + 1)
    } else {
        (action.0, head_loc - 1)
    }
}

impl Recording {
    /// The configuration that the recorded run started in.
    pub open spec fn start(&self) -> Config {
        Config { state: self.init_state, head: self.init_head_loc as int, tape: self.input@ }
    }

    /// Replays the recording on a copy of its input and returns the tape,
    /// the state and the head location that it ends with, or `None` where
    /// a recorded step would have to be applied off the tape.
    pub fn replay(&self) -> (end: Option<(Tape, u64, i64)>)
        ensures
            end is Some <==> replayable(self.start(), self.steps@),
            end matches Some((tape, state, head_loc)) ==> (Config {
                state,
                head: head_loc as int,
                tape: tape@,
            }) == replay(self.start(), self.steps@),
    {
        let mut tape = self.input.clone();
        let mut state = self.init_state;
        let mut head_loc = self.init_head_loc;
        let mut i: usize = 0;
        while i < self.steps.len()
            invariant
                i <= self.steps.len(),
                (Config { state, head: head_loc as int, tape: tape@ }) == replay(
                    self.start(),
                    self.steps@.take(i as int),
                ),
                forall|k: int|
                    0 <= k < i ==> on_tape(
                        #[trigger] replay(self.start(), self.steps@.take(k)).head,
                    ),
            decreases self.steps.len() - i,
        {
            if !is_on_tape(head_loc) {
                assert(!on_tape(replay(self.start(), self.steps@.take(i as int)).head));
                return None;
            }
            let next = replay_step(&mut tape, head_loc, self.steps[i]);
            state = next.0;
            head_loc = next.1;
            i += 1;
            assert(self.steps@.take(i as int).drop_last() =~= self.steps@.take(i - 1));
        }
        assert(self.steps@.take(i as int) =~= self.steps@);
        Some((tape, state, head_loc))
    }
}

impl Clone for Recording {
    fn clone(&self) -> (copy: Recording)
        ensures
            copy.input@ == self.input@,
            copy.init_state == self.init_state,
            copy.init_head_loc == self.init_head_loc,
            copy.steps@ == self.steps@,
    {
        Recording {
            input: self.input.clone(),
            init_state: self.init_state,
            init_head_loc: self.init_head_loc,
            steps: copy_of(&self.steps),
        }
    }
}

/// A vector that holds what `steps` holds.
fn copy_of(steps: &Vec<Action>) -> (copy: Vec<Action>)
    ensures
        copy@ == steps@,
{
    let mut copy: Vec<Action> = Vec::new();
    let mut i: usize = 0;
    while i < steps.len()
        invariant
            i <= steps.len(),
            copy@ == steps@.take(i as int),
        decreases steps.len() - i,
    {
        copy.push(steps[i]);
        i += 1;
        assert(copy@ =~= steps@.take(i as int));
    }
    assert(steps@.take(i as int) =~= steps@);
    copy
}

impl Default for Recording {
    /// The recording of no step on a blank tape.
    fn default() -> (recording: Recording)
        ensures
            recording.input@ == blank(),
            recording.init_state == 0,
            recording.init_head_loc == 0,
            recording.steps@ == Seq::<Action>::empty(),
    {
        Recording { input: Tape::default(), init_state: 0, init_head_loc: 0, steps: Vec::new() }
    }
}

} // verus!
