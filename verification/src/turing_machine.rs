//! The machine: what one step does, what a run is, and the functions that
//! run a machine on a tape.
//!
//! A step needs a rule for the state and the symbol under the head. It
//! also needs the head on the part of the tape that positions of type `i64`
//! and a vector indexed by `usize` can hold ([`on_tape`]); a machine whose
//! head leaves that part has no next step and counts as halted.

use crate::recording::{lemma_replay_matches_run, replay, replayable, Recording};
use crate::tape::{blank, Tape};
use crate::transition_fn::{enumerated, Action, Rules, TransitionFn};
use std::time::{Duration, Instant};
use vstd::prelude::*;

verus! {

/// A machine at one moment of a run: its state, where its head stands, and
/// what the tape holds.
pub struct Config {
    pub state: u64,
    pub head: int,
    pub tape: Map<int, u64>,
}

/// Whether a head at `head` stands on the part of the tape that a machine
/// can work on: the cell can be written, and the cells beside it have
/// positions.
pub open spec fn on_tape(head: int) -> bool {
    i64::MIN < head < i64::MAX && Tape::addressable(head)
}

/// Whether a head at `head_loc` stands on the part of the tape that a
/// machine can work on.
pub fn is_on_tape(head_loc: i64) -> (yes: bool)
    ensures
        yes == on_tape(head_loc as int),
{
    head_loc > i64::MIN && head_loc < i64::MAX && Tape::is_addressable(head_loc)
}

/// Whether a step can be applied in `c`: a rule matches the state and the
/// symbol under the head, and the head stands on the tape. A machine that
/// cannot step has halted.
pub open spec fn can_step(rules: Rules, c: Config) -> bool {
    on_tape(c.head) && rules.contains_key((c.state, c.tape[c.head]))
}

/// The rule that matches `c`.
pub open spec fn action_in(rules: Rules, c: Config) -> Action {
    rules[(c.state, c.tape[c.head])]
}

/// `c` after `action` is applied: the state is replaced, the symbol is
/// written under the head, and then the head moves by one cell.
pub open spec fn apply(c: Config, action: Action) -> Config {
    Config {
        state: action.0,
        head: if action.2 {
            c.head + 1
        } else {
            c.head - 1
        },
        tape: c.tape.insert(c.head, action.1),
    }
}

/// `c` after at most `n` steps: the run ends early where no step can be
/// applied.
pub open spec fn run_steps(rules: Rules, c: Config, n: nat) -> Config
    decreases n,
{
    if n == 0 || !can_step(rules, c) {
        c
    } else {
        run_steps(rules, apply(c, action_in(rules, c)), (n - 1) as nat)
    }
}

/// The rules applied, in order, by a run of at most `n` steps from `c`.
pub open spec fn trace(rules: Rules, c: Config, n: nat) -> Seq<Action>
    decreases n,
{
    if n == 0 || !can_step(rules, c) {
        Seq::empty()
    } else {
        seq![action_in(rules, c)] + trace(
            rules,
            apply(c, action_in(rules, c)),
            (n - 1) as nat,
        )
    }
}

/// Whether a run from `c` comes to a configuration without a next step.
pub open spec fn halts(rules: Rules, c: Config) -> bool {
    exists|n: nat| !can_step(rules, run_steps(rules, c, n))
}

/// A number of steps after which a run from `c` has halted, where it halts.
pub open spec fn halting_steps(rules: Rules, c: Config) -> nat {
    choose|n: nat| !can_step(rules, run_steps(rules, c, n))
}

/// One more step of budget applies one more step where one can be applied.
pub proof fn lemma_one_more_step(rules: Rules, c: Config, n: nat)
    ensures
        can_step(rules, run_steps(rules, c, n)) ==> {
            &&& run_steps(rules, c, n + 1) == apply(
                run_steps(rules, c, n),
                action_in(rules, run_steps(rules, c, n)),
            )
            &&& trace(rules, c, n + 1) == trace(rules, c, n).push(
                action_in(rules, run_steps(rules, c, n)),
            )
            &&& trace(rules, c, n).len() == n
        },
        !can_step(rules, run_steps(rules, c, n)) ==> {
            &&& run_steps(rules, c, n + 1) == run_steps(rules, c, n)
            &&& trace(rules, c, n + 1) == trace(rules, c, n)
        },
    decreases n,
{
    if n == 0 || !can_step(rules, c) {
        reveal_with_fuel(run_steps, 2);
        reveal_with_fuel(trace, 2);
        if can_step(rules, c) {
            assert(trace(rules, c, 1) =~= trace(rules, c, 0).push(action_in(rules, c)));
        }
    } else {
        let next = apply(c, action_in(rules, c));
        lemma_one_more_step(rules, next, (n - 1) as nat);
        if can_step(rules, run_steps(rules, c, n)) {
            assert(trace(rules, c, n + 1) =~= trace(rules, c, n).push(
                action_in(rules, run_steps(rules, c, n)),
            ));
        }
    }
}

/// A run that has halted stays as it is, whatever budget is left.
pub proof fn lemma_halted_run_stays(rules: Rules, c: Config, n: nat, m: nat)
    requires
        !can_step(rules, run_steps(rules, c, n)),
        n <= m,
    ensures
        run_steps(rules, c, m) == run_steps(rules, c, n),
        trace(rules, c, m) == trace(rules, c, n),
    decreases m - n,
{
    if n < m {
        lemma_halted_run_stays(rules, c, n, (m - 1) as nat);
        lemma_one_more_step(rules, c, (m - 1) as nat);
    }
}

/// Where a run halts, it halts in one configuration and with one trace,
/// whichever number of steps shows that it halts.
pub proof fn lemma_halting_is_unique(rules: Rules, c: Config, n: nat)
    requires
        !can_step(rules, run_steps(rules, c, n)),
    ensures
        halts(rules, c),
        run_steps(rules, c, n) == run_steps(rules, c, halting_steps(rules, c)),
        trace(rules, c, n) == trace(rules, c, halting_steps(rules, c)),
{
    let h = halting_steps(rules, c);
    if n <= h {
        lemma_halted_run_stays(rules, c, n, h);
    } else {
        lemma_halted_run_stays(rules, c, h, n);
    }
}

/// A parameter type that describes when a Turing machine should be
/// forcibly halted.
/// The `NoForcedHalt` variant simply states that the machine should not be
/// forcibly halted.
/// The `AfterSteps(usize)` variant states that it should be halted after
/// `usize` number of steps; i.e., the machine has written to the tape
/// `usize` number of times.
/// The `AfterDuration(Duration)` variant states the machine should be
/// halted after a `Duration` has elapsed.
#[derive(Clone, Copy, Debug, PartialEq, Eq)]
pub enum HaltSetting {
    NoForcedHalt,
    AfterSteps(usize),
    AfterDuration(Duration),
}

impl Default for HaltSetting {
    fn default() -> (setting: HaltSetting)
        ensures
            setting is NoForcedHalt,
    {
        HaltSetting::NoForcedHalt
    }
}

impl HaltSetting {
    /// Whether a run under `self` is stopped before its next step, after
    /// `steps_done` steps and with the clock saying `time_is_up`.
    pub open spec fn forces_halt_spec(self, steps_done: u64, time_is_up: bool) -> bool {
        match self {
            HaltSetting::NoForcedHalt => false,
            HaltSetting::AfterSteps(max_steps) => steps_done >= max_steps,
            HaltSetting::AfterDuration(_) => time_is_up,
        }
    }

    /// Decides whether a run is stopped before its next step: never without
    /// a forced halt, once `steps_done` has reached the number of steps
    /// allowed, or once the time allowed is used up.
    pub fn forces_halt(&self, steps_done: u64, time_is_up: bool) -> (stop: bool)
        ensures
            stop == self.forces_halt_spec(steps_done, time_is_up),
    {
        match self {
            HaltSetting::NoForcedHalt => false,
            HaltSetting::AfterSteps(max_steps) => steps_done >= *max_steps as u64,
            HaltSetting::AfterDuration(_) => time_is_up,
        }
    }

    /// Whether a run under `self` may end after exactly `k` applied steps
    /// of a run from `c`.
    pub open spec fn may_end_after(self, rules: Rules, c: Config, k: nat) -> bool {
        match self {
            HaltSetting::NoForcedHalt => !can_step(rules, run_steps(rules, c, k)),
            HaltSetting::AfterSteps(max_steps) => k <= max_steps && (k == max_steps || !can_step(
                rules,
                run_steps(rules, c, k),
            )),
            HaltSetting::AfterDuration(_) => true,
        }
    }
}

/// Where a run under `setting` may end after `k` steps, it has come as far
/// as the setting says: to the configuration in which it halts without a
/// forced halt, and as far as the steps allowed take it with one.
pub proof fn lemma_end_of_run(setting: HaltSetting, rules: Rules, c: Config, k: nat)
    requires
        setting.may_end_after(rules, c, k),
    ensures
        setting is NoForcedHalt ==> {
            &&& halts(rules, c)
            &&& run_steps(rules, c, k) == run_steps(rules, c, halting_steps(rules, c))
            &&& trace(rules, c, k) == trace(rules, c, halting_steps(rules, c))
        },
        setting matches HaltSetting::AfterSteps(max_steps) ==> {
            &&& run_steps(rules, c, k) == run_steps(rules, c, max_steps as nat)
            &&& trace(rules, c, k) == trace(rules, c, max_steps as nat)
        },
{
    match setting {
        HaltSetting::NoForcedHalt => {
            lemma_halting_is_unique(rules, c, k);
        },
        HaltSetting::AfterSteps(max_steps) => {
            if k < max_steps {
                lemma_halted_run_stays(rules, c, k, max_steps as nat);
            }
        },
        HaltSetting::AfterDuration(_) => {},
    }
}

/// The configuration of a new machine on a blank tape.
pub open spec fn blank_start() -> Config {
    Config { state: 0, head: 0, tape: blank() }
}

/// The state in which a run of `rules` from [`blank_start`] ends under
/// `setting`, where the setting does not go by the clock.
pub open spec fn end_state(rules: Rules, setting: HaltSetting) -> u64 {
    match setting {
        HaltSetting::NoForcedHalt => run_steps(
            rules,
            blank_start(),
            halting_steps(rules, blank_start()),
        ).state,
        HaltSetting::AfterSteps(max_steps) => run_steps(
            rules,
            blank_start(),
            max_steps as nat,
        ).state,
        HaltSetting::AfterDuration(_) => 0,
    }
}

/// How many of `machines` end a run from [`blank_start`] under `setting`
/// in the state `target`.
pub open spec fn count_ending_in(machines: Seq<Rules>, setting: HaltSetting, target: u64) -> nat
    decreases machines.len(),
{
    if machines.len() == 0 {
        0
    } else {
        count_ending_in(machines.drop_last(), setting, target) + if end_state(
            machines.last(),
            setting,
        ) == target {
            1nat
        } else {
            0nat
        }
    }
}

/// What a machine is between two steps: its rules, its state and the
/// location of its head.
pub struct MachineView {
    pub rules: Rules,
    pub state: u64,
    pub head: int,
}

/// A simulation of a Turing machine, aka an "a-machine", a concept invented
/// by Alan Turing in 1936. This type is inherently mutable as it represents
/// an actual Turing machine moving around and changing states.
#[derive(Debug, PartialEq)]
pub struct TuringMachine {
    transition_fn: TransitionFn,
    state: u64,
    head_loc: i64,
}

impl Default for TuringMachine {
    /// The machine without any rule, in state 0 with its head at 0.
    fn default() -> (machine: TuringMachine)
        ensures
            machine@ == (MachineView { rules: Rules::empty(), state: 0, head: 0 }),
    {
        TuringMachine { transition_fn: TransitionFn::default(), state: 0, head_loc: 0 }
    }
}

impl Clone for TuringMachine {
    fn clone(&self) -> (copy: TuringMachine)
        ensures
            copy@ == self@,
    {
        TuringMachine {
            transition_fn: self.transition_fn.clone(),
            state: self.state,
            head_loc: self.head_loc,
        }
    }
}

impl View for TuringMachine {
    type V = MachineView;

    closed spec fn view(&self) -> MachineView {
        MachineView { rules: self.transition_fn@, state: self.state, head: self.head_loc as int }
    }
}

impl TuringMachine {
    /// The configuration of `self` on a tape that holds `tape`.
    pub open spec fn config(&self, tape: Map<int, u64>) -> Config {
        Config { state: self@.state, head: self@.head, tape }
    }

    /// Constructs a new Turing machine from the specified transition
    /// function. Initial state and head location are always 0.
    pub fn new(transition_fn: TransitionFn) -> (machine: TuringMachine)
        ensures
            machine@ == (MachineView { rules: transition_fn@, state: 0, head: 0 }),
    {
        TuringMachine { transition_fn, state: 0, head_loc: 0 }
    }

    /// Returns the transition function of `self`.
    pub fn transition_fn(&self) -> (transition_fn: &TransitionFn)
        ensures
            transition_fn@ == self@.rules,
    {
        &self.transition_fn
    }

    /// Returns the current state of `self`.
    pub fn state(&self) -> (state: u64)
        ensures
            state == self@.state,
    {
        self.state
    }

    /// Returns the current head location of `self`.
    pub fn head_loc(&self) -> (head_loc: i64)
        ensures
            head_loc == self@.head,
    {
        self.head_loc
    }

    /// Resets the state and head location of `self` to their initial values
    /// of 0.
    pub fn reset(&mut self)
        ensures
            final(self)@ == (MachineView { rules: old(self)@.rules, state: 0, head: 0 }),
    {
        self.state = 0;
        self.head_loc = 0;
    }

    /// Applies one step to `self` and `tape` and returns the rule applied,
    /// or leaves both as they are and returns `None` where no step can be
    /// applied.
    pub fn step(&mut self, tape: &mut Tape) -> (applied: Option<Action>)
        ensures
            final(self)@.rules == old(self)@.rules,
            applied is Some <==> can_step(old(self)@.rules, old(self).config(old(tape)@)),
            applied matches Some(action) ==> {
                &&& action == action_in(old(self)@.rules, old(self).config(old(tape)@))
                &&& final(self).config(final(tape)@) == apply(
                    old(self).config(old(tape)@),
                    action,
                )
            },
            applied is None ==> *final(self) == *old(self) && *final(tape) == *old(tape),
    {
        let head = self.head_loc;
        if !is_on_tape(head) {
            return None;
        }
        let symbol = tape.symbol_at_n(head);
        match self.transition_fn.run(self.state, symbol) {
            Some(action) => {
                self.state = action.0;
                tape.write(head, action.1);
                self.head_loc = if action.2 {
                    head + 1
                } else {
                    head - 1
                };
                Some(action)
            },
            None => None,
        }
    }

    /// Runs `self`, changing its state and moving its head while writing to
    /// the specified tape, until no step can be applied. Whether that
    /// happens lies with the caller.
    pub fn run(&mut self, tape: &mut Tape)
        requires
            halts(old(self)@.rules, old(self).config(old(tape)@)),
        ensures
            final(self)@.rules == old(self)@.rules,
            final(self).config(final(tape)@) == run_steps(
                old(self)@.rules,
                old(self).config(old(tape)@),
                halting_steps(old(self)@.rules, old(self).config(old(tape)@)),
            ),
            !can_step(final(self)@.rules, final(self).config(final(tape)@)),
    {
        let ghost rules = self@.rules;
        let ghost c = self.config(tape@);
        let _ = self.drive(tape, HaltSetting::NoForcedHalt, false);
        proof {
            let k = choose|k: nat|
                HaltSetting::NoForcedHalt.may_end_after(rules, c, k) && self.config(tape@)
                    == #[trigger] run_steps(rules, c, k);
            lemma_end_of_run(HaltSetting::NoForcedHalt, rules, c, k);
        }
    }

    /// Runs `self`, changing its state and moving its head while writing to
    /// the specified tape, until no step can be applied. Returns a
    /// `Recording` of the process that contains all steps and can be played
    /// back.
    pub fn run_and_record(&mut self, tape: &mut Tape) -> (recording: Recording)
        requires
            halts(old(self)@.rules, old(self).config(old(tape)@)),
        ensures
            final(self)@.rules == old(self)@.rules,
            final(self).config(final(tape)@) == run_steps(
                old(self)@.rules,
                old(self).config(old(tape)@),
                halting_steps(old(self)@.rules, old(self).config(old(tape)@)),
            ),
            !can_step(final(self)@.rules, final(self).config(final(tape)@)),
            recording.start() == old(self).config(old(tape)@),
            recording.steps@ == trace(
                old(self)@.rules,
                old(self).config(old(tape)@),
                halting_steps(old(self)@.rules, old(self).config(old(tape)@)),
            ),
            replayable(recording.start(), recording.steps@),
            replay(recording.start(), recording.steps@) == final(self).config(final(tape)@),
    {
        let input = tape.clone();
        let init_state = self.state;
        let init_head_loc = self.head_loc;
        let ghost rules = self@.rules;
        let ghost c = self.config(tape@);
        let steps = self.drive(tape, HaltSetting::NoForcedHalt, true);
        proof {
            let k = choose|k: nat|
                HaltSetting::NoForcedHalt.may_end_after(rules, c, k) && self.config(tape@)
                    == #[trigger] run_steps(rules, c, k) && steps@ == trace(rules, c, k);
            lemma_end_of_run(HaltSetting::NoForcedHalt, rules, c, k);
            lemma_replay_matches_run(rules, c, k);
        }
        Recording { input, init_state, init_head_loc, steps }
    }

    /// Runs `self`, changing its state and moving its head while writing to
    /// the specified tape. Takes in a `HaltSetting` that describes when the
    /// machine should be forcibly halted.
    ///
    /// The run ends before a step, never within one: where no step can be
    /// applied, where as many steps as allowed were applied, or where the
    /// clock, read before each step, says that the time allowed is used up.
    /// What the clock says is open, so of a run bounded by time the
    /// contract only says that it applied steps of the machine.
    pub fn run_with_halt_setting(&mut self, tape: &mut Tape, halt_setting: HaltSetting)
        requires
            halt_setting is NoForcedHalt ==> halts(
                old(self)@.rules,
                old(self).config(old(tape)@),
            ),
        ensures
            final(self)@.rules == old(self)@.rules,
            match halt_setting {
                HaltSetting::NoForcedHalt => final(self).config(final(tape)@) == run_steps(
                    old(self)@.rules,
                    old(self).config(old(tape)@),
                    halting_steps(old(self)@.rules, old(self).config(old(tape)@)),
                ),
                HaltSetting::AfterSteps(max_steps) => final(self).config(final(tape)@)
                    == run_steps(
                    old(self)@.rules,
                    old(self).config(old(tape)@),
                    max_steps as nat,
                ),
                HaltSetting::AfterDuration(_) => exists|k: nat|
                    final(self).config(final(tape)@) == #[trigger] run_steps(
                        old(self)@.rules,
                        old(self).config(old(tape)@),
                        k,
                    ),
            },
    {
        let ghost rules = self@.rules;
        let ghost c = self.config(tape@);
        let _ = self.drive(tape, halt_setting, false);
        proof {
            let k = choose|k: nat|
                halt_setting.may_end_after(rules, c, k) && self.config(tape@)
                    == #[trigger] run_steps(rules, c, k);
            lemma_end_of_run(halt_setting, rules, c, k);
        }
    }

    /// Runs `self`, changing its state and moving its head while writing to
    /// the specified tape. Takes in a `HaltSetting` that describes when the
    /// machine should be forcibly halted. Returns a `Recording` of the
    /// process that contains all steps and can be played back.
    pub fn run_with_halt_setting_and_record(
        &mut self,
        tape: &mut Tape,
        halt_setting: HaltSetting,
    ) -> (recording: Recording)
        requires
            halt_setting is NoForcedHalt ==> halts(
                old(self)@.rules,
                old(self).config(old(tape)@),
            ),
        ensures
            final(self)@.rules == old(self)@.rules,
            recording.start() == old(self).config(old(tape)@),
            replayable(recording.start(), recording.steps@),
            replay(recording.start(), recording.steps@) == final(self).config(final(tape)@),
            match halt_setting {
                HaltSetting::NoForcedHalt => {
                    &&& final(self).config(final(tape)@) == run_steps(
                        old(self)@.rules,
                        old(self).config(old(tape)@),
                        halting_steps(old(self)@.rules, old(self).config(old(tape)@)),
                    )
                    &&& recording.steps@ == trace(
                        old(self)@.rules,
                        old(self).config(old(tape)@),
                        halting_steps(old(self)@.rules, old(self).config(old(tape)@)),
                    )
                },
                HaltSetting::AfterSteps(max_steps) => {
                    &&& final(self).config(final(tape)@) == run_steps(
                        old(self)@.rules,
                        old(self).config(old(tape)@),
                        max_steps as nat,
                    )
                    &&& recording.steps@ == trace(
                        old(self)@.rules,
                        old(self).config(old(tape)@),
                        max_steps as nat,
                    )
                },
                HaltSetting::AfterDuration(_) => exists|k: nat|
                    {
                        &&& final(self).config(final(tape)@) == #[trigger] run_steps(
                            old(self)@.rules,
                            old(self).config(old(tape)@),
                            k,
                        )
                        &&& recording.steps@ == trace(
                            old(self)@.rules,
                            old(self).config(old(tape)@),
                            k,
                        )
                    },
            },
    {
        let input = tape.clone();
        let init_state = self.state;
        let init_head_loc = self.head_loc;
        let ghost rules = self@.rules;
        let ghost c = self.config(tape@);
        let steps = self.drive(tape, halt_setting, true);
        proof {
            let k = choose|k: nat|
                halt_setting.may_end_after(rules, c, k) && self.config(tape@)
                    == #[trigger] run_steps(rules, c, k) && steps@ == trace(rules, c, k);
            lemma_end_of_run(halt_setting, rules, c, k);
            lemma_replay_matches_run(rules, c, k);
        }
        Recording { input, init_state, init_head_loc, steps }
    }

    /// Runs every machine with `num_states` states and `num_symbols`
    /// symbols from a blank tape under `halt_setting`, and counts those
    /// that end in the state `num_states`, for which no machine has a rule,
    /// and those that end in another state.
    pub fn chaitin_counts(
        num_states: usize,
        num_symbols: usize,
        halt_setting: HaltSetting,
    ) -> (counts: (usize, usize))
        requires
            halt_setting is NoForcedHalt ==> forall|f: int|
                0 <= f < enumerated(num_states as nat, num_symbols as nat).len() ==> halts(
                    #[trigger] enumerated(num_states as nat, num_symbols as nat)[f],
                    blank_start(),
                ),
        ensures
            counts.0 + counts.1 == enumerated(num_states as nat, num_symbols as nat).len(),
            !(halt_setting is AfterDuration) ==> counts.0 == count_ending_in(
                enumerated(num_states as nat, num_symbols as nat),
                halt_setting,
                num_states as u64,
            ),
    {
        let ghost machines = enumerated(num_states as nat, num_symbols as nat);
        let trans_fns = TransitionFn::enumerate(num_states, num_symbols);
        let mut halted: usize = 0;
        let mut undecided: usize = 0;
        let mut t: usize = 0;
        while t < trans_fns.len()
            invariant
                t <= trans_fns.len(),
                machines == enumerated(num_states as nat, num_symbols as nat),
                trans_fns.len() == machines.len(),
                forall|f: int|
                    0 <= f < trans_fns.len() ==> (#[trigger] trans_fns[f])@ == machines[f],
                halt_setting is NoForcedHalt ==> forall|f: int|
                    0 <= f < machines.len() ==> halts(#[trigger] machines[f], blank_start()),
                halted + undecided == t,
                !(halt_setting is AfterDuration) ==> halted == count_ending_in(
                    machines.take(t as int),
                    halt_setting,
                    num_states as u64,
                ),
            decreases trans_fns.len() - t,
        {
            let mut tm = TuringMachine::new(trans_fns[t].clone());
            let mut tape = Tape::default();
            assert(tm.config(tape@) == blank_start());
            assert(tm@.rules == machines[t as int]);
            tm.run_with_halt_setting(&mut tape, halt_setting);
            proof {
                assert(machines.take(t + 1).drop_last() =~= machines.take(t as int));
            }
            if tm.state() == num_states as u64 {
                halted += 1;
            } else {
                undecided += 1;
            }
            t += 1;
        }
        proof {
            assert(machines.take(t as int) =~= machines);
        }
        (halted, undecided)
    }

    /// The loop behind every run: applies steps until none can be applied
    /// or `halt_setting` stops the run, and returns the rules applied where
    /// `record` asks for them. Steps are counted where the setting bounds
    /// the run; a run bounded by time ends as well once the counter is
    /// used up, after `u64::MAX` steps.
    fn drive(
        &mut self,
        tape: &mut Tape,
        halt_setting: HaltSetting,
        record: bool,
    ) -> (steps: Vec<Action>)
        requires
            halt_setting is NoForcedHalt ==> halts(
                old(self)@.rules,
                old(self).config(old(tape)@),
            ),
        ensures
            final(self)@.rules == old(self)@.rules,
            !record ==> steps@.len() == 0,
            exists|k: nat|
                {
                    &&& halt_setting.may_end_after(
                        old(self)@.rules,
                        old(self).config(old(tape)@),
                        k,
                    )
                    &&& final(self).config(final(tape)@) == #[trigger] run_steps(
                        old(self)@.rules,
                        old(self).config(old(tape)@),
                        k,
                    )
                    &&& record ==> steps@ == trace(
                        old(self)@.rules,
                        old(self).config(old(tape)@),
                        k,
                    )
                },
    {
        let ghost rules = self@.rules;
        let ghost c0 = self.config(tape@);
        let ghost bound: nat = match halt_setting {
            HaltSetting::NoForcedHalt => halting_steps(rules, c0),
            HaltSetting::AfterSteps(max_steps) => max_steps as nat,
            HaltSetting::AfterDuration(_) => u64::MAX as nat,
        };
        let ghost mut done: nat = 0;
        let start = Instant::now();
        let mut count: u64 = 0;
        let mut steps: Vec<Action> = Vec::new();
        loop
            invariant_except_break
                done <= bound,
                !(halt_setting is NoForcedHalt) ==> count == done,
            invariant
                halt_setting is NoForcedHalt ==> count == 0,
                self@.rules == rules,
                self.config(tape@) == run_steps(rules, c0, done),
                record ==> steps@ == trace(rules, c0, done),
                !record ==> steps@.len() == 0,
                halt_setting is NoForcedHalt ==> !can_step(rules, run_steps(rules, c0, bound)),
                bound == match halt_setting {
                    HaltSetting::NoForcedHalt => halting_steps(rules, c0),
                    HaltSetting::AfterSteps(max_steps) => max_steps as nat,
                    HaltSetting::AfterDuration(_) => u64::MAX as nat,
                },
            ensures
                halt_setting.may_end_after(rules, c0, done),
            decreases bound - done,
        {
            let time_is_up = match halt_setting {
                HaltSetting::AfterDuration(allowed) => start.elapsed().as_nanos()
                    >= allowed.as_nanos(),
                _ => false,
            };
            if count == u64::MAX || halt_setting.forces_halt(count, time_is_up) {
                break ;
            }
            match self.step(tape) {
                Some(action) => {
                    proof {
                        lemma_one_more_step(rules, c0, done);
                        if halt_setting is NoForcedHalt && done >= bound {
                            lemma_halted_run_stays(rules, c0, bound, done);
                        }
                        done = done + 1;
                    }
                    if record {
                        steps.push(action);
                    }
                    match halt_setting {
                        HaltSetting::NoForcedHalt => {},
                        _ => {
                            count += 1;
                        },
                    }
                },
                None => {
                    break ;
                },
            }
        }
        steps
    }
}

} // verus!
