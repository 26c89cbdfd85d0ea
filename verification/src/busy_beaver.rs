//! Two small machines on a blank tape, recorded.

use crate::recording::Recording;
use crate::tape::Tape;
use crate::transition_fn::{
    lemma_lookup_of_listed_rule, lemma_lookup_of_unlisted_key, table_map, Action, Rule,
    TransitionFn,
};
use crate::turing_machine::{
    action_in, apply, blank_start, can_step, lemma_halted_run_stays, run_steps, trace, Config,
    HaltSetting, TuringMachine,
};
use vstd::prelude::*;

verus! {

/// The state table of the two-state busy beaver.
pub open spec fn busy_beaver_2_table() -> Seq<Rule> {
    seq![((0, 0), (1, 1, true)), ((1, 0), (0, 1, false)), ((0, 1), (1, 1, false))]
}

/// The state table of the three-state busy beaver.
pub open spec fn busy_beaver_3_table() -> Seq<Rule> {
    seq![
        ((0, 0), (1, 1, true)),
        ((0, 1), (2, 1, true)),
        ((1, 0), (2, 1, false)),
        ((1, 1), (2, 1, false)),
        ((2, 0), (3, 1, false)),
        ((2, 1), (1, 1, true)),
    ]
}

/// The rules that the two-state busy beaver applies on a blank tape: it
/// halts after five steps with four ones on the tape.
pub open spec fn busy_beaver_2_steps() -> Seq<Action> {
    seq![(1, 1, true), (0, 1, false), (1, 1, false), (0, 1, false), (1, 1, true)]
}

/// The two-state busy beaver halts on a blank tape after the steps of
/// [`busy_beaver_2_steps`], however many more it is allowed.
pub proof fn lemma_busy_beaver_2_halts(n: nat)
    requires
        n >= 5,
    ensures
        trace(table_map(busy_beaver_2_table()), blank_start(), n) == busy_beaver_2_steps(),
        !can_step(
            table_map(busy_beaver_2_table()),
            run_steps(table_map(busy_beaver_2_table()), blank_start(), n),
        ),
{
    let table = busy_beaver_2_table();
    let rules = table_map(table);
    let c0 = blank_start();
    lemma_lookup_of_listed_rule(table, 0);
    lemma_lookup_of_listed_rule(table, 1);
    lemma_lookup_of_listed_rule(table, 2);
    lemma_lookup_of_unlisted_key(table, (1, 1));
    reveal_with_fuel(run_steps, 7);
    reveal_with_fuel(trace, 7);
    let c1 = run_steps(rules, c0, 1);
    assert(c1.state == 1 && c1.head == 1 && c1.tape[1] == 0);
    let c2 = run_steps(rules, c0, 2);
    assert(c2.state == 0 && c2.head == 0 && c2.tape[0] == 1);
    let c3 = run_steps(rules, c0, 3);
    assert(c3.state == 1 && c3.head == -1 && c3.tape[-1] == 0);
    let c4 = run_steps(rules, c0, 4);
    assert(c4.state == 0 && c4.head == -2 && c4.tape[-2] == 0);
    let c5 = run_steps(rules, c0, 5);
    assert(c5.state == 1 && c5.head == -1 && c5.tape[-1] == 1);
    assert(!can_step(rules, c5));
    assert(trace(rules, c0, 5) =~= busy_beaver_2_steps());
    lemma_halted_run_stays(rules, c0, 5, n);
}

/// BB-2: records the two-state busy beaver on a blank tape, for at most
/// 100 steps.
pub fn busy_beaver_2_state() -> (recording: Recording)
    ensures
        recording.start() == blank_start(),
        recording.steps@ == busy_beaver_2_steps(),
{
    proof {
        lemma_busy_beaver_2_halts(100);
    }
    let state_table: Vec<Rule> = vec![
        ((0, 0), (1, 1, true)),
        ((1, 0), (0, 1, false)),
        ((0, 1), (1, 1, false)),
    ];
    assert(state_table@ =~= busy_beaver_2_table());
    let trans_fn = TransitionFn::new(&state_table);
    let mut machine = TuringMachine::new(trans_fn);
    let mut tape = Tape::default();
    machine.run_with_halt_setting_and_record(&mut tape, HaltSetting::AfterSteps(100))
}

/// The first `n` rules that the table of the three-state busy beaver
/// applies on a blank tape: after its first step it moves between the
/// cells 0 and 1 for ever, to the right from state 2 and to the left from
/// state 1.
pub open spec fn busy_beaver_3_steps(n: nat) -> Seq<Action> {
    Seq::new(
        n,
        |i: int|
            if i % 2 == 0 {
                (1u64, 1u64, true)
            } else {
                (2u64, 1u64, false)
            },
    )
}

/// With ones in the cells 0 and 1, the table of the three-state busy beaver
/// goes right from the cell 0 in state 2 and left from the cell 1 in
/// state 1, and so on.
proof fn lemma_busy_beaver_3_cycle(c: Config, n: nat)
    requires
        c.tape[0] == 1,
        c.tape[1] == 1,
        (c.state == 2 && c.head == 0) || (c.state == 1 && c.head == 1),
    ensures
        trace(table_map(busy_beaver_3_table()), c, n) == Seq::new(
            n,
            |i: int|
                if (i % 2 == 0) == (c.state == 2) {
                    (1u64, 1u64, true)
                } else {
                    (2u64, 1u64, false)
                },
        ),
    decreases n,
{
    let table = busy_beaver_3_table();
    let rules = table_map(table);
    let expected = Seq::new(
        n,
        |i: int|
            if (i % 2 == 0) == (c.state == 2) {
                (1u64, 1u64, true)
            } else {
                (2u64, 1u64, false)
            },
    );
    if n == 0 {
        assert(trace(rules, c, n) =~= expected);
    } else {
        lemma_lookup_of_listed_rule(table, 3);
        lemma_lookup_of_listed_rule(table, 5);
        assert(can_step(rules, c));
        let next = apply(c, action_in(rules, c));
        lemma_busy_beaver_3_cycle(next, (n - 1) as nat);
        assert(trace(rules, c, n) =~= expected);
    }
}

/// The table of the three-state busy beaver applies on a blank tape the
/// rules of [`busy_beaver_3_steps`].
pub proof fn lemma_busy_beaver_3_runs_on(n: nat)
    ensures
        trace(table_map(busy_beaver_3_table()), blank_start(), n) == busy_beaver_3_steps(n),
{
    let table = busy_beaver_3_table();
    let rules = table_map(table);
    let c0 = blank_start();
    lemma_lookup_of_listed_rule(table, 0);
    lemma_lookup_of_listed_rule(table, 2);
    reveal_with_fuel(trace, 3);
    if n >= 2 {
        let c1 = apply(c0, action_in(rules, c0));
        assert(can_step(rules, c1));
        let c2 = apply(c1, action_in(rules, c1));
        lemma_busy_beaver_3_cycle(c2, (n - 2) as nat);
    }
    assert(trace(rules, c0, n) =~= busy_beaver_3_steps(n));
}

/// BB-3: records the three-state busy beaver on a blank tape, for at most
/// 100 steps.
pub fn busy_beaver_3_state() -> (recording: Recording)
    ensures
        recording.start() == blank_start(),
        recording.steps@ == busy_beaver_3_steps(100),
{
    proof {
        lemma_busy_beaver_3_runs_on(100);
    }
    let state_table: Vec<Rule> = vec![
        ((0, 0), (1, 1, true)),
        ((0, 1), (2, 1, true)),
        ((1, 0), (2, 1, false)),
        ((1, 1), (2, 1, false)),
        ((2, 0), (3, 1, false)),
        ((2, 1), (1, 1, true)),
    ];
    assert(state_table@ =~= busy_beaver_3_table());
    let trans_fn = TransitionFn::new(&state_table);
    let mut machine = TuringMachine::new(trans_fn);
    let mut tape = Tape::default();
    machine.run_with_halt_setting_and_record(&mut tape, HaltSetting::AfterSteps(100))
}

} // verus!
