use std::time::Duration;
use turing_machine::prelude::{HaltSetting, Recording, Tape, TransitionFn, TuringMachine};
use turing_machine::turing_machine::is_on_tape;

#[test]
fn test_reset() {
    let trans_fn = TransitionFn::new(&vec![
        ((0, 0), (1, 312, true)),
        ((1, 0), (2, 0, false)),
        ((2, 0), (7, 4, true)),
        ((3, 0), (4, 0, false)),
        ((4, 0), (5, 2, false)),
        ((2, 312), (3, 999, false)),
        ((0, 999), (6, 999, false)),
        ((1, 2), (2, 2, false)),
        ((3, 2), (4, 4, false)),
        ((5, 999), (8, 73, false)),
        ((6, 0), (1, 0, false)),
    ]);

    let mut machine = TuringMachine::new(trans_fn);
    let mut tape = Tape::default();

    machine.run(&mut tape);

    assert_eq!(tape.symbols(), [2, 0, 999]);

    machine.reset(); // resets head location and state
    machine.run(&mut tape);

    assert_eq!(tape.symbols(), [4, 2, 0, 999]);
}

#[test]
fn turing_machine_test_run() {
    let trans_fn = TransitionFn::new(&vec![
        ((0, 0), (10, 10, false)),
        ((10, 0), (9, 9, false)),
        ((9, 0), (8, 8, false)),
        ((8, 0), (7, 7, false)),
        ((7, 0), (6, 6, false)),
        ((6, 0), (5, 5, false)),
        ((5, 0), (4, 4, false)),
        ((4, 0), (3, 3, false)),
        ((3, 0), (2, 2, false)),
        ((2, 0), (1, 1, false)),
    ]);

    let mut machine = TuringMachine::new(trans_fn);
    let mut tape = Tape::default();

    machine.run(&mut tape);

    assert_eq!(tape.symbols(), [1, 2, 3, 4, 5, 6, 7, 8, 9, 10]);
}

#[test]
fn test_run_and_record() {
    let trans_fn = TransitionFn::new(&vec![
        ((0, 0), (1, 1, true)),
        ((1, 0), (1, 4, false)),
        ((1, 1), (2, 1, false)),
        ((2, 0), (3, 3, true)),
    ]);

    let mut machine = TuringMachine::new(trans_fn);
    let tape = Tape::new(vec![0, 0, 1, 5, 9]);
    let mut tape2 = tape.clone();

    let record = machine.run_and_record(&mut tape2);

    assert_eq!(tape2.symbols(), vec![3, 1, 4, 1, 5, 9]);
    assert_eq!(record.input, tape);
    assert_eq!(record.steps, [(1, 1, true), (1, 4, false), (2, 1, false), (3, 3, true)]);
}

#[test]
fn test_run_with_halt_setting() {
    let trans_fn = TransitionFn::new(&vec![
        ((0, 0), (1, 1, true)),
        ((1, 0), (2, 2, true)),
        ((2, 0), (0, 3, true)),
    ]);

    let mut machine = TuringMachine::new(trans_fn);
    let mut tape = Tape::default();
    machine.run_with_halt_setting(&mut tape, HaltSetting::AfterSteps(7));
    assert_eq!(tape.symbols(), [1, 2, 3, 1, 2, 3, 1]);

    machine.reset();
    tape = Tape::default();
    machine.run_with_halt_setting(&mut tape, HaltSetting::AfterSteps(1));
    assert_eq!(tape.symbols(), [1]);

    machine.reset();
    tape = Tape::default();
    machine.run_with_halt_setting(&mut tape, HaltSetting::AfterSteps(0));
    assert_eq!(tape.symbols(), []);

    machine.reset();
    tape = Tape::default();
    machine.run_with_halt_setting(
        &mut tape,
        HaltSetting::AfterDuration(Duration::from_micros(1000)),
    );
}

#[test]
fn test_run_with_halt_setting_and_record() {
    let trans_fn = TransitionFn::new(&vec![
        ((0, 0), (1, 1, true)),
        ((1, 0), (0, 1, false)),
        ((0, 1), (1, 2, true)),
        ((1, 1), (0, 2, false)),
        ((0, 2), (1, 3, true)),
        ((1, 2), (0, 3, false)),
        ((0, 3), (1, 1, true)),
        ((1, 3), (0, 1, false)),
    ]);

    let mut machine = TuringMachine::new(trans_fn);
    let tape = Tape::default();
    let mut tape2 = tape.clone();

    let record = machine.run_with_halt_setting_and_record(&mut tape2, HaltSetting::AfterSteps(5));

    assert_eq!(tape2.symbols(), vec![3, 2]);
    assert_eq!(record.input, tape);
    assert_eq!(
        record.steps,
        [(1, 1, true), (0, 1, false), (1, 2, true), (0, 2, false), (1, 3, true)]
    );
}

#[test]
fn recording_test() {
    let trans_fn = TransitionFn::new(&vec![
        ((0, 0), (1, 1, true)),
        ((1, 0), (0, 1, false)),
        ((0, 1), (1, 2, true)),
        ((1, 1), (0, 2, false)),
        ((0, 2), (1, 3, true)),
        ((1, 2), (0, 3, false)),
        ((0, 3), (1, 1, true)),
        ((1, 3), (0, 1, false)),
    ]);

    let mut machine = TuringMachine::new(trans_fn);
    let mut tape = Tape::default();

    let record = machine.run_with_halt_setting_and_record(&mut tape, HaltSetting::AfterSteps(20));

    assert_eq!(record.steps.len(), 20);
    let (replayed, state, head_loc) = record.replay().unwrap();
    assert_eq!(replayed.raw_symbols(), tape.raw_symbols());
    assert_eq!(state, machine.state());
    assert_eq!(head_loc, machine.head_loc());
}

fn two_rules() -> TransitionFn {
    TransitionFn::new(&vec![((0, 0), (1, 1, true)), ((1, 0), (0, 1, false))])
}

#[test]
fn step_bounded_run_of_the_two_rule_machine() {
    let mut machine = TuringMachine::new(two_rules());
    let mut tape = Tape::default();
    machine.run_with_halt_setting(&mut tape, HaltSetting::AfterSteps(0));
    assert!(tape.raw_symbols().is_empty());
    assert_eq!(tape.symbols(), Vec::<u64>::new());
    assert_eq!((machine.state(), machine.head_loc()), (0, 0));

    machine.run_with_halt_setting(&mut tape, HaltSetting::AfterSteps(1));
    assert_eq!(tape.symbols(), vec![1]);
    assert_eq!((machine.state(), machine.head_loc()), (1, 1));

    machine.reset();
    let mut tape = Tape::default();
    machine.run_with_halt_setting(&mut tape, HaltSetting::AfterSteps(7));
    assert_eq!(tape.symbols(), vec![1, 1]);
    assert_eq!((machine.state(), machine.head_loc()), (0, 0));
}

#[test]
fn natural_halt_of_the_four_rule_machine() {
    let trans_fn = TransitionFn::new(&vec![
        ((0, 0), (1, 1, true)),
        ((1, 0), (0, 1, false)),
        ((0, 1), (1, 2, true)),
        ((1, 1), (0, 2, false)),
    ]);
    let mut machine = TuringMachine::new(trans_fn);
    let mut tape = Tape::default();
    machine.run(&mut tape);
    assert_eq!(tape.symbols(), vec![2, 2]);
    assert_eq!(tape.raw_symbols(), &vec![2, 0, 2]);
    assert_eq!((machine.state(), machine.head_loc()), (0, 0));
    assert_eq!(machine.transition_fn().run(0, 2), None);

    let mut again = TuringMachine::new(machine.transition_fn().clone());
    let mut tape = Tape::default();
    let record = again.run_with_halt_setting_and_record(&mut tape, HaltSetting::NoForcedHalt);
    assert_eq!(record.steps, [(1, 1, true), (0, 1, false), (1, 2, true), (0, 2, false)]);
    assert_eq!(tape.symbols(), vec![2, 2]);
}

#[test]
fn step_applies_one_rule_or_none() {
    let mut machine = TuringMachine::new(two_rules());
    let mut tape = Tape::default();
    assert_eq!(machine.step(&mut tape), Some((1, 1, true)));
    assert_eq!((machine.state(), machine.head_loc()), (1, 1));
    assert_eq!(tape.raw_symbols(), &vec![1]);
    assert_eq!(machine.step(&mut tape), Some((0, 1, false)));
    assert_eq!((machine.state(), machine.head_loc()), (0, 0));
    assert_eq!(tape.raw_symbols(), &vec![1, 0, 1]);
    assert_eq!(machine.step(&mut tape), None);
    assert_eq!((machine.state(), machine.head_loc()), (0, 0));
    assert_eq!(tape.raw_symbols(), &vec![1, 0, 1]);
}

#[test]
fn new_machine_starts_at_zero() {
    let machine = TuringMachine::new(two_rules());
    assert_eq!(machine.state(), 0);
    assert_eq!(machine.head_loc(), 0);
    assert_eq!(machine.transition_fn(), &two_rules());
    let plain = TuringMachine::default();
    assert_eq!((plain.state(), plain.head_loc()), (0, 0));
    assert!(plain.transition_fn().state_table().is_empty());
    assert_eq!(machine.clone(), machine);
}

#[test]
fn reset_keeps_rules_and_tape() {
    let mut machine = TuringMachine::new(two_rules());
    let mut tape = Tape::default();
    machine.run_with_halt_setting(&mut tape, HaltSetting::AfterSteps(1));
    machine.reset();
    assert_eq!((machine.state(), machine.head_loc()), (0, 0));
    assert_eq!(machine.transition_fn(), &two_rules());
    assert_eq!(tape.symbols(), vec![1]);
}

#[test]
fn run_and_record_agree_on_the_outcome() {
    let trans_fn = TransitionFn::new(&vec![
        ((0, 0), (1, 1, true)),
        ((1, 0), (2, 2, false)),
        ((2, 1), (0, 3, false)),
    ]);
    for setting in [
        HaltSetting::AfterSteps(0),
        HaltSetting::AfterSteps(2),
        HaltSetting::AfterSteps(50),
        HaltSetting::NoForcedHalt,
    ] {
        let start = Tape::new(vec![0, 0, 7]);
        let mut plain = TuringMachine::new(trans_fn.clone());
        let mut plain_tape = start.clone();
        plain.run_with_halt_setting(&mut plain_tape, setting);

        let mut recorded = TuringMachine::new(trans_fn.clone());
        let mut recorded_tape = start.clone();
        let record = recorded.run_with_halt_setting_and_record(&mut recorded_tape, setting);

        assert_eq!(plain_tape.raw_symbols(), recorded_tape.raw_symbols());
        assert_eq!(plain, recorded);
        assert_eq!(record.input.raw_symbols(), start.raw_symbols());
        assert_eq!((record.init_state, record.init_head_loc), (0, 0));

        let (replayed, state, head_loc) = record.replay().unwrap();
        assert_eq!(replayed.raw_symbols(), plain_tape.raw_symbols());
        assert_eq!(state, plain.state());
        assert_eq!(head_loc, plain.head_loc());
    }
}

#[test]
fn recording_can_be_empty() {
    let mut machine = TuringMachine::new(two_rules());
    let mut tape = Tape::default();
    let record = machine.run_with_halt_setting_and_record(&mut tape, HaltSetting::AfterSteps(0));
    assert!(record.steps.is_empty());
    assert_eq!(record.input, Tape::default());

    let mut stuck = TuringMachine::new(TransitionFn::default());
    let record = stuck.run_and_record(&mut tape);
    assert!(record.steps.is_empty());
    assert_eq!(record, Recording::default());
}

#[test]
fn replay_shows_every_intermediate_configuration() {
    let trans_fn = TransitionFn::new(&vec![
        ((0, 0), (1, 5, false)),
        ((1, 0), (2, 6, false)),
        ((2, 0), (3, 7, true)),
        ((3, 6), (4, 8, true)),
    ]);
    let mut machine = TuringMachine::new(trans_fn.clone());
    let mut tape = Tape::default();
    let record = machine.run_and_record(&mut tape);
    assert_eq!(record.steps.len(), 4);
    for k in 0..=record.steps.len() {
        let prefix = Recording {
            input: record.input.clone(),
            init_state: record.init_state,
            init_head_loc: record.init_head_loc,
            steps: record.steps[..k].to_vec(),
        };
        let mut stepped = TuringMachine::new(trans_fn.clone());
        let mut stepped_tape = Tape::default();
        stepped.run_with_halt_setting(&mut stepped_tape, HaltSetting::AfterSteps(k));
        let (replayed, state, head_loc) = prefix.replay().unwrap();
        assert_eq!(replayed.raw_symbols(), stepped_tape.raw_symbols());
        assert_eq!((state, head_loc), (stepped.state(), stepped.head_loc()));
    }
    assert_eq!(tape.symbols(), vec![7, 8, 5]);
}

#[test]
fn replay_refuses_a_step_off_the_tape() {
    let record = Recording {
        input: Tape::default(),
        init_state: 0,
        init_head_loc: i64::MAX,
        steps: vec![(1, 1, true)],
    };
    assert!(record.replay().is_none());
    let nothing_to_do = Recording {
        input: Tape::default(),
        init_state: 3,
        init_head_loc: i64::MAX,
        steps: vec![],
    };
    let (tape, state, head_loc) = nothing_to_do.replay().unwrap();
    assert_eq!((state, head_loc), (3, i64::MAX));
    assert_eq!(tape, Tape::default());
}

#[test]
fn the_head_is_on_the_tape_between_the_ends() {
    assert!(is_on_tape(0));
    assert!(is_on_tape(-1));
    assert!(is_on_tape(1_000_000));
    assert!(!is_on_tape(i64::MAX));
    assert!(!is_on_tape(i64::MIN));
}

#[test]
fn time_bounded_run_applies_only_steps_of_the_machine() {
    let trans_fn = TransitionFn::new(&vec![((0, 0), (1, 1, true)), ((1, 0), (0, 2, true))]);
    let mut machine = TuringMachine::new(trans_fn);
    let mut tape = Tape::default();
    let record = machine.run_with_halt_setting_and_record(
        &mut tape,
        HaltSetting::AfterDuration(Duration::from_millis(2)),
    );
    let steps = record.steps.len();
    assert_eq!(machine.head_loc(), steps as i64);
    assert_eq!(machine.state(), (steps % 2) as u64);
    for (i, step) in record.steps.iter().enumerate() {
        assert_eq!(*step, if i % 2 == 0 { (1, 1, true) } else { (0, 2, true) });
        assert_eq!(tape.symbol_at_n(i as i64), if i % 2 == 0 { 1 } else { 2 });
    }
    assert_eq!(tape.symbol_at_n(steps as i64), 0);
}

#[test]
fn time_bounded_run_with_no_time_applies_nothing() {
    let mut machine = TuringMachine::new(two_rules());
    let mut tape = Tape::default();
    machine.run_with_halt_setting(&mut tape, HaltSetting::AfterDuration(Duration::ZERO));
    assert_eq!((machine.state(), machine.head_loc()), (0, 0));
    assert!(tape.raw_symbols().is_empty());
}

#[test]
fn time_bounded_run_ends_where_the_machine_halts() {
    let mut machine = TuringMachine::new(two_rules());
    let mut tape = Tape::default();
    machine.run_with_halt_setting(&mut tape, HaltSetting::AfterDuration(Duration::from_secs(5)));
    assert_eq!(tape.symbols(), vec![1, 1]);
    assert_eq!((machine.state(), machine.head_loc()), (0, 0));
}

#[test]
fn halt_setting_decides_on_steps_and_time() {
    assert!(!HaltSetting::NoForcedHalt.forces_halt(u64::MAX, true));
    assert!(!HaltSetting::AfterSteps(3).forces_halt(2, true));
    assert!(HaltSetting::AfterSteps(3).forces_halt(3, false));
    assert!(HaltSetting::AfterSteps(3).forces_halt(4, false));
    assert!(HaltSetting::AfterSteps(0).forces_halt(0, false));
    let timed = HaltSetting::AfterDuration(Duration::from_secs(1));
    assert!(timed.forces_halt(0, true));
    assert!(!timed.forces_halt(1000, false));
    assert_eq!(HaltSetting::default(), HaltSetting::NoForcedHalt);
}

#[test]
fn chaitin_counts_of_the_smallest_machines() {
    // one state, one symbol: the rule for (0, 0) leads to state 0 or to state 1
    assert_eq!(TuringMachine::chaitin_counts(1, 1, HaltSetting::AfterSteps(10)), (2, 2));
    assert_eq!(TuringMachine::chaitin_counts(1, 1, HaltSetting::AfterSteps(0)), (0, 4));
    // no keys: the one machine has no rule and stays in state 0
    assert_eq!(TuringMachine::chaitin_counts(0, 1, HaltSetting::NoForcedHalt), (1, 0));
    assert_eq!(TuringMachine::chaitin_counts(2, 0, HaltSetting::NoForcedHalt), (0, 1));
    // one state, two symbols: a machine that stays in state 0 moves on to a
    // blank cell each time, so only the rule for (0, 0) decides
    assert_eq!(TuringMachine::chaitin_counts(1, 2, HaltSetting::AfterSteps(20)), (32, 32));
}
