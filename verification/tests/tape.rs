use turing_machine::tape::{i64_to_idx, idx_to_i64, no_trailing_or_leading_zeros, Tape};

#[test]
fn tape_test_new() {
    let tape = Tape::new(vec![2, 3, 5]);
    assert_eq!(tape.raw_symbols(), &vec![2, 0, 3, 0, 5]);

    let mut written = Tape::default();
    written.write(0, 2);
    written.write(1, 3);
    written.write(2, 5);
    assert_eq!(written, tape);
}

#[test]
fn test_symbols() {
    let mut tape = Tape::new(vec![3, 34343, 1, 0, 25]);
    tape.write(-7, 946);

    assert_eq!(tape.raw_symbols(), &vec![3, 0, 34343, 0, 1, 0, 0, 0, 25, 0, 0, 0, 0, 946]);
    assert_eq!(tape.symbols(), vec![946, 0, 0, 0, 0, 0, 0, 3, 34343, 1, 0, 25]);
}

#[test]
fn test_symbol_at_n() {
    let mut tape = Tape::new(vec![2, 342, 6, 91]);
    tape.write(-1, 55991);

    assert_eq!(tape.symbol_at_n(0), 2);
    assert_eq!(tape.symbol_at_n(1), 342);
    assert_eq!(tape.symbol_at_n(3), 91);
    assert_eq!(tape.symbol_at_n(-1), 55991);
}

#[test]
fn test_symbol() {
    let mut tape = Tape::new(vec![0, 2, 2, 0, 2, 3, 2]);
    tape.write(-1, 0);
    tape.write(-2, 2);
    tape.write(-3, 2);
    tape.write(-4, 12);

    println!("{:?}", tape.raw_symbols());
    assert_eq!(tape.symbol(2), vec![-3, -2, 1, 2, 4, 6]);
}

#[test]
fn test_write() {
    let mut tape = Tape::new(vec![0, 22, 3]);
    tape.write(-2, 73);
    tape.write(59, 12);

    assert_eq!(tape.symbol_at_n(0), 0);
    assert_eq!(tape.symbol_at_n(-2), 73);
    assert_eq!(tape.symbol_at_n(-1), 0);
    assert_eq!(tape.symbol_at_n(-3), 0);
    assert_eq!(tape.symbol_at_n(2), 3);
    assert_eq!(tape.symbol_at_n(32193824), 0);
}

#[test]
fn test_i64_to_idx() {
    assert_eq!(i64_to_idx(-2), 3);
    assert_eq!(i64_to_idx(-1), 1);
    assert_eq!(i64_to_idx(0), 0);
    assert_eq!(i64_to_idx(1), 2);
    assert_eq!(i64_to_idx(2), 4);
}

#[test]
fn test_idx_to_i64() {
    assert_eq!(idx_to_i64(0), 0);
    assert_eq!(idx_to_i64(1), -1);
    assert_eq!(idx_to_i64(2), 1);
    assert_eq!(idx_to_i64(3), -2);
    assert_eq!(idx_to_i64(4), 2);
    assert_eq!(idx_to_i64(5), -3);
    assert_eq!(idx_to_i64(6), 3);
    assert_eq!(idx_to_i64(7), -4);
}

#[test]
fn test_no_trailing_or_leading_zeros() {
    let v = vec![0, 0, 3, 0, 4, 0];
    assert_eq!(no_trailing_or_leading_zeros(&v), vec![3, 0, 4]);
}

#[test]
fn trimming_an_all_blank_or_empty_vector_gives_nothing() {
    assert_eq!(no_trailing_or_leading_zeros(&vec![0, 0, 0]), Vec::<u64>::new());
    assert_eq!(no_trailing_or_leading_zeros(&Vec::new()), Vec::<u64>::new());
    assert_eq!(no_trailing_or_leading_zeros(&vec![7]), vec![7]);
    assert_eq!(no_trailing_or_leading_zeros(&vec![0, 7]), vec![7]);
    assert_eq!(no_trailing_or_leading_zeros(&vec![7, 0]), vec![7]);
}

#[test]
fn index_round_trip_over_a_range() {
    for p in -2000i64..=2000 {
        assert_eq!(idx_to_i64(i64_to_idx(p)), p);
    }
    for idx in 0usize..4000 {
        assert_eq!(i64_to_idx(idx_to_i64(idx)), idx);
    }
}

#[test]
fn index_follows_the_closed_formula() {
    for p in -500i64..=500 {
        let formula = (4 * p.abs() + p.signum() - 1) / 2;
        assert_eq!(i64_to_idx(p) as i64, formula);
    }
}

#[test]
fn index_at_the_ends_of_the_range() {
    assert_eq!(idx_to_i64(usize::MAX), -((usize::MAX / 2) as i64) - 1);
    assert_eq!(idx_to_i64(usize::MAX - 1), (usize::MAX / 2) as i64);
    let last = idx_to_i64(usize::MAX - 1);
    assert_eq!(i64_to_idx(last), usize::MAX - 1);
    assert!(Tape::is_addressable(last - 1));
    assert!(Tape::is_addressable(0));
    assert!(!Tape::is_addressable(idx_to_i64(usize::MAX)));
}

#[test]
fn tapes_equal_up_to_leading_and_trailing_blanks() {
    assert_eq!(Tape::new(vec![23, 1, 0, 49]), Tape::new(vec![23, 1, 0, 49, 0]));
    assert_eq!(Tape::new(vec![0, 0, 23, 1, 0, 49]), Tape::new(vec![23, 1, 0, 49, 0, 0]));
    assert_eq!(Tape::new(vec![]), Tape::new(vec![0, 0, 0]));
    assert_eq!(Tape::default(), Tape::new(vec![0]));
    assert_ne!(Tape::new(vec![23, 1, 0, 49]), Tape::new(vec![23, 1, 49]));
    assert_ne!(Tape::new(vec![1]), Tape::new(vec![]));
}

#[test]
fn equality_goes_by_content_in_location_order() {
    let mut left = Tape::default();
    left.write(0, 1);
    left.write(-1, 2);
    let mut right = Tape::default();
    right.write(-1, 1);
    right.write(1, 2);
    assert_eq!(left.symbols(), vec![2, 1]);
    assert_eq!(right.symbols(), vec![1, 0, 2]);
    assert_ne!(left, right);
}

#[test]
fn write_then_read_returns_the_symbol() {
    let mut tape = Tape::default();
    for p in [-40i64, -3, -1, 0, 1, 2, 77] {
        assert_eq!(tape.symbol_at_n(p), 0);
        tape.write(p, (p + 100) as u64);
        assert_eq!(tape.symbol_at_n(p), (p + 100) as u64);
    }
    for p in [-40i64, -3, -1, 0, 1, 2, 77] {
        assert_eq!(tape.symbol_at_n(p), (p + 100) as u64);
    }
    assert_eq!(tape.symbol_at_n(-41), 0);
    assert_eq!(tape.symbol_at_n(78), 0);
    assert_eq!(tape.symbol_at_n(i64::MAX), 0);
    assert_eq!(tape.symbol_at_n(i64::MIN), 0);
}

#[test]
fn overwriting_keeps_the_backing_length() {
    let mut tape = Tape::new(vec![1, 2, 3]);
    tape.write(1, 9);
    assert_eq!(tape.raw_symbols(), &vec![1, 0, 9, 0, 3]);
    tape.write(-1, 4);
    assert_eq!(tape.raw_symbols(), &vec![1, 4, 9, 0, 3]);
    tape.write(-3, 0);
    assert_eq!(tape.raw_symbols(), &vec![1, 4, 9, 0, 3, 0]);
}

#[test]
fn blank_tape_has_no_symbols() {
    let tape = Tape::default();
    assert_eq!(tape.symbols(), Vec::<u64>::new());
    assert_eq!(tape.symbol(0), Vec::<i64>::new());
    assert_eq!(tape.symbol(5), Vec::<i64>::new());
    assert!(tape.raw_symbols().is_empty());
    assert_eq!(Tape::new(vec![0, 0]).symbols(), Vec::<u64>::new());
}

#[test]
fn symbols_of_a_single_cell() {
    let mut tape = Tape::default();
    tape.write(-5, 8);
    assert_eq!(tape.symbols(), vec![8]);
    assert_eq!(tape.symbol(8), vec![-5]);
}

#[test]
fn blank_locations_are_listed_within_the_backing_cells() {
    let tape = Tape::new(vec![4, 0, 4]);
    assert_eq!(tape.raw_symbols(), &vec![4, 0, 0, 0, 4]);
    assert_eq!(tape.symbol(0), vec![-2, -1, 1]);
    assert_eq!(tape.symbol(4), vec![0, 2]);
}

#[test]
fn with_capacity_builds_the_same_tape() {
    let tape = Tape::with_capacity(vec![23, 1, 0, 49], 20);
    assert_eq!(tape, Tape::new(vec![23, 1, 0, 49]));
    assert_eq!(tape.raw_symbols(), &vec![23, 0, 1, 0, 0, 0, 49]);
    let exact = Tape::with_capacity(vec![23, 1, 0, 49], 7);
    assert_eq!(exact.raw_symbols(), &vec![23, 0, 1, 0, 0, 0, 49]);
    let empty = Tape::with_capacity(vec![], 0);
    assert!(empty.raw_symbols().is_empty());
}

#[test]
fn clone_keeps_the_cells() {
    let mut tape = Tape::new(vec![1, 2]);
    let copy = tape.clone();
    tape.write(0, 5);
    assert_eq!(copy.raw_symbols(), &vec![1, 0, 2]);
    assert_eq!(tape.raw_symbols(), &vec![5, 0, 2]);
}
