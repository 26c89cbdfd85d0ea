//! Transition functions: state tables without repeated keys, their lookup,
//! and the enumeration of all tables of a given size.

use std::collections::HashMap;
use vstd::arithmetic::div_mod::{lemma_fundamental_div_mod, lemma_fundamental_div_mod_converse};
use vstd::prelude::*;
use vstd::std_specs::iter::IteratorSpec;

verus! {

broadcast use vstd::std_specs::hash::group_hash_axioms;

/// What a rule answers: the next state, the symbol to write, and whether
/// the head moves right (`true`) or left (`false`).
pub type Action = (u64, u64, bool);

/// One line of a state table: the state and the symbol read, and the answer.
pub type Rule = ((u64, u64), Action);

/// The rules of a machine as a partial function from the state and the
/// symbol read.
pub type Rules = Map<(u64, u64), Action>;

/// Whether no key occurs twice in `table`.
pub open spec fn keys_distinct(table: Seq<Rule>) -> bool {
    forall|i: int, j: int| 0 <= i < j < table.len() ==> table[i].0 != table[j].0
}

/// Whether some line of `table` has the key `key`.
pub open spec fn has_key(table: Seq<Rule>, key: (u64, u64)) -> bool {
    exists|i: int| 0 <= i < table.len() && table[i].0 == key
}

/// The partial function that `table` lists: each key of the table is mapped
/// to the answer on a line that holds it.
pub open spec fn table_map(table: Seq<Rule>) -> Rules {
    Map::new(
        |key: (u64, u64)| has_key(table, key),
        |key: (u64, u64)| table[choose|i: int| 0 <= i < table.len() && table[i].0 == key].1,
    )
}

/// Whether line `j` of `table` is the first whose key an earlier line holds.
pub open spec fn is_first_repeat(table: Seq<Rule>, j: int) -> bool {
    &&& 0 <= j < table.len()
    &&& keys_distinct(table.take(j))
    &&& has_key(table.take(j), table[j].0)
}

/// In a table without repeated keys every line is found under its key.
pub proof fn lemma_lookup_of_listed_rule(table: Seq<Rule>, i: int)
    requires
        keys_distinct(table),
        0 <= i < table.len(),
    ensures
        table_map(table).contains_key(table[i].0),
        table_map(table)[table[i].0] == table[i].1,
{
    let key = table[i].0;
    assert(has_key(table, key));
    let c = choose|c: int| 0 <= c < table.len() && table[c].0 == key;
    assert(c == i) by {
        if c < i {
            assert(table[c].0 != table[i].0);
        }
        if i < c {
            assert(table[i].0 != table[c].0);
        }
    }
}

/// A table's partial function is defined on the keys of the table only.
pub proof fn lemma_lookup_of_unlisted_key(table: Seq<Rule>, key: (u64, u64))
    requires
        forall|i: int| 0 <= i < table.len() ==> table[i].0 != key,
    ensures
        !table_map(table).contains_key(key),
{
}

/// The state and the symbol folded into one number, the state in the upper
/// half.
pub open spec fn pair_key(state: u64, symbol: u64) -> u128 {
    (state as u128 * 0x1_0000_0000_0000_0000 + symbol as u128) as u128
}

/// Two pairs fold into the same number only if they are the same pair.
pub proof fn lemma_pair_key_injective(a: (u64, u64), b: (u64, u64))
    requires
        pair_key(a.0, a.1) == pair_key(b.0, b.1),
    ensures
        a == b,
{
}

fn fold_key(state: u64, symbol: u64) -> (key: u128)
    ensures
        key == pair_key(state, symbol),
{
    (state as u128) * 0x1_0000_0000_0000_0000u128 + (symbol as u128)
}

fn unfold_key(key: u128) -> (pair: (u64, u64))
    ensures
        pair_key(pair.0, pair.1) == key,
{
    ((key / 0x1_0000_0000_0000_0000u128) as u64, (key % 0x1_0000_0000_0000_0000u128) as u64)
}

/// Every sequence of `n` of the `items`, repetitions included: the
/// sequences that begin with the first item come first, and among those
/// with the same beginning the order is that of the remainders.
pub open spec fn sequences_over<T>(items: Seq<T>, n: nat) -> Seq<Seq<T>>
    decreases n,
{
    if n == 0 {
        seq![Seq::empty()]
    } else {
        let shorter = sequences_over(items, (n - 1) as nat);
        Seq::new(
            items.len() * shorter.len(),
            |i: int| seq![items[i / (shorter.len() as int)]] + shorter[i % (shorter.len() as int)],
        )
    }
}

/// Returns every sequence of `n` of the items of `vec`, repetitions
/// included.
pub fn permute_with_repetition<T: Copy>(vec: &[T], n: usize) -> (permutations: Vec<Vec<T>>)
    ensures
        permutations.len() == sequences_over(vec@, n as nat).len(),
        forall|i: int|
            0 <= i < permutations.len() ==> (#[trigger] permutations[i])@ == sequences_over(
                vec@,
                n as nat,
            )[i],
    decreases n,
{
    let mut permutations: Vec<Vec<T>> = Vec::new();
    if n == 0 {
        permutations.push(Vec::new());
        assert(permutations[0]@ =~= Seq::<T>::empty());
        return permutations;
    }
    let shorter = permute_with_repetition(vec, n - 1);
    let ghost tails = sequences_over(vec@, (n - 1) as nat);
    let ghost all = sequences_over(vec@, n as nat);
    let mut a: usize = 0;
    while a < vec.len()
        invariant
            a <= vec.len(),
            n > 0,
            tails == sequences_over(vec@, (n - 1) as nat),
            all == sequences_over(vec@, n as nat),
            shorter.len() == tails.len(),
            forall|i: int| 0 <= i < shorter.len() ==> (#[trigger] shorter[i])@ == tails[i],
            permutations.len() == a * shorter.len(),
            forall|i: int|
                0 <= i < permutations.len() ==> (#[trigger] permutations[i])@ == all[i],
        decreases vec.len() - a,
    {
        let item = vec[a];
        let mut b: usize = 0;
        while b < shorter.len()
            invariant
                a < vec.len(),
                b <= shorter.len(),
                n > 0,
                item == vec[a as int],
                tails == sequences_over(vec@, (n - 1) as nat),
                all == sequences_over(vec@, n as nat),
                shorter.len() == tails.len(),
                forall|i: int| 0 <= i < shorter.len() ==> (#[trigger] shorter[i])@ == tails[i],
                permutations.len() == a * shorter.len() + b,
                forall|i: int|
                    0 <= i < permutations.len() ==> (#[trigger] permutations[i])@ == all[i],
            decreases shorter.len() - b,
        {
            let tail = &shorter[b];
            let mut sub: Vec<T> = Vec::new();
            sub.push(item);
            let mut k: usize = 0;
            while k < tail.len()
                invariant
                    k <= tail.len(),
                    sub@ == seq![item] + tail@.take(k as int),
                decreases tail.len() - k,
            {
                sub.push(tail[k]);
                k += 1;
                assert(sub@ =~= seq![item] + tail@.take(k as int));
            }
            proof {
                assert(tail@.take(k as int) =~= tail@);
                let at = a * shorter.len() + b;
                lemma_fundamental_div_mod_converse(
                    at,
                    shorter.len() as int,
                    a as int,
                    b as int,
                );
                assert(at < vec.len() * shorter.len()) by (nonlinear_arith)
                    requires
                        at == a * shorter.len() + b,
                        a < vec.len(),
                        b < shorter.len(),
                ;
                assert(all[at] == seq![vec@[a as int]] + tails[b as int]);
            }
            permutations.push(sub);
            b += 1;
        }
        a += 1;
        assert(permutations.len() == a * shorter.len()) by (nonlinear_arith)
            requires
                permutations.len() == (a - 1) * shorter.len() + shorter.len(),
        ;
    }
    permutations
}

/// Each member of [`sequences_over`] has the length asked for.
pub proof fn lemma_sequences_length<T>(items: Seq<T>, n: nat, i: int)
    requires
        0 <= i < sequences_over(items, n).len(),
    ensures
        sequences_over(items, n)[i].len() == n,
    decreases n,
{
    if n > 0 {
        let shorter = sequences_over(items, (n - 1) as nat);
        assert(shorter.len() > 0) by (nonlinear_arith)
            requires
                0 <= i < items.len() * shorter.len(),
        ;
        lemma_sequences_length(items, (n - 1) as nat, i % (shorter.len() as int));
    }
}

/// Every sequence of items is a member of [`sequences_over`] for its length.
pub proof fn lemma_every_sequence_listed<T>(items: Seq<T>, s: Seq<T>)
    requires
        forall|j: int| 0 <= j < s.len() ==> items.contains(#[trigger] s[j]),
    ensures
        sequences_over(items, s.len()).contains(s),
    decreases s.len(),
{
    let all = sequences_over(items, s.len());
    if s.len() == 0 {
        assert(all[0] =~= s);
    } else {
        let rest = s.drop_first();
        assert forall|j: int| 0 <= j < rest.len() implies items.contains(#[trigger] rest[j]) by {
            assert(rest[j] == s[j + 1]);
        }
        lemma_every_sequence_listed(items, rest);
        let shorter = sequences_over(items, rest.len());
        let r = choose|r: int| 0 <= r < shorter.len() && shorter[r] == rest;
        assert(items.contains(s[0]));
        let a = choose|a: int| 0 <= a < items.len() && items[a] == s[0];
        let at = a * shorter.len() + r;
        lemma_fundamental_div_mod_converse(at, shorter.len() as int, a, r);
        assert(0 <= at < items.len() * shorter.len()) by (nonlinear_arith)
            requires
                at == a * shorter.len() + r,
                0 <= a < items.len(),
                0 <= r < shorter.len(),
        ;
        assert(all[at] =~= s);
    }
}

/// Every key of a machine with `num_states` states and `num_symbols`
/// symbols, ordered by state and then by symbol.
pub open spec fn all_keys(num_states: nat, num_symbols: nat) -> Seq<(u64, u64)> {
    Seq::new(
        num_states * num_symbols,
        |i: int| ((i / (num_symbols as int)) as u64, (i % (num_symbols as int)) as u64),
    )
}

/// Every answer that a rule of such a machine can give: a next state from
/// 0 to `num_states`, the state for which no machine has a rule, a symbol,
/// and a direction; ordered by state, then by symbol, then by direction,
/// left before right.
pub open spec fn all_actions(num_states: nat, num_symbols: nat) -> Seq<Action> {
    Seq::new(
        (num_states + 1) * num_symbols * 2,
        |i: int|
            (
                ((i / 2) / (num_symbols as int)) as u64,
                ((i / 2) % (num_symbols as int)) as u64,
                i % 2 == 1,
            ),
    )
}

/// The state table that gives the key on line `k` the answer on line `k`.
pub open spec fn table_of(keys: Seq<(u64, u64)>, answers: Seq<Action>) -> Seq<Rule> {
    Seq::new(keys.len(), |k: int| (keys[k], answers[k]))
}

/// The rules of every machine with `num_states` states and `num_symbols`
/// symbols that has a rule for each of its keys: one machine for each way
/// of choosing an answer for each key.
pub open spec fn enumerated(num_states: nat, num_symbols: nat) -> Seq<Rules> {
    Seq::new(
        sequences_over(all_actions(num_states, num_symbols), num_states * num_symbols).len(),
        |f: int|
            table_map(
                table_of(
                    all_keys(num_states, num_symbols),
                    sequences_over(
                        all_actions(num_states, num_symbols),
                        num_states * num_symbols,
                    )[f],
                ),
            ),
    )
}

/// No key occurs twice among [`all_keys`].
pub proof fn lemma_all_keys_distinct(num_states: nat, num_symbols: nat, a: int, b: int)
    requires
        0 <= a < b < all_keys(num_states, num_symbols).len(),
        num_states <= usize::MAX,
        num_symbols <= usize::MAX,
    ensures
        all_keys(num_states, num_symbols)[a] != all_keys(num_states, num_symbols)[b],
{
    let y = num_symbols as int;
    assert(y > 0) by (nonlinear_arith)
        requires
            0 <= a < num_states * num_symbols,
            y == num_symbols,
    ;
    lemma_fundamental_div_mod(a, y);
    lemma_fundamental_div_mod(b, y);
    lemma_index_splits(a, num_states as int, y);
    lemma_index_splits(b, num_states as int, y);
}

/// An index below `rows * row` lies in one of the `rows` rows.
proof fn lemma_index_splits(i: int, rows: int, row: int)
    requires
        0 <= i < rows * row,
        row > 0,
    ensures
        0 <= i / row < rows,
        0 <= i % row < row,
{
    lemma_fundamental_div_mod(i, row);
    assert(i / row < rows) by (nonlinear_arith)
        requires
            i == row * (i / row) + i % row,
            0 <= i % row < row,
            i < rows * row,
            row > 0,
    ;
    assert(0 <= i / row) by (nonlinear_arith)
        requires
            i == row * (i / row) + i % row,
            0 <= i % row < row,
            0 <= i,
            row > 0,
    ;
}

/// The reason why a state table is no transition function: it holds this
/// key, the state and the symbol read, more than once.
#[derive(Clone, Copy, Debug, PartialEq, Eq)]
pub struct DuplicateKey {
    pub state: u64,
    pub symbol: u64,
}

/// A representation of a turing machine's transition function. It takes a
/// state and a symbol and returns a new state, new symbol, and whether to
/// move left or right.
#[derive(Debug, PartialEq)]
pub struct TransitionFn {
    map: HashMap<u128, Action>,
}

impl View for TransitionFn {
    type V = Rules;

    closed spec fn view(&self) -> Rules {
        Map::new(
            |key: (u64, u64)| self.map@.contains_key(pair_key(key.0, key.1)),
            |key: (u64, u64)| self.map@[pair_key(key.0, key.1)],
        )
    }
}

impl TransitionFn {
    /// Constructs a new `TransitionFn` from the specified state table.
    /// The state table is expressed in the form:
    /// `Key: (state, symbol) -> Value: (new state, symbol to write, head movement)`
    /// where head movement is a `bool` (`true` for right, `false` for left).
    ///
    /// A transition function is deterministic: the state table must not
    /// contain identical keys.
    pub fn new(state_table: &Vec<Rule>) -> (transition_fn: TransitionFn)
        requires
            keys_distinct(state_table@),
        ensures
            transition_fn@ == table_map(state_table@),
    {
        match TransitionFn::try_new(state_table) {
            Ok(transition_fn) => transition_fn,
            Err(_) => vstd::pervasive::unreached(),
        }
    }

    /// Constructs a `TransitionFn` from the specified state table, or
    /// reports the first key that the table repeats.
    pub fn try_new(state_table: &Vec<Rule>) -> (built: Result<TransitionFn, DuplicateKey>)
        ensures
            built is Ok <==> keys_distinct(state_table@),
            built matches Ok(transition_fn) ==> transition_fn@ == table_map(state_table@),
            built matches Err(duplicate) ==> exists|j: int|
                is_first_repeat(state_table@, j) && #[trigger] state_table[j].0 == (
                    duplicate.state,
                    duplicate.symbol,
                ),
    {
        let mut map: HashMap<u128, Action> = HashMap::new();
        let mut i: usize = 0;
        while i < state_table.len()
            invariant
                i <= state_table.len(),
                keys_distinct(state_table@.take(i as int)),
                forall|key: (u64, u64)|
                    map@.contains_key(pair_key(key.0, key.1)) <==> has_key(
                        state_table@.take(i as int),
                        key,
                    ),
                forall|j: int|
                    0 <= j < i ==> map@[pair_key(
                        (#[trigger] state_table[j]).0.0,
                        state_table[j].0.1,
                    )] == state_table[j].1,
            decreases state_table.len() - i,
        {
            let ((state, symbol), action) = state_table[i];
            let key = fold_key(state, symbol);
            let ghost seen = state_table@.take(i as int);
            let ghost more = state_table@.take(i + 1);
            if map.contains_key(&key) {
                proof {
                    assert(has_key(seen, (state, symbol)));
                    let earlier = choose|e: int|
                        0 <= e < seen.len() && seen[e].0 == (state, symbol);
                    assert(state_table[earlier].0 == state_table[i as int].0);
                    assert(is_first_repeat(state_table@, i as int));
                }
                return Err(DuplicateKey { state, symbol });
            }
            map.insert(key, action);
            proof {
                assert forall|a: int, b: int| 0 <= a < b < more.len() implies more[a].0
                    != more[b].0 by {
                    if b < i {
                        assert(seen[a].0 != seen[b].0);
                    } else {
                        if more[a].0 == more[b].0 {
                            assert(seen[a].0 == (state, symbol));
                            assert(has_key(seen, (state, symbol)));
                        }
                    }
                }
                assert forall|k: (u64, u64)|
                    map@.contains_key(pair_key(k.0, k.1)) <==> has_key(more, k) by {
                    if has_key(more, k) {
                        let w = choose|w: int| 0 <= w < more.len() && more[w].0 == k;
                        if w < i {
                            assert(seen[w].0 == k);
                            assert(has_key(seen, k));
                        }
                    }
                    if map@.contains_key(pair_key(k.0, k.1)) {
                        if pair_key(k.0, k.1) == key {
                            lemma_pair_key_injective(k, (state, symbol));
                            assert(more[i as int].0 == k);
                        } else {
                            assert(has_key(seen, k));
                            let w = choose|w: int| 0 <= w < seen.len() && seen[w].0 == k;
                            assert(more[w].0 == k);
                        }
                    }
                }
                assert forall|j: int| 0 <= j < i + 1 implies map@[pair_key(
                    (#[trigger] state_table[j]).0.0,
                    state_table[j].0.1,
                )] == state_table[j].1 by {
                    if j < i {
                        assert(seen[j].0 == state_table[j].0);
                        if pair_key(state_table[j].0.0, state_table[j].0.1) == key {
                            lemma_pair_key_injective(state_table[j].0, (state, symbol));
                            assert(has_key(seen, (state, symbol)));
                        }
                    }
                }
            }
            i += 1;
        }
        let transition_fn = TransitionFn { map };
        proof {
            assert(state_table@.take(i as int) =~= state_table@);
            assert forall|key: (u64, u64)| has_key(state_table@, key) implies transition_fn@[key]
                == table_map(state_table@)[key] by {
                let c = choose|c: int| 0 <= c < state_table.len() && state_table[c].0 == key;
                assert(map@[pair_key(state_table[c].0.0, state_table[c].0.1)] == state_table[c].1);
            }
            assert(transition_fn@ =~= table_map(state_table@));
        }
        Ok(transition_fn)
    }

    /// Enumerates all possible turing machines with the specified number of
    /// states and symbols. This is an extremely expensive function with the
    /// output vector having length O(n^(n^2)) where n is both the number of
    /// states and the number of symbols.
    pub fn enumerate(num_states: usize, num_symbols: usize) -> (fns: Vec<TransitionFn>)
        ensures
            fns.len() == enumerated(num_states as nat, num_symbols as nat).len(),
            forall|f: int|
                0 <= f < fns.len() ==> (#[trigger] fns[f])@ == enumerated(
                    num_states as nat,
                    num_symbols as nat,
                )[f],
    {
        let ghost key_list = all_keys(num_states as nat, num_symbols as nat);
        let ghost answers = all_actions(num_states as nat, num_symbols as nat);
        let keys = Self::list_keys(num_states, num_symbols);
        let values = Self::list_actions(num_states, num_symbols);
        let value_permutations = permute_with_repetition(values.as_slice(), keys.len());
        let ghost choices = sequences_over(answers, key_list.len());
        let mut fns: Vec<TransitionFn> = Vec::new();
        let mut f: usize = 0;
        while f < value_permutations.len()
            invariant
                f <= value_permutations.len(),
                key_list == all_keys(num_states as nat, num_symbols as nat),
                keys@ == key_list,
                choices == sequences_over(answers, key_list.len()),
                value_permutations.len() == choices.len(),
                forall|i: int|
                    0 <= i < value_permutations.len() ==> (#[trigger] value_permutations[i])@
                        == choices[i],
                fns.len() == f,
                forall|i: int|
                    0 <= i < f ==> (#[trigger] fns[i])@ == table_map(
                        table_of(key_list, choices[i]),
                    ),
            decreases value_permutations.len() - f,
        {
            proof {
                lemma_sequences_length(answers, key_list.len(), f as int);
            }
            let chosen = &value_permutations[f];
            let mut state_table: Vec<Rule> = Vec::new();
            let mut k: usize = 0;
            while k < keys.len()
                invariant
                    k <= keys.len(),
                    keys.len() == chosen.len(),
                    state_table.len() == k,
                    forall|i: int|
                        0 <= i < k ==> #[trigger] state_table[i] == (keys[i], chosen[i]),
                decreases keys.len() - k,
            {
                state_table.push((keys[k], chosen[k]));
                k += 1;
            }
            proof {
                assert(state_table@ =~= table_of(key_list, choices[f as int]));
                assert forall|a: int, b: int|
                    0 <= a < b < state_table.len() implies state_table[a].0
                    != state_table[b].0 by {
                    lemma_all_keys_distinct(num_states as nat, num_symbols as nat, a, b);
                }
            }
            fns.push(TransitionFn::new(&state_table));
            f += 1;
        }
        fns
    }

    /// Lists every key of a machine with so many states and symbols.
    fn list_keys(num_states: usize, num_symbols: usize) -> (keys: Vec<(u64, u64)>)
        ensures
            keys@ == all_keys(num_states as nat, num_symbols as nat),
    {
        let ghost all = all_keys(num_states as nat, num_symbols as nat);
        let mut keys: Vec<(u64, u64)> = Vec::new();
        let mut t: usize = 0;
        while t < num_states
            invariant
                t <= num_states,
                all == all_keys(num_states as nat, num_symbols as nat),
                keys.len() == t * num_symbols,
                forall|i: int| 0 <= i < keys.len() ==> keys[i] == all[i],
            decreases num_states - t,
        {
            let mut y: usize = 0;
            while y < num_symbols
                invariant
                    t < num_states,
                    y <= num_symbols,
                    all == all_keys(num_states as nat, num_symbols as nat),
                    keys.len() == t * num_symbols + y,
                    forall|i: int| 0 <= i < keys.len() ==> keys[i] == all[i],
                decreases num_symbols - y,
            {
                proof {
                    let at = t * num_symbols + y;
                    lemma_fundamental_div_mod_converse(at, num_symbols as int, t as int, y as int);
                    assert(at < num_states * num_symbols) by (nonlinear_arith)
                        requires
                            at == t * num_symbols + y,
                            t < num_states,
                            y < num_symbols,
                    ;
                }
                keys.push((t as u64, y as u64));
                y += 1;
            }
            t += 1;
            assert(keys.len() == t * num_symbols) by (nonlinear_arith)
                requires
                    keys.len() == (t - 1) * num_symbols + num_symbols,
            ;
        }
        proof {
            assert(keys.len() == all.len());
            assert(keys@ =~= all);
        }
        keys
    }

    /// Lists every answer that a rule of a machine with so many states and
    /// symbols can give.
    fn list_actions(num_states: usize, num_symbols: usize) -> (actions: Vec<Action>)
        ensures
            actions@ == all_actions(num_states as nat, num_symbols as nat),
    {
        let ghost all = all_actions(num_states as nat, num_symbols as nat);
        let mut actions: Vec<Action> = Vec::new();
        if num_symbols == 0 {
            assert(actions@ =~= all) by {
                assert((num_states + 1) * 0 * 2 == 0) by (nonlinear_arith);
            }
            return actions;
        }
        let mut n: usize = 0;
        loop
            invariant_except_break
                actions.len() == n * num_symbols * 2,
            invariant
                n <= num_states,
                num_symbols > 0,
                all == all_actions(num_states as nat, num_symbols as nat),
                forall|i: int| 0 <= i < actions.len() ==> actions[i] == all[i],
            ensures
                actions.len() == (num_states + 1) * num_symbols * 2,
            decreases num_states - n,
        {
            let mut w: usize = 0;
            while w < num_symbols
                invariant
                    n <= num_states,
                    w <= num_symbols,
                    all == all_actions(num_states as nat, num_symbols as nat),
                    actions.len() == (n * num_symbols + w) * 2,
                    forall|i: int| 0 <= i < actions.len() ==> actions[i] == all[i],
                decreases num_symbols - w,
            {
                proof {
                    let row = n * num_symbols + w;
                    lemma_fundamental_div_mod_converse(row, num_symbols as int, n as int, w as int);
                    assert(row * 2 + 1 < (num_states + 1) * num_symbols * 2) by (nonlinear_arith)
                        requires
                            row == n * num_symbols + w,
                            n <= num_states,
                            w < num_symbols,
                    ;
                    assert((row * 2) / 2 == row && (row * 2 + 1) / 2 == row);
                }
                actions.push((n as u64, w as u64, false));
                actions.push((n as u64, w as u64, true));
                w += 1;
            }
            proof {
                assert((n * num_symbols + num_symbols) * 2 == (n + 1) * num_symbols * 2)
                    by (nonlinear_arith);
            }
            if n == num_states {
                break ;
            }
            n += 1;
        }
        proof {
            assert(actions@ =~= all);
        }
        actions
    }

    /// Returns the state table of `self` in no particular order.
    pub fn state_table(&self) -> (table: Vec<Rule>)
        ensures
            keys_distinct(table@),
            table_map(table@) == self@,
    {
        let mut table: Vec<Rule> = Vec::new();
        for entry in it: self.map.iter()
            invariant
                table.len() == it.index(),
                forall|j: int|
                    0 <= j < table.len() ==> pair_key(table[j].0.0, table[j].0.1)
                        == *it.seq()[j].0 && (#[trigger] table[j]).1 == *it.seq()[j].1,
        {
            let (key, action) = entry;
            table.push((unfold_key(*key), *action));
        }
        proof {
            let entries = vstd::std_specs::hash::spec_hash_map_iter(&self.map).remaining();
            assert(table.len() == entries.len());
            assert(entries.no_duplicates());
            assert forall|j: int| 0 <= j < table.len() implies pair_key(
                table[j].0.0,
                table[j].0.1,
            ) == *entries[j].0 && (#[trigger] table[j]).1 == *entries[j].1 by {}
            assert forall|i: int, j: int| 0 <= i < j < table.len() implies table[i].0
                != table[j].0 by {
                if table[i].0 == table[j].0 {
                    assert(self.map@.contains_key(*entries[i].0));
                    assert(self.map@.contains_key(*entries[j].0));
                    assert(*entries[i].0 == *entries[j].0);
                    assert(*entries[i].1 == self.map@[*entries[i].0]);
                    assert(*entries[j].1 == self.map@[*entries[j].0]);
                    assert(entries[i].0 == entries[j].0);
                    assert(entries[i].1 == entries[j].1);
                    assert(entries[i] == entries[j]);
                }
            }
            assert forall|key: (u64, u64)| has_key(table@, key) <==> self@.contains_key(key) by {
                let k = pair_key(key.0, key.1);
                if has_key(table@, key) {
                    let i = choose|i: int| 0 <= i < table.len() && table[i].0 == key;
                    assert(self.map@.contains_key(*entries[i].0));
                }
                if self.map@.contains_key(k) {
                    assert(entries.contains((&k, &self.map@[k])));
                    let i = choose|i: int|
                        0 <= i < entries.len() && entries[i] == (&k, &self.map@[k]);
                    lemma_pair_key_injective(table[i].0, key);
                }
            }
            assert forall|key: (u64, u64)| has_key(table@, key) implies table_map(table@)[key]
                == self@[key] by {
                let i = choose|i: int| 0 <= i < table.len() && table[i].0 == key;
                assert(self.map@.contains_key(*entries[i].0));
            }
            assert(table_map(table@) =~= self@);
        }
        table
    }

    /// Runs `self` with the specified state and symbol and returns
    /// `Some((u64, u64, bool))` only if a match is found within the state
    /// table, otherwise it returns `None`.
    pub fn run(&self, state: u64, symbol: u64) -> (answer: Option<Action>)
        ensures
            answer == (if self@.contains_key((state, symbol)) {
                Some(self@[(state, symbol)])
            } else {
                None
            }),
    {
        let key = fold_key(state, symbol);
        match self.map.get(&key) {
            Some(action) => Some(*action),
            None => None,
        }
    }
}

impl Default for TransitionFn {
    /// The transition function without any rule.
    fn default() -> (transition_fn: TransitionFn)
        ensures
            transition_fn@ == Rules::empty(),
    {
        let transition_fn = TransitionFn { map: HashMap::new() };
        assert(transition_fn@ =~= Rules::empty());
        transition_fn
    }
}

impl Clone for TransitionFn {
    fn clone(&self) -> (copy: TransitionFn)
        ensures
            copy@ == self@,
    {
        TransitionFn { map: self.map.clone() }
    }
}

} // verus!
