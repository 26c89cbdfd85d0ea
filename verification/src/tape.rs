//! The tape: positions are integers, the cells live in one vector, and a
//! fold between the two keeps both ends of the tape growing in the same
//! vector.

use vstd::prelude::*;
use vstd::std_specs::cmp::PartialEqSpec;

verus! {

/// The backing index of tape position `p`: non-negative positions fold onto
/// the even indices and negative positions onto the odd ones, so that
/// `0, -1, 1, -2, 2, ...` become `0, 1, 2, 3, 4, ...`.
pub open spec fn position_to_index(p: int) -> int {
    if p >= 0 {
        2 * p
    } else {
        -2 * p - 1
    }
}

/// The tape position stored at backing index `i`; the inverse of
/// [`position_to_index`] on the non-negative integers.
pub open spec fn index_to_position(i: int) -> int {
    if i % 2 == 0 {
        i / 2
    } else {
        -(i / 2) - 1
    }
}

/// The sign of `p`: `-1`, `0` or `1`.
pub open spec fn signum(p: int) -> int {
    if p > 0 {
        1
    } else if p < 0 {
        -1
    } else {
        0
    }
}

/// The absolute value of `p`.
pub open spec fn magnitude(p: int) -> int {
    if p >= 0 {
        p
    } else {
        -p
    }
}

/// Quotient of `a` by `2`, rounded toward zero.
pub open spec fn half_toward_zero(a: int) -> int {
    if a >= 0 {
        a / 2
    } else {
        -((-a) / 2)
    }
}

/// The folding written as one closed formula, `(4|p| + sign(p) - 1) / 2`
/// with the quotient rounded toward zero, is the same function.
pub proof fn lemma_index_closed_form(p: int)
    ensures
        position_to_index(p) == half_toward_zero(4 * magnitude(p) + signum(p) - 1),
{
}

/// Folding a position and unfolding the index gives the position back.
pub proof fn lemma_position_round_trip(p: int)
    ensures
        position_to_index(p) >= 0,
        index_to_position(position_to_index(p)) == p,
{
}

/// Unfolding an index and folding the position gives the index back.
pub proof fn lemma_index_round_trip(i: int)
    requires
        i >= 0,
    ensures
        position_to_index(index_to_position(i)) == i,
{
}

/// The backing index of any location, in a width that holds them all.
fn fold(n: i64) -> (idx: u64)
    ensures
        idx == position_to_index(n as int),
{
    if n >= 0 {
        (n as u64) * 2
    } else {
        ((-(n + 1)) as u64) * 2 + 1
    }
}

/// Converts a tape position to its backing index.
pub fn i64_to_idx(n: i64) -> (idx: usize)
    requires
        position_to_index(n as int) <= usize::MAX,
    ensures
        idx == position_to_index(n as int),
{
    fold(n) as usize
}

/// Converts a backing index to the tape position stored there.
pub fn idx_to_i64(idx: usize) -> (pos: i64)
    ensures
        pos == index_to_position(idx as int),
{
    let half: u64 = (idx / 2) as u64;
    if idx % 2 == 0 {
        half as i64
    } else {
        -(half as i64) - 1
    }
}

/// The symbol that the backing sequence `raw` holds for position `p`:
/// a position beyond the end of `raw` is blank.
pub open spec fn cell(raw: Seq<u64>, p: int) -> u64 {
    if position_to_index(p) < raw.len() {
        raw[position_to_index(p)]
    } else {
        0
    }
}

/// `raw` lengthened with blanks to at least `len` cells.
pub open spec fn padded(raw: Seq<u64>, len: int) -> Seq<u64> {
    if len <= raw.len() {
        raw
    } else {
        raw + Seq::new((len - raw.len()) as nat, |i: int| 0u64)
    }
}

/// Whether every cell of `s` is blank.
pub open spec fn all_blank(s: Seq<u64>) -> bool {
    forall|i: int| 0 <= i < s.len() ==> s[i] == 0
}

/// Whether `i` is the index of the first non-blank cell of `s`.
pub open spec fn is_first_symbol(s: Seq<u64>, i: int) -> bool {
    &&& 0 <= i < s.len()
    &&& s[i] != 0
    &&& forall|j: int| 0 <= j < i ==> s[j] == 0
}

/// Whether `i` is the index of the last non-blank cell of `s`.
pub open spec fn is_last_symbol(s: Seq<u64>, i: int) -> bool {
    &&& 0 <= i < s.len()
    &&& s[i] != 0
    &&& forall|j: int| i < j < s.len() ==> s[j] == 0
}

/// `s` without its leading and trailing blanks; empty where `s` is all blank.
pub open spec fn trim_blanks(s: Seq<u64>) -> Seq<u64> {
    if all_blank(s) {
        Seq::empty()
    } else {
        s.subrange(
            choose|i: int| is_first_symbol(s, i),
            (choose|i: int| is_last_symbol(s, i)) + 1,
        )
    }
}

/// Whether the tape `t` is blank everywhere.
pub open spec fn is_blank(t: Map<int, u64>) -> bool {
    forall|p: int| t[p] == 0
}

/// Whether `p` is the lowest non-blank position of `t`.
pub open spec fn is_lowest(t: Map<int, u64>, p: int) -> bool {
    &&& t[p] != 0
    &&& forall|q: int| q < p ==> t[q] == 0
}

/// Whether `p` is the highest non-blank position of `t`.
pub open spec fn is_highest(t: Map<int, u64>, p: int) -> bool {
    &&& t[p] != 0
    &&& forall|q: int| q > p ==> t[q] == 0
}

/// The cells of `t` from position `lo` to position `hi`, in position order.
pub open spec fn span(t: Map<int, u64>, lo: int, hi: int) -> Seq<u64> {
    Seq::new((hi - lo + 1) as nat, |i: int| t[lo + i])
}

/// The meaningful content of `t`: the cells from its lowest to its highest
/// non-blank position, in position order; empty where `t` is blank.
pub open spec fn canonical(t: Map<int, u64>) -> Seq<u64> {
    if is_blank(t) {
        Seq::empty()
    } else {
        span(t, choose|p: int| is_lowest(t, p), choose|p: int| is_highest(t, p))
    }
}

/// The tape that is blank everywhere.
pub open spec fn blank() -> Map<int, u64> {
    Map::total(|p: int| 0u64)
}

/// The tape that holds `input[i]` at position `i` and blanks elsewhere.
pub open spec fn tape_of(input: Seq<u64>) -> Map<int, u64> {
    Map::total(
        |p: int|
            if 0 <= p < input.len() {
                input[p]
            } else {
                0
            },
    )
}

/// The backing sequence of [`tape_of`]: the cells of `input` on the even
/// indices, blanks between them.
pub open spec fn interleaved(input: Seq<u64>) -> Seq<u64> {
    Seq::new(
        if input.len() == 0 {
            0
        } else {
            (2 * input.len() - 1) as nat
        },
        |i: int|
            if i % 2 == 0 {
                input[i / 2]
            } else {
                0
            },
    )
}

/// Returns a modified vector containing no trailing or leading zeros.
pub fn no_trailing_or_leading_zeros(vec: &Vec<u64>) -> (trimmed: Vec<u64>)
    ensures
        trimmed@ == trim_blanks(vec@),
{
    let len = vec.len();
    let mut first: usize = 0;
    while first < len && vec[first] == 0
        invariant
            first <= len,
            len == vec.len(),
            forall|j: int| 0 <= j < first ==> vec[j] == 0,
        decreases len - first,
    {
        first += 1;
    }
    if first == len {
        assert(all_blank(vec@));
        return Vec::new();
    }
    let mut last: usize = len - 1;
    while vec[last] == 0
        invariant
            first <= last < len,
            len == vec.len(),
            vec[first as int] != 0,
            forall|j: int| last < j < len ==> vec[j] == 0,
        decreases last,
    {
        last -= 1;
    }
    proof {
        lemma_trim_bounds(vec@, first as int, last as int);
    }
    let mut trimmed: Vec<u64> = Vec::new();
    let mut i: usize = first;
    while i <= last
        invariant
            first <= i <= last + 1,
            last < len,
            len == vec.len(),
            trimmed@ == vec@.subrange(first as int, i as int),
        decreases last + 1 - i,
    {
        trimmed.push(vec[i]);
        i += 1;
        assert(trimmed@ =~= vec@.subrange(first as int, i as int));
    }
    trimmed
}

/// The first and the last non-blank cell of a sequence are unique, so
/// finding them fixes what [`trim_blanks`] returns.
pub proof fn lemma_trim_bounds(s: Seq<u64>, first: int, last: int)
    requires
        is_first_symbol(s, first),
        is_last_symbol(s, last),
    ensures
        !all_blank(s),
        first <= last,
        trim_blanks(s) == s.subrange(first, last + 1),
{
    let f = choose|i: int| is_first_symbol(s, i);
    let l = choose|i: int| is_last_symbol(s, i);
    assert(f == first) by {
        if f < first {
            assert(s[f] == 0);
        }
        if first < f {
            assert(s[first] == 0);
        }
    }
    assert(l == last) by {
        if l < last {
            assert(s[last] == 0);
        }
        if last < l {
            assert(s[l] == 0);
        }
    }
    if last < first {
        assert(s[first] == 0);
    }
}

/// The lowest and the highest non-blank position of a tape are unique, so
/// finding them fixes what [`canonical`] returns.
pub proof fn lemma_canonical_bounds(t: Map<int, u64>, lo: int, hi: int)
    requires
        is_lowest(t, lo),
        is_highest(t, hi),
    ensures
        !is_blank(t),
        lo <= hi,
        canonical(t) == span(t, lo, hi),
{
    let l = choose|p: int| is_lowest(t, p);
    let h = choose|p: int| is_highest(t, p);
    assert(l == lo) by {
        if l < lo {
            assert(t[l] == 0);
        }
        if lo < l {
            assert(t[lo] == 0);
        }
    }
    assert(h == hi) by {
        if h < hi {
            assert(t[hi] == 0);
        }
        if hi < h {
            assert(t[h] == 0);
        }
    }
    if hi < lo {
        assert(t[lo] == 0);
    }
}

/// Reading [`interleaved`] through the folding gives the cells of the input
/// on the non-negative positions and blanks elsewhere.
pub proof fn lemma_interleaved_cells(input: Seq<u64>)
    ensures
        forall|p: int| #[trigger]
            cell(interleaved(input), p) == (if 0 <= p < input.len() {
                input[p]
            } else {
                0
            }),
{
}

/// A tape that is infinite in both directions, blank (`0`) wherever it was
/// never written.
#[derive(Debug)]
pub struct Tape {
    raw_symbols: Vec<u64>,
}

impl View for Tape {
    type V = Map<int, u64>;

    /// The tape as a total function from positions to symbols.
    open spec fn view(&self) -> Map<int, u64> {
        Map::total(|p: int| cell(self.raw(), p))
    }
}

impl Tape {
    /// The backing sequence, cell `i` holding position `index_to_position(i)`.
    pub closed spec fn raw(&self) -> Seq<u64> {
        self.raw_symbols@
    }

    /// Whether position `p` can be written: its backing index, and the
    /// length of a backing array that reaches it, fit in `usize`.
    pub open spec fn addressable(p: int) -> bool {
        position_to_index(p) < usize::MAX
    }

    /// The number of backing cells; every position whose index lies beyond
    /// it is blank.
    pub open spec fn extent(&self) -> nat {
        self.raw().len()
    }

    /// Constructs a new `Tape` with the given input starting at location 0,
    /// counting up.
    pub fn new(input: Vec<u64>) -> (tape: Tape)
        requires
            2 * input.len() <= usize::MAX + 1,
        ensures
            tape@ == tape_of(input@),
            tape.raw() == interleaved(input@),
    {
        let mut tape = Tape::default();
        tape.write_input(&input);
        tape
    }

    /// Constructs a new `Tape` with the given input starting at location 0,
    /// counting up. The internal vector is asked to hold at least `capacity`
    /// cells, which must cover the `2 * len - 1` cells that the input takes.
    pub fn with_capacity(input: Vec<u64>, capacity: usize) -> (tape: Tape)
        requires
            capacity >= 2 * input.len() - 1,
        ensures
            tape@ == tape_of(input@),
            tape.raw() == interleaved(input@),
    {
        let mut tape = Tape::default();
        tape.raw_symbols.reserve(capacity);
        tape.write_input(&input);
        tape
    }

    /// Writes `input[i]` at location `i` of a blank tape, for each `i`.
    fn write_input(&mut self, input: &Vec<u64>)
        requires
            old(self).raw() == Seq::<u64>::empty(),
            2 * input.len() <= usize::MAX + 1,
        ensures
            final(self)@ == tape_of(input@),
            final(self).raw() == interleaved(input@),
    {
        let mut s: usize = 0;
        while s < input.len()
            invariant
                s <= input.len(),
                2 * input.len() <= usize::MAX + 1,
                self.raw() == interleaved(input@.take(s as int)),
            decreases input.len() - s,
        {
            self.write(s as i64, input[s]);
            s += 1;
            assert(self.raw() =~= interleaved(input@.take(s as int)));
        }
        proof {
            assert(input@.take(s as int) =~= input@);
            lemma_interleaved_cells(input@);
            assert(self@ =~= tape_of(input@));
        }
    }

    /// Whether location `n` can be written.
    pub fn is_addressable(n: i64) -> (yes: bool)
        ensures
            yes == Self::addressable(n as int),
    {
        fold(n) < usize::MAX as u64
    }

    /// Returns the internal vector.
    pub fn raw_symbols(&self) -> (raw: &Vec<u64>)
        ensures
            raw@ == self.raw(),
    {
        &self.raw_symbols
    }

    /// Returns the symbol at location n.
    pub fn symbol_at_n(&self, n: i64) -> (symbol: u64)
        ensures
            symbol == self@[n as int],
    {
        let idx = fold(n);
        if idx >= self.raw_symbols.len() as u64 {
            0
        } else {
            self.raw_symbols[idx as usize]
        }
    }

    /// Returns a `Vec` containing all meaningful symbols in `self`; that is,
    /// the symbols from the lowest to the highest non-blank location, in
    /// location order, with no leading or trailing zeros.
    pub fn symbols(&self) -> (content: Vec<u64>)
        ensures
            content@ == canonical(self@),
    {
        let len = self.raw_symbols.len();
        let mut found = false;
        let mut lo: i64 = 0;
        let mut hi: i64 = 0;
        let mut i: usize = 0;
        while i < len
            invariant
                i <= len,
                len == self.raw().len(),
                !found ==> forall|j: int| 0 <= j < i ==> self.raw()[j] == 0,
                found ==> lo <= hi,
                found ==> position_to_index(lo as int) < i && self.raw()[position_to_index(
                    lo as int,
                )] != 0,
                found ==> position_to_index(hi as int) < i && self.raw()[position_to_index(
                    hi as int,
                )] != 0,
                found ==> forall|j: int|
                    0 <= j < i && self.raw()[j] != 0 ==> lo <= #[trigger] index_to_position(j)
                        <= hi,
            decreases len - i,
        {
            if self.raw_symbols[i] != 0 {
                let p = idx_to_i64(i);
                proof {
                    lemma_index_round_trip(i as int);
                }
                if !found {
                    found = true;
                    lo = p;
                    hi = p;
                } else {
                    if p < lo {
                        lo = p;
                    }
                    if p > hi {
                        hi = p;
                    }
                }
            }
            i += 1;
        }
        if !found {
            assert(is_blank(self@));
            return Vec::new();
        }
        proof {
            assert forall|q: int| q < lo || q > hi implies self@[q] == 0 by {
                lemma_position_round_trip(q);
            }
            lemma_canonical_bounds(self@, lo as int, hi as int);
        }
        let mut content: Vec<u64> = Vec::new();
        let mut p: i64 = lo;
        loop
            invariant_except_break
                content@ == span(self@, lo as int, p - 1),
            invariant
                lo <= p <= hi,
            ensures
                content@ == span(self@, lo as int, hi as int),
            decreases hi - p,
        {
            content.push(self.symbol_at_n(p));
            assert(content@ =~= span(self@, lo as int, p as int));
            if p == hi {
                break ;
            }
            p += 1;
        }
        content
    }

    /// Returns a vector containing all locations on `self` that have the
    /// specified symbol, in ascending order. Only locations within the
    /// backing cells are listed, also for the blank symbol.
    pub fn symbol(&self, symbol: u64) -> (locations: Vec<i64>)
        ensures
            forall|i: int, j: int|
                0 <= i < j < locations.len() ==> #[trigger] locations[i] < #[trigger] locations[j],
            forall|p: i64|
                locations@.contains(p) <==> (position_to_index(p as int) < self.extent()
                    && self@[p as int] == symbol),
    {
        let len = self.raw_symbols.len();
        let mut locations: Vec<i64> = Vec::new();
        if len == 0 {
            assert forall|p: i64|
                locations@.contains(p) <==> (position_to_index(p as int) < self.extent()
                    && self@[p as int] == symbol) by {
                lemma_position_round_trip(p as int);
            }
            return locations;
        }
        let lo: i64 = -((len / 2) as i64);
        let hi: i64 = ((len - 1) / 2) as i64;
        let mut p: i64 = lo;
        assert forall|q: int| position_to_index(q) < len <==> lo <= q <= hi by {
            lemma_position_round_trip(q);
        }
        loop
            invariant_except_break
                forall|i: int|
                    0 <= i < locations.len() ==> lo <= #[trigger] locations[i] < p
                        && self@[locations[i] as int] == symbol,
                forall|q: i64| lo <= q < p && self@[q as int] == symbol ==> locations@.contains(q),
            invariant
                lo <= p <= hi,
                len == self.extent(),
                forall|i: int, j: int|
                    0 <= i < j < locations.len() ==> #[trigger] locations[i]
                        < #[trigger] locations[j],
            ensures
                forall|i: int, j: int|
                    0 <= i < j < locations.len() ==> #[trigger] locations[i]
                        < #[trigger] locations[j],
                forall|i: int|
                    0 <= i < locations.len() ==> lo <= #[trigger] locations[i] <= hi
                        && self@[locations[i] as int] == symbol,
                forall|q: i64|
                    lo <= q <= hi && self@[q as int] == symbol ==> locations@.contains(q),
            decreases hi - p,
        {
            let ghost before = locations@;
            if self.symbol_at_n(p) == symbol {
                locations.push(p);
                proof {
                    assert(locations@[before.len() as int] == p);
                    assert forall|q: i64| before.contains(q) implies locations@.contains(q) by {
                        let k = choose|k: int| 0 <= k < before.len() && before[k] == q;
                        assert(locations@[k] == q);
                    }
                }
            }
            if p == hi {
                break ;
            }
            p += 1;
        }
        proof {
            assert forall|q: i64|
                locations@.contains(q) <==> (position_to_index(q as int) < self.extent()
                    && self@[q as int] == symbol) by {
                if locations@.contains(q) {
                    let k = choose|k: int| 0 <= k < locations.len() && locations[k] == q;
                    assert(lo <= locations[k] <= hi);
                }
            }
        }
        locations
    }

    /// Writes the specified symbol into `self` at location n.
    pub fn write(&mut self, n: i64, symbol: u64)
        requires
            Self::addressable(n as int),
        ensures
            final(self)@ == old(self)@.insert(n as int, symbol),
            final(self)@[n as int] == symbol,
            forall|p: int| p != n ==> final(self)@[p] == old(self)@[p],
            final(self).raw() == padded(old(self).raw(), position_to_index(n as int) + 1).update(
                position_to_index(n as int),
                symbol,
            ),
    {
        let idx = i64_to_idx(n);
        if idx >= self.raw_symbols.len() {
            self.raw_symbols.resize(idx + 1, 0);
        }
        self.raw_symbols[idx] = symbol;
        proof {
            let before = old(self).raw();
            let after = self.raw();
            assert(after =~= padded(before, idx + 1).update(idx as int, symbol));
            assert forall|p: int| #[trigger] cell(after, p) == (if p == n {
                symbol
            } else {
                cell(before, p)
            }) by {
                lemma_position_round_trip(p);
                lemma_position_round_trip(n as int);
            }
            assert(self@ =~= old(self)@.insert(n as int, symbol));
        }
    }
}

impl Default for Tape {
    /// The blank tape.
    fn default() -> (tape: Tape)
        ensures
            tape.raw() == Seq::<u64>::empty(),
            tape@ == blank(),
    {
        let tape = Tape { raw_symbols: Vec::new() };
        assert(tape@ =~= blank());
        tape
    }
}

impl Clone for Tape {
    fn clone(&self) -> (copy: Tape)
        ensures
            copy.raw() == self.raw(),
            copy@ == self@,
    {
        Tape { raw_symbols: self.raw_symbols.clone() }
    }
}

impl PartialEq for Tape {
    /// Two tapes are equal when their meaningful contents are, whatever
    /// the lengths of their backing vectors.
    fn eq(&self, other: &Tape) -> (equal: bool) {
        let mine = self.symbols();
        let theirs = other.symbols();
        if mine.len() != theirs.len() {
            return false;
        }
        let mut i: usize = 0;
        while i < mine.len()
            invariant
                i <= mine.len(),
                mine.len() == theirs.len(),
                mine@ == canonical(self@),
                theirs@ == canonical(other@),
                forall|j: int| 0 <= j < i ==> mine[j] == theirs[j],
            decreases mine.len() - i,
        {
            if mine[i] != theirs[i] {
                assert(mine@[i as int] != theirs@[i as int]);
                return false;
            }
            i += 1;
        }
        assert(mine@ =~= theirs@);
        true
    }
}

impl vstd::std_specs::cmp::PartialEqSpecImpl for Tape {
    open spec fn obeys_eq_spec() -> bool {
        true
    }

    open spec fn eq_spec(&self, other: &Tape) -> bool {
        canonical(self@) == canonical(other@)
    }
}

/// The meaningful content of a tape built from `input` is `input` without
/// its leading and trailing blanks.
pub proof fn lemma_canonical_of_input(input: Seq<u64>)
    ensures
        canonical(tape_of(input)) == trim_blanks(input),
{
    let t = tape_of(input);
    if all_blank(input) {
        assert(is_blank(t));
    } else {
        let first = choose|i: int| is_first_symbol(input, i);
        let last = choose|i: int| is_last_symbol(input, i);
        lemma_first_symbol_exists(input, input.len() as int);
        lemma_last_symbol_exists(input, 0);
        assert(is_first_symbol(input, first));
        assert(is_last_symbol(input, last));
        lemma_trim_bounds(input, first, last);
        assert(is_lowest(t, first));
        assert(is_highest(t, last));
        lemma_canonical_bounds(t, first, last);
        assert(span(t, first, last) =~= input.subrange(first, last + 1));
    }
}

/// A sequence with a non-blank cell among its first `n` has a first
/// non-blank cell.
proof fn lemma_first_symbol_exists(s: Seq<u64>, n: int)
    requires
        0 <= n <= s.len(),
        exists|i: int| 0 <= i < n && s[i] != 0,
    ensures
        exists|i: int| is_first_symbol(s, i),
    decreases n,
{
    let w = choose|i: int| 0 <= i < n && s[i] != 0;
    if exists|i: int| 0 <= i < n - 1 && s[i] != 0 {
        lemma_first_symbol_exists(s, n - 1);
    } else {
        assert(is_first_symbol(s, w));
    }
}

/// A sequence with a non-blank cell at or after `from` has a last non-blank
/// cell.
proof fn lemma_last_symbol_exists(s: Seq<u64>, from: int)
    requires
        0 <= from <= s.len(),
        exists|i: int| from <= i < s.len() && s[i] != 0,
    ensures
        exists|i: int| is_last_symbol(s, i),
    decreases s.len() - from,
{
    let w = choose|i: int| from <= i < s.len() && s[i] != 0;
    if exists|i: int| from + 1 <= i < s.len() && s[i] != 0 {
        lemma_last_symbol_exists(s, from + 1);
    } else {
        assert(is_last_symbol(s, w));
    }
}

/// Tapes built from two inputs that, once interleaved from location 0,
/// differ only by leading and trailing blanks are equal.
pub proof fn lemma_tapes_equal_up_to_blanks(a: Tape, b: Tape, input_a: Seq<u64>, input_b: Seq<u64>)
    requires
        a@ == tape_of(input_a),
        b@ == tape_of(input_b),
        trim_blanks(interleaved(input_a)) == trim_blanks(interleaved(input_b)),
    ensures
        a.eq_spec(&b),
{
    lemma_interleaved_trim(input_a, input_b);
    lemma_canonical_of_input(input_a);
    lemma_canonical_of_input(input_b);
}

/// Trimming the interleaved backing sequence of an input compares inputs
/// exactly as trimming the inputs themselves does.
pub proof fn lemma_interleaved_trim(a: Seq<u64>, b: Seq<u64>)
    requires
        trim_blanks(interleaved(a)) == trim_blanks(interleaved(b)),
    ensures
        trim_blanks(a) == trim_blanks(b),
{
    lemma_trim_of_interleaved(a);
    lemma_trim_of_interleaved(b);
    let ta = trim_blanks(a);
    let tb = trim_blanks(b);
    assert(interleaved(ta) == interleaved(tb));
    if ta.len() == 0 || tb.len() == 0 {
        assert(interleaved(ta).len() == interleaved(tb).len());
        assert(ta =~= tb);
    } else {
        assert(interleaved(ta).len() == interleaved(tb).len());
        assert(ta.len() == tb.len());
        assert forall|i: int| 0 <= i < ta.len() implies ta[i] == tb[i] by {
            assert(interleaved(ta)[2 * i] == ta[i]);
            assert(interleaved(tb)[2 * i] == tb[i]);
        }
        assert(ta =~= tb);
    }
}

/// Trimming commutes with interleaving.
proof fn lemma_trim_of_interleaved(a: Seq<u64>)
    ensures
        trim_blanks(interleaved(a)) == interleaved(trim_blanks(a)),
{
    let ia = interleaved(a);
    if all_blank(a) {
        assert(all_blank(ia));
        assert(interleaved(Seq::<u64>::empty()) =~= Seq::<u64>::empty());
    } else {
        lemma_first_symbol_exists(a, a.len() as int);
        lemma_last_symbol_exists(a, 0);
        let first = choose|i: int| is_first_symbol(a, i);
        let last = choose|i: int| is_last_symbol(a, i);
        lemma_trim_bounds(a, first, last);
        assert(ia[2 * first] == a[first]);
        assert(ia[2 * last] == a[last]);
        assert(is_first_symbol(ia, 2 * first));
        assert(is_last_symbol(ia, 2 * last));
        lemma_trim_bounds(ia, 2 * first, 2 * last);
        assert(ia.subrange(2 * first, 2 * last + 1) =~= interleaved(a.subrange(first, last + 1)));
    }
}

} // verus!
