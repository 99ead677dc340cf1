//! Correlation power analysis on the mean trace of every metadata value.
//!
//! A [`FastCpaProcessor`] puts every trace into the bucket of its metadata
//! value and keeps, for every bucket and sample, the number of traces and
//! their sum. No guess is visited while traces are added: the leakage model
//! is evaluated once, when the modeled leakages of all values are set against
//! the mean traces of the buckets.
use crate::array::{can_allocate, can_allocate_grid, IntArray1, IntArray2};
use crate::leakage::{callable_on, leakage_sums, leakage_sums_fit, tabulate, tabulated_by};
use crate::reduction::{lemma_reduction_is_one_pass, Reduction, splits};
use crate::sums::{
    grid_fits, grid_plus, grid_plus_row, grid_zeros, is_grid, lemma_grid_plus_associative,
    lemma_grid_plus_commutative, lemma_grid_plus_row_commutes, lemma_grid_plus_zeros, seq_ones,
    seq_plus, seq_squares, seq_sum,
};
use vstd::prelude::*;
use vstd::seq_lib::{commutative_foldl, lemma_fold_left_permutation};

verus! {

/// The buckets that a [`FastCpaProcessor`] keeps.
#[verifier::ext_equal]
pub struct FastCpaState {
    /// Number of samples per trace
    pub num_samples: nat,
    /// Index of the metadata value that selects the bucket of a trace
    pub target_byte: nat,
    /// Number of guesses
    pub guess_range: nat,
    /// Number of traces of each metadata value, per sample
    pub num_values: Seq<Seq<int>>,
    /// Sum of the traces of each metadata value, per sample
    pub sum_values: Seq<Seq<int>>,
}

impl FastCpaState {
    /// The state with no trace.
    pub open spec fn new(
        num_samples: nat,
        guess_range: nat,
        plaintext_range: nat,
        target_byte: nat,
    ) -> FastCpaState {
        FastCpaState {
            num_samples,
            target_byte,
            guess_range,
            num_values: grid_zeros(plaintext_range, num_samples),
            sum_values: grid_zeros(plaintext_range, num_samples),
        }
    }

    /// The number of metadata values, which is the number of buckets.
    pub open spec fn plaintext_range(self) -> nat {
        self.num_values.len()
    }

    /// Both grids have a row of `num_samples` elements for every metadata
    /// value.
    pub open spec fn wf(self) -> bool {
        &&& is_grid(self.num_values, self.plaintext_range(), self.num_samples)
        &&& is_grid(self.sum_values, self.plaintext_range(), self.num_samples)
    }

    /// Two states have the same shape and the same target index.
    pub open spec fn compatible(self, other: FastCpaState) -> bool {
        &&& self.num_samples == other.num_samples
        &&& self.target_byte == other.target_byte
        &&& self.guess_range == other.guess_range
        &&& self.plaintext_range() == other.plaintext_range()
    }

    /// Everything in the state is representable.
    pub open spec fn fits(self) -> bool {
        grid_fits(self.num_values) && grid_fits(self.sum_values)
    }

    /// Whether a trace with metadata value `value` can be added to the state.
    pub open spec fn accepts(self, row: (Seq<int>, int)) -> bool {
        row.0.len() == self.num_samples && 0 <= row.1 < self.plaintext_range()
    }

    /// The state after one more trace `row.0` with metadata value `row.1`.
    pub open spec fn update(self, row: (Seq<int>, int)) -> FastCpaState {
        FastCpaState {
            num_samples: self.num_samples,
            target_byte: self.target_byte,
            guess_range: self.guess_range,
            num_values: grid_plus_row(self.num_values, row.1, seq_ones(self.num_samples)),
            sum_values: grid_plus_row(self.sum_values, row.1, row.0),
        }
    }

    /// The state of two sets of traces taken together.
    pub open spec fn merge(self, other: FastCpaState) -> FastCpaState {
        FastCpaState {
            num_samples: self.num_samples,
            target_byte: self.target_byte,
            guess_range: self.guess_range,
            num_values: grid_plus(self.num_values, other.num_values),
            sum_values: grid_plus(self.sum_values, other.sum_values),
        }
    }

    /// The state after `rows`, added one after the other to `self`.
    pub open spec fn accumulate(self, rows: Seq<(Seq<int>, int)>) -> FastCpaState
        decreases rows.len(),
    {
        if rows.len() == 0 {
            self
        } else {
            self.accumulate(rows.drop_last()).update(rows.last())
        }
    }
}

/// Every row can be added to a state of the given shape.
pub open spec fn fast_cpa_rows(
    rows: Seq<(Seq<int>, int)>,
    num_samples: nat,
    plaintext_range: nat,
) -> bool {
    forall|i: int|
        0 <= i < rows.len() ==> (#[trigger] rows[i]).0.len() == num_samples && 0 <= rows[i].1
            < plaintext_range
}

/// Adding rows keeps the shape and the target index of a state.
pub proof fn lemma_fast_cpa_accumulate_shape(state: FastCpaState, rows: Seq<(Seq<int>, int)>)
    requires
        state.wf(),
        fast_cpa_rows(rows, state.num_samples, state.plaintext_range()),
    ensures
        state.accumulate(rows).wf(),
        state.accumulate(rows).compatible(state),
    decreases rows.len(),
{
    if rows.len() > 0 {
        let init = rows.drop_last();
        assert forall|i: int| 0 <= i < init.len() implies (#[trigger] init[i]).0.len()
            == state.num_samples && 0 <= init[i].1 < state.plaintext_range() by {
            assert(init[i] == rows[i]);
        }
        lemma_fast_cpa_accumulate_shape(state, init);
        assert(rows[rows.len() - 1] == rows.last());
    }
}

/// Merging with the state of no trace changes nothing, on either side.
pub proof fn lemma_fast_cpa_merge_identity(s: FastCpaState)
    requires
        s.wf(),
    ensures
        s.merge(
            FastCpaState::new(s.num_samples, s.guess_range, s.plaintext_range(), s.target_byte),
        ) == s,
        FastCpaState::new(s.num_samples, s.guess_range, s.plaintext_range(), s.target_byte).merge(
            s,
        ) == s,
{
    lemma_grid_plus_zeros(s.num_values, s.num_samples);
    lemma_grid_plus_zeros(s.sum_values, s.num_samples);
}

/// Merging does not depend on the order of its operands.
pub proof fn lemma_fast_cpa_merge_commutative(a: FastCpaState, b: FastCpaState)
    requires
        a.wf(),
        b.wf(),
        a.compatible(b),
    ensures
        a.merge(b) == b.merge(a),
{
    lemma_grid_plus_commutative(a.num_values, b.num_values, a.num_samples);
    lemma_grid_plus_commutative(a.sum_values, b.sum_values, a.num_samples);
}

/// Merging does not depend on how its operands are grouped.
pub proof fn lemma_fast_cpa_merge_associative(a: FastCpaState, b: FastCpaState, c: FastCpaState)
    requires
        a.wf(),
        b.wf(),
        c.wf(),
        a.compatible(b),
        b.compatible(c),
    ensures
        a.merge(b).merge(c) == a.merge(b.merge(c)),
{
    lemma_grid_plus_associative(a.num_values, b.num_values, c.num_values, a.num_samples);
    lemma_grid_plus_associative(a.sum_values, b.sum_values, c.sum_values, a.num_samples);
}

/// The state of a batch cut in two is the merge of the states of its parts.
pub proof fn lemma_fast_cpa_accumulate_concat(
    empty: FastCpaState,
    first: Seq<(Seq<int>, int)>,
    second: Seq<(Seq<int>, int)>,
)
    requires
        empty == FastCpaState::new(
            empty.num_samples,
            empty.guess_range,
            empty.plaintext_range(),
            empty.target_byte,
        ),
        fast_cpa_rows(first, empty.num_samples, empty.plaintext_range()),
        fast_cpa_rows(second, empty.num_samples, empty.plaintext_range()),
    ensures
        empty.accumulate(first + second) == empty.accumulate(first).merge(
            empty.accumulate(second),
        ),
    decreases second.len(),
{
    let a = empty.accumulate(first);
    assert(empty.wf());
    lemma_fast_cpa_accumulate_shape(empty, first);
    if second.len() == 0 {
        assert(first + second =~= first);
        lemma_fast_cpa_merge_identity(a);
    } else {
        let init = second.drop_last();
        let row = second.last();
        let b = empty.accumulate(init);
        assert((first + second).drop_last() =~= first + init);
        assert((first + second).last() == row);
        assert forall|i: int| 0 <= i < init.len() implies (#[trigger] init[i]).0.len()
            == empty.num_samples && 0 <= init[i].1 < empty.plaintext_range() by {
            assert(init[i] == second[i]);
        }
        assert(second[second.len() - 1] == row);
        lemma_fast_cpa_accumulate_concat(empty, first, init);
        lemma_fast_cpa_accumulate_shape(empty, init);
        lemma_grid_plus_row_commutes(
            a.num_values,
            b.num_values,
            row.1,
            seq_ones(empty.num_samples),
            empty.num_samples,
        );
        lemma_grid_plus_row_commutes(a.sum_values, b.sum_values, row.1, row.0, empty.num_samples);
    }
}

/// Every reduction of a batch gives the state of the whole batch, whatever
/// the chunks and however the merges are grouped.
pub proof fn lemma_fast_cpa_reduction(
    num_samples: nat,
    guess_range: nat,
    plaintext_range: nat,
    target_byte: nat,
    reduction: Reduction<(Seq<int>, int)>,
)
    requires
        reduction.all_rows(
            |row: (Seq<int>, int)| row.0.len() == num_samples && 0 <= row.1 < plaintext_range,
        ),
    ensures
        reduction.eval(
            |rows: Seq<(Seq<int>, int)>|
                FastCpaState::new(
                    num_samples,
                    guess_range,
                    plaintext_range,
                    target_byte,
                ).accumulate(rows),
            |a: FastCpaState, b: FastCpaState| a.merge(b),
        ) == FastCpaState::new(num_samples, guess_range, plaintext_range, target_byte).accumulate(
            reduction.rows(),
        ),
{
    let empty = FastCpaState::new(num_samples, guess_range, plaintext_range, target_byte);
    let accumulate = |rows: Seq<(Seq<int>, int)>|
        FastCpaState::new(num_samples, guess_range, plaintext_range, target_byte).accumulate(rows);
    let merge = |a: FastCpaState, b: FastCpaState| a.merge(b);
    let valid = |row: (Seq<int>, int)| row.0.len() == num_samples && 0 <= row.1 < plaintext_range;
    assert forall|first: Seq<(Seq<int>, int)>, second: Seq<(Seq<int>, int)>|
        (forall|i: int| 0 <= i < first.len() ==> valid(#[trigger] first[i])) && (forall|i: int|
            0 <= i < second.len() ==> valid(#[trigger] second[i])) implies accumulate(
        first + second,
    ) == #[trigger] merge(accumulate(first), accumulate(second)) by {
        assert forall|i: int| 0 <= i < first.len() implies (#[trigger] first[i]).0.len()
            == num_samples && 0 <= first[i].1 < plaintext_range by {
            assert(valid(first[i]));
        }
        assert forall|i: int| 0 <= i < second.len() implies (#[trigger] second[i]).0.len()
            == num_samples && 0 <= second[i].1 < plaintext_range by {
            assert(valid(second[i]));
        }
        lemma_fast_cpa_accumulate_concat(empty, first, second);
    }
    assert(splits(accumulate, merge, valid));
    lemma_reduction_is_one_pass(reduction, accumulate, merge, valid);
}

/// The state after one more row, if the state is well formed and accepts the
/// row; the state unchanged, if not.
pub open spec fn fast_cpa_update_if_valid(s: FastCpaState, row: (Seq<int>, int)) -> FastCpaState {
    if s.wf() && s.accepts(row) {
        s.update(row)
    } else {
        s
    }
}

/// Adding two rows gives the same state in either order.
pub proof fn lemma_fast_cpa_update_commutes(
    s: FastCpaState,
    first: (Seq<int>, int),
    second: (Seq<int>, int),
)
    ensures
        fast_cpa_update_if_valid(fast_cpa_update_if_valid(s, first), second)
            == fast_cpa_update_if_valid(fast_cpa_update_if_valid(s, second), first),
{
    if s.wf() && s.accepts(first) && s.accepts(second) {
        let a = s.update(first).update(second);
        let b = s.update(second).update(first);
        assert(a.num_values =~~= b.num_values);
        assert(a.sum_values =~~= b.sum_values);
    }
}

/// Adding rows one after the other is folding them with the guarded update.
proof fn lemma_fast_cpa_accumulate_is_fold(empty: FastCpaState, rows: Seq<(Seq<int>, int)>)
    requires
        empty.wf(),
        fast_cpa_rows(rows, empty.num_samples, empty.plaintext_range()),
    ensures
        empty.accumulate(rows) == rows.fold_left(
            empty,
            |s: FastCpaState, row: (Seq<int>, int)| fast_cpa_update_if_valid(s, row),
        ),
    decreases rows.len(),
{
    if rows.len() > 0 {
        let init = rows.drop_last();
        assert forall|i: int| 0 <= i < init.len() implies (#[trigger] init[i]).0.len()
            == empty.num_samples && 0 <= init[i].1 < empty.plaintext_range() by {
            assert(init[i] == rows[i]);
        }
        lemma_fast_cpa_accumulate_is_fold(empty, init);
        lemma_fast_cpa_accumulate_shape(empty, init);
        assert(rows[rows.len() - 1] == rows.last());
    }
}

/// The state of a batch does not depend on the order of its rows: two
/// batches with the same rows, each as often in one as in the other, have
/// the same state.
pub proof fn lemma_fast_cpa_order_independent(
    num_samples: nat,
    guess_range: nat,
    plaintext_range: nat,
    target_byte: nat,
    first: Seq<(Seq<int>, int)>,
    second: Seq<(Seq<int>, int)>,
)
    requires
        fast_cpa_rows(first, num_samples, plaintext_range),
        fast_cpa_rows(second, num_samples, plaintext_range),
        first.to_multiset() == second.to_multiset(),
    ensures
        FastCpaState::new(num_samples, guess_range, plaintext_range, target_byte).accumulate(first)
            == FastCpaState::new(
            num_samples,
            guess_range,
            plaintext_range,
            target_byte,
        ).accumulate(second),
{
    let empty = FastCpaState::new(num_samples, guess_range, plaintext_range, target_byte);
    let step = |s: FastCpaState, row: (Seq<int>, int)| fast_cpa_update_if_valid(s, row);
    assert forall|x: (Seq<int>, int), y: (Seq<int>, int), s: FastCpaState| #[trigger]
        step(step(s, x), y) == step(step(s, y), x) by {
        lemma_fast_cpa_update_commutes(s, x, y);
    }
    assert(commutative_foldl(step));
    assert(empty.wf());
    lemma_fast_cpa_accumulate_is_fold(empty, first);
    lemma_fast_cpa_accumulate_is_fold(empty, second);
    lemma_fold_left_permutation(first, second, step, empty);
}

/// The modeled leakages that the mean traces of the buckets are set against:
/// a table with a row for each guess and a column for each metadata value,
/// and for every guess the sum of its row and the sum of the squares of its
/// row.
pub struct ModeledLeakages {
    pub table: IntArray2,
    pub sums: IntArray1,
    pub sum_squares: IntArray1,
}

/// A processor that accumulates the traces of every metadata value.
pub struct FastCpaProcessor<F> where F: Fn(usize, usize) -> usize {
    num_samples: usize,
    target_byte: usize,
    guess_range: usize,
    plaintext_range: usize,
    num_values: IntArray2,
    sum_values: IntArray2,
    leakage_func: F,
}

impl<F> View for FastCpaProcessor<F> where F: Fn(usize, usize) -> usize {
    type V = FastCpaState;

    /// What the fields hold, as mathematical integers.
    closed spec fn view(&self) -> FastCpaState {
        FastCpaState {
            num_samples: self.num_samples as nat,
            target_byte: self.target_byte as nat,
            guess_range: self.guess_range as nat,
            num_values: self.num_values@,
            sum_values: self.sum_values@,
        }
    }
}

impl<F> FastCpaProcessor<F> where F: Fn(usize, usize) -> usize {
    /// The shape that the processor was created with is the shape of its
    /// grids.
    pub closed spec fn inv(&self) -> bool {
        &&& self.plaintext_range == self@.plaintext_range()
        &&& self.num_values.wf()
        &&& self.sum_values.wf()
        &&& self.num_values.cols() == self.num_samples
        &&& self.sum_values.cols() == self.num_samples
    }

    /// The leakage model that the processor was created with.
    pub closed spec fn leakage_func(&self) -> F {
        self.leakage_func
    }

    /// Creates a processor for traces of `num_samples` samples, for
    /// `guess_range` guesses and `plaintext_range` metadata values, which
    /// reads the metadata value at index `target_byte`.
    pub fn new(
        num_samples: usize,
        guess_range: usize,
        plaintext_range: usize,
        target_byte: usize,
        leakage_func: F,
    ) -> (p: Self)
        requires
            can_allocate_grid(plaintext_range as nat, num_samples as nat),
        ensures
            p@ == FastCpaState::new(
                num_samples as nat,
                guess_range as nat,
                plaintext_range as nat,
                target_byte as nat,
            ),
            p.leakage_func() == leakage_func,
            p@.wf(),
            p.inv(),
    {
        Self {
            num_samples,
            target_byte,
            guess_range,
            num_values: IntArray2::zeros(plaintext_range, num_samples),
            sum_values: IntArray2::zeros(plaintext_range, num_samples),
            leakage_func,
            plaintext_range,
        }
    }

    /// The number of samples per trace.
    pub fn num_samples(&self) -> (n: usize)
        ensures
            n == self@.num_samples,
    {
        self.num_samples
    }

    /// The number of guesses.
    pub fn guess_range(&self) -> (n: usize)
        ensures
            n == self@.guess_range,
    {
        self.guess_range
    }

    /// The number of metadata values.
    pub fn plaintext_range(&self) -> (n: usize)
        requires
            self.inv(),
        ensures
            n == self@.plaintext_range(),
    {
        self.plaintext_range
    }

    /// The index of the metadata value that selects the bucket of a trace.
    pub fn target_byte(&self) -> (n: usize)
        ensures
            n == self@.target_byte,
    {
        self.target_byte
    }

    /// The leakage model that the processor was created with.
    pub fn leakage_model(&self) -> (f: &F)
        ensures
            *f == self.leakage_func(),
    {
        &self.leakage_func
    }

    /// The number of traces of each metadata value, per sample.
    pub fn num_values(&self) -> (n: &IntArray2)
        ensures
            n@ == self@.num_values,
    {
        &self.num_values
    }

    /// The sum of the traces of each metadata value, per sample.
    pub fn sum_values(&self) -> (s: &IntArray2)
        ensures
            s@ == self@.sum_values,
    {
        &self.sum_values
    }

    /// Adds one trace to the bucket of the metadata value at the target
    /// index of `plaintext`.
    pub fn update(&mut self, trace: &IntArray1, plaintext: &IntArray1)
        requires
            old(self)@.wf(),
            old(self).inv(),
            old(self)@.target_byte < plaintext@.len(),
            old(self)@.accepts((trace@, plaintext@[old(self)@.target_byte as int])),
            can_allocate(old(self)@.num_samples),
            old(self)@.update((trace@, plaintext@[old(self)@.target_byte as int])).fits(),
        ensures
            final(self)@ == old(self)@.update((trace@, plaintext@[old(self)@.target_byte as int])),
            final(self).leakage_func() == old(self).leakage_func(),
            final(self)@.wf(),
            final(self).inv(),
    {
        let plaintext_byte = plaintext.get(self.target_byte) as usize;
        let mut ones = IntArray1::zeros(self.num_samples);
        let mut i: usize = 0;
        while i < self.num_samples
            invariant
                i <= self.num_samples,
                ones@.len() == self.num_samples,
                forall|k: int| 0 <= k < i ==> #[trigger] ones@[k] == 1,
            decreases self.num_samples - i,
        {
            ones.set(i, 1);
            i += 1;
        }
        proof {
            assert(ones@ =~= seq_ones(self.num_samples as nat));
            let after = old(self)@.update((trace@, plaintext_byte as int));
            assert(after.num_values[plaintext_byte as int] == seq_plus(
                old(self)@.num_values[plaintext_byte as int],
                ones@,
            ));
            assert(after.sum_values[plaintext_byte as int] == seq_plus(
                old(self)@.sum_values[plaintext_byte as int],
                trace@,
            ));
        }
        self.num_values.accumulate_row(plaintext_byte, &ones);
        self.sum_values.accumulate_row(plaintext_byte, trace);
    }

    /// Evaluates the leakage model for every metadata value and every guess,
    /// and adds up the modeled leakages of every guess and their squares.
    pub fn finalize(&self) -> (modeled: ModeledLeakages)
        requires
            self.inv(),
            can_allocate(self@.guess_range),
            can_allocate_grid(self@.guess_range, self@.plaintext_range()),
            callable_on(self.leakage_func(), self@.plaintext_range(), self@.guess_range),
            forall|table: Seq<Seq<int>>|
                is_grid(table, self@.guess_range, self@.plaintext_range())
                    && #[trigger] tabulated_by(self.leakage_func(), table) ==> leakage_sums_fit(
                    table,
                ),
        ensures
            modeled.table.wf(),
            modeled.table.cols() == self@.plaintext_range(),
            is_grid(modeled.table@, self@.guess_range, self@.plaintext_range()),
            tabulated_by(self.leakage_func(), modeled.table@),
            modeled.sums@ == Seq::new(self@.guess_range, |g: int| seq_sum(modeled.table@[g])),
            modeled.sum_squares@ == Seq::new(
                self@.guess_range,
                |g: int| seq_sum(seq_squares(modeled.table@[g])),
            ),
    {
        let table = tabulate(&self.leakage_func, self.plaintext_range, self.guess_range);
        proof {
            assert(is_grid(table@, self@.guess_range, self@.plaintext_range()));
        }
        let (sums, sum_squares) = leakage_sums(&table);
        ModeledLeakages { table, sums, sum_squares }
    }

    /// Whether two processors can be merged: they were created with the same
    /// number of samples, the same ranges and the same target index. Their
    /// leakage models cannot be compared, and must be the same as well.
    pub fn is_compatible_with(&self, other: &Self) -> (b: bool)
        requires
            self.inv(),
            other.inv(),
        ensures
            b == self@.compatible(other@),
    {
        self.num_samples == other.num_samples && self.target_byte == other.target_byte
            && self.guess_range == other.guess_range && self.plaintext_range
            == other.plaintext_range
    }

    /// Merges two processors into the processor of all the traces either has
    /// seen, with the leakage model of the first.
    pub fn merge(self, rhs: Self) -> (merged: Self)
        requires
            self@.wf(),
            rhs@.wf(),
            self.inv(),
            rhs.inv(),
            self@.compatible(rhs@),
            self@.merge(rhs@).fits(),
        ensures
            merged@ == self@.merge(rhs@),
            merged.leakage_func() == self.leakage_func(),
            merged@.wf(),
            merged.inv(),
    {
        Self {
            num_samples: self.num_samples,
            target_byte: self.target_byte,
            guess_range: self.guess_range,
            plaintext_range: self.plaintext_range,
            num_values: self.num_values.plus(rhs.num_values),
            sum_values: self.sum_values.plus(rhs.sum_values),
            leakage_func: self.leakage_func,
        }
    }
}

/// The traces of a batch as rows, each with its metadata value at index
/// `target_byte`.
pub open spec fn fast_cpa_batch(
    traces: Seq<Seq<int>>,
    plaintexts: Seq<Seq<int>>,
    target_byte: int,
) -> Seq<(Seq<int>, int)> {
    Seq::new(traces.len(), |i: int| (traces[i], plaintexts[i][target_byte]))
}

/// Whether every run of consecutive rows of a batch accumulates without
/// overflow.
pub open spec fn fast_cpa_runs_fit(empty: FastCpaState, rows: Seq<(Seq<int>, int)>) -> bool {
    forall|from: int, to: int|
        0 <= from <= to <= rows.len() ==> (#[trigger] empty.accumulate(
            rows.subrange(from, to),
        )).fits()
}

/// The rows of a run of a batch are rows of the batch.
proof fn lemma_fast_cpa_rows_of_run(
    num_samples: nat,
    plaintext_range: nat,
    rows: Seq<(Seq<int>, int)>,
    from: int,
    to: int,
)
    requires
        fast_cpa_rows(rows, num_samples, plaintext_range),
        0 <= from <= to <= rows.len(),
    ensures
        fast_cpa_rows(rows.subrange(from, to), num_samples, plaintext_range),
{
    let run = rows.subrange(from, to);
    assert forall|i: int| 0 <= i < run.len() implies (#[trigger] run[i]).0.len() == num_samples
        && 0 <= run[i].1 < plaintext_range by {
        assert(run[i] == rows[from + i]);
    }
}

/// Accumulates a batch of traces into the buckets of their metadata values,
/// `chunk_size` traces at a time: every chunk gets a processor of its own,
/// and the processors of the chunks are merged. The result is the processor
/// of the whole batch.
pub fn cpa<F>(
    leakages: &IntArray2,
    plaintexts: &IntArray2,
    guess_range: usize,
    plaintext_range: usize,
    target_byte: usize,
    leakage_func: F,
    chunk_size: usize,
) -> (p: FastCpaProcessor<F>) where F: Fn(usize, usize) -> usize + Copy
    requires
        leakages.wf(),
        plaintexts.wf(),
        leakages@.len() == plaintexts@.len(),
        leakages@.len() > 0,
        chunk_size > 0,
        target_byte < plaintexts.cols(),
        forall|i: int|
            0 <= i < plaintexts@.len() ==> 0 <= (#[trigger] plaintexts@[i])[target_byte as int]
                < plaintext_range,
        can_allocate(leakages.cols()),
        can_allocate_grid(plaintext_range as nat, leakages.cols()),
        fast_cpa_runs_fit(
            FastCpaState::new(
                leakages.cols(),
                guess_range as nat,
                plaintext_range as nat,
                target_byte as nat,
            ),
            fast_cpa_batch(leakages@, plaintexts@, target_byte as int),
        ),
    ensures
        p@ == FastCpaState::new(
            leakages.cols(),
            guess_range as nat,
            plaintext_range as nat,
            target_byte as nat,
        ).accumulate(fast_cpa_batch(leakages@, plaintexts@, target_byte as int)),
        p.leakage_func() == leakage_func,
        p@.wf(),
        p.inv(),
{
    let n = leakages.nrows();
    let size = leakages.ncols();
    let ghost empty = FastCpaState::new(
        size as nat,
        guess_range as nat,
        plaintext_range as nat,
        target_byte as nat,
    );
    let ghost rows = fast_cpa_batch(leakages@, plaintexts@, target_byte as int);
    let mut total = FastCpaProcessor::new(
        size,
        guess_range,
        plaintext_range,
        target_byte,
        leakage_func,
    );
    let mut start: usize = 0;
    proof {
        assert(rows.subrange(0, 0) =~= Seq::empty());
        assert forall|i: int| 0 <= i < rows.len() implies (#[trigger] rows[i]).0.len() == size
            && 0 <= rows[i].1 < plaintext_range by {
            assert(leakages@[i].len() == size);
            assert(0 <= plaintexts@[i][target_byte as int] < plaintext_range);
        }
    }
    while start < n
        invariant
            leakages.wf(),
            plaintexts.wf(),
            n == leakages@.len(),
            n == plaintexts@.len(),
            size == leakages.cols(),
            target_byte < plaintexts.cols(),
            can_allocate(size as nat),
            can_allocate_grid(plaintext_range as nat, size as nat),
            chunk_size > 0,
            empty == FastCpaState::new(
                size as nat,
                guess_range as nat,
                plaintext_range as nat,
                target_byte as nat,
            ),
            rows == fast_cpa_batch(leakages@, plaintexts@, target_byte as int),
            fast_cpa_rows(rows, size as nat, plaintext_range as nat),
            fast_cpa_runs_fit(empty, rows),
            start <= n,
            total@ == empty.accumulate(rows.subrange(0, start as int)),
            total.leakage_func() == leakage_func,
            total@.wf(),
            total.inv(),
        decreases n - start,
    {
        let end = if chunk_size < n - start {
            start + chunk_size
        } else {
            n
        };
        let mut chunk = FastCpaProcessor::new(
            size,
            guess_range,
            plaintext_range,
            target_byte,
            leakage_func,
        );
        let mut i = start;
        proof {
            assert(rows.subrange(start as int, start as int) =~= Seq::empty());
        }
        while i < end
            invariant
                leakages.wf(),
                plaintexts.wf(),
                n == leakages@.len(),
                n == plaintexts@.len(),
                size == leakages.cols(),
                target_byte < plaintexts.cols(),
                can_allocate(size as nat),
                empty == FastCpaState::new(
                    size as nat,
                    guess_range as nat,
                    plaintext_range as nat,
                    target_byte as nat,
                ),
                rows == fast_cpa_batch(leakages@, plaintexts@, target_byte as int),
                fast_cpa_rows(rows, size as nat, plaintext_range as nat),
                fast_cpa_runs_fit(empty, rows),
                start <= i <= end <= n,
                chunk@ == empty.accumulate(rows.subrange(start as int, i as int)),
                chunk.leakage_func() == leakage_func,
                chunk@.wf(),
                chunk.inv(),
            decreases end - i,
        {
            let trace = leakages.row(i);
            let plaintext = plaintexts.row(i);
            proof {
                assert(plaintexts@[i as int].len() == plaintexts.cols());
                assert(rows[i as int] == (trace@, plaintext@[target_byte as int]));
                assert(rows.subrange(start as int, i + 1).drop_last() =~= rows.subrange(
                    start as int,
                    i as int,
                ));
                lemma_fast_cpa_rows_of_run(
                    size as nat,
                    plaintext_range as nat,
                    rows,
                    start as int,
                    i as int,
                );
                lemma_fast_cpa_accumulate_shape(empty, rows.subrange(start as int, i as int));
                assert(empty.accumulate(rows.subrange(start as int, i + 1)).fits());
            }
            chunk.update(&trace, &plaintext);
            i += 1;
        }
        proof {
            let first = rows.subrange(0, start as int);
            let second = rows.subrange(start as int, end as int);
            assert(first + second =~= rows.subrange(0, end as int));
            lemma_fast_cpa_rows_of_run(size as nat, plaintext_range as nat, rows, 0, start as int);
            lemma_fast_cpa_rows_of_run(
                size as nat,
                plaintext_range as nat,
                rows,
                start as int,
                end as int,
            );
            lemma_fast_cpa_accumulate_concat(empty, first, second);
            lemma_fast_cpa_accumulate_shape(empty, first);
            lemma_fast_cpa_accumulate_shape(empty, second);
            assert(empty.accumulate(rows.subrange(0, end as int)).fits());
        }
        total = total.merge(chunk);
        start = end;
    }
    proof {
        assert(rows.subrange(0, n as int) =~= rows);
    }
    total
}

/// Every reduction of the rows of a batch gives the state of the batch:
/// whatever the chunks, in whatever order the rows are taken, and however the
/// merges are grouped.
pub proof fn lemma_fast_cpa_reduction_in_any_order(
    num_samples: nat,
    guess_range: nat,
    plaintext_range: nat,
    target_byte: nat,
    reduction: Reduction<(Seq<int>, int)>,
    batch: Seq<(Seq<int>, int)>,
)
    requires
        fast_cpa_rows(batch, num_samples, plaintext_range),
        reduction.all_rows(
            |row: (Seq<int>, int)| row.0.len() == num_samples && 0 <= row.1 < plaintext_range,
        ),
        reduction.rows().to_multiset() == batch.to_multiset(),
    ensures
        reduction.eval(
            |rows: Seq<(Seq<int>, int)>|
                FastCpaState::new(
                    num_samples,
                    guess_range,
                    plaintext_range,
                    target_byte,
                ).accumulate(rows),
            |a: FastCpaState, b: FastCpaState| a.merge(b),
        ) == FastCpaState::new(num_samples, guess_range, plaintext_range, target_byte).accumulate(
            batch,
        ),
{
    let valid = |row: (Seq<int>, int)| row.0.len() == num_samples && 0 <= row.1 < plaintext_range;
    let rows = reduction.rows();
    assert forall|i: int| 0 <= i < rows.len() implies (#[trigger] rows[i]).0.len() == num_samples
        && 0 <= rows[i].1 < plaintext_range by {
        assert(valid(rows[i]));
    }
    lemma_fast_cpa_reduction(num_samples, guess_range, plaintext_range, target_byte, reduction);
    lemma_fast_cpa_order_independent(
        num_samples,
        guess_range,
        plaintext_range,
        target_byte,
        rows,
        batch,
    );
}

} // verus!
