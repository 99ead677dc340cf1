//! Correlation power analysis with sums partitioned by metadata value.
//!
//! A [`CpaProcessor`] visits every trace once. It keeps the sum and the sum
//! of squares of the traces, the sum and the sum of squares of the modeled
//! leakage of every guess, and the sum of the traces of every metadata
//! value. From those, [`CpaProcessor::finalize`] computes for every guess and
//! sample the sum of the products of modeled leakage and sample, which with
//! the other sums determines the Pearson correlation coefficient.
use crate::array::{can_allocate, can_allocate_grid, IntArray1, IntArray2};
use crate::leakage::{
    callable_for, callable_on, leakages_of_value, modeled_by, tabulate, tabulated_by,
};
use crate::reduction::{lemma_reduction_is_one_pass, Reduction, splits};
use crate::sums::{
    grid_column, grid_fits, grid_plus, grid_plus_row, grid_zeros, is_grid,
    lemma_grid_plus_associative, lemma_grid_plus_commutative, lemma_grid_plus_row_commutes,
    lemma_grid_plus_zeros, lemma_seq_dot_update, lemma_seq_dot_zeros, lemma_seq_plus_associative,
    lemma_seq_plus_commutative, lemma_seq_plus_zeros, lemma_seq_sum_update, lemma_seq_sum_zeros,
    lemma_squares_fit, seq_dot, seq_dot_magnitude, seq_fits, seq_nonnegative, seq_plus, seq_squares,
    seq_sum, seq_zeros,
};
use crate::util::{argmax, argsort, is_argmax, is_ranking, max_per_row, seq_max};
use vstd::prelude::*;
use vstd::seq_lib::{commutative_foldl, lemma_fold_left_permutation};

verus! {

/// The scores of a correlation power analysis, one row for each guess and
/// one column for each sample.
///
/// A score is held as its order key: an integer that compares with the key
/// of another score as the scores compare.
pub struct Cpa {
    /// Order keys of the Pearson correlation coefficients
    corr: IntArray2,
}

impl View for Cpa {
    type V = Seq<Seq<int>>;

    /// What the fields hold, as mathematical integers.
    closed spec fn view(&self) -> Seq<Seq<int>> {
        self.corr@
    }
}

impl Cpa {
    /// The number of samples for which every guess has a score.
    pub closed spec fn num_samples(&self) -> nat {
        self.corr.cols()
    }

    /// Every guess has a score for every sample.
    pub closed spec fn inv(&self) -> bool {
        self.corr.wf()
    }

    /// The greatest score of every guess.
    pub open spec fn max_scores(&self) -> Seq<int> {
        Seq::new(self@.len(), |g: int| seq_max(self@[g]))
    }

    /// The result with the given scores.
    pub fn new(corr: IntArray2) -> (cpa: Cpa)
        requires
            corr.wf(),
        ensures
            cpa@ == corr@,
            cpa.num_samples() == corr.cols(),
            cpa.inv(),
    {
        Cpa { corr }
    }

    /// Ranks the guesses by their greatest score, in ascending order: the
    /// guess with the greatest score of all comes last.
    pub fn rank(&self) -> (rank: Vec<usize>)
        requires
            self.inv(),
            self.num_samples() > 0,
        ensures
            is_ranking(self.max_scores(), rank@),
    {
        let max_corr = self.max_corr();
        argsort(&max_corr)
    }

    /// The scores.
    pub fn corr(&self) -> (corr: &IntArray2)
        requires
            self.inv(),
        ensures
            corr@ == self@,
            corr.wf(),
            corr.cols() == self.num_samples(),
    {
        &self.corr
    }

    /// The guess with the greatest score, the first one if several guesses
    /// reach it.
    pub fn best_guess(&self) -> (guess: usize)
        requires
            self.inv(),
            self.num_samples() > 0,
        ensures
            is_argmax(self.max_scores(), guess as int),
    {
        let max_corr = self.max_corr();
        argmax(&max_corr)
    }

    /// The greatest score of every guess.
    pub fn max_corr(&self) -> (max_corr: IntArray1)
        requires
            self.inv(),
            self.num_samples() > 0,
        ensures
            max_corr@ == self.max_scores(),
    {
        max_per_row(&self.corr)
    }
}

/// One trace as the processor sees it: its samples, the metadata value at
/// the target index, and the modeled leakage of that value for every guess.
pub struct CpaRow {
    pub trace: Seq<int>,
    pub value: int,
    pub leakages: Seq<int>,
}

/// The sums that a [`CpaProcessor`] keeps.
#[verifier::ext_equal]
pub struct CpaState {
    /// Index of the metadata value that partitions the traces
    pub target_byte: nat,
    /// Number of traces
    pub num_traces: nat,
    /// Sum of the traces, per sample
    pub sum_traces: Seq<int>,
    /// Sum of the squares of the traces, per sample
    pub sum_square_traces: Seq<int>,
    /// Sum of the modeled leakages, per guess
    pub guess_sum_traces: Seq<int>,
    /// Sum of the squares of the modeled leakages, per guess
    pub guess_sum_squares_traces: Seq<int>,
    /// Sum of the traces of each metadata value, per sample
    pub plaintext_sum_traces: Seq<Seq<int>>,
}

impl CpaState {
    /// The state with no trace.
    pub open spec fn new(num_samples: nat, guess_range: nat, target_byte: nat) -> CpaState {
        CpaState {
            target_byte,
            num_traces: 0,
            sum_traces: seq_zeros(num_samples),
            sum_square_traces: seq_zeros(num_samples),
            guess_sum_traces: seq_zeros(guess_range),
            guess_sum_squares_traces: seq_zeros(guess_range),
            plaintext_sum_traces: grid_zeros(guess_range, num_samples),
        }
    }

    /// The number of samples per trace.
    pub open spec fn num_samples(self) -> nat {
        self.sum_traces.len()
    }

    /// The number of guesses, which is also the number of metadata values.
    pub open spec fn guess_range(self) -> nat {
        self.guess_sum_traces.len()
    }

    /// Every sum has the shape of the state, and no sum of squares is
    /// negative.
    pub open spec fn wf(self) -> bool {
        &&& self.sum_square_traces.len() == self.num_samples()
        &&& self.guess_sum_squares_traces.len() == self.guess_range()
        &&& is_grid(self.plaintext_sum_traces, self.guess_range(), self.num_samples())
        &&& seq_nonnegative(self.sum_square_traces)
        &&& seq_nonnegative(self.guess_sum_squares_traces)
    }

    /// Two states have the same shape and the same target index.
    pub open spec fn compatible(self, other: CpaState) -> bool {
        &&& self.num_samples() == other.num_samples()
        &&& self.guess_range() == other.guess_range()
        &&& self.target_byte == other.target_byte
    }

    /// Everything in the state is representable.
    pub open spec fn fits(self) -> bool {
        &&& self.num_traces <= usize::MAX
        &&& seq_fits(self.sum_traces)
        &&& seq_fits(self.sum_square_traces)
        &&& seq_fits(self.guess_sum_traces)
        &&& seq_fits(self.guess_sum_squares_traces)
        &&& grid_fits(self.plaintext_sum_traces)
    }

    /// Whether `row` can be added to the state: its trace and its leakages
    /// have the shape of the state, and its value is one of the metadata
    /// values.
    pub open spec fn accepts(self, row: CpaRow) -> bool {
        &&& row.trace.len() == self.num_samples()
        &&& row.leakages.len() == self.guess_range()
        &&& 0 <= row.value < self.guess_range()
    }

    /// The state after one more trace.
    pub open spec fn update(self, row: CpaRow) -> CpaState {
        CpaState {
            target_byte: self.target_byte,
            num_traces: self.num_traces + 1,
            sum_traces: seq_plus(self.sum_traces, row.trace),
            sum_square_traces: seq_plus(self.sum_square_traces, seq_squares(row.trace)),
            guess_sum_traces: seq_plus(self.guess_sum_traces, row.leakages),
            guess_sum_squares_traces: seq_plus(
                self.guess_sum_squares_traces,
                seq_squares(row.leakages),
            ),
            plaintext_sum_traces: grid_plus_row(self.plaintext_sum_traces, row.value, row.trace),
        }
    }

    /// The state of two sets of traces taken together.
    pub open spec fn merge(self, other: CpaState) -> CpaState {
        CpaState {
            target_byte: self.target_byte,
            num_traces: self.num_traces + other.num_traces,
            sum_traces: seq_plus(self.sum_traces, other.sum_traces),
            sum_square_traces: seq_plus(self.sum_square_traces, other.sum_square_traces),
            guess_sum_traces: seq_plus(self.guess_sum_traces, other.guess_sum_traces),
            guess_sum_squares_traces: seq_plus(
                self.guess_sum_squares_traces,
                other.guess_sum_squares_traces,
            ),
            plaintext_sum_traces: grid_plus(self.plaintext_sum_traces, other.plaintext_sum_traces),
        }
    }

    /// The state after `rows`, added one after the other to `self`.
    pub open spec fn accumulate(self, rows: Seq<CpaRow>) -> CpaState
        decreases rows.len(),
    {
        if rows.len() == 0 {
            self
        } else {
            self.accumulate(rows.drop_last()).update(rows.last())
        }
    }

    /// The sum, over the metadata values, of the sum of the traces of a value
    /// at sample `sample`, times the leakage that `table` gives for the value
    /// and `guess`.
    pub open spec fn cross_sum(self, table: Seq<Seq<int>>, guess: int, sample: int) -> int {
        seq_dot(grid_column(self.plaintext_sum_traces, sample), table[guess])
    }

    /// The magnitudes of the products that make up a cross sum, added up.
    pub open spec fn cross_magnitude(self, table: Seq<Seq<int>>, guess: int, sample: int) -> int {
        seq_dot_magnitude(grid_column(self.plaintext_sum_traces, sample), table[guess])
    }

    /// The cross sums for every guess and sample, a row for each guess.
    pub open spec fn cross_sums(self, table: Seq<Seq<int>>) -> Seq<Seq<int>> {
        Seq::new(
            self.guess_range(),
            |g: int| Seq::new(self.num_samples(), |u: int| self.cross_sum(table, g, u)),
        )
    }

    /// Whether every cross sum can be computed without overflow, whatever the
    /// order in which its products are added.
    pub open spec fn cross_sums_fit(self, table: Seq<Seq<int>>) -> bool {
        forall|g: int, u: int|
            0 <= g < self.guess_range() && 0 <= u < self.num_samples()
                ==> #[trigger] self.cross_magnitude(table, g, u) <= i128::MAX
    }
}

/// Every row can be added to a state of the given shape.
pub open spec fn cpa_rows(rows: Seq<CpaRow>, num_samples: nat, guess_range: nat) -> bool {
    forall|i: int|
        0 <= i < rows.len() ==> {
            &&& (#[trigger] rows[i]).trace.len() == num_samples
            &&& rows[i].leakages.len() == guess_range
            &&& 0 <= rows[i].value < guess_range
        }
}

/// Adding rows keeps the shape and the target index of a state, and counts
/// the rows.
pub proof fn lemma_cpa_accumulate_shape(state: CpaState, rows: Seq<CpaRow>)
    requires
        state.wf(),
        cpa_rows(rows, state.num_samples(), state.guess_range()),
    ensures
        state.accumulate(rows).wf(),
        state.accumulate(rows).compatible(state),
        state.accumulate(rows).num_traces == state.num_traces + rows.len(),
    decreases rows.len(),
{
    if rows.len() > 0 {
        let init = rows.drop_last();
        assert forall|i: int| 0 <= i < init.len() implies (#[trigger] init[i]).trace.len()
            == state.num_samples() && init[i].leakages.len() == state.guess_range() && 0
            <= init[i].value < state.guess_range() by {
            assert(init[i] == rows[i]);
        }
        lemma_cpa_accumulate_shape(state, init);
        let row = rows[rows.len() - 1];
        lemma_cpa_update_wf(state.accumulate(init), row);
    }
}

/// Adding a row keeps a state well formed.
pub proof fn lemma_cpa_update_wf(state: CpaState, row: CpaRow)
    requires
        state.wf(),
        state.accepts(row),
    ensures
        state.update(row).wf(),
        state.update(row).compatible(state),
{
    let after = state.update(row);
    assert forall|i: int| 0 <= i < after.sum_square_traces.len() implies 0
        <= #[trigger] after.sum_square_traces[i] by {
        assert(0 <= row.trace[i] * row.trace[i]) by (nonlinear_arith);
    }
    assert forall|i: int| 0 <= i < after.guess_sum_squares_traces.len() implies 0
        <= #[trigger] after.guess_sum_squares_traces[i] by {
        assert(0 <= row.leakages[i] * row.leakages[i]) by (nonlinear_arith);
    }
}

/// Merging with the state of no trace changes nothing, on either side.
pub proof fn lemma_cpa_merge_identity(s: CpaState)
    requires
        s.wf(),
    ensures
        s.merge(CpaState::new(s.num_samples(), s.guess_range(), s.target_byte)) == s,
        CpaState::new(s.num_samples(), s.guess_range(), s.target_byte).merge(s) == s,
{
    lemma_seq_plus_zeros(s.sum_traces);
    lemma_seq_plus_zeros(s.sum_square_traces);
    lemma_seq_plus_zeros(s.guess_sum_traces);
    lemma_seq_plus_zeros(s.guess_sum_squares_traces);
    lemma_grid_plus_zeros(s.plaintext_sum_traces, s.num_samples());
}

/// Merging does not depend on the order of its operands.
pub proof fn lemma_cpa_merge_commutative(a: CpaState, b: CpaState)
    requires
        a.wf(),
        b.wf(),
        a.compatible(b),
    ensures
        a.merge(b) == b.merge(a),
{
    lemma_seq_plus_commutative(a.sum_traces, b.sum_traces);
    lemma_seq_plus_commutative(a.sum_square_traces, b.sum_square_traces);
    lemma_seq_plus_commutative(a.guess_sum_traces, b.guess_sum_traces);
    lemma_seq_plus_commutative(a.guess_sum_squares_traces, b.guess_sum_squares_traces);
    lemma_grid_plus_commutative(a.plaintext_sum_traces, b.plaintext_sum_traces, a.num_samples());
}

/// Merging does not depend on how its operands are grouped.
pub proof fn lemma_cpa_merge_associative(a: CpaState, b: CpaState, c: CpaState)
    requires
        a.wf(),
        b.wf(),
        c.wf(),
        a.compatible(b),
        b.compatible(c),
    ensures
        a.merge(b).merge(c) == a.merge(b.merge(c)),
{
    lemma_seq_plus_associative(a.sum_traces, b.sum_traces, c.sum_traces);
    lemma_seq_plus_associative(a.sum_square_traces, b.sum_square_traces, c.sum_square_traces);
    lemma_seq_plus_associative(a.guess_sum_traces, b.guess_sum_traces, c.guess_sum_traces);
    lemma_seq_plus_associative(
        a.guess_sum_squares_traces,
        b.guess_sum_squares_traces,
        c.guess_sum_squares_traces,
    );
    lemma_grid_plus_associative(
        a.plaintext_sum_traces,
        b.plaintext_sum_traces,
        c.plaintext_sum_traces,
        a.num_samples(),
    );
}

/// Adding a row after a merge is merging with the operand to which the row
/// was added.
pub proof fn lemma_cpa_update_after_merge(a: CpaState, b: CpaState, row: CpaRow)
    requires
        a.wf(),
        b.wf(),
        a.compatible(b),
        b.accepts(row),
    ensures
        a.merge(b).update(row) == a.merge(b.update(row)),
{
    lemma_seq_plus_associative(a.sum_traces, b.sum_traces, row.trace);
    lemma_seq_plus_associative(a.sum_square_traces, b.sum_square_traces, seq_squares(row.trace));
    lemma_seq_plus_associative(a.guess_sum_traces, b.guess_sum_traces, row.leakages);
    lemma_seq_plus_associative(
        a.guess_sum_squares_traces,
        b.guess_sum_squares_traces,
        seq_squares(row.leakages),
    );
    lemma_grid_plus_row_commutes(
        a.plaintext_sum_traces,
        b.plaintext_sum_traces,
        row.value,
        row.trace,
        a.num_samples(),
    );
}

/// The state of a batch cut in two is the merge of the states of its parts:
/// adding `first` and then `second` to an empty state is merging what each
/// gives on its own.
pub proof fn lemma_cpa_accumulate_concat(
    num_samples: nat,
    guess_range: nat,
    target_byte: nat,
    first: Seq<CpaRow>,
    second: Seq<CpaRow>,
)
    requires
        cpa_rows(first, num_samples, guess_range),
        cpa_rows(second, num_samples, guess_range),
    ensures
        CpaState::new(num_samples, guess_range, target_byte).accumulate(first + second)
            == CpaState::new(num_samples, guess_range, target_byte).accumulate(first).merge(
            CpaState::new(num_samples, guess_range, target_byte).accumulate(second),
        ),
    decreases second.len(),
{
    let empty = CpaState::new(num_samples, guess_range, target_byte);
    let a = empty.accumulate(first);
    assert(empty.wf());
    lemma_cpa_accumulate_shape(empty, first);
    if second.len() == 0 {
        assert(first + second =~= first);
        lemma_cpa_merge_identity(a);
    } else {
        let init = second.drop_last();
        let row = second.last();
        assert((first + second).drop_last() =~= first + init);
        assert((first + second).last() == row);
        assert forall|i: int| 0 <= i < init.len() implies (#[trigger] init[i]).trace.len()
            == num_samples && init[i].leakages.len() == guess_range && 0 <= init[i].value
            < guess_range by {
            assert(init[i] == second[i]);
        }
        assert(second[second.len() - 1] == row);
        lemma_cpa_accumulate_concat(num_samples, guess_range, target_byte, first, init);
        lemma_cpa_accumulate_shape(empty, init);
        lemma_cpa_update_after_merge(a, empty.accumulate(init), row);
    }
}

/// Every reduction of a batch gives the state of the whole batch, whatever
/// the chunks and however the merges are grouped.
pub proof fn lemma_cpa_reduction(
    num_samples: nat,
    guess_range: nat,
    target_byte: nat,
    reduction: Reduction<CpaRow>,
)
    requires
        reduction.all_rows(
            |row: CpaRow|
                row.trace.len() == num_samples && row.leakages.len() == guess_range && 0
                    <= row.value < guess_range,
        ),
    ensures
        reduction.eval(
            |rows: Seq<CpaRow>|
                CpaState::new(num_samples, guess_range, target_byte).accumulate(rows),
            |a: CpaState, b: CpaState| a.merge(b),
        ) == CpaState::new(num_samples, guess_range, target_byte).accumulate(reduction.rows()),
{
    let accumulate = |rows: Seq<CpaRow>|
        CpaState::new(num_samples, guess_range, target_byte).accumulate(rows);
    let merge = |a: CpaState, b: CpaState| a.merge(b);
    let valid = |row: CpaRow|
        row.trace.len() == num_samples && row.leakages.len() == guess_range && 0 <= row.value
            < guess_range;
    assert forall|first: Seq<CpaRow>, second: Seq<CpaRow>|
        (forall|i: int| 0 <= i < first.len() ==> valid(#[trigger] first[i])) && (forall|i: int|
            0 <= i < second.len() ==> valid(#[trigger] second[i])) implies accumulate(
        first + second,
    ) == #[trigger] merge(accumulate(first), accumulate(second)) by {
        assert forall|i: int| 0 <= i < first.len() implies (#[trigger] first[i]).trace.len()
            == num_samples && first[i].leakages.len() == guess_range && 0 <= first[i].value
            < guess_range by {
            assert(valid(first[i]));
        }
        assert forall|i: int| 0 <= i < second.len() implies (#[trigger] second[i]).trace.len()
            == num_samples && second[i].leakages.len() == guess_range && 0 <= second[i].value
            < guess_range by {
            assert(valid(second[i]));
        }
        lemma_cpa_accumulate_concat(num_samples, guess_range, target_byte, first, second);
    }
    assert(splits(accumulate, merge, valid));
    lemma_reduction_is_one_pass(reduction, accumulate, merge, valid);
}

/// The state after one more row, if the state has the shape of its sums and
/// accepts the row; the state unchanged, if not.
pub open spec fn cpa_update_if_valid(s: CpaState, row: CpaRow) -> CpaState {
    if s.sum_square_traces.len() == s.num_samples() && s.guess_sum_squares_traces.len()
        == s.guess_range() && is_grid(s.plaintext_sum_traces, s.guess_range(), s.num_samples())
        && s.accepts(row) {
        s.update(row)
    } else {
        s
    }
}

/// Adding two rows gives the same state in either order.
pub proof fn lemma_cpa_update_commutes(s: CpaState, first: CpaRow, second: CpaRow)
    ensures
        cpa_update_if_valid(cpa_update_if_valid(s, first), second) == cpa_update_if_valid(
            cpa_update_if_valid(s, second),
            first,
        ),
{
    if s.sum_square_traces.len() == s.num_samples() && s.guess_sum_squares_traces.len()
        == s.guess_range() && is_grid(s.plaintext_sum_traces, s.guess_range(), s.num_samples())
        && s.accepts(first) && s.accepts(second) {
        let a = s.update(first).update(second);
        let b = s.update(second).update(first);
        assert(a.sum_traces =~= b.sum_traces);
        assert(a.sum_square_traces =~= b.sum_square_traces);
        assert(a.guess_sum_traces =~= b.guess_sum_traces);
        assert(a.guess_sum_squares_traces =~= b.guess_sum_squares_traces);
        assert(a.plaintext_sum_traces =~~= b.plaintext_sum_traces);
    }
}

/// Adding rows one after the other is folding them with the guarded update.
proof fn lemma_cpa_accumulate_is_fold(empty: CpaState, rows: Seq<CpaRow>)
    requires
        empty.wf(),
        cpa_rows(rows, empty.num_samples(), empty.guess_range()),
    ensures
        empty.accumulate(rows) == rows.fold_left(
            empty,
            |s: CpaState, row: CpaRow| cpa_update_if_valid(s, row),
        ),
    decreases rows.len(),
{
    if rows.len() > 0 {
        let init = rows.drop_last();
        assert forall|i: int| 0 <= i < init.len() implies (#[trigger] init[i]).trace.len()
            == empty.num_samples() && init[i].leakages.len() == empty.guess_range() && 0
            <= init[i].value < empty.guess_range() by {
            assert(init[i] == rows[i]);
        }
        lemma_cpa_accumulate_is_fold(empty, init);
        lemma_cpa_accumulate_shape(empty, init);
        assert(rows[rows.len() - 1] == rows.last());
    }
}

/// The state of a batch does not depend on the order of its rows: two
/// batches with the same rows, each as often in one as in the other, have
/// the same state.
pub proof fn lemma_cpa_order_independent(
    num_samples: nat,
    guess_range: nat,
    target_byte: nat,
    first: Seq<CpaRow>,
    second: Seq<CpaRow>,
)
    requires
        cpa_rows(first, num_samples, guess_range),
        cpa_rows(second, num_samples, guess_range),
        first.to_multiset() == second.to_multiset(),
    ensures
        CpaState::new(num_samples, guess_range, target_byte).accumulate(first) == CpaState::new(
            num_samples,
            guess_range,
            target_byte,
        ).accumulate(second),
{
    let empty = CpaState::new(num_samples, guess_range, target_byte);
    let step = |s: CpaState, row: CpaRow| cpa_update_if_valid(s, row);
    assert forall|x: CpaRow, y: CpaRow, s: CpaState| #[trigger]
        step(step(s, x), y) == step(step(s, y), x) by {
        lemma_cpa_update_commutes(s, x, y);
    }
    assert(commutative_foldl(step));
    assert(empty.wf());
    lemma_cpa_accumulate_is_fold(empty, first);
    lemma_cpa_accumulate_is_fold(empty, second);
    lemma_fold_left_permutation(first, second, step, empty);
}

/// The metadata values partition the traces: at every sample position the
/// sums of the traces of the values add up to the sum of all traces.
pub proof fn lemma_cpa_values_partition(
    num_samples: nat,
    guess_range: nat,
    target_byte: nat,
    rows: Seq<CpaRow>,
    sample: int,
)
    requires
        cpa_rows(rows, num_samples, guess_range),
        0 <= sample < num_samples,
    ensures
        seq_sum(
            grid_column(
                CpaState::new(num_samples, guess_range, target_byte).accumulate(
                    rows,
                ).plaintext_sum_traces,
                sample,
            ),
        ) == CpaState::new(num_samples, guess_range, target_byte).accumulate(
            rows,
        ).sum_traces[sample],
    decreases rows.len(),
{
    let empty = CpaState::new(num_samples, guess_range, target_byte);
    let state = empty.accumulate(rows);
    if rows.len() == 0 {
        lemma_seq_sum_zeros(guess_range);
        assert(grid_column(state.plaintext_sum_traces, sample) =~= seq_zeros(guess_range));
    } else {
        let init = rows.drop_last();
        let row = rows.last();
        assert(rows[rows.len() - 1] == row);
        assert forall|i: int| 0 <= i < init.len() implies (#[trigger] init[i]).trace.len()
            == num_samples && init[i].leakages.len() == guess_range && 0 <= init[i].value
            < guess_range by {
            assert(init[i] == rows[i]);
        }
        lemma_cpa_values_partition(num_samples, guess_range, target_byte, init, sample);
        assert(empty.wf());
        lemma_cpa_accumulate_shape(empty, init);
        let before = empty.accumulate(init);
        let column = grid_column(before.plaintext_sum_traces, sample);
        assert(grid_column(state.plaintext_sum_traces, sample) =~= column.update(
            row.value,
            column[row.value] + row.trace[sample],
        ));
        lemma_seq_sum_update(column, row.value, row.trace[sample]);
    }
}

/// The sum over `rows` of the modeled leakage of a row for `guess` times its
/// sample at position `sample`.
pub open spec fn product_sum(rows: Seq<CpaRow>, guess: int, sample: int) -> int
    decreases rows.len(),
{
    if rows.len() == 0 {
        0
    } else {
        product_sum(rows.drop_last(), guess, sample) + rows.last().leakages[guess]
            * rows.last().trace[sample]
    }
}

/// Whether the modeled leakages of every row are those that `table` gives
/// for the metadata value of the row: row `g` of the table holds the modeled
/// leakage of every value for the guess `g`.
pub open spec fn rows_follow_table(rows: Seq<CpaRow>, table: Seq<Seq<int>>) -> bool {
    forall|t: int, g: int|
        0 <= t < rows.len() && 0 <= g < table.len() ==> (#[trigger] rows[t]).leakages[g]
            == #[trigger] table[g][rows[t].value]
}

/// The sums partitioned by metadata value give what a pass over the traces
/// gives: the cross sum of a guess and a sample is the sum, over all traces,
/// of the modeled leakage of the trace for the guess times its sample.
pub proof fn lemma_cross_sum_is_product_sum(
    num_samples: nat,
    guess_range: nat,
    target_byte: nat,
    rows: Seq<CpaRow>,
    table: Seq<Seq<int>>,
    guess: int,
    sample: int,
)
    requires
        cpa_rows(rows, num_samples, guess_range),
        is_grid(table, guess_range, guess_range),
        rows_follow_table(rows, table),
        0 <= guess < guess_range,
        0 <= sample < num_samples,
    ensures
        CpaState::new(num_samples, guess_range, target_byte).accumulate(rows).cross_sum(
            table,
            guess,
            sample,
        ) == product_sum(rows, guess, sample),
    decreases rows.len(),
{
    let empty = CpaState::new(num_samples, guess_range, target_byte);
    if rows.len() == 0 {
        assert(grid_column(empty.plaintext_sum_traces, sample) =~= seq_zeros(guess_range));
        lemma_seq_dot_zeros(guess_range, table[guess]);
    } else {
        let init = rows.drop_last();
        let row = rows.last();
        assert(rows[rows.len() - 1] == row);
        assert forall|i: int| 0 <= i < init.len() implies (#[trigger] init[i]).trace.len()
            == num_samples && init[i].leakages.len() == guess_range && 0 <= init[i].value
            < guess_range by {
            assert(init[i] == rows[i]);
        }
        assert forall|t: int, g: int| 0 <= t < init.len() && 0 <= g < table.len() implies (
        #[trigger] init[t]).leakages[g] == #[trigger] table[g][init[t].value] by {
            assert(init[t] == rows[t]);
        }
        lemma_cross_sum_is_product_sum(
            num_samples,
            guess_range,
            target_byte,
            init,
            table,
            guess,
            sample,
        );
        assert(empty.wf());
        lemma_cpa_accumulate_shape(empty, init);
        let before = empty.accumulate(init);
        let column = grid_column(before.plaintext_sum_traces, sample);
        let after = grid_column(before.update(row).plaintext_sum_traces, sample);
        assert(after =~= column.update(row.value, column[row.value] + row.trace[sample]));
        lemma_seq_dot_update(column, table[guess], row.value, row.trace[sample]);
        assert(row.leakages[guess] == table[guess][row.value]);
        assert(row.trace[sample] * table[guess][row.value] == row.leakages[guess]
            * row.trace[sample]) by (nonlinear_arith)
            requires
                row.leakages[guess] == table[guess][row.value],
        ;
    }
}

/// A processor that accumulates what the correlation of traces with the
/// modeled leakage of every guess is computed from.
pub struct CpaProcessor {
    /// Number of samples per trace
    num_samples: usize,
    /// Target byte index in a block
    target_byte: usize,
    /// Guess range upper excluded bound
    guess_range: usize,
    /// Sum of traces
    sum_traces: IntArray1,
    /// Sum of square of traces
    sum_square_traces: IntArray1,
    /// Sum of modeled leakages per key guess
    guess_sum_traces: IntArray1,
    /// Sum of square of modeled leakages per key guess
    guess_sum_squares_traces: IntArray1,
    /// Sum of traces per plaintext used
    plaintext_sum_traces: IntArray2,
    /// Number of traces processed
    num_traces: usize,
}

impl View for CpaProcessor {
    type V = CpaState;

    /// What the fields hold, as mathematical integers.
    closed spec fn view(&self) -> CpaState {
        CpaState {
            target_byte: self.target_byte as nat,
            num_traces: self.num_traces as nat,
            sum_traces: self.sum_traces@,
            sum_square_traces: self.sum_square_traces@,
            guess_sum_traces: self.guess_sum_traces@,
            guess_sum_squares_traces: self.guess_sum_squares_traces@,
            plaintext_sum_traces: self.plaintext_sum_traces@,
        }
    }
}

impl CpaProcessor {
    /// The shape that the processor was created with is the shape of its
    /// sums.
    pub closed spec fn inv(&self) -> bool {
        &&& self.num_samples == self@.num_samples()
        &&& self.guess_range == self@.guess_range()
        &&& self.plaintext_sum_traces.wf()
        &&& self.plaintext_sum_traces.cols() == self.num_samples
    }

    /// Creates a processor for traces of `num_samples` samples, for
    /// `guess_range` guesses and metadata values, which reads the metadata
    /// value at index `target_byte`.
    pub fn new(num_samples: usize, guess_range: usize, target_byte: usize) -> (p: Self)
        requires
            can_allocate(num_samples as nat),
            can_allocate(guess_range as nat),
            can_allocate_grid(guess_range as nat, num_samples as nat),
        ensures
            p@ == CpaState::new(num_samples as nat, guess_range as nat, target_byte as nat),
            p@.wf(),
            p.inv(),
    {
        Self {
            num_samples,
            target_byte,
            guess_range,
            sum_traces: IntArray1::zeros(num_samples),
            sum_square_traces: IntArray1::zeros(num_samples),
            guess_sum_traces: IntArray1::zeros(guess_range),
            guess_sum_squares_traces: IntArray1::zeros(guess_range),
            plaintext_sum_traces: IntArray2::zeros(guess_range, num_samples),
            num_traces: 0,
        }
    }

    /// Restores a processor from the shape and the sums that another one
    /// held, or nothing when the sums do not have that shape or a sum of
    /// squares is negative.
    pub fn from_parts(
        num_samples: usize,
        guess_range: usize,
        target_byte: usize,
        sum_traces: IntArray1,
        sum_square_traces: IntArray1,
        guess_sum_traces: IntArray1,
        guess_sum_squares_traces: IntArray1,
        plaintext_sum_traces: IntArray2,
        num_traces: usize,
    ) -> (p: Option<Self>)
        requires
            plaintext_sum_traces.wf(),
        ensures
            p is Some <==> {
                &&& sum_traces@.len() == num_samples
                &&& sum_square_traces@.len() == num_samples
                &&& guess_sum_traces@.len() == guess_range
                &&& guess_sum_squares_traces@.len() == guess_range
                &&& plaintext_sum_traces@.len() == guess_range
                &&& plaintext_sum_traces.cols() == num_samples
                &&& seq_nonnegative(sum_square_traces@)
                &&& seq_nonnegative(guess_sum_squares_traces@)
            },
            p is Some ==> p->0@ == (CpaState {
                target_byte: target_byte as nat,
                num_traces: num_traces as nat,
                sum_traces: sum_traces@,
                sum_square_traces: sum_square_traces@,
                guess_sum_traces: guess_sum_traces@,
                guess_sum_squares_traces: guess_sum_squares_traces@,
                plaintext_sum_traces: plaintext_sum_traces@,
            }) && p->0@.wf() && p->0.inv(),
    {
        if sum_traces.len() != num_samples || sum_square_traces.len() != num_samples
            || guess_sum_traces.len() != guess_range || guess_sum_squares_traces.len()
            != guess_range || plaintext_sum_traces.nrows() != guess_range
            || plaintext_sum_traces.ncols() != num_samples {
            return None;
        }
        if !sum_square_traces.is_nonnegative() || !guess_sum_squares_traces.is_nonnegative() {
            return None;
        }
        Some(
            Self {
                num_samples,
                target_byte,
                guess_range,
                sum_traces,
                sum_square_traces,
                guess_sum_traces,
                guess_sum_squares_traces,
                plaintext_sum_traces,
                num_traces,
            },
        )
    }

    /// The number of samples per trace.
    pub fn num_samples(&self) -> (n: usize)
        requires
            self.inv(),
        ensures
            n == self@.num_samples(),
    {
        self.num_samples
    }

    /// The number of guesses.
    pub fn guess_range(&self) -> (n: usize)
        requires
            self.inv(),
        ensures
            n == self@.guess_range(),
    {
        self.guess_range
    }

    /// The index of the metadata value that partitions the traces.
    pub fn target_byte(&self) -> (n: usize)
        ensures
            n == self@.target_byte,
    {
        self.target_byte
    }

    /// The number of traces processed.
    pub fn num_traces(&self) -> (n: usize)
        ensures
            n == self@.num_traces,
    {
        self.num_traces
    }

    /// The sum of the traces, per sample.
    pub fn sum_traces(&self) -> (s: &IntArray1)
        ensures
            s@ == self@.sum_traces,
    {
        &self.sum_traces
    }

    /// The sum of the squares of the traces, per sample.
    pub fn sum_square_traces(&self) -> (s: &IntArray1)
        ensures
            s@ == self@.sum_square_traces,
    {
        &self.sum_square_traces
    }

    /// The sum of the modeled leakages, per guess.
    pub fn guess_sum_traces(&self) -> (s: &IntArray1)
        ensures
            s@ == self@.guess_sum_traces,
    {
        &self.guess_sum_traces
    }

    /// The sum of the squares of the modeled leakages, per guess.
    pub fn guess_sum_squares_traces(&self) -> (s: &IntArray1)
        ensures
            s@ == self@.guess_sum_squares_traces,
    {
        &self.guess_sum_squares_traces
    }

    /// The sum of the traces of each metadata value, per sample.
    pub fn plaintext_sum_traces(&self) -> (s: &IntArray2)
        ensures
            s@ == self@.plaintext_sum_traces,
    {
        &self.plaintext_sum_traces
    }

    /// Adds one trace whose metadata value at the target index is `value`
    /// and whose modeled leakage for every guess is in `leakages`.
    pub fn update_with_leakages(&mut self, trace: &IntArray1, value: usize, leakages: &IntArray1)
        requires
            old(self)@.wf(),
            old(self).inv(),
            old(self)@.accepts(
                (CpaRow { trace: trace@, value: value as int, leakages: leakages@ }),
            ),
            old(self)@.update(
                (CpaRow { trace: trace@, value: value as int, leakages: leakages@ }),
            ).fits(),
        ensures
            final(self)@ == old(self)@.update(
                (CpaRow { trace: trace@, value: value as int, leakages: leakages@ }),
            ),
            final(self)@.wf(),
            final(self).inv(),
    {
        proof {
            let row = CpaRow { trace: trace@, value: value as int, leakages: leakages@ };
            lemma_cpa_update_wf(old(self)@, row);
            lemma_squares_fit(old(self)@.sum_square_traces, trace@);
            lemma_squares_fit(old(self)@.guess_sum_squares_traces, leakages@);
            assert(old(self)@.update(row).plaintext_sum_traces[value as int] == seq_plus(
                old(self)@.plaintext_sum_traces[value as int],
                trace@,
            ));
        }
        self.sum_traces.accumulate(trace);
        self.sum_square_traces.accumulate_squares(trace);
        self.plaintext_sum_traces.accumulate_row(value, trace);
        self.guess_sum_traces.accumulate(leakages);
        self.guess_sum_squares_traces.accumulate_squares(leakages);
        self.num_traces += 1;
    }

    /// Adds one trace. The metadata value at the target index of `plaintext`
    /// selects the partition of the trace, and the leakage model is
    /// evaluated for that value and every guess.
    pub fn update<F>(&mut self, trace: &IntArray1, plaintext: &IntArray1, leakage_model: F) where
        F: Fn(usize, usize) -> usize,

        requires
            old(self)@.wf(),
            old(self).inv(),
            trace@.len() == old(self)@.num_samples(),
            old(self)@.target_byte < plaintext@.len(),
            0 <= plaintext@[old(self)@.target_byte as int] < old(self)@.guess_range(),
            can_allocate(old(self)@.guess_range()),
            callable_for(
                leakage_model,
                plaintext@[old(self)@.target_byte as int],
                old(self)@.guess_range(),
            ),
            forall|leakages: Seq<int>|
                leakages.len() == old(self)@.guess_range() && #[trigger] modeled_by(
                    leakage_model,
                    plaintext@[old(self)@.target_byte as int],
                    leakages,
                ) ==> old(self)@.update(
                    (CpaRow {
                        trace: trace@,
                        value: plaintext@[old(self)@.target_byte as int],
                        leakages,
                    }),
                ).fits(),
        ensures
            exists|leakages: Seq<int>|
                leakages.len() == old(self)@.guess_range() && #[trigger] modeled_by(
                    leakage_model,
                    plaintext@[old(self)@.target_byte as int],
                    leakages,
                ) && final(self)@ == old(self)@.update(
                    (CpaRow {
                        trace: trace@,
                        value: plaintext@[old(self)@.target_byte as int],
                        leakages,
                    }),
                ),
            final(self)@.wf(),
            final(self).inv(),
    {
        let value = plaintext.get(self.target_byte) as usize;
        let leakages = leakages_of_value(&leakage_model, value, self.guess_range);
        self.update_with_leakages(trace, value, &leakages);
    }

    /// Whether two processors can be merged: they were created with the same
    /// number of samples, the same guess range and the same target index.
    pub fn is_compatible_with(&self, other: &Self) -> (b: bool)
        requires
            self.inv(),
            other.inv(),
        ensures
            b == self@.compatible(other@),
    {
        self.num_samples == other.num_samples && self.target_byte == other.target_byte
            && self.guess_range == other.guess_range
    }

    /// Merges two processors into the processor of all the traces either has
    /// seen.
    pub fn merge(self, rhs: Self) -> (merged: Self)
        requires
            self@.wf(),
            rhs@.wf(),
            self.inv(),
            rhs.inv(),
            self@.compatible(rhs@),
            self@.merge(rhs@).fits(),
        ensures
            merged@ == self@.merge(rhs@),
            merged@.wf(),
            merged.inv(),
    {
        Self {
            num_samples: self.num_samples,
            target_byte: self.target_byte,
            guess_range: self.guess_range,
            sum_traces: self.sum_traces.plus(rhs.sum_traces),
            sum_square_traces: self.sum_square_traces.plus(rhs.sum_square_traces),
            guess_sum_traces: self.guess_sum_traces.plus(rhs.guess_sum_traces),
            guess_sum_squares_traces: self.guess_sum_squares_traces.plus(
                rhs.guess_sum_squares_traces,
            ),
            plaintext_sum_traces: self.plaintext_sum_traces.plus(rhs.plaintext_sum_traces),
            num_traces: self.num_traces + rhs.num_traces,
        }
    }

    /// The sum of the products of corresponding elements.
    fn sum_mult(&self, a: &IntArray1, b: &IntArray1) -> (d: i128)
        requires
            a@.len() == b@.len(),
            seq_dot_magnitude(a@, b@) <= i128::MAX,
        ensures
            d == seq_dot(a@, b@),
    {
        a.dot(b)
    }

    /// For every guess and sample, the sum over all traces of the product of
    /// modeled leakage and sample, computed from the sums per metadata value
    /// and a table of the leakage model: row `g` of the table holds the
    /// modeled leakage of every metadata value for the guess `g`.
    pub fn finalize_with_leakages(&self, table: &IntArray2) -> (cross: IntArray2)
        requires
            self@.wf(),
            self.inv(),
            table.wf(),
            table@.len() == self@.guess_range(),
            table.cols() == self@.guess_range(),
            can_allocate_grid(self@.guess_range(), self@.num_samples()),
            self@.cross_sums_fit(table@),
        ensures
            cross.wf(),
            cross.cols() == self@.num_samples(),
            cross@ == self@.cross_sums(table@),
    {
        let mut cross = IntArray2::zeros(self.guess_range, self.num_samples);
        let mut u: usize = 0;
        while u < self.num_samples
            invariant
                self@.wf(),
                self.inv(),
                table.wf(),
                table@.len() == self@.guess_range(),
                table.cols() == self@.guess_range(),
                self@.cross_sums_fit(table@),
                u <= self.num_samples,
                cross.wf(),
                cross.cols() == self.num_samples,
                cross@.len() == self.guess_range,
                forall|g: int, s: int|
                    0 <= g < self.guess_range && 0 <= s < u ==> #[trigger] cross@[g][s]
                        == self@.cross_sum(table@, g, s),
            decreases self.num_samples - u,
        {
            let column = self.plaintext_sum_traces.column(u);
            let mut guess: usize = 0;
            while guess < self.guess_range
                invariant
                    self@.wf(),
                    self.inv(),
                    table.wf(),
                    table@.len() == self@.guess_range(),
                    table.cols() == self@.guess_range(),
                    self@.cross_sums_fit(table@),
                    u < self.num_samples,
                    guess <= self.guess_range,
                    column@ == grid_column(self@.plaintext_sum_traces, u as int),
                    cross.wf(),
                    cross.cols() == self.num_samples,
                    cross@.len() == self.guess_range,
                    forall|g: int, s: int|
                        0 <= g < self.guess_range && 0 <= s < u ==> #[trigger] cross@[g][s]
                            == self@.cross_sum(table@, g, s),
                    forall|g: int|
                        0 <= g < guess ==> #[trigger] cross@[g][u as int] == self@.cross_sum(
                            table@,
                            g,
                            u as int,
                        ),
                decreases self.guess_range - guess,
            {
                let modeled_leakages = table.row(guess);
                proof {
                    assert(self@.cross_magnitude(table@, guess as int, u as int) <= i128::MAX);
                    assert(table@[guess as int].len() == self.guess_range);
                }
                let sum = self.sum_mult(&column, &modeled_leakages);
                cross.set(guess, u, sum);
                guess += 1;
            }
            u += 1;
        }
        assert(cross@ =~~= self@.cross_sums(table@));
        cross
    }

    /// For every guess and sample, the sum over all traces of the product of
    /// modeled leakage and sample. The leakage model is evaluated for every
    /// metadata value and every guess.
    pub fn finalize<F>(&self, leakage_model: F) -> (cross: IntArray2) where
        F: Fn(usize, usize) -> usize,

        requires
            self@.wf(),
            self.inv(),
            can_allocate_grid(self@.guess_range(), self@.guess_range()),
            can_allocate_grid(self@.guess_range(), self@.num_samples()),
            callable_on(leakage_model, self@.guess_range(), self@.guess_range()),
            forall|table: Seq<Seq<int>>|
                is_grid(table, self@.guess_range(), self@.guess_range()) && #[trigger] tabulated_by(
                    leakage_model,
                    table,
                ) ==> self@.cross_sums_fit(table),
        ensures
            cross.wf(),
            cross.cols() == self@.num_samples(),
            exists|table: Seq<Seq<int>>|
                is_grid(table, self@.guess_range(), self@.guess_range()) && #[trigger] tabulated_by(
                    leakage_model,
                    table,
                ) && cross@ == self@.cross_sums(table),
    {
        let table = tabulate(&leakage_model, self.guess_range, self.guess_range);
        proof {
            assert(is_grid(table@, self@.guess_range(), self@.guess_range()));
        }
        self.finalize_with_leakages(&table)
    }
}

/// The first traces of a batch as rows, as many as there are `leakages`:
/// each with its metadata value at index `target_byte` and with its modeled
/// leakages.
pub open spec fn cpa_batch(
    traces: Seq<Seq<int>>,
    plaintexts: Seq<Seq<int>>,
    target_byte: int,
    leakages: Seq<Seq<int>>,
) -> Seq<CpaRow> {
    Seq::new(
        leakages.len(),
        |i: int|
            CpaRow { trace: traces[i], value: plaintexts[i][target_byte], leakages: leakages[i] },
    )
}

/// Whether `leakages` holds, for each of the first traces of a batch, what
/// the model may return for the metadata value of the trace and each of
/// `guess_range` guesses.
pub open spec fn batch_modeled_by<F: Fn(usize, usize) -> usize>(
    leakage_model: F,
    plaintexts: Seq<Seq<int>>,
    target_byte: int,
    guess_range: nat,
    leakages: Seq<Seq<int>>,
) -> bool {
    forall|i: int|
        0 <= i < leakages.len() ==> (#[trigger] leakages[i]).len() == guess_range && modeled_by(
            leakage_model,
            plaintexts[i][target_byte],
            leakages[i],
        )
}

/// Whether every run of consecutive rows of a batch accumulates without
/// overflow.
pub open spec fn cpa_runs_fit(
    num_samples: nat,
    guess_range: nat,
    target_byte: nat,
    rows: Seq<CpaRow>,
) -> bool {
    forall|from: int, to: int|
        0 <= from <= to <= rows.len() ==> (#[trigger] CpaState::new(
            num_samples,
            guess_range,
            target_byte,
        ).accumulate(rows.subrange(from, to))).fits()
}

/// The rows of a run of a batch are rows of the batch.
proof fn lemma_cpa_rows_of_run(
    num_samples: nat,
    guess_range: nat,
    rows: Seq<CpaRow>,
    from: int,
    to: int,
)
    requires
        cpa_rows(rows, num_samples, guess_range),
        0 <= from <= to <= rows.len(),
    ensures
        cpa_rows(rows.subrange(from, to), num_samples, guess_range),
{
    let run = rows.subrange(from, to);
    assert forall|i: int| 0 <= i < run.len() implies (#[trigger] run[i]).trace.len()
        == num_samples && run[i].leakages.len() == guess_range && 0 <= run[i].value
        < guess_range by {
        assert(run[i] == rows[from + i]);
    }
}

/// Accumulates a batch of traces for correlation power analysis,
/// `batch_size` traces at a time: every chunk gets a processor of its own,
/// and the processors of the chunks are merged. The result is the processor
/// of the whole batch, under the leakages that the model returned.
pub fn cpa<F>(
    traces: &IntArray2,
    plaintexts: &IntArray2,
    guess_range: usize,
    target_byte: usize,
    leakage_model: F,
    batch_size: usize,
) -> (p: CpaProcessor) where F: Fn(usize, usize) -> usize + Copy
    requires
        traces.wf(),
        plaintexts.wf(),
        traces@.len() == plaintexts@.len(),
        traces@.len() > 0,
        batch_size > 0,
        target_byte < plaintexts.cols(),
        forall|i: int|
            0 <= i < plaintexts@.len() ==> 0 <= (#[trigger] plaintexts@[i])[target_byte as int]
                < guess_range,
        can_allocate(traces.cols()),
        can_allocate(guess_range as nat),
        can_allocate_grid(guess_range as nat, traces.cols()),
        callable_on(leakage_model, guess_range as nat, guess_range as nat),
        forall|leakages: Seq<Seq<int>>|
            leakages.len() <= traces@.len() && #[trigger] batch_modeled_by(
                leakage_model,
                plaintexts@,
                target_byte as int,
                guess_range as nat,
                leakages,
            ) ==> cpa_runs_fit(
                traces.cols(),
                guess_range as nat,
                target_byte as nat,
                cpa_batch(traces@, plaintexts@, target_byte as int, leakages),
            ),
    ensures
        exists|leakages: Seq<Seq<int>>|
            leakages.len() == traces@.len() && #[trigger] batch_modeled_by(
                leakage_model,
                plaintexts@,
                target_byte as int,
                guess_range as nat,
                leakages,
            ) && p@ == CpaState::new(
                traces.cols(),
                guess_range as nat,
                target_byte as nat,
            ).accumulate(cpa_batch(traces@, plaintexts@, target_byte as int, leakages)),
        p@.wf(),
        p.inv(),
{
    let n = traces.nrows();
    let size = traces.ncols();
    let ghost empty = CpaState::new(size as nat, guess_range as nat, target_byte as nat);
    let ghost ls: Seq<Seq<int>> = Seq::empty();
    let mut total = CpaProcessor::new(size, guess_range, target_byte);
    let mut start: usize = 0;
    proof {
        assert(cpa_batch(traces@, plaintexts@, target_byte as int, ls) =~= Seq::empty());
    }
    while start < n
        invariant
            traces.wf(),
            plaintexts.wf(),
            n == traces@.len(),
            n == plaintexts@.len(),
            size == traces.cols(),
            target_byte < plaintexts.cols(),
            forall|i: int|
                0 <= i < plaintexts@.len() ==> 0 <= (#[trigger] plaintexts@[i])[target_byte as int]
                    < guess_range,
            can_allocate(size as nat),
            can_allocate(guess_range as nat),
            can_allocate_grid(guess_range as nat, size as nat),
            batch_size > 0,
            callable_on(leakage_model, guess_range as nat, guess_range as nat),
            forall|leakages: Seq<Seq<int>>|
                leakages.len() <= n && #[trigger] batch_modeled_by(
                    leakage_model,
                    plaintexts@,
                    target_byte as int,
                    guess_range as nat,
                    leakages,
                ) ==> cpa_runs_fit(
                    size as nat,
                    guess_range as nat,
                    target_byte as nat,
                    cpa_batch(traces@, plaintexts@, target_byte as int, leakages),
                ),
            empty == CpaState::new(size as nat, guess_range as nat, target_byte as nat),
            start <= n,
            ls.len() == start,
            batch_modeled_by(
                leakage_model,
                plaintexts@,
                target_byte as int,
                guess_range as nat,
                ls,
            ),
            cpa_rows(
                cpa_batch(traces@, plaintexts@, target_byte as int, ls),
                size as nat,
                guess_range as nat,
            ),
            total@ == empty.accumulate(cpa_batch(traces@, plaintexts@, target_byte as int, ls)),
            total@.wf(),
            total.inv(),
        decreases n - start,
    {
        let end = if batch_size < n - start {
            start + batch_size
        } else {
            n
        };
        let mut chunk = CpaProcessor::new(size, guess_range, target_byte);
        let mut i = start;
        let ghost before = ls;
        proof {
            assert(cpa_batch(traces@, plaintexts@, target_byte as int, ls).subrange(
                start as int,
                start as int,
            ) =~= Seq::empty());
        }
        while i < end
            invariant
                traces.wf(),
                plaintexts.wf(),
                n == traces@.len(),
                n == plaintexts@.len(),
                size == traces.cols(),
                target_byte < plaintexts.cols(),
                forall|i: int|
                    0 <= i < plaintexts@.len() ==> 0 <= (
                    #[trigger] plaintexts@[i])[target_byte as int] < guess_range,
                can_allocate(guess_range as nat),
                callable_on(leakage_model, guess_range as nat, guess_range as nat),
                forall|leakages: Seq<Seq<int>>|
                    leakages.len() <= n && #[trigger] batch_modeled_by(
                        leakage_model,
                        plaintexts@,
                        target_byte as int,
                        guess_range as nat,
                        leakages,
                    ) ==> cpa_runs_fit(
                        size as nat,
                        guess_range as nat,
                        target_byte as nat,
                        cpa_batch(traces@, plaintexts@, target_byte as int, leakages),
                    ),
                empty == CpaState::new(size as nat, guess_range as nat, target_byte as nat),
                start <= i <= end <= n,
                ls.len() == i,
                before.len() == start,
                ls.subrange(0, start as int) == before,
                batch_modeled_by(
                    leakage_model,
                    plaintexts@,
                    target_byte as int,
                    guess_range as nat,
                    ls,
                ),
                cpa_rows(
                    cpa_batch(traces@, plaintexts@, target_byte as int, ls),
                    size as nat,
                    guess_range as nat,
                ),
                chunk@ == empty.accumulate(
                    cpa_batch(traces@, plaintexts@, target_byte as int, ls).subrange(
                        start as int,
                        i as int,
                    ),
                ),
                chunk@.wf(),
                chunk.inv(),
            decreases end - i,
        {
            let trace = traces.row(i);
            let plaintext = plaintexts.row(i);
            let ghost value = plaintexts@[i as int][target_byte as int];
            let ghost rows = cpa_batch(traces@, plaintexts@, target_byte as int, ls);
            let ghost run = rows.subrange(start as int, i as int);
            proof {
                assert(plaintexts@[i as int].len() == plaintexts.cols());
                assert(traces@[i as int].len() == size);
                lemma_cpa_rows_of_run(
                    size as nat,
                    guess_range as nat,
                    rows,
                    start as int,
                    i as int,
                );
                lemma_cpa_accumulate_shape(empty, run);
                assert forall|leakages: Seq<int>|
                    leakages.len() == guess_range && #[trigger] modeled_by(
                        leakage_model,
                        value,
                        leakages,
                    ) implies chunk@.update(
                    (CpaRow { trace: trace@, value, leakages }),
                ).fits() by {
                    let next = ls.push(leakages);
                    let grown = cpa_batch(traces@, plaintexts@, target_byte as int, next);
                    assert(batch_modeled_by(
                        leakage_model,
                        plaintexts@,
                        target_byte as int,
                        guess_range as nat,
                        next,
                    ));
                    assert(grown.subrange(start as int, i as int) =~= run);
                    assert(grown.subrange(start as int, i + 1).drop_last() =~= run);
                    assert(grown[i as int] == (CpaRow { trace: trace@, value, leakages }));
                    assert(cpa_runs_fit(
                        size as nat,
                        guess_range as nat,
                        target_byte as nat,
                        grown,
                    ));
                    assert(empty.accumulate(grown.subrange(start as int, i + 1)).fits());
                }
                assert forall|v: usize, g: usize|
                    v == value && g < guess_range implies call_requires(leakage_model, (v, g)) by {}
            }
            let ghost old_chunk = chunk@;
            chunk.update(&trace, &plaintext, leakage_model);
            proof {
                let leakages = choose|leakages: Seq<int>|
                    leakages.len() == guess_range && #[trigger] modeled_by(
                        leakage_model,
                        value,
                        leakages,
                    ) && chunk@ == old_chunk.update((CpaRow { trace: trace@, value, leakages }));
                let next = ls.push(leakages);
                let grown = cpa_batch(traces@, plaintexts@, target_byte as int, next);
                assert(grown.subrange(start as int, i as int) =~= run);
                assert(grown.subrange(start as int, i + 1).drop_last() =~= run);
                assert(grown[i as int] == (CpaRow { trace: trace@, value, leakages }));
                assert(next.subrange(0, start as int) =~= before);
                assert forall|k: int| 0 <= k < grown.len() implies (#[trigger] grown[k]).trace.len()
                    == size && grown[k].leakages.len() == guess_range && 0 <= grown[k].value
                    < guess_range by {
                    if k < i {
                        assert(grown[k] == rows[k]);
                    }
                }
                ls = next;
            }
            i += 1;
        }
        proof {
            let rows = cpa_batch(traces@, plaintexts@, target_byte as int, ls);
            let first = rows.subrange(0, start as int);
            let second = rows.subrange(start as int, end as int);
            assert(first =~= cpa_batch(traces@, plaintexts@, target_byte as int, before));
            assert(first + second =~= rows);
            lemma_cpa_rows_of_run(size as nat, guess_range as nat, rows, 0, start as int);
            lemma_cpa_rows_of_run(size as nat, guess_range as nat, rows, start as int, end as int);
            lemma_cpa_accumulate_concat(
                size as nat,
                guess_range as nat,
                target_byte as nat,
                first,
                second,
            );
            lemma_cpa_accumulate_shape(empty, first);
            lemma_cpa_accumulate_shape(empty, second);
            assert(cpa_runs_fit(size as nat, guess_range as nat, target_byte as nat, rows));
            assert(rows.subrange(0, end as int) =~= rows);
            assert(empty.accumulate(rows.subrange(0, end as int)).fits());
        }
        total = total.merge(chunk);
        start = end;
    }
    total
}

/// Every reduction of the rows of a batch gives the state of the batch:
/// whatever the chunks, in whatever order the rows are taken, and however the
/// merges are grouped.
pub proof fn lemma_cpa_reduction_in_any_order(
    num_samples: nat,
    guess_range: nat,
    target_byte: nat,
    reduction: Reduction<CpaRow>,
    batch: Seq<CpaRow>,
)
    requires
        cpa_rows(batch, num_samples, guess_range),
        reduction.all_rows(
            |row: CpaRow|
                row.trace.len() == num_samples && row.leakages.len() == guess_range && 0
                    <= row.value < guess_range,
        ),
        reduction.rows().to_multiset() == batch.to_multiset(),
    ensures
        reduction.eval(
            |rows: Seq<CpaRow>|
                CpaState::new(num_samples, guess_range, target_byte).accumulate(rows),
            |a: CpaState, b: CpaState| a.merge(b),
        ) == CpaState::new(num_samples, guess_range, target_byte).accumulate(batch),
{
    let valid = |row: CpaRow|
        row.trace.len() == num_samples && row.leakages.len() == guess_range && 0 <= row.value
            < guess_range;
    let rows = reduction.rows();
    assert forall|i: int| 0 <= i < rows.len() implies (#[trigger] rows[i]).trace.len()
        == num_samples && rows[i].leakages.len() == guess_range && 0 <= rows[i].value
        < guess_range by {
        assert(valid(rows[i]));
    }
    lemma_cpa_reduction(num_samples, guess_range, target_byte, reduction);
    lemma_cpa_order_independent(num_samples, guess_range, target_byte, rows, batch);
}

} // verus!
