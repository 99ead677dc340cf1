//! Differential power analysis by difference of means.
//!
//! For every guess a selection function splits the traces into two groups. A
//! [`DpaProcessor`] keeps, for every guess and group, the sum of the traces
//! of the group and their number. The difference of the mean traces of the
//! two groups of a guess is its differential trace.
use crate::array::{can_allocate, can_allocate_grid, IntArray1, IntArray2};
use crate::reduction::{lemma_reduction_is_one_pass, Reduction, splits};
use crate::sums::{
    grid_fits, grid_plus, grid_zeros, is_grid, lemma_grid_plus_associative,
    lemma_grid_plus_commutative, lemma_grid_plus_zeros, lemma_seq_plus_associative,
    lemma_seq_plus_commutative, lemma_seq_plus_zeros, seq_fits, seq_plus, seq_zeros,
};
use vstd::prelude::*;
use vstd::seq_lib::{commutative_foldl, lemma_fold_left_permutation};

verus! {

/// One trace as the processor sees it: its samples, and for every guess
/// whether the selection function puts the trace into the second group.
pub struct DpaRow {
    pub trace: Seq<int>,
    pub selections: Seq<bool>,
}

/// `sums` with `trace` added to the row of every guess whose selection is
/// `group`.
pub open spec fn plus_selected(
    sums: Seq<Seq<int>>,
    selections: Seq<bool>,
    group: bool,
    trace: Seq<int>,
) -> Seq<Seq<int>> {
    Seq::new(
        sums.len(),
        |g: int|
            if selections[g] == group {
                seq_plus(sums[g], trace)
            } else {
                sums[g]
            },
    )
}

/// `counts` with one added for every guess whose selection is `group`.
pub open spec fn count_selected(counts: Seq<int>, selections: Seq<bool>, group: bool) -> Seq<int> {
    Seq::new(
        counts.len(),
        |g: int|
            if selections[g] == group {
                counts[g] + 1
            } else {
                counts[g]
            },
    )
}

/// The sums and counts that a [`DpaProcessor`] keeps.
#[verifier::ext_equal]
pub struct DpaState {
    /// Number of samples per trace
    pub num_samples: nat,
    /// Number of traces
    pub num_traces: nat,
    /// Sum of the traces of the first group of every guess
    pub sum_0: Seq<Seq<int>>,
    /// Sum of the traces of the second group of every guess
    pub sum_1: Seq<Seq<int>>,
    /// Number of traces in the first group of every guess
    pub count_0: Seq<int>,
    /// Number of traces in the second group of every guess
    pub count_1: Seq<int>,
}

impl DpaState {
    /// The state with no trace.
    pub open spec fn new(num_samples: nat, guess_range: nat) -> DpaState {
        DpaState {
            num_samples,
            num_traces: 0,
            sum_0: grid_zeros(guess_range, num_samples),
            sum_1: grid_zeros(guess_range, num_samples),
            count_0: seq_zeros(guess_range),
            count_1: seq_zeros(guess_range),
        }
    }

    /// The number of guesses.
    pub open spec fn guess_range(self) -> nat {
        self.count_0.len()
    }

    /// There is a sum of `num_samples` samples and a count for both groups of
    /// every guess.
    pub open spec fn wf(self) -> bool {
        &&& self.count_1.len() == self.guess_range()
        &&& is_grid(self.sum_0, self.guess_range(), self.num_samples)
        &&& is_grid(self.sum_1, self.guess_range(), self.num_samples)
    }

    /// Two states have the same shape.
    pub open spec fn compatible(self, other: DpaState) -> bool {
        self.num_samples == other.num_samples && self.guess_range() == other.guess_range()
    }

    /// Everything in the state is representable.
    pub open spec fn fits(self) -> bool {
        &&& self.num_traces <= usize::MAX
        &&& grid_fits(self.sum_0)
        &&& grid_fits(self.sum_1)
        &&& seq_fits(self.count_0)
        &&& seq_fits(self.count_1)
    }

    /// Whether `row` can be added to the state: its trace has the size of
    /// the state and it has a selection for every guess.
    pub open spec fn accepts(self, row: DpaRow) -> bool {
        row.trace.len() == self.num_samples && row.selections.len() == self.guess_range()
    }

    /// The state after one more trace.
    pub open spec fn update(self, row: DpaRow) -> DpaState {
        DpaState {
            num_samples: self.num_samples,
            num_traces: self.num_traces + 1,
            sum_0: plus_selected(self.sum_0, row.selections, false, row.trace),
            sum_1: plus_selected(self.sum_1, row.selections, true, row.trace),
            count_0: count_selected(self.count_0, row.selections, false),
            count_1: count_selected(self.count_1, row.selections, true),
        }
    }

    /// The state of two sets of traces taken together.
    pub open spec fn merge(self, other: DpaState) -> DpaState {
        DpaState {
            num_samples: self.num_samples,
            num_traces: self.num_traces + other.num_traces,
            sum_0: grid_plus(self.sum_0, other.sum_0),
            sum_1: grid_plus(self.sum_1, other.sum_1),
            count_0: seq_plus(self.count_0, other.count_0),
            count_1: seq_plus(self.count_1, other.count_1),
        }
    }

    /// The state after `rows`, added one after the other to `self`.
    pub open spec fn accumulate(self, rows: Seq<DpaRow>) -> DpaState
        decreases rows.len(),
    {
        if rows.len() == 0 {
            self
        } else {
            self.accumulate(rows.drop_last()).update(rows.last())
        }
    }

    /// The differential trace of `guess` at `sample`, times the product of
    /// the numbers of traces in the two groups of the guess: the difference
    /// of the mean of the second group and the mean of the first, cleared of
    /// denominators.
    pub open spec fn scaled_difference(self, guess: int, sample: int) -> int {
        self.sum_1[guess][sample] * self.count_0[guess] - self.sum_0[guess][sample]
            * self.count_1[guess]
    }

    /// The scaled differences for every guess and sample, a row for each
    /// guess.
    pub open spec fn scaled_differences(self) -> Seq<Seq<int>> {
        Seq::new(
            self.guess_range(),
            |g: int| Seq::new(self.num_samples, |u: int| self.scaled_difference(g, u)),
        )
    }

    /// For every guess the product of the numbers of traces in its two
    /// groups.
    pub open spec fn denominators(self) -> Seq<int> {
        Seq::new(self.guess_range(), |g: int| self.count_0[g] * self.count_1[g])
    }

    /// Whether the scaled differences and their denominators can be computed
    /// without overflow.
    pub open spec fn differences_fit(self) -> bool {
        &&& forall|g: int, u: int|
            0 <= g < self.guess_range() && 0 <= u < self.num_samples
                ==> #[trigger] self.difference_fits(g, u)
        &&& forall|g: int| 0 <= g < self.guess_range() ==> #[trigger] self.denominator_fits(g)
    }

    /// Whether the scaled difference of `guess` at `sample` and the two
    /// products that it is the difference of are representable.
    pub open spec fn difference_fits(self, guess: int, sample: int) -> bool {
        &&& i128::MIN <= self.sum_1[guess][sample] * self.count_0[guess] <= i128::MAX
        &&& i128::MIN <= self.sum_0[guess][sample] * self.count_1[guess] <= i128::MAX
        &&& i128::MIN <= self.scaled_difference(guess, sample) <= i128::MAX
    }

    /// Whether the denominator of `guess` is representable.
    pub open spec fn denominator_fits(self, guess: int) -> bool {
        i128::MIN <= self.count_0[guess] * self.count_1[guess] <= i128::MAX
    }
}

/// Every row can be added to a state of the given shape.
pub open spec fn dpa_rows(rows: Seq<DpaRow>, num_samples: nat, guess_range: nat) -> bool {
    forall|i: int|
        0 <= i < rows.len() ==> (#[trigger] rows[i]).trace.len() == num_samples
            && rows[i].selections.len() == guess_range
}

/// Adding rows keeps the shape of a state, and counts the rows.
pub proof fn lemma_dpa_accumulate_shape(state: DpaState, rows: Seq<DpaRow>)
    requires
        state.wf(),
        dpa_rows(rows, state.num_samples, state.guess_range()),
    ensures
        state.accumulate(rows).wf(),
        state.accumulate(rows).compatible(state),
        state.accumulate(rows).num_traces == state.num_traces + rows.len(),
    decreases rows.len(),
{
    if rows.len() > 0 {
        let init = rows.drop_last();
        assert forall|i: int| 0 <= i < init.len() implies (#[trigger] init[i]).trace.len()
            == state.num_samples && init[i].selections.len() == state.guess_range() by {
            assert(init[i] == rows[i]);
        }
        lemma_dpa_accumulate_shape(state, init);
        assert(rows[rows.len() - 1] == rows.last());
    }
}

/// Merging with the state of no trace changes nothing, on either side.
pub proof fn lemma_dpa_merge_identity(s: DpaState)
    requires
        s.wf(),
    ensures
        s.merge(DpaState::new(s.num_samples, s.guess_range())) == s,
        DpaState::new(s.num_samples, s.guess_range()).merge(s) == s,
{
    lemma_grid_plus_zeros(s.sum_0, s.num_samples);
    lemma_grid_plus_zeros(s.sum_1, s.num_samples);
    lemma_seq_plus_zeros(s.count_0);
    lemma_seq_plus_zeros(s.count_1);
}

/// Merging does not depend on the order of its operands.
pub proof fn lemma_dpa_merge_commutative(a: DpaState, b: DpaState)
    requires
        a.wf(),
        b.wf(),
        a.compatible(b),
    ensures
        a.merge(b) == b.merge(a),
{
    lemma_grid_plus_commutative(a.sum_0, b.sum_0, a.num_samples);
    lemma_grid_plus_commutative(a.sum_1, b.sum_1, a.num_samples);
    lemma_seq_plus_commutative(a.count_0, b.count_0);
    lemma_seq_plus_commutative(a.count_1, b.count_1);
}

/// Merging does not depend on how its operands are grouped.
pub proof fn lemma_dpa_merge_associative(a: DpaState, b: DpaState, c: DpaState)
    requires
        a.wf(),
        b.wf(),
        c.wf(),
        a.compatible(b),
        b.compatible(c),
    ensures
        a.merge(b).merge(c) == a.merge(b.merge(c)),
{
    lemma_grid_plus_associative(a.sum_0, b.sum_0, c.sum_0, a.num_samples);
    lemma_grid_plus_associative(a.sum_1, b.sum_1, c.sum_1, a.num_samples);
    lemma_seq_plus_associative(a.count_0, b.count_0, c.count_0);
    lemma_seq_plus_associative(a.count_1, b.count_1, c.count_1);
}

/// Adding a row after a merge is merging with the operand to which the row
/// was added.
pub proof fn lemma_dpa_update_after_merge(a: DpaState, b: DpaState, row: DpaRow)
    requires
        a.wf(),
        b.wf(),
        a.compatible(b),
        b.accepts(row),
    ensures
        a.merge(b).update(row) == a.merge(b.update(row)),
{
    let left = a.merge(b).update(row);
    let right = a.merge(b.update(row));
    assert(left.count_0 =~= right.count_0);
    assert(left.count_1 =~= right.count_1);
    assert forall|g: int| 0 <= g < a.guess_range() implies left.sum_0[g] == right.sum_0[g]
        && left.sum_1[g] == right.sum_1[g] by {
        lemma_seq_plus_associative(a.sum_0[g], b.sum_0[g], row.trace);
        lemma_seq_plus_associative(a.sum_1[g], b.sum_1[g], row.trace);
    }
    assert(left.sum_0 =~= right.sum_0);
    assert(left.sum_1 =~= right.sum_1);
}

/// The state of a batch cut in two is the merge of the states of its parts.
pub proof fn lemma_dpa_accumulate_concat(
    num_samples: nat,
    guess_range: nat,
    first: Seq<DpaRow>,
    second: Seq<DpaRow>,
)
    requires
        dpa_rows(first, num_samples, guess_range),
        dpa_rows(second, num_samples, guess_range),
    ensures
        DpaState::new(num_samples, guess_range).accumulate(first + second) == DpaState::new(
            num_samples,
            guess_range,
        ).accumulate(first).merge(DpaState::new(num_samples, guess_range).accumulate(second)),
    decreases second.len(),
{
    let empty = DpaState::new(num_samples, guess_range);
    let a = empty.accumulate(first);
    assert(empty.wf());
    lemma_dpa_accumulate_shape(empty, first);
    if second.len() == 0 {
        assert(first + second =~= first);
        lemma_dpa_merge_identity(a);
    } else {
        let init = second.drop_last();
        let row = second.last();
        assert((first + second).drop_last() =~= first + init);
        assert((first + second).last() == row);
        assert forall|i: int| 0 <= i < init.len() implies (#[trigger] init[i]).trace.len()
            == num_samples && init[i].selections.len() == guess_range by {
            assert(init[i] == second[i]);
        }
        assert(second[second.len() - 1] == row);
        lemma_dpa_accumulate_concat(num_samples, guess_range, first, init);
        lemma_dpa_accumulate_shape(empty, init);
        lemma_dpa_update_after_merge(a, empty.accumulate(init), row);
    }
}

/// Every reduction of a batch gives the state of the whole batch, whatever
/// the chunks and however the merges are grouped.
pub proof fn lemma_dpa_reduction(num_samples: nat, guess_range: nat, reduction: Reduction<DpaRow>)
    requires
        reduction.all_rows(
            |row: DpaRow| row.trace.len() == num_samples && row.selections.len() == guess_range,
        ),
    ensures
        reduction.eval(
            |rows: Seq<DpaRow>| DpaState::new(num_samples, guess_range).accumulate(rows),
            |a: DpaState, b: DpaState| a.merge(b),
        ) == DpaState::new(num_samples, guess_range).accumulate(reduction.rows()),
{
    let accumulate = |rows: Seq<DpaRow>| DpaState::new(num_samples, guess_range).accumulate(rows);
    let merge = |a: DpaState, b: DpaState| a.merge(b);
    let valid = |row: DpaRow|
        row.trace.len() == num_samples && row.selections.len() == guess_range;
    assert forall|first: Seq<DpaRow>, second: Seq<DpaRow>|
        (forall|i: int| 0 <= i < first.len() ==> valid(#[trigger] first[i])) && (forall|i: int|
            0 <= i < second.len() ==> valid(#[trigger] second[i])) implies accumulate(
        first + second,
    ) == #[trigger] merge(accumulate(first), accumulate(second)) by {
        assert forall|i: int| 0 <= i < first.len() implies (#[trigger] first[i]).trace.len()
            == num_samples && first[i].selections.len() == guess_range by {
            assert(valid(first[i]));
        }
        assert forall|i: int| 0 <= i < second.len() implies (#[trigger] second[i]).trace.len()
            == num_samples && second[i].selections.len() == guess_range by {
            assert(valid(second[i]));
        }
        lemma_dpa_accumulate_concat(num_samples, guess_range, first, second);
    }
    assert(splits(accumulate, merge, valid));
    lemma_reduction_is_one_pass(reduction, accumulate, merge, valid);
}

/// The state after one more row, if the state is well formed and accepts the
/// row; the state unchanged, if not.
pub open spec fn dpa_update_if_valid(s: DpaState, row: DpaRow) -> DpaState {
    if s.wf() && s.accepts(row) {
        s.update(row)
    } else {
        s
    }
}

/// Adding two rows gives the same state in either order.
pub proof fn lemma_dpa_update_commutes(s: DpaState, first: DpaRow, second: DpaRow)
    ensures
        dpa_update_if_valid(dpa_update_if_valid(s, first), second) == dpa_update_if_valid(
            dpa_update_if_valid(s, second),
            first,
        ),
{
    if s.wf() && s.accepts(first) && s.accepts(second) {
        let a = s.update(first).update(second);
        let b = s.update(second).update(first);
        assert(a.count_0 =~= b.count_0);
        assert(a.count_1 =~= b.count_1);
        assert(a.sum_0 =~~= b.sum_0);
        assert(a.sum_1 =~~= b.sum_1);
    }
}

/// Adding rows one after the other is folding them with the guarded update.
proof fn lemma_dpa_accumulate_is_fold(empty: DpaState, rows: Seq<DpaRow>)
    requires
        empty.wf(),
        dpa_rows(rows, empty.num_samples, empty.guess_range()),
    ensures
        empty.accumulate(rows) == rows.fold_left(
            empty,
            |s: DpaState, row: DpaRow| dpa_update_if_valid(s, row),
        ),
    decreases rows.len(),
{
    if rows.len() > 0 {
        let init = rows.drop_last();
        assert forall|i: int| 0 <= i < init.len() implies (#[trigger] init[i]).trace.len()
            == empty.num_samples && init[i].selections.len() == empty.guess_range() by {
            assert(init[i] == rows[i]);
        }
        lemma_dpa_accumulate_is_fold(empty, init);
        lemma_dpa_accumulate_shape(empty, init);
        assert(rows[rows.len() - 1] == rows.last());
    }
}

/// The state of a batch does not depend on the order of its rows: two
/// batches with the same rows, each as often in one as in the other, have
/// the same state.
pub proof fn lemma_dpa_order_independent(
    num_samples: nat,
    guess_range: nat,
    first: Seq<DpaRow>,
    second: Seq<DpaRow>,
)
    requires
        dpa_rows(first, num_samples, guess_range),
        dpa_rows(second, num_samples, guess_range),
        first.to_multiset() == second.to_multiset(),
    ensures
        DpaState::new(num_samples, guess_range).accumulate(first) == DpaState::new(
            num_samples,
            guess_range,
        ).accumulate(second),
{
    let empty = DpaState::new(num_samples, guess_range);
    let step = |s: DpaState, row: DpaRow| dpa_update_if_valid(s, row);
    assert forall|x: DpaRow, y: DpaRow, s: DpaState| #[trigger]
        step(step(s, x), y) == step(step(s, y), x) by {
        lemma_dpa_update_commutes(s, x, y);
    }
    assert(commutative_foldl(step));
    assert(empty.wf());
    lemma_dpa_accumulate_is_fold(empty, first);
    lemma_dpa_accumulate_is_fold(empty, second);
    lemma_fold_left_permutation(first, second, step, empty);
}

/// Whether `selections` holds, for each of its guesses `g`, what the
/// selection function may return for `metadata` and `g`.
pub open spec fn selected_by<F: Fn(&IntArray1, usize) -> bool>(
    selection_function: F,
    metadata: &IntArray1,
    selections: Seq<bool>,
) -> bool {
    forall|g: int|
        0 <= g < selections.len() ==> call_ensures(
            selection_function,
            (metadata, g as usize),
            #[trigger] selections[g],
        )
}

/// Whether the selection function can be called on `metadata` with every
/// guess below `guesses`.
pub open spec fn selectable<F: Fn(&IntArray1, usize) -> bool>(
    selection_function: F,
    metadata: &IntArray1,
    guesses: nat,
) -> bool {
    forall|g: usize| g < guesses ==> call_requires(selection_function, (metadata, g))
}

/// Evaluates the selection function for one metadata row and every guess
/// below `guess_range`.
pub fn selections_of<F>(
    selection_function: &F,
    metadata: &IntArray1,
    guess_range: usize,
) -> (selections: Vec<bool>) where F: Fn(&IntArray1, usize) -> bool
    requires
        selectable(*selection_function, metadata, guess_range as nat),
    ensures
        selections@.len() == guess_range,
        selected_by(*selection_function, metadata, selections@),
{
    let mut selections: Vec<bool> = Vec::new();
    let mut guess: usize = 0;
    while guess < guess_range
        invariant
            guess <= guess_range,
            selections@.len() == guess,
            selectable(*selection_function, metadata, guess_range as nat),
            selected_by(*selection_function, metadata, selections@),
        decreases guess_range - guess,
    {
        let selection = selection_function(metadata, guess);
        selections.push(selection);
        guess += 1;
    }
    selections
}

/// The differential traces of a [`DpaProcessor`], cleared of denominators:
/// the scaled difference of the group means for every guess and sample, and
/// for every guess the denominator that the differences of the guess are to
/// be divided by.
pub struct DpaDifferences {
    pub numerators: IntArray2,
    pub denominators: IntArray1,
}

/// A processor that accumulates the two groups of traces of every guess.
pub struct DpaProcessor {
    /// Number of samples per trace
    num_samples: usize,
    /// Guess range upper excluded bound
    guess_range: usize,
    /// Sum of traces for which the selection function is false
    sum_0: IntArray2,
    /// Sum of traces for which the selection function is true
    sum_1: IntArray2,
    /// Number of traces for which the selection function is false
    count_0: IntArray1,
    /// Number of traces for which the selection function is true
    count_1: IntArray1,
    /// Number of traces processed
    num_traces: usize,
}

impl View for DpaProcessor {
    type V = DpaState;

    /// What the fields hold, as mathematical integers.
    closed spec fn view(&self) -> DpaState {
        DpaState {
            num_samples: self.num_samples as nat,
            num_traces: self.num_traces as nat,
            sum_0: self.sum_0@,
            sum_1: self.sum_1@,
            count_0: self.count_0@,
            count_1: self.count_1@,
        }
    }
}

impl DpaProcessor {
    /// The shape that the processor was created with is the shape of its
    /// sums.
    pub closed spec fn inv(&self) -> bool {
        &&& self.guess_range == self@.guess_range()
        &&& self.sum_0.wf()
        &&& self.sum_1.wf()
        &&& self.sum_0.cols() == self.num_samples
        &&& self.sum_1.cols() == self.num_samples
    }

    /// Creates a processor for traces of `num_samples` samples and for
    /// `guess_range` guesses.
    pub fn new(num_samples: usize, guess_range: usize) -> (p: Self)
        requires
            can_allocate(guess_range as nat),
            can_allocate_grid(guess_range as nat, num_samples as nat),
        ensures
            p@ == DpaState::new(num_samples as nat, guess_range as nat),
            p@.wf(),
            p.inv(),
    {
        Self {
            num_samples,
            guess_range,
            sum_0: IntArray2::zeros(guess_range, num_samples),
            sum_1: IntArray2::zeros(guess_range, num_samples),
            count_0: IntArray1::zeros(guess_range),
            count_1: IntArray1::zeros(guess_range),
            num_traces: 0,
        }
    }

    /// The number of samples per trace.
    pub fn num_samples(&self) -> (n: usize)
        ensures
            n == self@.num_samples,
    {
        self.num_samples
    }

    /// The number of guesses.
    pub fn guess_range(&self) -> (n: usize)
        requires
            self.inv(),
        ensures
            n == self@.guess_range(),
    {
        self.guess_range
    }

    /// The number of traces processed.
    pub fn num_traces(&self) -> (n: usize)
        ensures
            n == self@.num_traces,
    {
        self.num_traces
    }

    /// The sum of the traces of the first group of every guess.
    pub fn sum_0(&self) -> (s: &IntArray2)
        ensures
            s@ == self@.sum_0,
    {
        &self.sum_0
    }

    /// The sum of the traces of the second group of every guess.
    pub fn sum_1(&self) -> (s: &IntArray2)
        ensures
            s@ == self@.sum_1,
    {
        &self.sum_1
    }

    /// The number of traces in the first group of every guess.
    pub fn count_0(&self) -> (c: &IntArray1)
        ensures
            c@ == self@.count_0,
    {
        &self.count_0
    }

    /// The number of traces in the second group of every guess.
    pub fn count_1(&self) -> (c: &IntArray1)
        ensures
            c@ == self@.count_1,
    {
        &self.count_1
    }

    /// Adds one trace: for every guess, to the second group if the selection
    /// of the guess is true, and to the first if it is false.
    pub fn update_with_selections(&mut self, trace: &IntArray1, selections: &Vec<bool>)
        requires
            old(self)@.wf(),
            old(self).inv(),
            old(self)@.accepts((DpaRow { trace: trace@, selections: selections@ })),
            old(self)@.update((DpaRow { trace: trace@, selections: selections@ })).fits(),
        ensures
            final(self)@ == old(self)@.update((DpaRow { trace: trace@, selections: selections@ })),
            final(self)@.wf(),
            final(self).inv(),
    {
        let ghost row = DpaRow { trace: trace@, selections: selections@ };
        let ghost after = old(self)@.update(row);
        let mut guess: usize = 0;
        while guess < self.guess_range
            invariant
                old(self)@.wf(),
                old(self).inv(),
                old(self)@.accepts(row),
                row == (DpaRow { trace: trace@, selections: selections@ }),
                after == old(self)@.update(row),
                after.fits(),
                guess <= self.guess_range,
                self.num_samples == old(self).num_samples,
                self.guess_range == old(self).guess_range,
                self.num_traces == old(self).num_traces,
                self.sum_0.wf(),
                self.sum_1.wf(),
                self.sum_0.cols() == self.num_samples,
                self.sum_1.cols() == self.num_samples,
                self.sum_0@.len() == self.guess_range,
                self.sum_1@.len() == self.guess_range,
                self.count_0@.len() == self.guess_range,
                self.count_1@.len() == self.guess_range,
                forall|g: int| 0 <= g < guess ==> #[trigger] self.sum_0@[g] == after.sum_0[g],
                forall|g: int| 0 <= g < guess ==> #[trigger] self.sum_1@[g] == after.sum_1[g],
                forall|g: int| 0 <= g < guess ==> #[trigger] self.count_0@[g] == after.count_0[g],
                forall|g: int| 0 <= g < guess ==> #[trigger] self.count_1@[g] == after.count_1[g],
                forall|g: int|
                    guess <= g < self.guess_range ==> #[trigger] self.sum_0@[g] == old(
                        self,
                    )@.sum_0[g],
                forall|g: int|
                    guess <= g < self.guess_range ==> #[trigger] self.sum_1@[g] == old(
                        self,
                    )@.sum_1[g],
                forall|g: int|
                    guess <= g < self.guess_range ==> #[trigger] self.count_0@[g] == old(
                        self,
                    )@.count_0[g],
                forall|g: int|
                    guess <= g < self.guess_range ==> #[trigger] self.count_1@[g] == old(
                        self,
                    )@.count_1[g],
            decreases self.guess_range - guess,
        {
            proof {
                assert(self.sum_0@[guess as int] == old(self)@.sum_0[guess as int]);
                assert(self.sum_1@[guess as int] == old(self)@.sum_1[guess as int]);
                assert(self.count_0@[guess as int] == old(self)@.count_0[guess as int]);
                assert(self.count_1@[guess as int] == old(self)@.count_1[guess as int]);
                assert(seq_fits(after.sum_0[guess as int]));
                assert(seq_fits(after.sum_1[guess as int]));
                assert(i128::MIN <= after.count_0[guess as int] <= i128::MAX);
                assert(i128::MIN <= after.count_1[guess as int] <= i128::MAX);
            }
            if selections[guess] {
                self.sum_1.accumulate_row(guess, trace);
                let count = self.count_1.get(guess);
                self.count_1.set(guess, count + 1);
            } else {
                self.sum_0.accumulate_row(guess, trace);
                let count = self.count_0.get(guess);
                self.count_0.set(guess, count + 1);
            }
            guess += 1;
        }
        self.num_traces += 1;
        proof {
            assert(self@.sum_0 =~= after.sum_0);
            assert(self@.sum_1 =~= after.sum_1);
            assert(self@.count_0 =~= after.count_0);
            assert(self@.count_1 =~= after.count_1);
        }
    }

    /// Adds one trace. The selection function is evaluated for the metadata
    /// of the trace and every guess.
    pub fn update<F>(
        &mut self,
        trace: &IntArray1,
        metadata: &IntArray1,
        selection_function: F,
    ) where F: Fn(&IntArray1, usize) -> bool

        requires
            old(self)@.wf(),
            old(self).inv(),
            trace@.len() == old(self)@.num_samples,
            selectable(selection_function, metadata, old(self)@.guess_range()),
            forall|selections: Seq<bool>|
                selections.len() == old(self)@.guess_range() && #[trigger] selected_by(
                    selection_function,
                    metadata,
                    selections,
                ) ==> old(self)@.update((DpaRow { trace: trace@, selections })).fits(),
        ensures
            exists|selections: Seq<bool>|
                selections.len() == old(self)@.guess_range() && #[trigger] selected_by(
                    selection_function,
                    metadata,
                    selections,
                ) && final(self)@ == old(self)@.update((DpaRow { trace: trace@, selections })),
            final(self)@.wf(),
            final(self).inv(),
    {
        let selections = selections_of(&selection_function, metadata, self.guess_range);
        self.update_with_selections(trace, &selections);
    }

    /// The differential trace of every guess, cleared of denominators: for
    /// every guess and sample the sum of the second group times the number
    /// of traces in the first, less the sum of the first group times the
    /// number of traces in the second; and for every guess the product of
    /// the two numbers, by which the differences of the guess are to be
    /// divided.
    pub fn finalize(&self) -> (differences: DpaDifferences)
        requires
            self@.wf(),
            self.inv(),
            can_allocate(self@.guess_range()),
            can_allocate_grid(self@.guess_range(), self@.num_samples),
            self@.differences_fit(),
        ensures
            differences.numerators.wf(),
            differences.numerators.cols() == self@.num_samples,
            differences.numerators@ == self@.scaled_differences(),
            differences.denominators@ == self@.denominators(),
    {
        let mut numerators = IntArray2::zeros(self.guess_range, self.num_samples);
        let mut denominators = IntArray1::zeros(self.guess_range);
        let mut guess: usize = 0;
        while guess < self.guess_range
            invariant
                self@.wf(),
                self.inv(),
                self@.differences_fit(),
                guess <= self.guess_range,
                numerators.wf(),
                numerators.cols() == self.num_samples,
                numerators@.len() == self.guess_range,
                denominators@.len() == self.guess_range,
                forall|g: int, u: int|
                    0 <= g < guess && 0 <= u < self.num_samples ==> #[trigger] numerators@[g][u]
                        == self@.scaled_difference(g, u),
                forall|g: int|
                    0 <= g < guess ==> #[trigger] denominators@[g] == self@.count_0[g]
                        * self@.count_1[g],
            decreases self.guess_range - guess,
        {
            let count_0 = self.count_0.get(guess);
            let count_1 = self.count_1.get(guess);
            proof {
                assert(self@.denominator_fits(guess as int));
            }
            denominators.set(guess, count_0 * count_1);
            let mut u: usize = 0;
            while u < self.num_samples
                invariant
                    self@.wf(),
                    self.inv(),
                    self@.differences_fit(),
                    guess < self.guess_range,
                    u <= self.num_samples,
                    count_0 == self@.count_0[guess as int],
                    count_1 == self@.count_1[guess as int],
                    numerators.wf(),
                    numerators.cols() == self.num_samples,
                    numerators@.len() == self.guess_range,
                    forall|g: int, u: int|
                        0 <= g < guess && 0 <= u < self.num_samples
                            ==> #[trigger] numerators@[g][u] == self@.scaled_difference(g, u),
                    forall|k: int|
                        0 <= k < u ==> #[trigger] numerators@[guess as int][k]
                            == self@.scaled_difference(guess as int, k),
                decreases self.num_samples - u,
            {
                let sum_0 = self.sum_0.get(guess, u);
                let sum_1 = self.sum_1.get(guess, u);
                proof {
                    assert(self@.difference_fits(guess as int, u as int));
                }
                numerators.set(guess, u, sum_1 * count_0 - sum_0 * count_1);
                u += 1;
            }
            guess += 1;
        }
        assert(numerators@ =~~= self@.scaled_differences());
        assert(denominators@ =~= self@.denominators());
        DpaDifferences { numerators, denominators }
    }

    /// Whether two processors can be merged: they were created with the same
    /// number of samples and the same guess range.
    pub fn is_compatible_with(&self, other: &Self) -> (b: bool)
        requires
            self.inv(),
            other.inv(),
        ensures
            b == self@.compatible(other@),
    {
        self.num_samples == other.num_samples && self.guess_range == other.guess_range
    }

    /// Merges two processors into the processor of all the traces either has
    /// seen.
    pub fn merge(self, rhs: Self) -> (merged: Self)
        requires
            self@.wf(),
            rhs@.wf(),
            self.inv(),
            rhs.inv(),
            self@.compatible(rhs@),
            self@.merge(rhs@).fits(),
        ensures
            merged@ == self@.merge(rhs@),
            merged@.wf(),
            merged.inv(),
    {
        Self {
            num_samples: self.num_samples,
            guess_range: self.guess_range,
            sum_0: self.sum_0.plus(rhs.sum_0),
            sum_1: self.sum_1.plus(rhs.sum_1),
            count_0: self.count_0.plus(rhs.count_0),
            count_1: self.count_1.plus(rhs.count_1),
            num_traces: self.num_traces + rhs.num_traces,
        }
    }
}

/// The first traces of a batch as rows, as many as there are `selections`:
/// each with its selections.
pub open spec fn dpa_batch(traces: Seq<Seq<int>>, selections: Seq<Seq<bool>>) -> Seq<DpaRow> {
    Seq::new(selections.len(), |i: int| DpaRow { trace: traces[i], selections: selections[i] })
}

/// Whether `selections` holds, for each of the first traces of a batch, what
/// the selection function may return for the metadata of the trace and each
/// of `guess_range` guesses.
pub open spec fn batch_selected_by<F: Fn(&IntArray1, usize) -> bool>(
    selection_function: F,
    metadata: Seq<Seq<int>>,
    guess_range: nat,
    selections: Seq<Seq<bool>>,
) -> bool {
    forall|i: int|
        0 <= i < selections.len() ==> (#[trigger] selections[i]).len() == guess_range && exists|
            row: IntArray1,
        |
            row@ == metadata[i] && #[trigger] selected_by(selection_function, &row, selections[i])
}

/// Whether every run of consecutive rows of a batch accumulates without
/// overflow.
pub open spec fn dpa_runs_fit(num_samples: nat, guess_range: nat, rows: Seq<DpaRow>) -> bool {
    forall|from: int, to: int|
        0 <= from <= to <= rows.len() ==> (#[trigger] DpaState::new(
            num_samples,
            guess_range,
        ).accumulate(rows.subrange(from, to))).fits()
}

/// The rows of a run of a batch are rows of the batch.
proof fn lemma_dpa_rows_of_run(
    num_samples: nat,
    guess_range: nat,
    rows: Seq<DpaRow>,
    from: int,
    to: int,
)
    requires
        dpa_rows(rows, num_samples, guess_range),
        0 <= from <= to <= rows.len(),
    ensures
        dpa_rows(rows.subrange(from, to), num_samples, guess_range),
{
    let run = rows.subrange(from, to);
    assert forall|i: int| 0 <= i < run.len() implies (#[trigger] run[i]).trace.len()
        == num_samples && run[i].selections.len() == guess_range by {
        assert(run[i] == rows[from + i]);
    }
}

/// Accumulates a batch of traces for differential power analysis,
/// `batch_size` traces at a time: every chunk gets a processor of its own,
/// and the processors of the chunks are merged. The result is the processor
/// of the whole batch, under the selections that the selection function
/// returned.
pub fn dpa<F>(
    traces: &IntArray2,
    metadata: &IntArray2,
    guess_range: usize,
    selection_function: F,
    batch_size: usize,
) -> (p: DpaProcessor) where F: Fn(&IntArray1, usize) -> bool + Copy
    requires
        traces.wf(),
        metadata.wf(),
        traces@.len() == metadata@.len(),
        traces@.len() > 0,
        batch_size > 0,
        can_allocate(guess_range as nat),
        can_allocate_grid(guess_range as nat, traces.cols()),
        forall|row: IntArray1|
            row@.len() == metadata.cols() ==> #[trigger] selectable(
                selection_function,
                &row,
                guess_range as nat,
            ),
        forall|selections: Seq<Seq<bool>>|
            selections.len() <= traces@.len() && #[trigger] batch_selected_by(
                selection_function,
                metadata@,
                guess_range as nat,
                selections,
            ) ==> dpa_runs_fit(traces.cols(), guess_range as nat, dpa_batch(traces@, selections)),
    ensures
        exists|selections: Seq<Seq<bool>>|
            selections.len() == traces@.len() && #[trigger] batch_selected_by(
                selection_function,
                metadata@,
                guess_range as nat,
                selections,
            ) && p@ == DpaState::new(traces.cols(), guess_range as nat).accumulate(
                dpa_batch(traces@, selections),
            ),
        p@.wf(),
        p.inv(),
{
    let n = traces.nrows();
    let size = traces.ncols();
    let ghost empty = DpaState::new(size as nat, guess_range as nat);
    let ghost ss: Seq<Seq<bool>> = Seq::empty();
    let mut total = DpaProcessor::new(size, guess_range);
    let mut start: usize = 0;
    proof {
        assert(dpa_batch(traces@, ss) =~= Seq::empty());
    }
    while start < n
        invariant
            traces.wf(),
            metadata.wf(),
            n == traces@.len(),
            n == metadata@.len(),
            size == traces.cols(),
            can_allocate(guess_range as nat),
            can_allocate_grid(guess_range as nat, size as nat),
            batch_size > 0,
            forall|row: IntArray1|
                row@.len() == metadata.cols() ==> #[trigger] selectable(
                    selection_function,
                    &row,
                    guess_range as nat,
                ),
            forall|selections: Seq<Seq<bool>>|
                selections.len() <= n && #[trigger] batch_selected_by(
                    selection_function,
                    metadata@,
                    guess_range as nat,
                    selections,
                ) ==> dpa_runs_fit(size as nat, guess_range as nat, dpa_batch(traces@, selections)),
            empty == DpaState::new(size as nat, guess_range as nat),
            start <= n,
            ss.len() == start,
            batch_selected_by(selection_function, metadata@, guess_range as nat, ss),
            dpa_rows(dpa_batch(traces@, ss), size as nat, guess_range as nat),
            total@ == empty.accumulate(dpa_batch(traces@, ss)),
            total@.wf(),
            total.inv(),
        decreases n - start,
    {
        let end = if batch_size < n - start {
            start + batch_size
        } else {
            n
        };
        let mut chunk = DpaProcessor::new(size, guess_range);
        let mut i = start;
        let ghost before = ss;
        proof {
            assert(dpa_batch(traces@, ss).subrange(start as int, start as int) =~= Seq::empty());
        }
        while i < end
            invariant
                traces.wf(),
                metadata.wf(),
                n == traces@.len(),
                n == metadata@.len(),
                size == traces.cols(),
                forall|row: IntArray1|
                    row@.len() == metadata.cols() ==> #[trigger] selectable(
                        selection_function,
                        &row,
                        guess_range as nat,
                    ),
                forall|selections: Seq<Seq<bool>>|
                    selections.len() <= n && #[trigger] batch_selected_by(
                        selection_function,
                        metadata@,
                        guess_range as nat,
                        selections,
                    ) ==> dpa_runs_fit(
                        size as nat,
                        guess_range as nat,
                        dpa_batch(traces@, selections),
                    ),
                empty == DpaState::new(size as nat, guess_range as nat),
                start <= i <= end <= n,
                ss.len() == i,
                before.len() == start,
                ss.subrange(0, start as int) == before,
                batch_selected_by(selection_function, metadata@, guess_range as nat, ss),
                dpa_rows(dpa_batch(traces@, ss), size as nat, guess_range as nat),
                chunk@ == empty.accumulate(
                    dpa_batch(traces@, ss).subrange(start as int, i as int),
                ),
                chunk@.wf(),
                chunk.inv(),
            decreases end - i,
        {
            let trace = traces.row(i);
            let meta = metadata.row(i);
            let ghost rows = dpa_batch(traces@, ss);
            let ghost run = rows.subrange(start as int, i as int);
            proof {
                assert(metadata@[i as int].len() == metadata.cols());
                assert(traces@[i as int].len() == size);
                lemma_dpa_rows_of_run(
                    size as nat,
                    guess_range as nat,
                    rows,
                    start as int,
                    i as int,
                );
                lemma_dpa_accumulate_shape(empty, run);
                assert forall|selections: Seq<bool>|
                    selections.len() == guess_range && #[trigger] selected_by(
                        selection_function,
                        &meta,
                        selections,
                    ) implies chunk@.update((DpaRow { trace: trace@, selections })).fits() by {
                    let next = ss.push(selections);
                    let grown = dpa_batch(traces@, next);
                    assert forall|k: int| 0 <= k < next.len() implies (#[trigger] next[k]).len()
                        == guess_range && exists|row: IntArray1|
                        row@ == metadata@[k] && #[trigger] selected_by(
                            selection_function,
                            &row,
                            next[k],
                        ) by {
                        if k < i {
                            assert(next[k] == ss[k]);
                        } else {
                            assert(meta@ == metadata@[k] && selected_by(
                                selection_function,
                                &meta,
                                next[k],
                            ));
                        }
                    }
                    assert(batch_selected_by(
                        selection_function,
                        metadata@,
                        guess_range as nat,
                        next,
                    ));
                    assert(grown.subrange(start as int, i as int) =~= run);
                    assert(grown.subrange(start as int, i + 1).drop_last() =~= run);
                    assert(grown[i as int] == (DpaRow { trace: trace@, selections }));
                    assert(dpa_runs_fit(size as nat, guess_range as nat, grown));
                    assert(empty.accumulate(grown.subrange(start as int, i + 1)).fits());
                }
            }
            let ghost old_chunk = chunk@;
            chunk.update(&trace, &meta, selection_function);
            proof {
                let selections = choose|selections: Seq<bool>|
                    selections.len() == guess_range && #[trigger] selected_by(
                        selection_function,
                        &meta,
                        selections,
                    ) && chunk@ == old_chunk.update((DpaRow { trace: trace@, selections }));
                let next = ss.push(selections);
                let grown = dpa_batch(traces@, next);
                assert forall|k: int| 0 <= k < next.len() implies (#[trigger] next[k]).len()
                    == guess_range && exists|row: IntArray1|
                    row@ == metadata@[k] && #[trigger] selected_by(
                        selection_function,
                        &row,
                        next[k],
                    ) by {
                    if k < i {
                        assert(next[k] == ss[k]);
                    } else {
                        assert(meta@ == metadata@[k] && selected_by(
                            selection_function,
                            &meta,
                            next[k],
                        ));
                    }
                }
                assert(grown.subrange(start as int, i as int) =~= run);
                assert(grown.subrange(start as int, i + 1).drop_last() =~= run);
                assert(grown[i as int] == (DpaRow { trace: trace@, selections }));
                assert(next.subrange(0, start as int) =~= before);
                assert forall|k: int| 0 <= k < grown.len() implies (#[trigger] grown[k]).trace.len()
                    == size && grown[k].selections.len() == guess_range by {
                    if k < i {
                        assert(grown[k] == rows[k]);
                    }
                }
                ss = next;
            }
            i += 1;
        }
        proof {
            let rows = dpa_batch(traces@, ss);
            let first = rows.subrange(0, start as int);
            let second = rows.subrange(start as int, end as int);
            assert(first =~= dpa_batch(traces@, before));
            assert(first + second =~= rows);
            lemma_dpa_rows_of_run(size as nat, guess_range as nat, rows, 0, start as int);
            lemma_dpa_rows_of_run(size as nat, guess_range as nat, rows, start as int, end as int);
            lemma_dpa_accumulate_concat(size as nat, guess_range as nat, first, second);
            lemma_dpa_accumulate_shape(empty, first);
            lemma_dpa_accumulate_shape(empty, second);
            assert(dpa_runs_fit(size as nat, guess_range as nat, rows));
            assert(rows.subrange(0, end as int) =~= rows);
            assert(empty.accumulate(rows.subrange(0, end as int)).fits());
        }
        total = total.merge(chunk);
        start = end;
    }
    total
}

/// Every reduction of the rows of a batch gives the state of the batch:
/// whatever the chunks, in whatever order the rows are taken, and however the
/// merges are grouped.
pub proof fn lemma_dpa_reduction_in_any_order(
    num_samples: nat,
    guess_range: nat,
    reduction: Reduction<DpaRow>,
    batch: Seq<DpaRow>,
)
    requires
        dpa_rows(batch, num_samples, guess_range),
        reduction.all_rows(
            |row: DpaRow| row.trace.len() == num_samples && row.selections.len() == guess_range,
        ),
        reduction.rows().to_multiset() == batch.to_multiset(),
    ensures
        reduction.eval(
            |rows: Seq<DpaRow>| DpaState::new(num_samples, guess_range).accumulate(rows),
            |a: DpaState, b: DpaState| a.merge(b),
        ) == DpaState::new(num_samples, guess_range).accumulate(batch),
{
    let valid = |row: DpaRow|
        row.trace.len() == num_samples && row.selections.len() == guess_range;
    let rows = reduction.rows();
    assert forall|i: int| 0 <= i < rows.len() implies (#[trigger] rows[i]).trace.len()
        == num_samples && rows[i].selections.len() == guess_range by {
        assert(valid(rows[i]));
    }
    lemma_dpa_reduction(num_samples, guess_range, reduction);
    lemma_dpa_order_independent(num_samples, guess_range, rows, batch);
}

} // verus!
