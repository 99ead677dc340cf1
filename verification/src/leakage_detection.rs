//! Leakage detection: the accumulators of Welch's t-test and of the
//! signal-to-noise ratio.
use crate::array::{can_allocate, can_allocate_grid, IntArray1, IntArray2};
use crate::processors::{
    lemma_merge_associative, lemma_merge_commutative, lemma_merge_identity,
    lemma_process_after_merge, MeanVarProcessor, Moments,
};
use crate::reduction::{lemma_reduction_is_one_pass, Reduction, splits};
use crate::sums::{
    grid_column, grid_fits, grid_plus, grid_plus_row, grid_zeros, is_grid,
    lemma_grid_plus_associative, lemma_grid_plus_commutative, lemma_grid_plus_row_commutes,
    lemma_grid_plus_zeros, lemma_seq_plus_associative, lemma_seq_plus_commutative,
    lemma_seq_plus_one_commutes, lemma_seq_plus_zeros, lemma_seq_sum_update, lemma_seq_sum_zeros,
    seq_fits, seq_plus, seq_plus_one, seq_sum, seq_zeros,
};
use vstd::prelude::*;
use vstd::seq_lib::{commutative_foldl, lemma_fold_left_permutation};

verus! {

/// The moments of two groups of traces: those of class `false` and those of
/// class `true`.
#[verifier::ext_equal]
pub struct TTestState {
    pub group_1: Moments,
    pub group_2: Moments,
}

impl TTestState {
    /// The state with no trace in either group, for traces of `size` samples.
    pub open spec fn new(size: nat) -> TTestState {
        TTestState { group_1: Moments::new(size), group_2: Moments::new(size) }
    }

    /// The number of samples per trace.
    pub open spec fn size(self) -> nat {
        self.group_1.size()
    }

    /// Both groups are well formed and cover the same sample positions.
    pub open spec fn wf(self) -> bool {
        &&& self.group_1.wf()
        &&& self.group_2.wf()
        &&& self.group_1.size() == self.group_2.size()
    }

    /// The moments of both groups are representable.
    pub open spec fn fits(self) -> bool {
        self.group_1.fits() && self.group_2.fits()
    }

    /// The state after one more trace, which joins the second group when
    /// `class` is true and the first when it is false.
    pub open spec fn process(self, trace: Seq<int>, class: bool) -> TTestState {
        if class {
            TTestState { group_1: self.group_1, group_2: self.group_2.process(trace) }
        } else {
            TTestState { group_1: self.group_1.process(trace), group_2: self.group_2 }
        }
    }

    /// The state of two sets of traces taken together.
    pub open spec fn merge(self, other: TTestState) -> TTestState {
        TTestState {
            group_1: self.group_1.merge(other.group_1),
            group_2: self.group_2.merge(other.group_2),
        }
    }

    /// The state after `rows`, each a trace with its class, processed one
    /// after the other.
    pub open spec fn accumulate(size: nat, rows: Seq<(Seq<int>, bool)>) -> TTestState
        decreases rows.len(),
    {
        if rows.len() == 0 {
            TTestState::new(size)
        } else {
            TTestState::accumulate(size, rows.drop_last()).process(rows.last().0, rows.last().1)
        }
    }
}

/// The traces of a batch, each with its class.
pub open spec fn classed_traces(traces: Seq<Seq<int>>, classes: Seq<bool>) -> Seq<
    (Seq<int>, bool),
> {
    Seq::new(traces.len(), |i: int| (traces[i], classes[i]))
}

/// The trace of every row has `size` samples.
pub open spec fn classed_traces_of_size(rows: Seq<(Seq<int>, bool)>, size: nat) -> bool {
    forall|i: int| 0 <= i < rows.len() ==> (#[trigger] rows[i]).0.len() == size
}

/// The state of any number of rows is well formed and covers `size` sample
/// positions.
pub proof fn lemma_ttest_accumulate_wf(size: nat, rows: Seq<(Seq<int>, bool)>)
    ensures
        TTestState::accumulate(size, rows).group_1.sum.len() == size,
        TTestState::accumulate(size, rows).group_1.sum_squares.len() == size,
        TTestState::accumulate(size, rows).group_2.sum.len() == size,
        TTestState::accumulate(size, rows).group_2.sum_squares.len() == size,
        TTestState::accumulate(size, rows).group_1.count + TTestState::accumulate(
            size,
            rows,
        ).group_2.count == rows.len(),
    decreases rows.len(),
{
    if rows.len() > 0 {
        lemma_ttest_accumulate_wf(size, rows.drop_last());
    }
}

/// Merging with the state of no trace changes nothing, on either side.
pub proof fn lemma_ttest_merge_identity(s: TTestState)
    requires
        s.wf(),
    ensures
        s.merge(TTestState::new(s.size())) == s,
        TTestState::new(s.size()).merge(s) == s,
{
    lemma_merge_identity(s.group_1);
    lemma_merge_identity(s.group_2);
}

/// Merging does not depend on the order of its operands.
pub proof fn lemma_ttest_merge_commutative(a: TTestState, b: TTestState)
    requires
        a.wf(),
        b.wf(),
        a.size() == b.size(),
    ensures
        a.merge(b) == b.merge(a),
{
    lemma_merge_commutative(a.group_1, b.group_1);
    lemma_merge_commutative(a.group_2, b.group_2);
}

/// Merging does not depend on how its operands are grouped.
pub proof fn lemma_ttest_merge_associative(a: TTestState, b: TTestState, c: TTestState)
    requires
        a.wf(),
        b.wf(),
        c.wf(),
        a.size() == b.size(),
        b.size() == c.size(),
    ensures
        a.merge(b).merge(c) == a.merge(b.merge(c)),
{
    lemma_merge_associative(a.group_1, b.group_1, c.group_1);
    lemma_merge_associative(a.group_2, b.group_2, c.group_2);
}

/// The state of a batch cut in two is the merge of the states of its parts.
pub proof fn lemma_ttest_accumulate_concat(
    size: nat,
    first: Seq<(Seq<int>, bool)>,
    second: Seq<(Seq<int>, bool)>,
)
    requires
        classed_traces_of_size(second, size),
    ensures
        TTestState::accumulate(size, first + second) == TTestState::accumulate(size, first).merge(
            TTestState::accumulate(size, second),
        ),
    decreases second.len(),
{
    let a = TTestState::accumulate(size, first);
    lemma_ttest_accumulate_wf(size, first);
    if second.len() == 0 {
        assert(first + second =~= first);
        lemma_merge_identity(a.group_1);
        lemma_merge_identity(a.group_2);
    } else {
        let init = second.drop_last();
        let b = TTestState::accumulate(size, init);
        assert((first + second).drop_last() =~= first + init);
        assert((first + second).last() == second.last());
        lemma_ttest_accumulate_concat(size, first, init);
        lemma_ttest_accumulate_wf(size, init);
        if second.last().1 {
            lemma_process_after_merge(a.group_2, b.group_2, second.last().0);
        } else {
            lemma_process_after_merge(a.group_1, b.group_1, second.last().0);
        }
    }
}

/// Every reduction of a batch of classed traces of `size` samples gives the
/// state of the whole batch, whatever the chunks and however the merges are
/// grouped.
pub proof fn lemma_ttest_reduction(size: nat, reduction: Reduction<(Seq<int>, bool)>)
    requires
        reduction.all_rows(|row: (Seq<int>, bool)| row.0.len() == size),
    ensures
        reduction.eval(
            |rows: Seq<(Seq<int>, bool)>| TTestState::accumulate(size, rows),
            |a: TTestState, b: TTestState| a.merge(b),
        ) == TTestState::accumulate(size, reduction.rows()),
{
    let accumulate = |rows: Seq<(Seq<int>, bool)>| TTestState::accumulate(size, rows);
    let merge = |a: TTestState, b: TTestState| a.merge(b);
    let valid = |row: (Seq<int>, bool)| row.0.len() == size;
    assert forall|first: Seq<(Seq<int>, bool)>, second: Seq<(Seq<int>, bool)>|
        (forall|i: int| 0 <= i < first.len() ==> valid(#[trigger] first[i])) && (forall|i: int|
            0 <= i < second.len() ==> valid(#[trigger] second[i])) implies accumulate(
        first + second,
    ) == #[trigger] merge(accumulate(first), accumulate(second)) by {
        assert forall|i: int| 0 <= i < second.len() implies (#[trigger] second[i]).0.len()
            == size by {
            assert(valid(second[i]));
        }
        lemma_ttest_accumulate_concat(size, first, second);
    }
    assert(splits(accumulate, merge, valid));
    lemma_reduction_is_one_pass(reduction, accumulate, merge, valid);
}

/// The state after one more row, if both groups and the trace of the row
/// cover the same sample positions; the state unchanged, if they do not.
pub open spec fn ttest_process_if_sized(s: TTestState, row: (Seq<int>, bool)) -> TTestState {
    if s.group_1.sum_squares.len() == s.size() && s.group_2.sum.len() == s.size()
        && s.group_2.sum_squares.len() == s.size() && row.0.len() == s.size() {
        s.process(row.0, row.1)
    } else {
        s
    }
}

/// Processing two rows gives the same state in either order.
pub proof fn lemma_ttest_process_commutes(
    s: TTestState,
    first: (Seq<int>, bool),
    second: (Seq<int>, bool),
)
    ensures
        ttest_process_if_sized(ttest_process_if_sized(s, first), second)
            == ttest_process_if_sized(ttest_process_if_sized(s, second), first),
{
    if s.group_1.sum_squares.len() == s.size() && s.group_2.sum.len() == s.size()
        && s.group_2.sum_squares.len() == s.size() && first.0.len() == s.size()
        && second.0.len() == s.size() {
        assert(s.process(first.0, first.1).process(second.0, second.1) =~~= s.process(
            second.0,
            second.1,
        ).process(first.0, first.1));
    }
}

/// Processing rows one after the other is folding them with the guarded
/// step.
proof fn lemma_ttest_accumulate_is_fold(size: nat, rows: Seq<(Seq<int>, bool)>)
    requires
        classed_traces_of_size(rows, size),
    ensures
        TTestState::accumulate(size, rows) == rows.fold_left(
            TTestState::new(size),
            |s: TTestState, row: (Seq<int>, bool)| ttest_process_if_sized(s, row),
        ),
    decreases rows.len(),
{
    if rows.len() > 0 {
        lemma_ttest_accumulate_is_fold(size, rows.drop_last());
        lemma_ttest_accumulate_wf(size, rows.drop_last());
        assert(rows[rows.len() - 1].0.len() == size);
    }
}

/// The state of a batch does not depend on the order of its rows: two
/// batches with the same rows, each as often in one as in the other, have
/// the same state.
pub proof fn lemma_ttest_order_independent(
    size: nat,
    first: Seq<(Seq<int>, bool)>,
    second: Seq<(Seq<int>, bool)>,
)
    requires
        classed_traces_of_size(first, size),
        classed_traces_of_size(second, size),
        first.to_multiset() == second.to_multiset(),
    ensures
        TTestState::accumulate(size, first) == TTestState::accumulate(size, second),
{
    let step = |s: TTestState, row: (Seq<int>, bool)| ttest_process_if_sized(s, row);
    assert forall|x: (Seq<int>, bool), y: (Seq<int>, bool), s: TTestState| #[trigger]
        step(step(s, x), y) == step(step(s, y), x) by {
        lemma_ttest_process_commutes(s, x, y);
    }
    assert(commutative_foldl(step));
    lemma_ttest_accumulate_is_fold(size, first);
    lemma_ttest_accumulate_is_fold(size, second);
    lemma_fold_left_permutation(first, second, step, TTestState::new(size));
}

/// The state of one more row is the state of the rows before it, after
/// processing the row.
proof fn lemma_ttest_accumulate_next(size: nat, rows: Seq<(Seq<int>, bool)>, from: int, to: int)
    requires
        0 <= from <= to < rows.len(),
    ensures
        TTestState::accumulate(size, rows.subrange(from, to + 1)) == TTestState::accumulate(
            size,
            rows.subrange(from, to),
        ).process(rows[to].0, rows[to].1),
{
    assert(rows.subrange(from, to + 1).drop_last() =~= rows.subrange(from, to));
}

/// Accumulates the two groups of traces of Welch's t-test.
pub struct TTestProcessor {
    mean_var_1: MeanVarProcessor,
    mean_var_2: MeanVarProcessor,
}

impl View for TTestProcessor {
    type V = TTestState;

    /// What the fields hold, as mathematical integers.
    closed spec fn view(&self) -> TTestState {
        TTestState { group_1: self.mean_var_1@, group_2: self.mean_var_2@ }
    }
}

impl TTestProcessor {
    /// Creates a processor for traces of `size` samples.
    pub fn new(size: usize) -> (p: Self)
        requires
            can_allocate(size as nat),
        ensures
            p@ == TTestState::new(size as nat),
            p@.wf(),
    {
        Self { mean_var_1: MeanVarProcessor::new(size), mean_var_2: MeanVarProcessor::new(size) }
    }

    /// Restores a processor from the moments of its two groups, or nothing
    /// when the groups differ in the number of samples.
    pub fn from_parts(mean_var_1: MeanVarProcessor, mean_var_2: MeanVarProcessor) -> (p: Option<
        Self,
    >)
        requires
            mean_var_1@.wf(),
            mean_var_2@.wf(),
        ensures
            p is Some <==> mean_var_1@.size() == mean_var_2@.size(),
            p is Some ==> p->0@ == (TTestState { group_1: mean_var_1@, group_2: mean_var_2@ })
                && p->0@.wf(),
    {
        if mean_var_1.size() != mean_var_2.size() {
            return None;
        }
        Some(Self { mean_var_1, mean_var_2 })
    }

    /// Processes one trace: `class` tells to which of the two groups it
    /// belongs.
    pub fn process(&mut self, trace: &IntArray1, class: bool)
        requires
            old(self)@.wf(),
            trace@.len() == old(self)@.size(),
            old(self)@.process(trace@, class).fits(),
        ensures
            final(self)@ == old(self)@.process(trace@, class),
            final(self)@.wf(),
    {
        if class {
            self.mean_var_2.process(trace);
        } else {
            self.mean_var_1.process(trace);
        }
    }

    /// The number of samples per trace.
    pub fn size(&self) -> (n: usize)
        ensures
            n == self@.size(),
    {
        self.mean_var_1.size()
    }

    /// The moments of the traces of class `false`.
    pub fn mean_var_1(&self) -> (m: &MeanVarProcessor)
        ensures
            m@ == self@.group_1,
    {
        &self.mean_var_1
    }

    /// The moments of the traces of class `true`.
    pub fn mean_var_2(&self) -> (m: &MeanVarProcessor)
        ensures
            m@ == self@.group_2,
    {
        &self.mean_var_2
    }

    /// Whether two processors can be merged: they were created for traces of
    /// the same size.
    pub fn is_compatible_with(&self, other: &Self) -> (b: bool)
        ensures
            b == (self@.size() == other@.size()),
    {
        self.size() == other.size()
    }

    /// Merges two processors into the processor of all the traces either has
    /// seen.
    pub fn merge(self, rhs: Self) -> (merged: Self)
        requires
            self@.wf(),
            rhs@.wf(),
            self@.size() == rhs@.size(),
            self@.merge(rhs@).fits(),
        ensures
            merged@ == self@.merge(rhs@),
            merged@.wf(),
    {
        Self {
            mean_var_1: self.mean_var_1.merge(rhs.mean_var_1),
            mean_var_2: self.mean_var_2.merge(rhs.mean_var_2),
        }
    }
}

/// Whether every run of consecutive rows of a batch accumulates without
/// overflow.
pub open spec fn ttest_runs_fit(size: nat, rows: Seq<(Seq<int>, bool)>) -> bool {
    forall|from: int, to: int|
        0 <= from <= to <= rows.len() ==> (#[trigger] TTestState::accumulate(
            size,
            rows.subrange(from, to),
        )).fits()
}

/// Accumulates a batch of traces for Welch's t-test, `batch_size` traces at a
/// time: every chunk gets a processor of its own, and the processors of the
/// chunks are merged. The result is the processor of the whole batch.
pub fn ttest(traces: &IntArray2, trace_classes: &[bool], batch_size: usize) -> (p: TTestProcessor)
    requires
        traces.wf(),
        traces@.len() == trace_classes@.len(),
        traces@.len() > 0,
        batch_size > 0,
        can_allocate(traces.cols()),
        ttest_runs_fit(traces.cols(), classed_traces(traces@, trace_classes@)),
    ensures
        p@ == TTestState::accumulate(traces.cols(), classed_traces(traces@, trace_classes@)),
        p@.wf(),
{
    let n = traces.nrows();
    let size = traces.ncols();
    let ghost rows = classed_traces(traces@, trace_classes@);
    let mut total = TTestProcessor::new(size);
    let mut start: usize = 0;
    proof {
        assert(rows.subrange(0, 0) =~= Seq::empty());
    }
    while start < n
        invariant
            traces.wf(),
            n == traces@.len(),
            n == trace_classes@.len(),
            size == traces.cols(),
            can_allocate(size as nat),
            batch_size > 0,
            rows == classed_traces(traces@, trace_classes@),
            ttest_runs_fit(size as nat, rows),
            start <= n,
            total@ == TTestState::accumulate(size as nat, rows.subrange(0, start as int)),
            total@.wf(),
        decreases n - start,
    {
        let end = if batch_size < n - start {
            start + batch_size
        } else {
            n
        };
        let mut chunk = TTestProcessor::new(size);
        let mut i = start;
        proof {
            assert(rows.subrange(start as int, start as int) =~= Seq::empty());
        }
        while i < end
            invariant
                traces.wf(),
                n == traces@.len(),
                n == trace_classes@.len(),
                size == traces.cols(),
                rows == classed_traces(traces@, trace_classes@),
                ttest_runs_fit(size as nat, rows),
                start <= i <= end <= n,
                chunk@ == TTestState::accumulate(
                    size as nat,
                    rows.subrange(start as int, i as int),
                ),
                chunk@.wf(),
            decreases end - i,
        {
            let trace = traces.row(i);
            proof {
                lemma_ttest_accumulate_next(size as nat, rows, start as int, i as int);
                lemma_ttest_accumulate_wf(size as nat, rows.subrange(start as int, i as int));
                assert(rows[i as int] == (traces@[i as int], trace_classes@[i as int]));
                assert(traces@[i as int].len() == size);
            }
            chunk.process(&trace, trace_classes[i]);
            i += 1;
        }
        proof {
            let first = rows.subrange(0, start as int);
            let second = rows.subrange(start as int, end as int);
            assert(first + second =~= rows.subrange(0, end as int));
            assert forall|k: int| 0 <= k < second.len() implies (#[trigger] second[k]).0.len()
                == size by {
                assert(second[k] == rows[start + k]);
                assert(traces@[start + k].len() == size);
            }
            lemma_ttest_accumulate_concat(size as nat, first, second);
            lemma_ttest_accumulate_wf(size as nat, first);
            lemma_ttest_accumulate_wf(size as nat, second);
        }
        total = total.merge(chunk);
        start = end;
    }
    proof {
        assert(rows.subrange(0, n as int) =~= rows);
    }
    total
}

/// The sufficient statistics of the signal-to-noise ratio: the moments of
/// all traces, and for every class the sum of its traces and their number.
#[verifier::ext_equal]
pub struct SnrState {
    pub mean_var: Moments,
    pub classes_sum: Seq<Seq<int>>,
    pub classes_count: Seq<int>,
}

impl SnrState {
    /// The state with no trace, for traces of `size` samples in
    /// `num_classes` classes.
    pub open spec fn new(size: nat, num_classes: nat) -> SnrState {
        SnrState {
            mean_var: Moments::new(size),
            classes_sum: grid_zeros(num_classes, size),
            classes_count: seq_zeros(num_classes),
        }
    }

    /// The number of samples per trace.
    pub open spec fn size(self) -> nat {
        self.mean_var.size()
    }

    /// The number of classes.
    pub open spec fn num_classes(self) -> nat {
        self.classes_count.len()
    }

    /// The moments are well formed, and there is a sum of `size` samples and
    /// a count for every class.
    pub open spec fn wf(self) -> bool {
        &&& self.mean_var.wf()
        &&& is_grid(self.classes_sum, self.num_classes(), self.size())
    }

    /// Everything in the state is representable.
    pub open spec fn fits(self) -> bool {
        &&& self.mean_var.fits()
        &&& grid_fits(self.classes_sum)
        &&& seq_fits(self.classes_count)
    }

    /// The state after one more trace of class `class`.
    pub open spec fn process(self, trace: Seq<int>, class: int) -> SnrState {
        SnrState {
            mean_var: self.mean_var.process(trace),
            classes_sum: grid_plus_row(self.classes_sum, class, trace),
            classes_count: seq_plus_one(self.classes_count, class),
        }
    }

    /// The state of two sets of traces taken together.
    pub open spec fn merge(self, other: SnrState) -> SnrState {
        SnrState {
            mean_var: self.mean_var.merge(other.mean_var),
            classes_sum: grid_plus(self.classes_sum, other.classes_sum),
            classes_count: seq_plus(self.classes_count, other.classes_count),
        }
    }

    /// The state after `rows`, each a trace with its class, processed one
    /// after the other.
    pub open spec fn accumulate(size: nat, num_classes: nat, rows: Seq<(Seq<int>, int)>) -> SnrState
        decreases rows.len(),
    {
        if rows.len() == 0 {
            SnrState::new(size, num_classes)
        } else {
            SnrState::accumulate(size, num_classes, rows.drop_last()).process(
                rows.last().0,
                rows.last().1,
            )
        }
    }
}

/// Whether a row is a trace of `size` samples with a class below
/// `num_classes`.
pub open spec fn snr_row(row: (Seq<int>, int), size: nat, num_classes: nat) -> bool {
    row.0.len() == size && 0 <= row.1 < num_classes
}

/// Every row is a trace of `size` samples with a class below `num_classes`.
pub open spec fn snr_rows(rows: Seq<(Seq<int>, int)>, size: nat, num_classes: nat) -> bool {
    forall|i: int| 0 <= i < rows.len() ==> snr_row(#[trigger] rows[i], size, num_classes)
}

/// The state of any number of rows has the shape it was created with.
pub proof fn lemma_snr_accumulate_shape(size: nat, num_classes: nat, rows: Seq<(Seq<int>, int)>)
    requires
        snr_rows(rows, size, num_classes),
    ensures
        SnrState::accumulate(size, num_classes, rows).mean_var.sum.len() == size,
        SnrState::accumulate(size, num_classes, rows).mean_var.sum_squares.len() == size,
        SnrState::accumulate(size, num_classes, rows).mean_var.count == rows.len(),
        SnrState::accumulate(size, num_classes, rows).classes_count.len() == num_classes,
        is_grid(SnrState::accumulate(size, num_classes, rows).classes_sum, num_classes, size),
    decreases rows.len(),
{
    if rows.len() > 0 {
        let init = rows.drop_last();
        assert forall|i: int| 0 <= i < init.len() implies snr_row(
            #[trigger] init[i],
            size,
            num_classes,
        ) by {
            assert(init[i] == rows[i]);
        }
        lemma_snr_accumulate_shape(size, num_classes, init);
        assert(snr_row(rows[rows.len() - 1], size, num_classes));
    }
}

/// Merging with the state of no trace changes nothing, on either side.
pub proof fn lemma_snr_merge_identity(s: SnrState)
    requires
        s.wf(),
    ensures
        s.merge(SnrState::new(s.size(), s.num_classes())) == s,
        SnrState::new(s.size(), s.num_classes()).merge(s) == s,
{
    lemma_merge_identity(s.mean_var);
    lemma_grid_plus_zeros(s.classes_sum, s.size());
    lemma_seq_plus_zeros(s.classes_count);
}

/// Merging does not depend on the order of its operands.
pub proof fn lemma_snr_merge_commutative(a: SnrState, b: SnrState)
    requires
        a.wf(),
        b.wf(),
        a.size() == b.size(),
        a.num_classes() == b.num_classes(),
    ensures
        a.merge(b) == b.merge(a),
{
    lemma_merge_commutative(a.mean_var, b.mean_var);
    lemma_grid_plus_commutative(a.classes_sum, b.classes_sum, a.size());
    lemma_seq_plus_commutative(a.classes_count, b.classes_count);
}

/// Merging does not depend on how its operands are grouped.
pub proof fn lemma_snr_merge_associative(a: SnrState, b: SnrState, c: SnrState)
    requires
        a.wf(),
        b.wf(),
        c.wf(),
        a.size() == b.size(),
        b.size() == c.size(),
        a.num_classes() == b.num_classes(),
        b.num_classes() == c.num_classes(),
    ensures
        a.merge(b).merge(c) == a.merge(b.merge(c)),
{
    lemma_merge_associative(a.mean_var, b.mean_var, c.mean_var);
    lemma_grid_plus_associative(a.classes_sum, b.classes_sum, c.classes_sum, a.size());
    lemma_seq_plus_associative(a.classes_count, b.classes_count, c.classes_count);
}

/// The state of a batch cut in two is the merge of the states of its parts.
pub proof fn lemma_snr_accumulate_concat(
    size: nat,
    num_classes: nat,
    first: Seq<(Seq<int>, int)>,
    second: Seq<(Seq<int>, int)>,
)
    requires
        snr_rows(first, size, num_classes),
        snr_rows(second, size, num_classes),
    ensures
        SnrState::accumulate(size, num_classes, first + second) == SnrState::accumulate(
            size,
            num_classes,
            first,
        ).merge(SnrState::accumulate(size, num_classes, second)),
    decreases second.len(),
{
    let a = SnrState::accumulate(size, num_classes, first);
    lemma_snr_accumulate_shape(size, num_classes, first);
    if second.len() == 0 {
        assert(first + second =~= first);
        lemma_merge_identity(a.mean_var);
        lemma_grid_plus_zeros(a.classes_sum, size);
        lemma_seq_plus_zeros(a.classes_count);
    } else {
        let init = second.drop_last();
        let b = SnrState::accumulate(size, num_classes, init);
        let row = second.last();
        assert((first + second).drop_last() =~= first + init);
        assert((first + second).last() == row);
        assert forall|i: int| 0 <= i < init.len() implies snr_row(
            #[trigger] init[i],
            size,
            num_classes,
        ) by {
            assert(init[i] == second[i]);
        }
        assert(snr_row(second[second.len() - 1], size, num_classes));
        lemma_snr_accumulate_concat(size, num_classes, first, init);
        lemma_snr_accumulate_shape(size, num_classes, init);
        lemma_process_after_merge(a.mean_var, b.mean_var, row.0);
        lemma_grid_plus_row_commutes(a.classes_sum, b.classes_sum, row.1, row.0, size);
        lemma_seq_plus_one_commutes(a.classes_count, b.classes_count, row.1);
    }
}

/// Every reduction of a batch of classed traces gives the state of the whole
/// batch, whatever the chunks and however the merges are grouped.
pub proof fn lemma_snr_reduction(
    size: nat,
    num_classes: nat,
    reduction: Reduction<(Seq<int>, int)>,
)
    requires
        reduction.all_rows(|row: (Seq<int>, int)| snr_row(row, size, num_classes)),
    ensures
        reduction.eval(
            |rows: Seq<(Seq<int>, int)>| SnrState::accumulate(size, num_classes, rows),
            |a: SnrState, b: SnrState| a.merge(b),
        ) == SnrState::accumulate(size, num_classes, reduction.rows()),
{
    let accumulate = |rows: Seq<(Seq<int>, int)>| SnrState::accumulate(size, num_classes, rows);
    let merge = |a: SnrState, b: SnrState| a.merge(b);
    let valid = |row: (Seq<int>, int)| snr_row(row, size, num_classes);
    assert forall|first: Seq<(Seq<int>, int)>, second: Seq<(Seq<int>, int)>|
        (forall|i: int| 0 <= i < first.len() ==> valid(#[trigger] first[i])) && (forall|i: int|
            0 <= i < second.len() ==> valid(#[trigger] second[i])) implies accumulate(
        first + second,
    ) == #[trigger] merge(accumulate(first), accumulate(second)) by {
        assert forall|i: int| 0 <= i < first.len() implies snr_row(
            #[trigger] first[i],
            size,
            num_classes,
        ) by {
            assert(valid(first[i]));
        }
        assert forall|i: int| 0 <= i < second.len() implies snr_row(
            #[trigger] second[i],
            size,
            num_classes,
        ) by {
            assert(valid(second[i]));
        }
        lemma_snr_accumulate_concat(size, num_classes, first, second);
    }
    assert(splits(accumulate, merge, valid));
    lemma_reduction_is_one_pass(reduction, accumulate, merge, valid);
}

/// The state after one more row, if the state has a sum of as many samples
/// as the trace has for every class and the class of the row is one of them;
/// the state unchanged, if not.
pub open spec fn snr_process_if_valid(s: SnrState, row: (Seq<int>, int)) -> SnrState {
    if s.mean_var.sum_squares.len() == s.size() && is_grid(
        s.classes_sum,
        s.num_classes(),
        s.size(),
    ) && snr_row(row, s.size(), s.num_classes()) {
        s.process(row.0, row.1)
    } else {
        s
    }
}

/// Processing two rows gives the same state in either order.
pub proof fn lemma_snr_process_commutes(
    s: SnrState,
    first: (Seq<int>, int),
    second: (Seq<int>, int),
)
    ensures
        snr_process_if_valid(snr_process_if_valid(s, first), second) == snr_process_if_valid(
            snr_process_if_valid(s, second),
            first,
        ),
{
    if s.mean_var.sum_squares.len() == s.size() && is_grid(
        s.classes_sum,
        s.num_classes(),
        s.size(),
    ) && snr_row(first, s.size(), s.num_classes()) && snr_row(
        second,
        s.size(),
        s.num_classes(),
    ) {
        let a = s.process(first.0, first.1).process(second.0, second.1);
        let b = s.process(second.0, second.1).process(first.0, first.1);
        assert(a.mean_var =~= b.mean_var);
        assert(a.classes_count =~= b.classes_count);
        assert(a.classes_sum =~~= b.classes_sum);
    }
}

/// Processing rows one after the other is folding them with the guarded
/// step.
proof fn lemma_snr_accumulate_is_fold(size: nat, num_classes: nat, rows: Seq<(Seq<int>, int)>)
    requires
        snr_rows(rows, size, num_classes),
    ensures
        SnrState::accumulate(size, num_classes, rows) == rows.fold_left(
            SnrState::new(size, num_classes),
            |s: SnrState, row: (Seq<int>, int)| snr_process_if_valid(s, row),
        ),
    decreases rows.len(),
{
    if rows.len() > 0 {
        let init = rows.drop_last();
        assert forall|i: int| 0 <= i < init.len() implies snr_row(
            #[trigger] init[i],
            size,
            num_classes,
        ) by {
            assert(init[i] == rows[i]);
        }
        lemma_snr_accumulate_is_fold(size, num_classes, init);
        lemma_snr_accumulate_shape(size, num_classes, init);
        assert(snr_row(rows[rows.len() - 1], size, num_classes));
    }
}

/// The state of a batch does not depend on the order of its rows: two
/// batches with the same rows, each as often in one as in the other, have
/// the same state.
pub proof fn lemma_snr_order_independent(
    size: nat,
    num_classes: nat,
    first: Seq<(Seq<int>, int)>,
    second: Seq<(Seq<int>, int)>,
)
    requires
        snr_rows(first, size, num_classes),
        snr_rows(second, size, num_classes),
        first.to_multiset() == second.to_multiset(),
    ensures
        SnrState::accumulate(size, num_classes, first) == SnrState::accumulate(
            size,
            num_classes,
            second,
        ),
{
    let step = |s: SnrState, row: (Seq<int>, int)| snr_process_if_valid(s, row);
    assert forall|x: (Seq<int>, int), y: (Seq<int>, int), s: SnrState| #[trigger]
        step(step(s, x), y) == step(step(s, y), x) by {
        lemma_snr_process_commutes(s, x, y);
    }
    assert(commutative_foldl(step));
    lemma_snr_accumulate_is_fold(size, num_classes, first);
    lemma_snr_accumulate_is_fold(size, num_classes, second);
    lemma_fold_left_permutation(first, second, step, SnrState::new(size, num_classes));
}

/// The classes partition the traces: the counts of the classes add up to the
/// number of traces, and at every sample position the sums of the classes add
/// up to the sum of all traces.
pub proof fn lemma_snr_classes_partition(
    size: nat,
    num_classes: nat,
    rows: Seq<(Seq<int>, int)>,
    sample: int,
)
    requires
        snr_rows(rows, size, num_classes),
        0 <= sample < size,
    ensures
        seq_sum(SnrState::accumulate(size, num_classes, rows).classes_count)
            == SnrState::accumulate(size, num_classes, rows).mean_var.count,
        seq_sum(grid_column(SnrState::accumulate(size, num_classes, rows).classes_sum, sample))
            == SnrState::accumulate(size, num_classes, rows).mean_var.sum[sample],
    decreases rows.len(),
{
    let state = SnrState::accumulate(size, num_classes, rows);
    if rows.len() == 0 {
        lemma_seq_sum_zeros(num_classes);
        assert(grid_column(state.classes_sum, sample) =~= seq_zeros(num_classes));
    } else {
        let init = rows.drop_last();
        let row = rows.last();
        assert(rows[rows.len() - 1] == row);
        assert forall|i: int| 0 <= i < init.len() implies snr_row(
            #[trigger] init[i],
            size,
            num_classes,
        ) by {
            assert(init[i] == rows[i]);
        }
        lemma_snr_classes_partition(size, num_classes, init, sample);
        lemma_snr_accumulate_shape(size, num_classes, init);
        let before = SnrState::accumulate(size, num_classes, init);
        let column = grid_column(before.classes_sum, sample);
        assert(grid_column(state.classes_sum, sample) =~= column.update(
            row.1,
            column[row.1] + row.0[sample],
        ));
        lemma_seq_sum_update(column, row.1, row.0[sample]);
        lemma_seq_sum_update(before.classes_count, row.1, 1);
    }
}

/// Accumulates what the signal-to-noise ratio of a set of classed traces is
/// computed from.
pub struct SnrProcessor {
    mean_var: MeanVarProcessor,
    /// Sum of traces per class
    classes_sum: IntArray2,
    /// Counts the number of traces per class
    classes_count: IntArray1,
}

impl View for SnrProcessor {
    type V = SnrState;

    /// What the fields hold, as mathematical integers.
    closed spec fn view(&self) -> SnrState {
        SnrState {
            mean_var: self.mean_var@,
            classes_sum: self.classes_sum@,
            classes_count: self.classes_count@,
        }
    }
}

impl SnrProcessor {
    /// The arrays of the processor have the shape of its state.
    pub closed spec fn inv(&self) -> bool {
        &&& self.classes_sum.wf()
        &&& self.classes_sum.cols() == self@.size()
    }

    /// Creates a processor for traces of `size` samples in `num_classes`
    /// classes.
    pub fn new(size: usize, num_classes: usize) -> (p: Self)
        requires
            can_allocate(size as nat),
            can_allocate(num_classes as nat),
            can_allocate_grid(num_classes as nat, size as nat),
        ensures
            p@ == SnrState::new(size as nat, num_classes as nat),
            p@.wf(),
            p.inv(),
    {
        Self {
            mean_var: MeanVarProcessor::new(size),
            classes_sum: IntArray2::zeros(num_classes, size),
            classes_count: IntArray1::zeros(num_classes),
        }
    }

    /// Restores a processor from the moments of all traces and the sums and
    /// counts of the classes, or nothing when their shapes do not agree:
    /// there must be a sum of as many samples as the moments cover, and a
    /// count, for every class.
    pub fn from_parts(
        mean_var: MeanVarProcessor,
        classes_sum: IntArray2,
        classes_count: IntArray1,
    ) -> (p: Option<Self>)
        requires
            mean_var@.wf(),
            classes_sum.wf(),
        ensures
            p is Some <==> classes_sum@.len() == classes_count@.len() && classes_sum.cols()
                == mean_var@.size(),
            p is Some ==> p->0@ == (SnrState {
                mean_var: mean_var@,
                classes_sum: classes_sum@,
                classes_count: classes_count@,
            }) && p->0@.wf() && p->0.inv(),
    {
        if classes_sum.nrows() != classes_count.len() || classes_sum.ncols() != mean_var.size() {
            return None;
        }
        Some(Self { mean_var, classes_sum, classes_count })
    }

    /// Processes one trace of class `class`.
    pub fn process(&mut self, trace: &IntArray1, class: usize)
        requires
            old(self)@.wf(),
            old(self).inv(),
            trace@.len() == old(self)@.size(),
            class < old(self)@.num_classes(),
            old(self)@.process(trace@, class as int).fits(),
        ensures
            final(self)@ == old(self)@.process(trace@, class as int),
            final(self)@.wf(),
            final(self).inv(),
    {
        proof {
            let after = old(self)@.process(trace@, class as int);
            assert(after.classes_sum[class as int] == seq_plus(
                old(self)@.classes_sum[class as int],
                trace@,
            ));
            assert(after.classes_count[class as int] == old(self)@.classes_count[class as int]
                + 1);
        }
        self.mean_var.process(trace);
        self.classes_sum.accumulate_row(class, trace);
        let count = self.classes_count.get(class);
        self.classes_count.set(class, count + 1);
    }

    /// The number of samples per trace.
    pub fn size(&self) -> (n: usize)
        ensures
            n == self@.size(),
    {
        self.mean_var.size()
    }

    /// The number of classes.
    pub fn num_classes(&self) -> (n: usize)
        ensures
            n == self@.num_classes(),
    {
        self.classes_count.len()
    }

    /// The moments of all traces processed.
    pub fn mean_var(&self) -> (m: &MeanVarProcessor)
        ensures
            m@ == self@.mean_var,
    {
        &self.mean_var
    }

    /// The sum of the traces of every class, one row per class.
    pub fn classes_sum(&self) -> (s: &IntArray2)
        ensures
            s@ == self@.classes_sum,
    {
        &self.classes_sum
    }

    /// The number of traces of every class.
    pub fn classes_count(&self) -> (c: &IntArray1)
        ensures
            c@ == self@.classes_count,
    {
        &self.classes_count
    }

    /// Whether two processors can be merged: they were created for traces of
    /// the same size and for the same number of classes.
    pub fn is_compatible_with(&self, other: &Self) -> (b: bool)
        ensures
            b == (self@.size() == other@.size() && self@.num_classes() == other@.num_classes()),
    {
        self.size() == other.size() && self.num_classes() == other.num_classes()
    }

    /// Merges two processors into the processor of all the traces either has
    /// seen.
    pub fn merge(self, rhs: Self) -> (merged: Self)
        requires
            self@.wf(),
            rhs@.wf(),
            self.inv(),
            rhs.inv(),
            self@.size() == rhs@.size(),
            self@.num_classes() == rhs@.num_classes(),
            self@.merge(rhs@).fits(),
        ensures
            merged@ == self@.merge(rhs@),
            merged@.wf(),
            merged.inv(),
    {
        Self {
            mean_var: self.mean_var.merge(rhs.mean_var),
            classes_sum: self.classes_sum.plus(rhs.classes_sum),
            classes_count: self.classes_count.plus(rhs.classes_count),
        }
    }
}

/// Whether `classes` holds, for each of the first indices of a batch, a class
/// that `get_class` may return for that index.
pub open spec fn classified_by<F: Fn(usize) -> usize>(get_class: F, classes: Seq<int>) -> bool {
    forall|i: int|
        0 <= i < classes.len() ==> 0 <= #[trigger] classes[i] <= usize::MAX && call_ensures(
            get_class,
            (i as usize,),
            classes[i] as usize,
        )
}

/// The first traces of a batch, each with its class: as many as there are
/// `classes`.
pub open spec fn traces_with_classes(traces: Seq<Seq<int>>, classes: Seq<int>) -> Seq<
    (Seq<int>, int),
> {
    Seq::new(classes.len(), |i: int| (traces[i], classes[i]))
}

/// Whether every run of consecutive rows of a batch accumulates without
/// overflow.
pub open spec fn snr_runs_fit(size: nat, num_classes: nat, rows: Seq<(Seq<int>, int)>) -> bool {
    forall|from: int, to: int|
        0 <= from <= to <= rows.len() ==> (#[trigger] SnrState::accumulate(
            size,
            num_classes,
            rows.subrange(from, to),
        )).fits()
}

/// The state of one more row is the state of the rows before it, after
/// processing the row.
proof fn lemma_snr_accumulate_next(
    size: nat,
    num_classes: nat,
    rows: Seq<(Seq<int>, int)>,
    from: int,
    to: int,
)
    requires
        0 <= from <= to < rows.len(),
    ensures
        SnrState::accumulate(size, num_classes, rows.subrange(from, to + 1))
            == SnrState::accumulate(size, num_classes, rows.subrange(from, to)).process(
            rows[to].0,
            rows[to].1,
        ),
{
    assert(rows.subrange(from, to + 1).drop_last() =~= rows.subrange(from, to));
}

/// The rows of a run of a batch are rows of the batch.
proof fn lemma_snr_rows_of_run(
    size: nat,
    num_classes: nat,
    rows: Seq<(Seq<int>, int)>,
    from: int,
    to: int,
)
    requires
        snr_rows(rows, size, num_classes),
        0 <= from <= to <= rows.len(),
    ensures
        snr_rows(rows.subrange(from, to), size, num_classes),
{
    let run = rows.subrange(from, to);
    assert forall|i: int| 0 <= i < run.len() implies snr_row(
        #[trigger] run[i],
        size,
        num_classes,
    ) by {
        assert(run[i] == rows[from + i]);
    }
}

/// Accumulates a batch of traces for the signal-to-noise ratio, `batch_size`
/// traces at a time: every chunk gets a processor of its own, and the
/// processors of the chunks are merged. `get_class` gives the class of a
/// trace by its index in the batch, and is called once for every trace. The
/// result is the processor of the whole batch under the classes that
/// `get_class` returned.
pub fn snr<F>(traces: &IntArray2, classes: usize, get_class: F, batch_size: usize) -> (p:
    SnrProcessor) where F: Fn(usize) -> usize
    requires
        traces.wf(),
        traces@.len() > 0,
        batch_size > 0,
        can_allocate(traces.cols()),
        can_allocate(classes as nat),
        can_allocate_grid(classes as nat, traces.cols()),
        forall|i: usize| i < traces@.len() ==> call_requires(get_class, (i,)),
        forall|i: usize, c: usize|
            i < traces@.len() && call_ensures(get_class, (i,), c) ==> c < classes,
        forall|cs: Seq<int>|
            cs.len() <= traces@.len() && #[trigger] classified_by(get_class, cs) ==> snr_runs_fit(
                traces.cols(),
                classes as nat,
                traces_with_classes(traces@, cs),
            ),
    ensures
        exists|cs: Seq<int>|
            cs.len() == traces@.len() && #[trigger] classified_by(get_class, cs) && p@
                == SnrState::accumulate(
                traces.cols(),
                classes as nat,
                traces_with_classes(traces@, cs),
            ),
        p@.wf(),
        p.inv(),
{
    let n = traces.nrows();
    let size = traces.ncols();
    let ghost cs: Seq<int> = Seq::empty();
    let mut total = SnrProcessor::new(size, classes);
    let mut start: usize = 0;
    proof {
        assert(traces_with_classes(traces@, cs) =~= Seq::empty());
    }
    while start < n
        invariant
            traces.wf(),
            n == traces@.len(),
            size == traces.cols(),
            can_allocate(size as nat),
            can_allocate(classes as nat),
            can_allocate_grid(classes as nat, size as nat),
            batch_size > 0,
            forall|i: usize| i < n ==> call_requires(get_class, (i,)),
            forall|i: usize, c: usize| i < n && call_ensures(get_class, (i,), c) ==> c < classes,
            forall|cs: Seq<int>|
                cs.len() <= n && #[trigger] classified_by(get_class, cs) ==> snr_runs_fit(
                    size as nat,
                    classes as nat,
                    traces_with_classes(traces@, cs),
                ),
            start <= n,
            cs.len() == start,
            classified_by(get_class, cs),
            snr_rows(traces_with_classes(traces@, cs), size as nat, classes as nat),
            total@ == SnrState::accumulate(
                size as nat,
                classes as nat,
                traces_with_classes(traces@, cs),
            ),
            total@.wf(),
            total.inv(),
        decreases n - start,
    {
        let end = if batch_size < n - start {
            start + batch_size
        } else {
            n
        };
        let mut chunk = SnrProcessor::new(size, classes);
        let mut i = start;
        let ghost before = cs;
        proof {
            assert(traces_with_classes(traces@, cs).subrange(start as int, start as int)
                =~= Seq::empty());
        }
        while i < end
            invariant
                traces.wf(),
                n == traces@.len(),
                size == traces.cols(),
                forall|i: usize| i < n ==> call_requires(get_class, (i,)),
                forall|i: usize, c: usize|
                    i < n && call_ensures(get_class, (i,), c) ==> c < classes,
                forall|cs: Seq<int>|
                    cs.len() <= n && #[trigger] classified_by(get_class, cs) ==> snr_runs_fit(
                        size as nat,
                        classes as nat,
                        traces_with_classes(traces@, cs),
                    ),
                start <= i <= end <= n,
                cs.len() == i,
                before.len() == start,
                cs.subrange(0, start as int) == before,
                classified_by(get_class, cs),
                snr_rows(traces_with_classes(traces@, cs), size as nat, classes as nat),
                chunk@ == SnrState::accumulate(
                    size as nat,
                    classes as nat,
                    traces_with_classes(traces@, cs).subrange(start as int, i as int),
                ),
                chunk@.wf(),
                chunk.inv(),
            decreases end - i,
        {
            let trace = traces.row(i);
            let class = get_class(i);
            proof {
                let rows = traces_with_classes(traces@, cs);
                let next = cs.push(class as int);
                let grown = traces_with_classes(traces@, next);
                assert(classified_by(get_class, next));
                assert(grown.subrange(start as int, i as int) =~= rows.subrange(
                    start as int,
                    i as int,
                ));
                assert(next.subrange(0, start as int) =~= before);
                assert(grown[i as int] == (traces@[i as int], class as int));
                assert forall|k: int| 0 <= k < grown.len() implies snr_row(
                    #[trigger] grown[k],
                    size as nat,
                    classes as nat,
                ) by {
                    if k < i {
                        assert(grown[k] == rows[k]);
                    }
                }
                lemma_snr_accumulate_next(
                    size as nat,
                    classes as nat,
                    grown,
                    start as int,
                    i as int,
                );
                lemma_snr_rows_of_run(size as nat, classes as nat, rows, start as int, i as int);
                lemma_snr_accumulate_shape(
                    size as nat,
                    classes as nat,
                    rows.subrange(start as int, i as int),
                );
                assert(snr_runs_fit(size as nat, classes as nat, grown));
                assert(SnrState::accumulate(
                    size as nat,
                    classes as nat,
                    grown.subrange(start as int, i + 1),
                ).fits());
                cs = next;
            }
            chunk.process(&trace, class);
            i += 1;
        }
        proof {
            let rows = traces_with_classes(traces@, cs);
            let first = rows.subrange(0, start as int);
            let second = rows.subrange(start as int, end as int);
            assert(first =~= traces_with_classes(traces@, before));
            assert(first + second =~= rows);
            lemma_snr_rows_of_run(size as nat, classes as nat, rows, 0, start as int);
            lemma_snr_rows_of_run(size as nat, classes as nat, rows, start as int, end as int);
            lemma_snr_accumulate_concat(size as nat, classes as nat, first, second);
            lemma_snr_accumulate_shape(size as nat, classes as nat, first);
            lemma_snr_accumulate_shape(size as nat, classes as nat, second);
            assert(snr_runs_fit(size as nat, classes as nat, rows));
            assert(rows.subrange(0, end as int) =~= rows);
            assert(SnrState::accumulate(
                size as nat,
                classes as nat,
                rows.subrange(0, end as int),
            ).fits());
        }
        total = total.merge(chunk);
        start = end;
    }
    total
}

/// Every reduction of the rows of a batch gives the state of the batch:
/// whatever the chunks, in whatever order the rows are taken, and however the
/// merges are grouped.
pub proof fn lemma_ttest_reduction_in_any_order(
    size: nat,
    reduction: Reduction<(Seq<int>, bool)>,
    batch: Seq<(Seq<int>, bool)>,
)
    requires
        classed_traces_of_size(batch, size),
        reduction.all_rows(|row: (Seq<int>, bool)| row.0.len() == size),
        reduction.rows().to_multiset() == batch.to_multiset(),
    ensures
        reduction.eval(
            |rows: Seq<(Seq<int>, bool)>| TTestState::accumulate(size, rows),
            |a: TTestState, b: TTestState| a.merge(b),
        ) == TTestState::accumulate(size, batch),
{
    let valid = |row: (Seq<int>, bool)| row.0.len() == size;
    let rows = reduction.rows();
    assert forall|i: int| 0 <= i < rows.len() implies (#[trigger] rows[i]).0.len() == size by {
        assert(valid(rows[i]));
    }
    lemma_ttest_reduction(size, reduction);
    lemma_ttest_order_independent(size, rows, batch);
}

/// Every reduction of the rows of a batch gives the state of the batch:
/// whatever the chunks, in whatever order the rows are taken, and however the
/// merges are grouped.
pub proof fn lemma_snr_reduction_in_any_order(
    size: nat,
    num_classes: nat,
    reduction: Reduction<(Seq<int>, int)>,
    batch: Seq<(Seq<int>, int)>,
)
    requires
        snr_rows(batch, size, num_classes),
        reduction.all_rows(|row: (Seq<int>, int)| snr_row(row, size, num_classes)),
        reduction.rows().to_multiset() == batch.to_multiset(),
    ensures
        reduction.eval(
            |rows: Seq<(Seq<int>, int)>| SnrState::accumulate(size, num_classes, rows),
            |a: SnrState, b: SnrState| a.merge(b),
        ) == SnrState::accumulate(size, num_classes, batch),
{
    let valid = |row: (Seq<int>, int)| snr_row(row, size, num_classes);
    let rows = reduction.rows();
    assert forall|i: int| 0 <= i < rows.len() implies snr_row(
        #[trigger] rows[i],
        size,
        num_classes,
    ) by {
        assert(valid(rows[i]));
    }
    lemma_snr_reduction(size, num_classes, reduction);
    lemma_snr_order_independent(size, num_classes, rows, batch);
}

} // verus!
