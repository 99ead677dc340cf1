//! Running moments of a set of traces.
//!
//! A [`MeanVarProcessor`] keeps, for every sample position, the number of
//! traces seen, their sum and the sum of their squares, all as exact
//! integers. The mean and the sum of squared deviations (`M2`) at a position
//! are the rationals `sum / count` and `scaled_m2 / count`; the usual
//! single-pass and pairwise update formulas for them hold exactly, and are
//! proved below.
use crate::array::{can_allocate, IntArray1};
use crate::reduction::{lemma_reduction_is_one_pass, Reduction, splits};
use crate::sums::{
    lemma_seq_plus_associative, lemma_seq_plus_commutative, lemma_seq_plus_zeros, lemma_squares_fit,
    seq_fits, seq_nonnegative, seq_plus, seq_squares, seq_zeros,
};
use vstd::prelude::*;
use vstd::seq_lib::{commutative_foldl, lemma_fold_left_permutation};

verus! {

/// The moments of a set of traces of equal length: how many there are, and
/// for every sample position the sum of the samples and the sum of their
/// squares.
#[verifier::ext_equal]
pub struct Moments {
    pub count: nat,
    pub sum: Seq<int>,
    pub sum_squares: Seq<int>,
}

impl Moments {
    /// The moments of no trace at all, for traces of `size` samples.
    pub open spec fn new(size: nat) -> Moments {
        Moments { count: 0, sum: seq_zeros(size), sum_squares: seq_zeros(size) }
    }

    /// The number of samples per trace.
    pub open spec fn size(self) -> nat {
        self.sum.len()
    }

    /// Both sums cover the same sample positions, no sum of squares is
    /// negative, and with no trace counted every sum is zero.
    pub open spec fn wf(self) -> bool {
        &&& self.sum_squares.len() == self.sum.len()
        &&& seq_nonnegative(self.sum_squares)
        &&& self.count == 0 ==> self == Moments::new(self.size())
    }

    /// The count fits in `usize` and every sum in `i128`.
    pub open spec fn fits(self) -> bool {
        &&& self.count <= usize::MAX
        &&& seq_fits(self.sum)
        &&& seq_fits(self.sum_squares)
    }

    /// The moments after one more trace.
    pub open spec fn process(self, trace: Seq<int>) -> Moments {
        Moments {
            count: self.count + 1,
            sum: seq_plus(self.sum, trace),
            sum_squares: seq_plus(self.sum_squares, seq_squares(trace)),
        }
    }

    /// The moments of two sets of traces taken together.
    pub open spec fn merge(self, other: Moments) -> Moments {
        Moments {
            count: self.count + other.count,
            sum: seq_plus(self.sum, other.sum),
            sum_squares: seq_plus(self.sum_squares, other.sum_squares),
        }
    }

    /// The moments of `traces`, processed one after the other.
    pub open spec fn accumulate(size: nat, traces: Seq<Seq<int>>) -> Moments
        decreases traces.len(),
    {
        if traces.len() == 0 {
            Moments::new(size)
        } else {
            Moments::accumulate(size, traces.drop_last()).process(traces.last())
        }
    }

    /// `count` times the sum of squared deviations from the mean at sample
    /// position `i`: `count * sum_squares[i] - sum[i]^2`.
    pub open spec fn scaled_m2(self, i: int) -> int {
        self.count * self.sum_squares[i] - self.sum[i] * self.sum[i]
    }
}

/// Every trace in `traces` has `size` samples.
pub open spec fn traces_of_size(traces: Seq<Seq<int>>, size: nat) -> bool {
    forall|t: int| 0 <= t < traces.len() ==> (#[trigger] traces[t]).len() == size
}

/// Accumulates mean and variance of traces, sample position by sample
/// position.
pub struct MeanVarProcessor {
    /// Sum of the traces
    sum: IntArray1,
    /// Sum of the squares of the traces
    sum_squares: IntArray1,
    /// Number of traces processed
    count: usize,
}

impl View for MeanVarProcessor {
    type V = Moments;

    /// What the fields hold, as mathematical integers.
    closed spec fn view(&self) -> Moments {
        Moments { count: self.count as nat, sum: self.sum@, sum_squares: self.sum_squares@ }
    }
}

impl MeanVarProcessor {
    /// Creates a processor for traces of `size` samples.
    pub fn new(size: usize) -> (p: Self)
        requires
            can_allocate(size as nat),
        ensures
            p@ == Moments::new(size as nat),
            p@.wf(),
    {
        let p = Self { sum: IntArray1::zeros(size), sum_squares: IntArray1::zeros(size), count: 0 };
        assert(p@ =~= Moments::new(size as nat));
        p
    }

    /// Restores a processor from the sums and the count that another one
    /// held, or nothing when they are not the moments of any set of traces:
    /// when the sums differ in length, a sum of squares is negative, or a sum
    /// is not zero although no trace is counted.
    pub fn from_parts(sum: IntArray1, sum_squares: IntArray1, count: usize) -> (p: Option<Self>)
        ensures
            p is Some <==> (Moments {
                count: count as nat,
                sum: sum@,
                sum_squares: sum_squares@,
            }).wf(),
            p is Some ==> p->0@ == (Moments {
                count: count as nat,
                sum: sum@,
                sum_squares: sum_squares@,
            }),
    {
        let ghost moments = Moments { count: count as nat, sum: sum@, sum_squares: sum_squares@ };
        if sum.len() != sum_squares.len() || !sum_squares.is_nonnegative() {
            return None;
        }
        if count == 0 && !(sum.is_zero() && sum_squares.is_zero()) {
            assert(!(moments =~= Moments::new(moments.size())));
            return None;
        }
        let p = Self { sum, sum_squares, count };
        assert(p@ =~= moments);
        Some(p)
    }

    /// Processes one trace.
    pub fn process(&mut self, trace: &IntArray1)
        requires
            old(self)@.wf(),
            trace@.len() == old(self)@.size(),
            old(self)@.process(trace@).fits(),
        ensures
            final(self)@ == old(self)@.process(trace@),
            final(self)@.wf(),
    {
        proof {
            lemma_squares_fit(old(self)@.sum_squares, trace@);
        }
        self.count += 1;
        self.sum_squares.accumulate_squares(trace);
        self.sum.accumulate(trace);
    }

    /// The number of samples per trace.
    pub fn size(&self) -> (n: usize)
        ensures
            n == self@.size(),
    {
        self.sum.len()
    }

    /// The number of traces processed.
    pub fn count(&self) -> (n: usize)
        ensures
            n == self@.count,
    {
        self.count
    }

    /// The sum of the traces processed, sample position by sample position.
    pub fn sum(&self) -> (s: &IntArray1)
        ensures
            s@ == self@.sum,
    {
        &self.sum
    }

    /// The sum of the squares of the traces processed, sample position by
    /// sample position.
    pub fn sum_squares(&self) -> (s: &IntArray1)
        ensures
            s@ == self@.sum_squares,
    {
        &self.sum_squares
    }

    /// `count` times the sum of squared deviations from the mean at sample
    /// position `i`, or nothing when one of the two products that it is the
    /// difference of does not fit in `i128`. Divided by the square of the
    /// count it is the biased variance.
    pub fn scaled_m2(&self, i: usize) -> (m2: Option<i128>)
        requires
            self@.wf(),
            i < self@.size(),
        ensures
            m2 is Some <==> self@.count * self@.sum_squares[i as int] <= i128::MAX
                && self@.sum[i as int] * self@.sum[i as int] <= i128::MAX,
            m2 is Some ==> m2->0 == self@.scaled_m2(i as int),
    {
        let sum = self.sum.get(i);
        let squares = self.sum_squares.get(i);
        let count = self.count as i128;
        proof {
            assert(0 <= squares);
            assert(0 <= count * squares) by (nonlinear_arith)
                requires
                    0 <= count,
                    0 <= squares,
            ;
            assert(0 <= sum * sum) by (nonlinear_arith);
        }
        match (count.checked_mul(squares), sum.checked_mul(sum)) {
            (Some(scaled), Some(square)) => Some(scaled - square),
            _ => None,
        }
    }

    /// Whether two processors can be merged: they were created for traces of
    /// the same size.
    pub fn is_compatible_with(&self, other: &Self) -> (b: bool)
        ensures
            b == (self@.size() == other@.size()),
    {
        self.size() == other.size()
    }

    /// Merges two processors into the processor of all the traces either has
    /// seen. A processor that has seen no trace leaves the other unchanged.
    pub fn merge(self, rhs: Self) -> (merged: Self)
        requires
            self@.wf(),
            rhs@.wf(),
            self@.size() == rhs@.size(),
            self@.merge(rhs@).fits(),
        ensures
            merged@ == self@.merge(rhs@),
            merged@.wf(),
    {
        proof {
            lemma_merge_identity(self@);
            lemma_merge_identity(rhs@);
        }
        if self.count == 0 {
            return rhs;
        }
        if rhs.count == 0 {
            return self;
        }
        let merged = Self {
            sum: self.sum.plus(rhs.sum),
            sum_squares: self.sum_squares.plus(rhs.sum_squares),
            count: self.count + rhs.count,
        };
        assert(merged@ =~= self@.merge(rhs@));
        merged
    }
}

/// Merging with the moments of no trace changes nothing, on either side.
pub proof fn lemma_merge_identity(m: Moments)
    requires
        m.sum_squares.len() == m.sum.len(),
    ensures
        m.merge(Moments::new(m.size())) == m,
        Moments::new(m.size()).merge(m) == m,
{
    lemma_seq_plus_zeros(m.sum);
    lemma_seq_plus_zeros(m.sum_squares);
    assert(m.merge(Moments::new(m.size())) =~= m);
    assert(Moments::new(m.size()).merge(m) =~= m);
}

/// Merging does not depend on the order of its operands.
pub proof fn lemma_merge_commutative(a: Moments, b: Moments)
    requires
        a.sum_squares.len() == a.sum.len(),
        b.sum_squares.len() == b.sum.len(),
        a.size() == b.size(),
    ensures
        a.merge(b) == b.merge(a),
{
    lemma_seq_plus_commutative(a.sum, b.sum);
    lemma_seq_plus_commutative(a.sum_squares, b.sum_squares);
}

/// Merging does not depend on how its operands are grouped.
pub proof fn lemma_merge_associative(a: Moments, b: Moments, c: Moments)
    requires
        a.sum_squares.len() == a.sum.len(),
        b.sum_squares.len() == b.sum.len(),
        c.sum_squares.len() == c.sum.len(),
        a.size() == b.size(),
        b.size() == c.size(),
    ensures
        a.merge(b).merge(c) == a.merge(b.merge(c)),
{
    lemma_seq_plus_associative(a.sum, b.sum, c.sum);
    lemma_seq_plus_associative(a.sum_squares, b.sum_squares, c.sum_squares);
}

/// Processing a trace after a merge is merging with the operand that has
/// processed it.
pub proof fn lemma_process_after_merge(a: Moments, b: Moments, trace: Seq<int>)
    requires
        a.sum_squares.len() == a.sum.len(),
        b.sum_squares.len() == b.sum.len(),
        a.size() == b.size(),
        trace.len() == a.size(),
    ensures
        a.merge(b).process(trace) == a.merge(b.process(trace)),
{
    lemma_seq_plus_associative(a.sum, b.sum, trace);
    lemma_seq_plus_associative(a.sum_squares, b.sum_squares, seq_squares(trace));
}

/// The moments of any number of traces cover `size` sample positions.
pub proof fn lemma_accumulate_size(size: nat, traces: Seq<Seq<int>>)
    ensures
        Moments::accumulate(size, traces).sum.len() == size,
        Moments::accumulate(size, traces).sum_squares.len() == size,
        Moments::accumulate(size, traces).count == traces.len(),
    decreases traces.len(),
{
    if traces.len() > 0 {
        lemma_accumulate_size(size, traces.drop_last());
    }
}

/// The moments of a batch cut in two are the merge of the moments of its
/// parts.
pub proof fn lemma_accumulate_concat(size: nat, first: Seq<Seq<int>>, second: Seq<Seq<int>>)
    requires
        traces_of_size(second, size),
    ensures
        Moments::accumulate(size, first + second) == Moments::accumulate(size, first).merge(
            Moments::accumulate(size, second),
        ),
    decreases second.len(),
{
    let a = Moments::accumulate(size, first);
    lemma_accumulate_size(size, first);
    if second.len() == 0 {
        assert(first + second =~= first);
        lemma_merge_identity(a);
    } else {
        let init = second.drop_last();
        assert((first + second).drop_last() =~= first + init);
        assert((first + second).last() == second.last());
        lemma_accumulate_concat(size, first, init);
        lemma_accumulate_size(size, init);
        lemma_process_after_merge(a, Moments::accumulate(size, init), second.last());
    }
}

/// The single-pass update of the mean: with `n` traces seen and one more
/// sample `x`, `mean' = mean + (x - mean) / (n + 1)`. Cleared of
/// denominators, with `mean = sum / n` and `mean' = sum' / (n + 1)`:
/// `n * sum' == (n + 1) * sum + (n * x - sum)`.
pub proof fn lemma_welford_mean(m: Moments, trace: Seq<int>, i: int)
    requires
        0 <= i < m.size(),
        trace.len() == m.size(),
    ensures
        m.count * m.process(trace).sum[i] == (m.count + 1) * m.sum[i] + (m.count * trace[i]
            - m.sum[i]),
{
    let n = m.count as int;
    let s = m.sum[i];
    let x = trace[i];
    assert(n * (s + x) == (n + 1) * s + (n * x - s)) by (nonlinear_arith);
}

/// The single-pass update of the sum of squared deviations: with `n` traces
/// seen and one more sample `x`, `M2' = M2 + (x - mean) * (x - mean')`.
/// Cleared of denominators, with `M2 = scaled_m2 / n` and
/// `M2' = scaled_m2' / (n + 1)`:
/// `n * scaled_m2' == (n + 1) * scaled_m2 + (n * x - sum)^2`.
pub proof fn lemma_welford_m2(m: Moments, trace: Seq<int>, i: int)
    requires
        0 <= i < m.size(),
        m.sum_squares.len() == m.size(),
        trace.len() == m.size(),
    ensures
        m.count * m.process(trace).scaled_m2(i) == (m.count + 1) * m.scaled_m2(i) + (m.count
            * trace[i] - m.sum[i]) * (m.count * trace[i] - m.sum[i]),
{
    let n = m.count as int;
    let s = m.sum[i];
    let q = m.sum_squares[i];
    let x = trace[i];
    let xx = x * x;
    let ss = s * s;
    let sx = s * x;
    let nx = n * x;
    let after = (n + 1) * (q + xx) - (s + x) * (s + x);
    assert(m.process(trace).scaled_m2(i) == after);
    assert((s + x) * (s + x) == ss + 2 * sx + xx) by (nonlinear_arith)
        requires
            xx == x * x,
            ss == s * s,
            sx == s * x,
    ;
    assert((nx - s) * (nx - s) == nx * nx - 2 * (nx * s) + ss) by (nonlinear_arith)
        requires
            ss == s * s,
    ;
    assert(nx * nx == n * (n * xx)) by (nonlinear_arith)
        requires
            nx == n * x,
            xx == x * x,
    ;
    assert(nx * s == n * sx) by (nonlinear_arith)
        requires
            nx == n * x,
            sx == s * x,
    ;
    assert((n + 1) * (q + xx) == n * q + q + n * xx + xx) by (nonlinear_arith);
    assert(n * after == n * (n * q) + n * q + n * (n * xx) + n * xx - n * ss - 2 * (n * sx) - n
        * xx) by (nonlinear_arith)
        requires
            after == n * q + q + n * xx + xx - (ss + 2 * sx + xx),
    ;
    assert((n + 1) * (n * q - ss) == n * (n * q) + n * q - n * ss - ss) by (nonlinear_arith);
}

/// The pairwise combination of sums of squared deviations: for parts of `na`
/// and `nb` traces, `M2 = M2a + M2b + delta^2 * na * nb / (na + nb)` with
/// `delta = mean_b - mean_a`. Cleared of denominators:
/// `na * nb * scaled_m2 == (na + nb) * (nb * scaled_m2_a + na * scaled_m2_b)
/// + (na * sum_b - nb * sum_a)^2`.
pub proof fn lemma_merge_m2(a: Moments, b: Moments, i: int)
    requires
        0 <= i < a.size(),
        a.sum_squares.len() == a.size(),
        b.sum.len() == a.size(),
        b.sum_squares.len() == a.size(),
    ensures
        a.count * b.count * a.merge(b).scaled_m2(i) == (a.count + b.count) * (b.count
            * a.scaled_m2(i) + a.count * b.scaled_m2(i)) + (a.count * b.sum[i] - b.count
            * a.sum[i]) * (a.count * b.sum[i] - b.count * a.sum[i]),
{
    let na = a.count as int;
    let nb = b.count as int;
    let sa = a.sum[i];
    let sb = b.sum[i];
    let qa = a.sum_squares[i];
    let qb = b.sum_squares[i];
    let p = na * nb;
    let n = na + nb;
    let saa = sa * sa;
    let sbb = sb * sb;
    let sab = sa * sb;
    let ta = na * qa - saa;
    let tb = nb * qb - sbb;
    let d = na * sb - nb * sa;
    let whole = n * (qa + qb) - (sa + sb) * (sa + sb);
    assert(a.merge(b).scaled_m2(i) == whole);
    assert(a.scaled_m2(i) == ta && b.scaled_m2(i) == tb);
    assert((sa + sb) * (sa + sb) == saa + 2 * sab + sbb) by (nonlinear_arith)
        requires
            saa == sa * sa,
            sbb == sb * sb,
            sab == sa * sb,
    ;
    let x = na * sb;
    let y = nb * sa;
    assert(d * d == x * x - 2 * (x * y) + y * y) by (nonlinear_arith)
        requires
            d == x - y,
    ;
    assert(x * x == na * (na * sbb)) by (nonlinear_arith)
        requires
            x == na * sb,
            sbb == sb * sb,
    ;
    assert(y * y == nb * (nb * saa)) by (nonlinear_arith)
        requires
            y == nb * sa,
            saa == sa * sa,
    ;
    assert(x * y == p * sab) by (nonlinear_arith)
        requires
            x == na * sb,
            y == nb * sa,
            p == na * nb,
            sab == sa * sb,
    ;
    assert(n * (qa + qb) == n * qa + n * qb) by (nonlinear_arith);
    assert(p * whole == p * (n * qa) + p * (n * qb) - p * saa - 2 * (p * sab) - p * sbb)
        by (nonlinear_arith)
        requires
            whole == n * qa + n * qb - (saa + 2 * sab + sbb),
    ;
    assert(nb * ta == p * qa - nb * saa) by (nonlinear_arith)
        requires
            ta == na * qa - saa,
            p == na * nb,
    ;
    assert(na * tb == p * qb - na * sbb) by (nonlinear_arith)
        requires
            tb == nb * qb - sbb,
            p == na * nb,
    ;
    let inner = nb * ta + na * tb;
    assert(n * inner == n * (p * qa) - n * (nb * saa) + n * (p * qb) - n * (na * sbb))
        by (nonlinear_arith)
        requires
            inner == p * qa - nb * saa + p * qb - na * sbb,
    ;
    assert(n * (nb * saa) == p * saa + nb * (nb * saa)) by (nonlinear_arith)
        requires
            n == na + nb,
            p == na * nb,
    ;
    assert(n * (na * sbb) == na * (na * sbb) + p * sbb) by (nonlinear_arith)
        requires
            n == na + nb,
            p == na * nb,
    ;
    assert(p * (n * qa) == n * (p * qa)) by (nonlinear_arith);
    assert(p * (n * qb) == n * (p * qb)) by (nonlinear_arith);
    assert(na * nb * whole == p * whole);
    assert(n * (nb * a.scaled_m2(i) + na * b.scaled_m2(i)) == n * inner);
}

/// The pairwise combination of means: `mean = (na * mean_a + nb * mean_b) /
/// (na + nb)`, which with `mean = sum / count` is `sum == sum_a + sum_b`.
pub proof fn lemma_merge_mean(a: Moments, b: Moments, i: int)
    requires
        0 <= i < a.size(),
        b.sum.len() == a.size(),
    ensures
        a.merge(b).sum[i] == a.sum[i] + b.sum[i],
        a.merge(b).count == a.count + b.count,
{
}

/// Every reduction of a batch of traces of `size` samples gives the moments
/// of the whole batch, whatever the chunks and however the merges are
/// grouped.
pub proof fn lemma_reduction(size: nat, reduction: Reduction<Seq<int>>)
    requires
        reduction.all_rows(|trace: Seq<int>| trace.len() == size),
    ensures
        reduction.eval(
            |traces: Seq<Seq<int>>| Moments::accumulate(size, traces),
            |a: Moments, b: Moments| a.merge(b),
        ) == Moments::accumulate(size, reduction.rows()),
{
    let accumulate = |traces: Seq<Seq<int>>| Moments::accumulate(size, traces);
    let merge = |a: Moments, b: Moments| a.merge(b);
    let valid = |trace: Seq<int>| trace.len() == size;
    assert forall|first: Seq<Seq<int>>, second: Seq<Seq<int>>|
        (forall|i: int| 0 <= i < first.len() ==> valid(#[trigger] first[i])) && (forall|i: int|
            0 <= i < second.len() ==> valid(#[trigger] second[i])) implies accumulate(
        first + second,
    ) == #[trigger] merge(accumulate(first), accumulate(second)) by {
        assert forall|t: int| 0 <= t < second.len() implies (#[trigger] second[t]).len()
            == size by {
            assert(valid(second[t]));
        }
        lemma_accumulate_concat(size, first, second);
    }
    assert(splits(accumulate, merge, valid));
    lemma_reduction_is_one_pass(reduction, accumulate, merge, valid);
}

/// The moments after one more trace, if the trace has the size of the
/// moments; the moments unchanged, if it does not.
pub open spec fn process_if_sized(m: Moments, trace: Seq<int>) -> Moments {
    if m.sum_squares.len() == m.sum.len() && trace.len() == m.size() {
        m.process(trace)
    } else {
        m
    }
}

/// Processing two traces gives the same moments in either order.
pub proof fn lemma_process_commutes(m: Moments, first: Seq<int>, second: Seq<int>)
    ensures
        process_if_sized(process_if_sized(m, first), second) == process_if_sized(
            process_if_sized(m, second),
            first,
        ),
{
    if m.sum_squares.len() == m.sum.len() && first.len() == m.size() && second.len() == m.size() {
        assert(m.process(first).process(second) =~= m.process(second).process(first));
    }
}

/// Processing traces one after the other is folding them with the guarded
/// step.
proof fn lemma_accumulate_is_fold(size: nat, traces: Seq<Seq<int>>)
    requires
        traces_of_size(traces, size),
    ensures
        Moments::accumulate(size, traces) == traces.fold_left(
            Moments::new(size),
            |m: Moments, trace: Seq<int>| process_if_sized(m, trace),
        ),
    decreases traces.len(),
{
    if traces.len() > 0 {
        lemma_accumulate_is_fold(size, traces.drop_last());
        lemma_accumulate_size(size, traces.drop_last());
        assert(traces[traces.len() - 1].len() == size);
    }
}

/// The moments of a batch do not depend on the order of its traces: two
/// batches with the same traces, each as often in one as in the other, have
/// the same moments.
pub proof fn lemma_order_independent(size: nat, first: Seq<Seq<int>>, second: Seq<Seq<int>>)
    requires
        traces_of_size(first, size),
        traces_of_size(second, size),
        first.to_multiset() == second.to_multiset(),
    ensures
        Moments::accumulate(size, first) == Moments::accumulate(size, second),
{
    let step = |m: Moments, trace: Seq<int>| process_if_sized(m, trace);
    assert forall|x: Seq<int>, y: Seq<int>, m: Moments| #[trigger]
        step(step(m, x), y) == step(step(m, y), x) by {
        lemma_process_commutes(m, x, y);
    }
    assert(commutative_foldl(step));
    lemma_accumulate_is_fold(size, first);
    lemma_accumulate_is_fold(size, second);
    lemma_fold_left_permutation(first, second, step, Moments::new(size));
}

/// The sum of the samples at position `i` of all `traces`.
pub open spec fn column_sum(traces: Seq<Seq<int>>, i: int) -> int
    decreases traces.len(),
{
    if traces.len() == 0 {
        0
    } else {
        column_sum(traces.drop_last(), i) + traces.last()[i]
    }
}

/// The sum over all `traces` of `(n * x - s)^2`, where `x` is the sample at
/// position `i`. With `n` the number of traces and `s` the sum of those
/// samples this is `n^2` times the sum of the squared deviations from their
/// mean.
pub open spec fn scaled_deviations(traces: Seq<Seq<int>>, i: int, n: int, s: int) -> int
    decreases traces.len(),
{
    if traces.len() == 0 {
        0
    } else {
        scaled_deviations(traces.drop_last(), i, n, s) + (n * traces.last()[i] - s) * (n
            * traces.last()[i] - s)
    }
}

/// The sum at a position is the sum of the samples there, and the scaled
/// deviations from any `s` expand into the sums that the moments hold.
proof fn lemma_scaled_deviations(size: nat, traces: Seq<Seq<int>>, i: int, n: int, s: int)
    requires
        traces_of_size(traces, size),
        0 <= i < size,
    ensures
        Moments::accumulate(size, traces).sum[i] == column_sum(traces, i),
        scaled_deviations(traces, i, n, s) == n * (n * Moments::accumulate(
            size,
            traces,
        ).sum_squares[i]) - 2 * (n * (s * Moments::accumulate(size, traces).sum[i]))
            + traces.len() * (s * s),
    decreases traces.len(),
{
    if traces.len() > 0 {
        let init = traces.drop_last();
        let before = Moments::accumulate(size, init);
        lemma_scaled_deviations(size, init, i, n, s);
        lemma_accumulate_size(size, init);
        let x = traces.last()[i];
        let q = before.sum_squares[i];
        let t = before.sum[i];
        let xx = x * x;
        let ss = s * s;
        let nx = n * x;
        assert((nx - s) * (nx - s) == nx * nx - 2 * (nx * s) + ss) by (nonlinear_arith)
            requires
                ss == s * s,
        ;
        assert(nx * nx == n * (n * xx)) by (nonlinear_arith)
            requires
                nx == n * x,
                xx == x * x,
        ;
        assert(nx * s == n * (s * x)) by (nonlinear_arith)
            requires
                nx == n * x,
        ;
        assert(n * (n * (q + xx)) == n * (n * q) + n * (n * xx)) by (nonlinear_arith);
        assert(n * (s * (t + x)) == n * (s * t) + n * (s * x)) by (nonlinear_arith);
        assert(traces.len() * ss == init.len() * ss + ss) by (nonlinear_arith)
            requires
                traces.len() == init.len() + 1,
        ;
        let after = Moments::accumulate(size, traces);
        assert(after == before.process(traces.last()));
        assert(after.sum[i] == t + x);
        assert(after.sum_squares[i] == q + xx);
        assert(scaled_deviations(traces, i, n, s) == scaled_deviations(init, i, n, s) + (nx - s)
            * (nx - s));
    } else {
        let empty = Moments::accumulate(size, traces);
        assert(empty.sum[i] == 0 && empty.sum_squares[i] == 0);
        assert(n * (n * 0) == 0 && n * (s * 0) == 0) by (nonlinear_arith);
        assert(0 * (s * s) == 0) by (nonlinear_arith);
    }
}

/// The moments of a batch are those of its direct formulas: the count is the
/// number of traces, the sum at a position is the sum of the samples there
/// (so the mean is `sum / count`), and the squared deviations from the mean
/// add up to `M2`. Cleared of denominators, with `n` the count and `s` the
/// sum: the sum of `(n * x - s)^2` over the batch is `n * scaled_m2`.
pub proof fn lemma_direct_formulas(size: nat, traces: Seq<Seq<int>>, i: int)
    requires
        traces_of_size(traces, size),
        0 <= i < size,
    ensures
        Moments::accumulate(size, traces).count == traces.len(),
        Moments::accumulate(size, traces).sum[i] == column_sum(traces, i),
        scaled_deviations(traces, i, traces.len() as int, column_sum(traces, i)) == traces.len()
            * Moments::accumulate(size, traces).scaled_m2(i),
{
    let m = Moments::accumulate(size, traces);
    let n = traces.len() as int;
    let s = m.sum[i];
    let q = m.sum_squares[i];
    lemma_accumulate_size(size, traces);
    lemma_scaled_deviations(size, traces, i, n, s);
    let ss = s * s;
    assert(n * (s * s) == n * ss);
    assert(n * (n * q - ss) == n * (n * q) - n * ss) by (nonlinear_arith);
}

/// Scaled deviations are a sum of squares, so they are not negative.
proof fn lemma_scaled_deviations_nonnegative(traces: Seq<Seq<int>>, i: int, n: int, s: int)
    ensures
        0 <= scaled_deviations(traces, i, n, s),
    decreases traces.len(),
{
    if traces.len() > 0 {
        lemma_scaled_deviations_nonnegative(traces.drop_last(), i, n, s);
        let d = n * traces.last()[i] - s;
        assert(0 <= d * d) by (nonlinear_arith);
    }
}

/// The variance of a batch is never negative: at every sample position,
/// `count * sum_squares - sum^2` is at least zero.
pub proof fn lemma_variance_nonnegative(size: nat, traces: Seq<Seq<int>>, i: int)
    requires
        traces_of_size(traces, size),
        0 <= i < size,
    ensures
        0 <= Moments::accumulate(size, traces).scaled_m2(i),
{
    let m = Moments::accumulate(size, traces);
    let n = traces.len() as int;
    lemma_direct_formulas(size, traces, i);
    lemma_scaled_deviations_nonnegative(traces, i, n, column_sum(traces, i));
    let v = m.scaled_m2(i);
    if n > 0 {
        assert(0 <= v) by (nonlinear_arith)
            requires
                0 <= n * v,
                0 < n,
        ;
    } else {
        lemma_accumulate_size(size, traces);
        assert(m.sum[i] == 0);
        assert(v == 0) by (nonlinear_arith)
            requires
                v == m.count * m.sum_squares[i] - m.sum[i] * m.sum[i],
                m.count == 0,
                m.sum[i] == 0,
        ;
    }
}

/// Where all samples at a position are `x`, their sum is `x` times their
/// number, and the scaled deviations from that sum vanish.
proof fn lemma_constant_column(traces: Seq<Seq<int>>, i: int, x: int)
    requires
        forall|t: int| 0 <= t < traces.len() ==> (#[trigger] traces[t])[i] == x,
    ensures
        column_sum(traces, i) == traces.len() * x,
        forall|n: int, s: int| n * x == s ==> #[trigger] scaled_deviations(traces, i, n, s) == 0,
    decreases traces.len(),
{
    if traces.len() > 0 {
        let init = traces.drop_last();
        assert forall|t: int| 0 <= t < init.len() implies (#[trigger] init[t])[i] == x by {
            assert(init[t] == traces[t]);
        }
        lemma_constant_column(init, i, x);
        assert(traces[traces.len() - 1][i] == x);
        assert(traces.len() * x == init.len() * x + x) by (nonlinear_arith)
            requires
                traces.len() == init.len() + 1,
        ;
        assert forall|n: int, s: int| n * x == s implies #[trigger] scaled_deviations(
            traces,
            i,
            n,
            s,
        ) == 0 by {
            assert(scaled_deviations(init, i, n, s) == 0);
            assert((n * x - s) * (n * x - s) == 0) by (nonlinear_arith)
                requires
                    n * x == s,
            ;
        }
    } else {
        assert(traces.len() * x == 0) by (nonlinear_arith)
            requires
                traces.len() == 0,
        ;
    }
}

/// Traces that all have the same sample at a position have no variance
/// there, whatever the magnitude of the sample and however many they are.
pub proof fn lemma_constant_has_no_variance(size: nat, traces: Seq<Seq<int>>, i: int, x: int)
    requires
        traces_of_size(traces, size),
        0 <= i < size,
        forall|t: int| 0 <= t < traces.len() ==> (#[trigger] traces[t])[i] == x,
    ensures
        Moments::accumulate(size, traces).scaled_m2(i) == 0,
{
    let m = Moments::accumulate(size, traces);
    let n = traces.len() as int;
    let s = column_sum(traces, i);
    lemma_direct_formulas(size, traces, i);
    lemma_constant_column(traces, i, x);
    lemma_variance_nonnegative(size, traces, i);
    assert(scaled_deviations(traces, i, n, s) == 0);
    let v = m.scaled_m2(i);
    if n > 0 {
        assert(v == 0) by (nonlinear_arith)
            requires
                n * v == 0,
                0 < n,
        ;
    } else {
        lemma_accumulate_size(size, traces);
        assert(m.sum[i] == 0);
        assert(v == 0) by (nonlinear_arith)
            requires
                v == m.count * m.sum_squares[i] - m.sum[i] * m.sum[i],
                m.count == 0,
                m.sum[i] == 0,
        ;
    }
}

/// Every reduction of the traces of a batch gives the moments of the batch:
/// whatever the chunks, in whatever order the traces are taken, and however
/// the merges are grouped.
pub proof fn lemma_reduction_in_any_order(
    size: nat,
    reduction: Reduction<Seq<int>>,
    batch: Seq<Seq<int>>,
)
    requires
        traces_of_size(batch, size),
        reduction.all_rows(|trace: Seq<int>| trace.len() == size),
        reduction.rows().to_multiset() == batch.to_multiset(),
    ensures
        reduction.eval(
            |traces: Seq<Seq<int>>| Moments::accumulate(size, traces),
            |a: Moments, b: Moments| a.merge(b),
        ) == Moments::accumulate(size, batch),
{
    let valid = |trace: Seq<int>| trace.len() == size;
    let rows = reduction.rows();
    assert forall|t: int| 0 <= t < rows.len() implies (#[trigger] rows[t]).len() == size by {
        assert(valid(rows[t]));
    }
    lemma_reduction(size, reduction);
    lemma_order_independent(size, rows, batch);
}

} // verus!
