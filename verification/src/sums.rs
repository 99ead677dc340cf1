//! Sequences and grids of integers under element-wise addition.
//!
//! Every accumulator of this crate is, mathematically, a tuple of sums. This
//! module holds the operations on sums that their models share.
use vstd::prelude::*;

verus! {

/// `n` zeros.
pub open spec fn seq_zeros(n: nat) -> Seq<int> {
    Seq::new(n, |i: int| 0int)
}

/// `n` ones.
pub open spec fn seq_ones(n: nat) -> Seq<int> {
    Seq::new(n, |i: int| 1int)
}

/// The sum of the elements of `a`.
pub open spec fn seq_sum(a: Seq<int>) -> int
    decreases a.len(),
{
    if a.len() == 0 {
        0
    } else {
        seq_sum(a.drop_last()) + a.last()
    }
}

/// The element-wise sum of `a` and `b`, as long as `a`.
pub open spec fn seq_plus(a: Seq<int>, b: Seq<int>) -> Seq<int> {
    Seq::new(a.len(), |i: int| a[i] + b[i])
}

/// The squares of the elements of `a`.
pub open spec fn seq_squares(a: Seq<int>) -> Seq<int> {
    Seq::new(a.len(), |i: int| a[i] * a[i])
}

/// `a` with one added to its element at index `i`.
pub open spec fn seq_plus_one(a: Seq<int>, i: int) -> Seq<int> {
    a.update(i, a[i] + 1)
}

/// The sum of the products of corresponding elements of `a` and `b`.
pub open spec fn seq_dot(a: Seq<int>, b: Seq<int>) -> int
    decreases a.len(),
{
    if a.len() == 0 || b.len() == 0 {
        0
    } else {
        seq_dot(a.drop_last(), b.drop_last()) + a.last() * b.last()
    }
}

/// The sum of the magnitudes of the products of corresponding elements of
/// `a` and `b`.
pub open spec fn seq_dot_magnitude(a: Seq<int>, b: Seq<int>) -> int
    decreases a.len(),
{
    if a.len() == 0 || b.len() == 0 {
        0
    } else {
        let p = a.last() * b.last();
        seq_dot_magnitude(a.drop_last(), b.drop_last()) + if p < 0 {
            -p
        } else {
            p
        }
    }
}

/// Column `j` of a grid: the elements at index `j` of every row.
pub open spec fn grid_column(g: Seq<Seq<int>>, j: int) -> Seq<int> {
    Seq::new(g.len(), |i: int| g[i][j])
}

/// Every element of `a` is representable in `i128`.
pub open spec fn seq_fits(a: Seq<int>) -> bool {
    forall|i: int| 0 <= i < a.len() ==> i128::MIN <= #[trigger] a[i] <= i128::MAX
}

/// No element of `a` is negative.
pub open spec fn seq_nonnegative(a: Seq<int>) -> bool {
    forall|i: int| 0 <= i < a.len() ==> 0 <= #[trigger] a[i]
}

/// `g` has `nrows` rows of `ncols` elements each.
pub open spec fn is_grid(g: Seq<Seq<int>>, nrows: nat, ncols: nat) -> bool {
    &&& g.len() == nrows
    &&& forall|i: int| 0 <= i < g.len() ==> (#[trigger] g[i]).len() == ncols
}

/// `nrows` rows of `ncols` zeros.
pub open spec fn grid_zeros(nrows: nat, ncols: nat) -> Seq<Seq<int>> {
    Seq::new(nrows, |i: int| seq_zeros(ncols))
}

/// The element-wise sum of two grids, in the shape of `a`.
pub open spec fn grid_plus(a: Seq<Seq<int>>, b: Seq<Seq<int>>) -> Seq<Seq<int>> {
    Seq::new(a.len(), |i: int| seq_plus(a[i], b[i]))
}

/// `g` with `row` added element-wise to its row `r`.
pub open spec fn grid_plus_row(g: Seq<Seq<int>>, r: int, row: Seq<int>) -> Seq<Seq<int>> {
    g.update(r, seq_plus(g[r], row))
}

/// Every element of `g` is representable in `i128`.
pub open spec fn grid_fits(g: Seq<Seq<int>>) -> bool {
    forall|i: int| 0 <= i < g.len() ==> seq_fits(#[trigger] g[i])
}

/// No element of `g` is negative.
pub open spec fn grid_nonnegative(g: Seq<Seq<int>>) -> bool {
    forall|i: int| 0 <= i < g.len() ==> seq_nonnegative(#[trigger] g[i])
}

/// Element-wise addition of sequences is commutative.
pub proof fn lemma_seq_plus_commutative(a: Seq<int>, b: Seq<int>)
    requires
        a.len() == b.len(),
    ensures
        seq_plus(a, b) == seq_plus(b, a),
{
    assert(seq_plus(a, b) =~= seq_plus(b, a));
}

/// Element-wise addition of sequences is associative.
pub proof fn lemma_seq_plus_associative(a: Seq<int>, b: Seq<int>, c: Seq<int>)
    requires
        a.len() == b.len(),
        b.len() == c.len(),
    ensures
        seq_plus(seq_plus(a, b), c) == seq_plus(a, seq_plus(b, c)),
{
    assert(seq_plus(seq_plus(a, b), c) =~= seq_plus(a, seq_plus(b, c)));
}

/// Zeros are neutral for element-wise addition, on either side.
pub proof fn lemma_seq_plus_zeros(a: Seq<int>)
    ensures
        seq_plus(a, seq_zeros(a.len())) == a,
        seq_plus(seq_zeros(a.len()), a) == a,
{
    assert(seq_plus(a, seq_zeros(a.len())) =~= a);
    assert(seq_plus(seq_zeros(a.len()), a) =~= a);
}

/// Element-wise addition of grids is commutative.
pub proof fn lemma_grid_plus_commutative(a: Seq<Seq<int>>, b: Seq<Seq<int>>, ncols: nat)
    requires
        is_grid(a, a.len(), ncols),
        is_grid(b, a.len(), ncols),
    ensures
        grid_plus(a, b) == grid_plus(b, a),
{
    assert forall|i: int| 0 <= i < a.len() implies seq_plus(a[i], b[i]) == seq_plus(
        b[i],
        a[i],
    ) by {
        lemma_seq_plus_commutative(a[i], b[i]);
    }
    assert(grid_plus(a, b) =~= grid_plus(b, a));
}

/// Element-wise addition of grids is associative.
pub proof fn lemma_grid_plus_associative(
    a: Seq<Seq<int>>,
    b: Seq<Seq<int>>,
    c: Seq<Seq<int>>,
    ncols: nat,
)
    requires
        is_grid(a, a.len(), ncols),
        is_grid(b, a.len(), ncols),
        is_grid(c, a.len(), ncols),
    ensures
        grid_plus(grid_plus(a, b), c) == grid_plus(a, grid_plus(b, c)),
{
    assert forall|i: int| 0 <= i < a.len() implies seq_plus(seq_plus(a[i], b[i]), c[i])
        == seq_plus(a[i], seq_plus(b[i], c[i])) by {
        lemma_seq_plus_associative(a[i], b[i], c[i]);
    }
    assert(grid_plus(grid_plus(a, b), c) =~= grid_plus(a, grid_plus(b, c)));
}

/// A grid of zeros is neutral for element-wise addition, on either side.
pub proof fn lemma_grid_plus_zeros(a: Seq<Seq<int>>, ncols: nat)
    requires
        is_grid(a, a.len(), ncols),
    ensures
        grid_plus(a, grid_zeros(a.len(), ncols)) == a,
        grid_plus(grid_zeros(a.len(), ncols), a) == a,
{
    assert forall|i: int| 0 <= i < a.len() implies seq_plus(a[i], seq_zeros(ncols)) == a[i]
        && seq_plus(seq_zeros(ncols), a[i]) == a[i] by {
        lemma_seq_plus_zeros(a[i]);
    }
    assert(grid_plus(a, grid_zeros(a.len(), ncols)) =~= a);
    assert(grid_plus(grid_zeros(a.len(), ncols), a) =~= a);
}

/// Adding a row into a grid, then a grid, is adding the grid, then the row.
pub proof fn lemma_grid_plus_row_commutes(
    a: Seq<Seq<int>>,
    b: Seq<Seq<int>>,
    r: int,
    row: Seq<int>,
    ncols: nat,
)
    requires
        is_grid(a, a.len(), ncols),
        is_grid(b, a.len(), ncols),
        0 <= r < a.len(),
        row.len() == ncols,
    ensures
        grid_plus(a, grid_plus_row(b, r, row)) == grid_plus_row(grid_plus(a, b), r, row),
{
    lemma_seq_plus_associative(a[r], b[r], row);
    assert(grid_plus(a, grid_plus_row(b, r, row)) =~= grid_plus_row(grid_plus(a, b), r, row));
}

/// Counting once more at an index, then adding a sequence, is adding the
/// sequence, then counting.
pub proof fn lemma_seq_plus_one_commutes(a: Seq<int>, b: Seq<int>, i: int)
    requires
        a.len() == b.len(),
        0 <= i < a.len(),
    ensures
        seq_plus(a, seq_plus_one(b, i)) == seq_plus_one(seq_plus(a, b), i),
{
    assert(seq_plus(a, seq_plus_one(b, i)) =~= seq_plus_one(seq_plus(a, b), i));
}

/// The dot product with a sequence of zeros is zero.
pub proof fn lemma_seq_dot_zeros(n: nat, b: Seq<int>)
    ensures
        seq_dot(seq_zeros(n), b) == 0,
    decreases n,
{
    if n > 0 && b.len() > 0 {
        assert(seq_zeros(n).drop_last() =~= seq_zeros((n - 1) as nat));
        lemma_seq_dot_zeros((n - 1) as nat, b.drop_last());
        assert(seq_zeros(n).last() == 0);
        assert(seq_zeros(n).last() * b.last() == 0) by (nonlinear_arith)
            requires
                seq_zeros(n).last() == 0,
        ;
    }
}

/// Adding `x` to the element at index `i` of `a` adds `x` times the element
/// at index `i` of `b` to their dot product.
pub proof fn lemma_seq_dot_update(a: Seq<int>, b: Seq<int>, i: int, x: int)
    requires
        a.len() == b.len(),
        0 <= i < a.len(),
    ensures
        seq_dot(a.update(i, a[i] + x), b) == seq_dot(a, b) + x * b[i],
    decreases a.len(),
{
    let changed = a.update(i, a[i] + x);
    if i == a.len() - 1 {
        assert(changed.drop_last() =~= a.drop_last());
        assert((a[i] + x) * b[i] == a[i] * b[i] + x * b[i]) by (nonlinear_arith);
    } else {
        assert(changed.drop_last() =~= a.drop_last().update(i, a.drop_last()[i] + x));
        lemma_seq_dot_update(a.drop_last(), b.drop_last(), i, x);
    }
}

/// Squares that fit when added to sums that are not negative fit by
/// themselves.
pub proof fn lemma_squares_fit(sums: Seq<int>, a: Seq<int>)
    requires
        sums.len() == a.len(),
        seq_nonnegative(sums),
        seq_fits(seq_plus(sums, seq_squares(a))),
    ensures
        seq_fits(seq_squares(a)),
        seq_nonnegative(seq_plus(sums, seq_squares(a))),
{
    let squares = seq_squares(a);
    let total = seq_plus(sums, squares);
    assert forall|i: int| 0 <= i < squares.len() implies i128::MIN <= #[trigger] squares[i]
        <= i128::MAX by {
        assert(0 <= a[i] * a[i]) by (nonlinear_arith);
        assert(total[i] == sums[i] + a[i] * a[i]);
        assert(0 <= sums[i]);
    }
    assert forall|i: int| 0 <= i < total.len() implies 0 <= #[trigger] total[i] by {
        assert(0 <= a[i] * a[i]) by (nonlinear_arith);
        assert(0 <= sums[i]);
    }
}

/// The sum of zeros is zero.
pub proof fn lemma_seq_sum_zeros(n: nat)
    ensures
        seq_sum(seq_zeros(n)) == 0,
    decreases n,
{
    if n > 0 {
        assert(seq_zeros(n).drop_last() =~= seq_zeros((n - 1) as nat));
        lemma_seq_sum_zeros((n - 1) as nat);
    }
}

/// Adding `x` to one element of a sequence adds `x` to the sum of its
/// elements.
pub proof fn lemma_seq_sum_update(a: Seq<int>, i: int, x: int)
    requires
        0 <= i < a.len(),
    ensures
        seq_sum(a.update(i, a[i] + x)) == seq_sum(a) + x,
    decreases a.len(),
{
    let changed = a.update(i, a[i] + x);
    if i == a.len() - 1 {
        assert(changed.drop_last() =~= a.drop_last());
    } else {
        assert(changed.drop_last() =~= a.drop_last().update(i, a.drop_last()[i] + x));
        lemma_seq_sum_update(a.drop_last(), i, x);
    }
}

} // verus!
