//! Integer arrays of one and two dimensions.
//!
//! The accumulators of this crate keep their sums in `ndarray` arrays of
//! `i128`. The two types below hold such an array; what an array contains is
//! named by [`array1_elems`], [`array2_rows`] and [`array2_ncols`], and the
//! few `ndarray` operations the crate relies on are given contracts over those
//! names. Everything else in the crate is proved from these contracts.
use crate::sums::{
    grid_column, grid_fits, grid_plus, grid_plus_row, grid_zeros, seq_dot, seq_dot_magnitude,
    seq_fits, seq_nonnegative, seq_plus, seq_squares, seq_zeros,
};
use vstd::prelude::*;

verus! {

/// A one-dimensional `ndarray` array of `i128`.
///
/// The array itself is not visible to the verifier: its contents are
/// [`array1_elems`].
#[verifier::external_body]
pub struct IntArray1 {
    inner: ndarray::Array1<i128>,
}

/// A two-dimensional `ndarray` array of `i128`.
///
/// The array itself is not visible to the verifier: its rows are
/// [`array2_rows`] and the length of each row is [`array2_ncols`].
#[verifier::external_body]
pub struct IntArray2 {
    inner: ndarray::Array2<i128>,
}

/// The elements of a one-dimensional array, in index order.
pub uninterp spec fn array1_elems(a: IntArray1) -> Seq<i128>;

/// The rows of a two-dimensional array, in index order.
pub uninterp spec fn array2_rows(a: IntArray2) -> Seq<Seq<i128>>;

/// The number of columns of a two-dimensional array (the length of axis 1).
pub uninterp spec fn array2_ncols(a: IntArray2) -> nat;

/// Whether a one-dimensional array of `n` elements can be allocated: its
/// sixteen-byte elements must fit in `isize::MAX` bytes together.
pub open spec fn can_allocate(n: nat) -> bool {
    n * 16 <= isize::MAX
}

/// Whether a two-dimensional array of `nrows` rows and `ncols` columns can be
/// allocated: each axis must fit in `isize`, and its sixteen-byte elements
/// must fit in `isize::MAX` bytes together.
pub open spec fn can_allocate_grid(nrows: nat, ncols: nat) -> bool {
    &&& nrows <= isize::MAX
    &&& ncols <= isize::MAX
    &&& nrows * ncols * 16 <= isize::MAX
}

/// A sequence of `n` zeros.
pub open spec fn zero_elems(n: nat) -> Seq<i128> {
    Seq::new(n, |i: int| 0i128)
}

/// Whether the element-wise sums of two sequences of equal length all fit in `i128`.
pub open spec fn sums_fit(a: Seq<i128>, b: Seq<i128>) -> bool {
    &&& a.len() == b.len()
    &&& forall|i: int| 0 <= i < a.len() ==> i128::MIN <= #[trigger] a[i] + b[i] <= i128::MAX
}

/// The sum of the products of corresponding elements.
pub open spec fn dot_product(a: Seq<i128>, b: Seq<i128>) -> int
    decreases a.len(),
{
    if a.len() == 0 || b.len() == 0 {
        0
    } else {
        dot_product(a.drop_last(), b.drop_last()) + a.last() * b.last()
    }
}

/// The sum of the magnitudes of the products of corresponding elements.
pub open spec fn dot_magnitude(a: Seq<i128>, b: Seq<i128>) -> int
    decreases a.len(),
{
    if a.len() == 0 || b.len() == 0 {
        0
    } else {
        let p = a.last() * b.last();
        dot_magnitude(a.drop_last(), b.drop_last()) + if p < 0 {
            -p
        } else {
            p
        }
    }
}

/// `Array1::zeros`: an array of `n` zeros. `ndarray` panics when the length
/// overflows `isize`, and the allocation of `n` elements of sixteen bytes must
/// fit in `isize` as well.
#[verifier::external_body]
pub(crate) fn zeros1(n: usize) -> (a: IntArray1)
    requires
        can_allocate(n as nat),
    ensures
        array1_elems(a) == zero_elems(n as nat),
{
    IntArray1 { inner: ndarray::Array1::zeros(n) }
}

/// `ArrayBase::len` on a one-dimensional array: the number of elements.
#[verifier::external_body]
pub(crate) fn len1(a: &IntArray1) -> (n: usize)
    ensures
        n == array1_elems(*a).len(),
{
    a.inner.len()
}

/// Indexing of a one-dimensional array, which panics out of bounds.
#[verifier::external_body]
pub(crate) fn get1(a: &IntArray1, i: usize) -> (v: i128)
    requires
        i < array1_elems(*a).len(),
    ensures
        v == array1_elems(*a)[i as int],
{
    a.inner[i]
}

/// Assignment through the index of a one-dimensional array: the element at
/// `i` becomes `v`, the others stay.
#[verifier::external_body]
pub(crate) fn set1(a: &mut IntArray1, i: usize, v: i128)
    requires
        i < array1_elems(*old(a)).len(),
    ensures
        array1_elems(*final(a)) == array1_elems(*old(a)).update(i as int, v),
{
    a.inner[i] = v;
}

/// `+` on two one-dimensional arrays of the same length: the element-wise
/// sum. Every sum must fit in `i128`, since `i128` addition may panic on
/// overflow.
#[verifier::external_body]
pub(crate) fn plus1(a: IntArray1, b: IntArray1) -> (c: IntArray1)
    requires
        sums_fit(array1_elems(a), array1_elems(b)),
    ensures
        array1_elems(c).len() == array1_elems(a).len(),
        forall|i: int|
            0 <= i < array1_elems(a).len() ==> #[trigger] array1_elems(c)[i] == array1_elems(
                a,
            )[i] + array1_elems(b)[i],
{
    IntArray1 { inner: a.inner + b.inner }
}

/// `ArrayBase::dot` on two one-dimensional arrays of the same length: the sum
/// of the products of corresponding elements. `ndarray` adds the products in
/// an order of its own, so the magnitudes of all products together must fit
/// in `i128`: then no partial sum overflows, whatever the order.
#[verifier::external_body]
pub(crate) fn dot1(a: &IntArray1, b: &IntArray1) -> (d: i128)
    requires
        array1_elems(*a).len() == array1_elems(*b).len(),
        dot_magnitude(array1_elems(*a), array1_elems(*b)) <= i128::MAX,
    ensures
        d == dot_product(array1_elems(*a), array1_elems(*b)),
{
    a.inner.dot(&b.inner)
}

/// `Array2::zeros`: an array of `nrows` rows of `ncols` zeros. `ndarray`
/// panics when the product of the non-zero axis lengths overflows `isize`,
/// and the allocation of sixteen bytes for each element must fit in `isize` as
/// well.
#[verifier::external_body]
pub(crate) fn zeros2(nrows: usize, ncols: usize) -> (a: IntArray2)
    requires
        can_allocate_grid(nrows as nat, ncols as nat),
    ensures
        array2_rows(a) == Seq::new(nrows as nat, |i: int| zero_elems(ncols as nat)),
        array2_ncols(a) == ncols,
{
    IntArray2 { inner: ndarray::Array2::zeros((nrows, ncols)) }
}

/// `ArrayBase::nrows`: the number of rows.
#[verifier::external_body]
pub(crate) fn nrows2(a: &IntArray2) -> (n: usize)
    ensures
        n == array2_rows(*a).len(),
{
    a.inner.nrows()
}

/// `ArrayBase::ncols`: the number of columns.
#[verifier::external_body]
pub(crate) fn ncols2(a: &IntArray2) -> (n: usize)
    ensures
        n == array2_ncols(*a),
{
    a.inner.ncols()
}

/// Indexing of a two-dimensional array by row and column, which panics out
/// of bounds.
#[verifier::external_body]
pub(crate) fn get2(a: &IntArray2, i: usize, j: usize) -> (v: i128)
    requires
        i < array2_rows(*a).len(),
        j < array2_ncols(*a),
    ensures
        v == array2_rows(*a)[i as int][j as int],
{
    a.inner[[i, j]]
}

/// Assignment through the index of a two-dimensional array: the element in
/// row `i` and column `j` becomes `v`, the others stay, and so does the shape.
#[verifier::external_body]
pub(crate) fn set2(a: &mut IntArray2, i: usize, j: usize, v: i128)
    requires
        i < array2_rows(*old(a)).len(),
        j < array2_ncols(*old(a)),
    ensures
        array2_rows(*final(a)) == array2_rows(*old(a)).update(
            i as int,
            array2_rows(*old(a))[i as int].update(j as int, v),
        ),
        array2_ncols(*final(a)) == array2_ncols(*old(a)),
{
    a.inner[[i, j]] = v;
}

/// `+` on two two-dimensional arrays of the same shape: the element-wise sum,
/// in the same shape. Every sum must fit in `i128`, since `i128` addition may
/// panic on overflow.
#[verifier::external_body]
pub(crate) fn plus2(a: IntArray2, b: IntArray2) -> (c: IntArray2)
    requires
        array2_rows(a).len() == array2_rows(b).len(),
        array2_ncols(a) == array2_ncols(b),
        forall|i: int|
            0 <= i < array2_rows(a).len() ==> sums_fit(
                #[trigger] array2_rows(a)[i],
                array2_rows(b)[i],
            ),
    ensures
        array2_rows(c).len() == array2_rows(a).len(),
        array2_ncols(c) == array2_ncols(a),
        forall|i: int|
            0 <= i < array2_rows(a).len() ==> (#[trigger] array2_rows(c)[i]).len()
                == array2_rows(a)[i].len(),
        forall|i: int, j: int|
            0 <= i < array2_rows(a).len() && 0 <= j < array2_rows(a)[i].len()
                ==> #[trigger] array2_rows(c)[i][j] == array2_rows(a)[i][j] + array2_rows(b)[i][j],
{
    IntArray2 { inner: a.inner + b.inner }
}

/// `ArrayBase::row`, copied into an array of its own: row `i`. `ndarray`
/// panics when `i` is out of bounds.
#[verifier::external_body]
pub(crate) fn row2(a: &IntArray2, i: usize) -> (r: IntArray1)
    requires
        i < array2_rows(*a).len(),
    ensures
        array1_elems(r) == array2_rows(*a)[i as int],
{
    IntArray1 { inner: a.inner.row(i).to_owned() }
}

/// `ArrayBase::column`, copied into an array of its own: the elements at
/// index `j` of every row, in row order. `ndarray` panics when `j` is out of
/// bounds.
#[verifier::external_body]
pub(crate) fn column2(a: &IntArray2, j: usize) -> (c: IntArray1)
    requires
        j < array2_ncols(*a),
    ensures
        array1_elems(c) == Seq::new(
            array2_rows(*a).len(),
            |i: int| array2_rows(*a)[i][j as int],
        ),
{
    IntArray1 { inner: a.inner.column(j).to_owned() }
}

/// `Array1::from_vec`: an array with the elements of `v`, in order. It does
/// not panic for an element type of non-zero size.
#[verifier::external_body]
pub(crate) fn from_vec1(v: Vec<i128>) -> (a: IntArray1)
    ensures
        array1_elems(a) == v@,
{
    IntArray1 { inner: ndarray::Array1::from_vec(v) }
}

/// The elements of `e` as mathematical integers.
pub open spec fn as_ints(e: Seq<i128>) -> Seq<int> {
    Seq::new(e.len(), |i: int| e[i] as int)
}

impl View for IntArray1 {
    type V = Seq<int>;

    /// The elements as mathematical integers.
    open spec fn view(&self) -> Seq<int> {
        as_ints(array1_elems(*self))
    }
}

impl View for IntArray2 {
    type V = Seq<Seq<int>>;

    /// The rows as sequences of mathematical integers.
    open spec fn view(&self) -> Seq<Seq<int>> {
        Seq::new(array2_rows(*self).len(), |i: int| as_ints(array2_rows(*self)[i]))
    }
}

/// The dot product of two sequences of `i128` is that of their elements as
/// mathematical integers, and so is the sum of the magnitudes of the products.
pub proof fn lemma_dot_as_ints(a: Seq<i128>, b: Seq<i128>)
    requires
        a.len() == b.len(),
    ensures
        dot_product(a, b) == seq_dot(as_ints(a), as_ints(b)),
        dot_magnitude(a, b) == seq_dot_magnitude(as_ints(a), as_ints(b)),
    decreases a.len(),
{
    if a.len() > 0 {
        lemma_dot_as_ints(a.drop_last(), b.drop_last());
        assert(as_ints(a).drop_last() =~= as_ints(a.drop_last()));
        assert(as_ints(b).drop_last() =~= as_ints(b.drop_last()));
    }
}

impl IntArray1 {
    /// The sum of the products of corresponding elements of two arrays of
    /// the same length.
    pub fn dot(&self, other: &IntArray1) -> (d: i128)
        requires
            self@.len() == other@.len(),
            seq_dot_magnitude(self@, other@) <= i128::MAX,
        ensures
            d == seq_dot(self@, other@),
    {
        proof {
            lemma_dot_as_ints(array1_elems(*self), array1_elems(*other));
        }
        dot1(self, other)
    }

    /// An array of `n` zeros.
    pub fn zeros(n: usize) -> (a: IntArray1)
        requires
            can_allocate(n as nat),
        ensures
            a@ == seq_zeros(n as nat),
    {
        let a = zeros1(n);
        assert(a@ =~= seq_zeros(n as nat));
        a
    }

    /// Replaces the element at index `i` by `v`.
    pub fn set(&mut self, i: usize, v: i128)
        requires
            i < old(self)@.len(),
        ensures
            final(self)@ == old(self)@.update(i as int, v as int),
    {
        set1(self, i, v);
        assert(self@ =~= old(self)@.update(i as int, v as int));
    }

    /// An array with the elements of `v`, in order.
    pub fn from_vec(v: Vec<i128>) -> (a: IntArray1)
        ensures
            array1_elems(a) == v@,
    {
        from_vec1(v)
    }

    /// The number of elements.
    pub fn len(&self) -> (n: usize)
        ensures
            n == self@.len(),
    {
        len1(self)
    }

    /// The element at index `i`.
    pub fn get(&self, i: usize) -> (v: i128)
        requires
            i < self@.len(),
        ensures
            v == self@[i as int],
    {
        get1(self, i)
    }

    /// The elements, in order.
    pub fn to_vec(&self) -> (v: Vec<i128>)
        ensures
            v@ == array1_elems(*self),
    {
        let n = len1(self);
        let mut v: Vec<i128> = Vec::new();
        let mut i: usize = 0;
        while i < n
            invariant
                n == array1_elems(*self).len(),
                i <= n,
                v@ == array1_elems(*self).take(i as int),
            decreases n - i,
        {
            v.push(get1(self, i));
            assert(v@ =~= array1_elems(*self).take(i + 1));
            i += 1;
        }
        assert(array1_elems(*self).take(n as int) =~= array1_elems(*self));
        v
    }
    /// Whether no element is negative.
    pub fn is_nonnegative(&self) -> (b: bool)
        ensures
            b == seq_nonnegative(self@),
    {
        let n = len1(self);
        let mut i: usize = 0;
        while i < n
            invariant
                n == self@.len(),
                i <= n,
                forall|k: int| 0 <= k < i ==> 0 <= #[trigger] self@[k],
            decreases n - i,
        {
            if get1(self, i) < 0 {
                assert(self@[i as int] < 0);
                return false;
            }
            assert(0 <= self@[i as int]);
            i += 1;
        }
        true
    }

    /// Whether every element is zero.
    pub fn is_zero(&self) -> (b: bool)
        ensures
            b == (self@ == seq_zeros(self@.len())),
    {
        let n = len1(self);
        let mut i: usize = 0;
        while i < n
            invariant
                n == self@.len(),
                i <= n,
                forall|k: int| 0 <= k < i ==> #[trigger] self@[k] == 0,
            decreases n - i,
        {
            if get1(self, i) != 0 {
                assert(self@[i as int] != seq_zeros(self@.len())[i as int]);
                return false;
            }
            assert(self@[i as int] == 0);
            i += 1;
        }
        assert(self@ =~= seq_zeros(self@.len()));
        true
    }

    /// The element-wise sum of two arrays of the same length.
    pub fn plus(self, other: IntArray1) -> (sum: IntArray1)
        requires
            self@.len() == other@.len(),
            seq_fits(seq_plus(self@, other@)),
        ensures
            sum@ == seq_plus(self@, other@),
    {
        proof {
            assert forall|i: int| 0 <= i < array1_elems(self).len() implies i128::MIN
                <= #[trigger] array1_elems(self)[i] + array1_elems(other)[i] <= i128::MAX by {
                assert(seq_plus(self@, other@)[i] == self@[i] + other@[i]);
            }
        }
        let sum = plus1(self, other);
        assert(sum@ =~= seq_plus(self@, other@));
        sum
    }

    /// Adds `other` to this array, element by element.
    pub fn accumulate(&mut self, other: &IntArray1)
        requires
            old(self)@.len() == other@.len(),
            seq_fits(seq_plus(old(self)@, other@)),
        ensures
            final(self)@ == seq_plus(old(self)@, other@),
    {
        let n = len1(self);
        let mut i: usize = 0;
        while i < n
            invariant
                n == other@.len(),
                self@.len() == n,
                old(self)@.len() == n,
                i <= n,
                seq_fits(seq_plus(old(self)@, other@)),
                forall|k: int| 0 <= k < i ==> #[trigger] self@[k] == old(self)@[k] + other@[k],
                forall|k: int| i <= k < n ==> #[trigger] self@[k] == old(self)@[k],
            decreases n - i,
        {
            let x = get1(other, i);
            let s = get1(self, i);
            assert(self@[i as int] == s && other@[i as int] == x);
            assert(seq_plus(old(self)@, other@)[i as int] == s + x);
            let ghost before = self@;
            set1(self, i, s + x);
            assert forall|k: int| 0 <= k < n implies #[trigger] self@[k] == (if k == i {
                s + x
            } else {
                before[k]
            }) by {}
            i += 1;
        }
        assert(self@ =~= seq_plus(old(self)@, other@));
    }

    /// Adds the squares of the elements of `other` to this array, element by
    /// element.
    pub fn accumulate_squares(&mut self, other: &IntArray1)
        requires
            old(self)@.len() == other@.len(),
            seq_fits(seq_squares(other@)),
            seq_fits(seq_plus(old(self)@, seq_squares(other@))),
        ensures
            final(self)@ == seq_plus(old(self)@, seq_squares(other@)),
    {
        let n = len1(self);
        let mut i: usize = 0;
        while i < n
            invariant
                n == other@.len(),
                self@.len() == n,
                old(self)@.len() == n,
                i <= n,
                seq_fits(seq_squares(other@)),
                seq_fits(seq_plus(old(self)@, seq_squares(other@))),
                forall|k: int|
                    0 <= k < i ==> #[trigger] self@[k] == old(self)@[k] + other@[k] * other@[k],
                forall|k: int| i <= k < n ==> #[trigger] self@[k] == old(self)@[k],
            decreases n - i,
        {
            let x = get1(other, i);
            let s = get1(self, i);
            assert(self@[i as int] == s && other@[i as int] == x);
            assert(seq_plus(old(self)@, seq_squares(other@))[i as int] == s + x * x);
            assert(seq_squares(other@)[i as int] == x * x);
            let ghost before = self@;
            set1(self, i, s + x * x);
            assert forall|k: int| 0 <= k < n implies #[trigger] self@[k] == (if k == i {
                s + x * x
            } else {
                before[k]
            }) by {}
            i += 1;
        }
        assert(self@ =~= seq_plus(old(self)@, seq_squares(other@)));
    }
}

impl IntArray2 {
    /// An array of `nrows` rows of `ncols` zeros.
    pub fn zeros(nrows: usize, ncols: usize) -> (a: IntArray2)
        requires
            can_allocate_grid(nrows as nat, ncols as nat),
        ensures
            a.wf(),
            a.cols() == ncols,
            a@ == grid_zeros(nrows as nat, ncols as nat),
    {
        let a = zeros2(nrows, ncols);
        assert(a@ =~~= grid_zeros(nrows as nat, ncols as nat));
        a
    }

    /// Replaces the element in row `i` and column `j` by `v`.
    pub fn set(&mut self, i: usize, j: usize, v: i128)
        requires
            old(self).wf(),
            i < old(self)@.len(),
            j < old(self).cols(),
        ensures
            final(self).wf(),
            final(self).cols() == old(self).cols(),
            final(self)@ == old(self)@.update(
                i as int,
                old(self)@[i as int].update(j as int, v as int),
            ),
    {
        set2(self, i, j, v);
        assert(self@ =~~= old(self)@.update(
            i as int,
            old(self)@[i as int].update(j as int, v as int),
        ));
    }

    /// Column `j` as an array of its own.
    pub fn column(&self, j: usize) -> (c: IntArray1)
        requires
            self.wf(),
            j < self.cols(),
        ensures
            c@ == grid_column(self@, j as int),
    {
        let c = column2(self, j);
        assert(c@ =~= grid_column(self@, j as int));
        c
    }

    /// The number of columns.
    pub open spec fn cols(&self) -> nat {
        array2_ncols(*self)
    }

    /// Every row has as many elements as the array has columns.
    pub open spec fn wf(&self) -> bool {
        forall|i: int|
            0 <= i < array2_rows(*self).len() ==> (#[trigger] array2_rows(*self)[i]).len()
                == array2_ncols(*self)
    }

    /// The number of rows.
    pub fn nrows(&self) -> (n: usize)
        ensures
            n == self@.len(),
    {
        nrows2(self)
    }

    /// The number of columns.
    pub fn ncols(&self) -> (n: usize)
        ensures
            n == self.cols(),
    {
        ncols2(self)
    }

    /// The element in row `i` and column `j`.
    pub fn get(&self, i: usize, j: usize) -> (v: i128)
        requires
            self.wf(),
            i < self@.len(),
            j < self.cols(),
        ensures
            v == self@[i as int][j as int],
    {
        get2(self, i, j)
    }

    /// Row `i` as an array of its own.
    pub fn row(&self, i: usize) -> (r: IntArray1)
        requires
            i < self@.len(),
        ensures
            r@ == self@[i as int],
    {
        let r = row2(self, i);
        assert(r@ =~= self@[i as int]);
        r
    }
    /// The element-wise sum of two arrays of the same shape.
    pub fn plus(self, other: IntArray2) -> (sum: IntArray2)
        requires
            self.wf(),
            other.wf(),
            self@.len() == other@.len(),
            self.cols() == other.cols(),
            grid_fits(grid_plus(self@, other@)),
        ensures
            sum.wf(),
            sum.cols() == self.cols(),
            sum@ == grid_plus(self@, other@),
    {
        proof {
            assert forall|i: int| 0 <= i < array2_rows(self).len() implies sums_fit(
                #[trigger] array2_rows(self)[i],
                array2_rows(other)[i],
            ) by {
                let ra = array2_rows(self)[i];
                let rb = array2_rows(other)[i];
                assert(rb.len() == array2_ncols(other));
                assert forall|j: int| 0 <= j < ra.len() implies i128::MIN <= #[trigger] ra[j]
                    + rb[j] <= i128::MAX by {
                    assert(seq_fits(grid_plus(self@, other@)[i]));
                    assert(grid_plus(self@, other@)[i][j] == self@[i][j] + other@[i][j]);
                }
            }
        }
        let sum = plus2(self, other);
        assert(sum@ =~~= grid_plus(self@, other@));
        sum
    }

    /// Adds `other` to row `r` of this array, element by element.
    pub fn accumulate_row(&mut self, r: usize, other: &IntArray1)
        requires
            old(self).wf(),
            r < old(self)@.len(),
            other@.len() == old(self).cols(),
            seq_fits(seq_plus(old(self)@[r as int], other@)),
        ensures
            final(self).wf(),
            final(self).cols() == old(self).cols(),
            final(self)@ == grid_plus_row(old(self)@, r as int, other@),
    {
        let n = ncols2(self);
        let mut j: usize = 0;
        while j < n
            invariant
                self.wf(),
                old(self).wf(),
                self.cols() == n,
                old(self).cols() == n,
                other@.len() == n,
                self@.len() == old(self)@.len(),
                r < self@.len(),
                j <= n,
                seq_fits(seq_plus(old(self)@[r as int], other@)),
                forall|i: int|
                    0 <= i < self@.len() && i != r ==> #[trigger] self@[i] == old(self)@[i],
                forall|k: int|
                    0 <= k < j ==> #[trigger] self@[r as int][k] == old(self)@[r as int][k]
                        + other@[k],
                forall|k: int|
                    j <= k < n ==> #[trigger] self@[r as int][k] == old(self)@[r as int][k],
            decreases n - j,
        {
            let x = get1(other, j);
            let s = get2(self, r, j);
            assert(self@[r as int][j as int] == s && other@[j as int] == x);
            assert(seq_plus(old(self)@[r as int], other@)[j as int] == s + x);
            let ghost before = self@;
            set2(self, r, j, s + x);
            assert forall|i: int| 0 <= i < self@.len() && i != r implies #[trigger] self@[i]
                == old(self)@[i] by {
                assert(self@[i] =~= before[i]);
            }
            assert forall|k: int| 0 <= k < n implies #[trigger] self@[r as int][k] == (if k == j {
                s + x
            } else {
                before[r as int][k]
            }) by {}
            j += 1;
        }
        assert(self@ =~~= grid_plus_row(old(self)@, r as int, other@));
    }

    /// An array whose rows hold the elements of `rows`, or nothing when the
    /// rows differ in length or the array cannot be allocated. Without rows
    /// the array has no columns.
    pub fn from_rows(rows: &Vec<Vec<i128>>) -> (array: Option<IntArray2>)
        ensures
            array is Some <==> (forall|i: int|
                0 <= i < rows@.len() ==> (#[trigger] rows@[i])@.len() == row_length(*rows))
                && can_allocate_grid(rows@.len(), row_length(*rows)),
            array is Some ==> {
                let a = array->0;
                &&& a.wf()
                &&& a.cols() == row_length(*rows)
                &&& a@.len() == rows@.len()
                &&& forall|i: int| 0 <= i < rows@.len() ==> #[trigger] a@[i] == as_ints(rows@[i]@)
            },
    {
        let nrows = rows.len();
        let ncols = if nrows == 0 {
            0
        } else {
            rows[0].len()
        };
        let limit = isize::MAX as usize;
        if nrows > limit || ncols > limit {
            return None;
        }
        let fits = match nrows.checked_mul(ncols) {
            Some(n) => match n.checked_mul(16) {
                Some(bytes) => bytes <= limit,
                None => false,
            },
            None => false,
        };
        if !fits {
            assert(!can_allocate_grid(nrows as nat, ncols as nat)) by {
                assert(nrows * ncols * 16 > isize::MAX) by (nonlinear_arith)
                    requires
                        nrows * ncols > usize::MAX || (nrows * ncols) * 16 > isize::MAX,
                        isize::MAX < usize::MAX,
                ;
            }
            return None;
        }
        let mut array = IntArray2::zeros(nrows, ncols);
        let mut i: usize = 0;
        while i < nrows
            invariant
                nrows == rows@.len(),
                ncols == row_length(*rows),
                i <= nrows,
                array.wf(),
                array.cols() == ncols,
                array@.len() == nrows,
                forall|k: int| 0 <= k < i ==> (#[trigger] rows@[k])@.len() == ncols,
                forall|k: int| 0 <= k < i ==> #[trigger] array@[k] == as_ints(rows@[k]@),
            decreases nrows - i,
        {
            let row = &rows[i];
            if row.len() != ncols {
                return None;
            }
            let mut j: usize = 0;
            while j < ncols
                invariant
                    nrows == rows@.len(),
                    i < nrows,
                    row@ == rows@[i as int]@,
                    row@.len() == ncols,
                    j <= ncols,
                    array.wf(),
                    array.cols() == ncols,
                    array@.len() == nrows,
                    forall|k: int| 0 <= k < i ==> #[trigger] array@[k] == as_ints(rows@[k]@),
                    forall|c: int| 0 <= c < j ==> #[trigger] array@[i as int][c] == row@[c],
                decreases ncols - j,
            {
                array.set(i, j, row[j]);
                j += 1;
            }
            assert(array@[i as int] =~= as_ints(rows@[i as int]@));
            i += 1;
        }
        Some(array)
    }

    /// The rows with their elements, in order.
    pub fn to_rows(&self) -> (rows: Vec<Vec<i128>>)
        requires
            self.wf(),
        ensures
            rows@.len() == self@.len(),
            forall|i: int| 0 <= i < rows@.len() ==> as_ints(#[trigger] rows@[i]@) == self@[i],
    {
        let nrows = self.nrows();
        let mut rows: Vec<Vec<i128>> = Vec::new();
        let mut i: usize = 0;
        while i < nrows
            invariant
                self.wf(),
                nrows == self@.len(),
                i <= nrows,
                rows@.len() == i,
                forall|k: int| 0 <= k < i ==> as_ints(#[trigger] rows@[k]@) == self@[k],
            decreases nrows - i,
        {
            let row = self.row(i).to_vec();
            assert(as_ints(row@) =~= self@[i as int]);
            rows.push(row);
            i += 1;
        }
        rows
    }
}

/// The length of the first of `rows`, or 0 without rows.
pub open spec fn row_length(rows: Vec<Vec<i128>>) -> nat {
    if rows@.len() == 0 {
        0
    } else {
        rows@[0]@.len()
    }
}

} // verus!
