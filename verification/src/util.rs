//! Ranking of scores.
//!
//! Scores are held as order keys: integers that compare as the scores do.
use crate::array::{IntArray1, IntArray2};
use vstd::prelude::*;

verus! {

/// Whether `m` is an element of `a` and no element of `a` is greater.
pub open spec fn is_maximum(a: Seq<int>, m: int) -> bool {
    &&& exists|j: int| 0 <= j < a.len() && a[j] == m
    &&& forall|j: int| 0 <= j < a.len() ==> a[j] <= m
}

/// Whether `i` is the first index of a greatest element of `a`; for an empty
/// sequence the index is 0.
pub open spec fn is_argmax(a: Seq<int>, i: int) -> bool {
    if a.len() == 0 {
        i == 0
    } else {
        &&& 0 <= i < a.len()
        &&& forall|j: int| 0 <= j < a.len() ==> a[j] <= a[i]
        &&& forall|j: int| 0 <= j < i ==> a[j] < a[i]
    }
}

/// Whether index `a` comes before index `b` in the ascending order of
/// `data`: its element is smaller, or the elements are equal and `a` is the
/// smaller index.
pub open spec fn precedes(data: Seq<int>, a: int, b: int) -> bool {
    data[a] < data[b] || (data[a] == data[b] && a < b)
}

/// Whether `order` lists indices of `data` in ascending order of their
/// elements, equal elements in the order of their indices.
pub open spec fn is_ascending(data: Seq<int>, order: Seq<usize>) -> bool {
    forall|i: int, j: int|
        0 <= i < j < order.len() ==> precedes(
            data,
            #[trigger] order[i] as int,
            #[trigger] order[j] as int,
        )
}

/// Whether `order` is a permutation of the indices below `n`.
pub open spec fn is_permutation(order: Seq<usize>, n: nat) -> bool {
    &&& order.len() == n
    &&& forall|i: int| 0 <= i < order.len() ==> (#[trigger] order[i]) < n
    &&& forall|k: usize| k < n ==> #[trigger] order.contains(k)
}

/// Whether `order` is the ranking of `data`: all its indices, in ascending
/// order of their elements, equal elements in the order of their indices.
pub open spec fn is_ranking(data: Seq<int>, order: Seq<usize>) -> bool {
    is_permutation(order, data.len()) && is_ascending(data, order)
}

/// The greatest element of a sequence; 0 for an empty sequence.
pub open spec fn seq_max(a: Seq<int>) -> int
    decreases a.len(),
{
    if a.len() == 0 {
        0
    } else if a.len() == 1 {
        a[0]
    } else if seq_max(a.drop_last()) < a.last() {
        a.last()
    } else {
        seq_max(a.drop_last())
    }
}

/// The greatest element of a sequence is one of its elements, and none is
/// greater.
pub proof fn lemma_seq_max_is_maximum(a: Seq<int>)
    requires
        a.len() > 0,
    ensures
        is_maximum(a, seq_max(a)),
    decreases a.len(),
{
    if a.len() == 1 {
        assert(a[0] == seq_max(a));
    } else {
        let init = a.drop_last();
        lemma_seq_max_is_maximum(init);
        let j = choose|j: int| 0 <= j < init.len() && init[j] == seq_max(init);
        assert(a[j] == init[j]);
        assert(a[a.len() - 1] == a.last());
        assert forall|k: int| 0 <= k < a.len() implies a[k] <= seq_max(a) by {
            if k < init.len() {
                assert(a[k] == init[k]);
            }
        }
    }
}

/// The greatest element of every row.
pub fn max_per_row(array: &IntArray2) -> (maxima: IntArray1)
    requires
        array.wf(),
        array.cols() > 0,
    ensures
        maxima@ == Seq::new(array@.len(), |i: int| seq_max(array@[i])),
{
    let nrows = array.nrows();
    let ncols = array.ncols();
    let mut maxima: Vec<i128> = Vec::new();
    let mut i: usize = 0;
    while i < nrows
        invariant
            array.wf(),
            nrows == array@.len(),
            ncols == array.cols(),
            ncols > 0,
            i <= nrows,
            maxima@.len() == i,
            forall|k: int| 0 <= k < i ==> #[trigger] maxima@[k] == seq_max(array@[k]),
        decreases nrows - i,
    {
        let ghost row = array@[i as int];
        let mut best = array.get(i, 0);
        let mut j: usize = 1;
        proof {
            assert(row.take(1).len() == 1);
        }
        while j < ncols
            invariant
                array.wf(),
                i < nrows,
                nrows == array@.len(),
                ncols == array.cols(),
                row == array@[i as int],
                row.len() == ncols,
                1 <= j <= ncols,
                best == seq_max(row.take(j as int)),
            decreases ncols - j,
        {
            let candidate = array.get(i, j);
            proof {
                assert(row.take(j + 1).drop_last() =~= row.take(j as int));
                assert(row.take(j + 1).last() == candidate);
            }
            if best < candidate {
                best = candidate;
            }
            j += 1;
        }
        proof {
            assert(row.take(ncols as int) =~= row);
        }
        maxima.push(best);
        i += 1;
    }
    let maxima = IntArray1::from_vec(maxima);
    assert(maxima@ =~= Seq::new(array@.len(), |i: int| seq_max(array@[i])));
    maxima
}

/// The index of the greatest element, the first one if there are several.
pub fn argmax(array: &IntArray1) -> (index: usize)
    ensures
        is_argmax(array@, index as int),
{
    let n = array.len();
    let mut idx_max: usize = 0;
    let mut i: usize = 0;
    while i < n
        invariant
            n == array@.len(),
            i <= n,
            n == 0 ==> idx_max == 0,
            n > 0 ==> idx_max < n,
            idx_max == 0 || idx_max < i,
            forall|j: int| 0 <= j < i ==> array@[j] <= array@[idx_max as int],
            forall|j: int| 0 <= j < idx_max ==> array@[j] < array@[idx_max as int],
        decreases n - i,
    {
        if array.get(i) > array.get(idx_max) {
            idx_max = i;
        }
        i += 1;
    }
    idx_max
}

/// The indices of the elements in ascending order of the elements, equal
/// elements in the order of their indices.
pub fn argsort(data: &IntArray1) -> (indices: Vec<usize>)
    ensures
        is_ranking(data@, indices@),
{
    let n = data.len();
    let mut indices: Vec<usize> = Vec::new();
    let mut k: usize = 0;
    while k < n
        invariant
            n == data@.len(),
            k <= n,
            indices@.len() == k,
            forall|i: int| 0 <= i < k ==> (#[trigger] indices@[i]) < k,
            forall|v: usize| v < k ==> #[trigger] indices@.contains(v),
            is_ascending(data@, indices@),
        decreases n - k,
    {
        let key = data.get(k);
        let mut pos: usize = k;
        while pos > 0 && data.get(indices[pos - 1]) > key
            invariant
                n == data@.len(),
                k < n,
                pos <= k,
                indices@.len() == k,
                key == data@[k as int],
                forall|i: int| 0 <= i < k ==> (#[trigger] indices@[i]) < k,
                forall|j: int| pos <= j < k ==> key < data@[#[trigger] indices@[j] as int],
            decreases pos,
        {
            pos -= 1;
        }
        let ghost before = indices@;
        indices.insert(pos, k);
        proof {
            let after = indices@;
            assert(after == before.insert(pos as int, k));
            assert forall|i: int, j: int| 0 <= i < j < after.len() implies precedes(
                data@,
                #[trigger] after[i] as int,
                #[trigger] after[j] as int,
            ) by {
                if j < pos {
                    assert(after[i] == before[i] && after[j] == before[j]);
                } else if j == pos {
                    assert(after[i] == before[i]);
                    if pos > 0 {
                        if i < pos - 1 {
                            assert(precedes(data@, before[i] as int, before[pos - 1] as int));
                        }
                        assert(data@[before[pos - 1] as int] <= key);
                    }
                    assert(before[i] < k);
                } else if i < pos {
                    assert(after[i] == before[i] && after[j] == before[j - 1]);
                } else if i == pos {
                    assert(after[j] == before[j - 1]);
                    assert(key < data@[before[j - 1] as int]);
                } else {
                    assert(after[i] == before[i - 1] && after[j] == before[j - 1]);
                }
            }
            assert forall|i: int| 0 <= i < k + 1 implies (#[trigger] after[i]) < k + 1 by {
                if i < pos {
                    assert(after[i] == before[i]);
                } else if i > pos {
                    assert(after[i] == before[i - 1]);
                }
            }
            assert forall|v: usize| v < k + 1 implies #[trigger] after.contains(v) by {
                if v == k {
                    assert(after[pos as int] == v);
                } else {
                    assert(before.contains(v));
                    let i0 = choose|i: int| 0 <= i < before.len() && before[i] == v;
                    if i0 < pos {
                        assert(after[i0] == v);
                    } else {
                        assert(after[i0 + 1] == v);
                    }
                }
            }
        }
        k += 1;
    }
    indices
}

/// The greatest element of a sequence is the element at the end of its
/// ranking and the element at its first greatest index; the two indices are
/// the same when no other element is as great.
pub proof fn lemma_ranking_ends_with_maximum(data: Seq<int>, order: Seq<usize>, best: usize)
    requires
        data.len() > 0,
        is_ranking(data, order),
        is_argmax(data, best as int),
    ensures
        data[order.last() as int] == data[best as int],
        (forall|j: int| 0 <= j < data.len() && j != best ==> data[j] < data[best as int])
            ==> order.last() == best,
{
    let last = order.last() as int;
    assert(order.contains(best));
    let at = choose|i: int| 0 <= i < order.len() && order[i] == best;
    assert(order[order.len() - 1] < data.len());
    if at < order.len() - 1 {
        assert(precedes(data, order[at] as int, order[order.len() - 1] as int));
    }
    assert(data[last] <= data[best as int]);
}

} // verus!
