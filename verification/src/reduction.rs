//! Reductions of a batch: how the accumulators of chunks may be merged.
//!
//! A batch of rows is cut into consecutive chunks, every chunk is accumulated
//! on its own, and the accumulators are merged pairwise in some grouping. A
//! [`Reduction`] records one such cut and grouping. Whenever accumulating a
//! batch cut in two is merging the accumulators of the two parts, every
//! reduction gives what accumulating the whole batch in one pass gives.
use vstd::prelude::*;

verus! {

/// A way to cut a batch into chunks and to group the merges of their
/// accumulators.
pub enum Reduction<R> {
    /// The rows of one chunk, accumulated one after the other.
    Chunk(Seq<R>),
    /// The merge of the results of two reductions of neighbouring parts.
    Merge(Box<Reduction<R>>, Box<Reduction<R>>),
}

impl<R> Reduction<R> {
    /// The rows that the reduction covers, in order.
    pub open spec fn rows(self) -> Seq<R>
        decreases self,
    {
        match self {
            Reduction::Chunk(rows) => rows,
            Reduction::Merge(left, right) => left.rows() + right.rows(),
        }
    }

    /// What the reduction computes, with `accumulate` applied to every chunk
    /// and `merge` to every pair of results.
    pub open spec fn eval<S>(
        self,
        accumulate: spec_fn(Seq<R>) -> S,
        merge: spec_fn(S, S) -> S,
    ) -> S
        decreases self,
    {
        match self {
            Reduction::Chunk(rows) => accumulate(rows),
            Reduction::Merge(left, right) => merge(
                left.eval(accumulate, merge),
                right.eval(accumulate, merge),
            ),
        }
    }

    /// Every row that the reduction covers satisfies `valid`.
    pub open spec fn all_rows(self, valid: spec_fn(R) -> bool) -> bool {
        forall|i: int| 0 <= i < self.rows().len() ==> valid(#[trigger] self.rows()[i])
    }
}

/// Whether accumulating two batches of valid rows one after the other is
/// merging the accumulators of the two.
pub open spec fn splits<R, S>(
    accumulate: spec_fn(Seq<R>) -> S,
    merge: spec_fn(S, S) -> S,
    valid: spec_fn(R) -> bool,
) -> bool {
    forall|first: Seq<R>, second: Seq<R>|
        (forall|i: int| 0 <= i < first.len() ==> valid(#[trigger] first[i])) && (forall|i: int|
            0 <= i < second.len() ==> valid(#[trigger] second[i])) ==> accumulate(first + second)
            == #[trigger] merge(accumulate(first), accumulate(second))
}

/// Every reduction of a batch of valid rows computes what one pass over the
/// whole batch computes, whatever the chunks and however the merges are
/// grouped.
pub proof fn lemma_reduction_is_one_pass<R, S>(
    reduction: Reduction<R>,
    accumulate: spec_fn(Seq<R>) -> S,
    merge: spec_fn(S, S) -> S,
    valid: spec_fn(R) -> bool,
)
    requires
        splits(accumulate, merge, valid),
        reduction.all_rows(valid),
    ensures
        reduction.eval(accumulate, merge) == accumulate(reduction.rows()),
    decreases reduction,
{
    match reduction {
        Reduction::Chunk(rows) => {},
        Reduction::Merge(left, right) => {
            let l = left.rows();
            let r = right.rows();
            assert forall|i: int| 0 <= i < l.len() implies valid(#[trigger] l[i]) by {
                assert(reduction.rows()[i] == l[i]);
            }
            assert forall|i: int| 0 <= i < r.len() implies valid(#[trigger] r[i]) by {
                assert(reduction.rows()[l.len() + i] == r[i]);
            }
            lemma_reduction_is_one_pass(*left, accumulate, merge, valid);
            lemma_reduction_is_one_pass(*right, accumulate, merge, valid);
            assert(accumulate(l + r) == merge(accumulate(l), accumulate(r)));
        },
    }
}

} // verus!
