//! Leakage models as data.
//!
//! A leakage model is a function of the caller that maps a metadata value and
//! a key guess to a modeled leakage. The accumulators evaluate it here, into
//! arrays, and compute on the arrays: what they compute is then stated over
//! the values that the model returned.
use crate::array::{can_allocate, can_allocate_grid, IntArray1, IntArray2};
use crate::sums::{seq_nonnegative, seq_squares, seq_sum};
use vstd::prelude::*;

verus! {

/// Whether `leakages` holds, for each of its guesses `g`, a leakage that the
/// model may return for `value` and `g`.
pub open spec fn modeled_by<F: Fn(usize, usize) -> usize>(
    leakage_model: F,
    value: int,
    leakages: Seq<int>,
) -> bool {
    forall|g: int|
        0 <= g < leakages.len() ==> 0 <= #[trigger] leakages[g] <= usize::MAX && call_ensures(
            leakage_model,
            (value as usize, g as usize),
            leakages[g] as usize,
        )
}

/// Whether `table` holds, in each row `g` and column `v`, a leakage that the
/// model may return for the value `v` and the guess `g`.
pub open spec fn tabulated_by<F: Fn(usize, usize) -> usize>(
    leakage_model: F,
    table: Seq<Seq<int>>,
) -> bool {
    forall|g: int, v: int|
        0 <= g < table.len() && 0 <= v < table[g].len() ==> 0 <= #[trigger] table[g][v]
            <= usize::MAX && call_ensures(
            leakage_model,
            (v as usize, g as usize),
            table[g][v] as usize,
        )
}

/// Whether the model can be called on every value below `values` with every
/// guess below `guesses`.
pub open spec fn callable_on<F: Fn(usize, usize) -> usize>(
    leakage_model: F,
    values: nat,
    guesses: nat,
) -> bool {
    forall|v: usize, g: usize| v < values && g < guesses ==> call_requires(leakage_model, (v, g))
}

/// Whether the model can be called on `value` with every guess below
/// `guesses`.
pub open spec fn callable_for<F: Fn(usize, usize) -> usize>(
    leakage_model: F,
    value: int,
    guesses: nat,
) -> bool {
    forall|v: usize, g: usize| v == value && g < guesses ==> call_requires(leakage_model, (v, g))
}

/// Evaluates the model for one value and every guess below `guess_range`.
pub fn leakages_of_value<F>(leakage_model: &F, value: usize, guess_range: usize) -> (leakages:
    IntArray1) where F: Fn(usize, usize) -> usize
    requires
        can_allocate(guess_range as nat),
        callable_for(*leakage_model, value as int, guess_range as nat),
    ensures
        leakages@.len() == guess_range,
        modeled_by(*leakage_model, value as int, leakages@),
{
    let mut leakages = IntArray1::zeros(guess_range);
    let mut guess: usize = 0;
    while guess < guess_range
        invariant
            guess <= guess_range,
            leakages@.len() == guess_range,
            callable_for(*leakage_model, value as int, guess_range as nat),
            forall|g: int|
                0 <= g < guess ==> 0 <= #[trigger] leakages@[g] <= usize::MAX && call_ensures(
                    *leakage_model,
                    (value, g as usize),
                    leakages@[g] as usize,
                ),
        decreases guess_range - guess,
    {
        let leakage = leakage_model(value, guess);
        leakages.set(guess, leakage as i128);
        guess += 1;
    }
    leakages
}

/// Evaluates the model for every value below `values` and every guess below
/// `guesses`, into a table with a row for each guess and a column for each
/// value.
pub fn tabulate<F>(leakage_model: &F, values: usize, guesses: usize) -> (table: IntArray2) where
    F: Fn(usize, usize) -> usize,

    requires
        can_allocate_grid(guesses as nat, values as nat),
        callable_on(*leakage_model, values as nat, guesses as nat),
    ensures
        table.wf(),
        table.cols() == values,
        table@.len() == guesses,
        tabulated_by(*leakage_model, table@),
{
    let mut table = IntArray2::zeros(guesses, values);
    let mut guess: usize = 0;
    while guess < guesses
        invariant
            guess <= guesses,
            table.wf(),
            table.cols() == values,
            table@.len() == guesses,
            callable_on(*leakage_model, values as nat, guesses as nat),
            forall|g: int, v: int|
                0 <= g < guess && 0 <= v < values ==> 0 <= #[trigger] table@[g][v] <= usize::MAX
                    && call_ensures(
                    *leakage_model,
                    (v as usize, g as usize),
                    table@[g][v] as usize,
                ),
        decreases guesses - guess,
    {
        let mut value: usize = 0;
        while value < values
            invariant
                guess < guesses,
                value <= values,
                table.wf(),
                table.cols() == values,
                table@.len() == guesses,
                callable_on(*leakage_model, values as nat, guesses as nat),
                forall|g: int, v: int|
                    0 <= g < guess && 0 <= v < values ==> 0 <= #[trigger] table@[g][v]
                        <= usize::MAX && call_ensures(
                        *leakage_model,
                        (v as usize, g as usize),
                        table@[g][v] as usize,
                    ),
                forall|v: int|
                    0 <= v < value ==> 0 <= #[trigger] table@[guess as int][v] <= usize::MAX
                        && call_ensures(
                        *leakage_model,
                        (v as usize, guess),
                        table@[guess as int][v] as usize,
                    ),
            decreases values - value,
        {
            let leakage = leakage_model(value, guess);
            table.set(guess, value, leakage as i128);
            value += 1;
        }
        guess += 1;
    }
    assert forall|g: int, v: int| 0 <= g < table@.len() && 0 <= v < table@[g].len() implies 0
        <= #[trigger] table@[g][v] <= usize::MAX && call_ensures(
        *leakage_model,
        (v as usize, g as usize),
        table@[g][v] as usize,
    ) by {
        assert(table@[g].len() == values);
    }
    table
}

/// Whether the leakages of a table can be added up guess by guess, and their
/// squares as well, without overflow.
pub open spec fn leakage_sums_fit(table: Seq<Seq<int>>) -> bool {
    forall|g: int|
        0 <= g < table.len() ==> {
            &&& seq_sum(#[trigger] table[g]) <= i128::MAX
            &&& seq_sum(seq_squares(table[g])) <= i128::MAX
        }
}

/// The sum of the first elements of a sequence without negative elements is
/// at most the sum of all.
pub proof fn lemma_prefix_sum_bounded(a: Seq<int>, n: int)
    requires
        seq_nonnegative(a),
        0 <= n <= a.len(),
    ensures
        0 <= seq_sum(a.take(n)) <= seq_sum(a),
    decreases a.len(),
{
    if n == a.len() {
        assert(a.take(n) =~= a);
        if a.len() > 0 {
            lemma_prefix_sum_bounded(a.drop_last(), n - 1);
            assert(a.drop_last().take(n - 1) =~= a.drop_last());
        }
    } else {
        lemma_prefix_sum_bounded(a.drop_last(), n);
        assert(a.drop_last().take(n) =~= a.take(n));
    }
}

/// The sum of the modeled leakages of every guess over all values, and the
/// sum of their squares, for a table with a row for each guess.
pub fn leakage_sums(table: &IntArray2) -> (sums: (IntArray1, IntArray1))
    requires
        table.wf(),
        can_allocate(table@.len()),
        forall|g: int, v: int|
            0 <= g < table@.len() && 0 <= v < table.cols() ==> 0 <= #[trigger] table@[g][v],
        leakage_sums_fit(table@),
    ensures
        sums.0@ == Seq::new(table@.len(), |g: int| seq_sum(table@[g])),
        sums.1@ == Seq::new(table@.len(), |g: int| seq_sum(seq_squares(table@[g]))),
{
    let guesses = table.nrows();
    let values = table.ncols();
    let mut sums = IntArray1::zeros(guesses);
    let mut sum_squares = IntArray1::zeros(guesses);
    let mut guess: usize = 0;
    while guess < guesses
        invariant
            table.wf(),
            guesses == table@.len(),
            values == table.cols(),
            forall|g: int, v: int|
                0 <= g < table@.len() && 0 <= v < table.cols() ==> 0 <= #[trigger] table@[g][v],
            leakage_sums_fit(table@),
            guess <= guesses,
            sums@.len() == guesses,
            sum_squares@.len() == guesses,
            forall|g: int| 0 <= g < guess ==> #[trigger] sums@[g] == seq_sum(table@[g]),
            forall|g: int|
                0 <= g < guess ==> #[trigger] sum_squares@[g] == seq_sum(seq_squares(table@[g])),
        decreases guesses - guess,
    {
        let ghost row = table@[guess as int];
        let mut sum: i128 = 0;
        let mut squares: i128 = 0;
        let mut value: usize = 0;
        proof {
            assert(row.take(0) =~= Seq::empty());
            assert(seq_squares(row.take(0)) =~= Seq::empty());
            assert(row.len() == values);
        }
        while value < values
            invariant
                table.wf(),
                guess < guesses,
                guesses == table@.len(),
                values == table.cols(),
                row == table@[guess as int],
                row.len() == values,
                forall|g: int, v: int|
                    0 <= g < table@.len() && 0 <= v < table.cols() ==> 0 <= #[trigger] table@[g][v],
                leakage_sums_fit(table@),
                value <= values,
                sum == seq_sum(row.take(value as int)),
                squares == seq_sum(seq_squares(row.take(value as int))),
            decreases values - value,
        {
            let leakage = table.get(guess, value);
            proof {
                let next = row.take(value + 1);
                assert(next.drop_last() =~= row.take(value as int));
                assert(seq_squares(next).drop_last() =~= seq_squares(row.take(value as int)));
                assert(next.last() == leakage);
                assert(seq_squares(next).last() == leakage * leakage);
                assert(seq_squares(next) =~= seq_squares(row).take(value + 1));
                assert forall|k: int| 0 <= k < row.len() implies 0 <= #[trigger] seq_squares(
                    row,
                )[k] by {
                    assert(0 <= row[k] * row[k]) by (nonlinear_arith);
                }
                lemma_prefix_sum_bounded(row, value + 1);
                lemma_prefix_sum_bounded(seq_squares(row), value + 1);
                lemma_prefix_sum_bounded(row, value as int);
                assert(seq_squares(row.take(value as int)) =~= seq_squares(row).take(
                    value as int,
                ));
                lemma_prefix_sum_bounded(seq_squares(row), value as int);
                assert(0 <= leakage * leakage) by (nonlinear_arith);
            }
            sum = sum + leakage;
            squares = squares + leakage * leakage;
            value += 1;
        }
        proof {
            assert(row.take(values as int) =~= row);
        }
        sums.set(guess, sum);
        sum_squares.set(guess, squares);
        guess += 1;
    }
    assert(sums@ =~= Seq::new(table@.len(), |g: int| seq_sum(table@[g])));
    assert(sum_squares@ =~= Seq::new(table@.len(), |g: int| seq_sum(seq_squares(table@[g]))));
    (sums, sum_squares)
}

} // verus!
