use muscat::array::{IntArray1, IntArray2};
use muscat::fast_cpa::{cpa, FastCpaProcessor};

fn example_traces() -> Vec<Vec<i128>> {
    vec![
        vec![77, 137, 51, 91],
        vec![72, 61, 91, 83],
        vec![39, 49, 52, 23],
        vec![26, 114, 63, 45],
        vec![30, 8, 97, 91],
        vec![13, 68, 7, 45],
    ]
}

fn example_plaintexts() -> Vec<Vec<i128>> {
    vec![vec![9, 1], vec![9, 0], vec![9, 1], vec![9, 2], vec![9, 0], vec![9, 2]]
}

fn state<F: Fn(usize, usize) -> usize>(p: &FastCpaProcessor<F>) -> Vec<Vec<Vec<i128>>> {
    vec![p.num_values().to_rows(), p.sum_values().to_rows()]
}

fn model(value: usize, guess: usize) -> usize {
    value ^ guess
}

#[test]
fn fast_cpa_buckets_are_exact() {
    let traces = example_traces();
    let plaintexts = example_plaintexts();
    let mut processor = FastCpaProcessor::new(4, 4, 3, 1, model);
    for i in 0..traces.len() {
        processor.update(
            &IntArray1::from_vec(traces[i].clone()),
            &IntArray1::from_vec(plaintexts[i].clone()),
        );
    }
    assert_eq!(
        processor.num_values().to_rows(),
        vec![vec![2, 2, 2, 2], vec![2, 2, 2, 2], vec![2, 2, 2, 2]]
    );
    assert_eq!(
        processor.sum_values().to_rows(),
        vec![vec![102, 69, 188, 174], vec![116, 186, 103, 114], vec![39, 182, 70, 90]]
    );
}

#[test]
fn fast_cpa_helper_is_sequential() {
    let traces = example_traces();
    let plaintexts = example_plaintexts();
    let mut processor = FastCpaProcessor::new(4, 4, 3, 1, model);
    for i in 0..traces.len() {
        processor.update(
            &IntArray1::from_vec(traces[i].clone()),
            &IntArray1::from_vec(plaintexts[i].clone()),
        );
    }
    let batch = IntArray2::from_rows(&traces).unwrap();
    let metadata = IntArray2::from_rows(&plaintexts).unwrap();
    for chunk_size in [1, 2, 4, 6, 50] {
        assert_eq!(state(&cpa(&batch, &metadata, 4, 3, 1, model, chunk_size)), state(&processor));
    }
}

#[test]
fn fast_cpa_merge_laws_on_values() {
    let traces = example_traces();
    let plaintexts = example_plaintexts();
    let part = |from: usize, to: usize| {
        let mut p = FastCpaProcessor::new(4, 4, 3, 1, model);
        for i in from..to {
            p.update(
                &IntArray1::from_vec(traces[i].clone()),
                &IntArray1::from_vec(plaintexts[i].clone()),
            );
        }
        p
    };
    let whole = state(&part(0, 6));
    assert_eq!(state(&part(0, 2).merge(part(2, 6))), whole);
    assert_eq!(state(&part(2, 6).merge(part(0, 2))), whole);
    assert_eq!(state(&part(0, 1).merge(part(1, 3)).merge(part(3, 6))), whole);
    assert_eq!(state(&part(0, 1).merge(part(1, 3).merge(part(3, 6)))), whole);
    assert_eq!(state(&part(0, 6).merge(FastCpaProcessor::new(4, 4, 3, 1, model))), whole);
    assert!(part(0, 1).is_compatible_with(&part(1, 2)));
    assert!(!part(0, 1).is_compatible_with(&FastCpaProcessor::new(4, 4, 4, 1, model)));
}

#[test]
fn fast_cpa_finalize_tabulates_the_model() {
    let processor = FastCpaProcessor::new(4, 2, 3, 1, model);
    let modeled = processor.finalize();
    assert_eq!(modeled.table.to_rows(), vec![vec![0, 1, 2], vec![1, 0, 3]]);
    assert_eq!(modeled.sums.to_vec(), vec![3, 4]);
    assert_eq!(modeled.sum_squares.to_vec(), vec![5, 10]);
}
