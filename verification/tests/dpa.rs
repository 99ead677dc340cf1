use muscat::array::{IntArray1, IntArray2};
use muscat::distinguishers::dpa::{dpa, selections_of, DpaProcessor};

fn example_traces() -> Vec<Vec<i128>> {
    vec![vec![10, -2], vec![4, 6], vec![-8, 1], vec![3, 3], vec![7, -5]]
}

fn example_metadata() -> Vec<Vec<i128>> {
    vec![vec![0, 5], vec![1, 5], vec![2, 5], vec![3, 5], vec![4, 5]]
}

fn selection_function(metadata: &IntArray1, guess: usize) -> bool {
    ((metadata.get(0) as usize) ^ guess) & 1 == 1
}

fn state(p: &DpaProcessor) -> (usize, Vec<Vec<Vec<i128>>>, Vec<Vec<i128>>) {
    (
        p.num_traces(),
        vec![p.sum_0().to_rows(), p.sum_1().to_rows()],
        vec![p.count_0().to_vec(), p.count_1().to_vec()],
    )
}

fn part(from: usize, to: usize) -> DpaProcessor {
    let traces = example_traces();
    let metadata = example_metadata();
    let mut processor = DpaProcessor::new(2, 3);
    for i in from..to {
        processor.update(
            &IntArray1::from_vec(traces[i].clone()),
            &IntArray1::from_vec(metadata[i].clone()),
            selection_function,
        );
    }
    processor
}

#[test]
fn dpa_groups_are_exact() {
    let processor = part(0, 5);
    assert_eq!(processor.num_samples(), 2);
    assert_eq!(processor.guess_range(), 3);
    assert_eq!(processor.num_traces(), 5);
    // guesses 0 and 2 select the traces with odd metadata, guess 1 those with even metadata
    assert_eq!(processor.count_0().to_vec(), vec![3, 2, 3]);
    assert_eq!(processor.count_1().to_vec(), vec![2, 3, 2]);
    assert_eq!(processor.sum_0().to_rows(), vec![vec![9, -6], vec![7, 9], vec![9, -6]]);
    assert_eq!(processor.sum_1().to_rows(), vec![vec![7, 9], vec![9, -6], vec![7, 9]]);
}

#[test]
fn dpa_differences_are_exact() {
    let differences = part(0, 5).finalize();
    // sum_1 * count_0 - sum_0 * count_1
    assert_eq!(
        differences.numerators.to_rows(),
        vec![vec![7 * 3 - 9 * 2, 9 * 3 + 6 * 2], vec![9 * 2 - 7 * 3, -6 * 2 - 9 * 3], vec![3, 39]]
    );
    assert_eq!(differences.denominators.to_vec(), vec![6, 6, 6]);
}

#[test]
fn dpa_update_with_selections_is_update() {
    let traces = example_traces();
    let metadata = example_metadata();
    let mut processor = DpaProcessor::new(2, 3);
    for i in 0..traces.len() {
        let meta = IntArray1::from_vec(metadata[i].clone());
        let selections = selections_of(&selection_function, &meta, 3);
        assert_eq!(selections, vec![i % 2 == 1, i % 2 == 0, i % 2 == 1]);
        processor.update_with_selections(&IntArray1::from_vec(traces[i].clone()), &selections);
    }
    assert_eq!(state(&processor), state(&part(0, 5)));
}

#[test]
fn dpa_helper_is_sequential() {
    let traces = IntArray2::from_rows(&example_traces()).unwrap();
    let metadata = IntArray2::from_rows(&example_metadata()).unwrap();
    for batch_size in [1, 2, 3, 5, 8] {
        assert_eq!(
            state(&dpa(&traces, &metadata, 3, selection_function, batch_size)),
            state(&part(0, 5))
        );
    }
}

#[test]
fn dpa_merge_laws_on_values() {
    let whole = state(&part(0, 5));
    assert_eq!(state(&part(0, 2).merge(part(2, 5))), whole);
    assert_eq!(state(&part(2, 5).merge(part(0, 2))), whole);
    assert_eq!(state(&part(0, 1).merge(part(1, 4)).merge(part(4, 5))), whole);
    assert_eq!(state(&part(0, 1).merge(part(1, 4).merge(part(4, 5)))), whole);
    assert_eq!(state(&part(0, 5).merge(DpaProcessor::new(2, 3))), whole);
    assert_eq!(state(&DpaProcessor::new(2, 3).merge(part(0, 5))), whole);
    assert!(part(0, 1).is_compatible_with(&part(1, 2)));
    assert!(!part(0, 1).is_compatible_with(&DpaProcessor::new(2, 4)));
    assert!(!part(0, 1).is_compatible_with(&DpaProcessor::new(3, 3)));
}
