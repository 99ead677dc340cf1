use muscat::array::{IntArray1, IntArray2};
use muscat::distinguishers::cpa::{cpa, Cpa, CpaProcessor};
use muscat::leakage::{leakage_sums, leakages_of_value, tabulate};

fn example_traces() -> Vec<Vec<i128>> {
    vec![
        vec![77, 137, 51, 91],
        vec![72, 61, 91, 83],
        vec![39, 49, 52, 23],
        vec![26, 114, 63, 45],
        vec![30, 8, 97, 91],
        vec![13, 68, 7, 45],
        vec![17, 181, 60, 34],
        vec![43, 88, 76, 78],
        vec![0, 36, 35, 0],
        vec![93, 191, 49, 26],
    ]
}

fn example_plaintexts() -> Vec<Vec<i128>> {
    vec![
        vec![1],
        vec![3],
        vec![1],
        vec![2],
        vec![3],
        vec![2],
        vec![2],
        vec![1],
        vec![3],
        vec![1],
    ]
}

fn state(p: &CpaProcessor) -> (Vec<usize>, Vec<Vec<i128>>, Vec<Vec<i128>>) {
    (
        vec![p.num_samples(), p.guess_range(), p.target_byte(), p.num_traces()],
        vec![
            p.sum_traces().to_vec(),
            p.sum_square_traces().to_vec(),
            p.guess_sum_traces().to_vec(),
            p.guess_sum_squares_traces().to_vec(),
        ],
        p.plaintext_sum_traces().to_rows(),
    )
}

fn sequential(guess_range: usize) -> CpaProcessor {
    let traces = example_traces();
    let plaintexts = example_plaintexts();
    let leakage_model = |plaintext: usize, guess: usize| plaintext ^ guess;
    let mut processor = CpaProcessor::new(4, guess_range, 0);
    for i in 0..traces.len() {
        processor.update(
            &IntArray1::from_vec(traces[i].clone()),
            &IntArray1::from_vec(plaintexts[i].clone()),
            leakage_model,
        );
    }
    processor
}

/// The order key of a single-precision score: the integer that compares as
/// the score does in the total order of its type.
fn key(score: f32) -> i128 {
    let mut bits = score.to_bits() as i32;
    bits ^= (((bits >> 31) as u32) >> 1) as i32;
    bits as i128
}

#[test]
fn test_cpa_helper() {
    let traces = IntArray2::from_rows(&example_traces()).unwrap();
    let plaintexts = IntArray2::from_rows(&example_plaintexts()).unwrap();

    let leakage_model = |plaintext: usize, guess: usize| plaintext ^ guess;
    let processor = sequential(256);
    let helper = cpa(&traces, &plaintexts, 256, 0, leakage_model, 2);
    assert_eq!(state(&processor), state(&helper));
    assert_eq!(
        processor.finalize(leakage_model).to_rows(),
        helper.finalize(leakage_model).to_rows()
    );
}

#[test]
fn cpa_sums_are_exact() {
    let processor = sequential(4);
    assert_eq!(processor.num_traces(), 10);
    assert_eq!(processor.sum_traces().to_vec(), vec![410, 933, 581, 516]);
    assert_eq!(processor.sum_square_traces().to_vec(), vec![25166, 120857, 40015, 35946]);
    assert_eq!(processor.guess_sum_traces().to_vec(), vec![19, 15, 15, 11]);
    assert_eq!(processor.guess_sum_squares_traces().to_vec(), vec![43, 39, 39, 19]);
    assert_eq!(
        processor.plaintext_sum_traces().to_rows(),
        vec![
            vec![0, 0, 0, 0],
            vec![252, 465, 228, 218],
            vec![56, 363, 130, 124],
            vec![102, 105, 223, 174],
        ]
    );
}

#[test]
fn cpa_cross_sums_are_exact() {
    let leakage_model = |plaintext: usize, guess: usize| plaintext ^ guess;
    let cross = sequential(256).finalize(leakage_model);
    assert_eq!(cross.nrows(), 256);
    assert_eq!(cross.ncols(), 4);
    assert_eq!(cross.row(0).to_vec(), vec![670, 1506, 1157, 988]);
    assert_eq!(cross.row(1).to_vec(), vec![372, 1299, 836, 720]);
    assert_eq!(cross.row(2).to_vec(), vec![858, 1500, 907, 828]);
    assert_eq!(cross.row(255).to_vec(), vec![103880, 236409, 146998, 130592]);
}

#[test]
fn cpa_finalize_with_a_table_is_finalize() {
    let leakage_model = |plaintext: usize, guess: usize| plaintext ^ guess;
    let processor = sequential(8);
    let table = tabulate(&leakage_model, 8, 8);
    assert_eq!(table.get(3, 5), 6);
    assert_eq!(
        processor.finalize_with_leakages(&table).to_rows(),
        processor.finalize(leakage_model).to_rows()
    );
}

#[test]
fn cpa_update_with_leakages_is_update() {
    let leakage_model = |plaintext: usize, guess: usize| plaintext ^ guess;
    let traces = example_traces();
    let plaintexts = example_plaintexts();
    let mut processor = CpaProcessor::new(4, 4, 0);
    for i in 0..traces.len() {
        let value = plaintexts[i][0] as usize;
        let leakages = leakages_of_value(&leakage_model, value, 4);
        processor.update_with_leakages(&IntArray1::from_vec(traces[i].clone()), value, &leakages);
    }
    assert_eq!(state(&processor), state(&sequential(4)));
}

#[test]
fn cpa_any_chunk_size_gives_the_same_state() {
    let traces = IntArray2::from_rows(&example_traces()).unwrap();
    let plaintexts = IntArray2::from_rows(&example_plaintexts()).unwrap();
    let leakage_model = |plaintext: usize, guess: usize| plaintext ^ guess;
    let reference = state(&sequential(16));
    for batch_size in [1, 2, 3, 5, 9, 10, 64] {
        assert_eq!(state(&cpa(&traces, &plaintexts, 16, 0, leakage_model, batch_size)), reference);
    }
}

#[test]
fn cpa_merge_laws_on_values() {
    let leakage_model = |plaintext: usize, guess: usize| plaintext ^ guess;
    let traces = example_traces();
    let plaintexts = example_plaintexts();
    let part = |from: usize, to: usize| {
        let mut p = CpaProcessor::new(4, 4, 0);
        for i in from..to {
            p.update(
                &IntArray1::from_vec(traces[i].clone()),
                &IntArray1::from_vec(plaintexts[i].clone()),
                leakage_model,
            );
        }
        p
    };
    let whole = state(&part(0, 10));
    assert_eq!(state(&part(0, 3).merge(part(3, 7)).merge(part(7, 10))), whole);
    assert_eq!(state(&part(0, 3).merge(part(3, 7).merge(part(7, 10)))), whole);
    assert_eq!(state(&part(7, 10).merge(part(0, 3)).merge(part(3, 7))), whole);
    assert_eq!(state(&part(0, 10).merge(CpaProcessor::new(4, 4, 0))), whole);
    assert_eq!(state(&CpaProcessor::new(4, 4, 0).merge(part(0, 10))), whole);
}

#[test]
fn cpa_compatibility() {
    let p = CpaProcessor::new(4, 8, 1);
    assert!(p.is_compatible_with(&CpaProcessor::new(4, 8, 1)));
    assert!(!p.is_compatible_with(&CpaProcessor::new(5, 8, 1)));
    assert!(!p.is_compatible_with(&CpaProcessor::new(4, 9, 1)));
    assert!(!p.is_compatible_with(&CpaProcessor::new(4, 8, 0)));
}

#[test]
fn cpa_update_reads_the_target_byte() {
    let leakage_model = |plaintext: usize, guess: usize| plaintext + guess;
    let mut processor = CpaProcessor::new(2, 3, 1);
    processor.update(
        &IntArray1::from_vec(vec![5, -7]),
        &IntArray1::from_vec(vec![0, 2, 1]),
        leakage_model,
    );
    assert_eq!(
        processor.plaintext_sum_traces().to_rows(),
        vec![vec![0, 0], vec![0, 0], vec![5, -7]]
    );
    assert_eq!(processor.guess_sum_traces().to_vec(), vec![2, 3, 4]);
    assert_eq!(processor.guess_sum_squares_traces().to_vec(), vec![4, 9, 16]);
    assert_eq!(processor.sum_square_traces().to_vec(), vec![25, 49]);
}

#[test]
fn leakage_rows_and_sums() {
    let leakage_model = |value: usize, guess: usize| 10 * value + guess;
    assert_eq!(leakages_of_value(&leakage_model, 3, 4).to_vec(), vec![30, 31, 32, 33]);
    let table = tabulate(&leakage_model, 3, 2);
    assert_eq!(table.to_rows(), vec![vec![0, 10, 20], vec![1, 11, 21]]);
    let (sums, sum_squares) = leakage_sums(&table);
    assert_eq!(sums.to_vec(), vec![30, 33]);
    assert_eq!(sum_squares.to_vec(), vec![500, 563]);
}

#[test]
fn ranking_of_scores() {
    let scores: Vec<Vec<f32>> = vec![
        vec![0.1, 0.7, 0.2],
        vec![0.9, 0.3, 0.1],
        vec![0.0, 0.05, 0.02],
        vec![0.5, 0.6, 0.65],
    ];
    let keys: Vec<Vec<i128>> =
        scores.iter().map(|row| row.iter().map(|&s| key(s)).collect()).collect();
    let result = Cpa::new(IntArray2::from_rows(&keys).unwrap());
    assert_eq!(result.corr().to_rows(), keys);
    assert_eq!(result.max_corr().to_vec(), vec![key(0.7), key(0.9), key(0.05), key(0.65)]);
    assert_eq!(result.best_guess(), 1);
    assert_eq!(result.rank(), vec![2, 3, 0, 1]);
}

#[test]
fn ranking_breaks_ties_by_index() {
    let keys: Vec<Vec<i128>> = vec![vec![5, 1], vec![9, 9], vec![2, 5], vec![9, 0], vec![-3, -4]];
    let result = Cpa::new(IntArray2::from_rows(&keys).unwrap());
    assert_eq!(result.max_corr().to_vec(), vec![5, 9, 5, 9, -3]);
    assert_eq!(result.best_guess(), 1);
    assert_eq!(result.rank(), vec![4, 0, 2, 1, 3]);
}

#[test]
fn order_keys_compare_as_scores() {
    let scores = [-1.5f32, -0.0, 0.0, 1e-30, 0.25, 1.0, f32::INFINITY];
    for pair in scores.windows(2) {
        assert!(key(pair[0]) < key(pair[1]));
    }
}

#[test]
fn cpa_restores_from_parts() {
    let processor = sequential(4);
    let restore = |num_samples: usize, squares: Vec<i128>| {
        CpaProcessor::from_parts(
            num_samples,
            4,
            0,
            IntArray1::from_vec(processor.sum_traces().to_vec()),
            IntArray1::from_vec(squares),
            IntArray1::from_vec(processor.guess_sum_traces().to_vec()),
            IntArray1::from_vec(processor.guess_sum_squares_traces().to_vec()),
            IntArray2::from_rows(&processor.plaintext_sum_traces().to_rows()).unwrap(),
            processor.num_traces(),
        )
    };
    let restored = restore(4, processor.sum_square_traces().to_vec()).unwrap();
    assert_eq!(state(&restored), state(&processor));
    assert!(restore(5, processor.sum_square_traces().to_vec()).is_none());
    assert!(restore(4, vec![25166, 120857, -1, 35946]).is_none());
    assert!(restore(4, vec![25166, 120857, 40015]).is_none());
}

#[test]
fn test_serialize_deserialize_processor() {
    let processor = sequential(256);

    let shape = vec![processor.num_samples(), processor.target_byte(), processor.guess_range()];
    let sums = vec![
        processor.sum_traces().to_vec(),
        processor.sum_square_traces().to_vec(),
        processor.guess_sum_traces().to_vec(),
        processor.guess_sum_squares_traces().to_vec(),
    ];
    let serialized = (
        serde_json::to_string(&shape).unwrap(),
        serde_json::to_string(&sums).unwrap(),
        serde_json::to_string(&processor.plaintext_sum_traces().to_rows()).unwrap(),
        serde_json::to_string(&processor.num_traces()).unwrap(),
    );
    let shape: Vec<usize> = serde_json::from_str(&serialized.0).unwrap();
    let mut sums: Vec<Vec<i128>> = serde_json::from_str(&serialized.1).unwrap();
    let plaintext_sum_traces: Vec<Vec<i128>> = serde_json::from_str(&serialized.2).unwrap();
    let num_traces: usize = serde_json::from_str(&serialized.3).unwrap();
    let guess_sum_squares_traces = sums.pop().unwrap();
    let guess_sum_traces = sums.pop().unwrap();
    let sum_square_traces = sums.pop().unwrap();
    let sum_traces = sums.pop().unwrap();
    let restored_processor = CpaProcessor::from_parts(
        shape[0],
        shape[2],
        shape[1],
        IntArray1::from_vec(sum_traces),
        IntArray1::from_vec(sum_square_traces),
        IntArray1::from_vec(guess_sum_traces),
        IntArray1::from_vec(guess_sum_squares_traces),
        IntArray2::from_rows(&plaintext_sum_traces).unwrap(),
        num_traces,
    )
    .unwrap();

    assert_eq!(processor.num_samples(), restored_processor.num_samples());
    assert_eq!(processor.target_byte(), restored_processor.target_byte());
    assert_eq!(processor.guess_range(), restored_processor.guess_range());
    assert_eq!(processor.sum_traces().to_vec(), restored_processor.sum_traces().to_vec());
    assert_eq!(
        processor.sum_square_traces().to_vec(),
        restored_processor.sum_square_traces().to_vec()
    );
    assert_eq!(
        processor.guess_sum_traces().to_vec(),
        restored_processor.guess_sum_traces().to_vec()
    );
    assert_eq!(
        processor.guess_sum_squares_traces().to_vec(),
        restored_processor.guess_sum_squares_traces().to_vec()
    );
    assert_eq!(
        processor.plaintext_sum_traces().to_rows(),
        restored_processor.plaintext_sum_traces().to_rows()
    );
    assert_eq!(processor.num_traces(), restored_processor.num_traces());
}
