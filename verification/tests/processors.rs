use muscat::array::IntArray1;
use muscat::processors::MeanVarProcessor;

fn trace(samples: &[i128]) -> IntArray1 {
    IntArray1::from_vec(samples.to_vec())
}

fn mean(processor: &MeanVarProcessor) -> Vec<f32> {
    let count = processor.count() as f64;
    processor
        .sum()
        .to_vec()
        .iter()
        .map(|&sum| (sum as f64 / count) as f32)
        .collect()
}

fn var(processor: &MeanVarProcessor) -> Vec<f32> {
    let count = processor.count() as f64;
    (0..processor.size())
        .map(|i| {
            let m2 = processor.scaled_m2(i).unwrap();
            if processor.count() == 0 {
                m2 as f32
            } else {
                (m2 as f64 / (count * count)) as f32
            }
        })
        .collect()
}

fn assert_all_close(a: &[f32], b: &[f32], rtol: f32, atol: f32) {
    assert_eq!(a.len(), b.len());
    for i in 0..a.len() {
        let diff = (a[i] - b[i]).abs();
        let tol = atol + rtol * b[i].abs();
        assert!(
            diff <= tol,
            "index {i}: left={} right={} diff={} tol={}",
            a[i],
            b[i],
            diff,
            tol
        );
    }
}

#[test]
fn test_mean_var() {
    let mut processor = MeanVarProcessor::new(4);
    processor.process(&trace(&[28038, 22066, -20614, -9763]));
    assert_eq!(mean(&processor), vec![28038f32, 22066f32, -20614f32, -9763f32]);
    assert_eq!(var(&processor), vec![0f32, 0f32, 0f32, 0f32]);
    processor.process(&trace(&[31377, -6950, -15666, 26773]));
    processor.process(&trace(&[24737, -18311, 24742, 17207]));
    processor.process(&trace(&[12974, -29255, -28798, 18988]));
    assert_all_close(
        &mean(&processor),
        &[24281.5f32, -8112.5f32, -10084f32, 13301.25f32],
        1e-6,
        1e-7,
    );
    assert_all_close(
        &var(&processor),
        &[48131136.0, 365777020.0, 426275900.0, 190260430.0],
        1e-6,
        1e-2,
    );
}

#[test]
fn test_mean_var_numerical_stability_constant_f32() {
    // Many large identical values yield a variance of exactly zero
    let mut processor = MeanVarProcessor::new(1);
    for _ in 0..10_000 {
        processor.process(&trace(&[1_000_000_000]));
    }
    let var = var(&processor);
    assert!(var[0] >= -1e-6);
    assert!(var[0].abs() <= 1e-3);
}

#[test]
fn test_mean_var_numerical_stability_small_variance_f32() {
    // Values around a large mean with small deltas keep a stable small variance
    let mut processor = MeanVarProcessor::new(1);
    let base = 1_000_000;
    let delta = 3; // expected variance = delta^2 = 9
    for _ in 0..5_000 {
        processor.process(&trace(&[base + delta]));
        processor.process(&trace(&[base - delta]));
    }
    let var = var(&processor);
    assert!(var[0] >= -1e-5);
    assert!((var[0] - 9.0).abs() <= 2e-2);
}

#[test]
fn test_mean_var_numerical_stability_large_integers() {
    // Two values equally frequent: variance is (10/2)^2 = 25
    let mut processor = MeanVarProcessor::new(1);
    for _ in 0..100_000 {
        processor.process(&trace(&[1_000_000]));
        processor.process(&trace(&[1_000_010]));
    }
    let var = var(&processor);
    assert!(var[0] >= -1e-5);
    assert!((var[0] - 25.0).abs() <= 2e-2);
}

#[test]
fn mean_var_new_is_empty() {
    let processor = MeanVarProcessor::new(3);
    assert_eq!(processor.size(), 3);
    assert_eq!(processor.count(), 0);
    assert_eq!(processor.sum().to_vec(), vec![0, 0, 0]);
    assert_eq!(processor.sum_squares().to_vec(), vec![0, 0, 0]);
    assert_eq!(processor.scaled_m2(1), Some(0));
}

#[test]
fn mean_var_exact_sums() {
    let mut processor = MeanVarProcessor::new(4);
    processor.process(&trace(&[28038, 22066, -20614, -9763]));
    processor.process(&trace(&[31377, -6950, -15666, 26773]));
    processor.process(&trace(&[24737, -18311, 24742, 17207]));
    processor.process(&trace(&[12974, -29255, -28798, 18988]));
    assert_eq!(processor.count(), 4);
    assert_eq!(processor.sum().to_vec(), vec![97126, -32450, -40336, 53205]);
    assert_eq!(
        processor.sum_squares().to_vec(),
        vec![2550889418, 1726358602, 2111851920, 1468734691]
    );
    assert_eq!(processor.scaled_m2(0), Some(770097796));
    assert_eq!(processor.scaled_m2(1), Some(5852431908));
    assert_eq!(processor.scaled_m2(2), Some(6820414784));
    assert_eq!(processor.scaled_m2(3), Some(3044166739));
}

#[test]
fn mean_var_scaled_m2_reports_overflow() {
    let mut processor = MeanVarProcessor::new(1);
    processor.process(&trace(&[i128::MAX / 2]));
    assert_eq!(processor.scaled_m2(0), None);
}

#[test]
fn mean_var_merge_is_the_whole_batch() {
    let rows: [[i128; 2]; 5] = [[1, -2], [3, 4], [-5, 6], [7, 8], [9, -10]];
    let mut whole = MeanVarProcessor::new(2);
    for row in rows.iter() {
        whole.process(&trace(row));
    }
    let mut left = MeanVarProcessor::new(2);
    let mut right = MeanVarProcessor::new(2);
    for row in rows[..2].iter() {
        left.process(&trace(row));
    }
    for row in rows[2..].iter() {
        right.process(&trace(row));
    }
    assert!(left.is_compatible_with(&right));
    let merged = left.merge(right);
    assert_eq!(merged.count(), whole.count());
    assert_eq!(merged.sum().to_vec(), whole.sum().to_vec());
    assert_eq!(merged.sum_squares().to_vec(), whole.sum_squares().to_vec());
    assert_eq!(merged.sum().to_vec(), vec![15, 6]);
    assert_eq!(merged.sum_squares().to_vec(), vec![165, 220]);
}

#[test]
fn mean_var_merge_is_commutative_and_associative() {
    let parts: [[i128; 2]; 3] = [[1, -2], [30, 40], [-500, 600]];
    let single = |row: &[i128; 2]| {
        let mut p = MeanVarProcessor::new(2);
        p.process(&trace(row));
        p
    };
    let ab_c = single(&parts[0]).merge(single(&parts[1])).merge(single(&parts[2]));
    let a_bc = single(&parts[0]).merge(single(&parts[1]).merge(single(&parts[2])));
    let c_ba = single(&parts[2]).merge(single(&parts[1]).merge(single(&parts[0])));
    assert_eq!(ab_c.sum().to_vec(), vec![-469, 638]);
    assert_eq!(ab_c.sum().to_vec(), a_bc.sum().to_vec());
    assert_eq!(ab_c.sum_squares().to_vec(), a_bc.sum_squares().to_vec());
    assert_eq!(ab_c.sum().to_vec(), c_ba.sum().to_vec());
    assert_eq!(ab_c.sum_squares().to_vec(), c_ba.sum_squares().to_vec());
    assert_eq!(ab_c.count(), 3);
    assert_eq!(c_ba.count(), 3);
}

#[test]
fn mean_var_merge_with_empty_is_identity() {
    let mut processor = MeanVarProcessor::new(2);
    processor.process(&trace(&[4, -7]));
    processor.process(&trace(&[6, 9]));
    let merged = processor.merge(MeanVarProcessor::new(2));
    assert_eq!(merged.count(), 2);
    assert_eq!(merged.sum().to_vec(), vec![10, 2]);
    assert_eq!(merged.sum_squares().to_vec(), vec![52, 130]);
    let merged = MeanVarProcessor::new(2).merge(merged);
    assert_eq!(merged.count(), 2);
    assert_eq!(merged.sum().to_vec(), vec![10, 2]);
    assert_eq!(merged.sum_squares().to_vec(), vec![52, 130]);
}

#[test]
fn mean_var_incompatible_sizes() {
    let a = MeanVarProcessor::new(2);
    let b = MeanVarProcessor::new(3);
    assert!(!a.is_compatible_with(&b));
}

#[test]
fn mean_var_restores_from_parts() {
    let mut processor = MeanVarProcessor::new(2);
    processor.process(&trace(&[4, -7]));
    processor.process(&trace(&[6, 9]));
    let restored = MeanVarProcessor::from_parts(
        IntArray1::from_vec(processor.sum().to_vec()),
        IntArray1::from_vec(processor.sum_squares().to_vec()),
        processor.count(),
    )
    .unwrap();
    assert_eq!(restored.count(), 2);
    assert_eq!(restored.sum().to_vec(), vec![10, 2]);
    assert_eq!(restored.sum_squares().to_vec(), vec![52, 130]);
}

#[test]
fn mean_var_rejects_malformed_parts() {
    let parts = |sum: Vec<i128>, squares: Vec<i128>, count: usize| {
        MeanVarProcessor::from_parts(IntArray1::from_vec(sum), IntArray1::from_vec(squares), count)
    };
    assert!(parts(vec![1, 2], vec![1], 3).is_none());
    assert!(parts(vec![1, 2], vec![1, -4], 3).is_none());
    assert!(parts(vec![1, 0], vec![0, 0], 0).is_none());
    assert!(parts(vec![0, 0], vec![0, 5], 0).is_none());
    assert!(parts(vec![0, 0], vec![0, 0], 0).is_some());
    assert!(parts(vec![], vec![], 0).is_some());
}
