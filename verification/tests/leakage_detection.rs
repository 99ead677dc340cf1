use muscat::array::{IntArray1, IntArray2};
use muscat::leakage_detection::{snr, ttest, SnrProcessor, TTestProcessor};
use muscat::processors::MeanVarProcessor;

fn example_traces() -> Vec<Vec<i128>> {
    vec![
        vec![77, 137, 51, 91],
        vec![72, 61, 91, 83],
        vec![39, 49, 52, 23],
        vec![26, 114, 63, 45],
        vec![30, 8, 97, 91],
        vec![13, 68, 7, 45],
        vec![17, 181, 60, 34],
        vec![43, 88, 76, 78],
        vec![0, 36, 35, 0],
        vec![93, 191, 49, 26],
    ]
}

fn mean(m: &MeanVarProcessor) -> Vec<f64> {
    m.sum().to_vec().iter().map(|&x| x as f64 / m.count() as f64).collect()
}

fn var(m: &MeanVarProcessor) -> Vec<f64> {
    let count = m.count() as f64;
    m.sum()
        .to_vec()
        .iter()
        .zip(m.sum_squares().to_vec().iter())
        .map(|(&sum, &sum_squares)| (sum_squares as f64 / count) - (sum as f64 / count).powi(2))
        .collect()
}

fn welch(processor: &TTestProcessor) -> Vec<f64> {
    let m1 = processor.mean_var_1();
    let m2 = processor.mean_var_2();
    let (mean_1, mean_2) = (mean(m1), mean(m2));
    let (var_1, var_2) = (var(m1), var(m2));
    (0..processor.size())
        .map(|i| {
            let q = mean_1[i] - mean_2[i];
            let d = ((var_1[i] / m1.count() as f64) + (var_2[i] / m2.count() as f64)).sqrt();
            q / d
        })
        .collect()
}

fn snr_state(p: &SnrProcessor) -> (usize, Vec<i128>, Vec<i128>, Vec<Vec<i128>>, Vec<i128>) {
    (
        p.mean_var().count(),
        p.mean_var().sum().to_vec(),
        p.mean_var().sum_squares().to_vec(),
        p.classes_sum().to_rows(),
        p.classes_count().to_vec(),
    )
}

fn ttest_state(p: &TTestProcessor) -> Vec<(usize, Vec<i128>, Vec<i128>)> {
    vec![
        (
            p.mean_var_1().count(),
            p.mean_var_1().sum().to_vec(),
            p.mean_var_1().sum_squares().to_vec(),
        ),
        (
            p.mean_var_2().count(),
            p.mean_var_2().sum().to_vec(),
            p.mean_var_2().sum_squares().to_vec(),
        ),
    ]
}

#[test]
fn test_snr_helper() {
    let traces = example_traces();
    let classes = [1, 3, 1, 2, 3, 2, 2, 1, 3, 1];

    let mut processor = SnrProcessor::new(4, 256);
    for (trace, class) in std::iter::zip(traces.iter(), classes.iter()) {
        processor.process(&IntArray1::from_vec(trace.clone()), *class);
    }
    let batch = IntArray2::from_rows(&traces).unwrap();
    assert_eq!(snr_state(&processor), snr_state(&snr(&batch, 256, |i| classes[i], 2)));
}

#[test]
fn test_ttest() {
    let traces = example_traces();

    let mut processor = TTestProcessor::new(4);
    for (i, trace) in traces.iter().enumerate() {
        processor.process(&IntArray1::from_vec(trace.clone()), i % 3 == 0);
    }

    assert_eq!(
        welch(&processor),
        vec![
            -1.0910344547297484,
            -5.524921845887032,
            0.29385284736362266,
            0.23308466737856662
        ]
    );
}

#[test]
fn test_ttest_helper() {
    let traces = example_traces();
    let trace_classes = [true, false, false, true, false, false, true, false, false, true];

    let mut processor = TTestProcessor::new(4);
    for (i, trace) in traces.iter().enumerate() {
        processor.process(&IntArray1::from_vec(trace.clone()), trace_classes[i]);
    }
    let batch = IntArray2::from_rows(&traces).unwrap();
    let helper = ttest(&batch, &trace_classes, 2);
    assert_eq!(ttest_state(&processor), ttest_state(&helper));
    assert_eq!(welch(&processor), welch(&helper));
}

#[test]
fn ttest_groups_hold_exact_sums() {
    let traces = example_traces();
    let mut processor = TTestProcessor::new(4);
    for (i, trace) in traces.iter().enumerate() {
        processor.process(&IntArray1::from_vec(trace.clone()), i % 3 == 0);
    }
    assert_eq!(processor.size(), 4);
    assert_eq!(
        ttest_state(&processor),
        vec![
            (6, vec![197, 310, 358, 320], vec![9623, 19850, 27444, 23808]),
            (4, vec![213, 623, 223, 196], vec![15543, 101007, 12571, 12138]),
        ]
    );
}

#[test]
fn ttest_new_is_empty_and_sized() {
    let processor = TTestProcessor::new(7);
    assert_eq!(processor.size(), 7);
    assert_eq!(processor.mean_var_1().count(), 0);
    assert_eq!(processor.mean_var_2().count(), 0);
    assert!(processor.is_compatible_with(&TTestProcessor::new(7)));
    assert!(!processor.is_compatible_with(&TTestProcessor::new(8)));
}

#[test]
fn ttest_any_chunk_size_gives_the_same_state() {
    let traces = example_traces();
    let trace_classes = [true, false, false, true, false, false, true, false, false, true];
    let batch = IntArray2::from_rows(&traces).unwrap();
    let reference = ttest_state(&ttest(&batch, &trace_classes, 10));
    for batch_size in [1, 2, 3, 4, 7, 9, 11, 100] {
        assert_eq!(ttest_state(&ttest(&batch, &trace_classes, batch_size)), reference);
    }
}

#[test]
fn ttest_merge_with_empty_is_identity() {
    let traces = example_traces();
    let mut processor = TTestProcessor::new(4);
    for (i, trace) in traces.iter().enumerate() {
        processor.process(&IntArray1::from_vec(trace.clone()), i % 2 == 0);
    }
    let before = ttest_state(&processor);
    let merged = TTestProcessor::new(4).merge(processor).merge(TTestProcessor::new(4));
    assert_eq!(ttest_state(&merged), before);
}

#[test]
fn snr_classes_hold_exact_sums() {
    let traces = example_traces();
    let classes = [1, 3, 1, 2, 3, 2, 2, 1, 3, 1];
    let mut processor = SnrProcessor::new(4, 4);
    for (trace, class) in std::iter::zip(traces.iter(), classes.iter()) {
        processor.process(&IntArray1::from_vec(trace.clone()), *class);
    }
    assert_eq!(processor.size(), 4);
    assert_eq!(processor.num_classes(), 4);
    assert_eq!(processor.classes_count().to_vec(), vec![0, 4, 3, 3]);
    assert_eq!(
        processor.classes_sum().to_rows(),
        vec![
            vec![0, 0, 0, 0],
            vec![252, 465, 228, 218],
            vec![56, 363, 130, 124],
            vec![102, 105, 223, 174],
        ]
    );
    assert_eq!(processor.mean_var().count(), 10);
    assert_eq!(processor.mean_var().sum().to_vec(), vec![410, 933, 581, 516]);
    assert_eq!(processor.mean_var().sum_squares().to_vec(), vec![25166, 120857, 40015, 35946]);
}

#[test]
fn snr_any_chunk_size_gives_the_same_state() {
    let traces = example_traces();
    let classes = [1, 3, 1, 2, 3, 2, 2, 1, 3, 1];
    let batch = IntArray2::from_rows(&traces).unwrap();
    let reference = snr_state(&snr(&batch, 4, |i| classes[i], 10));
    for batch_size in [1, 3, 4, 9, 25] {
        assert_eq!(snr_state(&snr(&batch, 4, |i| classes[i], batch_size)), reference);
    }
}

#[test]
fn snr_merge_is_commutative_and_has_an_identity() {
    let traces = example_traces();
    let classes = [1, 3, 1, 2, 3, 2, 2, 1, 3, 1];
    let part = |from: usize, to: usize| {
        let mut p = SnrProcessor::new(4, 4);
        for i in from..to {
            p.process(&IntArray1::from_vec(traces[i].clone()), classes[i]);
        }
        p
    };
    let whole = snr_state(&part(0, 10));
    assert_eq!(snr_state(&part(0, 4).merge(part(4, 10))), whole);
    assert_eq!(snr_state(&part(4, 10).merge(part(0, 4))), whole);
    assert_eq!(snr_state(&part(0, 10).merge(SnrProcessor::new(4, 4))), whole);
    assert_eq!(snr_state(&SnrProcessor::new(4, 4).merge(part(0, 10))), whole);
    assert!(part(0, 1).is_compatible_with(&part(1, 2)));
    assert!(!part(0, 1).is_compatible_with(&SnrProcessor::new(4, 5)));
    assert!(!part(0, 1).is_compatible_with(&SnrProcessor::new(3, 4)));
}

#[test]
fn leakage_detection_restores_from_parts() {
    let traces = example_traces();
    let classes = [1, 3, 1, 2, 3, 2, 2, 1, 3, 1];
    let mut processor = SnrProcessor::new(4, 4);
    for (trace, class) in std::iter::zip(traces.iter(), classes.iter()) {
        processor.process(&IntArray1::from_vec(trace.clone()), *class);
    }
    let moments = |m: &MeanVarProcessor| {
        MeanVarProcessor::from_parts(
            IntArray1::from_vec(m.sum().to_vec()),
            IntArray1::from_vec(m.sum_squares().to_vec()),
            m.count(),
        )
        .unwrap()
    };
    let restored = SnrProcessor::from_parts(
        moments(processor.mean_var()),
        IntArray2::from_rows(&processor.classes_sum().to_rows()).unwrap(),
        IntArray1::from_vec(processor.classes_count().to_vec()),
    )
    .unwrap();
    assert_eq!(snr_state(&restored), snr_state(&processor));
    assert!(SnrProcessor::from_parts(
        moments(processor.mean_var()),
        IntArray2::from_rows(&processor.classes_sum().to_rows()).unwrap(),
        IntArray1::from_vec(vec![0, 4, 3]),
    )
    .is_none());
    assert!(SnrProcessor::from_parts(
        MeanVarProcessor::new(3),
        IntArray2::from_rows(&processor.classes_sum().to_rows()).unwrap(),
        IntArray1::from_vec(processor.classes_count().to_vec()),
    )
    .is_none());

    let mismatched = TTestProcessor::from_parts(MeanVarProcessor::new(3), MeanVarProcessor::new(4));
    assert!(mismatched.is_none());
    let pair = TTestProcessor::from_parts(moments(processor.mean_var()), MeanVarProcessor::new(4))
        .unwrap();
    assert_eq!(pair.size(), 4);
    assert_eq!(pair.mean_var_1().count(), 10);
    assert_eq!(pair.mean_var_2().count(), 0);
}

#[test]
fn ttest_state_does_not_depend_on_the_order_of_traces() {
    let traces = example_traces();
    let mut forward = TTestProcessor::new(4);
    let mut backward = TTestProcessor::new(4);
    for i in 0..traces.len() {
        forward.process(&IntArray1::from_vec(traces[i].clone()), i % 3 == 0);
        let j = traces.len() - 1 - i;
        backward.process(&IntArray1::from_vec(traces[j].clone()), j % 3 == 0);
    }
    assert_eq!(ttest_state(&forward), ttest_state(&backward));
}
