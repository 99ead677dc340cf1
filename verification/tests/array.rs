use muscat::array::{IntArray1, IntArray2};
use muscat::util::{argmax, argsort, max_per_row};

#[test]
fn array1_round_trip() {
    let array = IntArray1::from_vec(vec![3, -1, 4]);
    assert_eq!(array.len(), 3);
    assert_eq!(array.get(1), -1);
    assert_eq!(array.to_vec(), vec![3, -1, 4]);
    assert_eq!(IntArray1::zeros(2).to_vec(), vec![0, 0]);
}

#[test]
fn array1_arithmetic() {
    let mut a = IntArray1::from_vec(vec![1, 2, 3]);
    a.set(0, 10);
    a.accumulate(&IntArray1::from_vec(vec![1, 1, 1]));
    assert_eq!(a.to_vec(), vec![11, 3, 4]);
    a.accumulate_squares(&IntArray1::from_vec(vec![-2, 0, 3]));
    assert_eq!(a.to_vec(), vec![15, 3, 13]);
    let b = IntArray1::from_vec(vec![2, -3, 1]);
    assert_eq!(a.dot(&b), 30 - 9 + 13);
    assert_eq!(a.plus(b).to_vec(), vec![17, 0, 14]);
}

#[test]
fn array2_round_trip() {
    let rows = vec![vec![1, 2, 3], vec![4, 5, 6]];
    let array = IntArray2::from_rows(&rows).unwrap();
    assert_eq!(array.nrows(), 2);
    assert_eq!(array.ncols(), 3);
    assert_eq!(array.get(1, 2), 6);
    assert_eq!(array.row(0).to_vec(), vec![1, 2, 3]);
    assert_eq!(array.column(1).to_vec(), vec![2, 5]);
    assert_eq!(array.to_rows(), rows);
    assert_eq!(IntArray2::zeros(2, 2).to_rows(), vec![vec![0, 0], vec![0, 0]]);
}

#[test]
fn array2_rejects_ragged_rows() {
    assert!(IntArray2::from_rows(&vec![vec![1, 2], vec![3]]).is_none());
    assert!(IntArray2::from_rows(&vec![vec![], vec![3]]).is_none());
    let empty = IntArray2::from_rows(&vec![]).unwrap();
    assert_eq!(empty.nrows(), 0);
    assert_eq!(empty.ncols(), 0);
}

#[test]
fn array2_arithmetic() {
    let mut a = IntArray2::from_rows(&vec![vec![1, 2], vec![3, 4]]).unwrap();
    a.set(0, 1, 7);
    a.accumulate_row(1, &IntArray1::from_vec(vec![10, -10]));
    assert_eq!(a.to_rows(), vec![vec![1, 7], vec![13, -6]]);
    let b = IntArray2::from_rows(&vec![vec![1, 1], vec![-1, -1]]).unwrap();
    assert_eq!(a.plus(b).to_rows(), vec![vec![2, 8], vec![12, -7]]);
}

#[test]
fn argmax_is_the_first_maximum() {
    assert_eq!(argmax(&IntArray1::from_vec(vec![])), 0);
    assert_eq!(argmax(&IntArray1::from_vec(vec![4])), 0);
    assert_eq!(argmax(&IntArray1::from_vec(vec![1, 9, 3, 9, 2])), 1);
    assert_eq!(argmax(&IntArray1::from_vec(vec![-5, -9, -1])), 2);
}

#[test]
fn argsort_is_ascending_and_stable() {
    assert_eq!(argsort(&IntArray1::from_vec(vec![])), Vec::<usize>::new());
    assert_eq!(argsort(&IntArray1::from_vec(vec![3, 1, 2])), vec![1, 2, 0]);
    assert_eq!(argsort(&IntArray1::from_vec(vec![2, 1, 2, 1, 0])), vec![4, 1, 3, 0, 2]);
    let keys = vec![7, -2, 7, 100, -2, 0, 55, 7];
    let order = argsort(&IntArray1::from_vec(keys.clone()));
    let mut seen = vec![false; keys.len()];
    for &i in order.iter() {
        assert!(!seen[i]);
        seen[i] = true;
    }
    for pair in order.windows(2) {
        let (a, b) = (pair[0], pair[1]);
        assert!(keys[a] < keys[b] || (keys[a] == keys[b] && a < b));
    }
    assert_eq!(*order.last().unwrap(), argmax(&IntArray1::from_vec(keys)));
}

#[test]
fn max_per_row_takes_the_greatest() {
    let rows = vec![vec![1, 5, 2], vec![-3, -1, -2], vec![4, 4, 4]];
    let array = IntArray2::from_rows(&rows).unwrap();
    assert_eq!(max_per_row(&array).to_vec(), vec![5, -1, 4]);
}
