use brassfibre::error::Error;
use brassfibre::series::Series;

#[test]
fn test_series_creation_from_vec() {
    let values: Vec<f64> = vec![1., 2., 3.];

    let s = Series::<f64, i64>::from_vec(values);

    let exp_values: Vec<f64> = vec![1., 2., 3.];
    let exp_index: Vec<i64> = vec![0, 1, 2];
    assert_eq!(&s.values, &exp_values);
    assert_eq!(s.index.values(), &exp_index);

    assert_eq!(&s.len(), &3);
    assert_eq!(&s.index.len(), &3);
}

#[test]
fn test_series_creation_from_index() {
    let values: Vec<f64> = vec![1., 2., 3.];
    let index: Vec<i64> = vec![5, 6, 7];

    let s = Series::<f64, i64>::new(values, index).unwrap();

    let exp_values: Vec<f64> = vec![1., 2., 3.];
    let exp_index: Vec<i64> = vec![5, 6, 7];
    assert_eq!(&s.values, &exp_values);
    assert_eq!(s.index.values(), &exp_index);

    assert_eq!(&s.len(), &3);
    assert_eq!(&s.index.len(), &3);
}

#[test]
fn test_series_slice_by_label() {
    let values: Vec<f64> = vec![1., 2., 3., 4., 5.];
    let index: Vec<i64> = vec![10, 20, 30, 40, 50];

    let mut s = Series::<f64, i64>::new(values, index).unwrap();

    // test construction
    let exp_values: Vec<f64> = vec![1., 2., 3., 4., 5.];
    let exp_index: Vec<i64> = vec![10, 20, 30, 40, 50];
    assert_eq!(&s.values, &exp_values);
    assert_eq!(s.index.values(), &exp_index);

    // test label slice
    let res = s.slice_by_label(&vec![20, 30, 50]).unwrap();

    let exp_values: Vec<f64> = vec![2., 3., 5.];
    let exp_index: Vec<i64> = vec![20, 30, 50];
    assert_eq!(&res.values, &exp_values);
    assert_eq!(res.index.values(), &exp_index);
}

#[test]
fn test_series_slice_by_index() {
    let values: Vec<f64> = vec![1., 2., 3., 4., 5.];
    let index: Vec<i64> = vec![10, 20, 30, 40, 50];

    let s = Series::<f64, i64>::new(values, index).unwrap();

    // test construction
    let exp_values: Vec<f64> = vec![1., 2., 3., 4., 5.];
    let exp_index: Vec<i64> = vec![10, 20, 30, 40, 50];
    assert_eq!(&s.values, &exp_values);
    assert_eq!(s.index.values(), &exp_index);

    // test index slice
    let res = s.slice_by_index(&vec![0, 2, 4]).unwrap();

    let exp_values: Vec<f64> = vec![1., 3., 5.];
    let exp_index: Vec<i64> = vec![10, 30, 50];
    assert_eq!(&res.values, &exp_values);
    assert_eq!(res.index.values(), &exp_index);
}

#[test]
fn test_series_slice_by_bool() {
    let values: Vec<f64> = vec![1., 2., 3., 4., 5.];
    let index: Vec<i64> = vec![10, 20, 30, 40, 50];

    let s = Series::<f64, i64>::new(values, index).unwrap();

    // test construction
    let exp_values: Vec<f64> = vec![1., 2., 3., 4., 5.];
    let exp_index: Vec<i64> = vec![10, 20, 30, 40, 50];
    assert_eq!(&s.values, &exp_values);
    assert_eq!(s.index.values(), &exp_index);

    // test bool slice
    let res = s.slice_by_bool(&vec![true, false, false, true, true]).unwrap();

    let exp_values: Vec<f64> = vec![1., 4., 5.];
    let exp_index: Vec<i64> = vec![10, 40, 50];
    assert_eq!(&res.values, &exp_values);
    assert_eq!(res.index.values(), &exp_index);
}

#[test]
fn test_series_append() {
    let values: Vec<f64> = vec![1., 2., 3., 4., 5.];
    let index: Vec<i64> = vec![10, 20, 30, 40, 50];

    let s1 = Series::<f64, i64>::new(values, index).unwrap();

    let values: Vec<f64> = vec![11., 12., 13., 14., 15.];
    let index: Vec<i64> = vec![110, 120, 130, 140, 150];

    let s2 = Series::<f64, i64>::new(values, index).unwrap();

    let res = s1.append(&s2);
    let exp_values: Vec<f64> = vec![1., 2., 3., 4., 5., 11., 12., 13., 14., 15.];
    let exp_index: Vec<i64> = vec![10, 20, 30, 40, 50, 110, 120, 130, 140, 150];
    assert_eq!(&res.values, &exp_values);
    assert_eq!(res.index.values(), &exp_index);
}

#[test]
fn test_from_vec_int() {
    let s: Series<i64, usize> = Series::from(vec![1, 2, 3]);
    let exp: Series<i64, usize> = Series::new(vec![1, 2, 3], vec![0, 1, 2]).unwrap();
    assert_eq!(s, exp);
}

#[test]
fn test_into_vec_int() {
    let s = Series::<i64, &str>::new(vec![1, 2, 3], vec!["a", "b", "c"]).unwrap();
    let conv: Vec<i64> = s.into();
    assert_eq!(conv, vec![1, 2, 3]);
}

#[test]
fn test_from_vec_str() {
    let s: Series<&str, usize> = Series::from(vec!["a", "b", "c"]);
    let exp: Series<&str, usize> = Series::new(vec!["a", "b", "c"], vec![0, 1, 2]).unwrap();
    assert_eq!(s, exp);
}

#[test]
fn test_into_vec_str() {
    let s = Series::<&str, &str>::new(vec!["a", "b", "c"], vec!["x", "y", "z"]).unwrap();
    let conv: Vec<&str> = s.into();
    assert_eq!(conv, vec!["a", "b", "c"]);
}

#[test]
fn test_series_new_length_mismatch() {
    let r = Series::<i64, i64>::new(vec![1, 2, 3], vec![10, 20]);
    assert_eq!(r.unwrap_err(), Error::LengthMismatch);
}

#[test]
fn test_series_get_by_label_and_index() {
    let mut s = Series::<i64, &str>::new(vec![7, 8, 9, 10], vec!["a", "b", "a", "c"]).unwrap();
    assert_eq!(s.get_by_label(&"a"), Ok(7));
    assert_eq!(s.get_by_label(&"c"), Ok(10));
    assert_eq!(s.get_by_label(&"z"), Err(Error::UnknownLabel));
    assert_eq!(s.get_by_index(&2), Ok(9));
    assert_eq!(s.get_by_index(&4), Err(Error::OutOfBounds));
}

#[test]
fn test_series_slice_errors() {
    let mut s = Series::<i64, i64>::new(vec![1, 2, 3], vec![10, 20, 30]).unwrap();
    assert_eq!(s.slice_by_label(&vec![10, 40]).unwrap_err(), Error::UnknownLabel);
    assert_eq!(s.slice_by_index(&vec![0, 3]).unwrap_err(), Error::OutOfBounds);
    assert_eq!(s.slice_by_bool(&vec![true, false]).unwrap_err(), Error::LengthMismatch);
    // the series is as it was
    assert_eq!(&s.values, &vec![1, 2, 3]);
    assert_eq!(s.index.values(), &vec![10, 20, 30]);
}

#[test]
fn test_series_slice_by_index_repeats_and_reorders() {
    let s = Series::<i64, i64>::new(vec![1, 2, 3], vec![10, 20, 30]).unwrap();
    let res = s.slice_by_index(&vec![2, 0, 2, 2]).unwrap();
    assert_eq!(&res.values, &vec![3, 1, 3, 3]);
    assert_eq!(res.index.values(), &vec![30, 10, 30, 30]);
    let none = s.slice_by_index(&vec![]).unwrap();
    assert_eq!(none.len(), 0);
}

#[test]
fn test_series_copy_and_apply() {
    let s = Series::<i64, i64>::new(vec![4, 5, 6], vec![1, 2, 3]).unwrap();
    let c = s.copy();
    assert_eq!(s, c);
    let first = |v: &Vec<i64>| v[0];
    assert_eq!(s.apply(&first), 4);
}

#[test]
fn test_series_agg_integers() {
    let s = Series::<i64, i64>::new(vec![1, 2, 3, 4, 5], vec![10, 20, 30, 40, 50]).unwrap();
    assert_eq!(&s.sum(), &15);
    assert_eq!(&s.min(), &1);
    assert_eq!(&s.max(), &5);
    assert_eq!(&s.count(), &5);

    let s = Series::<i64, i64>::new(vec![11, 12, 11, 14, 12], vec![10, 20, 30, 40, 50]).unwrap();
    assert_eq!(s.sum(), 60);
    assert_eq!(s.min(), 11);
    assert_eq!(s.max(), 14);

    let d = Series::<i64, i64>::from_vec(vec![1, 2, 3, 4, 5, 6, 7, 8, 9, 10]);
    assert_eq!(d.count(), 10);
    assert_eq!(d.min(), 1);
    assert_eq!(d.max(), 10);
    assert_eq!(d.sum(), 55);

    let u = Series::<usize, i64>::from_vec(vec![3, 0, 9]);
    assert_eq!(u.sum(), 12);
    let e = Series::<i64, i64>::from_vec(vec![]);
    assert_eq!(e.sum(), 0);
}

#[test]
fn test_series_value_counts() {
    let values: Vec<i64> = vec![1, 1, 3, 4, 1, 1, 2, 3];
    let s = Series::<i64, i64>::from_vec(values);

    let d = s.value_counts();
    // every distinct value once, in the order of first occurrence
    let exp_values: Vec<usize> = vec![4, 2, 1, 1];
    let exp_index: Vec<i64> = vec![1, 3, 4, 2];
    assert_eq!(&d.values, &exp_values);
    assert_eq!(d.index.values(), &exp_index);

    let t = Series::<&str, i64>::from_vec(vec!["b", "a", "b", "b"]).value_counts();
    assert_eq!(&t.values, &vec![3, 1]);
    assert_eq!(t.index.values(), &vec!["b", "a"]);

    let e = Series::<i64, i64>::from_vec(vec![]).value_counts();
    assert_eq!(e.len(), 0);
}

#[test]
fn test_series_value_counts_many() {
    let values: Vec<i64> = (0..3000).map(|i| (i * 7919) % 257).collect();
    let s = Series::<i64, usize>::from_vec(values.clone());
    let d = s.value_counts();
    assert_eq!(d.len(), 257);
    let total: usize = d.values.iter().sum();
    assert_eq!(total, 3000);
    for (k, v) in d.index.values().iter().enumerate() {
        assert_eq!(d.values[k], values.iter().filter(|x| *x == v).count());
    }
}

#[test]
fn test_series_take() {
    let s = Series::<i64, i64>::new(vec![1, 2, 3], vec![10, 20, 30]).unwrap();
    let t = s.take(&[1, 1]);
    assert_eq!(&t.values, &vec![2, 2]);
    assert_eq!(t.index.values(), &vec![20, 20]);
}
