use brassfibre::series::Series;

#[test]
fn test_series_ops_i64_broadcast() {
    let s = Series::<i64, i64>::new(vec![1, 2, 3], vec![10, 20, 30]).unwrap();
    // s moves by ops
    let result = s + 3;
    assert_eq!(&result.values, &vec![4, 5, 6]);
    assert_eq!(result.index.values(), &vec![10, 20, 30]);

    let s = Series::<i64, i64>::new(vec![1, 2, 3], vec![10, 20, 30]).unwrap();
    let result = s * 2;
    assert_eq!(&result.values, &vec![2, 4, 6]);
    assert_eq!(result.index.values(), &vec![10, 20, 30]);

    let s = Series::<i64, i64>::new(vec![1, 2, 3], vec![10, 20, 30]).unwrap();
    let result = s - 3;
    assert_eq!(&result.values, &vec![-2, -1, 0]);
    assert_eq!(result.index.values(), &vec![10, 20, 30]);

    let s = Series::<i64, i64>::new(vec![1, 2, 3], vec![10, 20, 30]).unwrap();
    let result = s / 2;
    assert_eq!(&result.values, &vec![0, 1, 1]);
    assert_eq!(result.index.values(), &vec![10, 20, 30]);

    let s = Series::<i64, i64>::new(vec![1, 2, 3], vec![10, 20, 30]).unwrap();
    let result = s % 2;
    assert_eq!(&result.values, &vec![1, 0, 1]);
    assert_eq!(result.index.values(), &vec![10, 20, 30]);
}

#[test]
fn test_series_ops_f64_broadcast() {
    let s = Series::<f64, i64>::new(vec![1., 2., 3.], vec![10, 20, 30]).unwrap();
    // s moves by ops
    let result = s + 3.;
    assert_eq!(&result.values, &vec![4., 5., 6.]);
    assert_eq!(result.index.values(), &vec![10, 20, 30]);

    let s = Series::<f64, i64>::new(vec![1., 2., 3.], vec![10, 20, 30]).unwrap();
    let result = s * 2.;
    assert_eq!(&result.values, &vec![2., 4., 6.]);
    assert_eq!(result.index.values(), &vec![10, 20, 30]);

    let s = Series::<f64, i64>::new(vec![1., 2., 3.], vec![10, 20, 30]).unwrap();
    let result = s - 3.;
    assert_eq!(&result.values, &vec![-2., -1., 0.]);
    assert_eq!(result.index.values(), &vec![10, 20, 30]);

    let s = Series::<f64, i64>::new(vec![1., 2., 3.], vec![10, 20, 30]).unwrap();
    let result = s / 2.;
    assert_eq!(&result.values, &vec![0.5, 1., 1.5]);
    assert_eq!(result.index.values(), &vec![10, 20, 30]);

    let s = Series::<f64, i64>::new(vec![1., 2., 3.], vec![10, 20, 30]).unwrap();
    let result = s % 2.;
    assert_eq!(&result.values, &vec![1., 0., 1.]);
    assert_eq!(result.index.values(), &vec![10, 20, 30]);
}

#[test]
fn test_series_ops_i64_elemwise() {
    let s = Series::<i64, i64>::new(vec![1, 2, 3], vec![10, 20, 30]).unwrap();
    let r = Series::<i64, i64>::new(vec![1, 3, 2], vec![10, 20, 30]).unwrap();
    // s moves by ops
    let result = s + r;
    assert_eq!(&result.values, &vec![2, 5, 5]);
    assert_eq!(result.index.values(), &vec![10, 20, 30]);

    let s = Series::<i64, i64>::new(vec![1, 2, 3], vec![10, 20, 30]).unwrap();
    let r = Series::<i64, i64>::new(vec![1, 3, 2], vec![10, 20, 30]).unwrap();
    let result = s * r;
    assert_eq!(&result.values, &vec![1, 6, 6]);
    assert_eq!(result.index.values(), &vec![10, 20, 30]);

    let s = Series::<i64, i64>::new(vec![1, 2, 3], vec![10, 20, 30]).unwrap();
    let r = Series::<i64, i64>::new(vec![1, 3, 2], vec![10, 20, 30]).unwrap();
    let result = s - r;
    assert_eq!(&result.values, &vec![0, -1, 1]);
    assert_eq!(result.index.values(), &vec![10, 20, 30]);

    let s = Series::<i64, i64>::new(vec![1, 2, 3], vec![10, 20, 30]).unwrap();
    let r = Series::<i64, i64>::new(vec![1, 3, 2], vec![10, 20, 30]).unwrap();
    let result = s / r;
    assert_eq!(&result.values, &vec![1, 0, 1]);
    assert_eq!(result.index.values(), &vec![10, 20, 30]);

    let s = Series::<i64, i64>::new(vec![1, 2, 3], vec![10, 20, 30]).unwrap();
    let r = Series::<i64, i64>::new(vec![1, 3, 2], vec![10, 20, 30]).unwrap();
    let result = s % r;
    assert_eq!(&result.values, &vec![0, 2, 1]);
    assert_eq!(result.index.values(), &vec![10, 20, 30]);
}

#[test]
fn test_series_ops_f64_elemwise() {
    let s = Series::<f64, i64>::new(vec![1., 2., 3.], vec![10, 20, 30]).unwrap();
    let r = Series::<f64, i64>::new(vec![1., 3., 2.], vec![10, 20, 30]).unwrap();
    // s moves by ops
    let result = s + r;
    assert_eq!(&result.values, &vec![2., 5., 5.]);
    assert_eq!(result.index.values(), &vec![10, 20, 30]);

    let s = Series::<f64, i64>::new(vec![1., 2., 3.], vec![10, 20, 30]).unwrap();
    let r = Series::<f64, i64>::new(vec![1., 3., 2.], vec![10, 20, 30]).unwrap();
    let result = s * r;
    assert_eq!(&result.values, &vec![1., 6., 6.]);
    assert_eq!(result.index.values(), &vec![10, 20, 30]);

    let s = Series::<f64, i64>::new(vec![1., 2., 3.], vec![10, 20, 30]).unwrap();
    let r = Series::<f64, i64>::new(vec![1., 3., 2.], vec![10, 20, 30]).unwrap();
    let result = s - r;
    assert_eq!(&result.values, &vec![0., -1., 1.]);
    assert_eq!(result.index.values(), &vec![10, 20, 30]);

    let s = Series::<f64, i64>::new(vec![1., 2., 3.], vec![10, 20, 30]).unwrap();
    let r = Series::<f64, i64>::new(vec![1., 3., 2.], vec![10, 20, 30]).unwrap();
    let result = s / r;
    assert_eq!(&result.values, &vec![1., 0.6666666666666666, 1.5]);
    assert_eq!(result.index.values(), &vec![10, 20, 30]);

    let s = Series::<f64, i64>::new(vec![1., 2., 3.], vec![10, 20, 30]).unwrap();
    let r = Series::<f64, i64>::new(vec![1., 3., 2.], vec![10, 20, 30]).unwrap();
    let result = s % r;
    assert_eq!(&result.values, &vec![0., 2., 1.]);
    assert_eq!(result.index.values(), &vec![10, 20, 30]);
}
