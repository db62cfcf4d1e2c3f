use brassfibre::error::Error;
use brassfibre::frame::DataFrame;
use brassfibre::groupby::GroupBy;
use brassfibre::indexer::Indexer;
use brassfibre::series::Series;
use nullvec::prelude::Array;

#[test]
fn test_series_get_group() {
    let values: Vec<f64> = vec![1., 2., 3., 4., 5., 6.];
    let s = Series::<f64, usize>::from_vec(values);

    // Instanciate directly method
    let sg = GroupBy::<Series<f64, usize>, i64>::new(&s, &vec![1, 1, 1, 2, 2, 2]).unwrap();
    assert_eq!(sg.groups().len(), 2);

    let s1 = sg.get_group(&1).unwrap();
    let exp_values: Vec<f64> = vec![1., 2., 3.];
    let exp_index: Indexer<usize> = Indexer::new(vec![0, 1, 2]);
    assert_eq!(s1.values, exp_values);
    assert_eq!(s1.index, exp_index);

    let s2 = sg.get_group(&2).unwrap();
    let exp_values: Vec<f64> = vec![4., 5., 6.];
    let exp_index: Indexer<usize> = Indexer::new(vec![3, 4, 5]);
    assert_eq!(s2.values, exp_values);
    assert_eq!(s2.index, exp_index);
}

#[test]
fn test_series_agg_sum_integer_grouper() {
    let values: Vec<i64> = vec![1, 2, 3, 4, 5];
    let index: Vec<i64> = vec![10, 20, 30, 40, 50];
    let s = Series::<i64, i64>::new(values, index).unwrap();

    let sg = GroupBy::<Series<i64, i64>, i64>::new(&s, &vec![1, 1, 1, 2, 2]).unwrap();
    let sum = sg.sum();

    let exp_values: Vec<i64> = vec![6, 9];
    let exp_index: Indexer<i64> = Indexer::new(vec![1, 2]);
    assert_eq!(sum.values, exp_values);
    assert_eq!(sum.index, exp_index);
}

#[test]
fn test_series_agg_sum_str_grouper() {
    let values: Vec<i64> = vec![1, 2, 3, 4, 5];
    let index: Vec<i64> = vec![10, 20, 30, 40, 50];
    let s = Series::<i64, i64>::new(values, index).unwrap();
    let sg = GroupBy::<Series<i64, i64>, &str>::new(&s, &vec!["A", "A", "A", "B", "B"]).unwrap();
    let sum = sg.sum();

    let exp_values: Vec<i64> = vec![6, 9];
    let exp_index: Indexer<&str> = Indexer::new(vec!["A", "B"]);
    assert_eq!(sum.values, exp_values);
    assert_eq!(sum.index, exp_index);
}

#[test]
fn test_groupby_length_mismatch() {
    let s = Series::<i64, i64>::from_vec(vec![1, 2, 3]);
    assert!(matches!(
        GroupBy::<Series<i64, i64>, i64>::new(&s, &vec![1, 1]),
        Err(Error::LengthMismatch)
    ));
    assert!(matches!(s.groupby(vec![1, 2, 3, 4]), Err(Error::LengthMismatch)));
}

#[test]
fn test_groupby_group_not_found() {
    let s = Series::<i64, i64>::from_vec(vec![1, 2, 3]);
    let sg = s.groupby(vec![5, 6, 5]).unwrap();
    assert_eq!(sg.get_group(&7).unwrap_err(), Error::GroupNotFound);
    assert_eq!(sg.get_group(&5).unwrap().values, vec![1, 3]);
}

#[test]
fn test_groups_are_distinct_and_ascending() {
    let s = Series::<i64, i64>::from_vec(vec![1, 2, 3, 4, 5, 6, 7]);
    let sg = s.groupby(vec![30, -1, 30, 7, -1, 30, 0]).unwrap();
    let groups = sg.groups();
    assert_eq!(groups, vec![-1, 0, 7, 30]);
    let mut rows = 0;
    for g in groups.iter() {
        rows += sg.get_group(g).unwrap().len();
    }
    assert_eq!(rows, 7);
    assert_eq!(sg.grouper.len(), 4);
    assert_eq!(sg.grouper.keys(), vec![30, -1, 7, 0]);

    let texts = s.groupby(vec!["b", "ab", "", "b", "a", "abc", "B"]).unwrap();
    assert_eq!(texts.groups(), vec!["", "B", "a", "ab", "abc", "b"]);
}

#[test]
fn test_group_members_keep_row_order() {
    let s = Series::<i64, &str>::new(vec![5, 6, 7, 8, 9], vec!["e", "d", "c", "b", "a"]).unwrap();
    let sg = s.groupby(vec![2, 1, 2, 1, 2]).unwrap();
    let two = sg.get_group(&2).unwrap();
    assert_eq!(two.values, vec![5, 7, 9]);
    assert_eq!(two.index.values(), &vec!["e", "c", "a"]);
    assert_eq!(sg.grouper.get(&1), Some(vec![1, 3]));
    assert_eq!(sg.grouper.get(&3), None);
}

#[test]
fn test_groupby_apply_and_count() {
    let s = Series::<i64, i64>::from_vec(vec![1, 2, 3, 4, 5]);
    let sg = s.groupby(vec![1, 1, 1, 2, 2]).unwrap();
    let firsts = sg.apply(&|g: &Series<i64, i64>| g.values[0]);
    assert_eq!(firsts.values, vec![1, 4]);
    assert_eq!(firsts.index.values(), &vec![1, 2]);
    let counts = sg.count();
    assert_eq!(counts.values, vec![3, 2]);
    assert_eq!(counts.index.values(), &vec![1, 2]);
}

#[test]
fn test_frame_groupby() {
    let df = DataFrame::from_vec(
        vec![Array::new(vec![1, 2, 3, 4]), Array::new(vec![5., 6., 7., 8.])],
        vec!["a", "b", "c", "d"],
        vec!["X", "Y"],
    )
    .unwrap();
    let g = df.groupby(&vec![2, 1, 2, 1]).unwrap();
    assert_eq!(g.groups(), vec![1, 2]);
    let ones = g.get_group(&1).unwrap();
    let exp = DataFrame::from_vec(
        vec![Array::new(vec![2, 4]), Array::new(vec![6., 8.])],
        vec!["b", "d"],
        vec!["X", "Y"],
    )
    .unwrap();
    assert_eq!(ones, exp);
    assert!(matches!(df.groupby(&vec![1]), Err(Error::LengthMismatch)));
    assert_eq!(g.get_group(&3).unwrap_err(), Error::GroupNotFound);
}

#[test]
fn test_groupby_of_nothing() {
    let s = Series::<i64, i64>::from_vec(vec![]);
    let sg = s.groupby(Vec::<i64>::new()).unwrap();
    assert_eq!(sg.groups(), Vec::<i64>::new());
    assert_eq!(sg.sum().len(), 0);
    assert_eq!(sg.get_group(&1).unwrap_err(), Error::GroupNotFound);
}
