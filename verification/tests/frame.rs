use brassfibre::error::Error;
use brassfibre::frame::DataFrame;
use nullvec::prelude::{Array, NullVec, Scalar};
use std::rc::Rc;

#[test]
fn test_block_creation_from_vec() {
    let values = vec![
        Array::new(vec![1, 2, 3, 4, 5]),
        Array::new(vec![6., 7., 8., 9., 10.]),
        Array::new(vec![11, 12, 13, 14, 15]),
    ];
    let df = DataFrame::from_vec(
        values,
        vec!["A", "BB", "CC", "D", "EEE"],
        vec!["X", "YYY", "ZZ"],
    )
    .unwrap();
    assert_eq!(df.len(), 5);
}

#[test]
fn test_block_add_columns() {
    let values = vec![Array::new(vec![1, 2, 3]), Array::new(vec![4., 5., 6.])];
    let mut df = DataFrame::from_vec(values, vec!["A", "BB", "CC"], vec!["X", "Y"]).unwrap();
    assert_eq!(df.len(), 3);
    df.insert(Array::new(vec![10, 11, 12]), "Z").unwrap();

    let exp_values = vec![
        Array::new(vec![1, 2, 3]),
        Array::new(vec![4., 5., 6.]),
        Array::new(vec![10, 11, 12]),
    ];
    let exp = DataFrame::from_vec(exp_values, vec!["A", "BB", "CC"], vec!["X", "Y", "Z"]).unwrap();
    assert_eq!(df.values, exp.values);
    assert_eq!(df.index, exp.index);
    assert_eq!(df.columns, exp.columns);
}

#[test]
fn test_block_slice_locs() {
    let values = vec![
        Array::new(vec![1, 2, 3, 4, 5]),
        Array::new(vec![6., 7., 8., 9., 10.]),
        Array::new(vec![11, 12, 13, 14, 15]),
    ];
    let df = DataFrame::from_vec(
        values,
        vec!["A", "BB", "CC", "D", "EEE"],
        vec!["X", "YYY", "ZZ"],
    )
    .unwrap();
    assert_eq!(df.len(), 5);

    let res = df.locs(&vec!["A", "D", "CC"]).unwrap();
    let exp_values = vec![
        Array::new(vec![1, 4, 3]),
        Array::new(vec![6., 9., 8.]),
        Array::new(vec![11, 14, 13]),
    ];
    let exp = DataFrame::from_vec(exp_values, vec!["A", "D", "CC"], vec!["X", "YYY", "ZZ"]).unwrap();
    assert_eq!(res.values, exp.values);
    assert_eq!(res.index, exp.index);
    assert_eq!(res.columns, exp.columns);
}

#[test]
fn test_block_slice_ilocs() {
    let values = vec![
        Array::new(vec![1, 2, 3, 4, 5]),
        Array::new(vec![6., 7., 8., 9., 10.]),
        Array::new(vec![11, 12, 13, 14, 15]),
    ];
    let df = DataFrame::from_vec(
        values,
        vec!["A", "BB", "CC", "D", "EEE"],
        vec!["X", "YYY", "ZZ"],
    )
    .unwrap();
    assert_eq!(df.len(), 5);

    let res = df.ilocs(&vec![0, 3, 2]).unwrap();
    let exp_values = vec![
        Array::new(vec![1, 4, 3]),
        Array::new(vec![6., 9., 8.]),
        Array::new(vec![11, 14, 13]),
    ];
    let exp = DataFrame::from_vec(exp_values, vec!["A", "D", "CC"], vec!["X", "YYY", "ZZ"]).unwrap();
    assert_eq!(res.values, exp.values);
    assert_eq!(res.index, exp.index);
    assert_eq!(res.columns, exp.columns);
}

#[test]
fn test_block_columns_slice() {
    let values = vec![
        Array::new(vec![1, 2, 3, 4, 5]),
        Array::new(vec![6., 7., 8., 9., 10.]),
        Array::new(vec![11, 12, 13, 14, 15]),
    ];
    let b = DataFrame::from_vec(
        values,
        vec!["A", "BB", "CC", "D", "EEE"],
        vec!["X", "YYY", "ZZ"],
    )
    .unwrap();

    let exp_values = vec![
        Array::new(vec![6., 7., 8., 9., 10.]),
        Array::new(vec![1, 2, 3, 4, 5]),
    ];
    let exp = DataFrame::from_vec(
        exp_values,
        vec!["A", "BB", "CC", "D", "EEE"],
        vec!["YYY", "X"],
    )
    .unwrap();
    let res = b.gets(&vec!["YYY", "X"]).unwrap();
    assert_eq!(res.values, exp.values);
    assert_eq!(res.index, exp.index);
    assert_eq!(res.columns, exp.columns);

    let res = b.igets(&vec![1, 0]).unwrap();
    assert_eq!(res.values, exp.values);
    assert_eq!(res.index, exp.index);
    assert_eq!(res.columns, exp.columns);
}

fn arrays<I: brassfibre::label::Label, C: brassfibre::label::Label>(
    df: &DataFrame<I, C>,
) -> Vec<Array> {
    df.values.iter().map(|a| (**a).clone()).collect()
}

fn sample() -> DataFrame<&'static str, &'static str> {
    let values = vec![
        Array::new(vec![1i64, 2, 3]),
        Array::new(vec![4., 5., 6.]),
        Array::new(vec!["a", "b", "c"]),
        Array::new(vec![true, false, true]),
    ];
    DataFrame::from_vec(values, vec!["r0", "r1", "r2"], vec!["n", "x", "s", "b"]).unwrap()
}

#[test]
fn test_frame_from_vec_length_mismatch() {
    let r = DataFrame::from_vec(
        vec![Array::new(vec![1, 2, 3])],
        vec!["a", "b", "c"],
        vec!["X", "Y"],
    );
    assert_eq!(r.unwrap_err(), Error::LengthMismatch);
    let r = DataFrame::from_vec(
        vec![Array::new(vec![1, 2, 3]), Array::new(vec![1, 2])],
        vec!["a", "b", "c"],
        vec!["X", "Y"],
    );
    assert_eq!(r.unwrap_err(), Error::LengthMismatch);
}

#[test]
fn test_frame_insert_length_mismatch_changes_nothing() {
    let mut df = sample();
    let before = sample();
    let r = df.insert(Array::new(vec![1, 2]), "short");
    assert_eq!(r, Err(Error::LengthMismatch));
    assert_eq!(df, before);
}

#[test]
fn test_frame_slice_errors() {
    let df = sample();
    assert_eq!(df.ilocs(&vec![0, 3]).unwrap_err(), Error::OutOfBounds);
    assert_eq!(df.igets(&vec![4]).unwrap_err(), Error::OutOfBounds);
    assert_eq!(df.locs(&vec!["r0", "r9"]).unwrap_err(), Error::UnknownLabel);
    assert_eq!(df.gets(&vec!["q"]).unwrap_err(), Error::UnknownLabel);
    assert_eq!(df.reindex(&vec!["zz"]).unwrap_err(), Error::UnknownLabel);
    assert_eq!(df.reindex_by_index(&vec![7]).unwrap_err(), Error::OutOfBounds);
}

#[test]
fn test_frame_igets_all_columns_is_identity() {
    let df = sample();
    let all = df.igets(&vec![0, 1, 2, 3]).unwrap();
    assert_eq!(all, df);
    assert!(all.equals(&df));
}

#[test]
fn test_frame_rows_repeat_and_reorder() {
    let df = sample();
    let res = df.reindex_by_index(&vec![2, 2, 0]).unwrap();
    assert_eq!(res.len(), 3);
    let exp = DataFrame::from_vec(
        vec![
            Array::new(vec![3i64, 3, 1]),
            Array::new(vec![6., 6., 4.]),
            Array::new(vec!["c", "c", "a"]),
            Array::new(vec![true, true, true]),
        ],
        vec!["r2", "r2", "r0"],
        vec!["n", "x", "s", "b"],
    )
    .unwrap();
    assert_eq!(res, exp);
    // the source is as it was
    assert_eq!(df, sample());
}

#[test]
fn test_frame_duplicate_labels_resolve_to_first() {
    let df = DataFrame::from_vec(
        vec![Array::new(vec![1, 2, 3])],
        vec!["a", "b", "a"],
        vec!["X"],
    )
    .unwrap();
    let res = df.locs(&vec!["a", "b", "a"]).unwrap();
    assert_eq!(arrays(&res), vec![Array::new(vec![1, 2, 1])]);
    assert_eq!(res.index.values(), &vec!["a", "b", "a"]);
}

#[test]
fn test_frame_dtypes_and_numeric() {
    let df = sample();
    assert_eq!(df.dtypes(), vec!["i64", "f64", "str", "bool"]);
    assert_eq!(df.is_numeric(), vec![true, true, false, false]);
    let num = df.get_numeric_data();
    assert_eq!(num.columns.values(), &vec!["n", "x"]);
    assert_eq!(arrays(&num), vec![Array::new(vec![1i64, 2, 3]), Array::new(vec![4., 5., 6.])]);
    assert_eq!(num.index, df.index);
    assert_eq!(df.iter().count(), 4);
}

#[test]
fn test_frame_append() {
    let a = DataFrame::from_vec(
        vec![Array::new(vec![1, 2]), Array::new(vec![3., 4.])],
        vec!["p", "q"],
        vec!["X", "Y"],
    )
    .unwrap();
    let b = DataFrame::from_vec(
        vec![Array::new(vec![5, 6, 7]), Array::new(vec![8., 9., 10.])],
        vec!["r", "p", "s"],
        vec!["X", "Y"],
    )
    .unwrap();
    let res = a.append(&b).unwrap();
    assert_eq!(res.index.values(), &vec!["p", "q", "r", "p", "s"]);
    assert_eq!(res.columns.values(), &vec!["X", "Y"]);
    let got: Vec<Vec<Scalar>> = arrays(&res).into_iter().map(|c| c.into()).collect();
    let exp: Vec<Vec<Scalar>> = vec![
        Array::new(vec![1, 2, 5, 6, 7]).into(),
        Array::new(vec![3., 4., 8., 9., 10.]).into(),
    ];
    assert_eq!(got, exp);
}

#[test]
fn test_frame_append_keeps_nulls_of_the_lower_table() {
    let a = DataFrame::from_vec(vec![Array::new(vec![1., 2., 3.])], vec![1, 2, 3], vec!["X"])
        .unwrap();
    let b = DataFrame::from_vec(vec![Array::new(vec![f64::NAN, 5.])], vec![4, 5], vec!["X"])
        .unwrap();
    let res = a.append(&b).unwrap();
    let got: Vec<Scalar> = (*res.values[0]).clone().into();
    let exp = vec![
        Scalar::f64(1.),
        Scalar::f64(2.),
        Scalar::f64(3.),
        Scalar::Null,
        Scalar::f64(5.),
    ];
    assert_eq!(got, exp);
    assert_eq!(res.len(), 5);
}

#[test]
fn test_frame_append_columns_differ() {
    let a = DataFrame::from_vec(vec![Array::new(vec![1, 2])], vec!["p", "q"], vec!["X"]).unwrap();
    let b = DataFrame::from_vec(vec![Array::new(vec![3, 4])], vec!["r", "s"], vec!["Y"]).unwrap();
    let a_before = a.clone();
    let b_before = b.clone();
    assert_eq!(a.append(&b).unwrap_err(), Error::ColumnsDiffer);
    // both are usable and as they were
    assert_eq!(a, a_before);
    assert_eq!(b, b_before);
    assert_eq!(arrays(&a.ilocs(&vec![1]).unwrap()), vec![Array::new(vec![2])]);
    assert_eq!(arrays(&b.ilocs(&vec![0]).unwrap()), vec![Array::new(vec![3])]);

    // the same labels over arrays of another kind differ too
    let c = DataFrame::from_vec(vec![Array::new(vec![3., 4.])], vec!["r", "s"], vec!["X"]).unwrap();
    assert_eq!(a.append(&c).unwrap_err(), Error::ColumnsDiffer);
}

#[test]
fn test_frame_concat() {
    let a = DataFrame::from_vec(vec![Array::new(vec![1, 2])], vec!["p", "q"], vec!["X"]).unwrap();
    let b = DataFrame::from_vec(
        vec![Array::new(vec![3., 4.]), Array::new(vec![5, 6])],
        vec!["p", "q"],
        vec!["Y", "X"],
    )
    .unwrap();
    let res = a.concat(&b).unwrap();
    let exp = DataFrame::from_vec(
        vec![Array::new(vec![1, 2]), Array::new(vec![3., 4.]), Array::new(vec![5, 6])],
        vec!["p", "q"],
        vec!["X", "Y", "X"],
    )
    .unwrap();
    assert_eq!(res, exp);

    let c = DataFrame::from_vec(vec![Array::new(vec![3, 4])], vec!["p", "z"], vec!["Y"]).unwrap();
    assert_eq!(a.concat(&c).unwrap_err(), Error::IndexDiffer);
}

#[test]
fn test_frame_join_inner() {
    let a = DataFrame::from_vec(
        vec![Array::new(vec![1, 2, 3, 4])],
        vec!["k", "m", "k", "z"],
        vec!["A"],
    )
    .unwrap();
    let b = DataFrame::from_vec(
        vec![Array::new(vec![10, 20, 30, 40])],
        vec!["m", "k", "w", "k"],
        vec!["B"],
    )
    .unwrap();
    let res = a.join_inner(&b);
    // k has 2 x 2 pairs, m has 1 x 1
    assert_eq!(res.len(), 5);
    let exp = DataFrame::from_vec(
        vec![Array::new(vec![1, 1, 2, 3, 3]), Array::new(vec![20, 40, 10, 20, 40])],
        vec!["k", "k", "m", "k", "k"],
        vec!["A", "B"],
    )
    .unwrap();
    assert_eq!(res, exp);

    let none = DataFrame::from_vec(vec![Array::new(vec![7])], vec!["q"], vec!["B"]).unwrap();
    let empty = a.join_inner(&none);
    assert_eq!(empty.len(), 0);
    assert_eq!(empty.columns.values(), &vec!["A", "B"]);
}

#[test]
fn test_frame_refuses_mask_of_another_length() {
    let short = NullVec::with_mask(vec![1i64, 2, 3], Some(vec![true]));
    let r = DataFrame::from_vec(vec![Array::new(short)], vec!["a", "b", "c"], vec!["X"]);
    assert_eq!(r.unwrap_err(), Error::LengthMismatch);

    let long = NullVec::with_mask(
        vec![1i64, 2, 3],
        Some(vec![true, false, false, false]),
    );
    let mut df = sample();
    assert_eq!(df.insert(Array::new(long), "Z"), Err(Error::LengthMismatch));
    assert_eq!(df, sample());

    let good = NullVec::with_mask(vec![1i64, 2, 3], Some(vec![true, false, false]));
    assert_eq!(df.insert(Array::new(good), "Z"), Ok(()));
    assert_eq!(df.columns.values(), &vec!["n", "x", "s", "b", "Z"]);
}

#[test]
fn test_frame_append_with_masks_on_either_side() {
    let masked = |flags: Vec<bool>| {
        Array::new(NullVec::with_mask(vec![1i64, 2], Some(flags)))
    };
    let plain = || Array::new(vec![7i64, 8, 9]);
    let cells = |a: &Rc<Array>| -> Vec<Scalar> { (**a).clone().into() };
    let null = Scalar::Null;
    let int = |v: i64| Scalar::i64(v);

    let top = DataFrame::from_vec(vec![masked(vec![false, true])], vec![1, 2], vec!["X"]).unwrap();
    let low = DataFrame::from_vec(vec![plain()], vec![3, 4, 5], vec!["X"]).unwrap();

    let one = top.append(&low).unwrap();
    assert_eq!(cells(&one.values[0]), vec![int(1), null.clone(), int(7), int(8), int(9)]);

    let two = low.append(&top).unwrap();
    assert_eq!(cells(&two.values[0]), vec![int(7), int(8), int(9), int(1), null.clone()]);
    assert_eq!(two.index.values(), &vec![3, 4, 5, 1, 2]);

    let three = top.append(&top).unwrap();
    assert_eq!(cells(&three.values[0]), vec![int(1), null.clone(), int(1), null.clone()]);

    // what comes out can be sliced and appended again
    let again = two.append(&one).unwrap().ilocs(&vec![9, 4, 0]).unwrap();
    assert_eq!(cells(&again.values[0]), vec![int(9), null, int(7)]);
}

#[test]
fn test_frame_take_rows_and_columns() {
    let df = sample();
    let rows = df.take_rows(&[1]);
    assert_eq!(rows.index.values(), &vec!["r1"]);
    let cols = df.take_columns(&[3, 0]);
    assert_eq!(cols.columns.values(), &vec!["b", "n"]);
    assert_eq!(
        arrays(&cols),
        vec![Array::new(vec![true, false, true]), Array::new(vec![1i64, 2, 3])]
    );
    let it: Vec<Rc<Array>> = df.into_iter().collect();
    assert_eq!(it.len(), 4);
}

#[test]
fn test_frame_slices_share_what_they_leave_alone() {
    let df = sample();
    let cols = df.igets(&vec![3, 0]).unwrap();
    // the row labels and the arrays are those of the source, not copies
    assert!(Rc::ptr_eq(&cols.index, &df.index));
    assert!(Rc::ptr_eq(&cols.values[0], &df.values[3]));
    assert!(Rc::ptr_eq(&cols.values[1], &df.values[0]));

    let rows = df.ilocs(&vec![2, 0]).unwrap();
    assert!(Rc::ptr_eq(&rows.columns, &df.columns));
    assert!(!Rc::ptr_eq(&rows.index, &df.index));
}

#[test]
fn test_frame_insert_copies_before_it_writes() {
    let df = sample();
    let mut view = df.ilocs(&vec![0, 1, 2]).unwrap();
    assert!(Rc::ptr_eq(&view.columns, &df.columns));
    view.insert(Array::new(vec![7i64, 8, 9]), "extra").unwrap();
    // the view has its own column labels now; the source has not changed
    assert!(!Rc::ptr_eq(&view.columns, &df.columns));
    assert_eq!(view.columns.values(), &vec!["n", "x", "s", "b", "extra"]);
    assert_eq!(df, sample());
    assert_eq!(df.columns.values(), &vec!["n", "x", "s", "b"]);

    // a table that shares nothing changes in place
    let mut own = sample();
    let before = Rc::as_ptr(&own.index);
    own.insert(Array::new(vec![1i64, 1, 1]), "one").unwrap();
    assert_eq!(Rc::as_ptr(&own.index), before);
    assert_eq!(own.values.len(), 5);

    let copy = own.clone();
    assert!(Rc::ptr_eq(&copy.values[4], &own.values[4]));
    own.insert(Array::new(vec![2i64, 2, 2]), "two").unwrap();
    assert_eq!(copy.values.len(), 5);
    assert_eq!(copy.columns.len(), 5);
    assert_eq!(own.columns.len(), 6);
}

#[test]
fn test_frame_without_columns_or_rows() {
    let none: Vec<Array> = vec![];
    let df = DataFrame::from_vec(none, vec![1, 2, 3], Vec::<&str>::new()).unwrap();
    assert_eq!(df.len(), 3);
    assert_eq!(df.ilocs(&vec![2, 2]).unwrap().len(), 2);
    assert_eq!(df.get_numeric_data().values.len(), 0);

    let empty = DataFrame::from_vec(
        vec![Array::new(Vec::<i64>::new())],
        Vec::<i64>::new(),
        vec!["X"],
    )
    .unwrap();
    assert_eq!(empty.len(), 0);
    assert_eq!(empty.ilocs(&vec![]).unwrap(), empty);
    assert_eq!(empty.ilocs(&vec![0]).unwrap_err(), Error::OutOfBounds);
    assert_eq!(empty.append(&empty).unwrap().len(), 0);
}

#[test]
fn test_frame_join_keeps_colliding_column_labels() {
    let a = DataFrame::from_vec(vec![Array::new(vec![1, 2])], vec!["p", "q"], vec!["X"]).unwrap();
    let b = DataFrame::from_vec(vec![Array::new(vec![3, 4])], vec!["q", "p"], vec!["X"]).unwrap();
    let res = a.join_inner(&b);
    assert_eq!(res.columns.values(), &vec!["X", "X"]);
    assert_eq!(res.index.values(), &vec!["p", "q"]);
    assert_eq!(arrays(&res), vec![Array::new(vec![1, 2]), Array::new(vec![4, 3])]);
    // a lookup by the colliding label answers with the first column
    assert_eq!(arrays(&res.gets(&vec!["X"]).unwrap()), vec![Array::new(vec![1, 2])]);
}
