//! Tables: what a table is, how it is made, cut by rows and by columns, and
//! given a new column.

use nullvec::prelude::Array;
use std::rc::Rc;
use vstd::prelude::*;
use crate::column::{
    array_cells, array_dtype, array_dtype_name, array_eq, array_gather, array_intact,
    array_is_numeric, array_len, array_null_flags, arrays_equal, dtype_is_numeric, Cell,
};
use crate::error::Error;
use crate::groupby::GroupBy;
use crate::indexer::{all_known, first_positions, views, Indexer};
use crate::label::Label;
use crate::share::{into_owned, share};
use crate::positions::{
    gather, in_bounds, lemma_positions_of, lemma_positions_of_push, positions_fit, positions_of,
};
use crate::traits::RowIndex;

verus! {

/// What a table is: its row labels, its column labels, and for each column
/// its kind and its cells, one per row.
#[verifier::ext_equal]
pub struct Table<R, C> {
    pub index: Seq<R>,
    pub columns: Seq<C>,
    pub dtypes: Seq<Seq<char>>,
    pub cells: Seq<Seq<Cell>>,
}

impl<R, C> Table<R, C> {
    /// There is one kind and one list of cells per column label, and every
    /// column has one cell per row label.
    pub open spec fn well_formed(self) -> bool {
        &&& self.dtypes.len() == self.columns.len()
        &&& self.cells.len() == self.columns.len()
        &&& forall|c: int|
            0 <= c < self.cells.len() ==> (#[trigger] self.cells[c]).len() == self.index.len()
    }

    /// The rows at `locs`, in that order, of every column.
    pub open spec fn take_rows(self, locs: Seq<usize>) -> Self {
        Table {
            index: gather(self.index, locs),
            columns: self.columns,
            dtypes: self.dtypes,
            cells: Seq::new(self.cells.len(), |c: int| gather(self.cells[c], locs)),
        }
    }

    /// The columns at `locs`, in that order, each whole.
    pub open spec fn take_columns(self, locs: Seq<usize>) -> Self {
        Table {
            index: self.index,
            columns: gather(self.columns, locs),
            dtypes: gather(self.dtypes, locs),
            cells: gather(self.cells, locs),
        }
    }

    /// The table with one more column at the end.
    pub open spec fn with_column(self, name: C, dtype: Seq<char>, cells: Seq<Cell>) -> Self {
        Table {
            index: self.index,
            columns: self.columns.push(name),
            dtypes: self.dtypes.push(dtype),
            cells: self.cells.push(cells),
        }
    }
}

/// The kinds of a list of arrays.
pub open spec fn dtypes_of(values: Seq<Rc<Array>>) -> Seq<Seq<char>> {
    Seq::new(values.len(), |c: int| array_dtype(*values[c]))
}

/// The cells of a list of arrays.
pub open spec fn cells_of(values: Seq<Rc<Array>>) -> Seq<Seq<Cell>> {
    Seq::new(values.len(), |c: int| array_cells(*values[c]))
}

/// Whether every one of `values` is intact and has `rows` rows.
pub open spec fn columns_fit(values: Seq<Rc<Array>>, rows: nat) -> bool {
    forall|c: int|
        0 <= c < values.len() ==> array_intact(*#[trigger] values[c]) && array_cells(
            *values[c],
        ).len() == rows
}

/// Whether every one of `values` is intact and has `rows` rows.
pub open spec fn arrays_fit(values: Seq<Array>, rows: nat) -> bool {
    forall|c: int|
        0 <= c < values.len() ==> array_intact(#[trigger] values[c]) && array_cells(
            values[c],
        ).len() == rows
}

/// A table: labelled rows, labelled columns, and one array per column, each
/// with one cell per row.
///
/// The row labels, the column labels and every array are held by shared
/// handles. A table that is cut from another shares with it what the cut
/// leaves as it is; a table that is changed first takes a copy of its own
/// of what it shares, so that no other table sees the change.
#[derive(Debug)]
pub struct DataFrame<I: Label, C: Label> {
    pub values: Vec<Rc<Array>>,
    pub index: Rc<Indexer<I>>,
    pub columns: Rc<Indexer<C>>,
}

impl<I: Label, C: Label> View for DataFrame<I, C> {
    type V = Table<I::V, C::V>;

    open spec fn view(&self) -> Table<I::V, C::V> {
        Table {
            index: self.index@,
            columns: self.columns@,
            dtypes: dtypes_of(self.values@),
            cells: cells_of(self.values@),
        }
    }
}

impl<I: Label, C: Label> DataFrame<I, C> {
    /// Both label sequences have their tables, there is one array per column
    /// label, and every array is intact and has one cell per row label.
    pub open spec fn wf(&self) -> bool {
        &&& self.index.wf()
        &&& self.columns.wf()
        &&& self.values@.len() == self.columns@.len()
        &&& columns_fit(self.values@, self.index@.len())
    }

    /// A table of `values`, one array per label of `columns`, each with one
    /// cell per label of `index` and, if it has a null mask, one flag per
    /// cell.
    pub fn from_vec(values: Vec<Array>, index: Vec<I>, columns: Vec<C>) -> (r: Result<Self, Error>)
        ensures
            match r {
                Ok(df) => {
                    &&& values@.len() == columns@.len()
                    &&& arrays_fit(values@, index@.len())
                    &&& df.wf()
                    &&& df.values@.len() == values@.len()
                    &&& forall|c: int|
                        0 <= c < values@.len() ==> *(#[trigger] df.values@[c]) == values@[c]
                    &&& df.index@ == views(index@)
                    &&& df.columns@ == views(columns@)
                },
                Err(e) => e == Error::LengthMismatch && !(values@.len() == columns@.len()
                    && arrays_fit(values@, index@.len())),
            },
    {
        if values.len() != columns.len() {
            return Err(Error::LengthMismatch);
        }
        let rows = index.len();
        let ghost given = values@;
        let mut held: Vec<Rc<Array>> = Vec::with_capacity(values.len());
        for a in it: values
            invariant
                rows == index@.len(),
                it.seq() == given,
                held@.len() == it.index(),
                forall|j: int| 0 <= j < held@.len() ==> *(#[trigger] held@[j]) == given[j],
                columns_fit(held@, rows as nat),
        {
            if !array_fits(&a, rows) {
                assert(!arrays_fit(given, rows as nat)) by {
                    assert(!(array_intact(given[held@.len() as int]) && array_cells(
                        given[held@.len() as int],
                    ).len() == rows));
                }
                return Err(Error::LengthMismatch);
            }
            held.push(Rc::new(a));
        }
        proof {
            assert forall|c: int| 0 <= c < given.len() implies array_intact(#[trigger] given[c])
                && array_cells(given[c]).len() == rows by {
                assert(*held@[c] == given[c]);
            }
        }
        let df = DataFrame {
            values: held,
            index: Rc::new(Indexer::new(index)),
            columns: Rc::new(Indexer::new(columns)),
        };
        Ok(df)
    }

    /// The number of rows.
    pub fn len(&self) -> (n: usize)
        ensures
            n == self@.index.len(),
    {
        self.index.len()
    }

    /// The rows at `locations`, in that order; a row may be taken several
    /// times. Every column is gathered at the same positions.
    pub fn reindex_by_index(&self, locations: &[usize]) -> (r: Result<Self, Error>)
        requires
            self.wf(),
        ensures
            match r {
                Ok(out) => {
                    &&& in_bounds(locations@, self@.index.len())
                    &&& out.wf()
                    &&& out@ == self@.take_rows(locations@)
                },
                Err(e) => e == Error::OutOfBounds && !in_bounds(locations@, self@.index.len()),
            },
    {
        if positions_fit(locations, self.index.len()) {
            Ok(self.take_rows(locations))
        } else {
            Err(Error::OutOfBounds)
        }
    }

    /// The rows at `locations`, which all point into the rows. The result
    /// shares the column labels with `self`.
    pub fn take_rows(&self, locations: &[usize]) -> (out: Self)
        requires
            self.wf(),
            in_bounds(locations@, self@.index.len()),
        ensures
            out.wf(),
            out@ == self@.take_rows(locations@),
    {
        let new_index = self.index.take(locations);
        let mut new_values: Vec<Rc<Array>> = Vec::with_capacity(self.values.len());
        let mut c: usize = 0;
        while c < self.values.len()
            invariant
                c <= self.values@.len(),
                self.wf(),
                in_bounds(locations@, self@.index.len()),
                new_values@.len() == c,
                forall|j: int|
                    0 <= j < c ==> {
                        &&& array_intact(*#[trigger] new_values@[j])
                        &&& array_cells(*new_values@[j]) == gather(
                            array_cells(*self.values@[j]),
                            locations@,
                        )
                        &&& array_dtype(*new_values@[j]) == array_dtype(*self.values@[j])
                    },
            decreases self.values.len() - c,
        {
            assert(array_intact(*self.values@[c as int]));
            new_values.push(Rc::new(array_gather(&self.values[c], locations)));
            c = c + 1;
        }
        let out = DataFrame {
            values: new_values,
            index: Rc::new(new_index),
            columns: share(&self.columns),
        };
        proof {
            assert(out@.cells =~= self@.take_rows(locations@).cells);
            assert(out@.dtypes =~= self@.take_rows(locations@).dtypes);
            assert(out@ =~= self@.take_rows(locations@));
        }
        out
    }

    /// As `reindex_by_index`.
    pub fn ilocs(&self, locations: &[usize]) -> (r: Result<Self, Error>)
        requires
            self.wf(),
        ensures
            match r {
                Ok(out) => {
                    &&& in_bounds(locations@, self@.index.len())
                    &&& out.wf()
                    &&& out@ == self@.take_rows(locations@)
                },
                Err(e) => e == Error::OutOfBounds && !in_bounds(locations@, self@.index.len()),
            },
    {
        self.reindex_by_index(locations)
    }

    /// The rows that carry `labels`, in the order of `labels`; of the rows
    /// that carry the same label, the first.
    pub fn reindex(&self, labels: &[I]) -> (r: Result<Self, Error>)
        requires
            self.wf(),
        ensures
            match r {
                Ok(out) => {
                    &&& all_known(self@.index, views(labels@))
                    &&& out.wf()
                    &&& out@ == self@.take_rows(first_positions(self@.index, views(labels@)))
                },
                Err(e) => e == Error::UnknownLabel && !all_known(self@.index, views(labels@)),
            },
    {
        let locations = match self.index.get_locs(labels) {
            Ok(x) => x,
            Err(e) => {
                return Err(e);
            },
        };
        self.reindex_by_index(locations.as_slice())
    }

    /// As `reindex`.
    pub fn locs(&self, labels: &[I]) -> (r: Result<Self, Error>)
        requires
            self.wf(),
        ensures
            match r {
                Ok(out) => {
                    &&& all_known(self@.index, views(labels@))
                    &&& out.wf()
                    &&& out@ == self@.take_rows(first_positions(self@.index, views(labels@)))
                },
                Err(e) => e == Error::UnknownLabel && !all_known(self@.index, views(labels@)),
            },
    {
        self.reindex(labels)
    }

    /// The columns at `locations`, in that order, each whole; a column may be
    /// taken several times.
    pub fn igets(&self, locations: &[usize]) -> (r: Result<Self, Error>)
        requires
            self.wf(),
        ensures
            match r {
                Ok(out) => {
                    &&& in_bounds(locations@, self@.columns.len())
                    &&& out.wf()
                    &&& out@ == self@.take_columns(locations@)
                },
                Err(e) => e == Error::OutOfBounds && !in_bounds(locations@, self@.columns.len()),
            },
    {
        if positions_fit(locations, self.columns.len()) {
            Ok(self.take_columns(locations))
        } else {
            Err(Error::OutOfBounds)
        }
    }

    /// The columns at `locations`, which all point into the columns. The
    /// result shares the row labels and the arrays with `self`: no cell is
    /// copied.
    pub fn take_columns(&self, locations: &[usize]) -> (out: Self)
        requires
            self.wf(),
            in_bounds(locations@, self@.columns.len()),
        ensures
            out.wf(),
            out@ == self@.take_columns(locations@),
            forall|k: int|
                0 <= k < locations@.len() ==> (#[trigger] out.values@[k])
                    == self.values@[locations@[k] as int],
    {
        let new_columns = self.columns.take(locations);
        let mut new_values: Vec<Rc<Array>> = Vec::with_capacity(locations.len());
        let mut k: usize = 0;
        while k < locations.len()
            invariant
                k <= locations@.len(),
                self.wf(),
                in_bounds(locations@, self@.columns.len()),
                new_values@.len() == k,
                forall|j: int|
                    0 <= j < k ==> (#[trigger] new_values@[j]) == self.values@[locations@[j] as int],
            decreases locations.len() - k,
        {
            let loc = locations[k];
            assert(locations@[k as int] < self@.columns.len());
            new_values.push(share(&self.values[loc]));
            k = k + 1;
        }
        let out = DataFrame {
            values: new_values,
            index: share(&self.index),
            columns: Rc::new(new_columns),
        };
        proof {
            assert(out@.cells =~= self@.take_columns(locations@).cells);
            assert(out@.dtypes =~= self@.take_columns(locations@).dtypes);
            assert(out@ =~= self@.take_columns(locations@));
            assert forall|c: int| 0 <= c < out.values@.len() implies array_intact(
                *#[trigger] out.values@[c],
            ) && array_cells(*out.values@[c]).len() == out.index@.len() by {
                assert(array_intact(*self.values@[locations@[c] as int]));
            }
        }
        out
    }

    /// The columns that carry `labels`, in the order of `labels`; of the
    /// columns that carry the same label, the first.
    pub fn gets(&self, labels: &[C]) -> (r: Result<Self, Error>)
        requires
            self.wf(),
        ensures
            match r {
                Ok(out) => {
                    &&& all_known(self@.columns, views(labels@))
                    &&& out.wf()
                    &&& out@ == self@.take_columns(
                        first_positions(self@.columns, views(labels@)),
                    )
                },
                Err(e) => e == Error::UnknownLabel && !all_known(self@.columns, views(labels@)),
            },
    {
        let locations = match self.columns.get_locs(labels) {
            Ok(x) => x,
            Err(e) => {
                return Err(e);
            },
        };
        self.igets(locations.as_slice())
    }

    /// The name of the kind of every column.
    pub fn dtypes(&self) -> (r: Vec<String>)
        ensures
            r@.len() == self.values@.len(),
            forall|c: int| 0 <= c < r@.len() ==> (#[trigger] r@[c])@ == self@.dtypes[c],
    {
        let mut r: Vec<String> = Vec::with_capacity(self.values.len());
        let mut c: usize = 0;
        while c < self.values.len()
            invariant
                c <= self.values@.len(),
                r@.len() == c,
                forall|j: int| 0 <= j < c ==> (#[trigger] r@[j])@ == array_dtype(*self.values@[j]),
            decreases self.values.len() - c,
        {
            r.push(array_dtype_name(&self.values[c]));
            c = c + 1;
        }
        r
    }

    /// For every column, whether its kind is numeric.
    pub fn is_numeric(&self) -> (r: Vec<bool>)
        ensures
            r@ == self@.dtypes.map_values(|d: Seq<char>| dtype_is_numeric(d)),
    {
        let mut r: Vec<bool> = Vec::with_capacity(self.values.len());
        let mut c: usize = 0;
        while c < self.values.len()
            invariant
                c <= self.values@.len(),
                r@.len() == c,
                forall|j: int|
                    0 <= j < c ==> (#[trigger] r@[j]) == dtype_is_numeric(
                        array_dtype(*self.values@[j]),
                    ),
            decreases self.values.len() - c,
        {
            r.push(array_is_numeric(&self.values[c]));
            c = c + 1;
        }
        assert(r@ =~= self@.dtypes.map_values(|d: Seq<char>| dtype_is_numeric(d)));
        r
    }

    /// The columns of a numeric kind, in their order.
    pub fn get_numeric_data(&self) -> (out: Self)
        requires
            self.wf(),
        ensures
            out.wf(),
            out@ == self@.take_columns(
                positions_of(self@.dtypes.map_values(|d: Seq<char>| dtype_is_numeric(d)), true),
            ),
    {
        let flags = self.is_numeric();
        let locations = true_positions(&flags);
        let n = flags.len();
        proof {
            lemma_positions_of(flags@, true);
        }
        self.take_columns(locations.as_slice())
    }

    /// Appends one column. Nothing is changed where the array has not one
    /// cell per row or a null mask of another length. Where the column
    /// labels are shared with another table, this table takes a copy of its
    /// own first: the other table keeps the labels that it had.
    pub fn insert(&mut self, values: Array, name: C) -> (r: Result<(), Error>)
        requires
            old(self).wf(),
            old(self)@.columns.len() < usize::MAX,
        ensures
            match r {
                Ok(_) => {
                    &&& array_intact(values)
                    &&& array_cells(values).len() == old(self)@.index.len()
                    &&& final(self).wf()
                    &&& final(self)@ == old(self)@.with_column(
                        name@,
                        array_dtype(values),
                        array_cells(values),
                    )
                },
                Err(e) => {
                    &&& e == Error::LengthMismatch
                    &&& !(array_intact(values) && array_cells(values).len() == old(self)@.index.len())
                    &&& *final(self) == *old(self)
                },
            },
    {
        if !array_fits(&values, self.index.len()) {
            return Err(Error::LengthMismatch);
        }
        let mut taken: Rc<Indexer<C>> = Rc::new(Indexer::new(Vec::new()));
        std::mem::swap(&mut self.columns, &mut taken);
        let mut columns = into_owned(taken);
        columns.push(name);
        self.columns = Rc::new(columns);
        self.values.push(Rc::new(values));
        proof {
            assert(self@.cells =~= old(self)@.cells.push(array_cells(values)));
            assert(self@.dtypes =~= old(self)@.dtypes.push(array_dtype(values)));
            assert(self@ =~= old(self)@.with_column(
                name@,
                array_dtype(values),
                array_cells(values),
            ));
        }
        Ok(())
    }

    /// The table seen through `other`, which holds the key of every row.
    pub fn groupby<G: Label>(&self, other: &[G]) -> (r: Result<GroupBy<'_, DataFrame<I, C>, G>, Error>)
        requires
            self.wf(),
        ensures
            match r {
                Ok(g) => {
                    &&& other@.len() == self@.index.len()
                    &&& g.wf()
                    &&& g.data == self
                    &&& g.keys() == views(other@)
                },
                Err(e) => e == Error::LengthMismatch && other@.len() != self@.index.len(),
            },
    {
        GroupBy::new(self, other)
    }

    /// The columns, in order.
    pub fn iter(&self) -> (it: std::slice::Iter<'_, Rc<Array>>)
        ensures
            vstd::std_specs::slice::into_iter_elts(it) == self.values@,
    {
        let columns = self.values.as_slice();
        let it = columns.iter();
        proof {
            vstd::std_specs::slice::axiom_spec_slice_iter(columns);
            assert(vstd::std_specs::slice::into_iter_elts(it) =~= self.values@);
        }
        it
    }

    /// Whether the two tables have the same row labels, the same column
    /// labels and, column by column, arrays that `==` holds equal.
    pub fn equals(&self, other: &Self) -> (b: bool)
        ensures
            b == {
                &&& self@.index == other@.index
                &&& self@.columns == other@.columns
                &&& self.values@.len() == other.values@.len()
                &&& forall|c: int|
                    0 <= c < self.values@.len() ==> arrays_equal(
                        *#[trigger] self.values@[c],
                        *other.values@[c],
                    )
            },
    {
        if !self.index.equals(&other.index) || !self.columns.equals(&other.columns) {
            return false;
        }
        if self.values.len() != other.values.len() {
            return false;
        }
        let mut c: usize = 0;
        while c < self.values.len()
            invariant
                c <= self.values@.len(),
                self.values@.len() == other.values@.len(),
                forall|j: int|
                    0 <= j < c ==> arrays_equal(*#[trigger] self.values@[j], *other.values@[j]),
            decreases self.values.len() - c,
        {
            if !array_eq(&self.values[c], &other.values[c]) {
                return false;
            }
            c = c + 1;
        }
        true
    }
}

impl<I: Label, C: Label> IntoIterator for DataFrame<I, C> {
    type Item = Rc<Array>;

    type IntoIter = std::vec::IntoIter<Rc<Array>>;

    /// The columns, in order.
    fn into_iter(self) -> (it: std::vec::IntoIter<Rc<Array>>)
        ensures
            it == vstd::std_specs::vec::spec_into_iter(self.values),
    {
        self.values.into_iter()
    }
}

impl<I: Label, C: Label> PartialEq for DataFrame<I, C> {
    fn eq(&self, other: &Self) -> (b: bool) {
        self.equals(other)
    }
}

impl<I: Label, C: Label> vstd::std_specs::cmp::PartialEqSpecImpl for DataFrame<I, C> {
    open spec fn obeys_eq_spec() -> bool {
        true
    }

    open spec fn eq_spec(&self, other: &Self) -> bool {
        &&& self@.index == other@.index
        &&& self@.columns == other@.columns
        &&& self.values@.len() == other.values@.len()
        &&& forall|c: int|
            0 <= c < self.values@.len() ==> arrays_equal(
                *#[trigger] self.values@[c],
                *other.values@[c],
            )
    }
}

impl<I: Label, C: Label> RowIndex for DataFrame<I, C> {
    open spec fn row_count(&self) -> nat {
        self@.index.len()
    }

    open spec fn valid(&self) -> bool {
        self.wf()
    }

    open spec fn holds_rows(&self, locations: Seq<usize>, out: &Self) -> bool {
        out@ == self@.take_rows(locations)
    }

    fn len(&self) -> (n: usize) {
        self.index.len()
    }

    fn rows_at(&self, locations: &[usize]) -> (out: Self) {
        self.take_rows(locations)
    }
}

impl<I: Label, C: Label> Clone for DataFrame<I, C> {
    /// Another table that shares everything with this one.
    fn clone(&self) -> (out: Self)
        ensures
            out@ == self@,
            out.values@ == self.values@,
            self.wf() ==> out.wf(),
    {
        let mut new_values: Vec<Rc<Array>> = Vec::with_capacity(self.values.len());
        let mut c: usize = 0;
        while c < self.values.len()
            invariant
                c <= self.values@.len(),
                new_values@ == self.values@.take(c as int),
            decreases self.values.len() - c,
        {
            new_values.push(share(&self.values[c]));
            proof {
                assert(self.values@.take(c as int).push(self.values@[c as int])
                    =~= self.values@.take(c + 1));
            }
            c = c + 1;
        }
        assert(self.values@.take(self.values@.len() as int) =~= self.values@);
        DataFrame { values: new_values, index: share(&self.index), columns: share(&self.columns) }
    }
}

/// Whether `a` has `rows` rows and, if it has a null mask, as many flags.
pub fn array_fits(a: &Array, rows: usize) -> (b: bool)
    ensures
        b == (array_intact(*a) && array_cells(*a).len() == rows),
{
    array_len(a) == rows && array_null_flags(a).len() == rows
}

/// The positions at which `flags` is set, ascending.
pub fn true_positions(flags: &Vec<bool>) -> (r: Vec<usize>)
    ensures
        r@ == positions_of(flags@, true),
{
    let mut r: Vec<usize> = Vec::new();
    let mut k: usize = 0;
    assert(flags@.take(0) =~= Seq::<bool>::empty());
    while k < flags.len()
        invariant
            k <= flags@.len(),
            r@ == positions_of(flags@.take(k as int), true),
        decreases flags.len() - k,
    {
        proof {
            lemma_positions_of_push(flags@.take(k as int), flags@[k as int], true);
            assert(flags@.take(k as int).push(flags@[k as int]) =~= flags@.take(k + 1));
        }
        if flags[k] {
            r.push(k);
        }
        k = k + 1;
    }
    assert(flags@.take(flags@.len() as int) =~= flags@);
    r
}

} // verus!
