//! Tables put together: one under the other, side by side, and joined on
//! their row labels.

use nullvec::prelude::Array;
use std::rc::Rc;
use vstd::prelude::*;
use crate::column::{
    array_append, array_cells, array_dtype, array_dtype_name, array_filter,
    array_gather_forced, array_intact, array_len, array_masked,
};
use crate::error::Error;
use crate::frame::{DataFrame, Table};
use crate::indexer::Indexer;
use crate::join::{join_pairs, left_of, right_of, HashJoin};
use crate::label::Label;
use crate::positions::{gather, kept};
use crate::share::share;

verus! {

impl<R, C> Table<R, C> {
    /// The rows of `self` followed by those of `other`, column by column.
    pub open spec fn above(self, other: Self) -> Self {
        Table {
            index: self.index + other.index,
            columns: self.columns,
            dtypes: self.dtypes,
            cells: Seq::new(self.cells.len(), |c: int| self.cells[c] + other.cells[c]),
        }
    }

    /// The columns of `self` followed by those of `other`.
    pub open spec fn beside(self, other: Self) -> Self {
        Table {
            index: self.index,
            columns: self.columns + other.columns,
            dtypes: self.dtypes + other.dtypes,
            cells: self.cells + other.cells,
        }
    }

    /// The inner join on the row labels: for every pair of a row of `self`
    /// and a row of `other` with the same label, the row of `self` beside
    /// that of `other`, under that label.
    pub open spec fn joined(self, other: Self) -> Self {
        let pairs = join_pairs(self.index, other.index);
        self.take_rows(left_of(pairs)).beside(other.take_rows(right_of(pairs)))
    }
}

/// Keeping every item keeps the sequence.
proof fn lemma_kept_all<V>(s: Seq<V>, flags: Seq<bool>)
    requires
        flags.len() == s.len(),
        forall|i: int| 0 <= i < flags.len() ==> flags[i],
    ensures
        kept(s, flags) == s,
    decreases s.len(),
{
    if s.len() > 0 {
        lemma_kept_all(s.drop_last(), flags.drop_last());
        assert(s.drop_last().push(s.last()) =~= s);
    } else {
        assert(kept(s, flags) =~= s);
    }
}

/// An array with the cells of `a` that carries a null mask, whether `a`
/// does or not: the rows of `a` and one row past its end, which is null and
/// brings the mask, with that row dropped again.
fn masked_copy(a: &Array) -> (r: Array)
    requires
        array_intact(*a),
    ensures
        array_cells(r) == array_cells(*a),
        array_dtype(r) == array_dtype(*a),
        array_intact(r),
        array_masked(r),
{
    let n = array_len(a);
    let mut locs: Vec<usize> = Vec::new();
    let mut flags: Vec<bool> = Vec::new();
    let mut i: usize = 0;
    while i < n
        invariant
            i <= n,
            locs@.len() == i,
            flags@.len() == i,
            forall|k: int| 0 <= k < i ==> locs@[k] == k && flags@[k],
        decreases n - i,
    {
        locs.push(i);
        flags.push(true);
        i = i + 1;
    }
    locs.push(n);
    flags.push(false);
    let wide = array_gather_forced(a, locs.as_slice());
    assert(locs@[n as int] >= array_cells(*a).len());
    let r = array_filter(&wide, flags.as_slice());
    proof {
        let cells = array_cells(wide);
        lemma_kept_all(cells.drop_last(), flags@.drop_last());
        assert(array_cells(r) == cells.drop_last());
        assert forall|k: int| 0 <= k < n implies cells.drop_last()[k] == array_cells(*a)[k] by {
            assert(locs@[k] < array_cells(*a).len());
            assert(cells[k] == array_cells(*a)[locs@[k] as int]);
        }
        assert(cells.drop_last() =~= array_cells(*a));
    }
    r
}

impl<I: Label, C: Label> DataFrame<I, C> {
    /// The rows of `other` under those of `self`. Both must have the same
    /// column labels and, column by column, arrays of the same kind.
    pub fn append(&self, other: &Self) -> (r: Result<Self, Error>)
        requires
            self.wf(),
            other.wf(),
        ensures
            match r {
                Ok(out) => {
                    &&& self@.columns == other@.columns
                    &&& self@.dtypes == other@.dtypes
                    &&& out.wf()
                    &&& out@ == self@.above(other@)
                },
                Err(e) => e == Error::ColumnsDiffer && !(self@.columns == other@.columns
                    && self@.dtypes == other@.dtypes),
            },
    {
        if !self.columns.equals(&other.columns) {
            return Err(Error::ColumnsDiffer);
        }
        assert(self@.columns.len() == other@.columns.len());
        let mut c: usize = 0;
        while c < self.values.len()
            invariant
                c <= self.values@.len(),
                self.values@.len() == other.values@.len(),
                forall|j: int|
                    0 <= j < c ==> array_dtype(*#[trigger] self.values@[j]) == array_dtype(
                        *other.values@[j],
                    ),
            decreases self.values.len() - c,
        {
            let mine = array_dtype_name(&self.values[c]);
            let theirs = array_dtype_name(&other.values[c]);
            if mine != theirs {
                assert(self@.dtypes[c as int] != other@.dtypes[c as int]);
                return Err(Error::ColumnsDiffer);
            }
            c = c + 1;
        }
        assert(self@.dtypes =~= other@.dtypes);
        let new_index = self.index.append(&other.index);
        let mut new_values: Vec<Rc<Array>> = Vec::with_capacity(self.values.len());
        let mut c: usize = 0;
        while c < self.values.len()
            invariant
                c <= self.values@.len(),
                self.wf(),
                other.wf(),
                self.values@.len() == other.values@.len(),
                self@.dtypes == other@.dtypes,
                new_values@.len() == c,
                forall|j: int|
                    0 <= j < c ==> {
                        &&& array_intact(*#[trigger] new_values@[j])
                        &&& array_cells(*new_values@[j]) == array_cells(*self.values@[j])
                            + array_cells(*other.values@[j])
                        &&& array_dtype(*new_values@[j]) == array_dtype(*self.values@[j])
                    },
            decreases self.values.len() - c,
        {
            assert(array_intact(*self.values@[c as int]));
            assert(array_intact(*other.values@[c as int]));
            assert(self@.dtypes[c as int] == other@.dtypes[c as int]);
            let upper = masked_copy(&self.values[c]);
            new_values.push(Rc::new(array_append(&upper, &other.values[c])));
            c = c + 1;
        }
        let out = DataFrame {
            values: new_values,
            index: Rc::new(new_index),
            columns: share(&self.columns),
        };
        proof {
            assert(out@.cells =~= self@.above(other@).cells);
            assert(out@.dtypes =~= self@.above(other@).dtypes);
            assert(out@ =~= self@.above(other@));
            assert forall|c: int| 0 <= c < out.values@.len() implies array_intact(
                *#[trigger] out.values@[c],
            ) && array_cells(*out.values@[c]).len() == out.index@.len() by {
                assert(array_intact(*self.values@[c]));
                assert(array_intact(*other.values@[c]));
            }
        }
        Ok(out)
    }

    /// The columns of `other` beside those of `self`. Both must have the
    /// same row labels.
    pub fn concat(&self, other: &Self) -> (r: Result<Self, Error>)
        requires
            self.wf(),
            other.wf(),
        ensures
            match r {
                Ok(out) => {
                    &&& self@.index == other@.index
                    &&& out.wf()
                    &&& out@ == self@.beside(other@)
                },
                Err(e) => e == Error::IndexDiffer && self@.index != other@.index,
            },
    {
        if !self.index.equals(&other.index) {
            return Err(Error::IndexDiffer);
        }
        let new_columns = self.columns.append(&other.columns);
        let left = self.clone();
        let right = other.clone();
        Ok(side_by_side(left, right, share(&self.index), Rc::new(new_columns)))
    }

    /// The inner join on the row labels: every row of `self` beside every
    /// row of `other` that carries the same label, in the order of the rows
    /// of `self` and, under one row of `self`, in that of the rows of
    /// `other`. The column labels of both stand side by side as they are.
    pub fn join_inner(&self, other: &Self) -> (out: Self)
        requires
            self.wf(),
            other.wf(),
        ensures
            out.wf(),
            out@ == self@.joined(other@),
    {
        let (new_index, lpos, rpos) = HashJoin::inner(
            self.index.values().as_slice(),
            other.index.values().as_slice(),
        );
        let new_columns = self.columns.append(&other.columns);
        let ghost pairs = join_pairs(self@.index, other@.index);
        proof {
            assert(new_index@ =~= gather(self@.index, left_of(pairs)));
        }
        let left = self.take_rows(lpos.as_slice());
        let right = other.take_rows(rpos.as_slice());
        side_by_side(left, right, Rc::new(new_index), Rc::new(new_columns))
    }
}

/// The columns of `left` followed by those of `right`, under `index` and
/// `columns`.
fn side_by_side<I: Label, C: Label>(
    left: DataFrame<I, C>,
    right: DataFrame<I, C>,
    index: Rc<Indexer<I>>,
    columns: Rc<Indexer<C>>,
) -> (out: DataFrame<I, C>)
    requires
        left.wf(),
        right.wf(),
        index.wf(),
        columns.wf(),
        index@ == left@.index,
        left@.index.len() == right@.index.len(),
        columns@ == left@.columns + right@.columns,
    ensures
        out.wf(),
        out@ == left@.beside(right@),
{
    let ghost lv = left.values@;
    let ghost rv = right.values@;
    let ghost lt = left@;
    let ghost rt = right@;
    let DataFrame { values: mut all, index: _, columns: _ } = left;
    let DataFrame { values: mut rest, index: _, columns: _ } = right;
    all.append(&mut rest);
    let out = DataFrame { values: all, index, columns };
    proof {
        assert(out.values@ =~= lv + rv);
        assert(out@.cells =~= lt.beside(rt).cells);
        assert(out@.dtypes =~= lt.beside(rt).dtypes);
        assert(out@ =~= lt.beside(rt));
        assert forall|c: int| 0 <= c < out.values@.len() implies array_intact(
            *#[trigger] out.values@[c],
        ) && array_cells(*out.values@[c]).len() == out.index@.len() by {
            if c < lv.len() {
                assert(array_intact(*lv[c]));
            } else {
                assert(array_intact(*rv[c - lv.len()]));
            }
        }
    }
    out
}

} // verus!
