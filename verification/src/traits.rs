//! What a series and a table have in common for grouping.

use vstd::prelude::*;
use crate::positions::in_bounds;

verus! {

/// What has rows that can be counted and taken by position: a series and a
/// table both do.
pub trait RowIndex: Sized {
    /// The number of rows.
    spec fn row_count(&self) -> nat;

    /// Whether the value keeps its own invariant.
    spec fn valid(&self) -> bool;

    /// Whether `out` holds the rows of `self` at `locations`, in that order.
    spec fn holds_rows(&self, locations: Seq<usize>, out: &Self) -> bool;

    fn len(&self) -> (n: usize)
        ensures
            n == self.row_count(),
    ;

    /// The rows at `locations`, which all point into the rows.
    fn rows_at(&self, locations: &[usize]) -> (out: Self)
        requires
            self.valid(),
            in_bounds(locations@, self.row_count()),
        ensures
            out.valid(),
            self.holds_rows(locations@, &out),
    ;
}

} // verus!
