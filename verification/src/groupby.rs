//! A source of rows seen through its groups.

use vstd::prelude::*;
use crate::error::Error;
use crate::grouper::{lemma_distinct_of, HashGrouper};
use crate::indexer::views;
use crate::label::{Label, SortKey};
use crate::positions::positions_of;
use crate::sort::{ascending, sort_keys};
use crate::traits::RowIndex;

verus! {

/// A source of rows seen through a key per row: the rows that share a key
/// are a group.
pub struct GroupBy<'a, D: RowIndex, G: Label> {
    pub data: &'a D,
    pub grouper: HashGrouper<G>,
}

impl<'a, D: RowIndex, G: Label> GroupBy<'a, D, G> {
    /// The key of every row of the source, by its view, in row order.
    pub open spec fn keys(&self) -> Seq<G::V> {
        self.grouper.row_keys()
    }

    /// The rows of the group of `key`, ascending.
    pub open spec fn members(&self, key: G::V) -> Seq<usize> {
        positions_of(self.keys(), key)
    }

    /// The source is valid and has one key per row.
    pub open spec fn wf(&self) -> bool {
        &&& self.data.valid()
        &&& self.grouper.wf()
        &&& self.keys().len() == self.data.row_count()
    }

    /// Groups the rows of `data` by `indexer`, which holds the key of every
    /// row.
    pub fn new(data: &'a D, indexer: &[G]) -> (r: Result<Self, Error>)
        requires
            data.valid(),
        ensures
            match r {
                Ok(g) => {
                    &&& indexer@.len() == data.row_count()
                    &&& g.wf()
                    &&& g.data == data
                    &&& g.keys() == views(indexer@)
                },
                Err(e) => e == Error::LengthMismatch && indexer@.len() != data.row_count(),
            },
    {
        if data.len() != indexer.len() {
            return Err(Error::LengthMismatch);
        }
        let grouper = HashGrouper::groupby(indexer);
        Ok(GroupBy { data, grouper })
    }

    /// The rows of the source that carry `group`, in their order.
    pub fn get_group(&self, group: &G) -> (r: Result<D, Error>)
        requires
            self.wf(),
        ensures
            match r {
                Ok(out) => {
                    &&& self.keys().contains(group@)
                    &&& out.valid()
                    &&& self.data.holds_rows(self.members(group@), &out)
                },
                Err(e) => e == Error::GroupNotFound && !self.keys().contains(group@),
            },
    {
        let locations = self.grouper.members(group);
        if locations.len() == 0 {
            Err(Error::GroupNotFound)
        } else {
            Ok(self.data.rows_at(locations.as_slice()))
        }
    }

    /// The distinct keys, each once, in ascending order.
    pub fn groups(&self) -> (r: Vec<G>) where G: SortKey
        requires
            self.wf(),
        ensures
            ascending::<G>(views(r@)),
            forall|v: G::V| views(r@).contains(v) <==> self.keys().contains(v),
    {
        let keys = self.grouper.keys();
        proof {
            lemma_distinct_of(self.keys());
        }
        sort_keys(&keys)
    }
}

} // verus!
