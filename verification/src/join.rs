//! The pairs of an inner join of two label sequences.

use vstd::prelude::*;
use vstd::slice::slice_to_vec;
use crate::indexer::{views, Indexer};
use crate::label::Label;
use crate::positions::{gather, in_bounds, lemma_positions_of, positions_of};

verus! {

/// The pairs of an inner join of two label sequences: for each position of
/// `left`, in order, that position paired with every position of `right`
/// that holds the same label, those in ascending order.
pub open spec fn join_pairs<V>(left: Seq<V>, right: Seq<V>) -> Seq<(usize, usize)>
    decreases left.len(),
{
    if left.len() == 0 {
        Seq::empty()
    } else {
        join_pairs(left.drop_last(), right) + positions_of(right, left.last()).map_values(
            |p: usize| ((left.len() - 1) as usize, p),
        )
    }
}

/// The left positions of a sequence of pairs.
pub open spec fn left_of(pairs: Seq<(usize, usize)>) -> Seq<usize> {
    pairs.map_values(|p: (usize, usize)| p.0)
}

/// The right positions of a sequence of pairs.
pub open spec fn right_of(pairs: Seq<(usize, usize)>) -> Seq<usize> {
    pairs.map_values(|p: (usize, usize)| p.1)
}

/// Joins by a table of the right labels.
pub struct HashJoin;

impl HashJoin {
    /// The inner join of two label sequences: the label of each pair, and the
    /// left and right positions of the pairs.
    pub fn inner<U: Label>(left: &[U], right: &[U]) -> (r: (Indexer<U>, Vec<usize>, Vec<usize>))
        ensures
            r.1@ == left_of(join_pairs(views(left@), views(right@))),
            r.2@ == right_of(join_pairs(views(left@), views(right@))),
            r.0.wf(),
            r.0.labels() == gather(left@, r.1@),
            in_bounds(r.1@, left@.len()),
            in_bounds(r.2@, right@.len()),
    {
        let table = Indexer::new(slice_to_vec(right));
        let mut merged: Vec<U> = Vec::new();
        let mut lpos: Vec<usize> = Vec::new();
        let mut rpos: Vec<usize> = Vec::new();
        let ghost lv = views(left@);
        let ghost rv = views(right@);
        let mut i: usize = 0;
        proof {
            assert(lv.take(0) =~= Seq::<U::V>::empty());
            assert(lpos@ =~= left_of(join_pairs(lv.take(0), rv)));
            assert(rpos@ =~= right_of(join_pairs(lv.take(0), rv)));
        }
        while i < left.len()
            invariant
                i <= left@.len(),
                lv == views(left@),
                rv == views(right@),
                table.wf(),
                table@ == rv,
                lpos@ == left_of(join_pairs(lv.take(i as int), rv)),
                rpos@ == right_of(join_pairs(lv.take(i as int), rv)),
                merged@.len() == lpos@.len(),
                forall|k: int|
                    0 <= k < lpos@.len() ==> (#[trigger] lpos@[k]) < i && merged@[k]
                        == left@[lpos@[k] as int],
                in_bounds(rpos@, right@.len()),
            decreases left.len() - i,
        {
            let found = table.get_all_locs(&left[i]);
            let width = right.len();
            proof {
                lemma_positions_of(rv, left@[i as int]@);
            }
            let ghost base = join_pairs(lv.take(i as int), rv);
            let ghost row = |p: usize| (i, p);
            proof {
                assert(lv.take(i + 1).drop_last() =~= lv.take(i as int));
                assert(lv.take(i + 1).last() == left@[i as int]@);
                assert(join_pairs(lv.take(i + 1), rv) == base + found@.map_values(row));
                assert(found@.take(0).map_values(row) =~= Seq::<(usize, usize)>::empty());
                assert(base + found@.take(0).map_values(row) =~= base);
            }
            let mut j: usize = 0;
            while j < found.len()
                invariant
                    j <= found@.len(),
                    i < left@.len(),
                    row == |p: usize| (i, p),
                    lpos@ == left_of(base + found@.take(j as int).map_values(row)),
                    rpos@ == right_of(base + found@.take(j as int).map_values(row)),
                    merged@.len() == lpos@.len(),
                    forall|k: int|
                        0 <= k < lpos@.len() ==> (#[trigger] lpos@[k]) < i + 1 && merged@[k]
                            == left@[lpos@[k] as int],
                    in_bounds(rpos@, right@.len()),
                    in_bounds(found@, right@.len()),
                decreases found.len() - j,
            {
                merged.push(left[i]);
                lpos.push(i);
                rpos.push(found[j]);
                proof {
                    let before = base + found@.take(j as int).map_values(row);
                    let after = base + found@.take(j + 1).map_values(row);
                    assert(after =~= before.push((i, found@[j as int])));
                    assert(left_of(after) =~= left_of(before).push(i));
                    assert(right_of(after) =~= right_of(before).push(found@[j as int]));
                }
                j = j + 1;
            }
            proof {
                assert(found@.take(found@.len() as int) =~= found@);
            }
            i = i + 1;
        }
        proof {
            assert(lv.take(left@.len() as int) =~= lv);
            assert(merged@ =~= gather(left@, lpos@));
        }
        (Indexer::new(merged), lpos, rpos)
    }
}

} // verus!
