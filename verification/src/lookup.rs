//! The table from codes to positions that every lookup goes through.

use std::collections::HashMap;
use vstd::prelude::*;
use crate::positions::{lemma_positions_of_push, positions_of};

verus! {

broadcast use vstd::std_specs::hash::group_hash_axioms;

/// A table from codes to the positions that carry them.
///
/// The table stands for a sequence of codes, one per position. It is filled
/// one position at a time and answers, for a code, at which positions that
/// code stands, in ascending order.
#[derive(Debug)]
pub struct PositionTable {
    buckets: HashMap<u64, Vec<usize>>,
    count: usize,
}

impl PositionTable {
    /// Whether the table is that of `codes`: it has a bucket for exactly the
    /// codes that occur, and each bucket holds the positions of its code.
    pub closed spec fn tabulates(&self, codes: Seq<u64>) -> bool {
        &&& self.count == codes.len()
        &&& forall|c: u64| #[trigger]
            self.buckets@.contains_key(c) ==> self.buckets@[c]@ == positions_of(codes, c)
        &&& forall|c: u64|
            !self.buckets@.contains_key(c) ==> (#[trigger] positions_of(codes, c)).len() == 0
    }

    pub fn new() -> (t: Self)
        ensures
            t.tabulates(Seq::<u64>::empty()),
    {
        PositionTable { buckets: HashMap::new(), count: 0 }
    }

    /// Records `code` for the next position.
    pub fn push(&mut self, code: u64)
        requires
            exists|codes: Seq<u64>| #[trigger] old(self).tabulates(codes) && codes.len() < usize::MAX,
        ensures
            forall|codes: Seq<u64>| #[trigger]
                old(self).tabulates(codes) ==> final(self).tabulates(codes.push(code)),
    {
        let ghost old_map = self.buckets@;
        let ghost old_count = self.count;
        let mut bucket = match self.buckets.remove(&code) {
            Some(b) => b,
            None => Vec::new(),
        };
        let ghost old_bucket = bucket@;
        bucket.push(self.count);
        self.buckets.insert(code, bucket);
        self.count = self.count + 1;
        proof {
            assert forall|codes: Seq<u64>| #[trigger] old(self).tabulates(codes) implies self.tabulates(
                codes.push(code),
            ) by {
                if !old_map.contains_key(code) {
                    assert(positions_of(codes, code).len() == 0);
                    assert(old_bucket =~= positions_of(codes, code));
                }
                assert forall|c: u64| #[trigger] self.buckets@.contains_key(c) implies self.buckets@[c]@
                    == positions_of(codes.push(code), c) by {
                    lemma_positions_of_push(codes, code, c);
                    if c != code {
                        assert(old_map.contains_key(c));
                    }
                }
                assert forall|c: u64| !self.buckets@.contains_key(c) implies (#[trigger] positions_of(
                    codes.push(code),
                    c,
                )).len() == 0 by {
                    lemma_positions_of_push(codes, code, c);
                    assert(!old_map.contains_key(c));
                }
            }
        }
    }

    /// The positions that carry `code`, ascending; `None` stands for none.
    pub fn get(&self, code: u64) -> (r: Option<&Vec<usize>>)
        ensures
            forall|codes: Seq<u64>| #[trigger]
                self.tabulates(codes) ==> match r {
                    Some(b) => b@ == positions_of(codes, code),
                    None => positions_of(codes, code).len() == 0,
                },
    {
        self.buckets.get(&code)
    }
}

impl Clone for PositionTable {
    fn clone(&self) -> (t: Self)
        ensures
            forall|codes: Seq<u64>| #[trigger] self.tabulates(codes) ==> t.tabulates(codes),
    {
        PositionTable { buckets: self.buckets.clone(), count: self.count }
    }
}

} // verus!
