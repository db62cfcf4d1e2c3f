//! A multimap from codes to slots. It is `multimap`'s; what the library
//! believes of it without proof is all in this file.

use multimap::MultiMap;
use vstd::prelude::*;

verus! {

/// `multimap::MultiMap`, a hash map from keys to vectors of values. Verus
/// sees nothing inside it.
#[verifier::external_type_specification]
#[verifier::external_body]
#[verifier::reject_recursive_types(K)]
#[verifier::reject_recursive_types(V)]
#[verifier::reject_recursive_types(S)]
pub struct ExMultiMap<K, V, S>(MultiMap<K, V, S>);

/// What a multimap from codes to slots holds: for every key that it has,
/// the vector of that key, in the order in which its values were inserted.
pub uninterp spec fn multimap_entries(m: MultiMap<u64, usize>) -> Map<u64, Seq<usize>>;

/// The vector under `key`, empty where there is none.
pub open spec fn entries_under(m: MultiMap<u64, usize>, key: u64) -> Seq<usize> {
    if multimap_entries(m).contains_key(key) {
        multimap_entries(m)[key]
    } else {
        Seq::empty()
    }
}

/// `MultiMap::new`: a multimap without keys.
#[verifier::external_body]
pub(crate) fn multimap_new() -> (r: MultiMap<u64, usize>)
    ensures
        forall|key: u64| !multimap_entries(r).contains_key(key),
{
    MultiMap::new()
}

/// `MultiMap::insert`: the value is pushed to the vector of the key; a key
/// that the map does not have gets a vector with that one value. Other keys
/// keep what they have.
#[verifier::external_body]
pub(crate) fn multimap_insert(m: &mut MultiMap<u64, usize>, key: u64, value: usize)
    ensures
        multimap_entries(*final(m)) == multimap_entries(*old(m)).insert(
            key,
            entries_under(*old(m), key).push(value),
        ),
{
    m.insert(key, value)
}

/// `MultiMap::get_vec`: the vector of the key, or `None` for a key that the
/// map does not have.
#[verifier::external_body]
pub(crate) fn multimap_get_vec(m: &MultiMap<u64, usize>, key: u64) -> (r: Option<&Vec<usize>>)
    ensures
        match r {
            Some(v) => multimap_entries(*m).contains_key(key) && v@ == multimap_entries(*m)[key],
            None => !multimap_entries(*m).contains_key(key),
        },
{
    m.get_vec(&key)
}

} // verus!
