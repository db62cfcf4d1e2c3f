//! Shared handles: how tables hold what they may have in common.

use std::rc::Rc;
use vstd::prelude::*;

verus! {

/// `Rc::clone`: another handle on the same value. Nothing is copied; the
/// value lives as long as its last handle.
#[verifier::external_body]
pub(crate) fn share<T>(r: &Rc<T>) -> (res: Rc<T>)
    ensures
        res == *r,
{
    Rc::clone(r)
}

/// The value behind a handle, to be changed by the handle's owner: the value
/// itself where no other handle shares it, else a copy of its own, so that
/// no other handle sees the change.
pub fn into_owned<T: Clone>(r: Rc<T>) -> (res: T)
    ensures
        res == *r || cloned(*r, res),
{
    match Rc::try_unwrap(r) {
        Ok(alone) => alone,
        Err(shared) => (*shared).clone(),
    }
}

} // verus!
