//! Why an operation is refused.

use vstd::prelude::*;

verus! {

/// Why an operation was refused. Every refusal is decided before anything is
/// changed, so the operands of a refused call are as they were.
#[derive(Clone, Copy, Debug, PartialEq, Eq, Structural)]
pub enum Error {
    /// Two lengths that must agree do not.
    LengthMismatch,
    /// A label that was asked for is not among the labels.
    UnknownLabel,
    /// A position is not below the length of the sequence it points into.
    OutOfBounds,
    /// Two tables that must have the same columns do not.
    ColumnsDiffer,
    /// Two tables that must have the same row labels do not.
    IndexDiffer,
    /// A group was asked for under a key that no row carries.
    GroupNotFound,
}

} // verus!
