//! The column arrays. They are `nullvec`'s; what the library believes of them
//! without proof is all in this file.

use nullvec::prelude::{Append, Array, Slicer};
use vstd::prelude::*;
use crate::positions::{gather, in_bounds, kept};

verus! {

/// `nullvec::prelude::Array`, the typed column array: one of fourteen kinds
/// of nullable vector. Verus sees nothing inside it.
#[verifier::external_type_specification]
#[verifier::external_body]
pub struct ExArray(Array);

/// What one cell of a column holds. The library never looks into a cell; its
/// contracts say which cell of a result is which cell of a source.
pub enum Cell {
    /// No value: a masked cell, or a float that is NaN.
    Null,
    /// A value of one of the ten integer kinds.
    Int(int),
    /// A float, by its bits as an `f64`.
    Float(u64),
    /// A boolean.
    Bool(bool),
    /// A string.
    Text(Seq<char>),
}

/// The cells of an array in row order: at each row what the array's `iloc`
/// gives for it, a float NaN counting as the null that the array's
/// constructors make of it.
pub uninterp spec fn array_cells(a: Array) -> Seq<Cell>;

/// The name of the kind of an array, as its `dtype` gives it (`"i64"`,
/// `"f64"`, `"bool"`, `"str"`, ..).
pub uninterp spec fn array_dtype(a: Array) -> Seq<char>;

/// Whether the null mask of an array, if it has one, is as long as its data.
/// The constructors that take a mask do not ask for it, and the array's own
/// methods rely on it.
pub uninterp spec fn array_intact(a: Array) -> bool;

/// Whether an array carries a null mask, be any of its cells null or not.
pub uninterp spec fn array_masked(a: Array) -> bool;

/// What `==` on two arrays answers.
pub uninterp spec fn arrays_equal(a: Array, b: Array) -> bool;

/// Whether a kind of array counts as numeric: every kind but the booleans
/// and the strings.
pub open spec fn dtype_is_numeric(name: Seq<char>) -> bool {
    name != "bool"@ && name != "str"@
}

/// `Slicer::len` of `Array`: the number of rows, null or not.
#[verifier::external_body]
pub(crate) fn array_len(a: &Array) -> (n: usize)
    ensures
        n == array_cells(*a).len(),
{
    a.len()
}

/// `NullVec::is_null` of the vector inside an `Array`, whichever kind it is:
/// a copy of the null mask, or one `false` per datum where there is no mask.
/// So the flags are as many as the rows exactly when the array is intact.
#[verifier::external_body]
pub(crate) fn array_null_flags(a: &Array) -> (flags: Vec<bool>)
    ensures
        array_intact(*a) <==> flags@.len() == array_cells(*a).len(),
{
    match a {
        Array::Int64Array(v) => v.is_null(), Array::Int32Array(v) => v.is_null(),
        Array::Int16Array(v) => v.is_null(), Array::Int8Array(v) => v.is_null(),
        Array::IsizeArray(v) => v.is_null(), Array::UInt64Array(v) => v.is_null(),
        Array::UInt32Array(v) => v.is_null(), Array::UInt16Array(v) => v.is_null(),
        Array::UInt8Array(v) => v.is_null(), Array::UsizeArray(v) => v.is_null(),
        Array::Float64Array(v) => v.is_null(), Array::Float32Array(v) => v.is_null(),
        Array::BoolArray(v) => v.is_null(), Array::StringArray(v) => v.is_null(),
    }
}

/// `Array::dtype`: the name of the array's kind.
#[verifier::external_body]
pub(crate) fn array_dtype_name(a: &Array) -> (name: String)
    ensures
        name@ == array_dtype(*a),
{
    a.dtype()
}

/// `Array::is_numeric`: false for the kinds named `"bool"` and `"str"`, true
/// for the twelve others.
#[verifier::external_body]
pub(crate) fn array_is_numeric(a: &Array) -> (b: bool)
    ensures
        b == dtype_is_numeric(array_dtype(*a)),
{
    a.is_numeric()
}

/// `PartialEq::eq` of `Array`, which `derive` wrote. It compares kind, data
/// and mask; nothing more is claimed of it than that it depends on the two
/// arrays alone.
#[verifier::external_body]
pub(crate) fn array_eq(a: &Array, b: &Array) -> (r: bool)
    ensures
        r == arrays_equal(*a, *b),
{
    a == b
}

/// `Slicer::ilocs` of `Array`: a new array of the same kind with the cells
/// at `locs`, in their order; data and mask are picked alike. It panics on a
/// position out of bounds, and reads past a mask that is shorter than the
/// data.
#[verifier::external_body]
pub(crate) fn array_gather(a: &Array, locs: &[usize]) -> (r: Array)
    requires
        array_intact(*a),
        in_bounds(locs@, array_cells(*a).len()),
    ensures
        array_cells(r) == gather(array_cells(*a), locs@),
        array_dtype(r) == array_dtype(*a),
        array_intact(r),
{
    a.ilocs(locs)
}

/// `Slicer::ilocs_forced` of `Array`: as `ilocs`, but a position out of
/// bounds gives a null cell, and the result carries a mask wherever one of
/// its cells is null. Only what holds of the cells picked in bounds is
/// stated.
#[verifier::external_body]
pub(crate) fn array_gather_forced(a: &Array, locs: &[usize]) -> (r: Array)
    requires
        array_intact(*a),
    ensures
        array_cells(r).len() == locs@.len(),
        forall|k: int|
            0 <= k < locs@.len() && locs@[k] < array_cells(*a).len() ==> #[trigger] array_cells(r)[k]
                == array_cells(*a)[locs@[k] as int],
        array_dtype(r) == array_dtype(*a),
        array_intact(r),
        (exists|k: int| 0 <= k < locs@.len() && locs@[k] >= array_cells(*a).len())
            ==> array_masked(r),
{
    a.ilocs_forced(locs)
}

/// `Slicer::blocs` of `Array`: a new array of the same kind with the cells
/// whose flag is set; the mask, if there is one, is filtered with the data.
/// It panics unless there is one flag per row.
#[verifier::external_body]
pub(crate) fn array_filter(a: &Array, flags: &[bool]) -> (r: Array)
    requires
        array_intact(*a),
        flags@.len() == array_cells(*a).len(),
    ensures
        array_cells(r) == kept(array_cells(*a), flags@),
        array_dtype(r) == array_dtype(*a),
        array_intact(r),
        array_masked(r) == array_masked(*a),
{
    a.blocs(flags)
}

/// `Append::append` of `Array`: the cells of `a` followed by those of `b`.
/// It panics where the kinds differ. Where `a` has no mask and `b` has one,
/// it builds the new mask from that of `b` twice over and the result is not
/// the concatenation: that case is left out.
#[verifier::external_body]
pub(crate) fn array_append(a: &Array, b: &Array) -> (r: Array)
    requires
        array_intact(*a),
        array_intact(*b),
        array_dtype(*a) == array_dtype(*b),
        array_masked(*a),
    ensures
        array_cells(r) == array_cells(*a) + array_cells(*b),
        array_dtype(r) == array_dtype(*a),
        array_intact(r),
{
    a.append(b)
}

} // verus!
