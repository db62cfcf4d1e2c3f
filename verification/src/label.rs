//! What can serve as a label, as a row number and as a sorted key.

use vstd::prelude::*;

verus! {

/// A value that can name a row, a column or a group.
///
/// Two labels are the same label when their views are equal. `code` is any
/// function of the view; tables of positions are keyed by it, and equal
/// labels have equal codes because the code depends on the view alone.
pub trait Label: Copy + View + Sized {
    /// The code of the label whose view is `v`.
    spec fn code_of(v: Self::V) -> u64;

    fn code(&self) -> (c: u64)
        ensures
            c == Self::code_of(self@),
    ;

    fn same(&self, other: &Self) -> (b: bool)
        ensures
            b == (self@ == other@),
    ;
}

/// A label type that can number rows: `from_position(p)` is the label given
/// to row `p` when no labels are supplied.
pub trait Ordinal: Label {
    /// The view of the label of row `p`.
    spec fn nth(p: usize) -> Self::V;

    fn from_position(p: usize) -> (l: Self)
        ensures
            l@ == Self::nth(p),
    ;
}

/// A label type with a strict total order on its views; group keys are
/// listed in this order.
pub trait SortKey: Label {
    /// Whether the label with view `a` comes strictly before that with view `b`.
    spec fn before(a: Self::V, b: Self::V) -> bool;

    proof fn before_is_strict_total()
        ensures
            forall|a: Self::V| !#[trigger] Self::before(a, a),
            forall|a: Self::V, b: Self::V, c: Self::V|
                #[trigger] Self::before(a, b) && #[trigger] Self::before(b, c) ==> Self::before(a, c),
            forall|a: Self::V, b: Self::V|
                a != b ==> #[trigger] Self::before(a, b) || Self::before(b, a),
    ;

    fn precedes(&self, other: &Self) -> (b: bool)
        ensures
            b == Self::before(self@, other@),
    ;
}

impl Label for i8 {
    open spec fn code_of(v: i8) -> u64 {
        v as u64
    }

    fn code(&self) -> (c: u64) {
        #[verifier::truncate]
        (*self as u64)
    }

    fn same(&self, other: &Self) -> (b: bool) {
        *self == *other
    }
}

impl Ordinal for i8 {
    open spec fn nth(p: usize) -> i8 {
        p as i8
    }

    fn from_position(p: usize) -> (l: Self) {
        #[verifier::truncate]
        (p as i8)
    }
}

impl SortKey for i8 {
    open spec fn before(a: i8, b: i8) -> bool {
        a < b
    }

    proof fn before_is_strict_total() {
    }

    fn precedes(&self, other: &Self) -> (b: bool) {
        *self < *other
    }
}

impl Label for i16 {
    open spec fn code_of(v: i16) -> u64 {
        v as u64
    }

    fn code(&self) -> (c: u64) {
        #[verifier::truncate]
        (*self as u64)
    }

    fn same(&self, other: &Self) -> (b: bool) {
        *self == *other
    }
}

impl Ordinal for i16 {
    open spec fn nth(p: usize) -> i16 {
        p as i16
    }

    fn from_position(p: usize) -> (l: Self) {
        #[verifier::truncate]
        (p as i16)
    }
}

impl SortKey for i16 {
    open spec fn before(a: i16, b: i16) -> bool {
        a < b
    }

    proof fn before_is_strict_total() {
    }

    fn precedes(&self, other: &Self) -> (b: bool) {
        *self < *other
    }
}

impl Label for i32 {
    open spec fn code_of(v: i32) -> u64 {
        v as u64
    }

    fn code(&self) -> (c: u64) {
        #[verifier::truncate]
        (*self as u64)
    }

    fn same(&self, other: &Self) -> (b: bool) {
        *self == *other
    }
}

impl Ordinal for i32 {
    open spec fn nth(p: usize) -> i32 {
        p as i32
    }

    fn from_position(p: usize) -> (l: Self) {
        #[verifier::truncate]
        (p as i32)
    }
}

impl SortKey for i32 {
    open spec fn before(a: i32, b: i32) -> bool {
        a < b
    }

    proof fn before_is_strict_total() {
    }

    fn precedes(&self, other: &Self) -> (b: bool) {
        *self < *other
    }
}

impl Label for i64 {
    open spec fn code_of(v: i64) -> u64 {
        v as u64
    }

    fn code(&self) -> (c: u64) {
        #[verifier::truncate]
        (*self as u64)
    }

    fn same(&self, other: &Self) -> (b: bool) {
        *self == *other
    }
}

impl Ordinal for i64 {
    open spec fn nth(p: usize) -> i64 {
        p as i64
    }

    fn from_position(p: usize) -> (l: Self) {
        #[verifier::truncate]
        (p as i64)
    }
}

impl SortKey for i64 {
    open spec fn before(a: i64, b: i64) -> bool {
        a < b
    }

    proof fn before_is_strict_total() {
    }

    fn precedes(&self, other: &Self) -> (b: bool) {
        *self < *other
    }
}

impl Label for isize {
    open spec fn code_of(v: isize) -> u64 {
        v as u64
    }

    fn code(&self) -> (c: u64) {
        #[verifier::truncate]
        (*self as u64)
    }

    fn same(&self, other: &Self) -> (b: bool) {
        *self == *other
    }
}

impl Ordinal for isize {
    open spec fn nth(p: usize) -> isize {
        p as isize
    }

    fn from_position(p: usize) -> (l: Self) {
        #[verifier::truncate]
        (p as isize)
    }
}

impl SortKey for isize {
    open spec fn before(a: isize, b: isize) -> bool {
        a < b
    }

    proof fn before_is_strict_total() {
    }

    fn precedes(&self, other: &Self) -> (b: bool) {
        *self < *other
    }
}

impl Label for u8 {
    open spec fn code_of(v: u8) -> u64 {
        v as u64
    }

    fn code(&self) -> (c: u64) {
        #[verifier::truncate]
        (*self as u64)
    }

    fn same(&self, other: &Self) -> (b: bool) {
        *self == *other
    }
}

impl Ordinal for u8 {
    open spec fn nth(p: usize) -> u8 {
        p as u8
    }

    fn from_position(p: usize) -> (l: Self) {
        #[verifier::truncate]
        (p as u8)
    }
}

impl SortKey for u8 {
    open spec fn before(a: u8, b: u8) -> bool {
        a < b
    }

    proof fn before_is_strict_total() {
    }

    fn precedes(&self, other: &Self) -> (b: bool) {
        *self < *other
    }
}

impl Label for u16 {
    open spec fn code_of(v: u16) -> u64 {
        v as u64
    }

    fn code(&self) -> (c: u64) {
        #[verifier::truncate]
        (*self as u64)
    }

    fn same(&self, other: &Self) -> (b: bool) {
        *self == *other
    }
}

impl Ordinal for u16 {
    open spec fn nth(p: usize) -> u16 {
        p as u16
    }

    fn from_position(p: usize) -> (l: Self) {
        #[verifier::truncate]
        (p as u16)
    }
}

impl SortKey for u16 {
    open spec fn before(a: u16, b: u16) -> bool {
        a < b
    }

    proof fn before_is_strict_total() {
    }

    fn precedes(&self, other: &Self) -> (b: bool) {
        *self < *other
    }
}

impl Label for u32 {
    open spec fn code_of(v: u32) -> u64 {
        v as u64
    }

    fn code(&self) -> (c: u64) {
        #[verifier::truncate]
        (*self as u64)
    }

    fn same(&self, other: &Self) -> (b: bool) {
        *self == *other
    }
}

impl Ordinal for u32 {
    open spec fn nth(p: usize) -> u32 {
        p as u32
    }

    fn from_position(p: usize) -> (l: Self) {
        #[verifier::truncate]
        (p as u32)
    }
}

impl SortKey for u32 {
    open spec fn before(a: u32, b: u32) -> bool {
        a < b
    }

    proof fn before_is_strict_total() {
    }

    fn precedes(&self, other: &Self) -> (b: bool) {
        *self < *other
    }
}

impl Label for u64 {
    open spec fn code_of(v: u64) -> u64 {
        v
    }

    fn code(&self) -> (c: u64) {
        *self
    }

    fn same(&self, other: &Self) -> (b: bool) {
        *self == *other
    }
}

impl Ordinal for u64 {
    open spec fn nth(p: usize) -> u64 {
        p as u64
    }

    fn from_position(p: usize) -> (l: Self) {
        #[verifier::truncate]
        (p as u64)
    }
}

impl SortKey for u64 {
    open spec fn before(a: u64, b: u64) -> bool {
        a < b
    }

    proof fn before_is_strict_total() {
    }

    fn precedes(&self, other: &Self) -> (b: bool) {
        *self < *other
    }
}

impl Label for usize {
    open spec fn code_of(v: usize) -> u64 {
        v as u64
    }

    fn code(&self) -> (c: u64) {
        #[verifier::truncate]
        (*self as u64)
    }

    fn same(&self, other: &Self) -> (b: bool) {
        *self == *other
    }
}

impl Ordinal for usize {
    open spec fn nth(p: usize) -> usize {
        p
    }

    fn from_position(p: usize) -> (l: Self) {
        p
    }
}

impl SortKey for usize {
    open spec fn before(a: usize, b: usize) -> bool {
        a < b
    }

    proof fn before_is_strict_total() {
    }

    fn precedes(&self, other: &Self) -> (b: bool) {
        *self < *other
    }
}

} // verus!
