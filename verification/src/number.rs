//! What can be summed and compared.

use vstd::prelude::*;

verus! {

/// A value that can be summed and compared: it stands for an integer, and
/// the integers that the type can hold are the representable ones.
pub trait Number: Copy + Sized {
    /// The integer that the value stands for.
    spec fn value(self) -> int;

    /// Whether the type has a value for `v`.
    spec fn representable(v: int) -> bool;

    fn zero() -> (z: Self)
        ensures
            z.value() == 0,
    ;

    fn plus(self, other: Self) -> (r: Self)
        requires
            Self::representable(self.value() + other.value()),
        ensures
            r.value() == self.value() + other.value(),
    ;

    fn less(&self, other: &Self) -> (b: bool)
        ensures
            b == (self.value() < other.value()),
    ;
}

impl Number for i8 {
    open spec fn value(self) -> int {
        self as int
    }

    open spec fn representable(v: int) -> bool {
        i8::MIN <= v <= i8::MAX
    }

    fn zero() -> (z: Self) {
        0
    }

    fn plus(self, other: Self) -> (r: Self) {
        self + other
    }

    fn less(&self, other: &Self) -> (b: bool) {
        *self < *other
    }
}

impl Number for i16 {
    open spec fn value(self) -> int {
        self as int
    }

    open spec fn representable(v: int) -> bool {
        i16::MIN <= v <= i16::MAX
    }

    fn zero() -> (z: Self) {
        0
    }

    fn plus(self, other: Self) -> (r: Self) {
        self + other
    }

    fn less(&self, other: &Self) -> (b: bool) {
        *self < *other
    }
}

impl Number for i32 {
    open spec fn value(self) -> int {
        self as int
    }

    open spec fn representable(v: int) -> bool {
        i32::MIN <= v <= i32::MAX
    }

    fn zero() -> (z: Self) {
        0
    }

    fn plus(self, other: Self) -> (r: Self) {
        self + other
    }

    fn less(&self, other: &Self) -> (b: bool) {
        *self < *other
    }
}

impl Number for i64 {
    open spec fn value(self) -> int {
        self as int
    }

    open spec fn representable(v: int) -> bool {
        i64::MIN <= v <= i64::MAX
    }

    fn zero() -> (z: Self) {
        0
    }

    fn plus(self, other: Self) -> (r: Self) {
        self + other
    }

    fn less(&self, other: &Self) -> (b: bool) {
        *self < *other
    }
}

impl Number for isize {
    open spec fn value(self) -> int {
        self as int
    }

    open spec fn representable(v: int) -> bool {
        isize::MIN <= v <= isize::MAX
    }

    fn zero() -> (z: Self) {
        0
    }

    fn plus(self, other: Self) -> (r: Self) {
        self + other
    }

    fn less(&self, other: &Self) -> (b: bool) {
        *self < *other
    }
}

impl Number for u8 {
    open spec fn value(self) -> int {
        self as int
    }

    open spec fn representable(v: int) -> bool {
        u8::MIN <= v <= u8::MAX
    }

    fn zero() -> (z: Self) {
        0
    }

    fn plus(self, other: Self) -> (r: Self) {
        self + other
    }

    fn less(&self, other: &Self) -> (b: bool) {
        *self < *other
    }
}

impl Number for u16 {
    open spec fn value(self) -> int {
        self as int
    }

    open spec fn representable(v: int) -> bool {
        u16::MIN <= v <= u16::MAX
    }

    fn zero() -> (z: Self) {
        0
    }

    fn plus(self, other: Self) -> (r: Self) {
        self + other
    }

    fn less(&self, other: &Self) -> (b: bool) {
        *self < *other
    }
}

impl Number for u32 {
    open spec fn value(self) -> int {
        self as int
    }

    open spec fn representable(v: int) -> bool {
        u32::MIN <= v <= u32::MAX
    }

    fn zero() -> (z: Self) {
        0
    }

    fn plus(self, other: Self) -> (r: Self) {
        self + other
    }

    fn less(&self, other: &Self) -> (b: bool) {
        *self < *other
    }
}

impl Number for u64 {
    open spec fn value(self) -> int {
        self as int
    }

    open spec fn representable(v: int) -> bool {
        u64::MIN <= v <= u64::MAX
    }

    fn zero() -> (z: Self) {
        0
    }

    fn plus(self, other: Self) -> (r: Self) {
        self + other
    }

    fn less(&self, other: &Self) -> (b: bool) {
        *self < *other
    }
}

impl Number for usize {
    open spec fn value(self) -> int {
        self as int
    }

    open spec fn representable(v: int) -> bool {
        usize::MIN <= v <= usize::MAX
    }

    fn zero() -> (z: Self) {
        0
    }

    fn plus(self, other: Self) -> (r: Self) {
        self + other
    }

    fn less(&self, other: &Self) -> (b: bool) {
        *self < *other
    }
}

} // verus!
