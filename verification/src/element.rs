//! What the matrix operations need of their entries beyond the operator traits.
use vstd::prelude::*;

verus! {

/// Types with an additive identity.
pub trait Zero: Sized {
    /// The additive identity.
    spec fn zero_value() -> Self;

    /// Returns the additive identity.
    fn zero() -> (r: Self)
        ensures
            r == Self::zero_value(),
    ;
}

/// Types with a multiplicative identity.
pub trait One: Sized {
    /// The multiplicative identity.
    spec fn one_value() -> Self;

    /// Returns the multiplicative identity.
    fn one() -> (r: Self)
        ensures
            r == Self::one_value(),
    ;
}

/// Comparison up to the tolerance that the entry type allows.
pub trait ApproxEq<T> {
    /// When `self` counts as equal to `other`.
    spec fn approx_eq_spec(&self, other: &T) -> bool;

    /// Whether `self` counts as equal to `other`.
    fn approx_eq(&self, other: &T) -> (r: bool)
        ensures
            r == self.approx_eq_spec(other),
    ;
}

impl Zero for i8 {
    open spec fn zero_value() -> i8 {
        0
    }

    fn zero() -> (r: i8) {
        0
    }
}

impl One for i8 {
    open spec fn one_value() -> i8 {
        1
    }

    fn one() -> (r: i8) {
        1
    }
}

/// Integers are compared exactly.
impl ApproxEq<i8> for i8 {
    open spec fn approx_eq_spec(&self, other: &i8) -> bool {
        *self == *other
    }

    fn approx_eq(&self, other: &i8) -> (r: bool) {
        *self == *other
    }
}

impl Zero for i16 {
    open spec fn zero_value() -> i16 {
        0
    }

    fn zero() -> (r: i16) {
        0
    }
}

impl One for i16 {
    open spec fn one_value() -> i16 {
        1
    }

    fn one() -> (r: i16) {
        1
    }
}

/// Integers are compared exactly.
impl ApproxEq<i16> for i16 {
    open spec fn approx_eq_spec(&self, other: &i16) -> bool {
        *self == *other
    }

    fn approx_eq(&self, other: &i16) -> (r: bool) {
        *self == *other
    }
}

impl Zero for i32 {
    open spec fn zero_value() -> i32 {
        0
    }

    fn zero() -> (r: i32) {
        0
    }
}

impl One for i32 {
    open spec fn one_value() -> i32 {
        1
    }

    fn one() -> (r: i32) {
        1
    }
}

/// Integers are compared exactly.
impl ApproxEq<i32> for i32 {
    open spec fn approx_eq_spec(&self, other: &i32) -> bool {
        *self == *other
    }

    fn approx_eq(&self, other: &i32) -> (r: bool) {
        *self == *other
    }
}

impl Zero for i64 {
    open spec fn zero_value() -> i64 {
        0
    }

    fn zero() -> (r: i64) {
        0
    }
}

impl One for i64 {
    open spec fn one_value() -> i64 {
        1
    }

    fn one() -> (r: i64) {
        1
    }
}

/// Integers are compared exactly.
impl ApproxEq<i64> for i64 {
    open spec fn approx_eq_spec(&self, other: &i64) -> bool {
        *self == *other
    }

    fn approx_eq(&self, other: &i64) -> (r: bool) {
        *self == *other
    }
}

impl Zero for isize {
    open spec fn zero_value() -> isize {
        0
    }

    fn zero() -> (r: isize) {
        0
    }
}

impl One for isize {
    open spec fn one_value() -> isize {
        1
    }

    fn one() -> (r: isize) {
        1
    }
}

/// Integers are compared exactly.
impl ApproxEq<isize> for isize {
    open spec fn approx_eq_spec(&self, other: &isize) -> bool {
        *self == *other
    }

    fn approx_eq(&self, other: &isize) -> (r: bool) {
        *self == *other
    }
}

impl Zero for u8 {
    open spec fn zero_value() -> u8 {
        0
    }

    fn zero() -> (r: u8) {
        0
    }
}

impl One for u8 {
    open spec fn one_value() -> u8 {
        1
    }

    fn one() -> (r: u8) {
        1
    }
}

/// Integers are compared exactly.
impl ApproxEq<u8> for u8 {
    open spec fn approx_eq_spec(&self, other: &u8) -> bool {
        *self == *other
    }

    fn approx_eq(&self, other: &u8) -> (r: bool) {
        *self == *other
    }
}

impl Zero for u16 {
    open spec fn zero_value() -> u16 {
        0
    }

    fn zero() -> (r: u16) {
        0
    }
}

impl One for u16 {
    open spec fn one_value() -> u16 {
        1
    }

    fn one() -> (r: u16) {
        1
    }
}

/// Integers are compared exactly.
impl ApproxEq<u16> for u16 {
    open spec fn approx_eq_spec(&self, other: &u16) -> bool {
        *self == *other
    }

    fn approx_eq(&self, other: &u16) -> (r: bool) {
        *self == *other
    }
}

impl Zero for u32 {
    open spec fn zero_value() -> u32 {
        0
    }

    fn zero() -> (r: u32) {
        0
    }
}

impl One for u32 {
    open spec fn one_value() -> u32 {
        1
    }

    fn one() -> (r: u32) {
        1
    }
}

/// Integers are compared exactly.
impl ApproxEq<u32> for u32 {
    open spec fn approx_eq_spec(&self, other: &u32) -> bool {
        *self == *other
    }

    fn approx_eq(&self, other: &u32) -> (r: bool) {
        *self == *other
    }
}

impl Zero for u64 {
    open spec fn zero_value() -> u64 {
        0
    }

    fn zero() -> (r: u64) {
        0
    }
}

impl One for u64 {
    open spec fn one_value() -> u64 {
        1
    }

    fn one() -> (r: u64) {
        1
    }
}

/// Integers are compared exactly.
impl ApproxEq<u64> for u64 {
    open spec fn approx_eq_spec(&self, other: &u64) -> bool {
        *self == *other
    }

    fn approx_eq(&self, other: &u64) -> (r: bool) {
        *self == *other
    }
}

impl Zero for usize {
    open spec fn zero_value() -> usize {
        0
    }

    fn zero() -> (r: usize) {
        0
    }
}

impl One for usize {
    open spec fn one_value() -> usize {
        1
    }

    fn one() -> (r: usize) {
        1
    }
}

/// Integers are compared exactly.
impl ApproxEq<usize> for usize {
    open spec fn approx_eq_spec(&self, other: &usize) -> bool {
        *self == *other
    }

    fn approx_eq(&self, other: &usize) -> (r: bool) {
        *self == *other
    }
}

} // verus!
