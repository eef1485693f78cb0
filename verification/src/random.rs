//! Random entries, drawn with the `rand` crate.
use vstd::prelude::*;
use rand::distributions::{Distribution, Standard};

verus! {

/// Types whose values can be drawn at random.
pub trait RandomEntry: Sized {
    /// A value drawn at random; nothing is known of it.
    fn random_entry() -> Self;
}

/// Calls `rand::random::<T>()`, which draws a value of `T` from the
/// thread-local generator; the contract states nothing of the value.
#[verifier::external_body]
fn random_value<T>() -> (r: T)
    where
        Standard: Distribution<T>,
{
    rand::random::<T>()
}

impl RandomEntry for bool {
    fn random_entry() -> bool {
        random_value::<bool>()
    }
}

impl RandomEntry for char {
    fn random_entry() -> char {
        random_value::<char>()
    }
}

impl RandomEntry for i8 {
    fn random_entry() -> i8 {
        random_value::<i8>()
    }
}

impl RandomEntry for i16 {
    fn random_entry() -> i16 {
        random_value::<i16>()
    }
}

impl RandomEntry for isize {
    fn random_entry() -> isize {
        random_value::<isize>()
    }
}

impl RandomEntry for u8 {
    fn random_entry() -> u8 {
        random_value::<u8>()
    }
}

impl RandomEntry for u16 {
    fn random_entry() -> u16 {
        random_value::<u16>()
    }
}

impl RandomEntry for i32 {
    fn random_entry() -> i32 {
        random_value::<i32>()
    }
}

impl RandomEntry for i64 {
    fn random_entry() -> i64 {
        random_value::<i64>()
    }
}

impl RandomEntry for u32 {
    fn random_entry() -> u32 {
        random_value::<u32>()
    }
}

impl RandomEntry for u64 {
    fn random_entry() -> u64 {
        random_value::<u64>()
    }
}

impl RandomEntry for usize {
    fn random_entry() -> usize {
        random_value::<usize>()
    }
}

} // verus!
