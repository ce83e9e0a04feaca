//! Constructive solid geometry: combinations of two implicit functions.
//!
//! The combinations hold their two operands; sampling them is floating
//! point work that lives with the sources that implement it.

use vstd::prelude::*;

verus! {

/// The CSG union operation. An implicit function that is solid where either of
/// the provided implicit functions is solid.
pub struct Union<A, B> {
    /// The first implicit function.
    pub a: A,
    /// The second implicit function.
    pub b: B,
}

impl<A, B> Union<A, B> {
    pub fn new(a: A, b: B) -> (union: Self)
        ensures
            union.a == a,
            union.b == b,
    {
        Self { a, b }
    }
}

/// The CSG intersection operation. An implicit function that is solid only
/// where both of the provided implicit functions are solid.
pub struct Intersection<A, B> {
    /// The first implicit function.
    pub a: A,
    /// The second implicit function.
    pub b: B,
}

impl<A, B> Intersection<A, B> {
    pub fn new(a: A, b: B) -> (intersection: Self)
        ensures
            intersection.a == a,
            intersection.b == b,
    {
        Self { a, b }
    }
}

/// The CSG difference operation. Subtracts the first provided implicit function
/// from the second, i.e. the result is solid where the second
/// function is solid, except where the first is solid.
pub struct Difference<A, B> {
    /// The first implicit function.
    pub a: A,
    /// The second implicit function.
    pub b: B,
}

impl<A, B> Difference<A, B> {
    pub fn new(a: A, b: B) -> (difference: Self)
        ensures
            difference.a == a,
            difference.b == b,
    {
        Self { a, b }
    }
}

} // verus!
