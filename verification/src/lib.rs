//! An exact planar-geometry kernel.
//!
//! Shapes are described with integer and rational coordinates, so every
//! predicate (incidence, intersection counting, orientation, containment)
//! is decided exactly rather than through floating-point rounding.

pub mod rat;
pub mod three;
pub mod two;

use vstd::prelude::*;

verus! {

/// Canonical orientation of an ordered triple of points or of a closed
/// boundary: counterclockwise is `Positive`, clockwise is `Negative`,
/// collinear or degenerate is `Zero`.
#[derive(Clone, Copy, Debug, PartialEq, Eq, Structural)]
pub enum Orient {
    Negative,
    Positive,
    Zero,
}

pub fn add(left: usize, right: usize) -> (r: usize)
    requires
        left + right <= usize::MAX,
    ensures
        r == left + right,
{
    left + right
}

} // verus!
