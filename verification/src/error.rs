//! The ways in which a geometric configuration can be unusable.

use vstd::prelude::*;
use crate::line::Line;

verus! {

/// A configuration that the geometry cannot work on. None of these is
/// transient: each reports a mistake in what the caller handed over.
#[derive(Clone, Copy, Debug, PartialEq, Eq, Structural)]
pub enum GeometryError {
    /// Two points that must differ coincide, so no direction is defined.
    DegenerateInput,
    /// The two lines are parallel or identical: they cross in no single point.
    UndefinedIntersection { first: Line, second: Line },
    /// A radius is negative.
    InvalidGeometry,
}

} // verus!
