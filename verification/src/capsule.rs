//! Capsules: segments swept by a radius.

use vstd::prelude::*;
use crate::error::GeometryError;
use crate::line::Line;
use crate::point::Point;
use crate::segment::Segment;

verus! {

/// All points within `r` of a segment: the segment swept by a disk of radius
/// `r`.
#[derive(Clone, Copy, Debug, PartialEq, Eq, Structural)]
pub struct Capsule {
    pub segment: Segment,
    pub r: i64,
}

impl Capsule {
    /// The segment is acceptable and the radius is not negative.
    pub open spec fn wf(self) -> bool {
        &&& self.segment.wf()
        &&& self.r >= 0
    }

    /// The two capsules overlap: their segments are nearer to each other
    /// than the sum of the radii. Capsules that only touch do not overlap.
    pub open spec fn spec_collides(self, other: Capsule) -> bool {
        self.segment.spec_distance_to_segment(other.segment).shorter_than(self.r + other.r)
    }

    /// The capsule around the segment from `p1` to `p2`. The ends must
    /// differ, and the radius must not be negative.
    pub fn new(p1: Point, p2: Point, r: i64) -> (c: Result<Capsule, GeometryError>)
        ensures
            c is Ok <==> p1 != p2 && r >= 0,
            c matches Ok(k) ==> k.segment.p1 == p1 && k.segment.p2 == p2 && k.r == r,
            c matches Err(e) ==> e == (if p1 == p2 {
                GeometryError::DegenerateInput
            } else {
                GeometryError::InvalidGeometry
            }),
    {
        match Segment::new(p1, p2) {
            Ok(segment) => {
                if r < 0 {
                    Err(GeometryError::InvalidGeometry)
                } else {
                    Ok(Capsule { segment, r })
                }
            },
            Err(e) => Err(e),
        }
    }

    /// Whether the capsule is one that the geometry accepts.
    pub fn in_range(&self) -> (r: bool)
        ensures
            r == self.wf(),
    {
        self.segment.in_range() && self.r >= 0
    }

    /// The capsule's middle segment.
    pub fn segment(&self) -> (s: Segment)
        ensures
            s == self.segment,
    {
        self.segment
    }

    /// The line on which the capsule's middle segment lies.
    pub fn line(&self) -> (l: Line)
        requires
            self.wf(),
        ensures
            l.wf(),
            l@ == self.segment.spec_line(),
            l.n == self.segment.spec_length_squared(),
    {
        self.segment.line()
    }

    /// Whether the two capsules overlap.
    pub fn collides(&self, other: Capsule) -> (r: bool)
        requires
            self.wf(),
            other.wf(),
        ensures
            r == self.spec_collides(other),
    {
        let reach: u64 = self.r as u64 + other.r as u64;
        self.segment.distance_to_segment(other.segment).shorter_than(reach)
    }
}

} // verus!
