//! Grid points, and the rational points in which lines cross.

use vstd::prelude::*;
use crate::exact::{
    lemma_product_bound, lemma_square_nonnegative, Distance, Fraction, COORD_MAX, MEET_DEN_MAX,
    MEET_MAX, SPAN_MAX,
};
use crate::line::Line;
use crate::vector::Vector;

verus! {

/// The point `(x / w, y / w)` of the rational plane.
pub struct HPoint {
    pub x: int,
    pub y: int,
    pub w: int,
}

/// A point of the grid.
#[derive(Clone, Copy, Debug, PartialEq, Eq, Structural)]
pub struct Point {
    pub x: i64,
    pub y: i64,
}

impl View for Point {
    type V = HPoint;

    open spec fn view(&self) -> HPoint {
        HPoint { x: self.x as int, y: self.y as int, w: 1 }
    }
}

/// The point `(x / w, y / w)`, with `w` positive: where two lines cross.
#[derive(Clone, Copy, Debug, PartialEq, Eq, Structural)]
pub struct RationalPoint {
    pub x: i128,
    pub y: i128,
    pub w: i128,
}

impl View for RationalPoint {
    type V = HPoint;

    open spec fn view(&self) -> HPoint {
        HPoint { x: self.x as int, y: self.y as int, w: self.w as int }
    }
}

impl RationalPoint {
    /// The denominator is positive, and all three parts are small enough for
    /// a line to be evaluated at the point.
    pub open spec fn wf(self) -> bool {
        &&& 0 < self.w <= MEET_DEN_MAX
        &&& -MEET_MAX <= self.x <= MEET_MAX
        &&& -MEET_MAX <= self.y <= MEET_MAX
    }

    /// Whether the point is one that the geometry accepts.
    pub fn in_range(&self) -> (r: bool)
        ensures
            r == self.wf(),
    {
        0 < self.w && self.w <= MEET_DEN_MAX && -MEET_MAX <= self.x && self.x <= MEET_MAX
            && -MEET_MAX <= self.y && self.y <= MEET_MAX
    }
}

impl Point {
    /// Both coordinates are within `COORD_MAX` of the origin.
    pub open spec fn wf(self) -> bool {
        &&& -COORD_MAX <= self.x <= COORD_MAX
        &&& -COORD_MAX <= self.y <= COORD_MAX
    }

    /// The square of the distance between the two points.
    pub open spec fn spec_distance_squared(self, other: Point) -> int {
        (self.x - other.x) * (self.x - other.x) + (self.y - other.y) * (self.y - other.y)
    }

    /// Whether the point lies strictly above the line: its `y` exceeds the
    /// line's `y` at the point's `x`. Meaningful where the line is not
    /// vertical.
    pub open spec fn spec_above(self, line: Line) -> bool {
        let at: Fraction = line@.y_at(self.x as int);
        self.y * at.den > at.num
    }

    /// The grid point `(x, y)`.
    pub fn new(x: i64, y: i64) -> (p: Point)
        ensures
            p.x == x,
            p.y == y,
    {
        Point { x, y }
    }

    /// Whether the point is one that the geometry accepts.
    pub fn in_range(&self) -> (r: bool)
        ensures
            r == self.wf(),
    {
        -COORD_MAX <= self.x && self.x <= COORD_MAX && -COORD_MAX <= self.y && self.y <= COORD_MAX
    }

    /// The same point as a rational point.
    pub fn to_rational(&self) -> (r: RationalPoint)
        requires
            self.wf(),
        ensures
            r.wf(),
            r@ == self@,
    {
        RationalPoint { x: self.x as i128, y: self.y as i128, w: 1 }
    }

    /// The square of the distance to `other`.
    pub fn distance_squared(&self, other: Point) -> (r: u128)
        requires
            self.wf(),
            other.wf(),
        ensures
            r == self.spec_distance_squared(other),
    {
        let dx: i128 = self.x as i128 - other.x as i128;
        let dy: i128 = self.y as i128 - other.y as i128;
        proof {
            lemma_product_bound(dx as int, dx as int, SPAN_MAX as int, SPAN_MAX as int);
            lemma_product_bound(dy as int, dy as int, SPAN_MAX as int, SPAN_MAX as int);
            lemma_square_nonnegative(dx as int);
            lemma_square_nonnegative(dy as int);
        }
        (dx * dx + dy * dy) as u128
    }

    /// The distance to `other`.
    pub fn distance(&self, other: Point) -> (r: Distance)
        requires
            self.wf(),
            other.wf(),
        ensures
            r.wf(),
            r@ == (Fraction { num: self.spec_distance_squared(other), den: 1 }),
    {
        Distance::from_square(self.distance_squared(other))
    }

    /// The point displaced by `v`.
    pub fn plus(&self, v: Vector) -> (r: Point)
        requires
            self.wf(),
            v.wf(),
        ensures
            r.x == self.x + v.x,
            r.y == self.y + v.y,
    {
        Point { x: self.x + v.x, y: self.y + v.y }
    }

    /// The point displaced against `v`.
    pub fn minus(&self, v: Vector) -> (r: Point)
        requires
            self.wf(),
            v.wf(),
        ensures
            r.x == self.x - v.x,
            r.y == self.y - v.y,
    {
        Point { x: self.x - v.x, y: self.y - v.y }
    }

    /// The displacement that leads from this point to `other`.
    pub fn towards(&self, other: Point) -> (v: Vector)
        requires
            self.wf(),
            other.wf(),
        ensures
            v.wf(),
            v.x == other.x - self.x,
            v.y == other.y - self.y,
    {
        Vector { x: other.x - self.x, y: other.y - self.y }
    }

    /// Whether the point lies strictly above the line. A vertical line has
    /// nothing above it.
    pub fn above(&self, line: Line) -> (r: Option<bool>)
        requires
            line.wf(),
        ensures
            r == (if line.b == 0 {
                None
            } else {
                Some(self.spec_above(line))
            }),
    {
        if line.b == 0 {
            None
        } else {
            let side: i128 = line.evaluate(*self);
            proof {
                line@.lemma_above_is_a_side(*self);
            }
            if line.b > 0 {
                Some(side > 0)
            } else {
                Some(side < 0)
            }
        }
    }
}

} // verus!
