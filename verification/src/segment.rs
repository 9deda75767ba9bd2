//! Line segments, and the distance between two of them.

use vstd::prelude::*;
use crate::error::GeometryError;
use crate::exact::{Distance, Fraction};
use crate::line::{Line, LineEq};
use crate::point::{HPoint, Point, RationalPoint};

verus! {

/// The smaller of two integers.
pub open spec fn least(x: int, y: int) -> int {
    if x <= y {
        x
    } else {
        y
    }
}

/// The piece of a line between `p1` and `p2`, which differ.
#[derive(Clone, Copy, Debug, PartialEq, Eq, Structural)]
pub struct Segment {
    pub p1: Point,
    pub p2: Point,
}

impl Segment {
    /// Both ends are in range, and they differ.
    pub open spec fn wf(self) -> bool {
        &&& self.p1.wf()
        &&& self.p2.wf()
        &&& self.p1 != self.p2
    }

    /// The run from the first end to the second.
    pub open spec fn dx(self) -> int {
        self.p2.x - self.p1.x
    }

    /// The rise from the first end to the second.
    pub open spec fn dy(self) -> int {
        self.p2.y - self.p1.y
    }

    /// The square of the segment's length.
    pub open spec fn spec_length_squared(self) -> int {
        self.dx() * self.dx() + self.dy() * self.dy()
    }

    /// The line on which the segment lies.
    pub open spec fn spec_line(self) -> LineEq {
        LineEq::through(self.p1, self.p2)
    }

    /// The line through `p` at a right angle to the segment.
    pub open spec fn spec_perpendicular_through(self, p: Point) -> LineEq {
        self.spec_line().perpendicular_through(p)
    }

    /// The perpendicular through the first end.
    pub open spec fn spec_perpendicular_1(self) -> LineEq {
        self.spec_perpendicular_through(self.p1)
    }

    /// The perpendicular through the second end.
    pub open spec fn spec_perpendicular_2(self) -> LineEq {
        self.spec_perpendicular_through(self.p2)
    }

    /// How far `h` lies along the segment, measured from the first end: with
    /// `h` written as `p1 + t * (p2 - p1)` plus something perpendicular, this
    /// is `t`, scaled by `h.w` and by the square of the segment's length.
    pub open spec fn along(self, h: HPoint) -> int {
        self.dx() * (h.x - h.w * self.p1.x) + self.dy() * (h.y - h.w * self.p1.y)
    }

    /// How far `h` lies to the side of the segment's line, on the same
    /// scale as `along`. It is zero exactly on the line.
    pub open spec fn across(self, h: HPoint) -> int {
        self.dx() * (h.y - h.w * self.p1.y) - self.dy() * (h.x - h.w * self.p1.x)
    }

    /// The point lies in the segment's shadow, the strip between the
    /// perpendiculars through the two ends: it is strictly on opposite sides
    /// of the two.
    pub open spec fn spec_shadows(self, h: HPoint) -> bool {
        let side_1: int = self.spec_perpendicular_1().eval(h);
        let side_2: int = self.spec_perpendicular_2().eval(h);
        (side_1 > 0 && side_2 < 0) || (side_1 < 0 && side_2 > 0)
    }

    /// The point lies level with the segment: in its shadow or on the
    /// shadow's edge.
    pub open spec fn covers(self, h: HPoint) -> bool {
        0 <= self.along(h) <= h.w * self.spec_length_squared()
    }

    /// The point lies on the segment, ends included.
    pub open spec fn contains(self, h: HPoint) -> bool {
        &&& self.spec_line().contains(h)
        &&& self.covers(h)
    }

    /// For a point of the segment's line outside its shadow, the end on the
    /// point's side.
    pub open spec fn spec_near(self, h: HPoint) -> Point {
        if self.along(h) <= 0 {
            self.p1
        } else {
            self.p2
        }
    }

    /// The square of the distance from `p` to the nearest point of the
    /// segment: in the shadow the distance to the line, elsewhere the distance
    /// to the nearer end.
    pub open spec fn spec_distance_to_point(self, p: Point) -> Fraction {
        if self.spec_shadows(p@) {
            self.spec_line().distance_squared(p)
        } else {
            Fraction {
                num: least(self.p1.spec_distance_squared(p), self.p2.spec_distance_squared(p)),
                den: 1,
            }
        }
    }

    /// The distance between the ends `mine` of this segment and `theirs` of
    /// the other, or from one of them to the other segment's line where that
    /// segment's shadow holds it.
    pub open spec fn spec_corner_distance(self, other: Segment, mine: Point, theirs: Point) -> Fraction {
        if self.spec_shadows(theirs@) {
            self.spec_line().distance_squared(theirs)
        } else if other.spec_shadows(mine@) {
            other.spec_line().distance_squared(mine)
        } else {
            Fraction { num: mine.spec_distance_squared(theirs), den: 1 }
        }
    }

    /// The distance between two segments on parallel lines: the distance
    /// between the lines where one segment's shadow holds an end of the
    /// other, and the least distance between two ends elsewhere.
    pub open spec fn spec_parallel_distance(self, other: Segment) -> Fraction {
        if self.spec_shadows(other.p1@) || self.spec_shadows(other.p2@) {
            self.spec_line().distance_squared(other.p1)
        } else if other.spec_shadows(self.p1@) || other.spec_shadows(self.p2@) {
            other.spec_line().distance_squared(self.p1)
        } else {
            Fraction {
                num: least(
                    least(
                        self.p1.spec_distance_squared(other.p1),
                        self.p1.spec_distance_squared(other.p2),
                    ),
                    least(
                        self.p2.spec_distance_squared(other.p1),
                        self.p2.spec_distance_squared(other.p2),
                    ),
                ),
                den: 1,
            }
        }
    }

    /// The square of the distance between the two segments. On parallel
    /// lines it is `spec_parallel_distance`. On crossing lines it goes by
    /// the position of the point `x` in which the lines cross:
    /// in both shadows, the segments cross and the distance is zero;
    /// in one shadow only, the distance from the other segment's end nearest
    /// `x` to the line of the segment whose shadow holds `x`;
    /// in neither, the distance that the two ends nearest `x` give.
    pub open spec fn spec_distance_to_segment(self, other: Segment) -> Fraction {
        let mine: LineEq = self.spec_line();
        let theirs: LineEq = other.spec_line();
        if mine.parallel(theirs) {
            self.spec_parallel_distance(other)
        } else {
            let x: HPoint = mine.meet(theirs);
            if self.spec_shadows(x) && other.spec_shadows(x) {
                Fraction { num: 0, den: 1 }
            } else if self.spec_shadows(x) {
                mine.distance_squared(other.spec_near(x))
            } else if other.spec_shadows(x) {
                theirs.distance_squared(self.spec_near(x))
            } else {
                self.spec_corner_distance(other, self.spec_near(x), other.spec_near(x))
            }
        }
    }

    /// The first perpendicular measures `along`, and the second measures
    /// `along` less the whole length.
    pub proof fn lemma_sides(self, h: HPoint)
        ensures
            self.spec_perpendicular_1().eval(h) == self.along(h),
            self.spec_perpendicular_2().eval(h) == self.along(h) - h.w * self.spec_length_squared(),
    {
        let dx: int = self.dx();
        let dy: int = self.dy();
        let x1: int = self.p1.x as int;
        let y1: int = self.p1.y as int;
        let x2: int = self.p2.x as int;
        let y2: int = self.p2.y as int;
        assert(self.spec_perpendicular_1().eval(h) == dx * h.x + dy * h.y + (-dx * x1 - dy * y1)
            * h.w);
        assert(self.spec_perpendicular_2().eval(h) == dx * h.x + dy * h.y + (-dx * x2 - dy * y2)
            * h.w);
        let w: int = h.w;
        assert(dx * (h.x - w * x1) == dx * h.x - dx * x1 * w) by (nonlinear_arith);
        assert(dy * (h.y - w * y1) == dy * h.y - dy * y1 * w) by (nonlinear_arith);
        assert((-dx * x1 - dy * y1) * w == -(dx * x1 * w) - dy * y1 * w) by (nonlinear_arith);
        assert((-dx * x2 - dy * y2) * w == -(dx * x2 * w) - dy * y2 * w) by (nonlinear_arith);
        assert(dx * x2 * w == dx * x1 * w + dx * dx * w) by (nonlinear_arith)
            requires
                x2 == x1 + dx,
        ;
        assert(dy * y2 * w == dy * y1 * w + dy * dy * w) by (nonlinear_arith)
            requires
                y2 == y1 + dy,
        ;
        assert(w * (dx * dx + dy * dy) == dx * dx * w + dy * dy * w) by (nonlinear_arith);
    }

    /// The segment's line measures `across`, with the sign turned.
    pub proof fn lemma_line_is_across(self, h: HPoint)
        ensures
            self.spec_line().eval(h) == -self.across(h),
    {
        let dx: int = self.dx();
        let dy: int = self.dy();
        let x1: int = self.p1.x as int;
        let y1: int = self.p1.y as int;
        let w: int = h.w;
        assert(self.spec_line().eval(h) == dy * h.x + (-dx) * h.y + (dx * y1 - dy * x1) * w);
        assert(dx * (h.y - w * y1) == dx * h.y - dx * y1 * w) by (nonlinear_arith);
        assert(dy * (h.x - w * x1) == dy * h.x - dy * x1 * w) by (nonlinear_arith);
        assert((dx * y1 - dy * x1) * w == dx * y1 * w - dy * x1 * w) by (nonlinear_arith);
        assert((-dx) * h.y == -(dx * h.y)) by (nonlinear_arith);
    }

    /// A point is in the shadow exactly when it lies strictly between the two
    /// ends, measured along the segment.
    pub proof fn lemma_shadow_is_between(self, h: HPoint)
        requires
            self.wf(),
            h.w > 0,
        ensures
            self.spec_shadows(h) <==> 0 < self.along(h) < h.w * self.spec_length_squared(),
    {
        self.lemma_sides(h);
        self.lemma_length_positive();
        let l: int = self.spec_length_squared();
        assert(h.w * l > 0) by (nonlinear_arith)
            requires
                h.w > 0,
                l > 0,
        ;
    }

    /// A segment has a length.
    pub proof fn lemma_length_positive(self)
        requires
            self.wf(),
        ensures
            self.spec_length_squared() > 0,
            self.spec_line().nondegenerate(),
    {
        crate::algebra::lemma_norm_zero(self.dx(), self.dy());
    }

    /// The segment between two points, which must differ.
    pub fn new(p1: Point, p2: Point) -> (r: Result<Segment, GeometryError>)
        ensures
            p1 == p2 <==> r is Err,
            r matches Err(e) ==> e == GeometryError::DegenerateInput,
            r matches Ok(s) ==> s.p1 == p1 && s.p2 == p2,
    {
        if p1.x == p2.x && p1.y == p2.y {
            Err(GeometryError::DegenerateInput)
        } else {
            Ok(Segment { p1, p2 })
        }
    }

    /// Whether the segment is one that the geometry accepts.
    pub fn in_range(&self) -> (r: bool)
        ensures
            r == self.wf(),
    {
        self.p1.in_range() && self.p2.in_range() && !(self.p1.x == self.p2.x && self.p1.y
            == self.p2.y)
    }

    /// The segment's length.
    pub fn length(&self) -> (r: Distance)
        requires
            self.wf(),
        ensures
            r.wf(),
            r@ == (Fraction { num: self.spec_length_squared(), den: 1 }),
    {
        self.p2.distance(self.p1)
    }

    /// The line on which the segment lies. Its normal is brought to length
    /// one by the segment's length.
    pub fn line(&self) -> (l: Line)
        requires
            self.wf(),
        ensures
            l.wf(),
            l@ == self.spec_line(),
            l.n == self.spec_length_squared(),
    {
        proof {
            crate::relative::lemma_line_norm(*self);
        }
        Line::through(self.p1, self.p2)
    }

    /// The line through `p` at a right angle to the segment.
    pub fn perpendicular_through(&self, p: Point) -> (l: Line)
        requires
            self.wf(),
            p.wf(),
        ensures
            l.wf(),
            l@ == self.spec_perpendicular_through(p),
    {
        self.line().perpendicular_through(p)
    }

    /// The perpendicular through the first end.
    pub fn perpendicular_1(&self) -> (l: Line)
        requires
            self.wf(),
        ensures
            l.wf(),
            l@ == self.spec_perpendicular_1(),
    {
        self.perpendicular_through(self.p1)
    }

    /// The perpendicular through the second end.
    pub fn perpendicular_2(&self) -> (l: Line)
        requires
            self.wf(),
        ensures
            l.wf(),
            l@ == self.spec_perpendicular_2(),
    {
        self.perpendicular_through(self.p2)
    }

    /// Whether the grid point `p` lies in the segment's shadow: strictly
    /// between the two ends, measured along the segment.
    pub fn shadows_point(&self, p: Point) -> (r: bool)
        requires
            self.wf(),
        ensures
            r == self.spec_shadows(p@),
            r == (0 < self.along(p@) < self.spec_length_squared()),
    {
        proof {
            self.lemma_shadow_is_between(p@);
        }
        let side_1: i128 = self.perpendicular_1().evaluate(p);
        let side_2: i128 = self.perpendicular_2().evaluate(p);
        (side_1 > 0 && side_2 < 0) || (side_1 < 0 && side_2 > 0)
    }

    /// Whether the rational point `p` lies in the segment's shadow: strictly
    /// between the two ends, measured along the segment.
    pub fn shadows_rational(&self, p: &RationalPoint) -> (r: bool)
        requires
            self.wf(),
            p.wf(),
        ensures
            r == self.spec_shadows(p@),
            r == (0 < self.along(p@) < p.w * self.spec_length_squared()),
    {
        proof {
            self.lemma_shadow_is_between(p@);
        }
        let side_1: i128 = self.perpendicular_1().evaluate_rational(p);
        let side_2: i128 = self.perpendicular_2().evaluate_rational(p);
        (side_1 > 0 && side_2 < 0) || (side_1 < 0 && side_2 > 0)
    }

    /// The distance from `p` to the nearest point of the segment. It is zero
    /// exactly when `p` lies on the segment.
    pub fn distance_to_point(&self, p: Point) -> (r: Distance)
        requires
            self.wf(),
            p.wf(),
        ensures
            r.wf(),
            r@ == self.spec_distance_to_point(p),
            r@.num == 0 <==> self.contains(p@),
    {
        proof {
            crate::laws::law_zero_distance_is_on_segment(*self, p);
        }
        if self.shadows_point(p) {
            self.line().distance_to_point(p)
        } else {
            let d1: u128 = self.p1.distance_squared(p);
            let d2: u128 = self.p2.distance_squared(p);
            if d1 <= d2 {
                Distance::from_square(d1)
            } else {
                Distance::from_square(d2)
            }
        }
    }

    /// The end of the segment on the side of `p`, for a point `p` of the
    /// segment's line that is outside the segment's shadow.
    pub fn near_point_along(&self, p: &RationalPoint) -> (r: Point)
        requires
            self.wf(),
            p.wf(),
            self.spec_line().contains(p@),
            !self.spec_shadows(p@),
        ensures
            r == self.spec_near(p@),
    {
        let side_1: i128 = self.perpendicular_1().evaluate_rational(p);
        proof {
            self.lemma_sides(p@);
        }
        if side_1 <= 0 {
            self.p1
        } else {
            self.p2
        }
    }

    /// The distance between the two segments, by the case split of
    /// `spec_distance_to_segment`. Where that selects two points that are each
    /// the other's nearest, no point of the one segment and point of the
    /// other are nearer than the result.
    pub fn distance_to_segment(&self, other: Segment) -> (r: Distance)
        requires
            self.wf(),
            other.wf(),
        ensures
            r.wf(),
            r@ == self.spec_distance_to_segment(other),
            self.spec_selects_nearest(other) ==> forall|g: HPoint, h: HPoint|
                g.w > 0 && h.w > 0 && self.contains(g) && other.contains(h) ==> r@.at_most(
                    #[trigger] g.gap_squared(h),
                ),
    {
        proof {
            if self.spec_selects_nearest(other) {
                assert forall|g: HPoint, h: HPoint|
                    g.w > 0 && h.w > 0 && self.contains(g) && other.contains(
                        h,
                    ) implies self.spec_distance_to_segment(other).at_most(
                    #[trigger] g.gap_squared(h),
                ) by {
                    crate::nearest::law_distance_is_lower_bound(*self, other, g, h);
                }
            }
        }
        let mine: Line = self.line();
        let theirs: Line = other.line();
        match mine.intersection(theirs) {
            Ok(x) => {
                proof {
                    mine@.lemma_meet_on_both(theirs@);
                }
                let in_mine: bool = self.shadows_rational(&x);
                let in_theirs: bool = other.shadows_rational(&x);
                if in_mine && in_theirs {
                    Distance::zero()
                } else if in_mine {
                    mine.distance_to_point(other.near_point_along(&x))
                } else if in_theirs {
                    theirs.distance_to_point(self.near_point_along(&x))
                } else {
                    let my_end: Point = self.near_point_along(&x);
                    let their_end: Point = other.near_point_along(&x);
                    if self.shadows_point(their_end) {
                        mine.distance_to_point(their_end)
                    } else if other.shadows_point(my_end) {
                        theirs.distance_to_point(my_end)
                    } else {
                        my_end.distance(their_end)
                    }
                }
            },
            Err(_) => {
                if self.shadows_point(other.p1) || self.shadows_point(other.p2) {
                    mine.distance_to_point(other.p1)
                } else if other.shadows_point(self.p1) || other.shadows_point(self.p2) {
                    theirs.distance_to_point(self.p1)
                } else {
                    let d11: u128 = self.p1.distance_squared(other.p1);
                    let d12: u128 = self.p1.distance_squared(other.p2);
                    let d21: u128 = self.p2.distance_squared(other.p1);
                    let d22: u128 = self.p2.distance_squared(other.p2);
                    let d1: u128 = if d11 <= d12 { d11 } else { d12 };
                    let d2: u128 = if d21 <= d22 { d21 } else { d22 };
                    Distance::from_square(if d1 <= d2 { d1 } else { d2 })
                }
            },
        }
    }
}

} // verus!
