//! How points lie relative to a segment, and how the measures taken by two
//! segments relate.

use vstd::prelude::*;
use crate::algebra::{cross, dot, lemma_resolve, lemma_second_linear, lemma_second_scaled, norm};
use crate::exact::Fraction;
use crate::point::HPoint;
use crate::segment::Segment;

verus! {

/// The run from `g` to `h`, scaled by both denominators.
pub open spec fn offset_x(g: HPoint, h: HPoint) -> int {
    g.w * h.x - h.w * g.x
}

/// The rise from `g` to `h`, scaled by both denominators.
pub open spec fn offset_y(g: HPoint, h: HPoint) -> int {
    g.w * h.y - h.w * g.y
}

impl HPoint {
    /// The square of the distance between the two points.
    pub open spec fn gap_squared(self, other: HPoint) -> Fraction {
        Fraction {
            num: norm(offset_x(self, other), offset_y(self, other)),
            den: (self.w * other.w) * (self.w * other.w),
        }
    }

    /// The distance between two points is the same in both directions.
    pub proof fn lemma_gap_symmetric(self, other: HPoint)
        ensures
            self.gap_squared(other) == other.gap_squared(self),
    {
        let rx: int = offset_x(self, other);
        let ry: int = offset_y(self, other);
        assert(rx * rx == (-rx) * (-rx)) by (nonlinear_arith);
        assert(ry * ry == (-ry) * (-ry)) by (nonlinear_arith);
        assert(self.w * other.w == other.w * self.w) by (nonlinear_arith);
    }
}

impl Segment {
    /// Between two points of the segment's line, the vector is the segment's
    /// direction, scaled by the difference of what the segment measures along
    /// itself.
    pub proof fn lemma_on_line_offset(self, g: HPoint, h: HPoint)
        requires
            self.across(g) == 0,
            self.across(h) == 0,
        ensures
            self.spec_length_squared() * offset_x(g, h) == (g.w * self.along(h) - h.w
                * self.along(g)) * self.dx(),
            self.spec_length_squared() * offset_y(g, h) == (g.w * self.along(h) - h.w
                * self.along(g)) * self.dy(),
    {
        let ex: int = self.dx();
        let ey: int = self.dy();
        let rx: int = offset_x(g, h);
        let ry: int = offset_y(g, h);
        self.lemma_relative(g, h);
        let t: int = dot(ex, ey, rx, ry);
        assert(cross(ex, ey, rx, ry) == 0) by (nonlinear_arith)
            requires
                cross(ex, ey, rx, ry) == g.w * self.across(h) - h.w * self.across(g),
                self.across(g) == 0,
                self.across(h) == 0,
        ;
        lemma_resolve(ex, ey, rx, ry);
        assert(cross(ex, ey, rx, ry) * ey == 0) by (nonlinear_arith)
            requires
                cross(ex, ey, rx, ry) == 0,
        ;
        assert(cross(ex, ey, rx, ry) * ex == 0) by (nonlinear_arith)
            requires
                cross(ex, ey, rx, ry) == 0,
        ;
    }

    /// The dot product of the two segments' directions.
    pub open spec fn dot_with(self, other: Segment) -> int {
        dot(self.dx(), self.dy(), other.dx(), other.dy())
    }

    /// The cross product of the two segments' directions: zero exactly when
    /// their lines are parallel.
    pub open spec fn cross_with(self, other: Segment) -> int {
        cross(self.dx(), self.dy(), other.dx(), other.dy())
    }

    /// The difference of what the segment measures at two points is what its
    /// direction measures of the vector between them.
    pub proof fn lemma_relative(self, g: HPoint, h: HPoint)
        ensures
            g.w * self.along(h) - h.w * self.along(g) == dot(
                self.dx(),
                self.dy(),
                offset_x(g, h),
                offset_y(g, h),
            ),
            g.w * self.across(h) - h.w * self.across(g) == cross(
                self.dx(),
                self.dy(),
                offset_x(g, h),
                offset_y(g, h),
            ),
    {
        let dx: int = self.dx();
        let dy: int = self.dy();
        let x1: int = self.p1.x as int;
        let y1: int = self.p1.y as int;
        let hx: int = h.x - h.w * x1;
        let hy: int = h.y - h.w * y1;
        let gx: int = g.x - g.w * x1;
        let gy: int = g.y - g.w * y1;
        let rx: int = offset_x(g, h);
        let ry: int = offset_y(g, h);
        assert(g.w * hx - h.w * gx == rx) by (nonlinear_arith)
            requires
                hx == h.x - h.w * x1,
                gx == g.x - g.w * x1,
                rx == g.w * h.x - h.w * g.x,
        ;
        assert(g.w * hy - h.w * gy == ry) by (nonlinear_arith)
            requires
                hy == h.y - h.w * y1,
                gy == g.y - g.w * y1,
                ry == g.w * h.y - h.w * g.y,
        ;
        lemma_second_scaled(dx, dy, hx, hy, g.w);
        lemma_second_scaled(dx, dy, gx, gy, h.w);
        lemma_second_linear(dx, dy, g.w * hx, g.w * hy, h.w * gx, h.w * gy);
        assert(self.along(h) == dot(dx, dy, hx, hy));
        assert(self.along(g) == dot(dx, dy, gx, gy));
        assert(self.across(h) == cross(dx, dy, hx, hy));
        assert(self.across(g) == cross(dx, dy, gx, gy));
    }

    /// Between two points of the other segment's line, what this segment
    /// measures changes in proportion to what the other segment measures
    /// along itself.
    pub proof fn lemma_transport(self, other: Segment, g: HPoint, h: HPoint)
        requires
            other.across(g) == 0,
            other.across(h) == 0,
        ensures
            other.spec_length_squared() * (g.w * self.along(h) - h.w * self.along(g)) == (g.w
                * other.along(h) - h.w * other.along(g)) * self.dot_with(other),
            other.spec_length_squared() * (g.w * self.across(h) - h.w * self.across(g)) == (g.w
                * other.along(h) - h.w * other.along(g)) * self.cross_with(other),
    {
        let dx: int = self.dx();
        let dy: int = self.dy();
        let ex: int = other.dx();
        let ey: int = other.dy();
        let rx: int = offset_x(g, h);
        let ry: int = offset_y(g, h);
        let lb: int = other.spec_length_squared();
        self.lemma_relative(g, h);
        other.lemma_on_line_offset(g, h);
        let t: int = g.w * other.along(h) - h.w * other.along(g);
        let lrx: int = lb * rx;
        let lry: int = lb * ry;
        assert(lb * (dx * rx + dy * ry) == dx * lrx + dy * lry) by (nonlinear_arith)
            requires
                lrx == lb * rx,
                lry == lb * ry,
        ;
        assert(lb * (dx * ry - dy * rx) == dx * lry - dy * lrx) by (nonlinear_arith)
            requires
                lrx == lb * rx,
                lry == lb * ry,
        ;
        assert(dx * (t * ex) + dy * (t * ey) == t * (dx * ex + dy * ey)) by (nonlinear_arith);
        assert(dx * (t * ey) - dy * (t * ex) == t * (dx * ey - dy * ex)) by (nonlinear_arith);
    }

    /// How much further a point is from the second end than from the first.
    pub proof fn lemma_end_gaps(self, h: HPoint)
        ensures
            norm(offset_x(self.p2@, h), offset_y(self.p2@, h)) - norm(
                offset_x(self.p1@, h),
                offset_y(self.p1@, h),
            ) == h.w * (h.w * self.spec_length_squared() - 2 * self.along(h)),
    {
        let dx: int = self.dx();
        let dy: int = self.dy();
        let l: int = self.spec_length_squared();
        let w: int = h.w;
        let rx: int = offset_x(self.p1@, h);
        let ry: int = offset_y(self.p1@, h);
        let tx: int = offset_x(self.p2@, h);
        let ty: int = offset_y(self.p2@, h);
        let along: int = self.along(h);
        assert(along == dx * rx + dy * ry);
        let wdx: int = w * dx;
        let wdy: int = w * dy;
        assert(tx == rx - wdx) by (nonlinear_arith)
            requires
                tx == 1 * h.x - w * self.p2.x,
                rx == 1 * h.x - w * self.p1.x,
                wdx == w * dx,
                dx == self.p2.x - self.p1.x,
        ;
        assert(ty == ry - wdy) by (nonlinear_arith)
            requires
                ty == 1 * h.y - w * self.p2.y,
                ry == 1 * h.y - w * self.p1.y,
                wdy == w * dy,
                dy == self.p2.y - self.p1.y,
        ;
        assert((rx - wdx) * (rx - wdx) == rx * rx - 2 * (rx * wdx) + wdx * wdx)
            by (nonlinear_arith);
        assert((ry - wdy) * (ry - wdy) == ry * ry - 2 * (ry * wdy) + wdy * wdy)
            by (nonlinear_arith);
        assert(rx * wdx + ry * wdy == w * along) by (nonlinear_arith)
            requires
                wdx == w * dx,
                wdy == w * dy,
                along == dx * rx + dy * ry,
        ;
        assert(wdx * wdx + wdy * wdy == w * (w * l)) by (nonlinear_arith)
            requires
                wdx == w * dx,
                wdy == w * dy,
                l == dx * dx + dy * dy,
        ;
        let n1: int = norm(rx, ry);
        let n2: int = norm(tx, ty);
        assert(n2 == n1 - 2 * (w * along) + w * (w * l));
        assert(n2 - n1 == w * (w * l - 2 * along)) by (nonlinear_arith)
            requires
                n2 == n1 - 2 * (w * along) + w * (w * l),
        ;
    }

    /// What the segment measures at its own ends.
    pub proof fn lemma_own_ends(self)
        ensures
            self.along(self.p1@) == 0,
            self.across(self.p1@) == 0,
            self.along(self.p2@) == self.spec_length_squared(),
            self.across(self.p2@) == 0,
    {
        let dx: int = self.dx();
        let dy: int = self.dy();
        assert(dx * 0 + dy * 0 == 0) by (nonlinear_arith);
        assert(dx * 0 - dy * 0 == 0) by (nonlinear_arith);
        assert(dx * dy - dy * dx == 0) by (nonlinear_arith);
        assert(self.along(self.p1@) == dx * 0 + dy * 0);
        assert(self.across(self.p1@) == dx * 0 - dy * 0);
        assert(self.along(self.p2@) == dx * dx + dy * dy);
        assert(self.across(self.p2@) == dx * dy - dy * dx);
    }

    /// The two lines are parallel exactly when the two directions are.
    pub proof fn lemma_parallel_is_cross(self, other: Segment)
        ensures
            self.spec_line().det(other.spec_line()) == self.cross_with(other),
    {
        let dx: int = self.dx();
        let dy: int = self.dy();
        let ex: int = other.dx();
        let ey: int = other.dy();
        assert(dy * (-ex) - ey * (-dx) == dx * ey - dy * ex) by (nonlinear_arith);
    }
}

/// The normal of a segment's line is as long as the segment, and the line
/// holds that length.
pub proof fn lemma_line_norm(a: Segment)
    ensures
        a.spec_line().a * a.spec_line().a + a.spec_line().b * a.spec_line().b
            == a.spec_length_squared(),
        a.spec_line().n == a.spec_length_squared(),
        a.spec_line().measured(),
{
    let dx: int = a.dx();
    let dy: int = a.dy();
    assert((-dx) * (-dx) == dx * dx) by (nonlinear_arith);
    assert((-dy) * (-dy) == dy * dy) by (nonlinear_arith);
    assert(a.p1.x - a.p2.x == -dx && a.p1.y - a.p2.y == -dy);
}

} // verus!
