//! What holds of the geometry as a whole.

use vstd::prelude::*;
use crate::algebra::{cross, dot, lemma_lagrange, lemma_norm_zero, norm};
use crate::exact::{Fraction, Ratio, Root};
use crate::line::{Line, LineEq};
use crate::point::{HPoint, Point};
use crate::relative::{offset_x, offset_y};
use crate::segment::Segment;
use crate::vector::Direction;

verus! {

/// A point is at distance zero from itself.
pub proof fn law_distance_to_self(p: Point)
    ensures
        p.spec_distance_squared(p) == 0,
{
}

/// The distance from `a` to `b` is the distance from `b` to `a`.
pub proof fn law_distance_symmetric(a: Point, b: Point)
    ensures
        a.spec_distance_squared(b) == b.spec_distance_squared(a),
{
    let x: int = a.x - b.x;
    let y: int = a.y - b.y;
    assert(x * x == (-x) * (-x)) by (nonlinear_arith);
    assert(y * y == (-y) * (-y)) by (nonlinear_arith);
}

/// Two points are at distance zero only if they are the same point.
pub proof fn law_distance_zero_is_same(a: Point, b: Point)
    ensures
        a.spec_distance_squared(b) >= 0,
        a.spec_distance_squared(b) == 0 <==> a == b,
{
    lemma_norm_zero(a.x - b.x, a.y - b.y);
}

/// The perpendicular to a line through a point `p` crosses the line in the
/// foot of `p`: the crossing point `f` lies on the line, and the vector from
/// `p` to `f` is the line's normal scaled. The distance that the line reports
/// for `p` is the distance from `p` to `f`.
pub proof fn law_distance_is_to_foot(l: LineEq, p: Point)
    requires
        l.nondegenerate(),
        l.measured(),
    ensures
        !l.parallel(l.perpendicular_through(p)),
        ({
            let f: HPoint = l.meet(l.perpendicular_through(p));
            let d: Fraction = l.distance_squared(p);
            &&& f.w > 0
            &&& d.den > 0
            &&& d.num >= 0
            &&& l.contains(f)
            &&& l.perpendicular_through(p).contains(p@)
            &&& f.x - f.w * p.x == -l.a * l.eval(p@)
            &&& f.y - f.w * p.y == -l.b * l.eval(p@)
            &&& norm(f.x - f.w * p.x, f.y - f.w * p.y) * d.den == d.num * (f.w * f.w)
        }),
{
    let m: LineEq = l.perpendicular_through(p);
    let a: int = l.a;
    let b: int = l.b;
    let c: int = l.c;
    let px: int = p.x as int;
    let py: int = p.y as int;
    let n: int = a * a + b * b;
    let e: int = a * px + b * py + c;
    lemma_norm_zero(a, b);
    assert((-b) * b == -(b * b)) by (nonlinear_arith);
    assert(l.det(m) == n);
    assert(l.eval(p@) == e);
    l.lemma_meet_on_both(m);
    let f: HPoint = l.meet(m);
    assert(f.w == n);
    assert(b * (b * px - a * py) == (b * b) * px - (a * b) * py) by (nonlinear_arith);
    assert(a * (b * px - a * py) == (a * b) * px - (a * a) * py) by (nonlinear_arith);
    assert((a * a + b * b) * px == (a * a) * px + (b * b) * px) by (nonlinear_arith);
    assert((a * a + b * b) * py == (a * a) * py + (b * b) * py) by (nonlinear_arith);
    assert(-a * (a * px + b * py + c) == -((a * a) * px) - (a * b) * py - a * c)
        by (nonlinear_arith);
    assert(-b * (a * px + b * py + c) == -((a * b) * px) - (b * b) * py - b * c)
        by (nonlinear_arith);
    assert((-b) * c == -(b * c)) by (nonlinear_arith);
    assert(f.x == b * (b * px - a * py) - a * c);
    assert(f.y == (-b) * c - a * (b * px - a * py));
    assert(n * px == f.w * p.x);
    assert(n * py == f.w * p.y);
    assert(m.eval(p@) == 0) by (nonlinear_arith)
        requires
            m.eval(p@) == (-b) * px + a * py + (b * px - a * py) * 1,
    ;
    assert(e * e >= 0) by (nonlinear_arith);
    let ae: int = -a * e;
    let be: int = -b * e;
    assert(ae * ae + be * be == (a * a + b * b) * (e * e)) by (nonlinear_arith)
        requires
            ae == -a * e,
            be == -b * e,
    ;
    assert(((a * a + b * b) * (e * e)) * n == (e * e) * (n * n)) by (nonlinear_arith)
        requires
            n == a * a + b * b,
    ;
}

/// The line through two points, crossed with its own perpendicular through
/// the first of them, gives back that point.
pub proof fn law_perpendicular_recovers_point(p1: Point, p2: Point)
    requires
        p1 != p2,
    ensures
        !LineEq::through(p1, p2).parallel(LineEq::through(p1, p2).perpendicular_through(p1)),
        ({
            let l: LineEq = LineEq::through(p1, p2);
            let f: HPoint = l.meet(l.perpendicular_through(p1));
            &&& f.w > 0
            &&& f.x == f.w * p1.x
            &&& f.y == f.w * p1.y
        }),
{
    let s: Segment = Segment { p1, p2 };
    let l: LineEq = LineEq::through(p1, p2);
    lemma_norm_zero(s.dx(), s.dy());
    crate::relative::lemma_line_norm(s);
    assert(l.nondegenerate());
    law_distance_is_to_foot(l, p1);
    s.lemma_line_is_across(p1@);
    assert(s.across(p1@) == 0) by (nonlinear_arith)
        requires
            s.across(p1@) == s.dx() * (p1.y - 1 * p1.y) - s.dy() * (p1.x - 1 * p1.x),
    ;
    assert(l.eval(p1@) == 0);
    assert(-l.a * l.eval(p1@) == 0) by (nonlinear_arith)
        requires
            l.eval(p1@) == 0,
    ;
    assert(-l.b * l.eval(p1@) == 0) by (nonlinear_arith)
        requires
            l.eval(p1@) == 0,
    ;
}

/// A point of the segment's line that lies strictly between the two ends is
/// in the segment's shadow. The point is `p1 + t * (p2 - p1)` with
/// `t = t_num / t_den` strictly between 0 and 1.
pub proof fn law_between_is_shadowed(s: Segment, h: HPoint, t_num: int, t_den: int)
    requires
        s.wf(),
        h.w > 0,
        0 < t_num < t_den,
        t_den * (h.x - h.w * s.p1.x) == t_num * (h.w * s.dx()),
        t_den * (h.y - h.w * s.p1.y) == t_num * (h.w * s.dy()),
    ensures
        s.spec_line().contains(h),
        s.spec_shadows(h),
{
    let dx: int = s.dx();
    let dy: int = s.dy();
    let rx: int = h.x - h.w * s.p1.x;
    let ry: int = h.y - h.w * s.p1.y;
    let l: int = s.spec_length_squared();
    let w: int = h.w;
    s.lemma_length_positive();
    s.lemma_shadow_is_between(h);
    s.lemma_line_is_across(h);
    let along: int = s.along(h);
    let across: int = s.across(h);
    assert(t_den * (dx * rx + dy * ry) == dx * (t_den * rx) + dy * (t_den * ry))
        by (nonlinear_arith);
    assert(t_den * (dx * ry - dy * rx) == dx * (t_den * ry) - dy * (t_den * rx))
        by (nonlinear_arith);
    assert(dx * (t_num * (w * dx)) == t_num * (w * (dx * dx))) by (nonlinear_arith);
    assert(dy * (t_num * (w * dy)) == t_num * (w * (dy * dy))) by (nonlinear_arith);
    assert(dx * (t_num * (w * dy)) == dy * (t_num * (w * dx))) by (nonlinear_arith);
    assert(t_num * (w * (dx * dx)) + t_num * (w * (dy * dy)) == t_num * (w * (dx * dx + dy * dy)))
        by (nonlinear_arith);
    assert(t_den * along == t_num * (w * l));
    assert(t_den * across == 0);
    assert(across == 0) by (nonlinear_arith)
        requires
            t_den * across == 0,
            t_den > 0,
    ;
    let wl: int = w * l;
    assert(wl > 0) by (nonlinear_arith)
        requires
            wl == w * l,
            w > 0,
            l > 0,
    ;
    assert(0 < along < wl) by (nonlinear_arith)
        requires
            t_den * along == t_num * wl,
            0 < t_num < t_den,
            wl > 0,
    ;
}

/// The distance from a point to a segment is never negative, and it is zero
/// exactly when the point lies on the segment.
pub proof fn law_zero_distance_is_on_segment(s: Segment, p: Point)
    requires
        s.wf(),
    ensures
        s.spec_distance_to_point(p).den > 0,
        s.spec_distance_to_point(p).num >= 0,
        s.spec_distance_to_point(p).num == 0 <==> s.contains(p@),
{
    let dx: int = s.dx();
    let dy: int = s.dy();
    let l: int = s.spec_length_squared();
    let rx: int = p.x - s.p1.x;
    let ry: int = p.y - s.p1.y;
    s.lemma_length_positive();
    s.lemma_shadow_is_between(p@);
    s.lemma_line_is_across(p@);
    let along: int = s.along(p@);
    let across: int = s.across(p@);
    assert(along == dot(dx, dy, rx, ry));
    assert(across == cross(dx, dy, rx, ry));
    let e: int = s.spec_line().eval(p@);
    assert(e * e >= 0 && (e * e == 0 <==> e == 0)) by (nonlinear_arith);
    crate::relative::lemma_line_norm(s);
    lemma_norm_zero(s.p1.x - p.x, s.p1.y - p.y);
    lemma_norm_zero(s.p2.x - p.x, s.p2.y - p.y);
    if !s.spec_shadows(p@) {
        // On the line and level with an end, the point is that end.
        lemma_lagrange(dx, dy, rx, ry);
        lemma_lagrange(dx, dy, rx - dx, ry - dy);
        lemma_norm_zero(rx, ry);
        lemma_norm_zero(rx - dx, ry - dy);
        assert(dot(dx, dy, rx - dx, ry - dy) == along - l) by (nonlinear_arith)
            requires
                along == dx * rx + dy * ry,
                l == dx * dx + dy * dy,
        ;
        assert(cross(dx, dy, rx - dx, ry - dy) == across) by (nonlinear_arith)
            requires
                across == dx * ry - dy * rx,
        ;
        if s.contains(p@) {
            if along == 0 {
                assert(l * norm(rx, ry) == 0) by (nonlinear_arith)
                    requires
                        along == 0,
                        across == 0,
                        along * along + across * across == l * norm(rx, ry),
                ;
                assert(norm(rx, ry) == 0) by (nonlinear_arith)
                    requires
                        l * norm(rx, ry) == 0,
                        l > 0,
                ;
            } else {
                let m: int = norm(rx - dx, ry - dy);
                let a2: int = along - l;
                assert(a2 == 0);
                assert(l * m == 0) by (nonlinear_arith)
                    requires
                        a2 == 0,
                        across == 0,
                        a2 * a2 + across * across == l * m,
                ;
                assert(m == 0) by (nonlinear_arith)
                    requires
                        l * m == 0,
                        l > 0,
                ;
            }
        }
        if p == s.p1 {
            assert(along == 0 && across == 0) by (nonlinear_arith)
                requires
                    rx == 0,
                    ry == 0,
                    along == dx * rx + dy * ry,
                    across == dx * ry - dy * rx,
            ;
        }
        if p == s.p2 {
            assert(along == l && across == 0) by (nonlinear_arith)
                requires
                    rx == dx,
                    ry == dy,
                    l == dx * dx + dy * dy,
                    along == dx * rx + dy * ry,
                    across == dx * ry - dy * rx,
            ;
        }
    }
}

/// The line through two points passes through both.
pub proof fn law_line_through_its_points(p: Point, q: Point)
    ensures
        LineEq::through(p, q).contains(p@),
        LineEq::through(p, q).contains(q@),
{
    let s: Segment = Segment { p1: p, p2: q };
    s.lemma_own_ends();
    s.lemma_line_is_across(p@);
    s.lemma_line_is_across(q@);
}

/// The line through a point with a slope passes through the point and has
/// the slope.
pub proof fn law_line_with_slope(p: Point, s: Fraction)
    requires
        s.den > 0,
    ensures
        LineEq::with_slope(p, s).contains(p@),
        LineEq::with_slope(p, s).slope() == s,
{
    let px: int = p.x as int;
    let py: int = p.y as int;
    assert(s.num * px + (-s.den) * py + (s.den * py - s.num * px) * 1 == 0) by (nonlinear_arith);
}

/// The perpendicular to a line that is neither level nor upright has the
/// slope `-1 / m`, where `m` is the slope of the line.
pub proof fn law_perpendicular_slope(l: LineEq, p: Point)
    requires
        l.a != 0,
        l.b != 0,
    ensures
        l.slope().den > 0,
        l.perpendicular_through(p).slope().den > 0,
        l.perpendicular_through(p).slope().same(Ratio::spec_inverse(l.slope())),
        l.slope().num * l.perpendicular_through(p).slope().num == -(l.slope().den
            * l.perpendicular_through(p).slope().den),
{
    let a: int = l.a;
    let b: int = l.b;
    assert((-a) * b == -(b * a)) by (nonlinear_arith);
    assert(a * (-b) == -(b * a)) by (nonlinear_arith);
    assert(a * b == b * a) by (nonlinear_arith);
    assert((-a) * (-b) == b * a) by (nonlinear_arith);
    assert((-b) * a == -(b * a)) by (nonlinear_arith);
    assert(b * (-a) == -(b * a)) by (nonlinear_arith);
    assert((-b) * (-a) == b * a) by (nonlinear_arith);
}

/// The `y` that a line reports for an `x` is the `y` of a point of the line,
/// and so is the `x` that it reports for a `y`.
pub proof fn law_read_off_is_on_line(l: LineEq, x: int, y: int)
    ensures
        l.b != 0 ==> l.y_at(x).den > 0 && l.contains(
            HPoint { x: x * l.y_at(x).den, y: l.y_at(x).num, w: l.y_at(x).den },
        ),
        l.a != 0 ==> l.x_at(y).den > 0 && l.contains(
            HPoint { x: l.x_at(y).num, y: y * l.x_at(y).den, w: l.x_at(y).den },
        ),
{
    let a: int = l.a;
    let b: int = l.b;
    let c: int = l.c;
    assert(a * (x * b) + b * (-(a * x + c)) + c * b == 0) by (nonlinear_arith);
    assert(a * (x * (-b)) + b * (a * x + c) + c * (-b) == 0) by (nonlinear_arith);
    assert(a * (-(b * y + c)) + b * (y * a) + c * a == 0) by (nonlinear_arith);
    assert(a * (b * y + c) + b * (y * (-a)) + c * (-a) == 0) by (nonlinear_arith);
}

/// Away from the two perpendiculars through the ends of a segment that is
/// not level, a grid point is in the segment's shadow exactly when it is
/// above one perpendicular and not above the other.
pub proof fn law_shadow_by_above(s: Segment, first: Line, second: Line, p: Point)
    requires
        s.wf(),
        s.dy() != 0,
        first@ == s.spec_perpendicular_1(),
        second@ == s.spec_perpendicular_2(),
        !first@.contains(p@),
        !second@.contains(p@),
    ensures
        s.spec_shadows(p@) == (p.spec_above(first) != p.spec_above(second)),
{
    s.lemma_sides(p@);
    s.lemma_length_positive();
    first@.lemma_above_is_a_side(p);
    second@.lemma_above_is_a_side(p);
}

/// Of the two ends of a segment, the one that `spec_near` picks for a point
/// outside the shadow is the nearer.
pub proof fn law_near_end_is_nearer(s: Segment, h: HPoint)
    requires
        s.wf(),
        h.w > 0,
        !s.spec_shadows(h),
    ensures
        s.spec_near(h) == s.p1 ==> s.p1@.gap_squared(h).at_most(s.p2@.gap_squared(h)),
        s.spec_near(h) == s.p2 ==> s.p2@.gap_squared(h).at_most(s.p1@.gap_squared(h)),
{
    let l: int = s.spec_length_squared();
    let w: int = h.w;
    s.lemma_shadow_is_between(h);
    s.lemma_length_positive();
    s.lemma_end_gaps(h);
    let along: int = s.along(h);
    let n1: int = norm(offset_x(s.p1@, h), offset_y(s.p1@, h));
    let n2: int = norm(offset_x(s.p2@, h), offset_y(s.p2@, h));
    let den: int = (1 * w) * (1 * w);
    assert(den > 0) by (nonlinear_arith)
        requires
            den == (1 * w) * (1 * w),
            w > 0,
    ;
    assert(w * l > 0) by (nonlinear_arith)
        requires
            w > 0,
            l > 0,
    ;
    if along <= 0 {
        assert(w * (w * l - 2 * along) >= 0) by (nonlinear_arith)
            requires
                w > 0,
                w * l - 2 * along >= 0,
        ;
        assert(n1 * den <= n2 * den) by (nonlinear_arith)
            requires
                n1 <= n2,
                den > 0,
        ;
    } else {
        assert(w * (w * l - 2 * along) <= 0) by (nonlinear_arith)
            requires
                w > 0,
                w * l - 2 * along <= 0,
        ;
        assert(n2 * den <= n1 * den) by (nonlinear_arith)
            requires
                n2 <= n1,
                den > 0,
        ;
    }
}

/// For a point of the line of a segment that is not upright, outside the
/// shadow and not the first end itself, the near end is the first end
/// exactly when the point lies to the right of the first end as the first
/// end lies to the right of the second.
pub proof fn law_near_end_by_order(s: Segment, h: HPoint)
    requires
        s.wf(),
        h.w > 0,
        s.spec_line().contains(h),
        !s.spec_shadows(h),
        s.dx() != 0,
        h.x != h.w * s.p1.x,
    ensures
        (s.spec_near(h) == s.p1) == ((h.x > h.w * s.p1.x) == (s.p1.x > s.p2.x)),
{
    let dx: int = s.dx();
    let l: int = s.spec_length_squared();
    let rx: int = offset_x(s.p1@, h);
    s.lemma_length_positive();
    s.lemma_own_ends();
    s.lemma_line_is_across(h);
    s.lemma_on_line_offset(s.p1@, h);
    let along: int = s.along(h);
    assert(h.w * s.along(s.p1@) == 0) by (nonlinear_arith)
        requires
            s.along(s.p1@) == 0,
    ;
    assert(l * rx == along * dx);
    assert(rx == h.x - h.w * s.p1.x);
    assert((rx > 0) == ((along > 0 && dx > 0) || (along < 0 && dx < 0))) by (nonlinear_arith)
        requires
            l * rx == along * dx,
            l > 0,
            rx != 0,
            dx != 0,
    ;
    assert(along != 0) by (nonlinear_arith)
        requires
            l * rx == along * dx,
            l > 0,
            rx != 0,
    ;
}

/// The distance from a point to a segment is a lower bound: no point of the
/// segment is nearer to the point.
pub proof fn law_point_distance_is_lower_bound(s: Segment, p: Point, g: HPoint)
    requires
        s.wf(),
        g.w > 0,
        s.contains(g),
    ensures
        s.spec_distance_to_point(p).at_most(g.gap_squared(p@)),
{
    s.lemma_line_is_across(g);
    if s.spec_shadows(p@) {
        let ap: int = s.across(p@);
        assert(ap * ap >= (1 * 1) * (ap * ap)) by (nonlinear_arith);
        crate::nearest::lemma_line_bound(s, p, g, p@);
    } else {
        let n: Point = s.spec_near(p@);
        let w: int = g.w;
        crate::nearest::lemma_step_leads_away(s, n, p, g);
        let mx: int = p.x - n.x;
        let my: int = p.y - n.y;
        let qx: int = offset_x(n@, g);
        let qy: int = offset_y(n@, g);
        let rx: int = offset_x(g, p@);
        let ry: int = offset_y(g, p@);
        let wmx: int = w * mx;
        let wmy: int = w * my;
        assert(rx == wmx - qx) by (nonlinear_arith)
            requires
                rx == w * p.x - 1 * g.x,
                qx == 1 * g.x - w * n.x,
                wmx == w * mx,
                mx == p.x - n.x,
        ;
        assert(ry == wmy - qy) by (nonlinear_arith)
            requires
                ry == w * p.y - 1 * g.y,
                qy == 1 * g.y - w * n.y,
                wmy == w * my,
                my == p.y - n.y,
        ;
        assert((wmx - qx) * (wmx - qx) == wmx * wmx - 2 * (wmx * qx) + qx * qx)
            by (nonlinear_arith);
        assert((wmy - qy) * (wmy - qy) == wmy * wmy - 2 * (wmy * qy) + qy * qy)
            by (nonlinear_arith);
        assert(qx * qx >= 0) by (nonlinear_arith);
        assert(qy * qy >= 0) by (nonlinear_arith);
        let mq: int = dot(mx, my, qx, qy);
        assert(wmx * qx + wmy * qy == w * mq) by (nonlinear_arith)
            requires
                wmx == w * mx,
                wmy == w * my,
                mq == mx * qx + my * qy,
        ;
        assert(w * mq <= 0) by (nonlinear_arith)
            requires
                w > 0,
                mq <= 0,
        ;
        assert(wmx * wmx + wmy * wmy == (mx * mx + my * my) * (w * w)) by (nonlinear_arith)
            requires
                wmx == w * mx,
                wmy == w * my,
        ;
        assert((n.x - p.x) * (n.x - p.x) == mx * mx) by (nonlinear_arith)
            requires
                mx == p.x - n.x,
        ;
        assert((n.y - p.y) * (n.y - p.y) == my * my) by (nonlinear_arith)
            requires
                my == p.y - n.y,
        ;
        let d: int = n.spec_distance_squared(p);
        let f: Fraction = s.spec_distance_to_point(p);
        assert(f.num <= d);
        assert((w * 1) * (w * 1) == w * w) by (nonlinear_arith);
        assert(w * w >= 0) by (nonlinear_arith);
        assert(f.num * (w * w) <= d * (w * w)) by (nonlinear_arith)
            requires
                f.num <= d,
                w * w >= 0,
        ;
        assert(norm(rx, ry) >= d * (w * w));
        assert(norm(rx, ry) * 1 == norm(rx, ry));
    }
}

/// The distance from a point to a segment is reached: a point of the
/// segment is that far from the point.
pub proof fn law_point_distance_is_reached(s: Segment, p: Point) -> (g: HPoint)
    requires
        s.wf(),
    ensures
        g.w > 0,
        s.contains(g),
        s.spec_distance_to_point(p).same(g.gap_squared(p@)),
{
    s.lemma_length_positive();
    s.lemma_own_ends();
    s.lemma_line_is_across(s.p1@);
    s.lemma_line_is_across(s.p2@);
    s.lemma_shadow_is_between(p@);
    if s.spec_shadows(p@) {
        crate::nearest::lemma_foot_on_segment(s, p)
    } else {
        let n: Point = if s.p1.spec_distance_squared(p) <= s.p2.spec_distance_squared(p) {
            s.p1
        } else {
            s.p2
        };
        let mx: int = p.x - n.x;
        let my: int = p.y - n.y;
        assert((n.x - p.x) * (n.x - p.x) == mx * mx) by (nonlinear_arith)
            requires
                mx == p.x - n.x,
        ;
        assert((n.y - p.y) * (n.y - p.y) == my * my) by (nonlinear_arith)
            requires
                my == p.y - n.y,
        ;
        n@
    }
}

/// A direction has length one: the squares of its two components add up to
/// one.
pub proof fn law_direction_is_unit(d: Direction)
    requires
        d.wf(),
    ensures
        d.spec_unit_x().square.den == d.spec_unit_y().square.den,
        d.spec_unit_x().square.den > 0,
        d.spec_unit_x().square.num + d.spec_unit_y().square.num == d.spec_unit_x().square.den,
{
}

/// The normal of a line has length one: the squares of its two parts add up
/// to one.
pub proof fn law_normal_is_unit(l: LineEq)
    requires
        l.nondegenerate(),
        l.measured(),
    ensures
        l.unit_a().square.den == l.unit_b().square.den,
        l.unit_a().square.den > 0,
        l.unit_a().square.num + l.unit_b().square.num == l.unit_a().square.den,
{
    lemma_norm_zero(l.a, l.b);
}

/// The line through two points has as its unit normal the direction from
/// the first to the second, brought to length one and turned by a quarter:
/// `a` is the direction's `y` and `b` is the direction's `x` with the sign
/// turned. Its constant term is solved so that the line passes through the
/// first point.
pub proof fn law_line_through_is_unit(p1: Point, p2: Point, d: Direction)
    requires
        p1 != p2,
        d.wf(),
        d.x == p2.x - p1.x,
        d.y == p2.y - p1.y,
    ensures
        LineEq::through(p1, p2).nondegenerate(),
        LineEq::through(p1, p2).measured(),
        LineEq::through(p1, p2).n == p1.spec_distance_squared(p2),
        LineEq::through(p1, p2).unit_a() == d.spec_unit_y(),
        LineEq::through(p1, p2).unit_b() == Root::of(-d.x, d.norm_squared as int),
        LineEq::through(p1, p2).c == -(LineEq::through(p1, p2).a * p1.x + LineEq::through(p1, p2).b
            * p1.y),
{
    let s: Segment = Segment { p1, p2 };
    let dx: int = s.dx();
    let dy: int = s.dy();
    lemma_norm_zero(dx, dy);
    crate::relative::lemma_line_norm(s);
    assert((-dx) * p1.y == -(dx * p1.y)) by (nonlinear_arith);
}

/// The line through a point with a slope, and the perpendicular to a line
/// through a point, have unit normals as well.
pub proof fn law_built_lines_are_unit(l: LineEq, p: Point, s: Fraction)
    requires
        l.measured(),
    ensures
        l.perpendicular_through(p).measured(),
        LineEq::with_slope(p, s).measured(),
{
    let b: int = l.b;
    assert((-b) * (-b) == b * b) by (nonlinear_arith);
    let d: int = s.den;
    assert((-d) * (-d) == d * d) by (nonlinear_arith);
}

/// The distance that a line reports for a point is the size of the signed
/// distance, and the signed distance is the left side of the unit form at
/// the point: the left side of the whole-number form over the square root
/// of `n`.
pub proof fn law_signed_distance(l: LineEq, p: Point)
    ensures
        l.signed_distance(p).square == l.distance_squared(p),
        l.signed_distance(p) == Root::of(l.a * p.x + l.b * p.y + l.c, l.n),
        l.signed_distance(p).sign == 0 <==> l.contains(p@),
{
}

/// Two lines with the same unit normal are as far apart as their constant
/// terms differ: every point of the second is at the signed distance
/// `(c1 - c2) / sqrt(n)` from the first.
pub proof fn law_same_normal_gap(l: LineEq, m: LineEq, p: Point)
    requires
        l.a == m.a,
        l.b == m.b,
        l.n == m.n,
        m.contains(p@),
    ensures
        l.signed_distance(p) == Root::of(l.c - m.c, l.n),
{
}

} // verus!
