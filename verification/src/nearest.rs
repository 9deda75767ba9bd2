//! The distance between two segments, held against the distances between
//! their points.

use vstd::prelude::*;
use crate::algebra::{cross, dot, lemma_lagrange, lemma_norm_zero, lemma_swap, norm};
use crate::exact::Fraction;
use crate::line::LineEq;
use crate::point::{HPoint, Point};
use crate::relative::{lemma_line_norm, offset_x, offset_y};
use crate::segment::Segment;

verus! {

impl Segment {
    /// The case split of `spec_distance_to_segment` lands on two points that
    /// are each the other's nearest. On parallel lines it always does. On
    /// crossing lines it does where the segments cross; where it takes the
    /// distance from an end to the other segment's line and the end lies
    /// level with that segment; and where it takes the distance between two
    /// ends and each segment leads away from the other's end.
    pub open spec fn spec_selects_nearest(self, other: Segment) -> bool {
        let x: HPoint = self.spec_line().meet(other.spec_line());
        let mine: Point = self.spec_near(x);
        let theirs: Point = other.spec_near(x);
        if self.spec_line().parallel(other.spec_line()) {
            true
        } else if self.spec_shadows(x) && other.spec_shadows(x) {
            true
        } else if self.spec_shadows(x) {
            self.covers(theirs@)
        } else if other.spec_shadows(x) {
            other.covers(mine@)
        } else {
            ||| self.spec_shadows(theirs@)
            ||| other.spec_shadows(mine@)
            ||| (self.spec_near(theirs@) == mine && other.spec_near(mine@) == theirs)
        }
    }
}

/// Where `h` is at least as far from a segment's line as the grid point `n`
/// is, no point of the line is nearer to `h` than the line is to `n`.
pub proof fn lemma_line_bound(a: Segment, n: Point, g: HPoint, h: HPoint)
    requires
        a.wf(),
        a.across(g) == 0,
        a.across(h) * a.across(h) >= (h.w * h.w) * (a.across(n@) * a.across(n@)),
    ensures
        a.spec_line().distance_squared(n).at_most(g.gap_squared(h)),
{
    let dx: int = a.dx();
    let dy: int = a.dy();
    let la: int = a.spec_length_squared();
    let rx: int = offset_x(g, h);
    let ry: int = offset_y(g, h);
    a.lemma_relative(g, h);
    lemma_lagrange(dx, dy, rx, ry);
    a.lemma_line_is_across(n@);
    lemma_line_norm(a);
    let an: int = a.across(n@);
    let ah: int = a.across(h);
    let c: int = cross(dx, dy, rx, ry);
    let k: int = dot(dx, dy, rx, ry);
    let gw: int = g.w;
    let hw: int = h.w;
    let e: int = a.spec_line().eval(n@);
    let an2: int = an * an;
    let ah2: int = ah * ah;
    let gw2: int = gw * gw;
    let hw2: int = hw * hw;
    assert(c == gw * ah) by (nonlinear_arith)
        requires
            c == gw * ah - hw * a.across(g),
            a.across(g) == 0,
    ;
    assert(c * c == gw2 * ah2) by (nonlinear_arith)
        requires
            c == gw * ah,
            gw2 == gw * gw,
            ah2 == ah * ah,
    ;
    assert(gw2 >= 0) by (nonlinear_arith)
        requires
            gw2 == gw * gw,
    ;
    assert(gw2 * ah2 >= gw2 * (hw2 * an2)) by (nonlinear_arith)
        requires
            ah2 >= hw2 * an2,
            gw2 >= 0,
    ;
    assert(k * k >= 0) by (nonlinear_arith);
    assert(e * e == an2) by (nonlinear_arith)
        requires
            e == -an,
            an2 == an * an,
    ;
    assert(gw2 * (hw2 * an2) == an2 * ((gw * hw) * (gw * hw))) by (nonlinear_arith)
        requires
            gw2 == gw * gw,
            hw2 == hw * hw,
    ;
    assert(norm(rx, ry) * la == la * norm(rx, ry)) by (nonlinear_arith);
}

/// On the far side of a segment's end that faces a point off the segment,
/// the segment only leads further away.
pub proof fn lemma_same_side(w: int, l: int, at_x: int, at_end: int, hw: int, at_h: int)
    by (nonlinear_arith)
    requires
        w > 0,
        l > 0,
        hw > 0,
        !(0 < at_x < w * l),
        at_end == (if at_x <= 0 {
            0
        } else {
            l
        }),
        0 <= at_h <= hw * l,
    ensures
        (w * at_end - at_x >= 0 && at_h - hw * at_end >= 0) || (w * at_end - at_x <= 0 && at_h - hw
            * at_end <= 0),
{
}

/// Of all points of a segment whose line crosses another line outside the
/// segment's shadow, the end nearest the crossing is nearest the other line.
pub proof fn lemma_near_end_is_least_across(a: Segment, b: Segment, h: HPoint)
    requires
        a.wf(),
        b.wf(),
        !a.spec_line().parallel(b.spec_line()),
        !b.spec_shadows(a.spec_line().meet(b.spec_line())),
        h.w > 0,
        b.contains(h),
    ensures
        ({
            let n: Point = b.spec_near(a.spec_line().meet(b.spec_line()));
            let step: int = a.across(h) - h.w * a.across(n@);
            &&& a.across(h) * a.across(h) >= (h.w * h.w) * (a.across(n@) * a.across(n@))
            &&& a.across(h) * a.across(h) >= (h.w * h.w) * (a.across(n@) * a.across(n@)) + step
                * step
        }),
{
    let x: HPoint = a.spec_line().meet(b.spec_line());
    let n: Point = b.spec_near(x);
    a.spec_line().lemma_meet_on_both(b.spec_line());
    a.lemma_line_is_across(x);
    b.lemma_line_is_across(x);
    b.lemma_line_is_across(h);
    b.lemma_length_positive();
    b.lemma_own_ends();
    b.lemma_shadow_is_between(x);
    let w: int = x.w;
    let hw: int = h.w;
    let lb: int = b.spec_length_squared();
    let k: int = a.cross_with(b);
    let an: int = a.across(n@);
    let ah: int = a.across(h);
    a.lemma_transport(b, x, n@);
    a.lemma_transport(b, n@, h);
    let tau: int = w * b.along(n@) - b.along(x);
    let rho: int = b.along(h) - hw * b.along(n@);
    let delta: int = ah - hw * an;
    lemma_same_side(w, lb, b.along(x), b.along(n@), hw, b.along(h));
    assert(lb * (w * an) == tau * k);
    assert(lb * delta == rho * k);
    let tr: int = tau * rho;
    assert(tr >= 0) by (nonlinear_arith)
        requires
            tr == tau * rho,
            (tau >= 0 && rho >= 0) || (tau <= 0 && rho <= 0),
    ;
    let kk: int = k * k;
    assert(kk >= 0) by (nonlinear_arith)
        requires
            kk == k * k,
    ;
    assert((tau * k) * (rho * k) == tr * kk) by (nonlinear_arith)
        requires
            tr == tau * rho,
            kk == k * k,
    ;
    assert(tr * kk >= 0) by (nonlinear_arith)
        requires
            tr >= 0,
            kk >= 0,
    ;
    let ad: int = an * delta;
    let scale: int = (lb * lb) * w;
    assert((lb * (w * an)) * (lb * delta) == scale * ad) by (nonlinear_arith)
        requires
            ad == an * delta,
            scale == (lb * lb) * w,
    ;
    assert(scale > 0) by (nonlinear_arith)
        requires
            scale == (lb * lb) * w,
            lb > 0,
            w > 0,
    ;
    assert(ad >= 0) by (nonlinear_arith)
        requires
            scale * ad >= 0,
            scale > 0,
    ;
    assert(ah * ah == (hw * hw) * (an * an) + 2 * (hw * ad) + delta * delta) by (nonlinear_arith)
        requires
            ah == hw * an + delta,
            ad == an * delta,
    ;
    assert(hw * ad >= 0) by (nonlinear_arith)
        requires
            hw > 0,
            ad >= 0,
    ;
    assert(delta * delta >= 0) by (nonlinear_arith);
}

/// The product of two numbers on the same side of zero is not negative.
pub proof fn lemma_sign_product(x: int, y: int)
    by (nonlinear_arith)
    requires
        (x >= 0 && y >= 0) || (x <= 0 && y <= 0),
    ensures
        x * y >= 0,
{
}

/// From an end `s` of a segment to a point `g` of the segment, one moves
/// away from every point that the segment's end faces: the step from `s` to
/// `g` and the step from `s` to such a point `o` make no acute angle.
pub proof fn lemma_step_leads_away(a: Segment, s: Point, o: Point, g: HPoint)
    requires
        a.wf(),
        s == a.p1 || s == a.p2,
        a.spec_near(o@) == s,
        !a.spec_shadows(o@),
        g.w > 0,
        a.contains(g),
    ensures
        dot(o.x - s.x, o.y - s.y, offset_x(s@, g), offset_y(s@, g)) <= 0,
{
    let la: int = a.spec_length_squared();
    let mx: int = o.x - s.x;
    let my: int = o.y - s.y;
    let qx: int = offset_x(s@, g);
    let qy: int = offset_y(s@, g);
    a.lemma_length_positive();
    a.lemma_own_ends();
    a.lemma_line_is_across(g);
    a.lemma_shadow_is_between(o@);
    a.lemma_on_line_offset(s@, g);
    a.lemma_relative(s@, o@);
    let rho: int = a.along(g) - g.w * a.along(s@);
    let side: int = a.along(o@) - a.along(s@);
    assert(offset_x(s@, o@) == mx);
    assert(offset_y(s@, o@) == my);
    assert(dot(a.dx(), a.dy(), mx, my) == side);
    lemma_swap(a.dx(), a.dy(), mx, my);
    assert(la * qx == rho * a.dx());
    assert(la * qy == rho * a.dy());
    let lqx: int = la * qx;
    let lqy: int = la * qy;
    assert(la * (mx * qx + my * qy) == mx * lqx + my * lqy) by (nonlinear_arith)
        requires
            lqx == la * qx,
            lqy == la * qy,
    ;
    assert(mx * (rho * a.dx()) + my * (rho * a.dy()) == rho * (mx * a.dx() + my * a.dy()))
        by (nonlinear_arith);
    let m: int = dot(mx, my, qx, qy);
    assert(la * m == rho * side);
    assert((rho >= 0 && -side >= 0) || (rho <= 0 && -side <= 0)) by {
        if s == a.p1 && a.along(o@) <= 0 {
            assert(g.w * a.along(s@) == 0) by (nonlinear_arith)
                requires
                    a.along(s@) == 0,
            ;
        } else {
            assert(s == a.p2);
            assert(a.along(o@) >= la);
        }
    }
    lemma_sign_product(rho, -side);
    assert(rho * side <= 0) by (nonlinear_arith)
        requires
            rho * (-side) >= 0,
    ;
    assert(m <= 0) by (nonlinear_arith)
        requires
            la * m <= 0,
            la > 0,
    ;
}

/// Two ends that each face the other are the nearest points of their
/// segments.
pub proof fn lemma_facing_ends_are_nearest(
    a: Segment,
    b: Segment,
    s: Point,
    o: Point,
    g: HPoint,
    h: HPoint,
)
    requires
        a.wf(),
        b.wf(),
        s == a.p1 || s == a.p2,
        o == b.p1 || o == b.p2,
        a.spec_near(o@) == s,
        !a.spec_shadows(o@),
        b.spec_near(s@) == o,
        !b.spec_shadows(s@),
        g.w > 0,
        h.w > 0,
        a.contains(g),
        b.contains(h),
    ensures
        (Fraction { num: s.spec_distance_squared(o), den: 1 }).at_most(g.gap_squared(h)),
{
    let gw: int = g.w;
    let hw: int = h.w;
    let mx: int = o.x - s.x;
    let my: int = o.y - s.y;
    let px: int = offset_x(o@, h);
    let py: int = offset_y(o@, h);
    let qx: int = offset_x(s@, g);
    let qy: int = offset_y(s@, g);
    let rx: int = offset_x(g, h);
    let ry: int = offset_y(g, h);
    lemma_step_leads_away(a, s, o, g);
    lemma_step_leads_away(b, o, s, h);
    let mq: int = dot(mx, my, qx, qy);
    let mp: int = dot(mx, my, px, py);
    assert(mq <= 0);
    assert(dot(s.x - o.x, s.y - o.y, px, py) == -mp) by (nonlinear_arith)
        requires
            mp == mx * px + my * py,
            mx == o.x - s.x,
            my == o.y - s.y,
            dot(s.x - o.x, s.y - o.y, px, py) == (s.x - o.x) * px + (s.y - o.y) * py,
    ;
    assert(mp >= 0);
    // The step from `g` to `h` is the step from `s` to `o`, less the step
    // from `s` to `g`, plus the step from `o` to `h`.
    let k: int = gw * hw;
    let ux: int = gw * px - hw * qx;
    let uy: int = gw * py - hw * qy;
    assert(rx == k * mx + ux) by (nonlinear_arith)
        requires
            rx == gw * h.x - hw * g.x,
            k == gw * hw,
            mx == o.x - s.x,
            ux == gw * px - hw * qx,
            px == 1 * h.x - hw * o.x,
            qx == 1 * g.x - gw * s.x,
    ;
    assert(ry == k * my + uy) by (nonlinear_arith)
        requires
            ry == gw * h.y - hw * g.y,
            k == gw * hw,
            my == o.y - s.y,
            uy == gw * py - hw * qy,
            py == 1 * h.y - hw * o.y,
            qy == 1 * g.y - gw * s.y,
    ;
    let kmx: int = k * mx;
    let kmy: int = k * my;
    assert((kmx + ux) * (kmx + ux) == kmx * kmx + 2 * (kmx * ux) + ux * ux) by (nonlinear_arith);
    assert((kmy + uy) * (kmy + uy) == kmy * kmy + 2 * (kmy * uy) + uy * uy) by (nonlinear_arith);
    assert(ux * ux >= 0) by (nonlinear_arith);
    assert(uy * uy >= 0) by (nonlinear_arith);
    assert(kmx * kmx == (k * k) * (mx * mx)) by (nonlinear_arith)
        requires
            kmx == k * mx,
    ;
    assert(kmy * kmy == (k * k) * (my * my)) by (nonlinear_arith)
        requires
            kmy == k * my,
    ;
    let gpx: int = gw * px;
    let hqx: int = hw * qx;
    let gpy: int = gw * py;
    let hqy: int = hw * qy;
    assert(kmx * (gpx - hqx) == kmx * gpx - kmx * hqx) by (nonlinear_arith);
    assert(kmy * (gpy - hqy) == kmy * gpy - kmy * hqy) by (nonlinear_arith);
    assert((k * mx) * (gw * px) == k * (gw * (mx * px))) by (nonlinear_arith);
    assert((k * mx) * (hw * qx) == k * (hw * (mx * qx))) by (nonlinear_arith);
    assert((k * my) * (gw * py) == k * (gw * (my * py))) by (nonlinear_arith);
    assert((k * my) * (hw * qy) == k * (hw * (my * qy))) by (nonlinear_arith);
    assert(kmx * ux == k * (gw * (mx * px)) - k * (hw * (mx * qx)));
    assert(kmy * uy == k * (gw * (my * py)) - k * (hw * (my * qy)));
    assert(k * (gw * (mx * px)) + k * (gw * (my * py)) == k * (gw * mp)) by (nonlinear_arith)
        requires
            mp == mx * px + my * py,
    ;
    assert(k * (hw * (mx * qx)) + k * (hw * (my * qy)) == k * (hw * mq)) by (nonlinear_arith)
        requires
            mq == mx * qx + my * qy,
    ;
    assert(k > 0) by (nonlinear_arith)
        requires
            k == gw * hw,
            gw > 0,
            hw > 0,
    ;
    assert(k * (gw * mp) >= 0) by (nonlinear_arith)
        requires
            k > 0,
            gw > 0,
            mp >= 0,
    ;
    assert(k * (hw * mq) <= 0) by (nonlinear_arith)
        requires
            k > 0,
            hw > 0,
            mq <= 0,
    ;
    assert((k * k) * (mx * mx) + (k * k) * (my * my) == (mx * mx + my * my) * (k * k))
        by (nonlinear_arith);
    assert((s.x - o.x) * (s.x - o.x) == mx * mx) by (nonlinear_arith)
        requires
            mx == o.x - s.x,
    ;
    assert((s.y - o.y) * (s.y - o.y) == my * my) by (nonlinear_arith)
        requires
            my == o.y - s.y,
    ;
    assert(norm(rx, ry) >= (mx * mx + my * my) * (k * k));
    assert(norm(rx, ry) * 1 == norm(rx, ry));
}

/// The foot of a point that lies level with a segment is a point of the
/// segment, and it is as far from the point as the segment's line is.
pub proof fn lemma_foot_on_segment(a: Segment, n: Point) -> (f: HPoint)
    requires
        a.wf(),
        a.covers(n@),
    ensures
        f.w > 0,
        a.contains(f),
        a.spec_line().distance_squared(n).same(f.gap_squared(n@)),
        a.spec_line().distance_squared(n).same(n@.gap_squared(f)),
{
    let l: LineEq = a.spec_line();
    let f: HPoint = l.meet(l.perpendicular_through(n));
    let dx: int = a.dx();
    let dy: int = a.dy();
    let la: int = a.spec_length_squared();
    a.lemma_length_positive();
    lemma_line_norm(a);
    crate::laws::law_distance_is_to_foot(l, n);
    let e: int = l.eval(n@);
    let fx: int = f.x - f.w * n.x;
    let fy: int = f.y - f.w * n.y;
    assert(fx == -dy * e);
    assert(fy == -(-dx) * e);
    a.lemma_relative(n@, f);
    assert(offset_x(n@, f) == fx);
    assert(offset_y(n@, f) == fy);
    assert(dx * (-dy * e) + dy * (-(-dx) * e) == 0) by (nonlinear_arith);
    assert(a.along(f) == f.w * a.along(n@));
    assert(0 <= f.w * a.along(n@) <= f.w * la) by (nonlinear_arith)
        requires
            f.w > 0,
            0 <= a.along(n@) <= 1 * la,
    ;
    assert(offset_x(f, n@) == -fx);
    assert(offset_y(f, n@) == -fy);
    assert((-fx) * (-fx) == fx * fx) by (nonlinear_arith);
    assert((-fy) * (-fy) == fy * fy) by (nonlinear_arith);
    assert((f.w * 1) * (f.w * 1) == f.w * f.w) by (nonlinear_arith);
    let d: Fraction = l.distance_squared(n);
    assert(d.num * (f.w * f.w) == norm(fx, fy) * d.den);
    f.lemma_gap_symmetric(n@);
    f
}

/// The distance between two parallel segments is a lower bound: no point of
/// the one and point of the other are nearer.
pub proof fn lemma_parallel_lower_bound(a: Segment, b: Segment, g: HPoint, h: HPoint)
    requires
        a.wf(),
        b.wf(),
        a.spec_line().parallel(b.spec_line()),
        g.w > 0,
        h.w > 0,
        a.contains(g),
        b.contains(h),
    ensures
        a.spec_parallel_distance(b).at_most(g.gap_squared(h)),
{
    a.lemma_parallel_is_cross(b);
    b.lemma_parallel_is_cross(a);
    lemma_swap(a.dx(), a.dy(), b.dx(), b.dy());
    a.lemma_length_positive();
    b.lemma_length_positive();
    a.lemma_own_ends();
    b.lemma_own_ends();
    a.lemma_line_is_across(g);
    b.lemma_line_is_across(h);
    let gw: int = g.w;
    let hw: int = h.w;
    if a.spec_shadows(b.p1@) || a.spec_shadows(b.p2@) {
        a.lemma_transport(b, b.p1@, h);
        let ah: int = a.across(h);
        let a1: int = a.across(b.p1@);
        let lb: int = b.spec_length_squared();
        assert(ah == hw * a1) by (nonlinear_arith)
            requires
                lb * (1 * ah - hw * a1) == (1 * b.along(h) - hw * b.along(b.p1@)) * 0,
                lb > 0,
        ;
        assert(ah * ah == (hw * hw) * (a1 * a1)) by (nonlinear_arith)
            requires
                ah == hw * a1,
        ;
        lemma_line_bound(a, b.p1, g, h);
    } else if b.spec_shadows(a.p1@) || b.spec_shadows(a.p2@) {
        b.lemma_transport(a, a.p1@, g);
        let bg: int = b.across(g);
        let b1: int = b.across(a.p1@);
        let la: int = a.spec_length_squared();
        assert(bg == gw * b1) by (nonlinear_arith)
            requires
                la * (1 * bg - gw * b1) == (1 * a.along(g) - gw * a.along(a.p1@)) * 0,
                la > 0,
        ;
        assert(bg * bg == (gw * gw) * (b1 * b1)) by (nonlinear_arith)
            requires
                bg == gw * b1,
        ;
        lemma_line_bound(b, a.p1, h, g);
        h.lemma_gap_symmetric(g);
    } else {
        let pair: (Point, Point) = crate::parallel::lemma_parallel_facing_ends(a, b);
        lemma_facing_ends_are_nearest(a, b, pair.0, pair.1, g, h);
        let least: int = a.spec_parallel_distance(b).num;
        let d: int = pair.0.spec_distance_squared(pair.1);
        let den: int = g.gap_squared(h).den;
        assert(least <= d);
        assert(den >= 0) by (nonlinear_arith)
            requires
                den == (gw * hw) * (gw * hw),
        ;
        assert(least * den <= d * den) by (nonlinear_arith)
            requires
                least <= d,
                den >= 0,
        ;
    }
}

/// The distance between two parallel segments is reached: a point of the
/// one and a point of the other are that far apart.
pub proof fn lemma_parallel_reached(a: Segment, b: Segment) -> (pair: (HPoint, HPoint))
    requires
        a.wf(),
        b.wf(),
        a.spec_line().parallel(b.spec_line()),
    ensures
        pair.0.w > 0,
        pair.1.w > 0,
        a.contains(pair.0),
        b.contains(pair.1),
        a.spec_parallel_distance(b).same(pair.0.gap_squared(pair.1)),
{
    a.lemma_parallel_is_cross(b);
    b.lemma_parallel_is_cross(a);
    lemma_swap(a.dx(), a.dy(), b.dx(), b.dy());
    a.lemma_length_positive();
    b.lemma_length_positive();
    a.lemma_own_ends();
    b.lemma_own_ends();
    a.lemma_line_is_across(a.p1@);
    a.lemma_line_is_across(a.p2@);
    b.lemma_line_is_across(b.p1@);
    b.lemma_line_is_across(b.p2@);
    a.lemma_line_is_across(b.p1@);
    a.lemma_line_is_across(b.p2@);
    b.lemma_line_is_across(a.p1@);
    b.lemma_line_is_across(a.p2@);
    a.lemma_shadow_is_between(b.p1@);
    a.lemma_shadow_is_between(b.p2@);
    b.lemma_shadow_is_between(a.p1@);
    b.lemma_shadow_is_between(a.p2@);
    a.lemma_relative(b.p1@, b.p2@);
    b.lemma_relative(a.p1@, a.p2@);
    assert(a.across(b.p2@) == a.across(b.p1@));
    assert(b.across(a.p2@) == b.across(a.p1@));
    if a.spec_shadows(b.p1@) {
        let f: HPoint = lemma_foot_on_segment(a, b.p1);
        (f, b.p1@)
    } else if a.spec_shadows(b.p2@) {
        let f: HPoint = lemma_foot_on_segment(a, b.p2);
        (f, b.p2@)
    } else if b.spec_shadows(a.p1@) {
        let f: HPoint = lemma_foot_on_segment(b, a.p1);
        (a.p1@, f)
    } else if b.spec_shadows(a.p2@) {
        let f: HPoint = lemma_foot_on_segment(b, a.p2);
        (a.p2@, f)
    } else {
        let d11: int = a.p1.spec_distance_squared(b.p1);
        let d12: int = a.p1.spec_distance_squared(b.p2);
        let d21: int = a.p2.spec_distance_squared(b.p1);
        let d22: int = a.p2.spec_distance_squared(b.p2);
        lemma_ends_gap(a.p1, b.p1);
        lemma_ends_gap(a.p1, b.p2);
        lemma_ends_gap(a.p2, b.p1);
        lemma_ends_gap(a.p2, b.p2);
        let least: int = a.spec_parallel_distance(b).num;
        if least == d11 {
            (a.p1@, b.p1@)
        } else if least == d12 {
            (a.p1@, b.p2@)
        } else if least == d21 {
            (a.p2@, b.p1@)
        } else {
            (a.p2@, b.p2@)
        }
    }
}

/// The distance between two grid points, read as rational points, is their
/// distance.
pub proof fn lemma_ends_gap(s: Point, o: Point)
    ensures
        s@.gap_squared(o@) == (Fraction { num: s.spec_distance_squared(o), den: 1 }),
{
    let mx: int = o.x - s.x;
    let my: int = o.y - s.y;
    assert((s.x - o.x) * (s.x - o.x) == mx * mx) by (nonlinear_arith)
        requires
            mx == o.x - s.x,
    ;
    assert((s.y - o.y) * (s.y - o.y) == my * my) by (nonlinear_arith)
        requires
            my == o.y - s.y,
    ;
}

/// Where the case split selects two points that are each the other's
/// nearest, the distance between two segments is a lower bound: no point of
/// the one and point of the other are nearer.
pub proof fn law_distance_is_lower_bound(a: Segment, b: Segment, g: HPoint, h: HPoint)
    requires
        a.wf(),
        b.wf(),
        a.spec_selects_nearest(b),
        g.w > 0,
        h.w > 0,
        a.contains(g),
        b.contains(h),
    ensures
        a.spec_distance_to_segment(b).at_most(g.gap_squared(h)),
{
    let x: HPoint = a.spec_line().meet(b.spec_line());
    let s: Point = a.spec_near(x);
    let o: Point = b.spec_near(x);
    crate::symmetry::lemma_meet_symmetric(a.spec_line(), b.spec_line());
    a.lemma_line_is_across(g);
    b.lemma_line_is_across(h);
    if a.spec_line().parallel(b.spec_line()) {
        lemma_parallel_lower_bound(a, b, g, h);
    } else if a.spec_shadows(x) && b.spec_shadows(x) {
        lemma_norm_zero(offset_x(g, h), offset_y(g, h));
        assert(norm(offset_x(g, h), offset_y(g, h)) * 1 >= 0);
    } else if a.spec_shadows(x) || (!b.spec_shadows(x) && a.spec_shadows(o@)) {
        lemma_near_end_is_least_across(a, b, h);
        lemma_line_bound(a, o, g, h);
    } else if b.spec_shadows(x) || b.spec_shadows(s@) {
        lemma_near_end_is_least_across(b, a, g);
        lemma_line_bound(b, s, h, g);
        h.lemma_gap_symmetric(g);
    } else {
        lemma_facing_ends_are_nearest(a, b, s, o, g, h);
    }
}

/// Where the case split selects two points that are each the other's
/// nearest, the distance between two segments is reached: a point of the one
/// and a point of the other are that far apart.
pub proof fn law_distance_is_reached(a: Segment, b: Segment) -> (pair: (HPoint, HPoint))
    requires
        a.wf(),
        b.wf(),
        a.spec_selects_nearest(b),
    ensures
        pair.0.w > 0,
        pair.1.w > 0,
        a.contains(pair.0),
        b.contains(pair.1),
        a.spec_distance_to_segment(b).same(pair.0.gap_squared(pair.1)),
{
    let x: HPoint = a.spec_line().meet(b.spec_line());
    let s: Point = a.spec_near(x);
    let o: Point = b.spec_near(x);
    if a.spec_line().parallel(b.spec_line()) {
        lemma_parallel_reached(a, b)
    } else {
        a.spec_line().lemma_meet_on_both(b.spec_line());
        a.lemma_shadow_is_between(x);
        b.lemma_shadow_is_between(x);
        a.lemma_shadow_is_between(o@);
        b.lemma_shadow_is_between(s@);
        a.lemma_own_ends();
        b.lemma_own_ends();
        a.lemma_length_positive();
        b.lemma_length_positive();
        a.lemma_line_is_across(s@);
        b.lemma_line_is_across(o@);
        if a.spec_shadows(x) && b.spec_shadows(x) {
            assert(offset_x(x, x) == 0 && offset_y(x, x) == 0) by (nonlinear_arith)
                requires
                    offset_x(x, x) == x.w * x.x - x.w * x.x,
                    offset_y(x, x) == x.w * x.y - x.w * x.y,
            ;
            assert(norm(0, 0) == 0);
            (x, x)
        } else if a.spec_shadows(x) || (!b.spec_shadows(x) && a.spec_shadows(o@)) {
            let f: HPoint = lemma_foot_on_segment(a, o);
            (f, o@)
        } else if b.spec_shadows(x) || b.spec_shadows(s@) {
            let f: HPoint = lemma_foot_on_segment(b, s);
            (s@, f)
        } else {
            lemma_ends_gap(s, o);
            (s@, o@)
        }
    }
}

/// Beside a segment, the end of another segment is further from every
/// point of the segment than from the segment's line.
pub proof fn lemma_line_is_out_of_reach(a: Segment, b: Segment, g: HPoint, h: HPoint)
    requires
        a.wf(),
        b.wf(),
        !a.spec_line().parallel(b.spec_line()),
        !b.spec_shadows(a.spec_line().meet(b.spec_line())),
        !a.covers(b.spec_near(a.spec_line().meet(b.spec_line()))@),
        g.w > 0,
        h.w > 0,
        a.contains(g),
        b.contains(h),
    ensures
        a.spec_line().distance_squared(b.spec_near(a.spec_line().meet(b.spec_line()))).less_than(
            g.gap_squared(h),
        ),
{
    let x: HPoint = a.spec_line().meet(b.spec_line());
    let n: Point = b.spec_near(x);
    let dx: int = a.dx();
    let dy: int = a.dy();
    let la: int = a.spec_length_squared();
    let lb: int = b.spec_length_squared();
    let gw: int = g.w;
    let hw: int = h.w;
    let rx: int = offset_x(g, h);
    let ry: int = offset_y(g, h);
    a.lemma_length_positive();
    b.lemma_length_positive();
    b.lemma_own_ends();
    a.lemma_parallel_is_cross(b);
    a.lemma_line_is_across(g);
    b.lemma_line_is_across(h);
    a.lemma_line_is_across(n@);
    lemma_line_norm(a);
    lemma_near_end_is_least_across(a, b, h);
    a.lemma_relative(g, h);
    lemma_lagrange(dx, dy, rx, ry);
    a.lemma_transport(b, n@, h);
    let an: int = a.across(n@);
    let ah: int = a.across(h);
    let step: int = ah - hw * an;
    let c: int = cross(dx, dy, rx, ry);
    let k: int = dot(dx, dy, rx, ry);
    let e: int = a.spec_line().eval(n@);
    let an2: int = an * an;
    let ah2: int = ah * ah;
    let gw2: int = gw * gw;
    let hw2: int = hw * hw;
    let step2: int = step * step;
    let k2: int = k * k;
    if step == 0 && k == 0 {
        // The point of the other segment is its end, and the point of this
        // segment is level with it: the end is level with this segment.
        let rho: int = b.along(h) - hw * b.along(n@);
        let cw: int = a.cross_with(b);
        assert(rho == 0) by (nonlinear_arith)
            requires
                lb * (1 * ah - hw * an) == (1 * b.along(h) - hw * b.along(n@)) * cw,
                rho == b.along(h) - hw * b.along(n@),
                1 * ah - hw * an == 0,
                cw != 0,
        ;
        let along_h: int = a.along(h);
        let along_n: int = a.along(n@);
        assert(along_h == hw * along_n) by (nonlinear_arith)
            requires
                lb * (1 * along_h - hw * along_n) == (1 * b.along(h) - hw * b.along(n@))
                    * a.dot_with(b),
                1 * b.along(h) - hw * b.along(n@) == 0,
                lb > 0,
        ;
        let along_g: int = a.along(g);
        assert(gw * (hw * along_n) == hw * (gw * along_n)) by (nonlinear_arith);
        assert(along_g == gw * along_n) by (nonlinear_arith)
            requires
                hw * (gw * along_n) - hw * along_g == 0,
                hw > 0,
        ;
        assert(0 <= along_n <= 1 * la) by (nonlinear_arith)
            requires
                0 <= gw * along_n <= gw * la,
                gw > 0,
        ;
    }
    assert(step2 >= 0 && (step != 0 ==> step2 > 0)) by (nonlinear_arith)
        requires
            step2 == step * step,
    ;
    assert(k2 >= 0 && (k != 0 ==> k2 > 0)) by (nonlinear_arith)
        requires
            k2 == k * k,
    ;
    assert(c == gw * ah) by (nonlinear_arith)
        requires
            c == gw * ah - hw * a.across(g),
            a.across(g) == 0,
    ;
    assert(c * c == gw2 * ah2) by (nonlinear_arith)
        requires
            c == gw * ah,
            gw2 == gw * gw,
            ah2 == ah * ah,
    ;
    assert(gw2 > 0) by (nonlinear_arith)
        requires
            gw2 == gw * gw,
            gw > 0,
    ;
    assert(gw2 * ah2 >= gw2 * (hw2 * an2) + gw2 * step2) by (nonlinear_arith)
        requires
            ah2 >= hw2 * an2 + step2,
            gw2 > 0,
    ;
    assert(step2 > 0 ==> gw2 * step2 > 0) by (nonlinear_arith)
        requires
            gw2 > 0,
    ;
    assert(gw2 * step2 >= 0) by (nonlinear_arith)
        requires
            gw2 > 0,
            step2 >= 0,
    ;
    assert(e * e == an2) by (nonlinear_arith)
        requires
            e == -an,
            an2 == an * an,
    ;
    assert(gw2 * (hw2 * an2) == an2 * ((gw * hw) * (gw * hw))) by (nonlinear_arith)
        requires
            gw2 == gw * gw,
            hw2 == hw * hw,
    ;
    assert(norm(rx, ry) * la == la * norm(rx, ry)) by (nonlinear_arith);
    assert(la * norm(rx, ry) == k2 + gw2 * ah2);
}

/// An end that does not face a point outside the segment's shadow is
/// further from the point than the other end is.
pub proof fn lemma_other_end_is_nearer(a: Segment, s: Point, o: Point)
    requires
        a.wf(),
        s == a.p1 || s == a.p2,
        !a.spec_shadows(o@),
        a.spec_near(o@) != s,
    ensures
        a.spec_near(o@).spec_distance_squared(o) < s.spec_distance_squared(o),
{
    let la: int = a.spec_length_squared();
    a.lemma_length_positive();
    a.lemma_shadow_is_between(o@);
    a.lemma_end_gaps(o@);
    lemma_ends_gap(a.p1, o);
    lemma_ends_gap(a.p2, o);
    let along: int = a.along(o@);
    assert(1 * (1 * la - 2 * along) == la - 2 * along);
}

/// Where the case split does not select two points that are each the
/// other's nearest, its distance is not the least between the two segments:
/// either every point of the one is further from every point of the other,
/// or two points are nearer.
pub proof fn law_unselected_is_not_least(a: Segment, b: Segment, g: HPoint, h: HPoint) -> (pair: (
    HPoint,
    HPoint,
))
    requires
        a.wf(),
        b.wf(),
        !a.spec_selects_nearest(b),
        g.w > 0,
        h.w > 0,
        a.contains(g),
        b.contains(h),
    ensures
        a.spec_distance_to_segment(b).less_than(g.gap_squared(h)) || ({
            &&& pair.0.w > 0
            &&& pair.1.w > 0
            &&& a.contains(pair.0)
            &&& b.contains(pair.1)
            &&& pair.0.gap_squared(pair.1).less_than(a.spec_distance_to_segment(b))
        }),
{
    let x: HPoint = a.spec_line().meet(b.spec_line());
    let s: Point = a.spec_near(x);
    let o: Point = b.spec_near(x);
    crate::symmetry::lemma_meet_symmetric(a.spec_line(), b.spec_line());
    a.lemma_own_ends();
    b.lemma_own_ends();
    a.lemma_length_positive();
    b.lemma_length_positive();
    a.lemma_line_is_across(a.p1@);
    a.lemma_line_is_across(a.p2@);
    b.lemma_line_is_across(b.p1@);
    b.lemma_line_is_across(b.p2@);
    if a.spec_shadows(x) {
        lemma_line_is_out_of_reach(a, b, g, h);
        assert(a.spec_distance_to_segment(b).less_than(g.gap_squared(h)));
        (g, h)
    } else if b.spec_shadows(x) {
        lemma_line_is_out_of_reach(b, a, h, g);
        h.lemma_gap_symmetric(g);
        assert(a.spec_distance_to_segment(b).less_than(g.gap_squared(h)));
        (g, h)
    } else if a.spec_near(o@) != s {
        let other: Point = a.spec_near(o@);
        lemma_other_end_is_nearer(a, s, o);
        lemma_ends_gap(other, o);
        assert(a.contains(other@));
        assert(b.contains(o@));
        assert(other@.gap_squared(o@).less_than(a.spec_distance_to_segment(b)));
        (other@, o@)
    } else {
        let other: Point = b.spec_near(s@);
        lemma_other_end_is_nearer(b, o, s);
        lemma_ends_gap(s, other);
        crate::laws::law_distance_symmetric(s, other);
        crate::laws::law_distance_symmetric(s, o);
        assert(a.contains(s@));
        assert(b.contains(other@));
        assert(s@.gap_squared(other@).less_than(a.spec_distance_to_segment(b)));
        (s@, other@)
    }
}

} // verus!
