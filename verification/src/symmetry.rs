//! The distance between two segments does not depend on which of them is
//! asked.

use vstd::prelude::*;
use crate::algebra::{cross, dot, lemma_cauchy, lemma_lagrange, lemma_resolve, lemma_swap};
use crate::capsule::Capsule;
use crate::exact::Fraction;
use crate::line::LineEq;
use crate::point::{HPoint, Point};
use crate::relative::lemma_line_norm;
use crate::segment::Segment;

verus! {

/// Two lines cross in the same point, whichever is asked.
pub proof fn lemma_meet_symmetric(l: LineEq, m: LineEq)
    ensures
        l.parallel(m) == m.parallel(l),
        !l.parallel(m) ==> l.meet(m) == m.meet(l),
{
}

/// A number further from zero than another, on the same side, has the larger
/// square.
pub proof fn lemma_squares_ordered(u: int, s: int)
    by (nonlinear_arith)
    requires
        (u > s && s >= 0) || (u < s && s <= 0),
    ensures
        u * u > s * s,
        s * s >= 0,
{
}

/// Seen from a point of a segment's line outside its shadow, every point
/// inside the shadow lies beyond the near end.
pub proof fn lemma_beyond_near_end(w: int, l: int, at_x: int, at_inner: int, at_end: int)
    by (nonlinear_arith)
    requires
        w > 0,
        l > 0,
        0 < at_inner < l,
        !(0 < at_x < w * l),
        at_end == (if at_x <= 0 {
            0
        } else {
            l
        }),
    ensures
        ({
            let u: int = w * at_inner - at_x;
            let s: int = w * at_end - at_x;
            (u > s && s >= 0) || (u < s && s <= 0)
        }),
{
}

/// If each of two directions carried the other's step further than the step
/// itself is long, their dot product would exceed what their lengths allow.
pub proof fn lemma_mutual_gain(u: int, v: int, s: int, t: int, d: int, la: int, lb: int)
    requires
        la > 0,
        lb > 0,
        lb * u == t * d,
        la * v == s * d,
        (u > s && s >= 0) || (u < s && s <= 0),
        (v > t && t >= 0) || (v < t && t <= 0),
    ensures
        d * d > la * lb,
{
    lemma_squares_ordered(u, s);
    lemma_squares_ordered(v, t);
    let u2: int = u * u;
    let v2: int = v * v;
    let s2: int = s * s;
    let t2: int = t * t;
    assert(u2 * v2 > s2 * t2) by (nonlinear_arith)
        requires
            u2 > s2,
            s2 >= 0,
            v2 > t2,
            t2 >= 0,
    ;
    let m: int = la * lb;
    let e: int = d * d;
    let p: int = u * v;
    let q: int = s * t;
    assert(m > 0) by (nonlinear_arith)
        requires
            m == la * lb,
            la > 0,
            lb > 0,
    ;
    assert(e >= 0) by (nonlinear_arith)
        requires
            e == d * d,
    ;
    assert((lb * u) * (la * v) == (la * lb) * (u * v)) by (nonlinear_arith);
    assert((t * d) * (s * d) == (s * t) * (d * d)) by (nonlinear_arith);
    assert(m * p == q * e);
    assert(p * p == u2 * v2) by (nonlinear_arith)
        requires
            p == u * v,
            u2 == u * u,
            v2 == v * v,
    ;
    assert(q * q == s2 * t2) by (nonlinear_arith)
        requires
            q == s * t,
            s2 == s * s,
            t2 == t * t,
    ;
    let mm: int = m * m;
    let ee: int = e * e;
    let pp: int = p * p;
    let qq: int = q * q;
    assert((m * p) * (m * p) == mm * pp) by (nonlinear_arith)
        requires
            mm == m * m,
            pp == p * p,
    ;
    assert((q * e) * (q * e) == qq * ee) by (nonlinear_arith)
        requires
            qq == q * q,
            ee == e * e,
    ;
    if e <= m {
        assert(ee <= mm) by (nonlinear_arith)
            requires
                ee == e * e,
                mm == m * m,
                0 <= e <= m,
        ;
        assert(qq >= 0) by (nonlinear_arith)
            requires
                qq == q * q,
        ;
        assert(qq * ee <= qq * mm) by (nonlinear_arith)
            requires
                ee <= mm,
                qq >= 0,
        ;
        assert(mm > 0) by (nonlinear_arith)
            requires
                mm == m * m,
                m > 0,
        ;
        assert(pp <= qq) by (nonlinear_arith)
            requires
                mm * pp <= qq * mm,
                mm > 0,
        ;
    }
}

/// Where the crossing point of the two lines is in neither shadow, at most
/// one segment's shadow holds the other's near end.
pub proof fn lemma_corners_exclusive(a: Segment, b: Segment)
    requires
        a.wf(),
        b.wf(),
        !a.spec_line().parallel(b.spec_line()),
        !a.spec_shadows(a.spec_line().meet(b.spec_line())),
        !b.spec_shadows(a.spec_line().meet(b.spec_line())),
    ensures
        ({
            let x: HPoint = a.spec_line().meet(b.spec_line());
            !(a.spec_shadows(b.spec_near(x)@) && b.spec_shadows(a.spec_near(x)@))
        }),
{
    let x: HPoint = a.spec_line().meet(b.spec_line());
    let s: Point = a.spec_near(x);
    let o: Point = b.spec_near(x);
    if a.spec_shadows(o@) && b.spec_shadows(s@) {
        a.spec_line().lemma_meet_on_both(b.spec_line());
        a.lemma_line_is_across(x);
        b.lemma_line_is_across(x);
        a.lemma_length_positive();
        b.lemma_length_positive();
        a.lemma_own_ends();
        b.lemma_own_ends();
        a.lemma_shadow_is_between(x);
        b.lemma_shadow_is_between(x);
        a.lemma_shadow_is_between(o@);
        b.lemma_shadow_is_between(s@);
        let w: int = x.w;
        let la: int = a.spec_length_squared();
        let lb: int = b.spec_length_squared();
        a.lemma_transport(b, x, o@);
        b.lemma_transport(a, x, s@);
        lemma_swap(a.dx(), a.dy(), b.dx(), b.dy());
        lemma_cauchy(a.dx(), a.dy(), b.dx(), b.dy());
        let d: int = a.dot_with(b);
        assert(b.dot_with(a) == d);
        let u: int = w * a.along(o@) - a.along(x);
        let v: int = w * b.along(s@) - b.along(x);
        let sg: int = w * a.along(s@) - a.along(x);
        let tu: int = w * b.along(o@) - b.along(x);
        lemma_beyond_near_end(w, la, a.along(x), a.along(o@), a.along(s@));
        lemma_beyond_near_end(w, lb, b.along(x), b.along(s@), b.along(o@));
        assert(lb * u == tu * d);
        assert(la * v == sg * d);
        lemma_mutual_gain(u, v, sg, tu, d, la, lb);
    }
}

/// Two parallel lines are as far from a point of the one as from a point of
/// the other.
pub proof fn lemma_parallel_gap(a: Segment, b: Segment, p: Point, q: Point)
    requires
        a.wf(),
        b.wf(),
        a.spec_line().parallel(b.spec_line()),
        a.across(p@) == 0,
        b.across(q@) == 0,
    ensures
        a.spec_line().distance_squared(q).same(b.spec_line().distance_squared(p)),
{
    let dx: int = a.dx();
    let dy: int = a.dy();
    let ex: int = b.dx();
    let ey: int = b.dy();
    let la: int = a.spec_length_squared();
    let lb: int = b.spec_length_squared();
    a.lemma_parallel_is_cross(b);
    a.lemma_length_positive();
    b.lemma_length_positive();
    a.lemma_line_is_across(q@);
    b.lemma_line_is_across(p@);
    lemma_line_norm(a);
    lemma_line_norm(b);
    // The vector from `p` to `q`, measured by both directions.
    a.lemma_relative(p@, q@);
    b.lemma_relative(p@, q@);
    let rx: int = q.x - p.x;
    let ry: int = q.y - p.y;
    let cd: int = cross(dx, dy, rx, ry);
    let ce: int = cross(ex, ey, rx, ry);
    assert(a.across(q@) == cd);
    assert(b.across(p@) == -ce);
    let k: int = dot(dx, dy, ex, ey);
    lemma_resolve(dx, dy, ex, ey);
    lemma_lagrange(dx, dy, ex, ey);
    assert(cross(dx, dy, ex, ey) == 0);
    let lex: int = la * ex;
    let ley: int = la * ey;
    assert(lex == k * dx) by (nonlinear_arith)
        requires
            lex == k * dx - cross(dx, dy, ex, ey) * dy,
            cross(dx, dy, ex, ey) == 0,
    ;
    assert(ley == k * dy) by (nonlinear_arith)
        requires
            ley == k * dy + cross(dx, dy, ex, ey) * dx,
            cross(dx, dy, ex, ey) == 0,
    ;
    assert(la * (ex * ry - ey * rx) == lex * ry - ley * rx) by (nonlinear_arith)
        requires
            lex == la * ex,
            ley == la * ey,
    ;
    assert((k * dx) * ry - (k * dy) * rx == k * (dx * ry - dy * rx)) by (nonlinear_arith);
    assert(la * ce == k * cd);
    assert(k * k == la * lb) by (nonlinear_arith)
        requires
            k * k + cross(dx, dy, ex, ey) * cross(dx, dy, ex, ey) == la * lb,
            cross(dx, dy, ex, ey) == 0,
    ;
    let cd2: int = cd * cd;
    let ce2: int = ce * ce;
    assert((la * ce) * (la * ce) == la * (la * ce2)) by (nonlinear_arith)
        requires
            ce2 == ce * ce,
    ;
    assert((k * cd) * (k * cd) == (k * k) * cd2) by (nonlinear_arith)
        requires
            cd2 == cd * cd,
    ;
    assert((la * lb) * cd2 == la * (lb * cd2)) by (nonlinear_arith);
    assert(la * ce2 == lb * cd2) by (nonlinear_arith)
        requires
            la * (la * ce2) == la * (lb * cd2),
            la > 0,
    ;
    assert((-cd) * (-cd) == cd2) by (nonlinear_arith)
        requires
            cd2 == cd * cd,
    ;
    assert((-(-ce)) * (-(-ce)) == ce2) by (nonlinear_arith)
        requires
            ce2 == ce * ce,
    ;
    assert(cd2 * lb == lb * cd2) by (nonlinear_arith);
    assert(ce2 * la == la * ce2) by (nonlinear_arith);
}

/// The distance between two segments is a fraction with a positive
/// denominator, and it is not negative.
pub proof fn law_segment_distance_defined(a: Segment, b: Segment)
    requires
        a.wf(),
        b.wf(),
    ensures
        a.spec_distance_to_segment(b).den > 0,
        a.spec_distance_to_segment(b).num >= 0,
{
    a.lemma_length_positive();
    b.lemma_length_positive();
    lemma_line_norm(a);
    lemma_line_norm(b);
    let f: Fraction = a.spec_distance_to_segment(b);
    assert(f.num >= 0) by {
        assert(forall|l: LineEq, p: Point| #[trigger] l.distance_squared(p).num >= 0) by {
            assert forall|l: LineEq, p: Point| #[trigger] l.distance_squared(p).num >= 0 by {
                crate::exact::lemma_square_nonnegative(l.eval(p@));
            }
        }
        assert(forall|p: Point, q: Point| #[trigger] p.spec_distance_squared(q) >= 0) by {
            assert forall|p: Point, q: Point| #[trigger] p.spec_distance_squared(q) >= 0 by {
                crate::algebra::lemma_norm_zero(p.x - q.x, p.y - q.y);
            }
        }
    }
}

/// The distance from one segment to another is the distance from the other
/// to the one.
pub proof fn law_segment_distance_symmetric(a: Segment, b: Segment)
    requires
        a.wf(),
        b.wf(),
    ensures
        a.spec_distance_to_segment(b).same(b.spec_distance_to_segment(a)),
{
    let la: LineEq = a.spec_line();
    let lb: LineEq = b.spec_line();
    lemma_meet_symmetric(la, lb);
    crate::laws::law_distance_symmetric(a.p1, b.p1);
    crate::laws::law_distance_symmetric(a.p1, b.p2);
    crate::laws::law_distance_symmetric(a.p2, b.p1);
    crate::laws::law_distance_symmetric(a.p2, b.p2);
    if la.parallel(lb) {
        a.lemma_own_ends();
        b.lemma_own_ends();
        lemma_parallel_gap(a, b, a.p1, b.p1);
        lemma_parallel_gap(b, a, b.p1, a.p1);
        let f: Fraction = a.spec_distance_to_segment(b);
        let g: Fraction = b.spec_distance_to_segment(a);
        assert(f.num * g.den == g.num * f.den) by (nonlinear_arith)
            requires
                f == g || f.num * g.den == g.num * f.den || g.num * f.den == f.num * g.den,
        ;
    } else {
        let x: HPoint = la.meet(lb);
        if !a.spec_shadows(x) && !b.spec_shadows(x) {
            lemma_corners_exclusive(a, b);
            crate::laws::law_distance_symmetric(a.spec_near(x), b.spec_near(x));
        }
        assert(a.spec_distance_to_segment(b) == b.spec_distance_to_segment(a));
    }
}

/// Fractions that denote the same number are below the same bounds.
pub proof fn lemma_same_is_as_short(f: Fraction, g: Fraction, reach: int)
    requires
        f.den > 0,
        g.den > 0,
        f.same(g),
    ensures
        f.shorter_than(reach) == g.shorter_than(reach),
{
    let k: int = reach * reach;
    assert(f.num < k * f.den <==> f.num * g.den < (k * f.den) * g.den) by (nonlinear_arith)
        requires
            g.den > 0,
    ;
    assert(g.num < k * g.den <==> g.num * f.den < (k * g.den) * f.den) by (nonlinear_arith)
        requires
            f.den > 0,
    ;
    assert((k * f.den) * g.den == (k * g.den) * f.den) by (nonlinear_arith);
}

/// Whether two capsules collide does not depend on which of them is asked.
pub proof fn law_collides_symmetric(a: Capsule, b: Capsule)
    requires
        a.wf(),
        b.wf(),
    ensures
        a.spec_collides(b) == b.spec_collides(a),
{
    law_segment_distance_symmetric(a.segment, b.segment);
    law_segment_distance_defined(a.segment, b.segment);
    law_segment_distance_defined(b.segment, a.segment);
    lemma_same_is_as_short(
        a.segment.spec_distance_to_segment(b.segment),
        b.segment.spec_distance_to_segment(a.segment),
        a.r + b.r,
    );
}

} // verus!
