//! Segments that lie on one line.

use vstd::prelude::*;
use crate::algebra::{lemma_lagrange, lemma_norm_zero, lemma_swap, norm};
use crate::point::{HPoint, Point};
use crate::segment::Segment;
use crate::relative::lemma_line_norm;
use crate::symmetry::lemma_parallel_gap;

verus! {

/// A grid point of a segment's line that is level with an end is that end.
pub proof fn lemma_level_on_line_is_end(a: Segment, q: Point)
    requires
        a.wf(),
        a.across(q@) == 0,
    ensures
        a.along(q@) == 0 ==> q == a.p1,
        a.along(q@) == a.spec_length_squared() ==> q == a.p2,
{
    let dx: int = a.dx();
    let dy: int = a.dy();
    let la: int = a.spec_length_squared();
    let rx: int = q.x - a.p1.x;
    let ry: int = q.y - a.p1.y;
    a.lemma_length_positive();
    a.lemma_own_ends();
    a.lemma_relative(a.p2@, q@);
    let along: int = a.along(q@);
    let across: int = a.across(q@);
    if along == 0 {
        lemma_lagrange(dx, dy, rx, ry);
        lemma_norm_zero(rx, ry);
        let n: int = norm(rx, ry);
        assert(la * n == 0) by (nonlinear_arith)
            requires
                along * along + across * across == la * n,
                along == 0,
                across == 0,
        ;
        assert(n == 0) by (nonlinear_arith)
            requires
                la * n == 0,
                la > 0,
        ;
    }
    if along == la {
        let sx: int = q.x - a.p2.x;
        let sy: int = q.y - a.p2.y;
        lemma_lagrange(dx, dy, sx, sy);
        lemma_norm_zero(sx, sy);
        let n: int = norm(sx, sy);
        let k: int = crate::algebra::dot(dx, dy, sx, sy);
        let c: int = crate::algebra::cross(dx, dy, sx, sy);
        assert(k == 0);
        assert(c == 0);
        assert(la * n == 0) by (nonlinear_arith)
            requires
                k * k + c * c == la * n,
                k == 0,
                c == 0,
        ;
        assert(n == 0) by (nonlinear_arith)
            requires
                la * n == 0,
                la > 0,
        ;
    }
}

/// Weights that are not negative, on values that are not positive, give a
/// sum that is not positive; and a zero sum leaves no weight on a negative
/// value.
pub proof fn lemma_weighted(m: int, n: int, x: int, y: int)
    by (nonlinear_arith)
    requires
        m >= 0,
        n >= 0,
        x <= 0,
        y <= 0,
    ensures
        m * x + n * y <= 0,
        m * x + n * y == 0 ==> (m == 0 || x == 0) && (n == 0 || y == 0),
{
}

/// Two segments of one line that share a point are at distance zero.
pub proof fn law_collinear_overlap_is_zero(a: Segment, b: Segment, h: HPoint)
    requires
        a.wf(),
        b.wf(),
        a.spec_line().contains(b.p1@),
        a.spec_line().contains(b.p2@),
        h.w > 0,
        a.contains(h),
        b.contains(h),
    ensures
        a.spec_line().parallel(b.spec_line()),
        a.spec_distance_to_segment(b).num == 0,
{
    let la: int = a.spec_length_squared();
    let lb: int = b.spec_length_squared();
    let w: int = h.w;
    a.lemma_length_positive();
    b.lemma_length_positive();
    a.lemma_own_ends();
    b.lemma_own_ends();
    a.lemma_line_is_across(b.p1@);
    a.lemma_line_is_across(b.p2@);
    a.lemma_line_is_across(h);
    b.lemma_line_is_across(h);
    b.lemma_line_is_across(a.p1@);
    a.lemma_relative(b.p1@, b.p2@);
    a.lemma_parallel_is_cross(b);
    assert(a.cross_with(b) == 0);
    lemma_line_norm(a);
    lemma_line_norm(b);
    lemma_parallel_gap(a, b, a.p1, b.p1);
    let e1: int = a.spec_line().eval(b.p1@);
    assert(e1 * e1 == 0) by (nonlinear_arith)
        requires
            e1 == 0,
    ;
    let gap_b: int = b.spec_line().distance_squared(a.p1).num;
    assert(gap_b == 0) by (nonlinear_arith)
        requires
            0 * lb == gap_b * la,
            la > 0,
    ;
    if !(a.spec_shadows(b.p1@) || a.spec_shadows(b.p2@)) && !(b.spec_shadows(a.p1@)
        || b.spec_shadows(a.p2@)) {
        a.lemma_shadow_is_between(b.p1@);
        a.lemma_shadow_is_between(b.p2@);
        b.lemma_shadow_is_between(a.p1@);
        let u1: int = a.along(b.p1@);
        let u2: int = a.along(b.p2@);
        let v1: int = b.along(a.p1@);
        let d: int = a.dot_with(b);
        assert(d == u2 - u1);
        lemma_swap(a.dx(), a.dy(), b.dx(), b.dy());
        assert(b.dot_with(a) == d);
        lemma_level_on_line_is_end(a, b.p1);
        lemma_level_on_line_is_end(a, b.p2);
        lemma_norm_zero(a.p1.x - b.p1.x, a.p1.y - b.p1.y);
        lemma_norm_zero(a.p1.x - b.p2.x, a.p1.y - b.p2.y);
        lemma_norm_zero(a.p2.x - b.p1.x, a.p2.y - b.p1.y);
        lemma_norm_zero(a.p2.x - b.p2.x, a.p2.y - b.p2.y);
        let alpha: int = a.along(h);
        let beta: int = b.along(h);
        if (u1 <= 0 && u2 <= 0) || (u1 >= la && u2 >= la) {
            // The other segment lies to one side; the shared point is an end
            // of both.
            a.lemma_transport(b, b.p1@, h);
            assert(lb * (alpha - w * u1) == beta * d);
            assert(lb * (alpha - w * u1) == lb * alpha - (w * lb) * u1) by (nonlinear_arith);
            assert(beta * (u2 - u1) == beta * u2 - beta * u1) by (nonlinear_arith);
            assert((w * lb - beta) * u1 == (w * lb) * u1 - beta * u1) by (nonlinear_arith);
            assert(lb * alpha == (w * lb - beta) * u1 + beta * u2);
            assert(w * lb > 0) by (nonlinear_arith)
                requires
                    w > 0,
                    lb > 0,
            ;
            if u1 <= 0 {
                lemma_weighted(w * lb - beta, beta, u1, u2);
                assert(lb * alpha >= 0) by (nonlinear_arith)
                    requires
                        lb > 0,
                        alpha >= 0,
                ;
                assert(u1 == 0 || u2 == 0);
            } else {
                assert((w * lb - beta) * (u1 - la) == (w * lb - beta) * u1 - (w * lb) * la + beta
                    * la) by (nonlinear_arith);
                assert(beta * (u2 - la) == beta * u2 - beta * la) by (nonlinear_arith);
                assert(lb * (alpha - w * la) == lb * alpha - (w * lb) * la) by (nonlinear_arith);
                assert(lb * (alpha - w * la) == (w * lb - beta) * (u1 - la) + beta * (u2 - la));
                lemma_weighted(w * lb - beta, beta, la - u1, la - u2);
                assert((w * lb - beta) * (la - u1) == -((w * lb - beta) * (u1 - la)))
                    by (nonlinear_arith);
                assert(beta * (la - u2) == -(beta * (u2 - la))) by (nonlinear_arith);
                assert(lb * (alpha - w * la) <= 0) by (nonlinear_arith)
                    requires
                        lb > 0,
                        alpha - w * la <= 0,
                ;
                assert(u1 == la || u2 == la);
            }
        } else {
            // The other segment reaches across this one; this one's first end
            // is an end of the other.
            b.lemma_transport(a, b.p1@, a.p1@);
            b.lemma_transport(a, b.p2@, a.p1@);
            assert(la * v1 == (0 - u1) * d);
            assert(la * (v1 - lb) == (0 - u2) * d);
            if u1 <= 0 {
                assert(u2 >= la);
                assert((0 - u1) * d >= 0) by (nonlinear_arith)
                    requires
                        u1 <= 0,
                        d > 0,
                ;
                assert((0 - u2) * d < 0) by (nonlinear_arith)
                    requires
                        u2 > 0,
                        d > 0,
                ;
                assert(v1 >= 0 && v1 < lb) by (nonlinear_arith)
                    requires
                        la > 0,
                        la * v1 >= 0,
                        la * (v1 - lb) < 0,
                ;
                assert(u1 == 0) by (nonlinear_arith)
                    requires
                        la * v1 == (0 - u1) * d,
                        v1 == 0,
                        d > 0,
                ;
            } else {
                assert(u1 >= la && u2 <= 0);
                assert((0 - u1) * d > 0) by (nonlinear_arith)
                    requires
                        u1 > 0,
                        d < 0,
                ;
                assert((0 - u2) * d <= 0) by (nonlinear_arith)
                    requires
                        u2 <= 0,
                        d < 0,
                ;
                assert(v1 > 0 && v1 <= lb) by (nonlinear_arith)
                    requires
                        la > 0,
                        la * v1 > 0,
                        la * (v1 - lb) <= 0,
                ;
                assert(u2 == 0) by (nonlinear_arith)
                    requires
                        la * (v1 - lb) == (0 - u2) * d,
                        v1 == lb,
                        d < 0,
                ;
            }
        }
    }
}

} // verus!
