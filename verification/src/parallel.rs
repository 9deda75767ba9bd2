//! Segments on parallel lines.

use vstd::prelude::*;
use crate::algebra::{cross, dot, lemma_lagrange, lemma_resolve};
use crate::point::{HPoint, Point};
use crate::relative::{offset_x, offset_y};
use crate::segment::Segment;

verus! {

/// Two parallel segments measure every point alike along themselves, up to
/// where the measure starts and up to scale.
pub proof fn lemma_parallel_along(a: Segment, b: Segment, h: HPoint)
    requires
        a.wf(),
        b.wf(),
        a.cross_with(b) == 0,
    ensures
        a.spec_length_squared() * b.along(h) == a.dot_with(b) * (a.along(h) - h.w * a.along(
            b.p1@,
        )),
        a.dot_with(b) * a.dot_with(b) == a.spec_length_squared() * b.spec_length_squared(),
        a.dot_with(b) != 0,
{
    let dx: int = a.dx();
    let dy: int = a.dy();
    let ex: int = b.dx();
    let ey: int = b.dy();
    let la: int = a.spec_length_squared();
    let lb: int = b.spec_length_squared();
    let d: int = a.dot_with(b);
    let k: int = cross(dx, dy, ex, ey);
    a.lemma_length_positive();
    b.lemma_length_positive();
    lemma_resolve(dx, dy, ex, ey);
    lemma_lagrange(dx, dy, ex, ey);
    assert(k * dy == 0 && k * dx == 0 && k * k == 0) by (nonlinear_arith)
        requires
            k == 0,
    ;
    assert(d * d == la * lb);
    assert(la * lb > 0) by (nonlinear_arith)
        requires
            la > 0,
            lb > 0,
    ;
    assert(d != 0) by (nonlinear_arith)
        requires
            d * d > 0,
    ;
    let rx: int = offset_x(b.p1@, h);
    let ry: int = offset_y(b.p1@, h);
    a.lemma_relative(b.p1@, h);
    assert(b.along(h) == dot(ex, ey, rx, ry));
    assert(dot(dx, dy, rx, ry) == a.along(h) - h.w * a.along(b.p1@));
    let lex: int = la * ex;
    let ley: int = la * ey;
    assert(lex == d * dx);
    assert(ley == d * dy);
    assert(la * (ex * rx + ey * ry) == lex * rx + ley * ry) by (nonlinear_arith)
        requires
            lex == la * ex,
            ley == la * ey,
    ;
    assert((d * dx) * rx + (d * dy) * ry == d * (dx * rx + dy * ry)) by (nonlinear_arith);
}

/// Where two parallel segments have no end in each other's shadow, an end of
/// the one and an end of the other face each other.
pub proof fn lemma_parallel_facing_ends(a: Segment, b: Segment) -> (pair: (Point, Point))
    requires
        a.wf(),
        b.wf(),
        a.cross_with(b) == 0,
        !a.spec_shadows(b.p1@),
        !a.spec_shadows(b.p2@),
        !b.spec_shadows(a.p1@),
        !b.spec_shadows(a.p2@),
    ensures
        pair.0 == a.p1 || pair.0 == a.p2,
        pair.1 == b.p1 || pair.1 == b.p2,
        a.spec_near(pair.1@) == pair.0,
        b.spec_near(pair.0@) == pair.1,
{
    let la: int = a.spec_length_squared();
    let lb: int = b.spec_length_squared();
    let d: int = a.dot_with(b);
    a.lemma_length_positive();
    b.lemma_length_positive();
    a.lemma_own_ends();
    b.lemma_own_ends();
    a.lemma_shadow_is_between(b.p1@);
    a.lemma_shadow_is_between(b.p2@);
    b.lemma_shadow_is_between(a.p1@);
    b.lemma_shadow_is_between(a.p2@);
    lemma_parallel_along(a, b, a.p1@);
    lemma_parallel_along(a, b, a.p2@);
    lemma_parallel_along(a, b, b.p2@);
    let u1: int = a.along(b.p1@);
    let u2: int = a.along(b.p2@);
    let v1: int = b.along(a.p1@);
    let v2: int = b.along(a.p2@);
    assert(la * lb == d * (u2 - u1));
    assert(d * d == d * (u2 - u1));
    assert(d == u2 - u1) by (nonlinear_arith)
        requires
            d * d == d * (u2 - u1),
            d != 0,
    ;
    assert(la * v1 == d * (0 - u1));
    assert(la * v2 == d * (la - u1));
    assert(d * (0 - u1) - d * d == d * (0 - u2)) by (nonlinear_arith)
        requires
            d == u2 - u1,
    ;
    assert(la * (v1 - lb) == la * v1 - la * lb) by (nonlinear_arith);
    assert(la * (v1 - lb) == d * (0 - u2));
    if u1 <= 0 && u2 <= 0 {
        if d > 0 {
            assert(d * (0 - u1) > 0) by (nonlinear_arith)
                requires
                    d > 0,
                    u1 < 0,
            ;
            assert(v1 > 0) by (nonlinear_arith)
                requires
                    la * v1 > 0,
                    la > 0,
            ;
            (a.p1, b.p2)
        } else {
            assert(d * (0 - u1) <= 0) by (nonlinear_arith)
                requires
                    d < 0,
                    u1 <= 0,
            ;
            assert(v1 <= 0) by (nonlinear_arith)
                requires
                    la * v1 <= 0,
                    la > 0,
            ;
            (a.p1, b.p1)
        }
    } else if u1 > 0 && u2 > 0 {
        if d > 0 {
            assert(d * (la - u1) <= 0) by (nonlinear_arith)
                requires
                    d > 0,
                    la - u1 <= 0,
            ;
            assert(v2 <= 0) by (nonlinear_arith)
                requires
                    la * v2 <= 0,
                    la > 0,
            ;
            (a.p2, b.p1)
        } else {
            assert(d * (la - u1) > 0) by (nonlinear_arith)
                requires
                    d < 0,
                    la - u1 < 0,
            ;
            assert(v2 > 0) by (nonlinear_arith)
                requires
                    la * v2 > 0,
                    la > 0,
            ;
            (a.p2, b.p2)
        }
    } else if u1 <= 0 {
        // The other segment reaches across this one from before its first
        // end: the two first ends are level.
        assert(u2 >= la && d > 0);
        assert(d * (0 - u1) >= 0) by (nonlinear_arith)
            requires
                d > 0,
                u1 <= 0,
        ;
        assert(d * (0 - u2) < 0) by (nonlinear_arith)
            requires
                d > 0,
                u2 > 0,
        ;
        assert(v1 >= 0 && v1 < lb) by (nonlinear_arith)
            requires
                la > 0,
                la * v1 >= 0,
                la * (v1 - lb) < 0,
        ;
        assert(v1 == 0);
        assert(u1 == 0) by (nonlinear_arith)
            requires
                la * v1 == d * (0 - u1),
                v1 == 0,
                d > 0,
        ;
        (a.p1, b.p1)
    } else {
        // The other segment reaches across this one from beyond its second
        // end: its second end is level with this one's first.
        assert(u1 >= la && u2 <= 0 && d < 0);
        assert(d * (0 - u1) > 0) by (nonlinear_arith)
            requires
                d < 0,
                u1 > 0,
        ;
        assert(d * (0 - u2) <= 0) by (nonlinear_arith)
            requires
                d < 0,
                u2 <= 0,
        ;
        assert(v1 > 0 && v1 <= lb) by (nonlinear_arith)
            requires
                la > 0,
                la * v1 > 0,
                la * (v1 - lb) <= 0,
        ;
        assert(v1 == lb);
        assert(u2 == 0) by (nonlinear_arith)
            requires
                la * (v1 - lb) == d * (0 - u2),
                v1 == lb,
                d < 0,
        ;
        (a.p1, b.p2)
    }
}

} // verus!
