//! Colliding capsules share a point.

use vstd::prelude::*;
use crate::capsule::Capsule;
use crate::exact::Fraction;
use crate::nearest::{law_distance_is_lower_bound, law_distance_is_reached};
use crate::point::HPoint;
use crate::symmetry::{law_segment_distance_defined, lemma_same_is_as_short};

verus! {

/// A fraction no larger than one below a bound is below the bound.
pub proof fn lemma_at_most_is_as_short(f: Fraction, g: Fraction, reach: int)
    requires
        f.den > 0,
        g.den > 0,
        f.at_most(g),
        g.shorter_than(reach),
    ensures
        f.shorter_than(reach),
{
    let k: int = reach * reach;
    assert(g.num * f.den < (k * g.den) * f.den) by (nonlinear_arith)
        requires
            g.num < k * g.den,
            f.den > 0,
    ;
    assert((k * g.den) * f.den == (k * f.den) * g.den) by (nonlinear_arith);
    assert(f.num < k * f.den) by (nonlinear_arith)
        requires
            f.num * g.den < (k * f.den) * g.den,
            g.den > 0,
    ;
}

/// Where the case split selects nearest points, two capsules that collide
/// have a point of the one's middle segment and a point of the other's
/// nearer to each other than the sum of the radii.
pub proof fn law_collision_has_near_points(a: Capsule, b: Capsule) -> (pair: (HPoint, HPoint))
    requires
        a.wf(),
        b.wf(),
        a.segment.spec_selects_nearest(b.segment),
        a.spec_collides(b),
    ensures
        pair.0.w > 0,
        pair.1.w > 0,
        a.segment.contains(pair.0),
        b.segment.contains(pair.1),
        pair.0.gap_squared(pair.1).shorter_than(a.r + b.r),
{
    let pair: (HPoint, HPoint) = law_distance_is_reached(a.segment, b.segment);
    law_segment_distance_defined(a.segment, b.segment);
    let w: int = pair.0.w * pair.1.w;
    assert(w * w > 0) by (nonlinear_arith)
        requires
            w == pair.0.w * pair.1.w,
            pair.0.w > 0,
            pair.1.w > 0,
    ;
    lemma_same_is_as_short(
        a.segment.spec_distance_to_segment(b.segment),
        pair.0.gap_squared(pair.1),
        a.r + b.r,
    );
    pair
}

/// Where the case split selects nearest points, two capsules collide as soon
/// as a point of the one's middle segment and a point of the other's are
/// nearer to each other than the sum of the radii.
pub proof fn law_near_points_collide(a: Capsule, b: Capsule, g: HPoint, h: HPoint)
    requires
        a.wf(),
        b.wf(),
        a.segment.spec_selects_nearest(b.segment),
        g.w > 0,
        h.w > 0,
        a.segment.contains(g),
        b.segment.contains(h),
        g.gap_squared(h).shorter_than(a.r + b.r),
    ensures
        a.spec_collides(b),
{
    law_distance_is_lower_bound(a.segment, b.segment, g, h);
    law_segment_distance_defined(a.segment, b.segment);
    let w: int = g.w * h.w;
    assert(w * w > 0) by (nonlinear_arith)
        requires
            w == g.w * h.w,
            g.w > 0,
            h.w > 0,
    ;
    lemma_at_most_is_as_short(
        a.segment.spec_distance_to_segment(b.segment),
        g.gap_squared(h),
        a.r + b.r,
    );
}

} // verus!
