use stadium_geometry::error::GeometryError;
use stadium_geometry::exact::{Distance, COORD_MAX};
use stadium_geometry::line::Line;
use stadium_geometry::point::{Point, RationalPoint};
use stadium_geometry::segment::Segment;

fn seg(x1: i64, y1: i64, x2: i64, y2: i64) -> Segment {
    Segment::new(Point::new(x1, y1), Point::new(x2, y2)).unwrap()
}

fn gap(a: Segment, b: Segment) -> Distance {
    let d = a.distance_to_segment(b);
    assert!(d.den > 0);
    d
}

/// The distance as a floating-point number.
fn length(d: Distance) -> f64 {
    (d.num as f64 / d.den as f64).sqrt()
}

/// The least distance between sampled points of the two segments.
fn sampled(a: Segment, b: Segment, steps: usize) -> f64 {
    let mut best = f64::INFINITY;
    for i in 0..=steps {
        let s = i as f64 / steps as f64;
        let px = a.p1.x as f64 + s * (a.p2.x - a.p1.x) as f64;
        let py = a.p1.y as f64 + s * (a.p2.y - a.p1.y) as f64;
        for j in 0..=steps {
            let t = j as f64 / steps as f64;
            let qx = b.p1.x as f64 + t * (b.p2.x - b.p1.x) as f64;
            let qy = b.p1.y as f64 + t * (b.p2.y - b.p1.y) as f64;
            let d = ((px - qx) * (px - qx) + (py - qy) * (py - qy)).sqrt();
            if d < best {
                best = d;
            }
        }
    }
    best
}

#[test]
fn segment_between_coincident_points_is_refused() {
    let p = Point::new(3, 3);
    assert_eq!(Segment::new(p, p), Err(GeometryError::DegenerateInput));
    assert_eq!(Segment::new(p, Point::new(3, 4)), Ok(Segment { p1: p, p2: Point::new(3, 4) }));
}

#[test]
fn segment_range_needs_two_different_ends_in_range() {
    assert!(seg(0, 0, 1, 0).in_range());
    assert!(seg(-COORD_MAX, -COORD_MAX, COORD_MAX, COORD_MAX).in_range());
    assert!(!seg(0, 0, COORD_MAX + 1, 0).in_range());
    assert!(!Segment { p1: Point::new(2, 2), p2: Point::new(2, 2) }.in_range());
}

#[test]
fn segment_length_is_the_distance_between_its_ends() {
    assert_eq!(seg(1, 1, 4, 5).length(), Distance { num: 25, den: 1 });
    assert_eq!(seg(4, 5, 1, 1).length(), Distance { num: 25, den: 1 });
}

#[test]
fn segment_line_passes_through_both_ends() {
    let s = seg(2, 1, 3, 3);
    assert_eq!(s.line(), Line { a: 2, b: -1, c: -3, n: 5 });
    assert_eq!(s.line().evaluate(s.p1), 0);
    assert_eq!(s.line().evaluate(s.p2), 0);
}

#[test]
fn segment_perpendiculars_stand_on_the_ends() {
    let s = seg(2, 1, 3, 3);
    assert_eq!(s.perpendicular_1(), Line { a: 1, b: 2, c: -4, n: 5 });
    assert_eq!(s.perpendicular_2(), Line { a: 1, b: 2, c: -9, n: 5 });
    assert_eq!(s.perpendicular_through(Point::new(0, 0)), Line { a: 1, b: 2, c: 0, n: 5 });
    assert_eq!(s.perpendicular_1().evaluate(s.p1), 0);
    assert_eq!(s.perpendicular_2().evaluate(s.p2), 0);
}

#[test]
fn shadow_holds_points_strictly_between_the_ends() {
    let s = seg(0, 0, 10, 0);
    assert!(s.shadows_point(Point::new(5, 0)));
    assert!(s.shadows_point(Point::new(1, 100)));
    assert!(s.shadows_point(Point::new(9, -100)));
    assert!(!s.shadows_point(Point::new(0, 0)));
    assert!(!s.shadows_point(Point::new(10, 0)));
    assert!(!s.shadows_point(Point::new(0, 7)));
    assert!(!s.shadows_point(Point::new(10, -7)));
    assert!(!s.shadows_point(Point::new(-1, 0)));
    assert!(!s.shadows_point(Point::new(11, 3)));
}

#[test]
fn shadow_does_not_depend_on_the_direction_of_the_segment() {
    for (a, b) in [(seg(0, 0, 10, 0), seg(10, 0, 0, 0)), (seg(5, 5, 5, 1), seg(5, 1, 5, 5))] {
        for x in -2..13 {
            for y in -2..8 {
                let p = Point::new(x, y);
                assert_eq!(a.shadows_point(p), b.shadows_point(p));
            }
        }
    }
}

#[test]
fn shadow_of_a_slanted_segment() {
    let s = seg(0, 0, 4, 4);
    assert!(s.shadows_point(Point::new(2, 2)));
    assert!(s.shadows_point(Point::new(4, 0)));
    assert!(s.shadows_point(Point::new(0, 4)));
    assert!(s.shadows_point(Point::new(7, 0)));
    assert!(!s.shadows_point(Point::new(8, 0)));
    assert!(!s.shadows_point(Point::new(-1, 1)));
    assert!(!s.shadows_point(Point::new(5, 5)));
}

#[test]
fn shadow_of_every_point_between_the_ends_of_a_segment() {
    let s = seg(-3, 2, 9, 7);
    for n in 1..60 {
        // p1 + n/60 * (p2 - p1)
        let p = RationalPoint {
            x: 60 * -3 + n * 12,
            y: 60 * 2 + n * 5,
            w: 60,
        };
        assert_eq!(s.line().evaluate_rational(&p), 0);
        assert!(s.shadows_rational(&p));
    }
    assert!(!s.shadows_rational(&RationalPoint { x: -180, y: 120, w: 60 }));
    assert!(!s.shadows_rational(&RationalPoint { x: 540, y: 420, w: 60 }));
}

#[test]
fn shadow_agrees_on_grid_points_and_rational_points() {
    let s = seg(1, -2, 6, 3);
    for x in -4..10 {
        for y in -6..8 {
            let p = Point::new(x, y);
            assert_eq!(s.shadows_point(p), s.shadows_rational(&p.to_rational()));
            let scaled = RationalPoint { x: 3 * x as i128, y: 3 * y as i128, w: 3 };
            assert_eq!(s.shadows_point(p), s.shadows_rational(&scaled));
        }
    }
}

#[test]
fn near_point_is_the_end_on_the_side_of_the_point() {
    let s = seg(0, 0, 10, 0);
    assert_eq!(s.near_point_along(&RationalPoint { x: -3, y: 0, w: 1 }), s.p1);
    assert_eq!(s.near_point_along(&RationalPoint { x: 0, y: 0, w: 1 }), s.p1);
    assert_eq!(s.near_point_along(&RationalPoint { x: 10, y: 0, w: 1 }), s.p2);
    assert_eq!(s.near_point_along(&RationalPoint { x: 41, y: 0, w: 4 }), s.p2);
    let back = seg(10, 0, 0, 0);
    assert_eq!(back.near_point_along(&RationalPoint { x: -3, y: 0, w: 1 }), back.p2);
    assert_eq!(back.near_point_along(&RationalPoint { x: 41, y: 0, w: 4 }), back.p1);
}

#[test]
fn near_point_along_an_upright_segment() {
    let s = seg(5, 5, 5, 1);
    assert_eq!(s.near_point_along(&RationalPoint { x: 5, y: 0, w: 1 }), s.p2);
    assert_eq!(s.near_point_along(&RationalPoint { x: 5, y: 9, w: 1 }), s.p1);
    assert_eq!(s.near_point_along(&RationalPoint { x: 10, y: 1, w: 2 }), s.p2);
    let up = seg(5, 1, 5, 5);
    assert_eq!(up.near_point_along(&RationalPoint { x: 5, y: 0, w: 1 }), up.p1);
    assert_eq!(up.near_point_along(&RationalPoint { x: 5, y: 9, w: 1 }), up.p2);
}

#[test]
fn distance_to_a_point_in_the_shadow_is_the_distance_to_the_line() {
    let s = seg(0, 0, 10, 0);
    assert_eq!(s.distance_to_point(Point::new(4, 3)), Distance { num: 900, den: 100 });
    assert_eq!(s.distance_to_point(Point::new(4, -3)), Distance { num: 900, den: 100 });
    let t = seg(2, 1, 3, 3);
    // The foot of (1, 3) on the line is (2.6, 2.2); the squared distance is 3.2.
    assert!(t.shadows_point(Point::new(1, 3)));
    assert_eq!(t.distance_to_point(Point::new(1, 3)), Distance { num: 16, den: 5 });
}

#[test]
fn distance_to_a_point_outside_the_shadow_is_the_distance_to_the_nearer_end() {
    let s = seg(0, 0, 10, 0);
    assert_eq!(s.distance_to_point(Point::new(-3, 4)), Distance { num: 25, den: 1 });
    assert_eq!(s.distance_to_point(Point::new(13, -4)), Distance { num: 25, den: 1 });
    assert_eq!(s.distance_to_point(Point::new(0, 6)), Distance { num: 36, den: 1 });
    assert_eq!(s.distance_to_point(Point::new(10, 6)), Distance { num: 36, den: 1 });
    assert_eq!(s.distance_to_point(Point::new(20, 0)), Distance { num: 100, den: 1 });
}

#[test]
fn distance_to_a_point_is_zero_exactly_on_the_segment() {
    let s = seg(0, 0, 6, 3);
    for x in -3..10 {
        for y in -3..7 {
            let on = 2 * y == x && 0 <= x && x <= 6;
            let d = s.distance_to_point(Point::new(x, y));
            assert!(d.den > 0);
            assert_eq!(d.is_zero(), on);
        }
    }
}

#[test]
fn distance_to_a_point_matches_a_sampled_segment() {
    let s = seg(-4, 1, 7, 6);
    for x in -8..12 {
        for y in -5..10 {
            let p = Point::new(x, y);
            let mut best = f64::INFINITY;
            for i in 0..=2000 {
                let t = i as f64 / 2000.0;
                let qx = -4.0 + t * 11.0;
                let qy = 1.0 + t * 5.0;
                let d = ((x as f64 - qx).powi(2) + (y as f64 - qy).powi(2)).sqrt();
                if d < best {
                    best = d;
                }
            }
            let exact = length(s.distance_to_point(p));
            assert!(exact <= best + 1e-9);
            assert!(best - exact < 1e-2);
        }
    }
}

#[test]
fn segments_that_cross_are_at_distance_zero() {
    assert_eq!(gap(seg(0, 0, 10, 0), seg(3, -2, 7, 5)), Distance { num: 0, den: 1 });
    assert_eq!(gap(seg(9, 0, 8, -4), seg(-6, 9, 9, -3)), Distance { num: 0, den: 1 });
    assert_eq!(gap(seg(1, 5, 0, -7), seg(-6, 7, 4, -4)), Distance { num: 0, den: 1 });
}

#[test]
fn segment_that_ends_on_another_is_at_distance_zero() {
    assert!(gap(seg(0, 0, 10, 0), seg(5, 0, 5, 5)).is_zero());
    assert!(gap(seg(5, 0, 5, 5), seg(0, 0, 10, 0)).is_zero());
    assert!(gap(seg(0, 0, 10, 0), seg(10, 0, 14, 3)).is_zero());
    assert!(gap(seg(0, 0, 10, 0), seg(14, 3, 10, 0)).is_zero());
}

#[test]
fn one_shadow_holds_the_crossing_point() {
    // The lines cross inside the first segment, short of the second.
    assert_eq!(gap(seg(0, 0, 10, 0), seg(4, 1, 4, 6)), Distance { num: 100, den: 100 });
    assert_eq!(gap(seg(8, -1, 4, 2), seg(3, -2, -5, -7)), Distance { num: 361, den: 25 });
    assert_eq!(gap(seg(4, -3, -3, -9), seg(-1, -3, 0, 7)), Distance { num: 900, den: 85 });
    // And the other way round.
    assert_eq!(gap(seg(4, 1, 4, 6), seg(0, 0, 10, 0)), Distance { num: 100, den: 100 });
    assert_eq!(gap(seg(1, 1, 2, 6), seg(9, 5, -7, -7)), Distance { num: 1024, den: 400 });
    assert_eq!(gap(seg(-1, 6, -7, -8), seg(0, 9, 5, 0)), Distance { num: 576, den: 106 });
}

#[test]
fn neither_shadow_holds_the_crossing_point() {
    // One segment's shadow holds the other's near end.
    assert_eq!(gap(seg(0, 0, 4, 4), seg(5, 1, 9, 2)), Distance { num: 256, den: 32 });
    assert_eq!(gap(seg(5, 1, 7, 7), seg(-3, -1, 5, 7)), Distance { num: 144, den: 40 });
    assert_eq!(gap(seg(1, -5, 6, 4), seg(-8, -7, 8, 9)), Distance { num: 2304, den: 512 });
    assert_eq!(gap(seg(9, -8, 7, -3), seg(-8, -7, 4, 4)), Distance { num: 13689, den: 265 });
    // Neither does: the two near ends face each other.
    assert_eq!(gap(seg(-7, -2, -7, 8), seg(4, -8, 9, -6)), Distance { num: 157, den: 1 });
    assert_eq!(gap(seg(-8, 8, -5, 0), seg(4, -5, 8, -6)), Distance { num: 106, den: 1 });
    assert_eq!(gap(seg(1, -5, 7, -8), seg(5, 8, 3, 3)), Distance { num: 68, den: 1 });
}

#[test]
fn parallel_segments_side_by_side() {
    assert_eq!(gap(seg(0, 0, 10, 0), seg(-5, 3, 15, 3)), Distance { num: 3600, den: 400 });
    assert_eq!(gap(seg(0, 0, 10, 0), seg(4, 3, 6, 3)), Distance { num: 900, den: 100 });
    assert_eq!(gap(seg(-8, -1, 1, -1), seg(0, -9, -7, -9)), Distance { num: 5184, den: 81 });
    assert_eq!(gap(seg(-3, -7, -8, 4), seg(5, -5, 0, 6)), Distance { num: 9604, den: 146 });
    assert_eq!(gap(seg(5, -7, -5, -3), seg(9, 1, -6, 7)), Distance { num: 20736, den: 261 });
}

#[test]
fn parallel_segments_end_to_end() {
    assert_eq!(gap(seg(0, 0, 10, 0), seg(13, 4, 20, 4)), Distance { num: 25, den: 1 });
    assert_eq!(gap(seg(-7, -4, 0, 2), seg(9, 9, 2, 3)), Distance { num: 5, den: 1 });
    assert_eq!(gap(seg(7, 4, 5, 2), seg(-9, 5, -5, 9)), Distance { num: 149, den: 1 });
    assert_eq!(gap(seg(0, 0, 10, 0), seg(0, 3, 10, 3)), Distance { num: 9, den: 1 });
    assert_eq!(gap(seg(0, 0, 10, 0), seg(10, 3, 0, 3)), Distance { num: 9, den: 1 });
}

#[test]
fn collinear_segments_that_overlap_are_at_distance_zero() {
    assert!(gap(seg(0, 0, 10, 0), seg(5, 0, 15, 0)).is_zero());
    assert!(gap(seg(0, 0, 10, 0), seg(15, 0, 5, 0)).is_zero());
    assert!(gap(seg(0, 0, 10, 0), seg(2, 0, 3, 0)).is_zero());
    assert!(gap(seg(2, 0, 3, 0), seg(0, 0, 10, 0)).is_zero());
    assert!(gap(seg(0, 0, 10, 0), seg(10, 0, 20, 0)).is_zero());
    assert!(gap(seg(0, 0, 10, 0), seg(0, 0, 10, 0)).is_zero());
    assert!(gap(seg(0, 0, 10, 0), seg(10, 0, 0, 0)).is_zero());
    assert!(gap(seg(9, 8, -6, -7), seg(-1, -2, -2, -3)).is_zero());
    assert!(gap(seg(5, 3, 6, 5), seg(7, 7, 3, -1)).is_zero());
    assert!(gap(seg(1, 1, 4, 4), seg(4, 4, 9, 9)).is_zero());
}

#[test]
fn collinear_segments_apart_are_as_far_as_their_nearest_ends() {
    assert_eq!(gap(seg(0, 0, 10, 0), seg(13, 0, 20, 0)), Distance { num: 9, den: 1 });
    assert_eq!(gap(seg(0, 0, 10, 0), seg(-20, 0, -4, 0)), Distance { num: 16, den: 1 });
    assert_eq!(gap(seg(1, 1, 4, 4), seg(6, 6, 9, 9)), Distance { num: 8, den: 1 });
}

#[test]
fn distance_between_segments_is_symmetric() {
    let all = [
        seg(0, 0, 10, 0),
        seg(5, 5, 5, 1),
        seg(20, 0, 20, 5),
        seg(0, 3, 10, 3),
        seg(12, 4, 22, 14),
        seg(-3, 7, 4, -2),
        seg(4, -2, -3, 7),
        seg(1, 1, 2, 2),
        seg(-6, -8, 0, -5),
        seg(-2, -1, 4, 7),
    ];
    for a in all {
        for b in all {
            let d = gap(a, b);
            let e = gap(b, a);
            assert_eq!(d.num * e.den, e.num * d.den);
        }
    }
}

#[test]
fn distance_between_segments_matches_sampled_points() {
    let pairs = [
        (seg(0, 0, 20, 0), seg(10, 10, 10, 3)),
        (seg(0, 0, 10, 0), seg(20, 0, 20, 5)),
        (seg(0, 0, 10, 0), seg(4, 1, 4, 6)),
        (seg(8, -1, 4, 2), seg(3, -2, -5, -7)),
        (seg(1, 1, 2, 6), seg(9, 5, -7, -7)),
        (seg(0, 0, 4, 4), seg(5, 1, 9, 2)),
        (seg(9, -8, 7, -3), seg(-8, -7, 4, 4)),
        (seg(-7, -2, -7, 8), seg(4, -8, 9, -6)),
        (seg(1, -5, 7, -8), seg(5, 8, 3, 3)),
        (seg(0, 0, 4, 3), seg(6, -2, 9, 7)),
        (seg(2, -6, 8, -7), seg(9, -8, -3, 6)),
        (seg(0, 0, 10, 0), seg(0, 3, 10, 3)),
        (seg(0, 0, 10, 0), seg(13, 4, 20, 4)),
        (seg(-3, -7, -8, 4), seg(5, -5, 0, 6)),
        (seg(5, -7, -5, -3), seg(9, 1, -6, 7)),
        (seg(-7, -4, 0, 2), seg(9, 9, 2, 3)),
        (seg(1, 1, 4, 4), seg(6, 6, 9, 9)),
    ];
    for (a, b) in pairs {
        let exact = length(gap(a, b));
        let best = sampled(a, b, 400);
        assert!(exact <= best + 1e-9);
        assert!(best - exact < 5e-2);
    }
}

#[test]
fn end_beside_the_other_segment_is_measured_to_its_line() {
    // The near end of the second segment lies beyond the first segment's
    // end: the distance is taken to the first segment's line all the same.
    let a = seg(0, 0, 10, 0);
    let b = seg(12, 4, 22, 14);
    assert!(!a.shadows_point(b.p1));
    assert_eq!(gap(a, b), Distance { num: 1600, den: 100 });
    assert_eq!(a.distance_to_point(b.p1), Distance { num: 20, den: 1 });
}

#[test]
fn near_ends_are_paired_even_where_a_far_end_is_nearer() {
    let a = seg(0, 0, 10, 0);
    let b = seg(20, 21, 30, 31);
    assert_eq!(gap(a, b), Distance { num: 841, den: 1 });
    assert_eq!(a.p2.distance(b.p1), Distance { num: 541, den: 1 });
}

#[test]
fn distance_between_segments_at_the_edge_of_the_range() {
    let m = COORD_MAX;
    let a = seg(-m, -m, m, m);
    let b = seg(-m, m, m, -m);
    assert!(gap(a, b).is_zero());
    let c = seg(-m, -m, m, -m);
    let d = seg(m, m, -m, m - 1);
    let e = gap(c, d);
    assert!(e.den > 0);
    assert!(!e.is_zero());
    let f = gap(seg(-m, -m, -m + 1, -m), seg(m, m, m, m - 1));
    assert!(!f.is_zero());
    let span = (2 * m) as u128;
    assert!(f.num <= 2 * span * span * f.den);
}

#[test]
fn shadow_lies_between_the_perpendiculars_through_the_ends() {
    let s = seg(1, -2, 6, 3);
    let first = s.perpendicular_1();
    let second = s.perpendicular_2();
    for x in -6..12 {
        for y in -8..10 {
            let p = Point::new(x, y);
            if first.evaluate(p) == 0 || second.evaluate(p) == 0 {
                assert!(!s.shadows_point(p));
            } else {
                assert_eq!(s.shadows_point(p), p.above(first) != p.above(second));
            }
        }
    }
}

#[test]
fn near_point_is_the_nearer_end() {
    let s = seg(-3, 2, 9, 7);
    for n in [-40, -1, 0, 60, 61, 200] {
        // p1 + n/60 * (p2 - p1)
        let p = RationalPoint { x: 60 * -3 + n * 12, y: 60 * 2 + n * 5, w: 60 };
        let near = s.near_point_along(&p);
        let far = if near == s.p1 { s.p2 } else { s.p1 };
        let to = |e: Point| {
            let dx = p.x - p.w * e.x as i128;
            let dy = p.y - p.w * e.y as i128;
            dx * dx + dy * dy
        };
        assert!(to(near) <= to(far));
        assert_eq!(near == s.p1, n <= 0);
    }
}

#[test]
fn near_point_follows_the_order_along_the_x_axis() {
    for s in [seg(-3, 2, 9, 7), seg(9, 7, -3, 2), seg(0, 0, 10, 0), seg(10, 0, 0, 0)] {
        let dx = (s.p2.x - s.p1.x) as i128;
        let dy = (s.p2.y - s.p1.y) as i128;
        for n in [-40, -1, 60, 61, 200] {
            let p = RationalPoint {
                x: 60 * s.p1.x as i128 + n * dx,
                y: 60 * s.p1.y as i128 + n * dy,
                w: 60,
            };
            let by_order = (p.x > p.w * s.p1.x as i128) == (s.p1.x > s.p2.x);
            assert_eq!(s.near_point_along(&p) == s.p1, by_order);
        }
    }
}

#[test]
fn distance_where_the_near_end_lies_beside_the_segment_is_below_every_sample() {
    let a = seg(0, 0, 10, 0);
    let b = seg(12, 4, 22, 14);
    let exact = length(gap(a, b));
    let best = sampled(a, b, 400);
    assert!(exact < best - 0.4);
}

#[test]
fn distance_between_badly_paired_ends_is_above_some_sample() {
    let a = seg(0, 0, 10, 0);
    let b = seg(20, 21, 30, 31);
    let exact = length(gap(a, b));
    let best = sampled(a, b, 400);
    assert!(best < exact - 5.0);
}
