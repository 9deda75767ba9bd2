use stadium_geometry::error::GeometryError;
use stadium_geometry::exact::{Distance, Measure, Ratio, COORD_MAX};
use stadium_geometry::line::Line;
use stadium_geometry::point::{Point, RationalPoint};
use stadium_geometry::vector::{Direction, Vector};

fn through(x1: i64, y1: i64, x2: i64, y2: i64) -> Line {
    Line::from_point_point(Point::new(x1, y1), Point::new(x2, y2)).unwrap()
}

#[test]
fn vector_three_four_has_magnitude_five() {
    let v = Vector { x: 3, y: 4 };
    assert_eq!(v.magnitude_squared(), 25);
    assert_eq!(v.magnitude(), Distance { num: 25, den: 1 });
    assert!(!v.magnitude().shorter_than(5));
    assert!(v.magnitude().shorter_than(6));
}

#[test]
fn vector_scaled_multiplies_both_components() {
    let v = Vector { x: 3, y: -4 };
    assert_eq!(v.scaled(5), Vector { x: 15, y: -20 });
    assert_eq!(v.scaled(-1), Vector { x: -3, y: 4 });
    assert_eq!(v.scaled(0), Vector { x: 0, y: 0 });
}

#[test]
fn vector_slope_is_rise_over_run() {
    assert_eq!(Vector { x: 3, y: 4 }.slope(), Some(Ratio { num: 4, den: 3 }));
    assert_eq!(Vector { x: -3, y: 4 }.slope(), Some(Ratio { num: -4, den: 3 }));
    assert_eq!(Vector { x: 2, y: 0 }.slope(), Some(Ratio { num: 0, den: 2 }));
}

#[test]
fn vector_that_runs_nowhere_has_no_slope() {
    assert_eq!(Vector { x: 0, y: 5 }.slope(), None);
    assert_eq!(Vector { x: 0, y: 0 }.slope(), None);
}

#[test]
fn vector_range_is_twice_the_coordinate_range() {
    assert!(Vector { x: 2 * COORD_MAX, y: -2 * COORD_MAX }.in_range());
    assert!(!Vector { x: 2 * COORD_MAX + 1, y: 0 }.in_range());
    assert!(!Vector { x: 0, y: -2 * COORD_MAX - 1 }.in_range());
}

#[test]
fn point_distance_to_itself_is_zero() {
    let p = Point::new(7, -3);
    assert_eq!(p.distance_squared(p), 0);
    assert!(p.distance(p).is_zero());
}

#[test]
fn point_distance_is_symmetric() {
    let a = Point::new(2, 1);
    let b = Point::new(5, 5);
    assert_eq!(a.distance_squared(b), 25);
    assert_eq!(b.distance_squared(a), 25);
    assert_eq!(a.distance(b), b.distance(a));
    assert_eq!(a.distance(b), Distance { num: 25, den: 1 });
}

#[test]
fn point_distance_across_the_whole_range() {
    let a = Point::new(-COORD_MAX, -COORD_MAX);
    let b = Point::new(COORD_MAX, COORD_MAX);
    let span = (2 * COORD_MAX) as u128;
    assert_eq!(a.distance_squared(b), 2 * span * span);
}

#[test]
fn point_plus_and_minus_undo_each_other() {
    let p = Point::new(4, 9);
    let v = Vector { x: -6, y: 2 };
    assert_eq!(p.plus(v), Point::new(-2, 11));
    assert_eq!(p.minus(v), Point::new(10, 7));
    assert_eq!(p.plus(v).minus(v), p);
}

#[test]
fn point_towards_leads_to_the_other_point() {
    let a = Point::new(2, 1);
    let b = Point::new(3, 3);
    assert_eq!(a.towards(b), Vector { x: 1, y: 2 });
    assert_eq!(b.towards(a), Vector { x: -1, y: -2 });
    assert_eq!(a.plus(a.towards(b)), b);
}

#[test]
fn point_range_ends_at_coord_max() {
    assert!(Point::new(COORD_MAX, -COORD_MAX).in_range());
    assert!(!Point::new(COORD_MAX + 1, 0).in_range());
    assert!(!Point::new(0, -COORD_MAX - 1).in_range());
}

#[test]
fn point_as_rational_point_has_denominator_one() {
    assert_eq!(Point::new(3, -8).to_rational(), RationalPoint { x: 3, y: -8, w: 1 });
}

#[test]
fn point_above_is_strict() {
    // y = 2x - 3
    let l = through(2, 1, 3, 3);
    assert_eq!(Point::new(0, 0).above(l), Some(true));
    assert_eq!(Point::new(3, 0).above(l), Some(false));
    assert_eq!(Point::new(3, 3).above(l), Some(false));
    assert_eq!(Point::new(3, 4).above(l), Some(true));
    // The same line, run through the other way.
    let m = through(3, 3, 2, 1);
    assert_eq!(Point::new(0, 0).above(m), Some(true));
    assert_eq!(Point::new(3, 0).above(m), Some(false));
}

#[test]
fn nothing_is_above_a_vertical_line() {
    let l = through(5, 0, 5, 9);
    assert_eq!(Point::new(0, 0).above(l), None);
    assert_eq!(Point::new(9, 9).above(l), None);
}

#[test]
fn line_through_two_points_is_in_implicit_form() {
    let l = through(2, 1, 3, 3);
    assert_eq!(l, Line { a: 2, b: -1, c: -3, n: 5 });
    assert_eq!(l.evaluate(Point::new(2, 1)), 0);
    assert_eq!(l.evaluate(Point::new(3, 3)), 0);
    assert_eq!(l.evaluate(Point::new(0, 0)), -3);
    assert_eq!(l.slope(), Some(Ratio { num: 2, den: 1 }));
}

#[test]
fn line_through_coincident_points_is_refused() {
    let p = Point::new(4, 4);
    assert_eq!(Line::from_point_point(p, p), Err(GeometryError::DegenerateInput));
}

#[test]
fn line_from_point_and_slope() {
    let l = Line::from_point_slope(Point::new(1, 1), Ratio { num: -1, den: 2 });
    assert_eq!(l, Line { a: -1, b: -2, c: 3, n: 5 });
    assert_eq!(l.evaluate(Point::new(1, 1)), 0);
    assert_eq!(l.evaluate(Point::new(3, 0)), 0);
    assert_eq!(l.slope(), Some(Ratio { num: -1, den: 2 }));
}

#[test]
fn vertical_line_has_no_slope_and_no_y() {
    let l = through(5, 0, 5, 9);
    assert_eq!(l.slope(), None);
    assert_eq!(l.y(5), None);
    assert_eq!(l.y(0), None);
    assert_eq!(l.x(3), Some(Ratio { num: 45, den: 9 }));
}

#[test]
fn horizontal_line_has_slope_zero_and_no_x() {
    let l = through(0, 4, 8, 4);
    assert_eq!(l.slope(), Some(Ratio { num: 0, den: 8 }));
    assert_eq!(l.x(4), None);
    assert_eq!(l.y(100), Some(Ratio { num: 32, den: 8 }));
}

#[test]
fn line_coordinates_are_read_off_exactly() {
    // y = 2x - 3
    let l = through(2, 1, 3, 3);
    assert_eq!(l.y(5), Some(Ratio { num: 7, den: 1 }));
    assert_eq!(l.x(7), Some(Ratio { num: 10, den: 2 }));
    assert_eq!(l.x(0), Some(Ratio { num: 3, den: 2 }));
    assert_eq!(l.y(-1), Some(Ratio { num: -5, den: 1 }));
}

#[test]
fn lines_cross_where_cramer_says() {
    let l1 = through(2, 1, 3, 3);
    let l2 = Line::from_point_slope(Point::new(1, 1), Ratio { num: -1, den: 2 });
    // (1.8, 0.6)
    assert_eq!(l1.intersection(l2), Ok(RationalPoint { x: 9, y: 3, w: 5 }));
    assert_eq!(l2.intersection(l1), Ok(RationalPoint { x: 9, y: 3, w: 5 }));
    let x = l1.intersection(l2).unwrap();
    assert_eq!(l1.evaluate_rational(&x), 0);
    assert_eq!(l2.evaluate_rational(&x), 0);
}

#[test]
fn parallel_lines_cross_nowhere() {
    let l1 = through(0, 0, 10, 0);
    let l2 = through(0, 3, 10, 3);
    assert_eq!(
        l1.intersection(l2),
        Err(GeometryError::UndefinedIntersection { first: l1, second: l2 })
    );
    assert_eq!(
        l2.intersection(l1),
        Err(GeometryError::UndefinedIntersection { first: l2, second: l1 })
    );
}

#[test]
fn a_line_does_not_cross_itself() {
    let l = through(1, 1, 4, 5);
    let same = through(4, 5, 7, 9);
    assert_eq!(l.intersection(l), Err(GeometryError::UndefinedIntersection { first: l, second: l }));
    assert!(matches!(l.intersection(same), Err(GeometryError::UndefinedIntersection { .. })));
}

#[test]
fn perpendicular_passes_through_the_point_at_a_right_angle() {
    let l = through(2, 1, 3, 3);
    let p = Point::new(1, 1);
    let m = l.perpendicular_through(p);
    assert_eq!(m, Line { a: 1, b: 2, c: -3, n: 5 });
    assert_eq!(m.evaluate(p), 0);
    assert_eq!(l.a * m.a + l.b * m.b, 0);
    assert_eq!(m.slope(), Some(Ratio { num: -1, den: 2 }));
}

#[test]
fn perpendicular_of_an_axis_parallel_line() {
    let level = through(0, 0, 10, 0);
    let upright = level.perpendicular_through(Point::new(4, 7));
    assert_eq!(upright.slope(), None);
    assert_eq!(upright.evaluate(Point::new(4, -100)), 0);
    let back = upright.perpendicular_through(Point::new(4, 7));
    assert_eq!(back.slope().map(|s| s.num), Some(0));
    assert_eq!(back.evaluate(Point::new(55, 7)), 0);
}

#[test]
fn perpendicular_through_own_point_recovers_the_point() {
    let p1 = Point::new(2, 1);
    let p2 = Point::new(3, 3);
    let l = Line::from_point_point(p1, p2).unwrap();
    let x = l.intersection(l.perpendicular_through(p1)).unwrap();
    assert_eq!(x, RationalPoint { x: 10, y: 5, w: 5 });
    assert_eq!(x.x, x.w * p1.x as i128);
    assert_eq!(x.y, x.w * p1.y as i128);
}

#[test]
fn line_distance_to_point_is_the_distance_to_the_foot() {
    let l = through(2, 1, 3, 3);
    let p = Point::new(1, 1);
    let d = l.distance_to_point(p);
    assert_eq!(d, Distance { num: 4, den: 5 });
    let foot = l.intersection(l.perpendicular_through(p)).unwrap();
    // (9/5, 3/5)
    assert_eq!(foot, RationalPoint { x: 9, y: 3, w: 5 });
    let dx = foot.x - foot.w * p.x as i128;
    let dy = foot.y - foot.w * p.y as i128;
    assert_eq!((dx * dx + dy * dy) as u128 * d.den, d.num * (foot.w * foot.w) as u128);
}

#[test]
fn line_distance_to_its_own_point_is_zero() {
    let l = through(2, 1, 3, 3);
    assert!(l.distance_to_point(Point::new(4, 5)).is_zero());
    assert!(!l.distance_to_point(Point::new(4, 6)).is_zero());
}

#[test]
fn line_range_needs_a_normal() {
    assert!(Line { a: 0, b: 1, c: 0, n: 1 }.in_range());
    assert!(Line { a: 3, b: -4, c: 7, n: 25 }.in_range());
    assert!(!Line { a: 3, b: -4, c: 7, n: 24 }.in_range());
    assert!(!Line { a: 3, b: -4, c: 7, n: 1 }.in_range());
    assert!(!Line { a: 0, b: 0, c: 5, n: 0 }.in_range());
    assert!(!Line { a: 2 * COORD_MAX + 1, b: 1, c: 0, n: 1 }.in_range());
    assert!(through(-COORD_MAX, -COORD_MAX, COORD_MAX, COORD_MAX).in_range());
    assert!(through(-COORD_MAX, COORD_MAX, COORD_MAX, -COORD_MAX).in_range());
}

#[test]
fn ratio_carries_its_sign_in_the_numerator() {
    assert_eq!(Ratio::of(3, -4), Ratio { num: -3, den: 4 });
    assert_eq!(Ratio::of(-3, -4), Ratio { num: 3, den: 4 });
    assert_eq!(Ratio::of(3, 4), Ratio { num: 3, den: 4 });
}

#[test]
fn distance_compares_with_a_length_by_squares() {
    let three = Distance { num: 3600, den: 400 };
    assert!(!three.shorter_than(0));
    assert!(!three.shorter_than(3));
    assert!(three.shorter_than(4));
    assert!(!Distance::zero().shorter_than(0));
    assert!(Distance::zero().shorter_than(1));
    assert!(Distance::zero().is_zero());
    assert_eq!(Distance::from_square(49), Distance { num: 49, den: 1 });
}

#[test]
fn distance_comparison_survives_a_bound_too_large_to_hold() {
    let one = Distance { num: u128::MAX, den: u128::MAX };
    assert!(one.shorter_than(u64::MAX));
    assert!(one.shorter_than(2));
    assert!(!one.shorter_than(1));
}

#[test]
fn rational_point_range() {
    assert!(RationalPoint { x: 9, y: 3, w: 5 }.in_range());
    assert!(!RationalPoint { x: 9, y: 3, w: 0 }.in_range());
    assert!(!RationalPoint { x: 9, y: 3, w: -5 }.in_range());
}

#[test]
fn ratio_inverse_is_minus_one_over_the_ratio() {
    assert_eq!(Ratio { num: 2, den: 1 }.inverse(), Some(Ratio { num: -1, den: 2 }));
    assert_eq!(Ratio { num: -1, den: 2 }.inverse(), Some(Ratio { num: 2, den: 1 }));
    assert_eq!(Ratio { num: 3, den: 4 }.inverse(), Some(Ratio { num: -4, den: 3 }));
    assert_eq!(Ratio { num: 0, den: 7 }.inverse(), None);
}

#[test]
fn perpendicular_has_the_inverse_slope() {
    let l = through(2, 1, 3, 3);
    let m = l.perpendicular_through(Point::new(1, 1));
    let across = l.slope().unwrap().inverse().unwrap();
    let got = m.slope().unwrap();
    assert_eq!(got.num * across.den, across.num * got.den);
    let again = Line::from_point_slope(Point::new(1, 1), across);
    assert_eq!(again.evaluate(Point::new(1, 1)), 0);
    assert_eq!(again.slope(), Some(across));
    assert!(matches!(m.intersection(again), Err(GeometryError::UndefinedIntersection { .. })));
}

#[test]
fn line_read_off_gives_points_of_the_line() {
    let l = through(-3, 7, 4, -2);
    for x in -5..6 {
        let y = l.y(x).unwrap();
        let p = RationalPoint { x: x as i128 * y.den, y: y.num, w: y.den };
        assert_eq!(l.evaluate_rational(&p), 0);
    }
    for y in -5..6 {
        let x = l.x(y).unwrap();
        let p = RationalPoint { x: x.num, y: y as i128 * x.den, w: x.den };
        assert_eq!(l.evaluate_rational(&p), 0);
    }
}

#[test]
fn line_through_two_points_has_a_unit_normal() {
    let l = through(1, 2, 5, 2);
    assert_eq!(l.n, 16);
    assert!(l.unit_a().is_whole(0));
    assert!(l.unit_b().is_whole(-1));
    assert!(l.unit_c().is_whole(2));
    assert!(!l.unit_b().is_whole(1));
    assert!(!l.unit_b().is_whole(-4));
    assert!(!l.unit_c().is_whole(8));
}

#[test]
fn unit_normal_is_the_direction_turned_by_a_quarter() {
    let p1 = Point::new(-3, 7);
    let p2 = Point::new(4, -2);
    let l = Line::from_point_point(p1, p2).unwrap();
    let d = p1.towards(p2).normalized().unwrap();
    assert_eq!(l.n as u128, p1.distance_squared(p2));
    assert_eq!(l.n, d.norm_squared);
    assert_eq!(l.unit_a(), d.unit_y());
    assert_eq!(l.unit_b().sign, -d.unit_x().sign);
    assert_eq!(l.unit_b().size, d.unit_x().size);
    assert_eq!(l.c, -(l.a * p1.x + l.b * p1.y));
    assert_eq!(l.normal(), Direction { x: l.a, y: l.b, norm_squared: l.n });
}

#[test]
fn unit_normal_has_length_one() {
    for l in [
        through(1, 2, 5, 2),
        through(2, 1, 3, 3),
        through(-3, 7, 4, -2),
        through(0, 0, 0, 9),
        Line::from_point_slope(Point::new(1, 1), Ratio { num: -1, den: 2 }),
        through(2, 1, 3, 3).perpendicular_through(Point::new(8, 8)),
    ] {
        let (a, b) = (l.unit_a(), l.unit_b());
        assert!(a.size.den > 0);
        assert_eq!(a.size.den, b.size.den);
        assert_eq!(a.size.num + b.size.num, a.size.den);
    }
}

#[test]
fn line_value_at_a_point_is_the_signed_distance() {
    let l = through(0, 0, 10, 0);
    assert!(l.signed_distance(Point::new(5, 3)).is_whole(-3));
    assert!(l.signed_distance(Point::new(5, -3)).is_whole(3));
    assert!(l.signed_distance(Point::new(5, 0)).is_whole(0));
    assert_eq!(l.evaluate(Point::new(5, 3)), -30);
    assert_eq!(l.signed_distance(Point::new(5, 3)).size, l.distance_to_point(Point::new(5, 3)));
    // In half units, the point (5, 1.5) beside the line through (0, 0) and
    // (10, 0) is at the distance three halves.
    let half = through(0, 0, 20, 0);
    assert!(half.signed_distance(Point::new(10, 3)).is_whole(-3));
}

#[test]
fn signed_distance_tells_the_side() {
    let l = through(2, 1, 3, 3);
    let left = l.signed_distance(Point::new(0, 0));
    let right = l.signed_distance(Point::new(4, 0));
    assert_eq!(left, Measure { sign: -1, size: Distance { num: 9, den: 5 } });
    assert_eq!(right, Measure { sign: 1, size: Distance { num: 25, den: 5 } });
    assert_eq!(l.signed_distance(Point::new(4, 5)).sign, 0);
}

#[test]
fn parallel_lines_differ_by_their_distance_in_the_constant_term() {
    let la = through(0, 0, 10, 0);
    let lb = through(0, 3, 10, 3);
    assert_eq!(la.unit_a(), lb.unit_a());
    assert_eq!(la.unit_b(), lb.unit_b());
    assert!(la.unit_c().is_whole(0));
    assert!(lb.unit_c().is_whole(3));
    assert!(la.signed_distance(Point::new(7, 3)).is_whole(-3));
    assert_eq!(Measure::of((la.c - lb.c) as i128, la.n), la.signed_distance(Point::new(7, 3)));
}

#[test]
fn vector_normalized_keeps_the_direction_at_length_one() {
    let d = Vector { x: 3, y: 4 }.normalized().unwrap();
    assert_eq!(d, Direction { x: 3, y: 4, norm_squared: 25 });
    assert_eq!(d.unit_x(), Measure { sign: 1, size: Distance { num: 9, den: 25 } });
    assert_eq!(d.unit_y(), Measure { sign: 1, size: Distance { num: 16, den: 25 } });
    assert_eq!(d.unit_x().size.num + d.unit_y().size.num, d.unit_x().size.den);
    let e = Vector { x: -5, y: 0 }.normalized().unwrap();
    assert!(e.unit_x().is_whole(-1));
    assert!(e.unit_y().is_whole(0));
    assert!(d.in_range());
}

#[test]
fn zero_vector_has_no_direction() {
    assert_eq!(Vector { x: 0, y: 0 }.normalized(), Err(GeometryError::DegenerateInput));
    assert!(Vector { x: 0, y: 1 }.normalized().is_ok());
}

#[test]
fn direction_range_needs_its_own_norm() {
    assert!(Direction { x: 3, y: 4, norm_squared: 25 }.in_range());
    assert!(!Direction { x: 3, y: 4, norm_squared: 5 }.in_range());
    assert!(!Direction { x: 0, y: 0, norm_squared: 0 }.in_range());
    assert!(!Direction { x: 2 * COORD_MAX + 1, y: 0, norm_squared: 1 }.in_range());
}

#[test]
fn measure_reads_whole_numbers() {
    assert!(Measure::of(-30, 100).is_whole(-3));
    assert!(!Measure::of(-30, 100).is_whole(3));
    assert!(!Measure::of(-30, 100).is_whole(-30));
    assert!(Measure::of(0, 7).is_whole(0));
    assert!(!Measure::of(1, 2).is_whole(1));
    assert!(!Measure::of(1, 2).is_whole(0));
}
