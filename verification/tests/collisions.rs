use stadium_geometry::capsule::Capsule;
use stadium_geometry::exact::Distance;
use stadium_geometry::point::Point;
use stadium_geometry::segment::Segment;

fn capsule(x1: i64, y1: i64, x2: i64, y2: i64, r: i64) -> Capsule {
    Capsule::new(Point::new(x1, y1), Point::new(x2, y2), r).unwrap()
}

fn segment(x1: i64, y1: i64, x2: i64, y2: i64) -> Segment {
    Segment::new(Point::new(x1, y1), Point::new(x2, y2)).unwrap()
}

/// The square of the distance is `expected`, as a rational number.
fn assert_square(d: Distance, expected: u128) {
    assert!(d.den > 0);
    assert_eq!(d.num, expected * d.den);
}

// The grid unit is half a length unit here, so that 1.5 is the grid length 3.

#[test]
fn far_end_projects_onto_segment_and_collides() {
    let a = capsule(0, 0, 20, 0, 2);
    let b = capsule(10, 10, 10, 3, 2);
    let d = a.segment().distance_to_segment(b.segment());
    assert_eq!(d, Distance { num: 3600, den: 400 });
    assert_square(d, 9);
    assert!(a.collides(b));
    assert!(b.collides(a));
}

#[test]
fn far_end_beyond_reach_does_not_collide() {
    let a = capsule(0, 0, 20, 0, 2);
    let b = capsule(10, 10, 10, 6, 2);
    let d = a.segment().distance_to_segment(b.segment());
    assert_square(d, 36);
    assert!(!a.collides(b));
    assert!(!b.collides(a));
}

#[test]
fn nearest_approach_between_two_ends() {
    let a = segment(0, 0, 10, 0);
    let b = segment(20, 0, 20, 5);
    let d = a.distance_to_segment(b);
    assert_eq!(d, Distance { num: 100, den: 1 });
    assert_square(b.distance_to_segment(a), 100);
}

#[test]
fn parallel_offset_segments() {
    let a = segment(0, 0, 10, 0);
    let b = segment(0, 3, 10, 3);
    assert_square(a.distance_to_segment(b), 9);
    assert_square(b.distance_to_segment(a), 9);
}
