use planar::rat::Rat;
use planar::two::intersect::{Count, Intersections, PointPred};
use planar::two::line::{Circle, Line, Ray, Segment};
use planar::two::point::Point;

#[test]
fn it_works() {
    let result = planar::add(2, 2);
    assert_eq!(result, 4);
}

#[test]
fn line_line_one() {
    let a = Line::from_ints(2, 3, 2);
    let b = Line::from_ints(1, -1, 6);

    assert_eq!(a.intersects(&b), Count::One);
    assert_eq!(a.intersects(&b), a.intersects_at(&b).count());

    let x = a.intersects_at(&b).get_one().unwrap();
    assert!(x.eq_val(Point::from_int(4, -2)));
}

#[test]
fn line_line_zero() {
    let a = Line::from_ints(2, 3, 2);
    let b = Line::from_ints(2, 3, 4);

    assert_eq!(a.intersects(&b), Count::Zero);
    assert_eq!(a.intersects(&b), a.intersects_at(&b).count());
}

#[test]
fn line_line_coincident() {
    let a = Line::from_ints(2, 3, 2);
    let b = Line::from_ints(4, 6, 4);

    assert_eq!(a.intersects(&b), Count::Inf);
}

#[test]
fn line_line_symmetric() {
    let a = Line::from_ints(2, 3, 2);
    let b = Line::from_ints(1, -1, 6);

    let x = a.intersects_at(&b).get_one().unwrap();
    let y = b.intersects_at(&a).get_one().unwrap();
    assert!(x.eq_val(y));
    assert_eq!(a.intersects(&b), b.intersects(&a));
}

#[test]
fn line_segment_one() {
    let a = Line::from_ints(2, 3, 2);
    let b = Segment::new(Point::from_int(3, -3), Point::from_int(5, -1));

    let hits = a.intersects_at_segment(&b);
    assert_eq!(hits.count(), Count::One);

    let x = hits.get_one().unwrap();
    assert!(x.eq_val(Point::from_int(4, -2)));
}

#[test]
fn line_segment_zero() {
    let a = Line::from_ints(2, 3, 8);
    let b = Segment::new(Point::from_int(3, -3), Point::from_int(5, -1));

    let hits = a.intersects_at_segment(&b);
    assert_eq!(hits.count(), Count::Zero);
}

#[test]
fn segment_segment_crossing() {
    let a = Segment::new(Point::from_int(0, 0), Point::from_int(2, 2));
    let b = Segment::new(Point::from_int(0, 2), Point::from_int(2, 0));

    let hits = a.intersects_at(&b);
    assert_eq!(hits.count(), Count::One);
    assert!(hits.get_one().unwrap().eq_val(Point::from_int(1, 1)));
}

#[test]
fn ray_segment_behind() {
    // the segment lies behind the ray's origin, so the forward filter
    // discards the carrier-line crossing
    let r = Ray::new(Point::from_int(0, 0), Point::from_int(1, 1));
    let s = Segment::new(Point::from_int(-2, 0), Point::from_int(0, -2));

    let hits = r.intersects_at_segment(&s);
    assert_eq!(hits.count(), Count::Zero);

    let ahead = Segment::new(Point::from_int(2, 0), Point::from_int(0, 2));
    let hits = r.intersects_at_segment(&ahead);
    assert_eq!(hits.count(), Count::One);
    assert!(hits.get_one().unwrap().eq_val(Point::from_int(1, 1)));
}

#[test]
fn line_circle_two() {
    let a = Line::from_ints(2, 3, 2);
    let b = Circle::new(Point::from_int(1, 2), Rat::from_int(2));

    assert_eq!(b.intersects_line(&a), Count::Many(2));
    assert_eq!(a.intersects_circle(&b), Count::Many(2));
}

#[test]
fn line_circle_zero() {
    let a = Line::from_ints(2, 3, -3);
    let b = Circle::new(Point::from_int(1, 2), Rat::from_int(2));

    assert_eq!(b.intersects_line(&a), Count::Zero);
}

#[test]
fn line_circle_tangent() {
    // the line y = 2 touches the unit circle around (0, 1) in one point
    let a = Line::from_ints(0, 1, 2);
    let b = Circle::new(Point::from_int(0, 1), Rat::from_int(1));

    assert_eq!(b.intersects_line(&a), Count::One);
}

#[test]
fn ray_circle_two() {
    // a ray from (-2, 1) with slope two thirds, through a circle of
    // radius two about (1, 2)
    let a = Ray::new(Point::from_int(-2, 1), Point::from_int(3, 2));
    let b = Circle::new(Point::from_int(1, 2), Rat::from_int(2));

    assert_eq!(a.intersects_circle(&b), Count::Many(2));
    assert_eq!(b.intersects_ray(&a), Count::Many(2));
}

#[test]
fn ray_circle_one() {
    // the same direction from (0, 7/3): one crossing lies behind the
    // origin, so only one counts
    let init = Point::new(Rat::zero(), Rat::new(7, 3));
    let a = Ray::new(init, Point::from_int(3, 2));
    let b = Circle::new(Point::from_int(1, 2), Rat::from_int(2));

    assert_eq!(a.intersects_circle(&b), Count::One);
}

#[test]
fn ray_circle_zero() {
    // from (-2, 4) the carrier line already misses the circle
    let a = Ray::new(Point::from_int(-2, 4), Point::from_int(3, 2));
    let b = Circle::new(Point::from_int(1, 2), Rat::from_int(2));

    assert_eq!(a.intersects_circle(&b), Count::Zero);
}

#[test]
fn ray_circle_tangent_behind() {
    // the horizontal ray from (3, 2) points away from the unit circle
    // around (0, 1), whose tangent line y = 2 it rides along
    let a = Ray::new(Point::from_int(3, 2), Point::from_int(1, 0));
    let b = Circle::new(Point::from_int(0, 1), Rat::from_int(1));
    assert_eq!(a.intersects_circle(&b), Count::Zero);

    // pointed the other way, the tangent point lies ahead
    let back = Ray::new(Point::from_int(3, 2), Point::from_int(-1, 0));
    assert_eq!(back.intersects_circle(&b), Count::One);
}

#[test]
fn circle_circle_zero() {
    let a = Circle::new(Point::from_int(-3, 4), Rat::from_int(2));
    let b = Circle::new(Point::from_int(20, 3), Rat::from_int(4));

    assert_eq!(a.intersects(&b), Count::Zero);
}

#[test]
fn circle_circle_two() {
    let a = Circle::new(Point::from_int(1, -2), Rat::from_int(5));
    let b = Circle::new(Point::from_int(4, 3), Rat::from_int(2));

    assert_eq!(a.intersects(&b), Count::Many(2));
}

#[test]
fn circle_circle_tangent_and_nested() {
    // externally tangent: centers four apart, radii one and three
    let a = Circle::new(Point::from_int(0, 0), Rat::from_int(1));
    let b = Circle::new(Point::from_int(4, 0), Rat::from_int(3));
    assert_eq!(a.intersects(&b), Count::One);

    // one inside the other without touching: no intersection
    let outer = Circle::new(Point::from_int(0, 0), Rat::from_int(5));
    let inner = Circle::new(Point::from_int(1, 0), Rat::from_int(1));
    assert_eq!(outer.intersects(&inner), Count::Zero);

    // coincident circles: a whole family
    let c1 = Circle::new(Point::from_int(2, 2), Rat::from_int(3));
    let c2 = Circle::new(Point::from_int(2, 2), Rat::from_int(3));
    assert_eq!(c1.intersects(&c2), Count::Inf);
}

#[test]
fn segment_circle_counts() {
    let c = Circle::new(Point::from_int(0, 0), Rat::from_int(2));

    // straight through: both crossings inside the segment
    let through = Segment::new(Point::from_int(-3, 0), Point::from_int(3, 0));
    assert_eq!(c.intersects_segment(&through), Count::Many(2));
    assert_eq!(through.intersects_circle(&c), Count::Many(2));

    // one endpoint inside: one crossing
    let half = Segment::new(Point::from_int(-3, 0), Point::from_int(0, 0));
    assert_eq!(c.intersects_segment(&half), Count::One);

    // leaving the disc: only the near crossing lies on the segment
    let leaving = Segment::new(Point::from_int(1, 0), Point::from_int(5, 0));
    assert_eq!(c.intersects_segment(&leaving), Count::One);
    // the carrier line crosses, the segment stops short of the circle
    let apart = Segment::new(Point::from_int(4, 0), Point::from_int(6, 0));
    assert_eq!(c.intersects_segment(&apart), Count::Zero);

    // tangency inside and outside the parameter interval
    let unit = Circle::new(Point::from_int(0, 0), Rat::from_int(1));
    let tangent = Segment::new(Point::from_int(-2, 1), Point::from_int(2, 1));
    assert_eq!(unit.intersects_segment(&tangent), Count::One);
    let tangent_past = Segment::new(Point::from_int(2, 1), Point::from_int(4, 1));
    assert_eq!(unit.intersects_segment(&tangent_past), Count::Zero);

    // a degenerate segment is its single point
    let on = Segment::new(Point::from_int(2, 0), Point::from_int(2, 0));
    assert_eq!(c.intersects_segment(&on), Count::One);
    let off = Segment::new(Point::from_int(1, 0), Point::from_int(1, 0));
    assert_eq!(c.intersects_segment(&off), Count::Zero);
}

#[test]
fn count_parities() {
    assert!(Count::Zero.is_even());
    assert!(!Count::Zero.is_odd());
    assert!(Count::Zero.is_zero());
    assert!(!Count::Zero.is_nonzero());
    assert!(Count::One.is_odd());
    assert!(!Count::One.is_even());
    assert!(Count::One.is_nonzero());
    assert!(Count::Many(2).is_even());
    assert!(Count::Many(3).is_odd());
    assert!(!Count::Inf.is_even());
    assert!(!Count::Inf.is_odd());
    assert!(Count::Inf.is_nonzero());
}

#[test]
fn intersections_plumbing() {
    let a = Point::from_int(1, 1);
    let b = Point::from_int(2, 2);
    let c = Point::from_int(3, 3);

    let two = Intersections::from_two(a, b);
    assert_eq!(two.count(), Count::Many(2));
    assert!(!two.is_zero());
    assert!(two.is_nonzero());

    let many = two.combine(Intersections::from_one(c));
    assert_eq!(many.count(), Count::Many(3));
    let v = many.into_vec();
    assert_eq!(v.len(), 3);
    assert!(v[0].eq_val(a) && v[1].eq_val(b) && v[2].eq_val(c));

    let back = Intersections::from_vec(v);
    assert_eq!(back.count(), Count::Many(3));
    assert!(back.get_one().unwrap().eq_val(a));

    assert!(Intersections::from_zero().is_zero());
    assert!(Intersections::from_zero().get_one().is_none());
}

#[test]
fn filter_by_segment_box() {
    let s = Segment::new(Point::from_int(0, 0), Point::from_int(1, 1));
    let inside = Point::from_int(1, 1);
    let outside = Point::from_int(5, 5);
    let pts = Intersections::from_two(inside, outside);
    let kept = pts.filter(&PointPred::InSegmentBox(s));
    assert_eq!(kept.count(), Count::One);
    assert!(kept.get_one().unwrap().eq_val(inside));
}

#[test]
fn rat_ordering() {
    let third = Rat::new(1, 3);
    let half = Rat::new(1, 2);
    assert!(third.lt(half));
    assert!(third.le(half));
    assert!(!half.le(third));
    assert!(Rat::new(2, 4).eq_val(half));
    assert!(Rat::new(-1, 2).lt(Rat::zero()));
    assert!(half.neg().eq_val(Rat::new(-1, 2)));
    assert!(half.is_nonneg());
    assert!(!half.neg().is_nonneg());
}
