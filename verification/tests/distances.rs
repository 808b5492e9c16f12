use planar::rat::Rat;
use planar::two::triangle::Triangle;
use planar::Orient;
use planar::three::line::Segment3;
use planar::three::point::Point3;
use planar::two::boundary::{Boundary, Edge};
use planar::two::line::{Line, Ray, Segment};
use planar::two::point::Point;

#[test]
fn point_distance() {
    let a = Point::from_int(0, 0);
    let b = Point::from_int(3, 4);
    assert!(a.dist_sq(b).eq_val(Rat::from_int(25)));
    let half = Point::new(Rat::new(1, 2), Rat::zero());
    assert!(a.dist_sq(half).eq_val(Rat::new(1, 4)));
}

#[test]
fn line_distance() {
    // distance one from (0, 2) to the line y = 1
    let l = Line::from_ints(0, 1, 1);
    assert!(l.dist_sq(Point::from_int(0, 2)).eq_val(Rat::from_int(1)));
    // a point of the line is at distance zero
    assert!(l.dist_sq(Point::from_int(7, 1)).eq_val(Rat::zero()));
}

#[test]
fn segment_distance() {
    let s = Segment::new(Point::from_int(0, 0), Point::from_int(4, 0));

    // the projection lands inside the segment
    assert!(s.dist_sq(Point::from_int(2, 3)).eq_val(Rat::from_int(9)));
    // beyond the far endpoint the nearer endpoint answers
    assert!(s.dist_sq(Point::from_int(6, 0)).eq_val(Rat::from_int(4)));
    // the round-trip bound: never farther than either endpoint
    let p = Point::from_int(2, 3);
    let d = s.dist_sq(p);
    assert!(d.le(p.dist_sq(Point::from_int(0, 0))));
    assert!(d.le(p.dist_sq(Point::from_int(4, 0))));
}

#[test]
fn ray_distance() {
    let r = Ray::new(Point::from_int(0, 0), Point::from_int(1, 0));
    // forward of the origin the carrier line answers
    assert!(r.dist_sq(Point::from_int(5, 2)).eq_val(Rat::from_int(4)));
    // behind the origin the origin answers
    assert!(r.dist_sq(Point::from_int(-3, 4)).eq_val(Rat::from_int(25)));
}

#[test]
fn boundary_distance() {
    let edges = vec![
        Edge::Segment(Segment::new(Point::from_int(0, 0), Point::from_int(1, 0))),
        Edge::Segment(Segment::new(Point::from_int(1, 0), Point::from_int(1, 1))),
        Edge::Segment(Segment::new(Point::from_int(1, 1), Point::from_int(0, 1))),
        Edge::Segment(Segment::new(Point::from_int(0, 1), Point::from_int(0, 0))),
    ];
    let bound = Boundary::new(edges, Rat::zero()).unwrap();
    // two to the right of the square
    assert!(bound
        .dist_sq(Point::from_int(3, 0))
        .unwrap()
        .eq_val(Rat::from_int(4)));
}

#[test]
fn clamp() {
    let a = Point3::new(Rat::zero(), Rat::from_int(1), Rat::zero());
    let b = Point3::new(Rat::from_int(1), Rat::zero(), Rat::zero());

    let x = Point3::origin();
    let y = Point3::new(Rat::new(-1, 2), Rat::from_int(1), Rat::zero());
    let z = Point3::new(Rat::from_int(1), Rat::new(-1, 2), Rat::zero());

    let ab = Segment3::new(a, b).unwrap();

    let mid = a.mid(b);

    assert!(ab.clamp(x).eq_val(mid));
    assert!(ab.clamp(y).eq_val(a));
    assert!(ab.clamp(z).eq_val(b));
}

#[test]
fn shifts() {
    let p = Point::from_int(1, 2);
    let v = Point::from_int(3, -1);
    assert!(p.shift(v).eq_val(Point::from_int(4, 1)));
    assert!(p.shift(v).shift_subtract(v).eq_val(p));

    let s = Segment::new(Point::from_int(0, 0), Point::from_int(1, 0));
    let moved = s.shift(v);
    assert!(moved.p().eq_val(Point::from_int(3, -1)));
    assert!(moved.q().eq_val(Point::from_int(4, -1)));

    // a shifted line still passes through the shifted point
    let l = Line::from_ints(2, 3, 2);
    let on = Point::from_int(1, 0);
    let moved = l.shift(v);
    let target = on.shift(v);
    assert_eq!(
        moved.a * target.x + moved.b * target.y,
        moved.c * target.w
    );
}

#[test]
fn perp_origin() {
    let l = Line::from_ints(2, 3, 5);
    let p = l.perp_origin();
    assert_eq!((p.a, p.b, p.c), (-3, 2, 0));
}

#[test]
fn rational_line_cleared() {
    // rational coefficients are cleared to a proportional integer triple
    let l = Line::new(Rat::new(1, 2), Rat::new(1, 3), Rat::from_int(1));
    // (1/2, 1/3, 1) scaled by 6: (3, 2, 6)
    assert_eq!((l.a, l.b, l.c), (3, 2, 6));
}

#[test]
fn segment_midpoint() {
    let s = Segment::new(Point::from_int(0, 0), Point::from_int(1, 1));
    let m = s.mid();
    assert!(m.eq_val(Point::new(Rat::new(1, 2), Rat::new(1, 2))));
}

#[test]
fn triangle_orientation() {
    let ccw = Triangle(
        Point::from_int(0, 0),
        Point::from_int(1, 0),
        Point::from_int(0, 1),
    );
    assert_eq!(ccw.dir(), Orient::Positive);

    let cw = Triangle(
        Point::from_int(0, 0),
        Point::from_int(0, 1),
        Point::from_int(1, 0),
    );
    assert_eq!(cw.dir(), Orient::Negative);

    let flat = Triangle(
        Point::from_int(0, 0),
        Point::from_int(1, 1),
        Point::from_int(2, 2),
    );
    assert_eq!(flat.dir(), Orient::Zero);

    let (a, _, c) = ccw.into_points();
    assert!(a.eq_val(Point::from_int(0, 0)));
    assert!(c.eq_val(Point::from_int(0, 1)));
}

#[test]
fn barycentric_coordinates() {
    let t = Triangle(
        Point::from_int(0, 0),
        Point::from_int(4, 0),
        Point::from_int(0, 4),
    );
    // the first vertex has coordinates (1, 0, 0)
    let (a, b, c) = t.bary_coor(Point::from_int(0, 0)).unwrap();
    assert!(a.eq_val(Rat::from_int(1)));
    assert!(b.eq_val(Rat::zero()));
    assert!(c.eq_val(Rat::zero()));

    // the centroid has coordinates (1/3, 1/3, 1/3)
    let centroid = Point::new(Rat::new(4, 3), Rat::new(4, 3));
    let (a, b, c) = t.bary_coor(centroid).unwrap();
    assert!(a.eq_val(Rat::new(1, 3)));
    assert!(b.eq_val(Rat::new(1, 3)));
    assert!(c.eq_val(Rat::new(1, 3)));

    assert_eq!(t.in_triangle(Point::from_int(1, 1)), Some(true));
    assert_eq!(t.in_triangle(Point::from_int(3, 3)), Some(false));
    assert_eq!(t.in_triangle(Point::from_int(-1, 0)), Some(false));

    // a degenerate triangle has no barycentric system
    let flat = Triangle(
        Point::from_int(0, 0),
        Point::from_int(1, 1),
        Point::from_int(2, 2),
    );
    assert!(flat.bary_coor(Point::from_int(0, 1)).is_none());
    assert!(flat.in_triangle(Point::from_int(0, 1)).is_none());
}

#[test]
fn perpendicular_bisector() {
    let s = Segment::new(Point::from_int(0, 0), Point::from_int(2, 0));
    let bis = Segment::perp_bisect(s);
    // the bisector of a horizontal segment is the vertical through the
    // midpoint (1, 0): proportional to x = 1
    assert_eq!(bis.a * 1 + bis.b * 0, bis.c);
    assert_eq!(bis.b, 0);
    assert_ne!(bis.a, 0);
}
