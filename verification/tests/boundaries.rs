use planar::rat::Rat;
use planar::two::boundary::{Boundary, Edge, GeomError};
use planar::two::line::{Arc, Segment};
use planar::two::point::Point;

fn unit_square_edges() -> Vec<Edge> {
    vec![
        Edge::Segment(Segment::new(Point::from_int(0, 0), Point::from_int(1, 0))),
        Edge::Segment(Segment::new(Point::from_int(1, 0), Point::from_int(1, 1))),
        Edge::Segment(Segment::new(Point::from_int(1, 1), Point::from_int(0, 1))),
        Edge::Segment(Segment::new(Point::from_int(0, 1), Point::from_int(0, 0))),
    ]
}

#[test]
fn square_bound() {
    let mut bound = Boundary::new(unit_square_edges(), Rat::zero()).unwrap();

    let area = bound.area().unwrap();
    assert!(area.eq_val(Rat::from_int(1)));

    let center = Point::new(Rat::new(1, 2), Rat::new(1, 2));
    assert_eq!(bound.contains(center), Ok(true));
    assert_eq!(bound.contains(Point::from_int(3, 3)), Ok(false));

    bound.reverse();
    let area = bound.area().unwrap();
    assert!(area.eq_val(Rat::from_int(-1)));
    assert_eq!(bound.contains(center), Ok(true));
}

#[test]
fn circle_bound() {
    // a boundary made of one full circular arc of radius two about the
    // origin
    let arc = Arc::new(
        Point::from_int(0, 0),
        Rat::from_int(2),
        Point::from_int(2, 0),
        Point::from_int(2, 0),
        true,
    );
    let mut bound = Boundary::new(vec![Edge::Arc(arc)], Rat::zero()).unwrap();

    let inside = Point::new(Rat::new(1, 10), Rat::new(2, 5));
    assert_eq!(bound.contains(inside), Ok(true));
    assert_eq!(bound.contains(Point::from_int(5, 5)), Ok(false));

    // containment is independent of the boundary's orientation
    bound.reverse();
    assert_eq!(bound.contains(inside), Ok(true));
    assert_eq!(bound.contains(Point::from_int(5, 5)), Ok(false));
}

#[test]
fn invalid_boundary_rejected() {
    // a gap between the two edges: not a chain
    let edges = vec![
        Edge::Segment(Segment::new(Point::from_int(0, 0), Point::from_int(1, 0))),
        Edge::Segment(Segment::new(Point::from_int(3, 3), Point::from_int(0, 0))),
    ];
    assert_eq!(
        Boundary::new(edges, Rat::zero()).unwrap_err(),
        GeomError::InvalidBoundary
    );

    // an open chain: the end never returns to the start
    let edges = vec![
        Edge::Segment(Segment::new(Point::from_int(0, 0), Point::from_int(1, 0))),
        Edge::Segment(Segment::new(Point::from_int(1, 0), Point::from_int(1, 1))),
    ];
    assert_eq!(
        Boundary::new(edges, Rat::zero()).unwrap_err(),
        GeomError::InvalidBoundary
    );

    let empty: Vec<Edge> = Vec::new();
    assert_eq!(
        Boundary::new(empty, Rat::zero()).unwrap_err(),
        GeomError::InvalidBoundary
    );
}

#[test]
fn boundary_tolerance() {
    // endpoints one unit apart chain once the tolerance allows it
    let edges = vec![
        Edge::Segment(Segment::new(Point::from_int(0, 0), Point::from_int(4, 0))),
        Edge::Segment(Segment::new(Point::from_int(4, 1), Point::from_int(0, 0))),
    ];
    assert!(Boundary::new(edges.clone(), Rat::zero()).is_err());
    assert!(Boundary::new(edges, Rat::from_int(1)).is_ok());
}

#[test]
fn bounds_intersect() {
    let square = Boundary::new(unit_square_edges(), Rat::zero()).unwrap();

    let crossing = vec![
        Edge::Segment(Segment::new(Point::from_int(-1, -2), Point::from_int(2, 1))),
        Edge::Segment(Segment::new(Point::from_int(2, 1), Point::from_int(-1, 1))),
        Edge::Segment(Segment::new(Point::from_int(-1, 1), Point::from_int(-1, -2))),
    ];
    let tri = Boundary::new(crossing, Rat::zero()).unwrap();

    let count = square.intersects(&tri).unwrap();
    assert!(!count.is_zero());
}

#[test]
fn bounds_contain() {
    let outer = vec![
        Edge::Segment(Segment::new(Point::from_int(-5, -5), Point::from_int(5, -5))),
        Edge::Segment(Segment::new(Point::from_int(5, -5), Point::from_int(5, 5))),
        Edge::Segment(Segment::new(Point::from_int(5, 5), Point::from_int(-5, 5))),
        Edge::Segment(Segment::new(Point::from_int(-5, 5), Point::from_int(-5, -5))),
    ];
    let outer = Boundary::new(outer, Rat::zero()).unwrap();
    let inner = Boundary::new(unit_square_edges(), Rat::zero()).unwrap();

    assert_eq!(outer.contains_boundary(&inner), Ok(true));
    assert_eq!(inner.contains_boundary(&outer), Ok(false));

    // boundaries that cross may not be asked about containment
    let crossing = vec![
        Edge::Segment(Segment::new(Point::from_int(-1, -2), Point::from_int(2, 1))),
        Edge::Segment(Segment::new(Point::from_int(2, 1), Point::from_int(-1, 1))),
        Edge::Segment(Segment::new(Point::from_int(-1, 1), Point::from_int(-1, -2))),
    ];
    let tri = Boundary::new(crossing, Rat::zero()).unwrap();
    assert_eq!(
        inner.contains_boundary(&tri).unwrap_err(),
        GeomError::UnsupportedContainmentQuery
    );
}

#[test]
fn curved_queries_refused() {
    let arc = Arc::new(
        Point::from_int(0, 0),
        Rat::from_int(2),
        Point::from_int(2, 0),
        Point::from_int(2, 0),
        true,
    );
    let round = Boundary::new(vec![Edge::Arc(arc)], Rat::zero()).unwrap();

    assert!(round.area().is_none());
    let square = Boundary::new(unit_square_edges(), Rat::zero()).unwrap();
    assert_eq!(
        round.intersects(&square).unwrap_err(),
        GeomError::CurvedQuery
    );
    assert_eq!(
        round.dist_sq(Point::from_int(0, 0)).unwrap_err(),
        GeomError::CurvedQuery
    );
}

#[test]
fn orientation() {
    let mut bound = Boundary::new(unit_square_edges(), Rat::zero()).unwrap();
    bound.orient_negative().unwrap();
    assert!(bound.area().unwrap().lt(Rat::zero()));
    bound.orient_positive().unwrap();
    assert!(Rat::zero().lt(bound.area().unwrap()));
    bound.orient_positive().unwrap();
    assert!(Rat::zero().lt(bound.area().unwrap()));
}

#[test]
fn bounding_box_corners() {
    let bound = Boundary::new(unit_square_edges(), Rat::zero()).unwrap();
    let (lo, hi) = bound.bounding_box();
    assert!(lo.eq_val(Point::from_int(0, 0)));
    assert!(hi.eq_val(Point::from_int(1, 1)));
}

#[test]
fn edge_endpoints_and_reverse() {
    let s = Segment::new(Point::from_int(1, 2), Point::from_int(3, 4));
    let e = Edge::Segment(s);
    assert!(e.p().eq_val(Point::from_int(1, 2)));
    assert!(e.q().eq_val(Point::from_int(3, 4)));
    let r = e.reverse();
    assert!(r.p().eq_val(Point::from_int(3, 4)));
    assert!(r.q().eq_val(Point::from_int(1, 2)));

    let arc = Arc::new(
        Point::from_int(0, 0),
        Rat::from_int(5),
        Point::from_int(3, 4),
        Point::from_int(5, 0),
        true,
    );
    let e = Edge::Arc(arc);
    let r = e.reverse();
    assert!(r.p().eq_val(Point::from_int(5, 0)));
    assert!(r.q().eq_val(Point::from_int(3, 4)));
}

#[test]
fn arc_wedge_membership() {
    // the right half of the circle of radius five about the origin,
    // swept counterclockwise from the bottom to the top
    let arc = Arc::new(
        Point::from_int(0, 0),
        Rat::from_int(5),
        Point::from_int(0, -5),
        Point::from_int(0, 5),
        true,
    );
    assert!(arc.bounds_contain(Point::from_int(5, 0)));
    assert!(!arc.bounds_contain(Point::from_int(-5, 0)));
    // the complementary wedge answers the other way round
    let flipped = Arc::new(
        Point::from_int(0, 0),
        Rat::from_int(5),
        Point::from_int(0, -5),
        Point::from_int(0, 5),
        false,
    );
    assert!(!flipped.bounds_contain(Point::from_int(5, 0)));
    assert!(flipped.bounds_contain(Point::from_int(-5, 0)));

    // a full-circle arc is the whole circle whichever way it is wound
    let full = Arc::new(
        Point::from_int(0, 0),
        Rat::from_int(5),
        Point::from_int(5, 0),
        Point::from_int(5, 0),
        false,
    );
    assert!(full.bounds_contain(Point::from_int(-5, 0)));
    assert!(full.bounds_contain(Point::from_int(0, 5)));
    let rev = full.reverse();
    assert!(rev.bounds_contain(Point::from_int(-5, 0)));
}

#[test]
fn shoelace_terms() {
    let s = Segment::new(Point::from_int(0, 0), Point::from_int(2, 0));
    let e = Edge::Segment(s);
    // a segment along the x axis from the origin contributes nothing
    assert!(e.shoelace().unwrap().eq_val(Rat::zero()));

    let s = Segment::new(Point::from_int(2, 0), Point::from_int(2, 2));
    // p x q y - q x p y = 4, halved
    assert!(Edge::Segment(s).shoelace().unwrap().eq_val(Rat::from_int(2)));
}
