use vstd::prelude::*;

use crate::rat::{Rat, CMP_BOUND};
use crate::two::intersect::{Count, Intersections, PointPred};
use crate::two::line::{Arc, Ray, Segment, ROUND_BOUND};
use crate::two::point::{lemma_mul_bound, lemma_mul_pos, Point};

verus! {

/// The failures a boundary query can report.  Each names a precondition
/// the caller broke or a question this exact kernel cannot decide, so a
/// failed query is never mistaken for an empty result.
#[derive(Clone, Copy, Debug, PartialEq, Eq, Structural)]
pub enum GeomError {
    /// Edges handed to the constructor do not chain or do not close.
    InvalidBoundary,
    /// Boundary containment was asked of boundaries that intersect.
    UnsupportedContainmentQuery,
    /// The query runs through a partial circular arc, whose crossing
    /// points are not exactly representable.
    CurvedQuery,
}

/// One directed piece of a boundary: a circular arc or a straight
/// segment, both exposing endpoints, reversal, and an area contribution.
#[derive(Clone, Copy, Debug)]
pub enum Edge {
    Arc(Arc),
    Segment(Segment),
}

impl Edge {
    pub open spec fn wf(self) -> bool {
        match self {
            Edge::Arc(a) => a.wf(),
            Edge::Segment(s) => s.wf(),
        }
    }

    pub open spec fn within(self, bnd: int) -> bool {
        match self {
            Edge::Arc(a) => a.within(bnd),
            Edge::Segment(s) => s.within(bnd),
        }
    }

    pub open spec fn spec_p(self) -> Point {
        match self {
            Edge::Arc(a) => a.p,
            Edge::Segment(s) => s.p,
        }
    }

    pub open spec fn spec_q(self) -> Point {
        match self {
            Edge::Arc(a) => a.q,
            Edge::Segment(s) => s.q,
        }
    }

    /// The edge walked the other way.
    pub open spec fn spec_reverse(self) -> Edge {
        match self {
            Edge::Arc(a) => Edge::Arc(
                Arc { center: a.center, radius: a.radius, p: a.q, q: a.p, ccw: !a.ccw },
            ),
            Edge::Segment(s) => Edge::Segment(Segment { p: s.q, q: s.p }),
        }
    }

    /// The edge is straight.
    pub open spec fn is_straight(self) -> bool {
        self matches Edge::Segment(_)
    }

    /// The starting endpoint.
    pub fn p(&self) -> (r: Point)
        requires
            self.wf(),
        ensures
            r == self.spec_p(),
    {
        match self {
            Edge::Arc(a) => a.p(),
            Edge::Segment(s) => s.p(),
        }
    }

    /// The finishing endpoint.
    pub fn q(&self) -> (r: Point)
        requires
            self.wf(),
        ensures
            r == self.spec_q(),
    {
        match self {
            Edge::Arc(a) => a.q(),
            Edge::Segment(s) => s.q(),
        }
    }

    pub fn reverse(self) -> (r: Edge)
        requires
            self.wf(),
        ensures
            r == self.spec_reverse(),
            r.wf(),
    {
        match self {
            Edge::Segment(s) => Edge::Segment(s.reverse()),
            Edge::Arc(a) => Edge::Arc(a.reverse()),
        }
    }

    /// Numerator of a straight edge's term in Gauss' area formula,
    /// `(p_x·q_y - q_x·p_y) / 2`, cross-multiplied.
    pub open spec fn spec_shoelace_num(self) -> int {
        self.spec_p().x * self.spec_q().y - self.spec_q().x * self.spec_p().y
    }

    /// Denominator of a straight edge's shoelace term.
    pub open spec fn spec_shoelace_den(self) -> int {
        2 * (self.spec_p().w * self.spec_q().w)
    }

    /// The edge's term in Gauss' area formula.  A straight edge
    /// contributes exactly; a circular arc's contribution is
    /// transcendental and is not representable here, so it yields
    /// nothing and area queries over it fail.
    pub fn shoelace(self) -> (r: Option<Rat>)
        requires
            self.wf(),
            self.within(ROUND_BOUND as int),
        ensures
            match r {
                Option::Some(v) => self.is_straight() && v.n == self.spec_shoelace_num()
                    && v.d == self.spec_shoelace_den() && v.wf() && v.within(CMP_BOUND as int),
                Option::None => !self.is_straight(),
            },
    {
        match self {
            Edge::Arc(_) => Option::None,
            Edge::Segment(s) => {
                proof {
                    let rb = ROUND_BOUND as int;
                    lemma_mul_bound(s.p.x as int, s.q.y as int, rb, rb);
                    lemma_mul_bound(s.q.x as int, s.p.y as int, rb, rb);
                    lemma_mul_bound(s.p.w as int, s.q.w as int, rb, rb);
                    lemma_mul_pos(s.p.w as int, s.q.w as int);
                }
                Option::Some(
                    Rat { n: s.p.x * s.q.y - s.q.x * s.p.y, d: 2 * (s.p.w * s.q.w) },
                )
            },
        }
    }

    /// The edge subdivided into straight pieces of roughly a target
    /// length.  A straight edge is already one such piece, whatever the
    /// target, and comes back unchanged as a one-element chain.
    /// Subdividing an arc samples trigonometric points, which no exact
    /// rational carries, so an arc yields nothing here.
    pub fn into_segments(self, len: Rat) -> (r: Option<Vec<Edge>>)
        requires
            self.wf(),
            len.wf(),
        ensures
            match r {
                Option::Some(v) => self.is_straight() && v@ =~= seq![self],
                Option::None => !self.is_straight(),
            },
    {
        match self {
            Edge::Segment(_) => {
                let mut v: Vec<Edge> = Vec::new();
                v.push(self);
                proof {
                    assert(v@ =~= seq![self]);
                }
                Option::Some(v)
            },
            Edge::Arc(_) => Option::None,
        }
    }

    /// The point lies strictly inside the carrier circle of the arc.
    pub open spec fn spec_inside_circle(a: Arc, x: Point) -> bool {
        x.dist_sq_num(a.center) * (a.radius.d * a.radius.d) < (a.radius.n * a.radius.n) * ((x.w
            * a.center.w) * (x.w * a.center.w))
    }

    /// The crossing-parity query this edge can answer exactly: any
    /// straight edge, and an arc that is a whole circle (its endpoints
    /// coincide).
    pub open spec fn spec_supported(self) -> bool {
        match self {
            Edge::Segment(_) => true,
            Edge::Arc(a) => a.p.eqv(a.q),
        }
    }

    /// Whether a ray crosses this edge an odd number of times.  A
    /// straight edge is crossed where the ray meets the carrier line
    /// inside the segment's box; a full-circle arc is crossed once
    /// exactly when the ray's origin lies strictly inside the circle,
    /// whichever way the arc is wound, so reversing a boundary never
    /// changes what it contains.
    pub open spec fn spec_cross_odd(self, ray: Ray) -> bool {
        match self {
            Edge::Segment(s) => Count::spec_from_len(
                s.spec_inter_line(ray.spec_to_line()).filter(
                    PointPred::ForwardOf(ray).spec_as_fn(),
                ).len() as int,
            ).spec_is_odd(),
            Edge::Arc(a) => Edge::spec_inside_circle(a, ray.init),
        }
    }

    /// Parity of the ray's crossings through the edge, for the exactly
    /// supported edges.
    pub fn ray_cross_odd(&self, ray: &Ray) -> (r: Result<bool, GeomError>)
        requires
            self.wf(),
            self.within(ROUND_BOUND as int),
            ray.wf(),
            ray.within(ROUND_BOUND as int),
        ensures
            match r {
                Result::Ok(b) => self.spec_supported() && b == self.spec_cross_odd(*ray),
                Result::Err(e) => !self.spec_supported() && e == GeomError::CurvedQuery,
            },
    {
        match self {
            Edge::Segment(s) => {
                let pts = ray.intersects_at_segment(s);
                Result::Ok(pts.count().is_odd())
            },
            Edge::Arc(a) => {
                if a.p.eq_val(a.q) {
                    proof {
                        crate::two::point::lemma_dist_sq_bounds(
                            ray.init,
                            a.center,
                            ROUND_BOUND as int,
                        );
                        lemma_mul_bound(
                            a.radius.d as int,
                            a.radius.d as int,
                            ROUND_BOUND as int,
                            ROUND_BOUND as int,
                        );
                        lemma_mul_bound(
                            a.radius.n as int,
                            a.radius.n as int,
                            ROUND_BOUND as int,
                            ROUND_BOUND as int,
                        );
                        lemma_mul_bound(
                            ray.init.dist_sq_num(a.center),
                            a.radius.d * a.radius.d,
                            0x800_0000_0000_0000,
                            0x1000_0000,
                        );
                        lemma_mul_bound(
                            a.radius.n * a.radius.n,
                            (ray.init.w * a.center.w) * (ray.init.w * a.center.w),
                            0x1000_0000,
                            0x100_0000_0000_0000,
                        );
                    }
                    let d2 = ray.init.dist_sq(a.center);
                    let lhs = d2.n * (a.radius.d * a.radius.d);
                    let rhs = (a.radius.n * a.radius.n) * d2.d;
                    Result::Ok(lhs < rhs)
                } else {
                    Result::Err(GeomError::CurvedQuery)
                }
            },
        }
    }

    /// All straight-edge terms of Gauss' area formula summed exactly, as
    /// an unreduced numerator-denominator pair.
    pub open spec fn spec_area(edges: Seq<Edge>) -> (int, int)
        decreases edges.len(),
    {
        if edges.len() == 0 {
            (0, 1)
        } else {
            let (n, d) = Edge::spec_area(edges.drop_last());
            let e = edges.last();
            (n * e.spec_shoelace_den() + e.spec_shoelace_num() * d, d * e.spec_shoelace_den())
        }
    }

    /// Every intermediate value of the exact area accumulation stays
    /// inside an `i128`.
    pub open spec fn spec_area_fits(edges: Seq<Edge>) -> bool
        decreases edges.len(),
    {
        if edges.len() == 0 {
            true
        } else {
            let (n, d) = Edge::spec_area(edges.drop_last());
            let e = edges.last();
            &&& Edge::spec_area_fits(edges.drop_last())
            &&& crate::rat::fits(n * e.spec_shoelace_den())
            &&& crate::rat::fits(e.spec_shoelace_num() * d)
            &&& crate::rat::fits(n * e.spec_shoelace_den() + e.spec_shoelace_num() * d)
            &&& crate::rat::fits(d * e.spec_shoelace_den())
        }
    }

    /// Where two straight edges meet; queries through arcs are refused,
    /// their crossing points being irrational in general.
    pub fn intersects_at(&self, other: &Edge) -> (r: Result<Intersections, GeomError>)
        requires
            self.wf(),
            other.wf(),
            self.within(ROUND_BOUND as int),
            other.within(ROUND_BOUND as int),
        ensures
            match r {
                Result::Ok(v) => {
                    &&& self.is_straight()
                    &&& other.is_straight()
                    &&& v.wf()
                    &&& v@ == (self->Segment_0).spec_inter_pair(other->Segment_0)
                },
                Result::Err(e) => (!self.is_straight() || !other.is_straight()) && e
                    == GeomError::CurvedQuery,
            },
    {
        match (self, other) {
            (Edge::Segment(a), Edge::Segment(b)) => Result::Ok(a.intersects_at(b)),
            _ => Result::Err(GeomError::CurvedQuery),
        }
    }
}

/// A closed planar boundary: a nonempty chain of directed edges, each
/// ending where the next begins, the last closing back onto the first,
/// together with the cached chain of edge start points.
#[derive(Clone, Debug)]
pub struct Boundary {
    pub edges: Vec<Edge>,
    pub points: Vec<Point>,
}

/// Successive edges meet: each edge's end coincides with the next
/// edge's start within the tolerance `eps`.
pub open spec fn spec_chained(edges: Seq<Edge>, eps: Rat) -> bool {
    forall|i: int|
        0 <= i < edges.len() - 1 ==> (#[trigger] edges[i]).spec_q().spec_close_to(
            edges[i + 1].spec_p(),
            eps,
        )
}

/// The chain closes: the last edge's end coincides with the first
/// edge's start within the tolerance `eps`.
pub open spec fn spec_closed(edges: Seq<Edge>, eps: Rat) -> bool {
    edges.len() > 0 ==> edges[edges.len() - 1].spec_q().spec_close_to(edges[0].spec_p(), eps)
}

/// Parity of a ray's crossings through a chain of edges.
pub open spec fn spec_cross_parity(edges: Seq<Edge>, ray: Ray) -> bool
    decreases edges.len(),
{
    if edges.len() == 0 {
        false
    } else {
        spec_cross_parity(edges.drop_last(), ray) != edges.last().spec_cross_odd(ray)
    }
}

/// Every edge of the chain answers crossing queries exactly.
pub open spec fn spec_all_supported(edges: Seq<Edge>) -> bool {
    forall|i: int| 0 <= i < edges.len() ==> (#[trigger] edges[i]).spec_supported()
}

/// Every edge of the chain is straight.
pub open spec fn spec_all_straight(edges: Seq<Edge>) -> bool {
    forall|i: int| 0 <= i < edges.len() ==> (#[trigger] edges[i]).is_straight()
}

/// The fixed, deliberately non-axis-aligned probing direction of the
/// even-odd containment test: rays along it avoid the coincidences that
/// horizontal or vertical rays hit on axis-aligned edges.
pub open spec fn spec_probe_dir() -> Point {
    Point { x: 10000, y: 1337, w: 1 }
}

impl Boundary {
    pub open spec fn wf(self) -> bool {
        &&& self.edges@.len() >= 1
        &&& forall|i: int|
            0 <= i < self.edges@.len() ==> (#[trigger] self.edges@[i]).wf()
                && self.edges@[i].within(ROUND_BOUND as int)
        &&& self.points@.len() == self.edges@.len()
        &&& forall|i: int|
            0 <= i < self.edges@.len() ==> #[trigger] self.points@[i] == self.edges@[i].spec_p()
    }

    /// Builds a boundary after validating the chain: the edges must be
    /// nonempty, consecutive endpoints must coincide within `eps`, and
    /// the last end must return to the first start within `eps`.  A
    /// violation is reported, never silently corrected.
    pub fn new(edges: Vec<Edge>, eps: Rat) -> (r: Result<Boundary, GeomError>)
        requires
            forall|i: int|
                0 <= i < edges@.len() ==> (#[trigger] edges@[i]).wf() && edges@[i].within(
                    ROUND_BOUND as int,
                ),
            eps.wf(),
            eps.within(crate::two::point::COORD_BOUND as int),
        ensures
            match r {
                Result::Ok(b) => {
                    &&& edges@.len() > 0
                    &&& spec_chained(edges@, eps)
                    &&& spec_closed(edges@, eps)
                    &&& b.edges@ == edges@
                    &&& b.wf()
                },
                Result::Err(e) => {
                    &&& e == GeomError::InvalidBoundary
                    &&& !(edges@.len() > 0 && spec_chained(edges@, eps) && spec_closed(
                        edges@,
                        eps,
                    ))
                },
            },
    {
        if edges.len() == 0 {
            return Result::Err(GeomError::InvalidBoundary);
        }
        let n = edges.len();
        let mut i: usize = 0;
        while i < n - 1
            invariant
                n == edges@.len(),
                1 <= n,
                0 <= i < edges@.len(),
                forall|i: int|
                    0 <= i < edges@.len() ==> (#[trigger] edges@[i]).wf() && edges@[i].within(
                        ROUND_BOUND as int,
                    ),
                eps.wf(),
                eps.within(crate::two::point::COORD_BOUND as int),
                forall|j: int|
                    0 <= j < i ==> (#[trigger] edges@[j]).spec_q().spec_close_to(
                        edges@[j + 1].spec_p(),
                        eps,
                    ),
            decreases edges@.len() - i,
        {
            if !edges[i].q().close_to(edges[i + 1].p(), eps) {
                return Result::Err(GeomError::InvalidBoundary);
            }
            i = i + 1;
        }
        let last = n - 1;
        if !edges[last].q().close_to(edges[0].p(), eps) {
            return Result::Err(GeomError::InvalidBoundary);
        }
        let mut points: Vec<Point> = Vec::new();
        let mut k: usize = 0;
        while k < edges.len()
            invariant
                0 <= k <= edges@.len(),
                forall|i: int|
                    0 <= i < edges@.len() ==> (#[trigger] edges@[i]).wf() && edges@[i].within(
                        ROUND_BOUND as int,
                    ),
                points@.len() == k,
                forall|j: int| 0 <= j < k ==> #[trigger] points@[j] == edges@[j].spec_p(),
            decreases edges@.len() - k,
        {
            let p = edges[k].p();
            points.push(p);
            k = k + 1;
        }
        Result::Ok(Boundary { edges, points })
    }

    /// Walks the boundary the other way: edge order reversed and every
    /// edge reversed in place, so the chain stays a valid boundary.
    pub fn reverse(&mut self)
        requires
            old(self).wf(),
        ensures
            final(self).wf(),
            final(self).edges@.len() == old(self).edges@.len(),
            forall|i: int|
                0 <= i < final(self).edges@.len() ==> #[trigger] final(self).edges@[i] == old(
                    self,
                ).edges@[old(self).edges@.len() - 1 - i].spec_reverse(),
    {
        let ghost orig = self.edges@;
        let n = self.edges.len();
        let mut rev: Vec<Edge> = Vec::new();
        let mut i: usize = n;
        while i > 0
            invariant
                0 <= i <= n,
                n == orig.len(),
                self.edges@ == orig,
                forall|k: int|
                    0 <= k < orig.len() ==> (#[trigger] orig[k]).wf() && orig[k].within(
                        ROUND_BOUND as int,
                    ),
                rev@.len() == n - i,
                forall|j: int|
                    0 <= j < n - i ==> #[trigger] rev@[j] == orig[n - 1 - j].spec_reverse(),
            decreases i,
        {
            i = i - 1;
            let e = self.edges[i].reverse();
            rev.push(e);
        }
        let mut points: Vec<Point> = Vec::new();
        let mut k: usize = 0;
        while k < rev.len()
            invariant
                0 <= k <= rev@.len(),
                forall|j: int| 0 <= j < rev@.len() ==> (#[trigger] rev@[j]).wf(),
                points@.len() == k,
                forall|j: int| 0 <= j < k ==> #[trigger] points@[j] == rev@[j].spec_p(),
            decreases rev@.len() - k,
        {
            let p = rev[k].p();
            points.push(p);
            k = k + 1;
        }
        self.edges = rev;
        self.points = points;
    }

    /// The boundary's signed area, exactly, when every edge is straight
    /// and the exact accumulation stays representable.  Positive means
    /// counterclockwise.  An arc's contribution would need the curved
    /// sector term, which no exact rational carries.
    pub fn area(&self) -> (r: Option<Rat>)
        requires
            self.wf(),
        ensures
            match r {
                Option::Some(v) => {
                    &&& spec_all_straight(self.edges@)
                    &&& Edge::spec_area_fits(self.edges@)
                    &&& v.n == Edge::spec_area(self.edges@).0
                    &&& v.d == Edge::spec_area(self.edges@).1
                    &&& v.wf()
                },
                Option::None => !(spec_all_straight(self.edges@) && Edge::spec_area_fits(
                    self.edges@,
                )),
            },
    {
        let mut acc = Rat { n: 0, d: 1 };
        let mut i: usize = 0;
        while i < self.edges.len()
            invariant
                0 <= i <= self.edges@.len(),
                self.wf(),
                spec_all_straight(self.edges@.take(i as int)),
                Edge::spec_area_fits(self.edges@.take(i as int)),
                acc.n == Edge::spec_area(self.edges@.take(i as int)).0,
                acc.d == Edge::spec_area(self.edges@.take(i as int)).1,
                acc.wf(),
            decreases self.edges@.len() - i,
        {
            proof {
                assert(self.edges@.take(i as int + 1).drop_last() =~= self.edges@.take(i as int));
                assert(self.edges@.take(i as int + 1).last() == self.edges@[i as int]);
            }
            let sh = match self.edges[i].shoelace() {
                Option::Some(sh) => sh,
                Option::None => {
                    return Option::None;
                },
            };
            let n1 = match crate::rat::mul_fit(acc.n, sh.d) {
                Option::Some(v) => v,
                Option::None => {
                    proof {
                        lemma_area_fits_prefix(self.edges@, i as int + 1);
                    }
                    return Option::None;
                },
            };
            let n2 = match crate::rat::mul_fit(sh.n, acc.d) {
                Option::Some(v) => v,
                Option::None => {
                    proof {
                        lemma_area_fits_prefix(self.edges@, i as int + 1);
                    }
                    return Option::None;
                },
            };
            let n = match crate::rat::add_fit(n1, n2) {
                Option::Some(v) => v,
                Option::None => {
                    proof {
                        lemma_area_fits_prefix(self.edges@, i as int + 1);
                    }
                    return Option::None;
                },
            };
            let d = match crate::rat::mul_fit(acc.d, sh.d) {
                Option::Some(v) => v,
                Option::None => {
                    proof {
                        lemma_area_fits_prefix(self.edges@, i as int + 1);
                    }
                    return Option::None;
                },
            };
            proof {
                lemma_mul_pos(acc.d as int, sh.d as int);
            }
            acc = Rat { n, d };
            i = i + 1;
        }
        proof {
            assert(self.edges@.take(self.edges@.len() as int) =~= self.edges@);
        }
        Option::Some(acc)
    }

    /// The cached start point of each edge, in order.
    pub fn points(&self) -> (r: Vec<Point>)
        requires
            self.wf(),
        ensures
            r@ == self.points@,
    {
        let mut out: Vec<Point> = Vec::new();
        let mut i: usize = 0;
        while i < self.points.len()
            invariant
                0 <= i <= self.points@.len(),
                out@ == self.points@.take(i as int),
            decreases self.points@.len() - i,
        {
            out.push(self.points[i]);
            proof {
                assert(self.points@.take(i as int + 1) =~= self.points@.take(i as int).push(
                    self.points@[i as int],
                ));
            }
            i = i + 1;
        }
        proof {
            assert(self.points@.take(self.points@.len() as int) =~= self.points@);
        }
        out
    }

    pub fn num_edges(&self) -> (r: usize)
        ensures
            r == self.edges@.len(),
    {
        self.edges.len()
    }

    /// The boundary's edges, in order.
    pub fn edges(&self) -> (r: &Vec<Edge>)
        ensures
            r@ == self.edges@,
    {
        &self.edges
    }

    /// Reorients the boundary counterclockwise: reverses it when its
    /// signed area is negative.  Fails where the area does.
    pub fn orient_positive(&mut self) -> (r: Result<(), GeomError>)
        requires
            old(self).wf(),
        ensures
            final(self).wf(),
            match r {
                Result::Ok(()) => {
                    &&& spec_all_straight(old(self).edges@)
                    &&& if Edge::spec_area(old(self).edges@).0 < 0 {
                        final(self).edges@.len() == old(self).edges@.len() && forall|i: int|
                            0 <= i < final(self).edges@.len() ==> #[trigger] final(self).edges@[i]
                                == old(self).edges@[old(self).edges@.len() - 1 - i].spec_reverse()
                    } else {
                        *final(self) == *old(self)
                    }
                },
                Result::Err(e) => e == GeomError::CurvedQuery && *final(self) == *old(self) && !(
                spec_all_straight(old(self).edges@) && Edge::spec_area_fits(old(self).edges@)),
            },
    {
        let a = match self.area() {
            Option::Some(a) => a,
            Option::None => {
                return Result::Err(GeomError::CurvedQuery);
            },
        };
        if a.n < 0 {
            self.reverse();
        }
        Result::Ok(())
    }

    /// Reorients the boundary clockwise: reverses it when its signed
    /// area is positive.
    pub fn orient_negative(&mut self) -> (r: Result<(), GeomError>)
        requires
            old(self).wf(),
        ensures
            final(self).wf(),
            match r {
                Result::Ok(()) => {
                    &&& spec_all_straight(old(self).edges@)
                    &&& if Edge::spec_area(old(self).edges@).0 > 0 {
                        final(self).edges@.len() == old(self).edges@.len() && forall|i: int|
                            0 <= i < final(self).edges@.len() ==> #[trigger] final(self).edges@[i]
                                == old(self).edges@[old(self).edges@.len() - 1 - i].spec_reverse()
                    } else {
                        *final(self) == *old(self)
                    }
                },
                Result::Err(e) => e == GeomError::CurvedQuery && *final(self) == *old(self) && !(
                spec_all_straight(old(self).edges@) && Edge::spec_area_fits(old(self).edges@)),
            },
    {
        let a = match self.area() {
            Option::Some(a) => a,
            Option::None => {
                return Result::Err(GeomError::CurvedQuery);
            },
        };
        if a.n > 0 {
            self.reverse();
        }
        Result::Ok(())
    }

    /// Even-odd containment: a ray is cast from `x` along the fixed
    /// non-axis-aligned probing direction and its crossings with every
    /// edge are counted; `x` is inside exactly when that count is odd,
    /// whichever way the boundary is oriented.  Exact for straight edges
    /// and full-circle arcs; a partial arc is refused.
    pub fn contains(&self, x: Point) -> (r: Result<bool, GeomError>)
        requires
            self.wf(),
            x.wf(),
            x.within(ROUND_BOUND as int),
        ensures
            match r {
                Result::Ok(b) => spec_all_supported(self.edges@) && b == spec_cross_parity(
                    self.edges@,
                    Ray { init: x, dir: spec_probe_dir() },
                ),
                Result::Err(e) => e == GeomError::CurvedQuery && !spec_all_supported(self.edges@),
            },
    {
        let dir = Point::from_int(10000, 1337);
        let ray = Ray::new(x, dir);
        let mut odd = false;
        let mut i: usize = 0;
        while i < self.edges.len()
            invariant
                0 <= i <= self.edges@.len(),
                self.wf(),
                x.wf(),
                x.within(ROUND_BOUND as int),
                ray == (Ray { init: x, dir: spec_probe_dir() }),
                spec_all_supported(self.edges@.take(i as int)),
                odd == spec_cross_parity(self.edges@.take(i as int), ray),
            decreases self.edges@.len() - i,
        {
            proof {
                assert(self.edges@.take(i as int + 1).drop_last() =~= self.edges@.take(i as int));
                assert(self.edges@.take(i as int + 1).last() == self.edges@[i as int]);
            }
            match self.edges[i].ray_cross_odd(&ray) {
                Result::Ok(b) => {
                    odd = odd != b;
                },
                Result::Err(_) => {
                    return Result::Err(GeomError::CurvedQuery);
                },
            }
            i = i + 1;
        }
        proof {
            assert(self.edges@.take(self.edges@.len() as int) =~= self.edges@);
        }
        Result::Ok(odd)
    }
}

/// The points where one edge meets each edge of a chain, in chain order.
pub open spec fn spec_row_inter(e: Edge, edges2: Seq<Edge>) -> Seq<Point>
    decreases edges2.len(),
{
    if edges2.len() == 0 {
        Seq::empty()
    } else {
        spec_row_inter(e, edges2.drop_last()) + spec_pair_inter(e, edges2.last())
    }
}

/// The points where two straight edges meet; arcs contribute nothing
/// here, their queries being refused earlier.
pub open spec fn spec_pair_inter(a: Edge, b: Edge) -> Seq<Point> {
    match (a, b) {
        (Edge::Segment(s1), Edge::Segment(s2)) => s1.spec_inter_pair(s2),
        _ => Seq::empty(),
    }
}

/// All crossing points of two chains of edges, every pair tried.
pub open spec fn spec_chain_inter(edges1: Seq<Edge>, edges2: Seq<Edge>) -> Seq<Point>
    decreases edges1.len(),
{
    if edges1.len() == 0 {
        Seq::empty()
    } else {
        spec_chain_inter(edges1.drop_last(), edges2) + spec_row_inter(edges1.last(), edges2)
    }
}

impl Boundary {
    /// All points where the two boundaries cross, by trying every edge
    /// pair.  Exact for straight edges; an arc edge is refused.
    pub fn intersects_at(&self, other: &Boundary) -> (r: Result<Intersections, GeomError>)
        requires
            self.wf(),
            other.wf(),
        ensures
            match r {
                Result::Ok(v) => {
                    &&& spec_all_straight(self.edges@)
                    &&& spec_all_straight(other.edges@)
                    &&& v@ == spec_chain_inter(self.edges@, other.edges@)
                    &&& v.wf()
                },
                Result::Err(e) => e == GeomError::CurvedQuery && !(spec_all_straight(self.edges@)
                    && spec_all_straight(other.edges@)),
            },
    {
        let mut acc = Intersections::from_zero();
        proof {
            assert(acc@ =~= spec_chain_inter(self.edges@.take(0), other.edges@));
        }
        let mut i: usize = 0;
        while i < self.edges.len()
            invariant
                0 <= i <= self.edges@.len(),
                self.wf(),
                other.wf(),
                spec_all_straight(self.edges@.take(i as int)),
                i > 0 ==> spec_all_straight(other.edges@),
                acc@ == spec_chain_inter(self.edges@.take(i as int), other.edges@),
                acc.wf(),
            decreases self.edges@.len() - i,
        {
            let mut j: usize = 0;
            let ghost e1 = self.edges@[i as int];
            proof {
                assert(spec_row_inter(e1, other.edges@.take(0)) =~= Seq::<Point>::empty());
            }
            let ghost row_base = acc@;
            while j < other.edges.len()
                invariant
                    0 <= j <= other.edges@.len(),
                    0 <= i < self.edges@.len(),
                    self.wf(),
                    other.wf(),
                    e1 == self.edges@[i as int],
                    j > 0 ==> e1.is_straight(),
                    spec_all_straight(other.edges@.take(j as int)),
                    acc@ == row_base + spec_row_inter(e1, other.edges@.take(j as int)),
                    acc.wf(),
                decreases other.edges@.len() - j,
            {
                proof {
                    assert(other.edges@.take(j as int + 1).drop_last() =~= other.edges@.take(
                        j as int,
                    ));
                    assert(other.edges@.take(j as int + 1).last() == other.edges@[j as int]);
                }
                match self.edges[i].intersects_at(&other.edges[j]) {
                    Result::Ok(v) => {
                        acc = acc.combine(v);
                        proof {
                            assert(acc@ =~= row_base + spec_row_inter(
                                e1,
                                other.edges@.take(j as int + 1),
                            ));
                        }
                    },
                    Result::Err(_) => {
                        return Result::Err(GeomError::CurvedQuery);
                    },
                }
                j = j + 1;
            }
            proof {
                assert(other.edges@.take(other.edges@.len() as int) =~= other.edges@);
                assert(self.edges@.take(i as int + 1).drop_last() =~= self.edges@.take(i as int));
                assert(self.edges@.take(i as int + 1).last() == self.edges@[i as int]);
            }
            i = i + 1;
        }
        proof {
            assert(self.edges@.take(self.edges@.len() as int) =~= self.edges@);
        }
        Result::Ok(acc)
    }

    /// How often the two boundaries cross.
    pub fn intersects(&self, other: &Boundary) -> (r: Result<Count, GeomError>)
        requires
            self.wf(),
            other.wf(),
        ensures
            match r {
                Result::Ok(c) => {
                    &&& spec_all_straight(self.edges@)
                    &&& spec_all_straight(other.edges@)
                    &&& c == Count::spec_from_len(
                        spec_chain_inter(self.edges@, other.edges@).len() as int,
                    )
                },
                Result::Err(e) => e == GeomError::CurvedQuery && !(spec_all_straight(self.edges@)
                    && spec_all_straight(other.edges@)),
            },
    {
        match self.intersects_at(other) {
            Result::Ok(v) => Result::Ok(v.count()),
            Result::Err(e) => Result::Err(e),
        }
    }

    /// Containment of one boundary in another, asked only of provably
    /// disjoint boundaries: if any edge pair crosses, the query is
    /// refused rather than answered.  Of disjoint boundaries it suffices
    /// to test one vertex of the candidate.
    pub fn contains_boundary(&self, other: &Boundary) -> (r: Result<bool, GeomError>)
        requires
            self.wf(),
            other.wf(),
        ensures
            match r {
                Result::Ok(b) => {
                    &&& spec_all_straight(self.edges@)
                    &&& spec_all_straight(other.edges@)
                    &&& spec_chain_inter(self.edges@, other.edges@).len() == 0
                    &&& b == spec_cross_parity(
                        self.edges@,
                        Ray { init: other.points@[0], dir: spec_probe_dir() },
                    )
                },
                Result::Err(e) => {
                    ||| (e == GeomError::UnsupportedContainmentQuery && spec_chain_inter(
                        self.edges@,
                        other.edges@,
                    ).len() != 0)
                    ||| (e == GeomError::CurvedQuery && !(spec_all_straight(self.edges@)
                        && spec_all_straight(other.edges@)))
                },
            },
    {
        let crossings = match self.intersects(other) {
            Result::Ok(c) => c,
            Result::Err(e) => {
                return Result::Err(e);
            },
        };
        if !crossings.is_zero() {
            return Result::Err(GeomError::UnsupportedContainmentQuery);
        }
        proof {
            assert(forall|i: int|
                0 <= i < self.edges@.len() ==> (#[trigger] self.edges@[i]).spec_supported());
            assert(other.points@[0] == other.edges@[0].spec_p());
        }
        match self.contains(other.points[0]) {
            Result::Ok(b) => Result::Ok(b),
            Result::Err(e) => Result::Err(e),
        }
    }

    /// The corners of the smallest axis-aligned box holding every vertex
    /// of the boundary: first the lower-left, then the upper-right.
    /// Each corner coordinate is the exact least or greatest coordinate
    /// among the vertices.
    pub fn bounding_box(&self) -> (r: (Point, Point))
        requires
            self.wf(),
        ensures
            forall|i: int|
                0 <= i < self.points@.len() ==> r.0.spec_x_rat().spec_le(
                    (#[trigger] self.points@[i]).spec_x_rat(),
                ) && r.0.spec_y_rat().spec_le(self.points@[i].spec_y_rat())
                    && self.points@[i].spec_x_rat().spec_le(r.1.spec_x_rat())
                    && self.points@[i].spec_y_rat().spec_le(r.1.spec_y_rat()),
            exists|i: int|
                0 <= i < self.points@.len() && r.0.spec_x_rat().spec_eq(
                    (#[trigger] self.points@[i]).spec_x_rat(),
                ),
            exists|i: int|
                0 <= i < self.points@.len() && r.0.spec_y_rat().spec_eq(
                    (#[trigger] self.points@[i]).spec_y_rat(),
                ),
            exists|i: int|
                0 <= i < self.points@.len() && r.1.spec_x_rat().spec_eq(
                    (#[trigger] self.points@[i]).spec_x_rat(),
                ),
            exists|i: int|
                0 <= i < self.points@.len() && r.1.spec_y_rat().spec_eq(
                    (#[trigger] self.points@[i]).spec_y_rat(),
                ),
            r.0.wf(),
            r.1.wf(),
    {
        proof {
            lemma_points_within(self);
        }
        let mut min_x = self.points[0].x_rat();
        let mut max_x = min_x;
        let mut min_y = self.points[0].y_rat();
        let mut max_y = min_y;
        let mut i: usize = 1;
        while i < self.points.len()
            invariant
                1 <= i <= self.points@.len(),
                self.wf(),
                forall|j: int|
                    0 <= j < self.points@.len() ==> (#[trigger] self.points@[j]).wf()
                        && self.points@[j].within(ROUND_BOUND as int),
                min_x.wf() && min_x.within(ROUND_BOUND as int),
                max_x.wf() && max_x.within(ROUND_BOUND as int),
                min_y.wf() && min_y.within(ROUND_BOUND as int),
                max_y.wf() && max_y.within(ROUND_BOUND as int),
                forall|j: int|
                    0 <= j < i ==> min_x.spec_le((#[trigger] self.points@[j]).spec_x_rat())
                        && min_y.spec_le(self.points@[j].spec_y_rat()) && self.points@[
                        j
                    ].spec_x_rat().spec_le(max_x) && self.points@[j].spec_y_rat().spec_le(max_y),
                exists|j: int| 0 <= j < i && min_x == (#[trigger] self.points@[j]).spec_x_rat(),
                exists|j: int| 0 <= j < i && min_y == (#[trigger] self.points@[j]).spec_y_rat(),
                exists|j: int| 0 <= j < i && max_x == (#[trigger] self.points@[j]).spec_x_rat(),
                exists|j: int| 0 <= j < i && max_y == (#[trigger] self.points@[j]).spec_y_rat(),
            decreases self.points@.len() - i,
        {
            let px = self.points[i].x_rat();
            let py = self.points[i].y_rat();
            if px.lt(min_x) {
                proof {
                    lemma_new_extreme(px, min_x, self.points@, i as int, true);
                }
                min_x = px;
            }
            if max_x.lt(px) {
                proof {
                    lemma_new_extreme(px, max_x, self.points@, i as int, false);
                }
                max_x = px;
            }
            if py.lt(min_y) {
                proof {
                    lemma_new_extreme_y(py, min_y, self.points@, i as int, true);
                }
                min_y = py;
            }
            if max_y.lt(py) {
                proof {
                    lemma_new_extreme_y(py, max_y, self.points@, i as int, false);
                }
                max_y = py;
            }
            i = i + 1;
        }
        let lo = Point::new(min_x, min_y);
        let hi = Point::new(max_x, max_y);
        proof {
            lemma_paired_coords(min_x.n as int, min_x.d as int, min_y.n as int, min_y.d as int);
            lemma_paired_coords(max_x.n as int, max_x.d as int, max_y.n as int, max_y.d as int);
            assert(lo.spec_x_rat().spec_eq(min_x));
            assert(lo.spec_y_rat().spec_eq(min_y));
            assert(hi.spec_x_rat().spec_eq(max_x));
            assert(hi.spec_y_rat().spec_eq(max_y));
            assert forall|j: int|
                0 <= j < self.points@.len() implies lo.spec_x_rat().spec_le(
                (#[trigger] self.points@[j]).spec_x_rat(),
            ) && lo.spec_y_rat().spec_le(self.points@[j].spec_y_rat()) && self.points@[
                j
            ].spec_x_rat().spec_le(hi.spec_x_rat()) && self.points@[j].spec_y_rat().spec_le(
                hi.spec_y_rat(),
            ) by {
                crate::rat::lemma_eq_le_compat(
                    lo.spec_x_rat(),
                    min_x,
                    self.points@[j].spec_x_rat(),
                );
                crate::rat::lemma_eq_le_compat(
                    lo.spec_y_rat(),
                    min_y,
                    self.points@[j].spec_y_rat(),
                );
                crate::rat::lemma_eq_le_compat(
                    hi.spec_x_rat(),
                    max_x,
                    self.points@[j].spec_x_rat(),
                );
                crate::rat::lemma_eq_le_compat(
                    hi.spec_y_rat(),
                    max_y,
                    self.points@[j].spec_y_rat(),
                );
            }
            let ghost jx = choose|j: int|
                0 <= j < self.points@.len() && min_x == (#[trigger] self.points@[j]).spec_x_rat();
            crate::rat::lemma_eq_le_compat(lo.spec_x_rat(), min_x, self.points@[jx].spec_x_rat());
            let ghost jy = choose|j: int|
                0 <= j < self.points@.len() && min_y == (#[trigger] self.points@[j]).spec_y_rat();
            crate::rat::lemma_eq_le_compat(lo.spec_y_rat(), min_y, self.points@[jy].spec_y_rat());
            let ghost kx = choose|j: int|
                0 <= j < self.points@.len() && max_x == (#[trigger] self.points@[j]).spec_x_rat();
            crate::rat::lemma_eq_le_compat(hi.spec_x_rat(), max_x, self.points@[kx].spec_x_rat());
            let ghost ky = choose|j: int|
                0 <= j < self.points@.len() && max_y == (#[trigger] self.points@[j]).spec_y_rat();
            crate::rat::lemma_eq_le_compat(hi.spec_y_rat(), max_y, self.points@[ky].spec_y_rat());
        }
        (lo, hi)
    }
}

/// Every cached vertex of a well-formed boundary is itself well formed
/// and coordinate-bounded.
proof fn lemma_points_within(b: &Boundary)
    requires
        b.wf(),
    ensures
        forall|j: int|
            0 <= j < b.points@.len() ==> (#[trigger] b.points@[j]).wf() && b.points@[j].within(
                ROUND_BOUND as int,
            ),
{
    assert forall|j: int|
        0 <= j < b.points@.len() implies (#[trigger] b.points@[j]).wf() && b.points@[j].within(
        ROUND_BOUND as int,
    ) by {
        assert(b.points@[j] == b.edges@[j].spec_p());
        assert(b.edges@[j].wf() && b.edges@[j].within(ROUND_BOUND as int));
    }
}

/// A strictly smaller (or larger) coordinate extends the running
/// extremum over one more point.
proof fn lemma_new_extreme(px: Rat, cur: Rat, pts: Seq<Point>, i: int, lower: bool)
    requires
        px.wf(),
        cur.wf(),
        0 <= i < pts.len(),
        px == pts[i].spec_x_rat(),
        lower ==> px.spec_lt(cur),
        !lower ==> cur.spec_lt(px),
        forall|j: int| 0 <= j < pts.len() ==> (#[trigger] pts[j]).wf(),
        lower ==> forall|j: int| 0 <= j < i ==> cur.spec_le((#[trigger] pts[j]).spec_x_rat()),
        !lower ==> forall|j: int| 0 <= j < i ==> (#[trigger] pts[j]).spec_x_rat().spec_le(cur),
    ensures
        lower ==> forall|j: int| 0 <= j <= i ==> px.spec_le((#[trigger] pts[j]).spec_x_rat()),
        !lower ==> forall|j: int| 0 <= j <= i ==> (#[trigger] pts[j]).spec_x_rat().spec_le(px),
{
    if lower {
        assert forall|j: int| 0 <= j <= i implies px.spec_le(
            (#[trigger] pts[j]).spec_x_rat(),
        ) by {
            if j < i {
                crate::rat::lemma_le_trans(px, cur, pts[j].spec_x_rat());
            }
        }
    } else {
        assert forall|j: int| 0 <= j <= i implies (#[trigger] pts[j]).spec_x_rat().spec_le(
            px,
        ) by {
            if j < i {
                crate::rat::lemma_le_trans(pts[j].spec_x_rat(), cur, px);
            }
        }
    }
}

/// The y counterpart of the running-extremum step.
proof fn lemma_new_extreme_y(py: Rat, cur: Rat, pts: Seq<Point>, i: int, lower: bool)
    requires
        py.wf(),
        cur.wf(),
        0 <= i < pts.len(),
        py == pts[i].spec_y_rat(),
        lower ==> py.spec_lt(cur),
        !lower ==> cur.spec_lt(py),
        forall|j: int| 0 <= j < pts.len() ==> (#[trigger] pts[j]).wf(),
        lower ==> forall|j: int| 0 <= j < i ==> cur.spec_le((#[trigger] pts[j]).spec_y_rat()),
        !lower ==> forall|j: int| 0 <= j < i ==> (#[trigger] pts[j]).spec_y_rat().spec_le(cur),
    ensures
        lower ==> forall|j: int| 0 <= j <= i ==> py.spec_le((#[trigger] pts[j]).spec_y_rat()),
        !lower ==> forall|j: int| 0 <= j <= i ==> (#[trigger] pts[j]).spec_y_rat().spec_le(py),
{
    if lower {
        assert forall|j: int| 0 <= j <= i implies py.spec_le(
            (#[trigger] pts[j]).spec_y_rat(),
        ) by {
            if j < i {
                crate::rat::lemma_le_trans(py, cur, pts[j].spec_y_rat());
            }
        }
    } else {
        assert forall|j: int| 0 <= j <= i implies (#[trigger] pts[j]).spec_y_rat().spec_le(
            py,
        ) by {
            if j < i {
                crate::rat::lemma_le_trans(pts[j].spec_y_rat(), cur, py);
            }
        }
    }
}

/// Clearing two scalars to a common denominator keeps each coordinate's
/// value: the cross-multiplied identities behind `Point::new`.
proof fn lemma_paired_coords(xn: int, xd: int, yn: int, yd: int)
    ensures
        (xn * yd) * xd == xn * (xd * yd),
        (yn * xd) * yd == yn * (xd * yd),
{
    assert((xn * yd) * xd == xn * (xd * yd)) by (nonlinear_arith);
    assert((yn * xd) * yd == yn * (xd * yd)) by (nonlinear_arith);
}

/// A prefix of a representable accumulation is representable.
proof fn lemma_area_fits_prefix(edges: Seq<Edge>, i: int)
    requires
        0 <= i <= edges.len(),
    ensures
        Edge::spec_area_fits(edges) ==> Edge::spec_area_fits(edges.take(i)),
    decreases edges.len() - i,
{
    if i < edges.len() {
        lemma_area_fits_prefix(edges, i + 1);
        if Edge::spec_area_fits(edges) {
            assert(edges.take(i + 1).drop_last() =~= edges.take(i));
            assert(Edge::spec_area_fits(edges.take(i + 1)));
        }
    } else {
        assert(edges.take(i) =~= edges);
    }
}

} // verus!
