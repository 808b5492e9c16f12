use vstd::prelude::*;

use crate::rat::Rat;
use crate::two::boundary::{Boundary, Edge, GeomError};
use crate::two::intersect::{Count, ROUND_LINE_BOUND};
use crate::two::line::{Circle, Line, Ray, Segment, ROUND_BOUND};
use crate::two::point::{lemma_mul_bound, lemma_mul_pos, Point};

verus! {

/// Coordinate bound under which squared distances stay small enough to
/// compare exactly against one another.
pub const DIST_BOUND: i128 = 0x200;

impl Point {
    /// The squared distance to `o`, as a scalar value.
    pub open spec fn spec_dist_sq_rat(self, o: Point) -> Rat {
        Rat {
            n: self.dist_sq_num(o) as i128,
            d: ((self.w * o.w) * (self.w * o.w)) as i128,
        }
    }
}

impl Line {
    /// Numerator of the signed residue of `p` in the line equation.
    pub open spec fn spec_residue(self, p: Point) -> int {
        self.a * p.x + self.b * p.y - self.c * p.w
    }

    /// The squared distance from `p` to the line, as a value: the
    /// squared residue over the squared gradient norm.
    pub open spec fn spec_dist_sq_rat(self, p: Point) -> Rat {
        Rat {
            n: (self.spec_residue(p) * self.spec_residue(p)) as i128,
            d: ((self.a * self.a + self.b * self.b) * (p.w * p.w)) as i128,
        }
    }

    /// Exact squared distance from a point to a nondegenerate line: the
    /// point is projected along the normal, with no square root taken.
    pub fn dist_sq(&self, p: Point) -> (r: Rat)
        requires
            self.within(ROUND_LINE_BOUND as int),
            p.wf(),
            p.within(ROUND_BOUND as int),
            !(self.a == 0 && self.b == 0),
        ensures
            r == self.spec_dist_sq_rat(p),
            r.wf(),
    {
        proof {
            lemma_line_dist_products(*self, p);
        }
        let n = self.a * p.x + self.b * p.y - self.c * p.w;
        Rat { n: n * n, d: (self.a * self.a + self.b * self.b) * (p.w * p.w) }
    }
}

/// Bounds and positivity for the point-line distance computation.
proof fn lemma_line_dist_products(l: Line, p: Point)
    requires
        l.within(ROUND_LINE_BOUND as int),
        p.wf(),
        p.within(ROUND_BOUND as int),
        !(l.a == 0 && l.b == 0),
    ensures
        ({
            let n = l.spec_residue(p);
            &&& -0x800_0000_0000 <= l.a * p.x <= 0x800_0000_0000
            &&& -0x800_0000_0000 <= l.b * p.y <= 0x800_0000_0000
            &&& -0x800_0000_0000 <= l.c * p.w <= 0x800_0000_0000
            &&& 0 <= n * n <= 0x240_0000_0000_0000_0000_0000
            &&& 0 <= l.a * l.a <= 0x400_0000_0000_0000
            &&& 0 <= l.b * l.b <= 0x400_0000_0000_0000
            &&& 1 <= l.a * l.a + l.b * l.b <= 0x800_0000_0000_0000
            &&& 1 <= p.w * p.w <= 0x1000_0000
            &&& 1 <= (l.a * l.a + l.b * l.b) * (p.w * p.w) <= 0x80_0000_0000_0000_0000_0000
        }),
{
    let lb = ROUND_LINE_BOUND as int;
    let rb = ROUND_BOUND as int;
    lemma_mul_bound(l.a as int, p.x as int, lb, rb);
    lemma_mul_bound(l.b as int, p.y as int, lb, rb);
    lemma_mul_bound(l.c as int, p.w as int, lb, rb);
    let n = l.spec_residue(p);
    lemma_mul_bound(n, n, 0x1800_0000_0000, 0x1800_0000_0000);
    assert(0 <= n * n) by (nonlinear_arith);
    lemma_mul_bound(l.a as int, l.a as int, lb, lb);
    lemma_mul_bound(l.b as int, l.b as int, lb, lb);
    assert(0 <= l.a * l.a && 0 <= l.b * l.b) by (nonlinear_arith);
    assert(l.a != 0 ==> 1 <= l.a * l.a) by (nonlinear_arith);
    assert(l.b != 0 ==> 1 <= l.b * l.b) by (nonlinear_arith);
    lemma_mul_bound(p.w as int, p.w as int, rb, rb);
    lemma_mul_pos(p.w as int, p.w as int);
    lemma_mul_bound(l.a * l.a + l.b * l.b, p.w * p.w, 0x800_0000_0000_0000, 0x1000_0000);
    lemma_mul_pos(l.a * l.a + l.b * l.b, p.w * p.w);
}

impl Segment {
    /// The foot of the perpendicular from `p` onto the carrier line, in
    /// homogeneous form over the positive denominator
    /// `(a^2 + b^2) * p.w`.
    pub open spec fn spec_foot(self, p: Point) -> Point {
        let l = self.spec_to_line();
        Point {
            x: (l.b * (l.b * p.x - l.a * p.y) + l.a * l.c * p.w) as i128,
            y: (l.a * (l.a * p.y - l.b * p.x) + l.b * l.c * p.w) as i128,
            w: ((l.a * l.a + l.b * l.b) * p.w) as i128,
        }
    }

    /// The smaller of the squared distances from `p` to the two
    /// endpoints.
    pub open spec fn spec_endpoint_dist_sq(self, p: Point) -> Rat {
        let dp = p.spec_dist_sq_rat(self.p);
        let dq = p.spec_dist_sq_rat(self.q);
        if dp.spec_le(dq) {
            dp
        } else {
            dq
        }
    }

    /// The squared distance from `p` to the segment, as a value: the
    /// squared distance to the carrier line when the perpendicular foot
    /// falls inside the segment's box, else to the nearer endpoint.  A
    /// degenerate segment is its single point.
    pub open spec fn spec_dist_sq(self, p: Point) -> Rat {
        if self.p.eqv(self.q) {
            p.spec_dist_sq_rat(self.p)
        } else if self.spec_bounds_contain(self.spec_foot(p)) {
            self.spec_to_line().spec_dist_sq_rat(p)
        } else {
            self.spec_endpoint_dist_sq(p)
        }
    }

    /// Exact squared distance from a point to the segment: the
    /// projection onto the carrier line is clamped to the segment by the
    /// bounding-box test, falling back to the nearer endpoint.
    pub fn dist_sq(&self, p: Point) -> (r: Rat)
        requires
            self.wf(),
            self.within(ROUND_BOUND as int),
            p.wf(),
            p.within(ROUND_BOUND as int),
        ensures
            r == self.spec_dist_sq(p),
            r.wf(),
            self.within(DIST_BOUND as int) && p.within(DIST_BOUND as int) ==> r.within(
                crate::rat::CMP_BOUND as int,
            ),
    {
        proof {
            crate::two::point::lemma_dist_sq_bounds(p, self.p, ROUND_BOUND as int);
            crate::two::point::lemma_dist_sq_bounds(p, self.q, ROUND_BOUND as int);
            if self.within(DIST_BOUND as int) && p.within(DIST_BOUND as int) {
                crate::two::point::lemma_dist_sq_bounds(p, self.p, DIST_BOUND as int);
                crate::two::point::lemma_dist_sq_bounds(p, self.q, DIST_BOUND as int);
            }
        }
        let l = self.to_line();
        if l.a == 0 && l.b == 0 {
            return p.dist_sq(self.p);
        }
        proof {
            lemma_foot_products(*self, p);
            if self.within(DIST_BOUND as int) && p.within(DIST_BOUND as int) {
                lemma_small_line_dist(*self, p);
            }
        }
        let fx = l.b * (l.b * p.x - l.a * p.y) + l.a * l.c * p.w;
        let fy = l.a * (l.a * p.y - l.b * p.x) + l.b * l.c * p.w;
        let fw = (l.a * l.a + l.b * l.b) * p.w;
        let foot = Point { x: fx, y: fy, w: fw };
        if self.bounds_contain(foot) {
            l.dist_sq(p)
        } else {
            let dp = p.dist_sq(self.p);
            let dq = p.dist_sq(self.q);
            if dp.le(dq) {
                dp
            } else {
                dq
            }
        }
    }
}

/// Bounds for the perpendicular-foot computation: the carrier line of a
/// coordinate-bounded segment has small coefficients, so the foot stays
/// far below the filter bound.
proof fn lemma_foot_products(s: Segment, p: Point)
    requires
        s.wf(),
        s.within(ROUND_BOUND as int),
        p.wf(),
        p.within(ROUND_BOUND as int),
        !(s.spec_to_line().a == 0 && s.spec_to_line().b == 0),
    ensures
        ({
            let l = s.spec_to_line();
            &&& l.within(0x2000_0000)
            &&& -0x800_0000_0000 <= l.b * p.x <= 0x800_0000_0000
            &&& -0x800_0000_0000 <= l.a * p.y <= 0x800_0000_0000
            &&& -0x800_0000_0000 <= l.a * p.x <= 0x800_0000_0000
            &&& -0x800_0000_0000 <= l.b * p.y <= 0x800_0000_0000
            &&& -0x20_0000_0000_0000_0000_0000 <= l.b * (l.b * p.x - l.a * p.y)
                <= 0x20_0000_0000_0000_0000_0000
            &&& -0x20_0000_0000_0000_0000_0000 <= l.a * (l.a * p.y - l.b * p.x)
                <= 0x20_0000_0000_0000_0000_0000
            &&& -0x400_0000_0000_0000 <= l.a * l.c <= 0x400_0000_0000_0000
            &&& -0x400_0000_0000_0000 <= l.b * l.c <= 0x400_0000_0000_0000
            &&& -0x10_0000_0000_0000_0000_0000 <= l.a * l.c * p.w <= 0x10_0000_0000_0000_0000_0000
            &&& -0x10_0000_0000_0000_0000_0000 <= l.b * l.c * p.w <= 0x10_0000_0000_0000_0000_0000
            &&& -0x30_0000_0000_0000_0000_0000 <= l.b * (l.b * p.x - l.a * p.y) + l.a * l.c * p.w
                <= 0x30_0000_0000_0000_0000_0000
            &&& -0x30_0000_0000_0000_0000_0000 <= l.a * (l.a * p.y - l.b * p.x) + l.b * l.c * p.w
                <= 0x30_0000_0000_0000_0000_0000
            &&& 0 <= l.a * l.a <= 0x400_0000_0000_0000
            &&& 0 <= l.b * l.b <= 0x400_0000_0000_0000
            &&& 1 <= l.a * l.a + l.b * l.b <= 0x800_0000_0000_0000
            &&& 1 <= (l.a * l.a + l.b * l.b) * p.w <= 0x20_0000_0000_0000_0000_0000
            &&& (Point {
                x: (l.b * (l.b * p.x - l.a * p.y) + l.a * l.c * p.w) as i128,
                y: (l.a * (l.a * p.y - l.b * p.x) + l.b * l.c * p.w) as i128,
                w: ((l.a * l.a + l.b * l.b) * p.w) as i128,
            }).wf()
            &&& (Point {
                x: (l.b * (l.b * p.x - l.a * p.y) + l.a * l.c * p.w) as i128,
                y: (l.a * (l.a * p.y - l.b * p.x) + l.b * l.c * p.w) as i128,
                w: ((l.a * l.a + l.b * l.b) * p.w) as i128,
            }).within(crate::two::line::POINT_BOUND as int)
        }),
{
    let l = s.spec_to_line();
    let rb = ROUND_BOUND as int;
    lemma_mul_bound(s.q.y as int, s.p.w as int, rb, rb);
    lemma_mul_bound(s.p.y as int, s.q.w as int, rb, rb);
    lemma_mul_bound(s.p.x as int, s.q.w as int, rb, rb);
    lemma_mul_bound(s.q.x as int, s.p.w as int, rb, rb);
    lemma_mul_bound(s.p.x as int, s.q.y as int, rb, rb);
    lemma_mul_bound(s.q.x as int, s.p.y as int, rb, rb);
    let lb = 0x2000_0000int;
    lemma_mul_bound(l.b as int, p.x as int, lb, rb);
    lemma_mul_bound(l.a as int, p.y as int, lb, rb);
    lemma_mul_bound(l.a as int, p.x as int, lb, rb);
    lemma_mul_bound(l.b as int, p.y as int, lb, rb);
    lemma_mul_bound(l.b as int, l.b * p.x - l.a * p.y, lb, 0x1000_0000_0000);
    lemma_mul_bound(l.a as int, l.a * p.y - l.b * p.x, lb, 0x1000_0000_0000);
    lemma_mul_bound(l.a as int, l.c as int, lb, lb);
    lemma_mul_bound(l.b as int, l.c as int, lb, lb);
    lemma_mul_bound(l.a * l.c, p.w as int, 0x400_0000_0000_0000, rb);
    lemma_mul_bound(l.b * l.c, p.w as int, 0x400_0000_0000_0000, rb);
    lemma_mul_bound(l.a as int, l.a as int, lb, lb);
    lemma_mul_bound(l.b as int, l.b as int, lb, lb);
    assert(0 <= l.a * l.a && 0 <= l.b * l.b) by (nonlinear_arith);
    assert(l.a != 0 ==> 1 <= l.a * l.a) by (nonlinear_arith);
    assert(l.b != 0 ==> 1 <= l.b * l.b) by (nonlinear_arith);
    lemma_mul_bound(l.a * l.a + l.b * l.b, p.w as int, 0x800_0000_0000_0000, rb);
    lemma_mul_pos(l.a * l.a + l.b * l.b, p.w as int);
}

impl Ray {
    /// The squared distance from `p` to the ray, as a value: to the
    /// carrier line when `p` lies forward of the origin, else to the
    /// origin itself.
    pub open spec fn spec_dist_sq(self, p: Point) -> Rat {
        if self.spec_bounds_contain(p) {
            self.spec_to_line().spec_dist_sq_rat(p)
        } else {
            p.spec_dist_sq_rat(self.init)
        }
    }

    /// Exact squared distance from a point to the ray.
    pub fn dist_sq(&self, p: Point) -> (r: Rat)
        requires
            self.wf(),
            self.within(ROUND_BOUND as int),
            p.wf(),
            p.within(ROUND_BOUND as int),
        ensures
            r == self.spec_dist_sq(p),
            r.wf(),
    {
        proof {
            crate::two::point::lemma_dist_sq_bounds(p, self.init, ROUND_BOUND as int);
        }
        if self.bounds_contain(p) {
            let l = self.to_line();
            proof {
                let rb = ROUND_BOUND as int;
                assert(l.a == 0 ==> self.dir.y == 0) by (nonlinear_arith)
                    requires
                        l.a == -self.dir.y * self.init.w,
                        1 <= self.init.w,
                ;
                assert(l.b == 0 ==> self.dir.x == 0) by (nonlinear_arith)
                    requires
                        l.b == self.dir.x * self.init.w,
                        1 <= self.init.w,
                ;
                lemma_mul_bound(-(self.dir.y as int), self.init.w as int, rb, rb);
                lemma_mul_bound(self.dir.x as int, self.init.w as int, rb, rb);
                lemma_mul_bound(-(self.dir.y as int), self.init.x as int, rb, rb);
                lemma_mul_bound(self.dir.x as int, self.init.y as int, rb, rb);
            }
            l.dist_sq(p)
        } else {
            p.dist_sq(self.init)
        }
    }
}

/// The least squared distance from `p` to any edge of the chain, over
/// straight edges.
pub open spec fn spec_chain_dist_sq(edges: Seq<Edge>, p: Point) -> Rat
    decreases edges.len(),
{
    if edges.len() == 0 {
        Rat { n: 0, d: 1 }
    } else if edges.len() == 1 {
        spec_edge_dist_sq(edges[0], p)
    } else {
        let rest = spec_chain_dist_sq(edges.drop_last(), p);
        let last = spec_edge_dist_sq(edges.last(), p);
        if rest.spec_le(last) {
            rest
        } else {
            last
        }
    }
}

/// The squared distance from `p` to one straight edge; arcs fall outside
/// the exact kernel here.
pub open spec fn spec_edge_dist_sq(e: Edge, p: Point) -> Rat {
    match e {
        Edge::Segment(s) => s.spec_dist_sq(p),
        Edge::Arc(_) => Rat { n: 0, d: 1 },
    }
}

impl Boundary {
    /// The least squared distance from `p` to the boundary, over all its
    /// edges.  A circular arc's distance takes a square root, so a
    /// boundary with arc edges is refused.
    pub fn dist_sq(&self, p: Point) -> (r: Result<Rat, GeomError>)
        requires
            self.wf(),
            p.wf(),
            p.within(DIST_BOUND as int),
            forall|i: int|
                0 <= i < self.edges@.len() ==> (#[trigger] self.edges@[i]).within(
                    DIST_BOUND as int,
                ),
        ensures
            match r {
                Result::Ok(v) => {
                    &&& crate::two::boundary::spec_all_straight(self.edges@)
                    &&& v == spec_chain_dist_sq(self.edges@, p)
                    &&& v.wf()
                },
                Result::Err(e) => e == GeomError::CurvedQuery
                    && !crate::two::boundary::spec_all_straight(self.edges@),
            },
    {
        proof {
            assert(self.edges@[0].within(DIST_BOUND as int));
        }
        let first = match &self.edges[0] {
            Edge::Segment(s) => s.dist_sq(p),
            Edge::Arc(_) => {
                return Result::Err(GeomError::CurvedQuery);
            },
        };
        let mut best = first;
        let mut i: usize = 1;
        proof {
            assert(self.edges@.take(1int) =~= seq![self.edges@[0]]);
        }
        while i < self.edges.len()
            invariant
                1 <= i <= self.edges@.len(),
                self.wf(),
                p.wf(),
                p.within(DIST_BOUND as int),
                forall|j: int|
                    0 <= j < self.edges@.len() ==> (#[trigger] self.edges@[j]).within(
                        DIST_BOUND as int,
                    ),
                crate::two::boundary::spec_all_straight(self.edges@.take(i as int)),
                best == spec_chain_dist_sq(self.edges@.take(i as int), p),
                best.wf(),
                best.within(crate::rat::CMP_BOUND as int),
            decreases self.edges@.len() - i,
        {
            proof {
                assert(self.edges@.take(i as int + 1).drop_last() =~= self.edges@.take(i as int));
                assert(self.edges@.take(i as int + 1).last() == self.edges@[i as int]);
                assert(self.edges@[i as int].within(DIST_BOUND as int));
            }
            let d = match &self.edges[i] {
                Edge::Segment(s) => s.dist_sq(p),
                Edge::Arc(_) => {
                    return Result::Err(GeomError::CurvedQuery);
                },
            };
            if !best.le(d) {
                best = d;
            }
            i = i + 1;
        }
        proof {
            assert(self.edges@.take(self.edges@.len() as int) =~= self.edges@);
        }
        Result::Ok(best)
    }
}

/// The direction of a segment as a homogeneous vector, the form the
/// circle-query quadratic coefficients are built from.
pub open spec fn spec_segment_dir(s: Segment) -> Point {
    Point {
        x: (s.q.x * s.p.w - s.p.x * s.q.w) as i128,
        y: (s.q.y * s.p.w - s.p.y * s.q.w) as i128,
        w: (s.p.w * s.q.w) as i128,
    }
}

impl Circle {
    /// How often the circle meets a segment: the carrier line's
    /// crossings, counted only where they fall inside the segment's
    /// parameter interval.  The carrier-line classification fixes how
    /// many real roots the segment's quadratic has, and sign tests on
    /// the quadratic's coefficients place each root against the closed
    /// unit interval.  A degenerate segment is its single point, met
    /// exactly when that point lies on the circle.
    pub open spec fn spec_count_segment(self, s: Segment) -> Count {
        if s.p.eqv(s.q) {
            if self.spec_on_circle(s.p) {
                Count::One
            } else {
                Count::Zero
            }
        } else {
            let ray = Ray { init: s.p, dir: spec_segment_dir(s) };
            let qa = self.spec_ray_qa(ray);
            let qb = self.spec_ray_qb(ray);
            let qg = self.spec_ray_qg(ray);
            let lc = self.spec_count_line(s.spec_to_line());
            if lc == Count::Zero {
                Count::Zero
            } else if lc == Count::One {
                if -qa <= qb <= 0 {
                    Count::One
                } else {
                    Count::Zero
                }
            } else {
                let near = (qb <= 0 && qg >= 0) && (qa + qb >= 0 || qa + 2 * qb + qg <= 0);
                let far = (qb <= 0 || qg <= 0) && (qa + qb >= 0 && qa + 2 * qb + qg >= 0);
                if near && far {
                    Count::Many(2)
                } else if near || far {
                    Count::One
                } else {
                    Count::Zero
                }
            }
        }
    }

    pub fn intersects_segment(&self, s: &Segment) -> (c: Count)
        requires
            self.wf(),
            s.wf(),
            self.within(DIST_BOUND as int),
            s.within(DIST_BOUND as int),
        ensures
            c == self.spec_count_segment(*s),
    {
        proof {
            lemma_segment_circle_products(*self, *s);
        }
        let dx = s.q.x * s.p.w - s.p.x * s.q.w;
        let dy = s.q.y * s.p.w - s.p.y * s.q.w;
        let dw = s.p.w * s.q.w;
        let rd2 = self.radius.d * self.radius.d;
        let iwcw = s.p.w * self.center.w;
        if dx == 0 && dy == 0 {
            proof {
                crate::two::point::lemma_dist_sq_bounds(s.p, self.center, DIST_BOUND as int);
                lemma_mul_bound(
                    s.p.dist_sq_num(self.center),
                    rd2 as int,
                    0x80_0000_0000,
                    0x4_0000,
                );
                lemma_mul_bound(
                    (self.radius.n * self.radius.n) as int,
                    ((s.p.w * self.center.w) * (s.p.w * self.center.w)) as int,
                    0x4_0000,
                    0x10_0000_0000,
                );
            }
            let d2 = s.p.dist_sq(self.center);
            let on = d2.n * rd2 == (self.radius.n * self.radius.n) * d2.d;
            return if on {
                Count::One
            } else {
                Count::Zero
            };
        }
        let own = s.to_line();
        let lc = self.intersects_line(&own);
        if lc == Count::Zero {
            return Count::Zero;
        }
        let ux = s.p.x * self.center.w - self.center.x * s.p.w;
        let uy = s.p.y * self.center.w - self.center.y * s.p.w;
        let qa = rd2 * ((dx * dx + dy * dy) * (iwcw * iwcw));
        let qb = rd2 * (((ux * dx + uy * dy) * dw) * iwcw);
        if lc == Count::One {
            return if -qa <= qb && qb <= 0 {
                Count::One
            } else {
                Count::Zero
            };
        }
        let qg = rd2 * ((ux * ux + uy * uy) * (dw * dw)) - (self.radius.n * self.radius.n) * ((
        iwcw * dw) * (iwcw * dw));
        let near = (qb <= 0 && qg >= 0) && (qa + qb >= 0 || qa + 2 * qb + qg <= 0);
        let far = (qb <= 0 || qg <= 0) && (qa + qb >= 0 && qa + 2 * qb + qg >= 0);
        if near && far {
            Count::Many(2)
        } else if near || far {
            Count::One
        } else {
            Count::Zero
        }
    }
}

impl Segment {
    /// How often the segment meets a circle.
    pub fn intersects_circle(&self, other: &Circle) -> (c: Count)
        requires
            self.wf(),
            other.wf(),
            self.within(DIST_BOUND as int),
            other.within(DIST_BOUND as int),
        ensures
            c == other.spec_count_segment(*self),
    {
        other.intersects_segment(self)
    }
}

/// Bounds for the segment-circle quadratic's coefficients over the small
/// distance window.
proof fn lemma_segment_circle_products(ci: Circle, s: Segment)
    requires
        ci.wf(),
        s.wf(),
        ci.within(DIST_BOUND as int),
        s.within(DIST_BOUND as int),
    ensures
        ({
            let dx = s.q.x * s.p.w - s.p.x * s.q.w;
            let dy = s.q.y * s.p.w - s.p.y * s.q.w;
            let dw = s.p.w * s.q.w;
            let ux = s.p.x * ci.center.w - ci.center.x * s.p.w;
            let uy = s.p.y * ci.center.w - ci.center.y * s.p.w;
            let rd2 = ci.radius.d * ci.radius.d;
            let iwcw = s.p.w * ci.center.w;
            &&& -0x4_0000 <= s.q.x * s.p.w <= 0x4_0000
            &&& -0x4_0000 <= s.p.x * s.q.w <= 0x4_0000
            &&& -0x4_0000 <= s.q.y * s.p.w <= 0x4_0000
            &&& -0x4_0000 <= s.p.y * s.q.w <= 0x4_0000
            &&& -0x4_0000 <= s.p.x * s.q.y <= 0x4_0000
            &&& -0x4_0000 <= s.q.x * s.p.y <= 0x4_0000
            &&& -0x4_0000 <= s.p.x * ci.center.w <= 0x4_0000
            &&& -0x4_0000 <= ci.center.x * s.p.w <= 0x4_0000
            &&& -0x4_0000 <= s.p.y * ci.center.w <= 0x4_0000
            &&& -0x4_0000 <= ci.center.y * s.p.w <= 0x4_0000
            &&& 1 <= dw <= 0x4_0000
            &&& 1 <= rd2 <= 0x4_0000
            &&& 1 <= ci.radius.n * ci.radius.n <= 0x4_0000
            &&& 1 <= iwcw <= 0x4_0000
            &&& 0 <= dx * dx <= 0x40_0000_0000
            &&& 0 <= dy * dy <= 0x40_0000_0000
            &&& 1 <= iwcw * iwcw <= 0x10_0000_0000
            &&& 0 <= (dx * dx + dy * dy) * (iwcw * iwcw) <= 0x8_0000_0000_0000_0000_0000
            &&& 0 <= rd2 * ((dx * dx + dy * dy) * (iwcw * iwcw))
                <= 0x20_0000_0000_0000_0000_0000_0000
            &&& -0x40_0000_0000 <= ux * dx <= 0x40_0000_0000
            &&& -0x40_0000_0000 <= uy * dy <= 0x40_0000_0000
            &&& -0x200_0000_0000_0000 <= (ux * dx + uy * dy) * dw <= 0x200_0000_0000_0000
            &&& -0x800_0000_0000_0000_0000 <= ((ux * dx + uy * dy) * dw) * iwcw
                <= 0x800_0000_0000_0000_0000
            &&& -0x2000_0000_0000_0000_0000_0000 <= rd2 * (((ux * dx + uy * dy) * dw) * iwcw)
                <= 0x2000_0000_0000_0000_0000_0000
            &&& 0 <= ux * ux <= 0x40_0000_0000
            &&& 0 <= uy * uy <= 0x40_0000_0000
            &&& 1 <= dw * dw <= 0x10_0000_0000
            &&& 0 <= (ux * ux + uy * uy) * (dw * dw) <= 0x8_0000_0000_0000_0000_0000
            &&& 0 <= rd2 * ((ux * ux + uy * uy) * (dw * dw)) <= 0x20_0000_0000_0000_0000_0000_0000
            &&& 1 <= iwcw * dw <= 0x10_0000_0000
            &&& 1 <= (iwcw * dw) * (iwcw * dw) <= 0x100_0000_0000_0000_0000
            &&& 0 < (ci.radius.n * ci.radius.n) * ((iwcw * dw) * (iwcw * dw))
                <= 0x4_0000_0000_0000_0000_0000_0000
        }),
{
    let db = DIST_BOUND as int;
    lemma_mul_bound(s.q.x as int, s.p.w as int, db, db);
    lemma_mul_bound(s.p.x as int, s.q.w as int, db, db);
    lemma_mul_bound(s.q.y as int, s.p.w as int, db, db);
    lemma_mul_bound(s.p.y as int, s.q.w as int, db, db);
    lemma_mul_bound(s.p.x as int, s.q.y as int, db, db);
    lemma_mul_bound(s.q.x as int, s.p.y as int, db, db);
    lemma_mul_bound(s.p.x as int, ci.center.w as int, db, db);
    lemma_mul_bound(ci.center.x as int, s.p.w as int, db, db);
    lemma_mul_bound(s.p.y as int, ci.center.w as int, db, db);
    lemma_mul_bound(ci.center.y as int, s.p.w as int, db, db);
    lemma_mul_bound(s.p.w as int, s.q.w as int, db, db);
    lemma_mul_pos(s.p.w as int, s.q.w as int);
    lemma_mul_bound(ci.radius.d as int, ci.radius.d as int, db, db);
    lemma_mul_pos(ci.radius.d as int, ci.radius.d as int);
    lemma_mul_bound(ci.radius.n as int, ci.radius.n as int, db, db);
    lemma_mul_pos(ci.radius.n as int, ci.radius.n as int);
    lemma_mul_bound(s.p.w as int, ci.center.w as int, db, db);
    lemma_mul_pos(s.p.w as int, ci.center.w as int);
    let dx = s.q.x * s.p.w - s.p.x * s.q.w;
    let dy = s.q.y * s.p.w - s.p.y * s.q.w;
    let dw = s.p.w * s.q.w;
    let ux = s.p.x * ci.center.w - ci.center.x * s.p.w;
    let uy = s.p.y * ci.center.w - ci.center.y * s.p.w;
    let rd2 = ci.radius.d * ci.radius.d;
    let iwcw = s.p.w * ci.center.w;
    let m = 0x8_0000int;
    lemma_mul_bound(dx, dx, m, m);
    lemma_mul_bound(dy, dy, m, m);
    assert(0 <= dx * dx && 0 <= dy * dy) by (nonlinear_arith);
    lemma_mul_bound(iwcw, iwcw, 0x4_0000, 0x4_0000);
    lemma_mul_pos(iwcw, iwcw);
    lemma_mul_bound(dx * dx + dy * dy, iwcw * iwcw, 0x80_0000_0000, 0x10_0000_0000);
    assert(0 <= (dx * dx + dy * dy) * (iwcw * iwcw)) by (nonlinear_arith)
        requires
            0 <= dx * dx + dy * dy,
            0 < iwcw * iwcw,
    ;
    lemma_mul_bound(
        rd2,
        (dx * dx + dy * dy) * (iwcw * iwcw),
        0x4_0000,
        0x8_0000_0000_0000_0000_0000,
    );
    assert(0 <= rd2 * ((dx * dx + dy * dy) * (iwcw * iwcw))) by (nonlinear_arith)
        requires
            0 < rd2,
            0 <= (dx * dx + dy * dy) * (iwcw * iwcw),
    ;
    lemma_mul_bound(ux, dx, m, m);
    lemma_mul_bound(uy, dy, m, m);
    lemma_mul_bound(ux * dx + uy * dy, dw, 0x80_0000_0000, 0x4_0000);
    lemma_mul_bound((ux * dx + uy * dy) * dw, iwcw, 0x200_0000_0000_0000, 0x4_0000);
    lemma_mul_bound(
        rd2,
        ((ux * dx + uy * dy) * dw) * iwcw,
        0x4_0000,
        0x800_0000_0000_0000_0000,
    );
    lemma_mul_bound(ux, ux, m, m);
    lemma_mul_bound(uy, uy, m, m);
    assert(0 <= ux * ux && 0 <= uy * uy) by (nonlinear_arith);
    lemma_mul_bound(dw, dw, 0x4_0000, 0x4_0000);
    lemma_mul_pos(dw, dw);
    lemma_mul_bound(ux * ux + uy * uy, dw * dw, 0x80_0000_0000, 0x10_0000_0000);
    assert(0 <= (ux * ux + uy * uy) * (dw * dw)) by (nonlinear_arith)
        requires
            0 <= ux * ux + uy * uy,
            0 < dw * dw,
    ;
    lemma_mul_bound(
        rd2,
        (ux * ux + uy * uy) * (dw * dw),
        0x4_0000,
        0x8_0000_0000_0000_0000_0000,
    );
    assert(0 <= rd2 * ((ux * ux + uy * uy) * (dw * dw))) by (nonlinear_arith)
        requires
            0 < rd2,
            0 <= (ux * ux + uy * uy) * (dw * dw),
    ;
    lemma_mul_bound(iwcw, dw, 0x4_0000, 0x4_0000);
    lemma_mul_pos(iwcw, dw);
    lemma_mul_bound(iwcw * dw, iwcw * dw, 0x10_0000_0000, 0x10_0000_0000);
    lemma_mul_pos(iwcw * dw, iwcw * dw);
    lemma_mul_bound(
        ci.radius.n * ci.radius.n,
        (iwcw * dw) * (iwcw * dw),
        0x4_0000,
        0x100_0000_0000_0000_0000,
    );
    lemma_mul_pos(ci.radius.n * ci.radius.n, (iwcw * dw) * (iwcw * dw));
}

/// Over small coordinates the carrier-line distance stays inside the
/// comparison bound.
proof fn lemma_small_line_dist(s: Segment, p: Point)
    requires
        s.wf(),
        s.within(DIST_BOUND as int),
        p.wf(),
        p.within(DIST_BOUND as int),
        !(s.spec_to_line().a == 0 && s.spec_to_line().b == 0),
    ensures
        ({
            let l = s.spec_to_line();
            let n = l.spec_residue(p);
            &&& -0x8_0000 <= l.a <= 0x8_0000
            &&& -0x8_0000 <= l.b <= 0x8_0000
            &&& -0x8_0000 <= l.c <= 0x8_0000
            &&& -0x3000_0000 <= n <= 0x3000_0000
            &&& 0 <= n * n <= 0x900_0000_0000_0000
            &&& 1 <= (l.a * l.a + l.b * l.b) * (p.w * p.w) <= 0x200_0000_0000_0000
        }),
{
    let l = s.spec_to_line();
    let db = DIST_BOUND as int;
    lemma_mul_bound(s.q.y as int, s.p.w as int, db, db);
    lemma_mul_bound(s.p.y as int, s.q.w as int, db, db);
    lemma_mul_bound(s.p.x as int, s.q.w as int, db, db);
    lemma_mul_bound(s.q.x as int, s.p.w as int, db, db);
    lemma_mul_bound(s.p.x as int, s.q.y as int, db, db);
    lemma_mul_bound(s.q.x as int, s.p.y as int, db, db);
    lemma_mul_bound(l.a as int, p.x as int, 0x8_0000, db);
    lemma_mul_bound(l.b as int, p.y as int, 0x8_0000, db);
    lemma_mul_bound(l.c as int, p.w as int, 0x8_0000, db);
    let n = l.spec_residue(p);
    lemma_mul_bound(n, n, 0x3000_0000, 0x3000_0000);
    assert(0 <= n * n) by (nonlinear_arith);
    lemma_mul_bound(l.a as int, l.a as int, 0x8_0000, 0x8_0000);
    lemma_mul_bound(l.b as int, l.b as int, 0x8_0000, 0x8_0000);
    assert(0 <= l.a * l.a && 0 <= l.b * l.b) by (nonlinear_arith);
    assert(l.a != 0 ==> 1 <= l.a * l.a) by (nonlinear_arith);
    assert(l.b != 0 ==> 1 <= l.b * l.b) by (nonlinear_arith);
    lemma_mul_bound(p.w as int, p.w as int, db, db);
    lemma_mul_pos(p.w as int, p.w as int);
    lemma_mul_bound(l.a * l.a + l.b * l.b, p.w * p.w, 0x80_0000_0000, 0x4_0000);
    lemma_mul_pos(l.a * l.a + l.b * l.b, p.w * p.w);
}

} // verus!
