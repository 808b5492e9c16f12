use vstd::prelude::*;

use crate::rat::{fits, Rat};
use crate::two::point::{lemma_mul_bound, lemma_mul_pos, Point, COORD_BOUND};

verus! {

/// Magnitude bound on the integer coefficients of a line built from
/// coordinate-bounded data.
pub const LINE_BOUND: i128 = 0x200_0000_0000;

/// Magnitude bound on the components of a point produced by intersecting
/// two bounded lines; the filters of segments and rays accept points up
/// to this size.
pub const POINT_BOUND: i128 = 0x10_0000_0000_0000_0000_0000;

/// Tighter coordinate bound asked of circles and arcs, whose queries
/// multiply more factors together than straight-line queries do.
pub const ROUND_BOUND: i128 = 0x4000;

/// A line in implicit form `a·x + b·y = c`.  The coefficients are held as
/// exact integers; scaling all three by a positive factor leaves the line
/// unchanged, which constructors use to clear rational denominators.
#[derive(Clone, Copy, Debug)]
pub struct Line {
    pub a: i128,
    pub b: i128,
    pub c: i128,
}

impl Line {
    pub open spec fn wf(self) -> bool {
        &&& -(i128::MAX as int) <= self.a
        &&& -(i128::MAX as int) <= self.b
        &&& -(i128::MAX as int) <= self.c
    }

    pub open spec fn within(self, bnd: int) -> bool {
        &&& -bnd <= self.a <= bnd
        &&& -bnd <= self.b <= bnd
        &&& -bnd <= self.c <= bnd
    }

    /// The point satisfies the line equation `a·x + b·y = c`, exactly.
    pub open spec fn spec_on_line(self, p: Point) -> bool {
        self.a * p.x + self.b * p.y == self.c * p.w
    }

    /// A line from integer coefficients.
    pub fn from_ints(a: i64, b: i64, c: i64) -> (r: Line)
        ensures
            r.a == a,
            r.b == b,
            r.c == c,
            r.wf(),
            r.within(0x8000_0000_0000_0000),
    {
        Line { a: a as i128, b: b as i128, c: c as i128 }
    }

    /// A line from rational coefficients, cleared to integers by the
    /// product of the three denominators.
    pub fn new(a: Rat, b: Rat, c: Rat) -> (r: Line)
        requires
            a.wf(),
            b.wf(),
            c.wf(),
            a.within(0x2000),
            b.within(0x2000),
            c.within(0x2000),
        ensures
            r.a == a.n * b.d * c.d,
            r.b == b.n * a.d * c.d,
            r.c == c.n * a.d * b.d,
            r.wf(),
            r.within(LINE_BOUND as int),
    {
        proof {
            lemma_clear_three(a, b, c);
        }
        Line { a: a.n * b.d * c.d, b: b.n * a.d * c.d, c: c.n * a.d * b.d }
    }

    /// The perpendicular line through the origin.
    pub fn perp_origin(&self) -> (r: Line)
        requires
            self.wf(),
        ensures
            r.a == -self.b,
            r.b == self.a,
            r.c == 0,
            r.wf(),
    {
        Line { a: -self.b, b: self.a, c: 0 }
    }
}

/// Intermediate bounds for clearing three rational coefficients.
proof fn lemma_clear_three(a: Rat, b: Rat, c: Rat)
    requires
        a.within(0x2000),
        b.within(0x2000),
        c.within(0x2000),
    ensures
        -0x200_0000_0000 <= a.n * b.d * c.d <= 0x200_0000_0000,
        -0x200_0000_0000 <= b.n * a.d * c.d <= 0x200_0000_0000,
        -0x200_0000_0000 <= c.n * a.d * b.d <= 0x200_0000_0000,
        -0x400_0000 <= a.n * b.d <= 0x400_0000,
        -0x400_0000 <= b.n * a.d <= 0x400_0000,
        -0x400_0000 <= c.n * a.d <= 0x400_0000,
{
    lemma_mul_bound(a.n as int, b.d as int, 0x2000, 0x2000);
    lemma_mul_bound(b.n as int, a.d as int, 0x2000, 0x2000);
    lemma_mul_bound(c.n as int, a.d as int, 0x2000, 0x2000);
    lemma_mul_bound(a.n * b.d, c.d as int, 0x400_0000, 0x2000);
    lemma_mul_bound(b.n * a.d, c.d as int, 0x400_0000, 0x2000);
    lemma_mul_bound(c.n * a.d, b.d as int, 0x400_0000, 0x2000);
}

/// A directed straight edge between two points.
#[derive(Clone, Copy, Debug)]
pub struct Segment {
    pub p: Point,
    pub q: Point,
}

impl Segment {
    pub open spec fn wf(self) -> bool {
        &&& self.p.wf()
        &&& self.q.wf()
    }

    /// Both endpoints coordinate-bounded.
    pub open spec fn within(self, bnd: int) -> bool {
        &&& self.p.within(bnd)
        &&& self.q.within(bnd)
    }

    pub open spec fn spec_p(self) -> Point {
        self.p
    }

    pub open spec fn spec_q(self) -> Point {
        self.q
    }

    pub fn new(p: Point, q: Point) -> (r: Segment)
        requires
            p.wf(),
            q.wf(),
        ensures
            r.spec_p() == p,
            r.spec_q() == q,
            r.wf(),
    {
        Segment { p, q }
    }

    pub fn into_points(self) -> (r: (Point, Point))
        requires
            self.wf(),
        ensures
            r.0 == self.spec_p(),
            r.1 == self.spec_q(),
    {
        (self.p, self.q)
    }

    pub fn p(self) -> (r: Point)
        requires
            self.wf(),
        ensures
            r == self.spec_p(),
    {
        self.p
    }

    pub fn q(self) -> (r: Point)
        requires
            self.wf(),
        ensures
            r == self.spec_q(),
    {
        self.q
    }

    /// The coincident line as a value: the cross product of the
    /// homogeneous endpoints.
    pub open spec fn spec_to_line(self) -> Line {
        Line {
            a: (self.q.y * self.p.w - self.p.y * self.q.w) as i128,
            b: (self.p.x * self.q.w - self.q.x * self.p.w) as i128,
            c: (self.p.x * self.q.y - self.q.x * self.p.y) as i128,
        }
    }

    /// The coincident line, as the cross product of the homogeneous
    /// endpoints.
    pub fn to_line(self) -> (r: Line)
        requires
            self.wf(),
            self.within(COORD_BOUND as int),
        ensures
            r.a == self.q.y * self.p.w - self.p.y * self.q.w,
            r.b == self.p.x * self.q.w - self.q.x * self.p.w,
            r.c == self.p.x * self.q.y - self.q.x * self.p.y,
            r == self.spec_to_line(),
            r.spec_on_line(self.p),
            r.spec_on_line(self.q),
            r.wf(),
            r.within(LINE_BOUND as int),
    {
        proof {
            let c = COORD_BOUND as int;
            lemma_mul_bound(self.q.y as int, self.p.w as int, c, c);
            lemma_mul_bound(self.p.y as int, self.q.w as int, c, c);
            lemma_mul_bound(self.p.x as int, self.q.w as int, c, c);
            lemma_mul_bound(self.q.x as int, self.p.w as int, c, c);
            lemma_mul_bound(self.p.x as int, self.q.y as int, c, c);
            lemma_mul_bound(self.q.x as int, self.p.y as int, c, c);
            lemma_cross_line_incident(self.p, self.q);
        }
        Line {
            a: self.q.y * self.p.w - self.p.y * self.q.w,
            b: self.p.x * self.q.w - self.q.x * self.p.w,
            c: self.p.x * self.q.y - self.q.x * self.p.y,
        }
    }

    pub fn mid(&self) -> (r: Point)
        requires
            self.wf(),
            self.within(COORD_BOUND as int),
        ensures
            r.x == self.p.x * self.q.w + self.q.x * self.p.w,
            r.y == self.p.y * self.q.w + self.q.y * self.p.w,
            r.w == 2 * self.p.w * self.q.w,
            r.wf(),
    {
        proof {
            let c = COORD_BOUND as int;
            lemma_mul_bound(self.p.x as int, self.q.w as int, c, c);
            lemma_mul_bound(self.q.x as int, self.p.w as int, c, c);
            lemma_mul_bound(self.p.y as int, self.q.w as int, c, c);
            lemma_mul_bound(self.q.y as int, self.p.w as int, c, c);
            lemma_mul_bound(self.p.w as int, self.q.w as int, c, c);
            assert(2 * self.p.w * self.q.w == 2 * (self.p.w * self.q.w)) by (nonlinear_arith);
        }
        self.p.mid(self.q)
    }

    /// The perpendicular bisector of the segment: the line through the
    /// midpoint whose normal is the segment's own direction.
    pub fn perp_bisect(s: Segment) -> (r: Line)
        requires
            s.wf(),
            s.within(0x200),
        ensures
            ({
                let l = s.spec_to_line();
                let mw = 2 * (s.p.w * s.q.w);
                let mx = s.p.x * s.q.w + s.q.x * s.p.w;
                let my = s.p.y * s.q.w + s.q.y * s.p.w;
                &&& r.a == -l.b * mw
                &&& r.b == l.a * mw
                &&& r.c == -l.b * mx + l.a * my
                &&& r.a * mx + r.b * my == r.c * mw
                &&& r.a * l.a + r.b * l.b == 0
                &&& r.wf()
                &&& r.within(LINE_BOUND as int)
            }),
    {
        proof {
            lemma_bisect_products(s);
            assert(2 * s.p.w * s.q.w == 2 * (s.p.w * s.q.w)) by (nonlinear_arith);
        }
        let mid = s.mid();
        let along = s.to_line();
        Line {
            a: -along.b * mid.w,
            b: along.a * mid.w,
            c: -along.b * mid.x + along.a * mid.y,
        }
    }

    /// The point lies inside the segment's axis-aligned bounding box:
    /// its x coordinate sits between the endpoints' x coordinates and
    /// likewise for y.  Of a collinear point this decides membership in
    /// the segment itself.
    pub open spec fn spec_bounds_contain(self, r: Point) -> bool {
        let dxp = r.x * self.p.w - self.p.x * r.w;
        let dxq = r.x * self.q.w - self.q.x * r.w;
        let dyp = r.y * self.p.w - self.p.y * r.w;
        let dyq = r.y * self.q.w - self.q.y * r.w;
        &&& (dxp <= 0 && dxq >= 0) || (dxp >= 0 && dxq <= 0)
        &&& (dyp <= 0 && dyq >= 0) || (dyp >= 0 && dyq <= 0)
    }

    pub fn bounds_contain(&self, r: Point) -> (res: bool)
        requires
            self.wf(),
            r.wf(),
            self.within(COORD_BOUND as int),
            r.within(POINT_BOUND as int),
        ensures
            res == self.spec_bounds_contain(r),
    {
        proof {
            lemma_filter_products(r, self.p);
            lemma_filter_products(r, self.q);
        }
        let dxp = r.x * self.p.w - self.p.x * r.w;
        let dxq = r.x * self.q.w - self.q.x * r.w;
        let dyp = r.y * self.p.w - self.p.y * r.w;
        let dyq = r.y * self.q.w - self.q.y * r.w;
        let in_x = (dxp <= 0 && dxq >= 0) || (dxp >= 0 && dxq <= 0);
        let in_y = (dyp <= 0 && dyq >= 0) || (dyp >= 0 && dyq <= 0);
        in_x && in_y
    }

    pub fn reverse(self) -> (r: Segment)
        requires
            self.wf(),
        ensures
            r.spec_p() == self.spec_q(),
            r.spec_q() == self.spec_p(),
            r.wf(),
    {
        Segment { p: self.q, q: self.p }
    }
}

/// Products of a filter-bounded point against a coordinate-bounded point
/// stay inside an `i128`.
proof fn lemma_filter_products(r: Point, s: Point)
    requires
        r.within(POINT_BOUND as int),
        s.within(COORD_BOUND as int),
    ensures
        -0x100_0000_0000_0000_0000_0000_0000 <= r.x * s.w <= 0x100_0000_0000_0000_0000_0000_0000,
        -0x100_0000_0000_0000_0000_0000_0000 <= s.x * r.w <= 0x100_0000_0000_0000_0000_0000_0000,
        -0x100_0000_0000_0000_0000_0000_0000 <= r.y * s.w <= 0x100_0000_0000_0000_0000_0000_0000,
        -0x100_0000_0000_0000_0000_0000_0000 <= s.y * r.w <= 0x100_0000_0000_0000_0000_0000_0000,
        -0x200_0000_0000_0000_0000_0000_0000 <= r.x * s.w - s.x * r.w
            <= 0x200_0000_0000_0000_0000_0000_0000,
        -0x200_0000_0000_0000_0000_0000_0000 <= r.y * s.w - s.y * r.w
            <= 0x200_0000_0000_0000_0000_0000_0000,
{
    let pb = POINT_BOUND as int;
    let c = COORD_BOUND as int;
    lemma_mul_bound(r.x as int, s.w as int, pb, c);
    lemma_mul_bound(s.x as int, r.w as int, c, pb);
    lemma_mul_bound(r.y as int, s.w as int, pb, c);
    lemma_mul_bound(s.y as int, r.w as int, c, pb);
}

/// Bounds and identities for the perpendicular bisector: built over very
/// small coordinates, its coefficients stay within the line bound, it
/// passes through the midpoint, and its normal is orthogonal to the
/// segment's own.
proof fn lemma_bisect_products(s: Segment)
    requires
        s.wf(),
        s.within(0x200),
    ensures
        ({
            let l = s.spec_to_line();
            let mw = 2 * (s.p.w * s.q.w);
            let mx = s.p.x * s.q.w + s.q.x * s.p.w;
            let my = s.p.y * s.q.w + s.q.y * s.p.w;
            &&& -0x200_0000_0000 <= -l.b * mw <= 0x200_0000_0000
            &&& -0x200_0000_0000 <= l.a * mw <= 0x200_0000_0000
            &&& -0x100_0000_0000 <= -l.b * mx <= 0x100_0000_0000
            &&& -0x100_0000_0000 <= l.a * my <= 0x100_0000_0000
            &&& (-l.b * mw) * mx + (l.a * mw) * my == (-l.b * mx + l.a * my) * mw
            &&& (-l.b * mw) * l.a + (l.a * mw) * l.b == 0
        }),
{
    let db = 0x200int;
    lemma_mul_bound(s.q.y as int, s.p.w as int, db, db);
    lemma_mul_bound(s.p.y as int, s.q.w as int, db, db);
    lemma_mul_bound(s.p.x as int, s.q.w as int, db, db);
    lemma_mul_bound(s.q.x as int, s.p.w as int, db, db);
    lemma_mul_bound(s.p.x as int, s.q.y as int, db, db);
    lemma_mul_bound(s.q.x as int, s.p.y as int, db, db);
    lemma_mul_bound(s.p.w as int, s.q.w as int, db, db);
    let l = s.spec_to_line();
    let mw = 2 * (s.p.w * s.q.w);
    let mx = s.p.x * s.q.w + s.q.x * s.p.w;
    let my = s.p.y * s.q.w + s.q.y * s.p.w;
    lemma_mul_bound(-(l.b as int), mw, 0x8_0000, 0x8_0000);
    lemma_mul_bound(l.a as int, mw, 0x8_0000, 0x8_0000);
    lemma_mul_bound(-(l.b as int), mx, 0x8_0000, 0x8_0000);
    lemma_mul_bound(l.a as int, my, 0x8_0000, 0x8_0000);
    assert((-l.b * mw) * mx + (l.a * mw) * my == (-l.b * mx + l.a * my) * mw)
        by (nonlinear_arith);
    assert((-l.b * mw) * l.a + (l.a * mw) * l.b == 0) by (nonlinear_arith);
}

/// The cross-product line passes through both of its generating points.
proof fn lemma_cross_line_incident(p: Point, q: Point)
    ensures
        (q.y * p.w - p.y * q.w) * p.x + (p.x * q.w - q.x * p.w) * p.y == (p.x * q.y - q.x * p.y)
            * p.w,
        (q.y * p.w - p.y * q.w) * q.x + (p.x * q.w - q.x * p.w) * q.y == (p.x * q.y - q.x * p.y)
            * q.w,
{
    assert((q.y * p.w - p.y * q.w) * p.x + (p.x * q.w - q.x * p.w) * p.y == (p.x * q.y - q.x * p.y)
        * p.w) by (nonlinear_arith);
    assert((q.y * p.w - p.y * q.w) * q.x + (p.x * q.w - q.x * p.w) * q.y == (p.x * q.y - q.x * p.y)
        * q.w) by (nonlinear_arith);
}

/// A half line: every point reached from `init` in the direction of the
/// nonzero vector `dir`.
#[derive(Clone, Copy, Debug)]
pub struct Ray {
    pub init: Point,
    pub dir: Point,
}

impl Ray {
    pub open spec fn wf(self) -> bool {
        &&& self.init.wf()
        &&& self.dir.wf()
        &&& !(self.dir.x == 0 && self.dir.y == 0)
    }

    pub open spec fn within(self, bnd: int) -> bool {
        &&& self.init.within(bnd)
        &&& self.dir.within(bnd)
    }

    pub fn new(init: Point, dir: Point) -> (r: Ray)
        requires
            init.wf(),
            dir.wf(),
            !(dir.x == 0 && dir.y == 0),
        ensures
            r.init == init,
            r.dir == dir,
            r.wf(),
    {
        Ray { init, dir }
    }

    /// The pointing direction.
    pub fn direction(&self) -> (r: Point)
        requires
            self.wf(),
        ensures
            r == self.dir,
    {
        self.dir
    }

    /// The coincident line as a value.
    pub open spec fn spec_to_line(self) -> Line {
        Line {
            a: (-self.dir.y * self.init.w) as i128,
            b: (self.dir.x * self.init.w) as i128,
            c: (-self.dir.y * self.init.x + self.dir.x * self.init.y) as i128,
        }
    }

    /// The coincident line: normal `(-dir_y, dir_x)` through `init`.
    pub fn to_line(self) -> (r: Line)
        requires
            self.wf(),
            self.within(COORD_BOUND as int),
        ensures
            r.a == -self.dir.y * self.init.w,
            r.b == self.dir.x * self.init.w,
            r.c == -self.dir.y * self.init.x + self.dir.x * self.init.y,
            r == self.spec_to_line(),
            r.spec_on_line(self.init),
            r.wf(),
            r.within(LINE_BOUND as int),
    {
        proof {
            let c = COORD_BOUND as int;
            lemma_mul_bound(-(self.dir.y as int), self.init.w as int, c, c);
            lemma_mul_bound(self.dir.x as int, self.init.w as int, c, c);
            lemma_mul_bound(-(self.dir.y as int), self.init.x as int, c, c);
            lemma_mul_bound(self.dir.x as int, self.init.y as int, c, c);
            assert((-self.dir.y * self.init.w) * self.init.x + (self.dir.x * self.init.w)
                * self.init.y == (-self.dir.y * self.init.x + self.dir.x * self.init.y)
                * self.init.w) by (nonlinear_arith);
        }
        Line {
            a: -self.dir.y * self.init.w,
            b: self.dir.x * self.init.w,
            c: -self.dir.y * self.init.x + self.dir.x * self.init.y,
        }
    }

    /// The point lies strictly forward of the ray's origin: the vector
    /// from `init` to `r` has positive dot product with the direction.
    pub open spec fn spec_bounds_contain(self, r: Point) -> bool {
        (r.x * self.init.w - self.init.x * r.w) * self.dir.x + (r.y * self.init.w - self.init.y
            * r.w) * self.dir.y > 0
    }

    pub fn bounds_contain(&self, r: Point) -> (res: bool)
        requires
            self.wf(),
            r.wf(),
            self.within(COORD_BOUND as int),
            r.within(POINT_BOUND as int),
        ensures
            res == self.spec_bounds_contain(r),
    {
        proof {
            lemma_filter_products(r, self.init);
            let db = 0x200_0000_0000_0000_0000_0000_0000int;
            lemma_mul_bound(
                r.x * self.init.w - self.init.x * r.w,
                self.dir.x as int,
                db,
                COORD_BOUND as int,
            );
            lemma_mul_bound(
                r.y * self.init.w - self.init.y * r.w,
                self.dir.y as int,
                db,
                COORD_BOUND as int,
            );
        }
        let fx = (r.x * self.init.w - self.init.x * r.w) * self.dir.x;
        let fy = (r.y * self.init.w - self.init.y * r.w) * self.dir.y;
        fx + fy > 0
    }
}

/// A circle given by its center and positive radius.
#[derive(Clone, Copy, Debug)]
pub struct Circle {
    pub center: Point,
    pub radius: Rat,
}

impl Circle {
    pub open spec fn wf(self) -> bool {
        &&& self.center.wf()
        &&& self.radius.wf()
        &&& 1 <= self.radius.n
    }

    pub open spec fn within(self, bnd: int) -> bool {
        &&& self.center.within(bnd)
        &&& self.radius.within(bnd)
    }

    pub fn new(center: Point, radius: Rat) -> (r: Circle)
        requires
            center.wf(),
            radius.wf(),
            1 <= radius.n,
        ensures
            r.center == center,
            r.radius == radius,
            r.wf(),
    {
        Circle { center, radius }
    }

    /// The point lies exactly on the circle: its squared distance to the
    /// center equals the squared radius.
    pub open spec fn spec_on_circle(self, p: Point) -> bool {
        p.dist_sq_num(self.center) * (self.radius.d * self.radius.d) == (self.radius.n
            * self.radius.n) * ((p.w * self.center.w) * (p.w * self.center.w))
    }
}

/// The angular half of a direction vector, with the convention of angles
/// normalized into `[0, 2π)`: half `0` holds angles in `[0, π)`, half `1`
/// those in `[π, 2π)`.  The zero vector stands for angle `0`.
pub open spec fn spec_half(x: int, y: int) -> int {
    if y > 0 || (y == 0 && x >= 0) {
        0
    } else {
        1
    }
}

/// The angle of `(ux, uy)` is at most the angle of `(vx, vy)`, both
/// normalized into `[0, 2π)`.  Within one angular half the cross product
/// decides; across halves the half number does.  A zero vector compares
/// as the direction `(1, 0)` of angle `0`.
pub open spec fn spec_ang_le(ux: int, uy: int, vx: int, vy: int) -> bool {
    let ax = if ux == 0 && uy == 0 {
        1int
    } else {
        ux
    };
    let ay = if ux == 0 && uy == 0 {
        0int
    } else {
        uy
    };
    let bx = if vx == 0 && vy == 0 {
        1int
    } else {
        vx
    };
    let by = if vx == 0 && vy == 0 {
        0int
    } else {
        vy
    };
    if spec_half(ax, ay) != spec_half(bx, by) {
        spec_half(ax, ay) < spec_half(bx, by)
    } else {
        ax * by - ay * bx >= 0
    }
}

/// Strict angular order, derived from the reflexive one.
pub open spec fn spec_ang_lt(ux: int, uy: int, vx: int, vy: int) -> bool {
    !spec_ang_le(vx, vy, ux, uy)
}

/// Exact comparison of the normalized angles of two direction vectors.
pub fn ang_le(ux: i128, uy: i128, vx: i128, vy: i128) -> (r: bool)
    requires
        -(crate::rat::CMP_BOUND as int) <= ux <= crate::rat::CMP_BOUND as int,
        -(crate::rat::CMP_BOUND as int) <= uy <= crate::rat::CMP_BOUND as int,
        -(crate::rat::CMP_BOUND as int) <= vx <= crate::rat::CMP_BOUND as int,
        -(crate::rat::CMP_BOUND as int) <= vy <= crate::rat::CMP_BOUND as int,
    ensures
        r == spec_ang_le(ux as int, uy as int, vx as int, vy as int),
{
    let ax: i128 = if ux == 0 && uy == 0 {
        1
    } else {
        ux
    };
    let ay: i128 = if ux == 0 && uy == 0 {
        0
    } else {
        uy
    };
    let bx: i128 = if vx == 0 && vy == 0 {
        1
    } else {
        vx
    };
    let by: i128 = if vx == 0 && vy == 0 {
        0
    } else {
        vy
    };
    let hu: u8 = if ay > 0 || (ay == 0 && ax >= 0) {
        0
    } else {
        1
    };
    let hv: u8 = if by > 0 || (by == 0 && bx >= 0) {
        0
    } else {
        1
    };
    if hu != hv {
        hu < hv
    } else {
        proof {
            let b = crate::rat::CMP_BOUND as int;
            lemma_mul_bound(ax as int, by as int, b, b);
            lemma_mul_bound(ay as int, bx as int, b, b);
        }
        ax * by - ay * bx >= 0
    }
}

/// A wedge of a circle: the points of the circle whose direction from
/// the center lies in the angular span between the directions of `p` and
/// `q`.  With `ccw` set the span runs counterclockwise from `p` to `q`
/// (wrapping past angle `0` when needed); cleared, the complementary
/// span is meant.  Both endpoints lie exactly on the circle.
#[derive(Clone, Copy, Debug)]
pub struct Arc {
    pub center: Point,
    pub radius: Rat,
    pub p: Point,
    pub q: Point,
    pub ccw: bool,
}

impl Arc {
    pub open spec fn wf(self) -> bool {
        &&& self.center.wf()
        &&& self.p.wf()
        &&& self.q.wf()
        &&& self.radius.wf()
        &&& 1 <= self.radius.n
        &&& self.to_circle_spec().spec_on_circle(self.p)
        &&& self.to_circle_spec().spec_on_circle(self.q)
        &&& !self.p.eqv(self.center)
        &&& !self.q.eqv(self.center)
    }

    pub open spec fn within(self, bnd: int) -> bool {
        &&& self.center.within(bnd)
        &&& self.p.within(bnd)
        &&& self.q.within(bnd)
        &&& self.radius.within(bnd)
    }

    pub open spec fn to_circle_spec(self) -> Circle {
        Circle { center: self.center, radius: self.radius }
    }

    /// An arc from its center, radius, endpoints and winding flag.  The
    /// endpoints must lie exactly on the circle and away from the center.
    pub fn new(center: Point, radius: Rat, p: Point, q: Point, ccw: bool) -> (r: Arc)
        requires
            center.wf(),
            p.wf(),
            q.wf(),
            radius.wf(),
            1 <= radius.n,
            (Circle { center, radius }).spec_on_circle(p),
            (Circle { center, radius }).spec_on_circle(q),
            !p.eqv(center),
            !q.eqv(center),
        ensures
            r == (Arc { center, radius, p, q, ccw }),
            r.wf(),
    {
        Arc { center, radius, p, q, ccw }
    }

    pub fn to_circle(self) -> (r: Circle)
        requires
            self.wf(),
        ensures
            r == self.to_circle_spec(),
            r.wf(),
    {
        Circle { center: self.center, radius: self.radius }
    }

    /// The starting endpoint.
    pub fn p(&self) -> (r: Point)
        requires
            self.wf(),
        ensures
            r == self.p,
    {
        self.p
    }

    /// The finishing endpoint.
    pub fn q(&self) -> (r: Point)
        requires
            self.wf(),
        ensures
            r == self.q,
    {
        self.q
    }

    /// The same set of circle points walked the other way: endpoints
    /// swapped, winding flipped.  The angular span this denotes is
    /// unchanged, a full circle staying a full circle.
    pub fn reverse(&self) -> (r: Arc)
        requires
            self.wf(),
        ensures
            r.center == self.center,
            r.radius == self.radius,
            r.p == self.q,
            r.q == self.p,
            r.ccw == !self.ccw,
            r.wf(),
    {
        Arc { center: self.center, radius: self.radius, p: self.q, q: self.p, ccw: !self.ccw }
    }

    /// Direction of `t` as seen from the center, in cross-multiplied
    /// integer form: the x component.
    pub open spec fn dir_x(self, t: Point) -> int {
        t.x * self.center.w - self.center.x * t.w
    }

    /// Direction of `t` as seen from the center: the y component.
    pub open spec fn dir_y(self, t: Point) -> int {
        t.y * self.center.w - self.center.y * t.w
    }

    /// Membership of `r` in the arc's angular wedge: the direction from
    /// the center toward `r` lies in the span selected by the endpoints
    /// and the winding flag.  Of a point on the carrier circle this
    /// decides membership in the arc itself.  Coincident endpoint
    /// directions make the wedge the whole circle whichever way it is
    /// wound, so reversal never turns a full-circle arc into an empty
    /// one.
    pub open spec fn spec_bounds_contain(self, r: Point) -> bool {
        let px = self.dir_x(self.p);
        let py = self.dir_y(self.p);
        let qx = self.dir_x(self.q);
        let qy = self.dir_y(self.q);
        let vx = self.dir_x(r);
        let vy = self.dir_y(r);
        let in_ccw = if spec_ang_lt(px, py, qx, qy) {
            spec_ang_le(px, py, vx, vy) && spec_ang_le(vx, vy, qx, qy)
        } else {
            spec_ang_le(px, py, vx, vy) || spec_ang_le(vx, vy, qx, qy)
        };
        if spec_ang_le(px, py, qx, qy) && spec_ang_le(qx, qy, px, py) {
            true
        } else if self.ccw {
            in_ccw
        } else {
            !in_ccw
        }
    }

    pub fn bounds_contain(&self, r: Point) -> (res: bool)
        requires
            self.wf(),
            r.wf(),
            self.within(ROUND_BOUND as int),
            r.within(COORD_BOUND as int),
        ensures
            res == self.spec_bounds_contain(r),
    {
        proof {
            let rb = ROUND_BOUND as int;
            let c = COORD_BOUND as int;
            lemma_mul_bound(self.p.x as int, self.center.w as int, rb, rb);
            lemma_mul_bound(self.center.x as int, self.p.w as int, rb, rb);
            lemma_mul_bound(self.p.y as int, self.center.w as int, rb, rb);
            lemma_mul_bound(self.center.y as int, self.p.w as int, rb, rb);
            lemma_mul_bound(self.q.x as int, self.center.w as int, rb, rb);
            lemma_mul_bound(self.center.x as int, self.q.w as int, rb, rb);
            lemma_mul_bound(self.q.y as int, self.center.w as int, rb, rb);
            lemma_mul_bound(self.center.y as int, self.q.w as int, rb, rb);
            lemma_mul_bound(r.x as int, self.center.w as int, c, rb);
            lemma_mul_bound(self.center.x as int, r.w as int, rb, c);
            lemma_mul_bound(r.y as int, self.center.w as int, c, rb);
            lemma_mul_bound(self.center.y as int, r.w as int, rb, c);
        }
        let px = self.p.x * self.center.w - self.center.x * self.p.w;
        let py = self.p.y * self.center.w - self.center.y * self.p.w;
        let qx = self.q.x * self.center.w - self.center.x * self.q.w;
        let qy = self.q.y * self.center.w - self.center.y * self.q.w;
        let vx = r.x * self.center.w - self.center.x * r.w;
        let vy = r.y * self.center.w - self.center.y * r.w;
        if ang_le(px, py, qx, qy) && ang_le(qx, qy, px, py) {
            return true;
        }
        let p_before_q = !ang_le(qx, qy, px, py);
        let in_ccw = if p_before_q {
            ang_le(px, py, vx, vy) && ang_le(vx, vy, qx, qy)
        } else {
            ang_le(px, py, vx, vy) || ang_le(vx, vy, qx, qy)
        };
        if self.ccw {
            in_ccw
        } else {
            !in_ccw
        }
    }
}

} // verus!
