use vstd::prelude::*;

use crate::rat::{fits, Rat, CMP_BOUND};

verus! {

/// Magnitude bound asked of caller-supplied coordinates: generous enough
/// for any geometry built from `Rat::new` inputs, and small enough that
/// every derived quantity the kernel computes stays inside an `i128`.
pub const COORD_BOUND: i128 = 0x10_0000;

/// A planar point with exact rational coordinates, held in homogeneous
/// form: the point `(x / w, y / w)` with `w` positive.  Keeping one
/// common denominator lets every predicate over points be decided by
/// integer arithmetic alone.
///
/// Structural equality is finer than geometric equality: `(1, 1, 1)` and
/// `(2, 2, 2)` are the same point.  Contracts use `eqv`, executable code
/// `eq_val`.
#[derive(Clone, Copy, Debug)]
pub struct Point {
    pub x: i128,
    pub y: i128,
    pub w: i128,
}

/// Bound on the product of two magnitudes, the workhorse behind every
/// overflow argument in the kernel.
pub proof fn lemma_mul_bound(a: int, b: int, ba: int, bb: int)
    by (nonlinear_arith)
    requires
        -ba <= a <= ba,
        -bb <= b <= bb,
        0 <= ba,
        0 <= bb,
    ensures
        -(ba * bb) <= a * b <= ba * bb,
{
}

/// A product of positives is positive.
pub proof fn lemma_mul_pos(a: int, b: int)
    by (nonlinear_arith)
    requires
        1 <= a,
        1 <= b,
    ensures
        1 <= a * b,
{
}

impl Point {
    /// Positive denominator; coordinates negatable without overflow.
    pub open spec fn wf(self) -> bool {
        &&& 1 <= self.w
        &&& -(i128::MAX as int) <= self.x
        &&& -(i128::MAX as int) <= self.y
    }

    /// All three components bounded in magnitude by `b`.
    pub open spec fn within(self, b: int) -> bool {
        &&& -b <= self.x <= b
        &&& -b <= self.y <= b
        &&& 1 <= self.w <= b
    }

    /// The two points coincide as geometric values.
    pub open spec fn eqv(self, o: Point) -> bool {
        &&& self.x * o.w == o.x * self.w
        &&& self.y * o.w == o.y * self.w
    }

    pub fn new(x: Rat, y: Rat) -> (r: Point)
        requires
            x.wf(),
            y.wf(),
            x.within(CMP_BOUND as int),
            y.within(CMP_BOUND as int),
        ensures
            r.x == x.n * y.d,
            r.y == y.n * x.d,
            r.w == x.d * y.d,
            r.wf(),
    {
        proof {
            lemma_mul_bound(x.n as int, y.d as int, CMP_BOUND as int, CMP_BOUND as int);
            lemma_mul_bound(y.n as int, x.d as int, CMP_BOUND as int, CMP_BOUND as int);
            lemma_mul_bound(x.d as int, y.d as int, CMP_BOUND as int, CMP_BOUND as int);
            lemma_mul_pos(x.d as int, y.d as int);
        }
        Point { x: x.n * y.d, y: y.n * x.d, w: x.d * y.d }
    }

    pub fn from_int(x: i64, y: i64) -> (r: Point)
        ensures
            r.x == x,
            r.y == y,
            r.w == 1,
            r.wf(),
            r.within(0x8000_0000_0000_0000),
    {
        Point { x: x as i128, y: y as i128, w: 1 }
    }

    pub fn origin() -> (r: Point)
        ensures
            r.x == 0,
            r.y == 0,
            r.w == 1,
            r.wf(),
            r.within(1),
    {
        Point { x: 0, y: 0, w: 1 }
    }

    /// The x coordinate as a scalar value.
    pub open spec fn spec_x_rat(self) -> Rat {
        Rat { n: self.x, d: self.w }
    }

    /// The y coordinate as a scalar value.
    pub open spec fn spec_y_rat(self) -> Rat {
        Rat { n: self.y, d: self.w }
    }

    /// The x coordinate as a scalar.
    pub fn x_rat(self) -> (r: Rat)
        requires
            self.wf(),
        ensures
            r == self.spec_x_rat(),
            r.wf(),
    {
        Rat { n: self.x, d: self.w }
    }

    /// The y coordinate as a scalar.
    pub fn y_rat(self) -> (r: Rat)
        requires
            self.wf(),
        ensures
            r == self.spec_y_rat(),
            r.wf(),
    {
        Rat { n: self.y, d: self.w }
    }

    /// Geometric equality, decided by exact cross multiplication.
    pub fn eq_val(self, o: Point) -> (r: bool)
        requires
            self.wf(),
            o.wf(),
            self.within(CMP_BOUND as int),
            o.within(CMP_BOUND as int),
        ensures
            r == self.eqv(o),
    {
        proof {
            lemma_mul_bound(self.x as int, o.w as int, CMP_BOUND as int, CMP_BOUND as int);
            lemma_mul_bound(o.x as int, self.w as int, CMP_BOUND as int, CMP_BOUND as int);
            lemma_mul_bound(self.y as int, o.w as int, CMP_BOUND as int, CMP_BOUND as int);
            lemma_mul_bound(o.y as int, self.w as int, CMP_BOUND as int, CMP_BOUND as int);
        }
        self.x * o.w == o.x * self.w && self.y * o.w == o.y * self.w
    }

    /// Conditions under which the translation `self + o` is computable.
    pub open spec fn add_fits(self, o: Point) -> bool {
        &&& fits(self.x * o.w + o.x * self.w)
        &&& fits(self.y * o.w + o.y * self.w)
        &&& self.w * o.w <= i128::MAX as int
        &&& fits(self.x * o.w)
        &&& fits(o.x * self.w)
        &&& fits(self.y * o.w)
        &&& fits(o.y * self.w)
    }

    /// Componentwise vector sum.
    pub fn add(self, o: Point) -> (r: Point)
        requires
            self.wf(),
            o.wf(),
            self.add_fits(o),
        ensures
            r.x == self.x * o.w + o.x * self.w,
            r.y == self.y * o.w + o.y * self.w,
            r.w == self.w * o.w,
            r.wf(),
    {
        proof {
            lemma_mul_pos(self.w as int, o.w as int);
        }
        Point { x: self.x * o.w + o.x * self.w, y: self.y * o.w + o.y * self.w, w: self.w * o.w }
    }

    /// Conditions under which the difference `self - o` is computable.
    pub open spec fn sub_fits(self, o: Point) -> bool {
        &&& fits(self.x * o.w - o.x * self.w)
        &&& fits(self.y * o.w - o.y * self.w)
        &&& self.w * o.w <= i128::MAX as int
        &&& fits(self.x * o.w)
        &&& fits(o.x * self.w)
        &&& fits(self.y * o.w)
        &&& fits(o.y * self.w)
    }

    /// Componentwise vector difference.
    pub fn sub(self, o: Point) -> (r: Point)
        requires
            self.wf(),
            o.wf(),
            self.sub_fits(o),
        ensures
            r.x == self.x * o.w - o.x * self.w,
            r.y == self.y * o.w - o.y * self.w,
            r.w == self.w * o.w,
            r.wf(),
    {
        proof {
            lemma_mul_pos(self.w as int, o.w as int);
        }
        Point { x: self.x * o.w - o.x * self.w, y: self.y * o.w - o.y * self.w, w: self.w * o.w }
    }

    /// The midpoint of `self` and `o`.
    pub fn mid(self, o: Point) -> (r: Point)
        requires
            self.wf(),
            o.wf(),
            self.add_fits(o),
            2 * self.w * o.w <= i128::MAX as int,
        ensures
            r.x == self.x * o.w + o.x * self.w,
            r.y == self.y * o.w + o.y * self.w,
            r.w == 2 * self.w * o.w,
            r.wf(),
    {
        proof {
            lemma_mul_pos(self.w as int, o.w as int);
            assert(2 * self.w * o.w == 2 * (self.w * o.w)) by (nonlinear_arith);
        }
        Point {
            x: self.x * o.w + o.x * self.w,
            y: self.y * o.w + o.y * self.w,
            w: 2 * (self.w * o.w),
        }
    }

    /// Rotation by a quarter turn counterclockwise about the origin.
    pub fn perp(self) -> (r: Point)
        requires
            self.wf(),
        ensures
            r.x == -self.y,
            r.y == self.x,
            r.w == self.w,
            r.wf(),
    {
        Point { x: -self.y, y: self.x, w: self.w }
    }

    /// Numerator of the squared distance between the points, over the
    /// denominator `(self.w * o.w)^2`.
    pub open spec fn dist_sq_num(self, o: Point) -> int {
        let dx = self.x * o.w - o.x * self.w;
        let dy = self.y * o.w - o.y * self.w;
        dx * dx + dy * dy
    }

    /// Squared Euclidean distance between two coordinate-bounded points.
    pub fn dist_sq(self, o: Point) -> (r: Rat)
        requires
            self.wf(),
            o.wf(),
            self.within(COORD_BOUND as int),
            o.within(COORD_BOUND as int),
        ensures
            r.n == self.dist_sq_num(o),
            r.d == (self.w * o.w) * (self.w * o.w),
            r.wf(),
    {
        proof {
            lemma_coord_products(self, o);
        }
        let dx = self.x * o.w - o.x * self.w;
        let dy = self.y * o.w - o.y * self.w;
        let ww = self.w * o.w;
        Rat { n: dx * dx + dy * dy, d: ww * ww }
    }

    /// The points coincide within the tolerance `eps`, measured as
    /// Euclidean distance: `|self - o|^2 <= eps^2`, exactly.
    pub open spec fn spec_close_to(self, o: Point, eps: Rat) -> bool {
        self.dist_sq_num(o) * (eps.d * eps.d)
            <= (eps.n * eps.n) * ((self.w * o.w) * (self.w * o.w))
    }

    pub fn close_to(self, o: Point, eps: Rat) -> (r: bool)
        requires
            self.wf(),
            o.wf(),
            eps.wf(),
            self.within(COORD_BOUND as int),
            o.within(COORD_BOUND as int),
            eps.within(COORD_BOUND as int),
        ensures
            r == self.spec_close_to(o, eps),
    {
        proof {
            lemma_coord_products(self, o);
            lemma_close_to_fits(self, o, eps);
        }
        let dx = self.x * o.w - o.x * self.w;
        let dy = self.y * o.w - o.y * self.w;
        let ww = self.w * o.w;
        (dx * dx + dy * dy) * (eps.d * eps.d) <= (eps.n * eps.n) * (ww * ww)
    }
}

/// Size of the squared-distance data of two `bnd`-bounded points.
pub proof fn lemma_dist_sq_bounds(a: Point, b: Point, bnd: int)
    requires
        a.within(bnd),
        b.within(bnd),
        0 < bnd,
    ensures
        0 <= a.dist_sq_num(b) <= 8 * ((bnd * bnd) * (bnd * bnd)),
        1 <= a.w * b.w <= bnd * bnd,
        1 <= (a.w * b.w) * (a.w * b.w) <= (bnd * bnd) * (bnd * bnd),
{
    lemma_mul_bound(a.x as int, b.w as int, bnd, bnd);
    lemma_mul_bound(b.x as int, a.w as int, bnd, bnd);
    lemma_mul_bound(a.y as int, b.w as int, bnd, bnd);
    lemma_mul_bound(b.y as int, a.w as int, bnd, bnd);
    lemma_mul_bound(a.w as int, b.w as int, bnd, bnd);
    lemma_mul_pos(a.w as int, b.w as int);
    let b2 = bnd * bnd;
    let dx = a.x * b.w - b.x * a.w;
    let dy = a.y * b.w - b.y * a.w;
    lemma_mul_bound(dx, dx, 2 * b2, 2 * b2);
    lemma_mul_bound(dy, dy, 2 * b2, 2 * b2);
    assert(0 <= dx * dx && 0 <= dy * dy) by (nonlinear_arith);
    assert((2 * b2) * (2 * b2) == 4 * (b2 * b2)) by (nonlinear_arith);
    let ww = a.w * b.w;
    lemma_mul_bound(ww, ww, b2, b2);
    lemma_mul_pos(ww, ww);
}

/// Bounds on the intermediate products of squared-distance computations
/// over coordinate-bounded points.
proof fn lemma_coord_products(a: Point, b: Point)
    requires
        a.within(COORD_BOUND as int),
        b.within(COORD_BOUND as int),
    ensures
        -0x100_0000_0000 <= a.x * b.w <= 0x100_0000_0000,
        -0x100_0000_0000 <= b.x * a.w <= 0x100_0000_0000,
        -0x100_0000_0000 <= a.y * b.w <= 0x100_0000_0000,
        -0x100_0000_0000 <= b.y * a.w <= 0x100_0000_0000,
        -0x200_0000_0000 <= a.x * b.w - b.x * a.w <= 0x200_0000_0000,
        -0x200_0000_0000 <= a.y * b.w - b.y * a.w <= 0x200_0000_0000,
        1 <= a.w * b.w <= 0x100_0000_0000,
        0 <= (a.x * b.w - b.x * a.w) * (a.x * b.w - b.x * a.w) <= 0x4_0000_0000_0000_0000_0000,
        0 <= (a.y * b.w - b.y * a.w) * (a.y * b.w - b.y * a.w) <= 0x4_0000_0000_0000_0000_0000,
        fits(a.dist_sq_num(b)),
        1 <= (a.w * b.w) * (a.w * b.w) <= 0x1_0000_0000_0000_0000_0000,
        a.dist_sq_num(b) <= 0x8_0000_0000_0000_0000_0000,
        0 <= a.dist_sq_num(b),
{
    let c = COORD_BOUND as int;
    lemma_mul_bound(a.x as int, b.w as int, c, c);
    lemma_mul_bound(b.x as int, a.w as int, c, c);
    lemma_mul_bound(a.y as int, b.w as int, c, c);
    lemma_mul_bound(b.y as int, a.w as int, c, c);
    lemma_mul_pos(a.w as int, b.w as int);
    lemma_mul_bound(a.w as int, b.w as int, c, c);
    let dx = a.x * b.w - b.x * a.w;
    let dy = a.y * b.w - b.y * a.w;
    lemma_mul_bound(dx, dx, 0x200_0000_0000, 0x200_0000_0000);
    lemma_mul_bound(dy, dy, 0x200_0000_0000, 0x200_0000_0000);
    assert(0 <= dx * dx && 0 <= dy * dy) by (nonlinear_arith);
    let ww = a.w * b.w;
    lemma_mul_pos(ww, ww);
    lemma_mul_bound(ww, ww, 0x100_0000_0000, 0x100_0000_0000);
}

/// Bounds on the cross-multiplied tolerance comparison.
proof fn lemma_close_to_fits(a: Point, b: Point, eps: Rat)
    requires
        a.within(COORD_BOUND as int),
        b.within(COORD_BOUND as int),
        eps.within(COORD_BOUND as int),
    ensures
        fits(a.dist_sq_num(b) * (eps.d * eps.d)),
        fits((eps.n * eps.n) * ((a.w * b.w) * (a.w * b.w))),
        fits(eps.d * eps.d),
        fits(eps.n * eps.n),
{
    let c = COORD_BOUND as int;
    lemma_coord_products(a, b);
    lemma_mul_bound(eps.d as int, eps.d as int, c, c);
    lemma_mul_bound(eps.n as int, eps.n as int, c, c);
    lemma_mul_bound(a.dist_sq_num(b), eps.d * eps.d, 0x8_0000_0000_0000_0000_0000, 0x100_0000_0000);
    lemma_mul_bound(
        eps.n * eps.n,
        (a.w * b.w) * (a.w * b.w),
        0x100_0000_0000,
        0x1_0000_0000_0000_0000_0000,
    );
}

} // verus!
