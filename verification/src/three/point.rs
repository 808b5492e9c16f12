use vstd::prelude::*;

use crate::rat::Rat;
use crate::two::point::{lemma_mul_bound, lemma_mul_pos};

verus! {

/// Magnitude bound asked of spatial coordinates; tighter than the planar
/// one because the clamp runs three coordinates through a quotient of
/// dot products.
pub const SPACE_BOUND: i128 = 0x400;

/// A spatial point with exact rational coordinates in homogeneous form:
/// `(x / w, y / w, z / w)` with `w` positive.
#[derive(Clone, Copy, Debug)]
pub struct Point3 {
    pub x: i128,
    pub y: i128,
    pub z: i128,
    pub w: i128,
}

impl Point3 {
    pub open spec fn wf(self) -> bool {
        &&& 1 <= self.w
        &&& -(i128::MAX as int) <= self.x
        &&& -(i128::MAX as int) <= self.y
        &&& -(i128::MAX as int) <= self.z
    }

    pub open spec fn within(self, b: int) -> bool {
        &&& -b <= self.x <= b
        &&& -b <= self.y <= b
        &&& -b <= self.z <= b
        &&& 1 <= self.w <= b
    }

    /// The two points coincide as spatial values.
    pub open spec fn eqv(self, o: Point3) -> bool {
        &&& self.x * o.w == o.x * self.w
        &&& self.y * o.w == o.y * self.w
        &&& self.z * o.w == o.z * self.w
    }

    pub fn from_int(x: i64, y: i64, z: i64) -> (r: Point3)
        ensures
            r.x == x,
            r.y == y,
            r.z == z,
            r.w == 1,
            r.wf(),
    {
        Point3 { x: x as i128, y: y as i128, z: z as i128, w: 1 }
    }

    pub fn new(x: Rat, y: Rat, z: Rat) -> (r: Point3)
        requires
            x.wf(),
            y.wf(),
            z.wf(),
            x.within(0x10_0000),
            y.within(0x10_0000),
            z.within(0x10_0000),
        ensures
            r.x == x.n * y.d * z.d,
            r.y == y.n * x.d * z.d,
            r.z == z.n * x.d * y.d,
            r.w == x.d * y.d * z.d,
            r.wf(),
    {
        proof {
            let c = 0x10_0000int;
            lemma_mul_bound(x.n as int, y.d as int, c, c);
            lemma_mul_bound(y.n as int, x.d as int, c, c);
            lemma_mul_bound(z.n as int, x.d as int, c, c);
            lemma_mul_bound(x.d as int, y.d as int, c, c);
            lemma_mul_bound(x.n * y.d, z.d as int, 0x100_0000_0000, c);
            lemma_mul_bound(y.n * x.d, z.d as int, 0x100_0000_0000, c);
            lemma_mul_bound(z.n * x.d, y.d as int, 0x100_0000_0000, c);
            lemma_mul_bound(x.d * y.d, z.d as int, 0x100_0000_0000, c);
            lemma_mul_pos(x.d as int, y.d as int);
            lemma_mul_pos(x.d * y.d, z.d as int);
        }
        Point3 {
            x: x.n * y.d * z.d,
            y: y.n * x.d * z.d,
            z: z.n * x.d * y.d,
            w: x.d * y.d * z.d,
        }
    }

    pub fn origin() -> (r: Point3)
        ensures
            r.x == 0,
            r.y == 0,
            r.z == 0,
            r.w == 1,
            r.wf(),
    {
        Point3 { x: 0, y: 0, z: 0, w: 1 }
    }

    /// Spatial value equality, by exact cross multiplication.
    pub fn eq_val(self, o: Point3) -> (r: bool)
        requires
            self.wf(),
            o.wf(),
            self.within(crate::rat::CMP_BOUND as int),
            o.within(crate::rat::CMP_BOUND as int),
        ensures
            r == self.eqv(o),
    {
        proof {
            let b = crate::rat::CMP_BOUND as int;
            lemma_mul_bound(self.x as int, o.w as int, b, b);
            lemma_mul_bound(o.x as int, self.w as int, b, b);
            lemma_mul_bound(self.y as int, o.w as int, b, b);
            lemma_mul_bound(o.y as int, self.w as int, b, b);
            lemma_mul_bound(self.z as int, o.w as int, b, b);
            lemma_mul_bound(o.z as int, self.w as int, b, b);
        }
        self.x * o.w == o.x * self.w && self.y * o.w == o.y * self.w && self.z * o.w == o.z
            * self.w
    }

    /// The midpoint of `self` and `o`.
    pub fn mid(&self, o: Point3) -> (r: Point3)
        requires
            self.wf(),
            o.wf(),
            self.within(SPACE_BOUND as int),
            o.within(SPACE_BOUND as int),
        ensures
            r.x == self.x * o.w + o.x * self.w,
            r.y == self.y * o.w + o.y * self.w,
            r.z == self.z * o.w + o.z * self.w,
            r.w == 2 * (self.w * o.w),
            r.wf(),
    {
        proof {
            let b = SPACE_BOUND as int;
            lemma_mul_bound(self.x as int, o.w as int, b, b);
            lemma_mul_bound(o.x as int, self.w as int, b, b);
            lemma_mul_bound(self.y as int, o.w as int, b, b);
            lemma_mul_bound(o.y as int, self.w as int, b, b);
            lemma_mul_bound(self.z as int, o.w as int, b, b);
            lemma_mul_bound(o.z as int, self.w as int, b, b);
            lemma_mul_bound(self.w as int, o.w as int, b, b);
            lemma_mul_pos(self.w as int, o.w as int);
        }
        Point3 {
            x: self.x * o.w + o.x * self.w,
            y: self.y * o.w + o.y * self.w,
            z: self.z * o.w + o.z * self.w,
            w: 2 * (self.w * o.w),
        }
    }
}

} // verus!
