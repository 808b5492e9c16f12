use vstd::prelude::*;

use crate::rat::Rat;
use crate::two::line::ROUND_BOUND;
use crate::two::point::{lemma_mul_bound, lemma_mul_pos, Point, COORD_BOUND};
use crate::Orient;

verus! {

/// An ordered triple of points.
#[derive(Clone, Copy, Debug)]
pub struct Triangle(pub Point, pub Point, pub Point);

impl Triangle {
    pub open spec fn wf(self) -> bool {
        &&& self.0.wf()
        &&& self.1.wf()
        &&& self.2.wf()
    }

    pub open spec fn within(self, bnd: int) -> bool {
        &&& self.0.within(bnd)
        &&& self.1.within(bnd)
        &&& self.2.within(bnd)
    }

    /// The turning value of the ordered triple, cleared of denominators:
    /// negative when the triple turns counterclockwise, positive when it
    /// turns clockwise, zero when collinear or degenerate.
    pub open spec fn spec_turn(self) -> int {
        let p = self.0;
        let q = self.1;
        let r = self.2;
        (q.y * p.w - p.y * q.w) * (r.x * q.w - q.x * r.w) - (q.x * p.w - p.x * q.w) * (r.y * q.w
            - q.y * r.w)
    }

    /// The orientation of the triple: `Positive` for counterclockwise,
    /// `Negative` for clockwise, `Zero` for collinear.
    pub fn dir(self) -> (o: Orient)
        requires
            self.wf(),
            self.within(COORD_BOUND as int),
        ensures
            self.spec_turn() == 0 ==> o == Orient::Zero,
            self.spec_turn() > 0 ==> o == Orient::Negative,
            self.spec_turn() < 0 ==> o == Orient::Positive,
    {
        proof {
            lemma_turn_products(self);
        }
        let p = self.0;
        let q = self.1;
        let r = self.2;
        let val = (q.y * p.w - p.y * q.w) * (r.x * q.w - q.x * r.w) - (q.x * p.w - p.x * q.w) * (
        r.y * q.w - q.y * r.w);
        if val == 0 {
            Orient::Zero
        } else if val > 0 {
            Orient::Negative
        } else {
            Orient::Positive
        }
    }

    pub fn into_points(self) -> (r: (Point, Point, Point))
        requires
            self.wf(),
        ensures
            r.0 == self.0,
            r.1 == self.1,
            r.2 == self.2,
    {
        (self.0, self.1, self.2)
    }

    /// The cleared denominator of the barycentric system: zero exactly
    /// when the triangle is degenerate.
    pub open spec fn spec_bary_den(self) -> int {
        let p1 = self.0;
        let p2 = self.1;
        let p3 = self.2;
        (p2.y * p3.w - p3.y * p2.w) * (p1.x * p3.w - p3.x * p1.w) + (p3.x * p2.w - p2.x * p3.w) * (
        p1.y * p3.w - p3.y * p1.w)
    }

    /// Cleared numerator of the first barycentric coordinate of `p`, over
    /// the denominator `p.w * spec_bary_den`.
    pub open spec fn spec_bary_a(self, p: Point) -> int {
        let p1 = self.0;
        let p2 = self.1;
        let p3 = self.2;
        ((p2.y * p3.w - p3.y * p2.w) * (p.x * p3.w - p3.x * p.w) + (p3.x * p2.w - p2.x * p3.w) * (
        p.y * p3.w - p3.y * p.w)) * p1.w
    }

    /// Cleared numerator of the second barycentric coordinate of `p`.
    pub open spec fn spec_bary_b(self, p: Point) -> int {
        let p1 = self.0;
        let p2 = self.1;
        let p3 = self.2;
        ((p3.y * p1.w - p1.y * p3.w) * (p.x * p3.w - p3.x * p.w) + (p1.x * p3.w - p3.x * p1.w) * (
        p.y * p3.w - p3.y * p.w)) * p2.w
    }

    /// The barycentric coordinates of `p` in the triangle, as three exact
    /// scalars over one positive common denominator, summing to one.  A
    /// degenerate triangle has no barycentric system and yields nothing.
    pub fn bary_coor(self, p: Point) -> (r: Option<(Rat, Rat, Rat)>)
        requires
            self.wf(),
            p.wf(),
            self.within(ROUND_BOUND as int),
            p.within(ROUND_BOUND as int),
        ensures
            match r {
                Option::Some(abc) => {
                    &&& self.spec_bary_den() != 0
                    &&& abc.0.d == abc.1.d && abc.1.d == abc.2.d
                    &&& if self.spec_bary_den() > 0 {
                        abc.0.n == self.spec_bary_a(p) && abc.1.n == self.spec_bary_b(p) && abc.0.d
                            == p.w * self.spec_bary_den()
                    } else {
                        abc.0.n == -self.spec_bary_a(p) && abc.1.n == -self.spec_bary_b(p)
                            && abc.0.d == -(p.w * self.spec_bary_den())
                    }
                    &&& abc.2.n == abc.0.d - abc.0.n - abc.1.n
                    &&& abc.0.wf() && abc.1.wf() && abc.2.wf()
                },
                Option::None => self.spec_bary_den() == 0,
            },
    {
        proof {
            lemma_bary_products(self, p);
        }
        let p1 = self.0;
        let p2 = self.1;
        let p3 = self.2;
        let e1 = p2.y * p3.w - p3.y * p2.w;
        let e2 = p1.x * p3.w - p3.x * p1.w;
        let e3 = p3.x * p2.w - p2.x * p3.w;
        let e4 = p1.y * p3.w - p3.y * p1.w;
        let f1 = p.x * p3.w - p3.x * p.w;
        let f2 = p.y * p3.w - p3.y * p.w;
        let den0 = e1 * e2 + e3 * e4;
        if den0 == 0 {
            return Option::None;
        }
        let an0 = (e1 * f1 + e3 * f2) * p1.w;
        let bn0 = ((-e4) * f1 + e2 * f2) * p2.w;
        let dn0 = p.w * den0;
        proof {
            assert(dn0 != 0) by (nonlinear_arith)
                requires
                    dn0 == p.w * den0,
                    den0 != 0,
                    1 <= p.w,
            ;
            assert((-e4) * f1 == -(e4 * f1)) by (nonlinear_arith);
            assert(den0 > 0 ==> dn0 > 0) by (nonlinear_arith)
                requires
                    dn0 == p.w * den0,
                    1 <= p.w,
            ;
            assert(den0 < 0 ==> dn0 < 0) by (nonlinear_arith)
                requires
                    dn0 == p.w * den0,
                    1 <= p.w,
            ;
            assert(self.spec_bary_den() == den0);
        }
        let (an, bn, dn) = if dn0 > 0 {
            (an0, bn0, dn0)
        } else {
            (-an0, -bn0, -dn0)
        };
        let cn = dn - an - bn;
        Option::Some((Rat { n: an, d: dn }, Rat { n: bn, d: dn }, Rat { n: cn, d: dn }))
    }

    /// Membership of `p` in the closed triangle: all three barycentric
    /// coordinates lie in the unit interval.  A degenerate triangle can
    /// answer nothing.
    pub fn in_triangle(self, p: Point) -> (r: Option<bool>)
        requires
            self.wf(),
            p.wf(),
            self.within(ROUND_BOUND as int),
            p.within(ROUND_BOUND as int),
        ensures
            match r {
                Option::Some(inside) => self.spec_bary_den() != 0 && inside == {
                    let den = p.w * self.spec_bary_den();
                    let a = self.spec_bary_a(p);
                    let b = self.spec_bary_b(p);
                    if den > 0 {
                        0 <= a <= den && 0 <= b <= den && 0 <= den - a - b <= den
                    } else {
                        den <= a <= 0 && den <= b <= 0 && den <= den - a - b <= 0
                    }
                },
                Option::None => self.spec_bary_den() == 0,
            },
    {
        match self.bary_coor(p) {
            Option::None => Option::None,
            Option::Some((a, b, c)) => {
                let inside = 0 <= a.n && a.n <= a.d && 0 <= b.n && b.n <= b.d && 0 <= c.n && c.n
                    <= c.d;
                Option::Some(inside)
            },
        }
    }
}

/// Bounds for the turning-value computation.
proof fn lemma_turn_products(t: Triangle)
    requires
        t.within(COORD_BOUND as int),
    ensures
        ({
            let p = t.0;
            let q = t.1;
            let r = t.2;
            &&& -0x100_0000_0000 <= q.y * p.w <= 0x100_0000_0000
            &&& -0x100_0000_0000 <= p.y * q.w <= 0x100_0000_0000
            &&& -0x100_0000_0000 <= r.x * q.w <= 0x100_0000_0000
            &&& -0x100_0000_0000 <= q.x * r.w <= 0x100_0000_0000
            &&& -0x100_0000_0000 <= q.x * p.w <= 0x100_0000_0000
            &&& -0x100_0000_0000 <= p.x * q.w <= 0x100_0000_0000
            &&& -0x100_0000_0000 <= r.y * q.w <= 0x100_0000_0000
            &&& -0x100_0000_0000 <= q.y * r.w <= 0x100_0000_0000
            &&& -0x4_0000_0000_0000_0000_0000 <= (q.y * p.w - p.y * q.w) * (r.x * q.w - q.x * r.w)
                <= 0x4_0000_0000_0000_0000_0000
            &&& -0x4_0000_0000_0000_0000_0000 <= (q.x * p.w - p.x * q.w) * (r.y * q.w - q.y * r.w)
                <= 0x4_0000_0000_0000_0000_0000
        }),
{
    let c = COORD_BOUND as int;
    let p = t.0;
    let q = t.1;
    let r = t.2;
    lemma_mul_bound(q.y as int, p.w as int, c, c);
    lemma_mul_bound(p.y as int, q.w as int, c, c);
    lemma_mul_bound(r.x as int, q.w as int, c, c);
    lemma_mul_bound(q.x as int, r.w as int, c, c);
    lemma_mul_bound(q.x as int, p.w as int, c, c);
    lemma_mul_bound(p.x as int, q.w as int, c, c);
    lemma_mul_bound(r.y as int, q.w as int, c, c);
    lemma_mul_bound(q.y as int, r.w as int, c, c);
    lemma_mul_bound(
        q.y * p.w - p.y * q.w,
        r.x * q.w - q.x * r.w,
        0x200_0000_0000,
        0x200_0000_0000,
    );
    lemma_mul_bound(
        q.x * p.w - p.x * q.w,
        r.y * q.w - q.y * r.w,
        0x200_0000_0000,
        0x200_0000_0000,
    );
}

/// Bounds for the cleared barycentric computation: every factor of a
/// coordinate-bounded triangle stays far inside an `i128`.
proof fn lemma_bary_products(t: Triangle, p: Point)
    requires
        t.wf(),
        p.wf(),
        t.within(ROUND_BOUND as int),
        p.within(ROUND_BOUND as int),
    ensures
        ({
            let p1 = t.0;
            let p2 = t.1;
            let p3 = t.2;
            let e1 = p2.y * p3.w - p3.y * p2.w;
            let e2 = p1.x * p3.w - p3.x * p1.w;
            let e3 = p3.x * p2.w - p2.x * p3.w;
            let e4 = p1.y * p3.w - p3.y * p1.w;
            let f1 = p.x * p3.w - p3.x * p.w;
            let f2 = p.y * p3.w - p3.y * p.w;
            &&& -0x1000_0000 <= p2.y * p3.w <= 0x1000_0000
            &&& -0x1000_0000 <= p3.y * p2.w <= 0x1000_0000
            &&& -0x1000_0000 <= p1.x * p3.w <= 0x1000_0000
            &&& -0x1000_0000 <= p3.x * p1.w <= 0x1000_0000
            &&& -0x1000_0000 <= p3.x * p2.w <= 0x1000_0000
            &&& -0x1000_0000 <= p2.x * p3.w <= 0x1000_0000
            &&& -0x1000_0000 <= p1.y * p3.w <= 0x1000_0000
            &&& -0x1000_0000 <= p3.y * p1.w <= 0x1000_0000
            &&& -0x1000_0000 <= p.x * p3.w <= 0x1000_0000
            &&& -0x1000_0000 <= p3.x * p.w <= 0x1000_0000
            &&& -0x1000_0000 <= p.y * p3.w <= 0x1000_0000
            &&& -0x1000_0000 <= p3.y * p.w <= 0x1000_0000
            &&& -0x2000_0000 <= e1 <= 0x2000_0000
            &&& -0x2000_0000 <= e2 <= 0x2000_0000
            &&& -0x2000_0000 <= e3 <= 0x2000_0000
            &&& -0x2000_0000 <= e4 <= 0x2000_0000
            &&& -0x2000_0000 <= f1 <= 0x2000_0000
            &&& -0x2000_0000 <= f2 <= 0x2000_0000
            &&& -0x4_0000_0000_0000_0000 <= e1 * e2 <= 0x4_0000_0000_0000_0000
            &&& -0x4_0000_0000_0000_0000 <= e3 * e4 <= 0x4_0000_0000_0000_0000
            &&& -0x4_0000_0000_0000_0000 <= e1 * f1 <= 0x4_0000_0000_0000_0000
            &&& -0x4_0000_0000_0000_0000 <= e3 * f2 <= 0x4_0000_0000_0000_0000
            &&& -0x4_0000_0000_0000_0000 <= (-e4) * f1 <= 0x4_0000_0000_0000_0000
            &&& -0x4_0000_0000_0000_0000 <= e2 * f2 <= 0x4_0000_0000_0000_0000
            &&& -0x8_0000_0000_0000_0000 <= e1 * e2 + e3 * e4 <= 0x8_0000_0000_0000_0000
            &&& -0x8_0000_0000_0000_0000 <= e1 * f1 + e3 * f2 <= 0x8_0000_0000_0000_0000
            &&& -0x8_0000_0000_0000_0000 <= (-e4) * f1 + e2 * f2 <= 0x8_0000_0000_0000_0000
            &&& -0x2_0000_0000_0000_0000_0000 <= (e1 * f1 + e3 * f2) * p1.w
                <= 0x2_0000_0000_0000_0000_0000
            &&& -0x2_0000_0000_0000_0000_0000 <= ((-e4) * f1 + e2 * f2) * p2.w
                <= 0x2_0000_0000_0000_0000_0000
            &&& -0x2_0000_0000_0000_0000_0000 <= p.w * (e1 * e2 + e3 * e4)
                <= 0x2_0000_0000_0000_0000_0000
        }),
{
    let rb = ROUND_BOUND as int;
    let p1 = t.0;
    let p2 = t.1;
    let p3 = t.2;
    lemma_mul_bound(p2.y as int, p3.w as int, rb, rb);
    lemma_mul_bound(p3.y as int, p2.w as int, rb, rb);
    lemma_mul_bound(p1.x as int, p3.w as int, rb, rb);
    lemma_mul_bound(p3.x as int, p1.w as int, rb, rb);
    lemma_mul_bound(p3.x as int, p2.w as int, rb, rb);
    lemma_mul_bound(p2.x as int, p3.w as int, rb, rb);
    lemma_mul_bound(p1.y as int, p3.w as int, rb, rb);
    lemma_mul_bound(p3.y as int, p1.w as int, rb, rb);
    lemma_mul_bound(p.x as int, p3.w as int, rb, rb);
    lemma_mul_bound(p3.x as int, p.w as int, rb, rb);
    lemma_mul_bound(p.y as int, p3.w as int, rb, rb);
    lemma_mul_bound(p3.y as int, p.w as int, rb, rb);
    let e1 = p2.y * p3.w - p3.y * p2.w;
    let e2 = p1.x * p3.w - p3.x * p1.w;
    let e3 = p3.x * p2.w - p2.x * p3.w;
    let e4 = p1.y * p3.w - p3.y * p1.w;
    let f1 = p.x * p3.w - p3.x * p.w;
    let f2 = p.y * p3.w - p3.y * p.w;
    lemma_mul_bound(e1, e2, 0x2000_0000, 0x2000_0000);
    lemma_mul_bound(e3, e4, 0x2000_0000, 0x2000_0000);
    lemma_mul_bound(e1, f1, 0x2000_0000, 0x2000_0000);
    lemma_mul_bound(e3, f2, 0x2000_0000, 0x2000_0000);
    lemma_mul_bound(-e4, f1, 0x2000_0000, 0x2000_0000);
    lemma_mul_bound(e2, f2, 0x2000_0000, 0x2000_0000);
    lemma_mul_bound(e1 * f1 + e3 * f2, p1.w as int, 0x8_0000_0000_0000_0000, rb);
    lemma_mul_bound((-e4) * f1 + e2 * f2, p2.w as int, 0x8_0000_0000_0000_0000, rb);
    lemma_mul_bound(p.w as int, e1 * e2 + e3 * e4, rb, 0x8_0000_0000_0000_0000);
}

} // verus!
