use vstd::prelude::*;

use crate::two::line::{Arc, Circle, Line, Ray, Segment, ROUND_BOUND};
use crate::two::point::{lemma_mul_bound, lemma_mul_pos, Point, COORD_BOUND};

verus! {

/// Bound accepted by the line translation, chosen so shifted coefficients
/// still fit the circle-query line bound.
pub const SHIFT_LINE_BOUND: i128 = 0x2000;

impl Point {
    /// The point translated by the vector `r`.
    pub fn shift(self, r: Point) -> (res: Point)
        requires
            self.wf(),
            r.wf(),
            self.within(COORD_BOUND as int),
            r.within(COORD_BOUND as int),
        ensures
            res.x == self.x * r.w + r.x * self.w,
            res.y == self.y * r.w + r.y * self.w,
            res.w == self.w * r.w,
            res.wf(),
    {
        proof {
            lemma_shift_fits(self, r);
        }
        self.add(r)
    }

    /// The point translated by the opposite of `r`.
    pub fn shift_subtract(self, r: Point) -> (res: Point)
        requires
            self.wf(),
            r.wf(),
            self.within(COORD_BOUND as int),
            r.within(COORD_BOUND as int),
        ensures
            res.x == self.x * r.w - r.x * self.w,
            res.y == self.y * r.w - r.y * self.w,
            res.w == self.w * r.w,
            res.wf(),
    {
        proof {
            lemma_shift_fits(self, r);
        }
        self.sub(r)
    }
}

/// Products of two coordinate-bounded points fit comfortably.
proof fn lemma_shift_fits(a: Point, b: Point)
    requires
        a.within(COORD_BOUND as int),
        b.within(COORD_BOUND as int),
    ensures
        a.add_fits(b),
        a.sub_fits(b),
{
    let c = COORD_BOUND as int;
    lemma_mul_bound(a.x as int, b.w as int, c, c);
    lemma_mul_bound(b.x as int, a.w as int, c, c);
    lemma_mul_bound(a.y as int, b.w as int, c, c);
    lemma_mul_bound(b.y as int, a.w as int, c, c);
    lemma_mul_bound(a.w as int, b.w as int, c, c);
}

impl Line {
    /// The line translated by the vector `r`: the normal is unchanged
    /// and the offset moves with the translation, all coefficients
    /// scaled by `r`'s positive denominator.
    pub fn shift(&self, r: Point) -> (res: Line)
        requires
            self.within(SHIFT_LINE_BOUND as int),
            r.wf(),
            r.within(ROUND_BOUND as int),
        ensures
            res.a == self.a * r.w,
            res.b == self.b * r.w,
            res.c == self.c * r.w + (self.a * r.x + self.b * r.y),
            res.wf(),
            res.within(crate::two::intersect::ROUND_LINE_BOUND as int),
    {
        proof {
            let sb = SHIFT_LINE_BOUND as int;
            let rb = ROUND_BOUND as int;
            lemma_mul_bound(self.a as int, r.w as int, sb, rb);
            lemma_mul_bound(self.b as int, r.w as int, sb, rb);
            lemma_mul_bound(self.c as int, r.w as int, sb, rb);
            lemma_mul_bound(self.a as int, r.x as int, sb, rb);
            lemma_mul_bound(self.b as int, r.y as int, sb, rb);
        }
        Line {
            a: self.a * r.w,
            b: self.b * r.w,
            c: self.c * r.w + (self.a * r.x + self.b * r.y),
        }
    }

    /// The line translated by the opposite of `r`.
    pub fn shift_subtract(&self, r: Point) -> (res: Line)
        requires
            self.within(SHIFT_LINE_BOUND as int),
            r.wf(),
            r.within(ROUND_BOUND as int),
        ensures
            res.a == self.a * r.w,
            res.b == self.b * r.w,
            res.c == self.c * r.w - (self.a * r.x + self.b * r.y),
            res.wf(),
            res.within(crate::two::intersect::ROUND_LINE_BOUND as int),
    {
        proof {
            let sb = SHIFT_LINE_BOUND as int;
            let rb = ROUND_BOUND as int;
            lemma_mul_bound(self.a as int, r.w as int, sb, rb);
            lemma_mul_bound(self.b as int, r.w as int, sb, rb);
            lemma_mul_bound(self.c as int, r.w as int, sb, rb);
            lemma_mul_bound(self.a as int, r.x as int, sb, rb);
            lemma_mul_bound(self.b as int, r.y as int, sb, rb);
        }
        Line {
            a: self.a * r.w,
            b: self.b * r.w,
            c: self.c * r.w - (self.a * r.x + self.b * r.y),
        }
    }
}

impl Segment {
    /// The segment translated by the vector `r`: both endpoints move.
    pub fn shift(&self, r: Point) -> (res: Segment)
        requires
            self.wf(),
            r.wf(),
            self.within(COORD_BOUND as int),
            r.within(COORD_BOUND as int),
        ensures
            res.p == self.p.spec_shift(r),
            res.q == self.q.spec_shift(r),
            res.wf(),
    {
        Segment::new(self.p.shift(r), self.q.shift(r))
    }
}

impl Point {
    /// The translated point, as a value.
    pub open spec fn spec_shift(self, r: Point) -> Point {
        Point {
            x: (self.x * r.w + r.x * self.w) as i128,
            y: (self.y * r.w + r.y * self.w) as i128,
            w: (self.w * r.w) as i128,
        }
    }
}

impl Ray {
    /// The ray translated by the vector `r`: the origin moves, the
    /// direction is unchanged.
    pub fn shift(&self, r: Point) -> (res: Ray)
        requires
            self.wf(),
            r.wf(),
            self.within(COORD_BOUND as int),
            r.within(COORD_BOUND as int),
        ensures
            res.init == self.init.spec_shift(r),
            res.dir == self.dir,
            res.wf(),
    {
        Ray::new(self.init.shift(r), self.dir)
    }
}

impl Circle {
    /// The circle translated by the vector `r`: the center moves, the
    /// radius is unchanged.
    pub fn shift(&self, r: Point) -> (res: Circle)
        requires
            self.wf(),
            r.wf(),
            self.within(COORD_BOUND as int),
            r.within(COORD_BOUND as int),
        ensures
            res.center == self.center.spec_shift(r),
            res.radius == self.radius,
            res.wf(),
    {
        Circle::new(self.center.shift(r), self.radius)
    }
}

impl Arc {
    /// The arc translated by the vector `r`: center and endpoints all
    /// move, so the endpoints stay exactly on the moved circle.
    pub fn shift(&self, r: Point) -> (res: Arc)
        requires
            self.wf(),
            r.wf(),
            self.within(ROUND_BOUND as int),
            r.within(ROUND_BOUND as int),
        ensures
            res.center == self.center.spec_shift(r),
            res.p == self.p.spec_shift(r),
            res.q == self.q.spec_shift(r),
            res.radius == self.radius,
            res.ccw == self.ccw,
            res.wf(),
    {
        proof {
            lemma_shift_on_circle(self.to_circle_spec(), self.p, r);
            lemma_shift_on_circle(self.to_circle_spec(), self.q, r);
            lemma_shift_off_center(*self, self.p, r);
            lemma_shift_off_center(*self, self.q, r);
        }
        Arc::new(
            self.center.shift(r),
            self.radius,
            self.p.shift(r),
            self.q.shift(r),
            self.ccw,
        )
    }
}

/// Translating both points of a difference scales the cross-multiplied
/// difference by the square of the translation denominator.
proof fn lemma_shift_cross(px: int, rx: int, pw: int, cx: int, cw: int, rw: int)
    ensures
        (px * rw + rx * pw) * (cw * rw) - (cx * rw + rx * cw) * (pw * rw) == (rw * rw) * (px * cw
            - cx * pw),
{
    assert((px * rw + rx * pw) * (cw * rw) == (px * rw) * (cw * rw) + (rx * pw) * (cw * rw))
        by (nonlinear_arith);
    assert((cx * rw + rx * cw) * (pw * rw) == (cx * rw) * (pw * rw) + (rx * cw) * (pw * rw))
        by (nonlinear_arith);
    assert((px * rw) * (cw * rw) == (rw * rw) * (px * cw)) by (nonlinear_arith);
    assert((cx * rw) * (pw * rw) == (rw * rw) * (cx * pw)) by (nonlinear_arith);
    assert((rx * pw) * (cw * rw) == (rx * cw) * (pw * rw)) by (nonlinear_arith);
    assert((rw * rw) * (px * cw) - (rw * rw) * (cx * pw) == (rw * rw) * (px * cw - cx * pw))
        by (nonlinear_arith);
}

/// Scaling both legs of a squared sum scales it by the square.
proof fn lemma_sq_scale(s: int, dx: int, dy: int)
    by (nonlinear_arith)
    ensures
        (s * dx) * (s * dx) + (s * dy) * (s * dy) == (s * s) * (dx * dx + dy * dy),
{
}

/// Denominator products regroup under translation.
proof fn lemma_prod_swap(pw: int, cw: int, rw: int)
    by (nonlinear_arith)
    ensures
        (pw * rw) * (cw * rw) == (rw * rw) * (pw * cw),
{
}

/// A square of a product is the product of squares.
proof fn lemma_sq_of_prod(s: int, t: int)
    by (nonlinear_arith)
    ensures
        (s * t) * (s * t) == (s * s) * (t * t),
{
}

/// A cross-multiplied equation scales by any common factor.
proof fn lemma_scale_eq(k: int, num: int, rd2: int, rn2: int, den: int)
    by (nonlinear_arith)
    requires
        num * rd2 == rn2 * den,
    ensures
        (k * num) * rd2 == rn2 * (k * den),
{
}

/// A positive multiple of a nonzero value is nonzero.
proof fn lemma_nonzero_scale(s: int, d: int)
    by (nonlinear_arith)
    requires
        1 <= s,
        d != 0,
    ensures
        s * d != 0,
{
}

/// Translation preserves incidence with a circle: the shifted point lies
/// on the shifted circle exactly when the unshifted point lay on the
/// unshifted circle.
proof fn lemma_shift_on_circle(ci: Circle, p: Point, r: Point)
    requires
        ci.wf(),
        p.wf(),
        r.wf(),
        ci.within(ROUND_BOUND as int),
        p.within(ROUND_BOUND as int),
        r.within(ROUND_BOUND as int),
        ci.spec_on_circle(p),
    ensures
        (Circle { center: ci.center.spec_shift(r), radius: ci.radius }).spec_on_circle(
            p.spec_shift(r),
        ),
{
    let c = ci.center;
    let rb = ROUND_BOUND as int;
    lemma_mul_bound(p.x as int, r.w as int, rb, rb);
    lemma_mul_bound(r.x as int, p.w as int, rb, rb);
    lemma_mul_bound(p.y as int, r.w as int, rb, rb);
    lemma_mul_bound(r.y as int, p.w as int, rb, rb);
    lemma_mul_bound(p.w as int, r.w as int, rb, rb);
    lemma_mul_pos(p.w as int, r.w as int);
    lemma_mul_bound(c.x as int, r.w as int, rb, rb);
    lemma_mul_bound(r.x as int, c.w as int, rb, rb);
    lemma_mul_bound(c.y as int, r.w as int, rb, rb);
    lemma_mul_bound(r.y as int, c.w as int, rb, rb);
    lemma_mul_bound(c.w as int, r.w as int, rb, rb);
    lemma_mul_pos(c.w as int, r.w as int);
    let px = p.x as int;
    let py = p.y as int;
    let pw = p.w as int;
    let cx = c.x as int;
    let cy = c.y as int;
    let cw = c.w as int;
    let rx = r.x as int;
    let ry = r.y as int;
    let rw = r.w as int;
    let ps = p.spec_shift(r);
    let cs = c.spec_shift(r);
    assert(ps.x == px * rw + rx * pw && ps.y == py * rw + ry * pw && ps.w == pw * rw);
    assert(cs.x == cx * rw + rx * cw && cs.y == cy * rw + ry * cw && cs.w == cw * rw);
    let s = rw * rw;
    let dx = px * cw - cx * pw;
    let dy = py * cw - cy * pw;
    lemma_shift_cross(px, rx, pw, cx, cw, rw);
    lemma_shift_cross(py, ry, pw, cy, cw, rw);
    assert(ps.x * cs.w - cs.x * ps.w == s * dx);
    assert(ps.y * cs.w - cs.y * ps.w == s * dy);
    lemma_sq_scale(s, dx, dy);
    assert(ps.dist_sq_num(cs) == (s * s) * p.dist_sq_num(c));
    let t = pw * cw;
    lemma_prod_swap(pw, cw, rw);
    assert(ps.w * cs.w == s * t);
    lemma_sq_of_prod(s, t);
    assert((ps.w * cs.w) * (ps.w * cs.w) == (s * s) * ((p.w * c.w) * (p.w * c.w)));
    let num = p.dist_sq_num(c);
    let den = (p.w * c.w) * (p.w * c.w);
    let rn2 = ci.radius.n * ci.radius.n;
    let rd2 = ci.radius.d * ci.radius.d;
    let k = s * s;
    assert(num * rd2 == rn2 * den);
    lemma_scale_eq(k, num, rd2, rn2, den);
}

/// Translation preserves distinctness from the center.
proof fn lemma_shift_off_center(a: Arc, p: Point, r: Point)
    requires
        a.wf(),
        p.wf(),
        r.wf(),
        a.within(ROUND_BOUND as int),
        p.within(ROUND_BOUND as int),
        r.within(ROUND_BOUND as int),
        !p.eqv(a.center),
    ensures
        !p.spec_shift(r).eqv(a.center.spec_shift(r)),
{
    let c = a.center;
    let rb = ROUND_BOUND as int;
    lemma_mul_bound(p.x as int, r.w as int, rb, rb);
    lemma_mul_bound(r.x as int, p.w as int, rb, rb);
    lemma_mul_bound(p.y as int, r.w as int, rb, rb);
    lemma_mul_bound(r.y as int, p.w as int, rb, rb);
    lemma_mul_bound(p.w as int, r.w as int, rb, rb);
    lemma_mul_bound(c.x as int, r.w as int, rb, rb);
    lemma_mul_bound(r.x as int, c.w as int, rb, rb);
    lemma_mul_bound(c.y as int, r.w as int, rb, rb);
    lemma_mul_bound(r.y as int, c.w as int, rb, rb);
    lemma_mul_bound(c.w as int, r.w as int, rb, rb);
    let px = p.x as int;
    let py = p.y as int;
    let pw = p.w as int;
    let cx = c.x as int;
    let cy = c.y as int;
    let cw = c.w as int;
    let rx = r.x as int;
    let ry = r.y as int;
    let rw = r.w as int;
    let ps = p.spec_shift(r);
    let cs = c.spec_shift(r);
    let s = rw * rw;
    let dx = px * cw - cx * pw;
    let dy = py * cw - cy * pw;
    lemma_shift_cross(px, rx, pw, cx, cw, rw);
    lemma_shift_cross(py, ry, pw, cy, cw, rw);
    assert(ps.x * cs.w - cs.x * ps.w == s * dx);
    assert(ps.y * cs.w - cs.y * ps.w == s * dy);
    lemma_mul_pos(rw, rw);
    if dx != 0 {
        lemma_nonzero_scale(s, dx);
    } else {
        assert(dy != 0);
        lemma_nonzero_scale(s, dy);
    }
}

} // verus!
