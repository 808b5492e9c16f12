use vstd::prelude::*;

use crate::three::point::{Point3, SPACE_BOUND};
use crate::two::point::{lemma_mul_bound, lemma_mul_pos};

verus! {

/// A directed spatial segment between two distinct points.
#[derive(Clone, Copy, Debug)]
pub struct Segment3 {
    pub a: Point3,
    pub b: Point3,
}

impl Segment3 {
    pub open spec fn wf(self) -> bool {
        &&& self.a.wf()
        &&& self.b.wf()
        &&& !self.a.eqv(self.b)
    }

    pub open spec fn within(self, bnd: int) -> bool {
        &&& self.a.within(bnd)
        &&& self.b.within(bnd)
    }

    /// Direction numerators of the segment, over the common denominator
    /// `a.w * b.w`: the x component.
    pub open spec fn dir_x(self) -> int {
        self.b.x * self.a.w - self.a.x * self.b.w
    }

    pub open spec fn dir_y(self) -> int {
        self.b.y * self.a.w - self.a.y * self.b.w
    }

    pub open spec fn dir_z(self) -> int {
        self.b.z * self.a.w - self.a.z * self.b.w
    }

    /// Numerator of the clamp parameter of `p`: the dot product of the
    /// direction with the vector from `a` to `p`, cleared to the same
    /// denominator as `p.w * norm_sq(self)`, the parameter's denominator.
    pub open spec fn spec_clamp_num(self, p: Point3) -> int {
        (self.dir_x() * (p.x * self.a.w - self.a.x * p.w) + self.dir_y() * (p.y * self.a.w
            - self.a.y * p.w) + self.dir_z() * (p.z * self.a.w - self.a.z * p.w)) * self.b.w
    }

    /// The projection parameter of `p` onto the carrier line, clamped
    /// into `[0, 1]`: at or below `0` the result is `a`, at or above `1`
    /// it is `b`, and in between it is the perpendicular foot itself.
    pub open spec fn spec_clamp(self, p: Point3) -> Point3 {
        let tn = self.spec_clamp_num(p);
        let td = p.w * norm_sq(self);
        if tn <= 0 {
            self.a
        } else if tn >= td {
            self.b
        } else {
            Point3 {
                x: (self.a.x * (self.b.w * td) + self.dir_x() * tn) as i128,
                y: (self.a.y * (self.b.w * td) + self.dir_y() * tn) as i128,
                z: (self.a.z * (self.b.w * td) + self.dir_z() * tn) as i128,
                w: (self.a.w * (self.b.w * td)) as i128,
            }
        }
    }

    /// A segment from two distinct points; coincident points make no
    /// segment.
    pub fn new(a: Point3, b: Point3) -> (r: Option<Segment3>)
        requires
            a.wf(),
            b.wf(),
            a.within(crate::rat::CMP_BOUND as int),
            b.within(crate::rat::CMP_BOUND as int),
        ensures
            match r {
                Option::Some(s) => !a.eqv(b) && s == (Segment3 { a, b }) && s.wf(),
                Option::None => a.eqv(b),
            },
    {
        if a.eq_val(b) {
            Option::None
        } else {
            Option::Some(Segment3 { a, b })
        }
    }

    /// Projects `p` onto the segment's carrier line and clamps the
    /// result to the segment: the answer is the point of the segment
    /// nearest to `p`.
    pub fn clamp(&self, p: Point3) -> (r: Point3)
        requires
            self.wf(),
            self.within(SPACE_BOUND as int),
            p.wf(),
            p.within(SPACE_BOUND as int),
        ensures
            r == self.spec_clamp(p),
            r.wf(),
    {
        proof {
            lemma_clamp_products(*self, p);
        }
        let bx = self.b.x * self.a.w - self.a.x * self.b.w;
        let by = self.b.y * self.a.w - self.a.y * self.b.w;
        let bz = self.b.z * self.a.w - self.a.z * self.b.w;
        let px = p.x * self.a.w - self.a.x * p.w;
        let py = p.y * self.a.w - self.a.y * p.w;
        let pz = p.z * self.a.w - self.a.z * p.w;
        let tn = (bx * px + by * py + bz * pz) * self.b.w;
        let td = p.w * (bx * bx + by * by + bz * bz);
        if tn <= 0 {
            self.a
        } else if tn >= td {
            self.b
        } else {
            let scale = self.b.w * td;
            Point3 {
                x: self.a.x * scale + bx * tn,
                y: self.a.y * scale + by * tn,
                z: self.a.z * scale + bz * tn,
                w: self.a.w * scale,
            }
        }
    }
}

/// The squared direction norm of a segment, in cleared integer form.
pub open spec fn norm_sq(s: Segment3) -> int {
    s.dir_x() * s.dir_x() + s.dir_y() * s.dir_y() + s.dir_z() * s.dir_z()
}

/// All products of the clamp computation stay inside an `i128`, and the
/// interior point is well formed.
proof fn lemma_clamp_products(s: Segment3, p: Point3)
    requires
        s.wf(),
        s.within(SPACE_BOUND as int),
        p.wf(),
        p.within(SPACE_BOUND as int),
    ensures
        ({
            let tn = s.spec_clamp_num(p);
            let td = p.w * norm_sq(s);
            &&& -0x10_0000 <= s.b.x * s.a.w <= 0x10_0000
            &&& -0x10_0000 <= s.a.x * s.b.w <= 0x10_0000
            &&& -0x10_0000 <= s.b.y * s.a.w <= 0x10_0000
            &&& -0x10_0000 <= s.a.y * s.b.w <= 0x10_0000
            &&& -0x10_0000 <= s.b.z * s.a.w <= 0x10_0000
            &&& -0x10_0000 <= s.a.z * s.b.w <= 0x10_0000
            &&& -0x10_0000 <= p.x * s.a.w <= 0x10_0000
            &&& -0x10_0000 <= s.a.x * p.w <= 0x10_0000
            &&& -0x10_0000 <= p.y * s.a.w <= 0x10_0000
            &&& -0x10_0000 <= s.a.y * p.w <= 0x10_0000
            &&& -0x10_0000 <= p.z * s.a.w <= 0x10_0000
            &&& -0x10_0000 <= s.a.z * p.w <= 0x10_0000
            &&& -0x20_0000 <= s.dir_x() <= 0x20_0000
            &&& -0x20_0000 <= s.dir_y() <= 0x20_0000
            &&& -0x20_0000 <= s.dir_z() <= 0x20_0000
            &&& -0x20_0000 <= p.x * s.a.w - s.a.x * p.w <= 0x20_0000
            &&& -0x20_0000 <= p.y * s.a.w - s.a.y * p.w <= 0x20_0000
            &&& -0x20_0000 <= p.z * s.a.w - s.a.z * p.w <= 0x20_0000
            &&& -0x400_0000_0000 <= s.dir_x() * (p.x * s.a.w - s.a.x * p.w) <= 0x400_0000_0000
            &&& -0x400_0000_0000 <= s.dir_y() * (p.y * s.a.w - s.a.y * p.w) <= 0x400_0000_0000
            &&& -0x400_0000_0000 <= s.dir_z() * (p.z * s.a.w - s.a.z * p.w) <= 0x400_0000_0000
            &&& 0 <= s.dir_x() * s.dir_x() <= 0x400_0000_0000
            &&& 0 <= s.dir_y() * s.dir_y() <= 0x400_0000_0000
            &&& 0 <= s.dir_z() * s.dir_z() <= 0x400_0000_0000
            &&& -0x100_0000_0000_0000 <= tn <= 0x100_0000_0000_0000
            &&& 1 <= norm_sq(s) <= 0xc00_0000_0000
            &&& 1 <= td <= 0x300_0000_0000_0000
            &&& -0x100_0000_0000_0000_0000 <= s.b.w * td <= 0x100_0000_0000_0000_0000
            &&& 1 <= s.b.w * td
            &&& -0x100_0000_0000_0000_0000_0000_0000 <= s.a.x * (s.b.w * td)
                <= 0x100_0000_0000_0000_0000_0000_0000
            &&& -0x100_0000_0000_0000_0000_0000_0000 <= s.a.y * (s.b.w * td)
                <= 0x100_0000_0000_0000_0000_0000_0000
            &&& -0x100_0000_0000_0000_0000_0000_0000 <= s.a.z * (s.b.w * td)
                <= 0x100_0000_0000_0000_0000_0000_0000
            &&& 1 <= s.a.w * (s.b.w * td) <= 0x100_0000_0000_0000_0000_0000_0000
            &&& -0x40_0000_0000_0000_0000_0000 <= s.dir_x() * tn <= 0x40_0000_0000_0000_0000_0000
            &&& -0x40_0000_0000_0000_0000_0000 <= s.dir_y() * tn <= 0x40_0000_0000_0000_0000_0000
            &&& -0x40_0000_0000_0000_0000_0000 <= s.dir_z() * tn <= 0x40_0000_0000_0000_0000_0000
        }),
{
    let sb = SPACE_BOUND as int;
    lemma_mul_bound(s.b.x as int, s.a.w as int, sb, sb);
    lemma_mul_bound(s.a.x as int, s.b.w as int, sb, sb);
    lemma_mul_bound(s.b.y as int, s.a.w as int, sb, sb);
    lemma_mul_bound(s.a.y as int, s.b.w as int, sb, sb);
    lemma_mul_bound(s.b.z as int, s.a.w as int, sb, sb);
    lemma_mul_bound(s.a.z as int, s.b.w as int, sb, sb);
    lemma_mul_bound(p.x as int, s.a.w as int, sb, sb);
    lemma_mul_bound(s.a.x as int, p.w as int, sb, sb);
    lemma_mul_bound(p.y as int, s.a.w as int, sb, sb);
    lemma_mul_bound(s.a.y as int, p.w as int, sb, sb);
    lemma_mul_bound(p.z as int, s.a.w as int, sb, sb);
    lemma_mul_bound(s.a.z as int, p.w as int, sb, sb);
    let m = 0x20_0000int;
    lemma_mul_bound(s.dir_x(), p.x * s.a.w - s.a.x * p.w, m, m);
    lemma_mul_bound(s.dir_y(), p.y * s.a.w - s.a.y * p.w, m, m);
    lemma_mul_bound(s.dir_z(), p.z * s.a.w - s.a.z * p.w, m, m);
    lemma_mul_bound(
        s.dir_x() * (p.x * s.a.w - s.a.x * p.w) + s.dir_y() * (p.y * s.a.w - s.a.y * p.w)
            + s.dir_z() * (p.z * s.a.w - s.a.z * p.w),
        s.b.w as int,
        0xc00_0000_0000,
        sb,
    );
    lemma_mul_bound(s.dir_x(), s.dir_x(), m, m);
    lemma_mul_bound(s.dir_y(), s.dir_y(), m, m);
    lemma_mul_bound(s.dir_z(), s.dir_z(), m, m);
    assert(0 <= s.dir_x() * s.dir_x() && 0 <= s.dir_y() * s.dir_y() && 0 <= s.dir_z()
        * s.dir_z()) by (nonlinear_arith);
    lemma_norm_pos(s);
    lemma_mul_bound(p.w as int, norm_sq(s), sb, 0xc00_0000_0000);
    lemma_mul_pos(p.w as int, norm_sq(s));
    let td = p.w * norm_sq(s);
    lemma_mul_bound(s.b.w as int, td, sb, 0x300_0000_0000_0000);
    lemma_mul_pos(s.b.w as int, td);
    lemma_mul_bound(s.a.x as int, s.b.w * td, sb, 0x100_0000_0000_0000_0000);
    lemma_mul_bound(s.a.y as int, s.b.w * td, sb, 0x100_0000_0000_0000_0000);
    lemma_mul_bound(s.a.z as int, s.b.w * td, sb, 0x100_0000_0000_0000_0000);
    lemma_mul_bound(s.a.w as int, s.b.w * td, sb, 0x100_0000_0000_0000_0000);
    lemma_mul_pos(s.a.w as int, s.b.w * td);
    lemma_mul_bound(s.dir_x(), s.spec_clamp_num(p), m, 0x100_0000_0000_0000);
    lemma_mul_bound(s.dir_y(), s.spec_clamp_num(p), m, 0x100_0000_0000_0000);
    lemma_mul_bound(s.dir_z(), s.spec_clamp_num(p), m, 0x100_0000_0000_0000);
}

/// A nondegenerate segment's direction has positive squared norm.
proof fn lemma_norm_pos(s: Segment3)
    requires
        s.wf(),
    ensures
        1 <= norm_sq(s),
{
    assert(0 <= s.dir_x() * s.dir_x() && 0 <= s.dir_y() * s.dir_y() && 0 <= s.dir_z()
        * s.dir_z()) by (nonlinear_arith);
    if s.dir_x() != 0 {
        assert(1 <= s.dir_x() * s.dir_x()) by (nonlinear_arith)
            requires
                s.dir_x() != 0,
        ;
    } else if s.dir_y() != 0 {
        assert(1 <= s.dir_y() * s.dir_y()) by (nonlinear_arith)
            requires
                s.dir_y() != 0,
        ;
    } else {
        assert(s.dir_z() != 0);
        assert(1 <= s.dir_z() * s.dir_z()) by (nonlinear_arith)
            requires
                s.dir_z() != 0,
        ;
    }
}

/// The direction from `a` to `p` is parallel to the segment's own
/// direction: `p` lies on the carrier line.
pub open spec fn spec_collinear(s: Segment3, p: Point3) -> bool {
    let px = p.x * s.a.w - s.a.x * p.w;
    let py = p.y * s.a.w - s.a.y * p.w;
    let pz = p.z * s.a.w - s.a.z * p.w;
    &&& s.dir_y() * pz == s.dir_z() * py
    &&& s.dir_z() * px == s.dir_x() * pz
    &&& s.dir_x() * py == s.dir_y() * px
}

/// Clamp fixpoint law: a point already on the segment (collinear with
/// it and with projection parameter inside `[0, 1]`) is returned
/// unchanged; the clamp's own definition pins the complementary halves,
/// a parameter at or beyond an end coming back as that endpoint.
pub proof fn law_clamp_on_segment(s: Segment3, p: Point3)
    requires
        s.wf(),
        s.within(SPACE_BOUND as int),
        p.wf(),
        p.within(SPACE_BOUND as int),
        spec_collinear(s, p),
        0 <= s.spec_clamp_num(p) <= p.w * norm_sq(s),
    ensures
        s.spec_clamp(p).eqv(p),
{
    lemma_clamp_products(s, p);
    lemma_norm_pos(s);
    let bx = s.dir_x();
    let by = s.dir_y();
    let bz = s.dir_z();
    let px = p.x * s.a.w - s.a.x * p.w;
    let py = p.y * s.a.w - s.a.y * p.w;
    let pz = p.z * s.a.w - s.a.z * p.w;
    let dot = bx * px + by * py + bz * pz;
    let nsq = norm_sq(s);
    let tn = s.spec_clamp_num(p);
    let td = p.w * nsq;
    // collinearity turns each coordinate of the offset into the
    // direction scaled by the shared dot product
    lemma_parallel_component(px, py, pz, bx, by, bz);
    lemma_parallel_component(py, pz, px, by, bz, bx);
    lemma_parallel_component(pz, px, py, bz, bx, by);
    assert(px * nsq == bx * dot);
    assert(py * (by * by + bz * bz + bx * bx) == by * (by * py + bz * pz + bx * px));
    assert(py * nsq == by * dot) by (nonlinear_arith)
        requires
            py * (by * by + bz * bz + bx * bx) == by * (by * py + bz * pz + bx * px),
            nsq == bx * bx + by * by + bz * bz,
            dot == bx * px + by * py + bz * pz,
    ;
    assert(pz * (bz * bz + bx * bx + by * by) == bz * (bz * pz + bx * px + by * py));
    assert(pz * nsq == bz * dot) by (nonlinear_arith)
        requires
            pz * (bz * bz + bx * bx + by * by) == bz * (bz * pz + bx * px + by * py),
            nsq == bx * bx + by * by + bz * bz,
            dot == bx * px + by * py + bz * pz,
    ;
    assert(tn == dot * s.b.w);
    if tn == 0 {
        // a zero parameter of a collinear point means the offset itself
        // vanishes, so the point is the starting endpoint
        assert(dot == 0) by (nonlinear_arith)
            requires
                tn == dot * s.b.w,
                tn == 0,
                1 <= s.b.w,
        ;
        lemma_offset_zero(px, nsq, bx, dot);
        lemma_offset_zero(py, nsq, by, dot);
        lemma_offset_zero(pz, nsq, bz, dot);
        assert(s.spec_clamp(p) == s.a);
        lemma_eqv_symm_offset(s, p);
    } else if tn >= td {
        // a full parameter of a collinear point puts it at the
        // finishing endpoint
        assert(tn == td) by (nonlinear_arith)
            requires
                tn <= td,
                tn >= td,
        ;
        assert(dot * s.b.w == p.w * nsq);
        assert(px * (nsq * s.b.w) == bx * (p.w * nsq)) by (nonlinear_arith)
            requires
                px * nsq == bx * dot,
                dot * s.b.w == p.w * nsq,
        ;
        assert((px * s.b.w - bx * p.w) * nsq == 0) by (nonlinear_arith)
            requires
                px * (nsq * s.b.w) == bx * (p.w * nsq),
        ;
        lemma_factor_zero(px * s.b.w - bx * p.w, nsq);
        assert(py * (nsq * s.b.w) == by * (p.w * nsq)) by (nonlinear_arith)
            requires
                py * nsq == by * dot,
                dot * s.b.w == p.w * nsq,
        ;
        assert((py * s.b.w - by * p.w) * nsq == 0) by (nonlinear_arith)
            requires
                py * (nsq * s.b.w) == by * (p.w * nsq),
        ;
        lemma_factor_zero(py * s.b.w - by * p.w, nsq);
        assert(pz * (nsq * s.b.w) == bz * (p.w * nsq)) by (nonlinear_arith)
            requires
                pz * nsq == bz * dot,
                dot * s.b.w == p.w * nsq,
        ;
        assert((pz * s.b.w - bz * p.w) * nsq == 0) by (nonlinear_arith)
            requires
                pz * (nsq * s.b.w) == bz * (p.w * nsq),
        ;
        lemma_factor_zero(pz * s.b.w - bz * p.w, nsq);
        assert(s.spec_clamp(p) == s.b);
        lemma_eqv_at_b(s, p);
    } else {
        // an interior parameter reproduces the point exactly: the foot
        // built from it differs from `p` by a factor that the shared
        // denominator cancels
        let foot = s.spec_clamp(p);
        assert(foot.x == s.a.x * (s.b.w * td) + bx * tn && foot.y == s.a.y * (s.b.w * td) + by
            * tn && foot.z == s.a.z * (s.b.w * td) + bz * tn && foot.w == s.a.w * (s.b.w * td));
        lemma_interior_coord(s.a.x as int, s.a.w as int, p.x as int, p.w as int, s.b.w as int, px,
            bx, tn, td, dot, nsq);
        lemma_interior_coord(s.a.y as int, s.a.w as int, p.y as int, p.w as int, s.b.w as int, py,
            by, tn, td, dot, nsq);
        lemma_interior_coord(s.a.z as int, s.a.w as int, p.z as int, p.w as int, s.b.w as int, pz,
            bz, tn, td, dot, nsq);
    }
}

/// A collinear offset's first coordinate, scaled by the squared norm,
/// is the first direction coordinate scaled by the dot product.
proof fn lemma_parallel_component(px: int, py: int, pz: int, bx: int, by: int, bz: int)
    requires
        by * px == bx * py,
        bz * px == bx * pz,
    ensures
        px * (bx * bx + by * by + bz * bz) == bx * (bx * px + by * py + bz * pz),
{
    assert(px * (bx * bx + by * by + bz * bz) == px * (bx * bx) + px * (by * by) + px * (bz
        * bz)) by (nonlinear_arith);
    assert(bx * (bx * px + by * py + bz * pz) == bx * (bx * px) + bx * (by * py) + bx * (bz
        * pz)) by (nonlinear_arith);
    assert(px * (bx * bx) == bx * (bx * px)) by (nonlinear_arith);
    assert(px * (by * by) == by * (by * px)) by (nonlinear_arith);
    assert(by * (by * px) == by * (bx * py)) by (nonlinear_arith)
        requires
            by * px == bx * py,
    ;
    assert(by * (bx * py) == bx * (by * py)) by (nonlinear_arith);
    assert(px * (bz * bz) == bz * (bz * px)) by (nonlinear_arith);
    assert(bz * (bz * px) == bz * (bx * pz)) by (nonlinear_arith)
        requires
            bz * px == bx * pz,
    ;
    assert(bz * (bx * pz) == bx * (bz * pz)) by (nonlinear_arith);
}

/// A coordinate offset vanishes when its direction-scaled form does.
proof fn lemma_offset_zero(px: int, nsq: int, bx: int, dot: int)
    requires
        px * nsq == bx * dot,
        dot == 0,
        1 <= nsq,
    ensures
        px == 0,
{
    assert(bx * dot == 0) by (nonlinear_arith)
        requires
            dot == 0,
    ;
    assert(px == 0) by (nonlinear_arith)
        requires
            px * nsq == 0,
            1 <= nsq,
    ;
}

/// A product with a positive factor vanishes only with the other factor.
proof fn lemma_factor_zero(v: int, nsq: int)
    by (nonlinear_arith)
    requires
        v * nsq == 0,
        1 <= nsq,
    ensures
        v == 0,
{
}

/// A point whose offset from `a` vanishes is `a` as a value.
proof fn lemma_eqv_symm_offset(s: Segment3, p: Point3)
    requires
        p.x * s.a.w - s.a.x * p.w == 0,
        p.y * s.a.w - s.a.y * p.w == 0,
        p.z * s.a.w - s.a.z * p.w == 0,
    ensures
        s.a.eqv(p),
{
}

/// A point whose offset matches the direction at full scale is `b` as a
/// value.
proof fn lemma_eqv_at_b(s: Segment3, p: Point3)
    requires
        (p.x * s.a.w - s.a.x * p.w) * s.b.w - (s.b.x * s.a.w - s.a.x * s.b.w) * p.w == 0,
        (p.y * s.a.w - s.a.y * p.w) * s.b.w - (s.b.y * s.a.w - s.a.y * s.b.w) * p.w == 0,
        (p.z * s.a.w - s.a.z * p.w) * s.b.w - (s.b.z * s.a.w - s.a.z * s.b.w) * p.w == 0,
        1 <= s.a.w,
    ensures
        s.b.eqv(p),
{
    assert((p.x * s.a.w - s.a.x * p.w) * s.b.w - (s.b.x * s.a.w - s.a.x * s.b.w) * p.w == (p.x
        * s.b.w - s.b.x * p.w) * s.a.w) by (nonlinear_arith);
    lemma_factor_zero(p.x * s.b.w - s.b.x * p.w, s.a.w as int);
    assert((p.y * s.a.w - s.a.y * p.w) * s.b.w - (s.b.y * s.a.w - s.a.y * s.b.w) * p.w == (p.y
        * s.b.w - s.b.y * p.w) * s.a.w) by (nonlinear_arith);
    lemma_factor_zero(p.y * s.b.w - s.b.y * p.w, s.a.w as int);
    assert((p.z * s.a.w - s.a.z * p.w) * s.b.w - (s.b.z * s.a.w - s.a.z * s.b.w) * p.w == (p.z
        * s.b.w - s.b.z * p.w) * s.a.w) by (nonlinear_arith);
    lemma_factor_zero(p.z * s.b.w - s.b.z * p.w, s.a.w as int);
}

/// One coordinate of the interior foot agrees with the point's own: the
/// cross product of the foot and the point vanishes.
proof fn lemma_interior_coord(
    ax: int,
    aw: int,
    pxc: int,
    pw: int,
    bw: int,
    px: int,
    bx: int,
    tn: int,
    td: int,
    dot: int,
    nsq: int,
)
    requires
        px == pxc * aw - ax * pw,
        px * nsq == bx * dot,
        tn == dot * bw,
        td == pw * nsq,
    ensures
        (ax * (bw * td) + bx * tn) * pw == pxc * (aw * (bw * td)),
{
    assert(bx * tn == bx * (dot * bw)) by (nonlinear_arith)
        requires
            tn == dot * bw,
    ;
    assert(bx * (dot * bw) == (bx * dot) * bw) by (nonlinear_arith);
    assert((bx * dot) * bw == (px * nsq) * bw) by (nonlinear_arith)
        requires
            bx * dot == px * nsq,
    ;
    assert((ax * (bw * td) + (px * nsq) * bw) * pw == (ax * (bw * td)) * pw + ((px * nsq) * bw)
        * pw) by (nonlinear_arith);
    assert(((px * nsq) * bw) * pw == ((pxc * aw) * nsq) * (bw * pw) - ((ax * pw) * nsq) * (bw
        * pw)) by (nonlinear_arith)
        requires
            px == pxc * aw - ax * pw,
    ;
    assert((ax * (bw * td)) * pw == ((ax * pw) * nsq) * (bw * pw)) by (nonlinear_arith)
        requires
            td == pw * nsq,
    ;
    assert(pxc * (aw * (bw * td)) == ((pxc * aw) * nsq) * (bw * pw)) by (nonlinear_arith)
        requires
            td == pw * nsq,
    ;
}

} // verus!
