use vstd::prelude::*;

use crate::two::boundary::{spec_all_supported, spec_cross_parity, Edge};
use crate::two::intersect::{Count, PointPred};
use crate::two::line::{Line, Ray, Segment, LINE_BOUND, ROUND_BOUND};
use crate::two::point::{lemma_mul_bound, lemma_mul_pos, Point};

verus! {

/// Consistency of the counting and the point-producing queries: for a
/// pair of lines that is not coincident, the count that `intersects`
/// reports is exactly the cardinality of what `intersects_at` returns.
/// Coincident lines are the one exception by design: they meet in a
/// whole family, which the count reports as `Inf` while no finite list
/// of points can carry it.
pub proof fn law_line_count_consistency(l1: Line, l2: Line)
    requires
        !(l1.spec_disc(l2) == 0 && l1.spec_proportional(l2)),
    ensures
        l1.spec_count(l2) == Count::spec_from_len(l1.spec_inter(l2).len() as int),
{
    if l1.spec_disc(l2) != 0 {
        assert(l1.spec_inter(l2).len() == 1);
    } else {
        assert(l1.spec_inter(l2).len() == 0);
    }
}

/// Symmetry of the line-line intersection: both the count and the point
/// set are the same whichever line is asked.  Restrictions of lines
/// (segments and rays) inherit the property, their mixed queries being
/// defined by delegation to the one shared computation.
pub proof fn law_line_symmetry(l1: Line, l2: Line)
    ensures
        l1.spec_count(l2) == l2.spec_count(l1),
        l1.spec_inter(l2) =~= l2.spec_inter(l1),
{
    assert(l1.spec_disc(l2) == -l2.spec_disc(l1));
    if l1.spec_proportional(l2) || l2.spec_proportional(l1) {
        assert(l1.spec_proportional(l2) == l2.spec_proportional(l1));
    }
    if l1.spec_disc(l2) != 0 {
        let p12 = l1.spec_cramer(l2);
        let p21 = l2.spec_cramer(l1);
        assert(l1.c * l2.b - l2.c * l1.b == -(l2.c * l1.b - l1.c * l2.b));
        assert(l1.a * l2.c - l2.a * l1.c == -(l2.a * l1.c - l1.a * l2.c));
        assert(p12 == p21);
    }
}

/// Two membership filters commute on an intersection list of at most one
/// point, the only lists straight-line pairs produce.
proof fn lemma_two_filter_commute(s: Seq<Point>, f: spec_fn(Point) -> bool, g: spec_fn(
    Point,
) -> bool)
    requires
        s.len() <= 1,
    ensures
        s.filter(f).filter(g) =~= s.filter(g).filter(f),
{
    reveal_with_fuel(Seq::filter, 3);
    if s.len() == 0 {
        assert(s.filter(f) =~= Seq::<Point>::empty());
        assert(s.filter(g) =~= Seq::<Point>::empty());
    } else {
        let p = s.last();
        assert(s.drop_last() =~= Seq::<Point>::empty());
        if f(p) && g(p) {
            assert(s.filter(f) =~= s);
            assert(s.filter(g) =~= s);
        } else {
            assert(s.filter(f).filter(g) =~= Seq::<Point>::empty());
            assert(s.filter(g).filter(f) =~= Seq::<Point>::empty());
        }
    }
}

/// Symmetry of the segment-segment intersection: the same points come
/// out whichever segment is asked, the shared carrier-line crossing
/// being restricted by both bounding boxes in either order.
pub proof fn law_segment_symmetry(s1: Segment, s2: Segment)
    ensures
        s1.spec_inter_pair(s2) =~= s2.spec_inter_pair(s1),
{
    let l1 = s1.spec_to_line();
    let l2 = s2.spec_to_line();
    law_line_symmetry(l1, l2);
    assert(l1.spec_inter(l2) == l2.spec_inter(l1));
    assert(l1.spec_inter(l2).len() <= 1);
    lemma_two_filter_commute(
        l1.spec_inter(l2),
        crate::two::intersect::PointPred::InSegmentBox(s2).spec_as_fn(),
        crate::two::intersect::PointPred::InSegmentBox(s1).spec_as_fn(),
    );
}

/// Symmetry of the ray-ray intersection, in the same way.
pub proof fn law_ray_symmetry(r1: crate::two::line::Ray, r2: crate::two::line::Ray)
    ensures
        r2.spec_inter_line(r1.spec_to_line()).filter(
            crate::two::intersect::PointPred::ForwardOf(r1).spec_as_fn(),
        ) =~= r1.spec_inter_line(r2.spec_to_line()).filter(
            crate::two::intersect::PointPred::ForwardOf(r2).spec_as_fn(),
        ),
{
    let l1 = r1.spec_to_line();
    let l2 = r2.spec_to_line();
    law_line_symmetry(l1, l2);
    assert(l1.spec_inter(l2) == l2.spec_inter(l1));
    assert(l1.spec_inter(l2).len() <= 1);
    lemma_two_filter_commute(
        l1.spec_inter(l2),
        crate::two::intersect::PointPred::ForwardOf(r2).spec_as_fn(),
        crate::two::intersect::PointPred::ForwardOf(r1).spec_as_fn(),
    );
}


/// Filtering with pointwise-equal predicates gives the same list, on the
/// at-most-one-point lists line pairs produce.
proof fn lemma_filter_pointwise(s: Seq<Point>, f: spec_fn(Point) -> bool, g: spec_fn(
    Point,
) -> bool)
    requires
        s.len() <= 1,
        s.len() == 1 ==> f(s[0]) == g(s[0]),
    ensures
        s.filter(f) =~= s.filter(g),
{
    reveal_with_fuel(Seq::filter, 2);
    if s.len() == 0 {
        assert(s.filter(f) =~= Seq::<Point>::empty());
        assert(s.filter(g) =~= Seq::<Point>::empty());
    } else {
        assert(s.drop_last() =~= Seq::<Point>::empty());
        assert(s.last() == s[0]);
    }
}

/// A product with a negated factor is the negated product.
proof fn lemma_mul_neg(a: int, b: int)
    by (nonlinear_arith)
    ensures
        a * (-b) == -(a * b),
        (-b) * a == -(b * a),
{
}

/// Negating all three coefficients leaves a line's intersections with any
/// other bounded line unchanged: the discriminant and the crossing point
/// both flip sign, and the sign normalization cancels the flip.
proof fn lemma_negated_line_inter(l: Line, m: Line, mn: Line)
    requires
        l.within(LINE_BOUND as int),
        m.within(LINE_BOUND as int),
        mn.a == -m.a,
        mn.b == -m.b,
        mn.c == -m.c,
    ensures
        l.spec_inter(mn) =~= l.spec_inter(m),
        l.spec_inter(mn).len() == l.spec_inter(m).len(),
{
    let lb = LINE_BOUND as int;
    lemma_mul_bound(l.a as int, m.b as int, lb, lb);
    lemma_mul_bound(m.a as int, l.b as int, lb, lb);
    lemma_mul_bound(l.c as int, m.b as int, lb, lb);
    lemma_mul_bound(m.c as int, l.b as int, lb, lb);
    lemma_mul_bound(l.a as int, m.c as int, lb, lb);
    lemma_mul_bound(m.a as int, l.c as int, lb, lb);
    lemma_mul_bound(l.a as int, mn.b as int, lb, lb);
    lemma_mul_bound(mn.a as int, l.b as int, lb, lb);
    lemma_mul_bound(l.c as int, mn.b as int, lb, lb);
    lemma_mul_bound(mn.c as int, l.b as int, lb, lb);
    lemma_mul_bound(l.a as int, mn.c as int, lb, lb);
    lemma_mul_bound(mn.a as int, l.c as int, lb, lb);
    lemma_mul_neg(l.a as int, m.b as int);
    lemma_mul_neg(l.b as int, m.a as int);
    lemma_mul_neg(l.c as int, m.b as int);
    lemma_mul_neg(l.b as int, m.c as int);
    lemma_mul_neg(l.a as int, m.c as int);
    lemma_mul_neg(l.c as int, m.a as int);
    assert(l.a * mn.b == -(l.a * m.b) && mn.a * l.b == -(m.a * l.b));
    assert(l.spec_disc(mn) == -l.spec_disc(m));
    if l.spec_disc(m) != 0 {
        assert(l.c * mn.b == -(l.c * m.b) && mn.c * l.b == -(m.c * l.b));
        assert(l.a * mn.c == -(l.a * m.c) && mn.a * l.c == -(m.a * l.c));
        assert(l.c * mn.b - mn.c * l.b == -(l.c * m.b - m.c * l.b));
        assert(l.a * mn.c - mn.a * l.c == -(l.a * m.c - m.a * l.c));
        assert(l.spec_cramer(mn) == l.spec_cramer(m));
    }
}

/// One reversed edge crosses a ray exactly as often as the edge itself:
/// a reversed segment shares the carrier line (with negated coefficients)
/// and the symmetric bounding box, and a reversed arc shares its circle.
proof fn lemma_cross_odd_reverse(e: Edge, ray: Ray)
    requires
        e.wf(),
        e.within(ROUND_BOUND as int),
        ray.wf(),
        ray.within(ROUND_BOUND as int),
    ensures
        e.spec_reverse().spec_cross_odd(ray) == e.spec_cross_odd(ray),
        e.spec_reverse().spec_supported() == e.spec_supported(),
{
    match e {
        Edge::Arc(_) => {
        },
        Edge::Segment(sg) => {
            let rb = ROUND_BOUND as int;
            lemma_mul_bound(sg.q.y as int, sg.p.w as int, rb, rb);
            lemma_mul_bound(sg.p.y as int, sg.q.w as int, rb, rb);
            lemma_mul_bound(sg.p.x as int, sg.q.w as int, rb, rb);
            lemma_mul_bound(sg.q.x as int, sg.p.w as int, rb, rb);
            lemma_mul_bound(sg.p.x as int, sg.q.y as int, rb, rb);
            lemma_mul_bound(sg.q.x as int, sg.p.y as int, rb, rb);
            lemma_mul_bound(-(ray.dir.y as int), ray.init.w as int, rb, rb);
            lemma_mul_bound(ray.dir.x as int, ray.init.w as int, rb, rb);
            lemma_mul_bound(-(ray.dir.y as int), ray.init.x as int, rb, rb);
            lemma_mul_bound(ray.dir.x as int, ray.init.y as int, rb, rb);
            let sr = Segment { p: sg.q, q: sg.p };
            assert(e.spec_reverse() == Edge::Segment(sr));
            let rl = ray.spec_to_line();
            assert(rl.within(LINE_BOUND as int));
            let ml = sg.spec_to_line();
            let mr = sr.spec_to_line();
            assert(ml.within(LINE_BOUND as int));
            assert(mr.a == -ml.a && mr.b == -ml.b && mr.c == -ml.c);
            lemma_negated_line_inter(rl, ml, mr);
            let raw = rl.spec_inter(ml);
            assert(rl.spec_inter(mr) == raw);
            assert(raw.len() <= 1);
            lemma_filter_pointwise(
                raw,
                PointPred::InSegmentBox(sr).spec_as_fn(),
                PointPred::InSegmentBox(sg).spec_as_fn(),
            );
            assert(sr.spec_inter_line(rl) == sg.spec_inter_line(rl));
        },
    }
}

/// The crossing parity of a nonempty chain splits off its first edge.
proof fn lemma_parity_front(edges: Seq<Edge>, ray: Ray)
    requires
        edges.len() >= 1,
    ensures
        spec_cross_parity(edges, ray) == (spec_cross_parity(edges.subrange(1, edges.len() as int), ray)
            != edges[0].spec_cross_odd(ray)),
    decreases edges.len(),
{
    if edges.len() == 1 {
        assert(edges.drop_last() =~= Seq::<Edge>::empty());
        assert(edges.subrange(1, 1) =~= Seq::<Edge>::empty());
    } else {
        let front = edges.drop_last();
        lemma_parity_front(front, ray);
        assert(front.subrange(1, front.len() as int) =~= edges.subrange(
            1,
            edges.len() as int,
        ).drop_last());
        assert(edges.subrange(1, edges.len() as int).last() == edges.last());
        assert(front[0] == edges[0]);
    }
}

/// Containment is independent of the boundary's orientation: walking the
/// edges in the opposite order, each reversed, leaves both the set of
/// exactly answerable probes and every crossing parity unchanged, so the
/// even-odd rule gives the same inside set before and after a reversal.
pub proof fn law_containment_orientation_independent(edges: Seq<Edge>, rev: Seq<Edge>, ray: Ray)
    requires
        ray.wf(),
        ray.within(ROUND_BOUND as int),
        forall|i: int|
            0 <= i < edges.len() ==> (#[trigger] edges[i]).wf() && edges[i].within(
                ROUND_BOUND as int,
            ),
        rev.len() == edges.len(),
        forall|i: int|
            0 <= i < rev.len() ==> #[trigger] rev[i] == edges[edges.len() - 1 - i].spec_reverse(),
    ensures
        spec_cross_parity(rev, ray) == spec_cross_parity(edges, ray),
        spec_all_supported(rev) == spec_all_supported(edges),
    decreases edges.len(),
{
    assert forall|i: int| 0 <= i < edges.len() implies (#[trigger] edges[
        i
    ].spec_reverse().spec_supported()) == edges[i].spec_supported() by {
        lemma_cross_odd_reverse(edges[i], ray);
    }
    if spec_all_supported(edges) {
        assert forall|i: int| 0 <= i < rev.len() implies (#[trigger] rev[i]).spec_supported() by {
            assert(rev[i] == edges[edges.len() - 1 - i].spec_reverse());
        }
    }
    if spec_all_supported(rev) {
        assert forall|i: int| 0 <= i < edges.len() implies (#[trigger] edges[
            i
        ]).spec_supported() by {
            assert(rev[edges.len() - 1 - i] == edges[i].spec_reverse());
        }
    }
    if edges.len() == 0 {
        assert(rev =~= Seq::<Edge>::empty());
        assert(edges =~= Seq::<Edge>::empty());
    } else {
        let n = edges.len() as int;
        let tail = edges.subrange(1, n);
        let rev_front = rev.drop_last();
        assert(rev.last() == edges[0].spec_reverse());
        assert forall|i: int| 0 <= i < rev_front.len() implies #[trigger] rev_front[i]
            == tail[tail.len() - 1 - i].spec_reverse() by {
            assert(rev_front[i] == rev[i]);
            assert(rev[i] == edges[n - 1 - i].spec_reverse());
            assert(tail[tail.len() - 1 - i] == edges[n - 1 - i]);
        }
        assert(forall|i: int|
            0 <= i < tail.len() ==> (#[trigger] tail[i]).wf() && tail[i].within(
                ROUND_BOUND as int,
            ));
        law_containment_orientation_independent(tail, rev_front, ray);
        lemma_cross_odd_reverse(edges[0], ray);
        lemma_parity_front(edges, ray);
        assert(spec_cross_parity(rev, ray) == (spec_cross_parity(rev_front, ray)
            != rev.last().spec_cross_odd(ray)));
    }
}

/// The two-argument Cauchy-Schwarz inequality over the integers: the
/// square of a dot product never exceeds the product of squared norms.
proof fn lemma_cauchy_schwarz(a: int, b: int, u: int, v: int)
    ensures
        (a * u + b * v) * (a * u + b * v) <= (u * u + v * v) * (a * a + b * b),
{
    assert((a * u + b * v) * (a * u + b * v) == (a * u) * (a * u) + 2 * ((a * u) * (b * v)) + (b
        * v) * (b * v)) by (nonlinear_arith);
    assert((a * v - b * u) * (a * v - b * u) == (a * v) * (a * v) - 2 * ((a * v) * (b * u)) + (b
        * u) * (b * u)) by (nonlinear_arith);
    assert((a * u) * (b * v) == (a * v) * (b * u)) by (nonlinear_arith);
    assert((u * u + v * v) * (a * a + b * b) == (u * u) * (a * a) + (u * u) * (b * b) + (v * v) * (
    a * a) + (v * v) * (b * b)) by (nonlinear_arith);
    assert((a * u) * (a * u) == (u * u) * (a * a)) by (nonlinear_arith);
    assert((b * v) * (b * v) == (v * v) * (b * b)) by (nonlinear_arith);
    assert((a * v) * (a * v) == (v * v) * (a * a)) by (nonlinear_arith);
    assert((b * u) * (b * u) == (u * u) * (b * b)) by (nonlinear_arith);
    assert(0 <= (a * v - b * u) * (a * v - b * u)) by (nonlinear_arith);
}

/// The residue of `p` against the line, scaled by an incident point's
/// denominator, is the dot product of the normal with the difference
/// vector.
proof fn lemma_residue_as_dot(l: Line, p: Point, t: Point)
    requires
        l.spec_on_line(t),
    ensures
        l.spec_residue(p) * t.w == l.a * (p.x * t.w - t.x * p.w) + l.b * (p.y * t.w - t.y * p.w),
{
    assert((l.a * p.x + l.b * p.y - l.c * p.w) * t.w == (l.a * p.x) * t.w + (l.b * p.y) * t.w - (
    l.c * p.w) * t.w) by (nonlinear_arith);
    assert((l.a * p.x) * t.w == l.a * (p.x * t.w)) by (nonlinear_arith);
    assert((l.b * p.y) * t.w == l.b * (p.y * t.w)) by (nonlinear_arith);
    assert((l.c * p.w) * t.w == (l.c * t.w) * p.w) by (nonlinear_arith);
    assert((l.c * t.w) * p.w == (l.a * t.x + l.b * t.y) * p.w) by (nonlinear_arith)
        requires
            l.c * t.w == l.a * t.x + l.b * t.y,
    ;
    assert((l.a * t.x + l.b * t.y) * p.w == l.a * (t.x * p.w) + l.b * (t.y * p.w))
        by (nonlinear_arith);
    assert(l.a * (p.x * t.w) - l.a * (t.x * p.w) == l.a * (p.x * t.w - t.x * p.w))
        by (nonlinear_arith);
    assert(l.b * (p.y * t.w) - l.b * (t.y * p.w) == l.b * (p.y * t.w - t.y * p.w))
        by (nonlinear_arith);
}

/// Multiplying both sides of an inequality by a nonnegative factor.
proof fn lemma_mul_le_mono(x: int, y: int, k: int)
    by (nonlinear_arith)
    requires
        x <= y,
        0 <= k,
    ensures
        x * k <= y * k,
{
}

/// The squared distance from a point to a line is at most the squared
/// distance to any point incident to the line: the perpendicular foot is
/// the closest.  Stated over the exact rational values.
proof fn lemma_line_dist_le_incident(l: Line, p: Point, t: Point)
    requires
        p.wf(),
        t.wf(),
        l.spec_on_line(t),
        !(l.a == 0 && l.b == 0),
        l.within(0x2000_0000),
        p.within(ROUND_BOUND as int),
        t.within(ROUND_BOUND as int),
    ensures
        l.spec_dist_sq_rat(p).spec_le(p.spec_dist_sq_rat(t)),
{
    let n = l.spec_residue(p);
    let u = p.x * t.w - t.x * p.w;
    let v = p.y * t.w - t.y * p.w;
    lemma_residue_as_dot(l, p, t);
    assert(n * t.w == l.a * u + l.b * v);
    lemma_cauchy_schwarz(l.a as int, l.b as int, u, v);
    assert((n * t.w) * (n * t.w) <= (u * u + v * v) * (l.a * l.a + l.b * l.b));
    let pw2 = p.w * p.w;
    lemma_mul_pos(p.w as int, p.w as int);
    lemma_mul_le_mono(
        (n * t.w) * (n * t.w),
        (u * u + v * v) * (l.a * l.a + l.b * l.b),
        pw2,
    );
    // the left side regroups to the cross product of the line-distance
    // numerator with the point-distance denominator
    assert(((n * t.w) * (n * t.w)) * (p.w * p.w) == (n * n) * ((p.w * t.w) * (p.w * t.w)))
        by (nonlinear_arith);
    // and the right side to the cross product the other way round
    assert(((u * u + v * v) * (l.a * l.a + l.b * l.b)) * (p.w * p.w) == (u * u + v * v) * ((l.a
        * l.a + l.b * l.b) * (p.w * p.w))) by (nonlinear_arith);
    // both rational values are exactly representable at these bounds, so
    // the integer inequality is their cross-multiplied comparison
    lemma_line_rat_in_range(l, p);
    crate::two::point::lemma_dist_sq_bounds(p, t, ROUND_BOUND as int);
}

/// At query bounds the line-distance value's components are in range, so
/// the stored rational carries them unclipped.
proof fn lemma_line_rat_in_range(l: Line, p: Point)
    requires
        l.within(0x2000_0000),
        p.wf(),
        p.within(ROUND_BOUND as int),
    ensures
        l.spec_dist_sq_rat(p).n == l.spec_residue(p) * l.spec_residue(p),
        l.spec_dist_sq_rat(p).d == (l.a * l.a + l.b * l.b) * (p.w * p.w),
{
    let lb = 0x2000_0000int;
    let rb = ROUND_BOUND as int;
    lemma_mul_bound(l.a as int, p.x as int, lb, rb);
    lemma_mul_bound(l.b as int, p.y as int, lb, rb);
    lemma_mul_bound(l.c as int, p.w as int, lb, rb);
    let n = l.spec_residue(p);
    lemma_mul_bound(n, n, 0x1800_0000_0000, 0x1800_0000_0000);
    lemma_mul_bound(l.a as int, l.a as int, lb, lb);
    lemma_mul_bound(l.b as int, l.b as int, lb, lb);
    lemma_mul_bound(p.w as int, p.w as int, rb, rb);
    lemma_mul_bound(l.a * l.a + l.b * l.b, p.w * p.w, 0x800_0000_0000_0000, 0x1000_0000);
}

/// The round-trip distance law: the distance from any point to a segment
/// never exceeds its distance to either endpoint, and when the
/// perpendicular foot falls outside the segment's box the two agree, the
/// nearer endpoint being the closest point of the segment.  Stated over
/// squared distances, which order exactly as distances do.
pub proof fn law_segment_dist_round_trip(s: Segment, p: Point)
    requires
        s.wf(),
        p.wf(),
        s.within(ROUND_BOUND as int),
        p.within(ROUND_BOUND as int),
        !s.p.eqv(s.q),
    ensures
        s.spec_dist_sq(p).spec_le(p.spec_dist_sq_rat(s.p)),
        s.spec_dist_sq(p).spec_le(p.spec_dist_sq_rat(s.q)),
        !s.spec_bounds_contain(s.spec_foot(p)) ==> s.spec_dist_sq(p)
            == s.spec_endpoint_dist_sq(p),
{
    let l = s.spec_to_line();
    lemma_segment_line_props(s);
    crate::two::point::lemma_dist_sq_bounds(p, s.p, ROUND_BOUND as int);
    crate::two::point::lemma_dist_sq_bounds(p, s.q, ROUND_BOUND as int);
    if s.spec_bounds_contain(s.spec_foot(p)) {
        lemma_line_dist_le_incident(l, p, s.p);
        lemma_line_dist_le_incident(l, p, s.q);
    } else {
        let dp = p.spec_dist_sq_rat(s.p);
        let dq = p.spec_dist_sq_rat(s.q);
        if dp.spec_le(dq) {
        } else {
            assert(dq.spec_le(dp));
        }
    }
}

/// A nondegenerate segment's carrier line is nondegenerate, incident to
/// both endpoints, and small.
proof fn lemma_segment_line_props(s: Segment)
    requires
        s.wf(),
        s.within(ROUND_BOUND as int),
        !s.p.eqv(s.q),
    ensures
        ({
            let l = s.spec_to_line();
            &&& l.spec_on_line(s.p)
            &&& l.spec_on_line(s.q)
            &&& !(l.a == 0 && l.b == 0)
            &&& l.within(0x2000_0000)
        }),
{
    let rb = ROUND_BOUND as int;
    lemma_mul_bound(s.q.y as int, s.p.w as int, rb, rb);
    lemma_mul_bound(s.p.y as int, s.q.w as int, rb, rb);
    lemma_mul_bound(s.p.x as int, s.q.w as int, rb, rb);
    lemma_mul_bound(s.q.x as int, s.p.w as int, rb, rb);
    lemma_mul_bound(s.p.x as int, s.q.y as int, rb, rb);
    lemma_mul_bound(s.q.x as int, s.p.y as int, rb, rb);
    let l = s.spec_to_line();
    assert((q_y_p_w(s) - p_y_q_w(s)) * s.p.x + (p_x_q_w(s) - q_x_p_w(s)) * s.p.y == (p_x_q_y(s)
        - q_x_p_y(s)) * s.p.w) by (nonlinear_arith)
        requires
            q_y_p_w(s) == s.q.y * s.p.w,
            p_y_q_w(s) == s.p.y * s.q.w,
            p_x_q_w(s) == s.p.x * s.q.w,
            q_x_p_w(s) == s.q.x * s.p.w,
            p_x_q_y(s) == s.p.x * s.q.y,
            q_x_p_y(s) == s.q.x * s.p.y,
    ;
    assert((q_y_p_w(s) - p_y_q_w(s)) * s.q.x + (p_x_q_w(s) - q_x_p_w(s)) * s.q.y == (p_x_q_y(s)
        - q_x_p_y(s)) * s.q.w) by (nonlinear_arith)
        requires
            q_y_p_w(s) == s.q.y * s.p.w,
            p_y_q_w(s) == s.p.y * s.q.w,
            p_x_q_w(s) == s.p.x * s.q.w,
            q_x_p_w(s) == s.q.x * s.p.w,
            p_x_q_y(s) == s.p.x * s.q.y,
            q_x_p_y(s) == s.q.x * s.p.y,
    ;
}

/// Cross products of a segment's endpoint coordinates, named so the
/// incidence identities can be stated over small terms.
spec fn q_y_p_w(s: Segment) -> int {
    s.q.y * s.p.w
}

spec fn p_y_q_w(s: Segment) -> int {
    s.p.y * s.q.w
}

spec fn p_x_q_w(s: Segment) -> int {
    s.p.x * s.q.w
}

spec fn q_x_p_w(s: Segment) -> int {
    s.q.x * s.p.w
}

spec fn p_x_q_y(s: Segment) -> int {
    s.p.x * s.q.y
}

spec fn q_x_p_y(s: Segment) -> int {
    s.q.x * s.p.y
}

} // verus!
