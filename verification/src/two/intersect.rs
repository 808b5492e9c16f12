use vstd::prelude::*;

use crate::two::line::{Circle, Line, Ray, Segment, LINE_BOUND, POINT_BOUND, ROUND_BOUND};
use crate::two::point::{lemma_mul_bound, lemma_mul_pos, Point, COORD_BOUND};

verus! {

/// How many points an intersection yields: none, one, finitely many, or
/// a whole coincident family.
#[derive(Clone, Copy, Debug, PartialEq, Eq, Structural)]
pub enum Count {
    Zero,
    One,
    Many(u8),
    Inf,
}

impl Count {
    /// The count a list of `v` intersection points reduces to.  A list
    /// longer than two keeps only the low byte of its length, as the
    /// narrow `Many` payload demands.
    pub open spec fn spec_from_len(v: int) -> Count {
        if v == 0 {
            Count::Zero
        } else if v == 1 {
            Count::One
        } else {
            Count::Many((v % 256) as u8)
        }
    }

    pub open spec fn spec_is_even(self) -> bool {
        match self {
            Count::Zero => true,
            Count::One => false,
            Count::Many(x) => x % 2 == 0,
            Count::Inf => false,
        }
    }

    pub open spec fn spec_is_odd(self) -> bool {
        match self {
            Count::Zero => false,
            Count::One => true,
            Count::Many(x) => x % 2 == 1,
            Count::Inf => false,
        }
    }

    pub fn from_len(val: usize) -> (c: Count)
        ensures
            c == Count::spec_from_len(val as int),
    {
        if val == 0 {
            Count::Zero
        } else if val == 1 {
            Count::One
        } else {
            Count::Many((val % 256) as u8)
        }
    }

    /// An even number of crossings, infinity counting as odd-like: a
    /// coincident family never flips a parity argument.
    pub fn is_even(self) -> (r: bool)
        ensures
            r == self.spec_is_even(),
    {
        match self {
            Count::Zero => true,
            Count::One => false,
            Count::Many(x) => x % 2 == 0,
            Count::Inf => false,
        }
    }

    pub fn is_odd(self) -> (r: bool)
        ensures
            r == self.spec_is_odd(),
    {
        match self {
            Count::Zero => false,
            Count::One => true,
            Count::Many(x) => x % 2 == 1,
            Count::Inf => false,
        }
    }

    pub fn is_zero(self) -> (r: bool)
        ensures
            r == (self == Count::Zero),
    {
        match self {
            Count::Zero => true,
            _ => false,
        }
    }

    pub fn is_nonzero(self) -> (r: bool)
        ensures
            r == (self != Count::Zero),
    {
        match self {
            Count::Zero => false,
            _ => true,
        }
    }
}

/// A membership test a bounded shape imposes on candidate intersection
/// points: the restriction step that cuts a line's intersections down to
/// a segment's or a ray's.
#[derive(Clone, Copy, Debug)]
pub enum PointPred {
    /// Containment in a segment's axis-aligned bounding box.
    InSegmentBox(Segment),
    /// Lying strictly forward of a ray's origin.
    ForwardOf(Ray),
}

impl PointPred {
    pub open spec fn wf(self) -> bool {
        match self {
            PointPred::InSegmentBox(s) => s.wf() && s.within(COORD_BOUND as int),
            PointPred::ForwardOf(r) => r.wf() && r.within(COORD_BOUND as int),
        }
    }

    /// The predicate as a specification-level function, the form the
    /// sequence-filter contracts are stated over.
    pub open spec fn spec_as_fn(self) -> spec_fn(Point) -> bool {
        |p: Point| self.holds(p)
    }

    /// The predicate holds of the point.
    pub open spec fn holds(self, p: Point) -> bool {
        match self {
            PointPred::InSegmentBox(s) => s.spec_bounds_contain(p),
            PointPred::ForwardOf(r) => r.spec_bounds_contain(p),
        }
    }

    pub fn test(&self, p: &Point) -> (r: bool)
        requires
            self.wf(),
            p.wf(),
            p.within(POINT_BOUND as int),
        ensures
            r == self.holds(*p),
    {
        match self {
            PointPred::InSegmentBox(s) => s.bounds_contain(*p),
            PointPred::ForwardOf(ray) => ray.bounds_contain(*p),
        }
    }
}

/// The points where two shapes meet, kept flat for the common small
/// cardinalities and spilling into a vector beyond two.
#[derive(Clone, Debug)]
pub enum Intersections {
    Zero,
    One(Point),
    Two(Point, Point),
    Many(Vec<Point>),
}

impl View for Intersections {
    type V = Seq<Point>;

    open spec fn view(&self) -> Seq<Point> {
        match self {
            Intersections::Zero => Seq::empty(),
            Intersections::One(a) => seq![*a],
            Intersections::Two(a, b) => seq![*a, *b],
            Intersections::Many(v) => v@,
        }
    }
}

impl Intersections {
    /// The vector form is only used past two points, so its length
    /// certifies the cardinality.
    pub open spec fn wf(self) -> bool {
        match self {
            Intersections::Many(v) => v@.len() >= 3,
            _ => true,
        }
    }

    /// All carried points well formed and small enough for the bounded
    /// shapes' membership filters.
    pub open spec fn all_within(self, bnd: int) -> bool {
        forall|i: int| 0 <= i < self@.len() ==> (#[trigger] self@[i]).wf() && self@[i].within(bnd)
    }

    pub fn is_zero(&self) -> (r: bool)
        requires
            self.wf(),
        ensures
            r == (self@.len() == 0),
    {
        match self {
            Intersections::Zero => true,
            Intersections::One(_) => false,
            Intersections::Two(_, _) => false,
            Intersections::Many(_) => false,
        }
    }

    pub fn is_nonzero(&self) -> (r: bool)
        requires
            self.wf(),
        ensures
            r == (self@.len() != 0),
    {
        match self {
            Intersections::Zero => false,
            Intersections::One(_) => true,
            Intersections::Two(_, _) => true,
            Intersections::Many(_) => true,
        }
    }

    /// The cardinality, as a `Count`.
    pub fn count(&self) -> (c: Count)
        requires
            self.wf(),
        ensures
            c == Count::spec_from_len(self@.len() as int),
    {
        match self {
            Intersections::Zero => Count::from_len(0),
            Intersections::One(_) => Count::from_len(1),
            Intersections::Two(_, _) => Count::from_len(2),
            Intersections::Many(v) => Count::from_len(v.len()),
        }
    }

    pub fn from_vec(points: Vec<Point>) -> (r: Self)
        ensures
            r@ == points@,
            r.wf(),
    {
        if points.len() == 0 {
            proof {
                assert(points@ =~= Seq::<Point>::empty());
            }
            Intersections::Zero
        } else if points.len() == 1 {
            let a = points[0];
            proof {
                assert(points@ =~= seq![points@[0]]);
            }
            Intersections::One(a)
        } else if points.len() == 2 {
            let a = points[0];
            let b = points[1];
            proof {
                assert(points@ =~= seq![points@[0], points@[1]]);
            }
            Intersections::Two(a, b)
        } else {
            Intersections::Many(points)
        }
    }

    pub fn from_zero() -> (r: Self)
        ensures
            r@.len() == 0,
            r.wf(),
    {
        Intersections::Zero
    }

    pub fn from_one(point: Point) -> (r: Self)
        ensures
            r@ =~= seq![point],
            r.wf(),
    {
        Intersections::One(point)
    }

    pub fn from_two(point_a: Point, point_b: Point) -> (r: Self)
        ensures
            r@ =~= seq![point_a, point_b],
            r.wf(),
    {
        Intersections::Two(point_a, point_b)
    }

    pub fn into_vec(self) -> (r: Vec<Point>)
        requires
            self.wf(),
        ensures
            r@ == self@,
    {
        match self {
            Intersections::Zero => Vec::new(),
            Intersections::One(a) => {
                let mut v = Vec::new();
                v.push(a);
                proof {
                    assert(v@ =~= seq![a]);
                }
                v
            },
            Intersections::Two(a, b) => {
                let mut v = Vec::new();
                v.push(a);
                v.push(b);
                proof {
                    assert(v@ =~= seq![a, b]);
                }
                v
            },
            Intersections::Many(v) => v,
        }
    }

    /// The first intersection point, when there is one.
    pub fn get_one(&self) -> (r: Option<Point>)
        requires
            self.wf(),
        ensures
            match r {
                Option::Some(p) => self@.len() > 0 && p == self@[0],
                Option::None => self@.len() == 0,
            },
    {
        match self {
            Intersections::Zero => Option::None,
            Intersections::One(a) => Option::Some(*a),
            Intersections::Two(a, _) => Option::Some(*a),
            Intersections::Many(v) => Option::Some(v[0]),
        }
    }

    /// Keeps exactly the points the predicate admits, in order.
    pub fn filter(self, pred: &PointPred) -> (r: Self)
        requires
            self.wf(),
            pred.wf(),
            self.all_within(POINT_BOUND as int),
        ensures
            r@ == self@.filter(pred.spec_as_fn()),
            r.wf(),
            r.all_within(POINT_BOUND as int),
    {
        let ghost pr = pred.spec_as_fn();
        proof {
            reveal(Seq::filter);
            lemma_filter_all_within(self@, pr);
        }
        match self {
            Intersections::Zero => {
                proof {
                    assert(self@.filter(pr) =~= Seq::<Point>::empty());
                }
                Intersections::Zero
            },
            Intersections::One(a) => {
                proof {
                    assert(self@.drop_last() =~= Seq::<Point>::empty());
                    assert(self@.last() == a);
                }
                if pred.test(&a) {
                    proof {
                        reveal_with_fuel(Seq::filter, 3);
                        assert(self@.filter(pr) =~= seq![a]);
                    }
                    Intersections::One(a)
                } else {
                    proof {
                        reveal_with_fuel(Seq::filter, 3);
                        assert(self@.filter(pr) =~= Seq::<Point>::empty());
                    }
                    Intersections::Zero
                }
            },
            Intersections::Two(a, b) => {
                let keep_a = pred.test(&a);
                let keep_b = pred.test(&b);
                proof {
                    reveal_with_fuel(Seq::filter, 4);
                    assert(self@.drop_last() =~= seq![a]);
                    assert(self@.drop_last().drop_last() =~= Seq::<Point>::empty());
                    assert(keep_a && keep_b ==> self@.filter(pr) =~= seq![a, b]);
                    assert(keep_a && !keep_b ==> self@.filter(pr) =~= seq![a]);
                    assert(!keep_a && keep_b ==> self@.filter(pr) =~= seq![b]);
                    assert(!keep_a && !keep_b ==> self@.filter(pr) =~= Seq::<Point>::empty());
                }
                if keep_a && keep_b {
                    Intersections::Two(a, b)
                } else if keep_a {
                    Intersections::One(a)
                } else if keep_b {
                    Intersections::One(b)
                } else {
                    Intersections::Zero
                }
            },
            Intersections::Many(v) => {
                let mut res: Vec<Point> = Vec::new();
                let mut i: usize = 0;
                while i < v.len()
                    invariant
                        0 <= i <= v@.len(),
                        res@ == v@.take(i as int).filter(pr),
                        pred.wf(),
                        pr == pred.spec_as_fn(),
                        forall|j: int|
                            0 <= j < v@.len() ==> (#[trigger] v@[j]).wf() && v@[j].within(
                                POINT_BOUND as int,
                            ),
                    decreases v@.len() - i,
                {
                    proof {
                        reveal(Seq::filter);
                        assert(v@.take(i as int + 1).drop_last() =~= v@.take(i as int));
                        assert(v@.take(i as int + 1).last() == v@[i as int]);
                    }
                    let keep = pred.test(&v[i]);
                    if keep {
                        res.push(v[i]);
                    }
                    i = i + 1;
                }
                proof {
                    assert(v@.take(v@.len() as int) =~= v@);
                }
                Intersections::from_vec(res)
            },
        }
    }

    /// All points of `self` followed by all points of `other`.
    pub fn combine(self, other: Intersections) -> (r: Self)
        requires
            self.wf(),
            other.wf(),
        ensures
            r@ == self@ + other@,
            r.wf(),
    {
        let mut v = self.into_vec();
        let mut w = other.into_vec();
        let ghost gv = v@;
        let ghost gw = w@;
        let mut j: usize = 0;
        while j < w.len()
            invariant
                0 <= j <= gw.len(),
                w@ == gw,
                v@ == gv + gw.take(j as int),
            decreases gw.len() - j,
        {
            v.push(w[j]);
            proof {
                assert(gv + gw.take(j as int + 1) =~= (gv + gw.take(j as int)).push(gw[j as int]));
            }
            j = j + 1;
        }
        proof {
            assert(gw.take(gw.len() as int) =~= gw);
        }
        Intersections::from_vec(v)
    }
}

impl Line {
    /// Discriminant of the pair: zero exactly when the lines are parallel.
    pub open spec fn spec_disc(self, o: Line) -> int {
        self.a * o.b - o.a * self.b
    }

    /// The coefficient triples are proportional, so the two equations
    /// describe one and the same line.
    pub open spec fn spec_proportional(self, o: Line) -> bool {
        &&& self.a * o.b == o.a * self.b
        &&& self.b * o.c == o.b * self.c
        &&& self.a * o.c == o.a * self.c
    }

    /// How often the two lines meet: once when the discriminant is
    /// nonzero, a coincident family when proportional, never otherwise.
    pub open spec fn spec_count(self, o: Line) -> Count {
        if self.spec_disc(o) != 0 {
            Count::One
        } else if self.spec_proportional(o) {
            Count::Inf
        } else {
            Count::Zero
        }
    }

    /// The crossing point of two non-parallel lines, by Cramer's rule,
    /// held with its denominator normalized positive.
    pub open spec fn spec_cramer(self, o: Line) -> Point {
        let x = self.c * o.b - o.c * self.b;
        let y = self.a * o.c - o.a * self.c;
        let w = self.spec_disc(o);
        if w >= 0 {
            Point { x: x as i128, y: y as i128, w: w as i128 }
        } else {
            Point { x: (-x) as i128, y: (-y) as i128, w: (-w) as i128 }
        }
    }

    /// The points where the two lines meet, as a value: one point for a
    /// transversal pair, none for parallel or coincident pairs.
    pub open spec fn spec_inter(self, o: Line) -> Seq<Point> {
        if self.spec_disc(o) != 0 {
            seq![self.spec_cramer(o)]
        } else {
            Seq::empty()
        }
    }

    pub fn intersects(&self, other: &Line) -> (c: Count)
        requires
            self.within(LINE_BOUND as int),
            other.within(LINE_BOUND as int),
        ensures
            c == self.spec_count(*other),
    {
        proof {
            lemma_line_pair_products(*self, *other);
        }
        let disc = self.a * other.b - other.a * self.b;
        if disc != 0 {
            Count::One
        } else if self.b * other.c == other.b * self.c && self.a * other.c == other.a * self.c {
            Count::Inf
        } else {
            Count::Zero
        }
    }

    pub fn intersects_at(&self, other: &Line) -> (r: Intersections)
        requires
            self.within(LINE_BOUND as int),
            other.within(LINE_BOUND as int),
        ensures
            r@ == self.spec_inter(*other),
            r.wf(),
            r.all_within(POINT_BOUND as int),
            self.spec_disc(*other) != 0 ==> r@.len() == 1 && self.spec_on_line(r@[0])
                && other.spec_on_line(r@[0]),
    {
        proof {
            lemma_line_pair_products(*self, *other);
        }
        let disc = self.a * other.b - other.a * self.b;
        if disc != 0 {
            let x = self.c * other.b - other.c * self.b;
            let y = self.a * other.c - other.a * self.c;
            let p = if disc >= 0 {
                Point { x, y, w: disc }
            } else {
                Point { x: -x, y: -y, w: -disc }
            };
            proof {
                lemma_cramer_on_lines(*self, *other);
                assert(seq![p] =~= self.spec_inter(*other));
            }
            Intersections::One(p)
        } else {
            proof {
                assert(Seq::<Point>::empty() =~= self.spec_inter(*other));
            }
            Intersections::Zero
        }
    }

    pub fn intersects_at_segment(&self, other: &Segment) -> (r: Intersections)
        requires
            self.within(LINE_BOUND as int),
            other.wf(),
            other.within(COORD_BOUND as int),
        ensures
            r@ == other.spec_inter_line(*self),
            r.wf(),
            r.all_within(POINT_BOUND as int),
    {
        other.intersects_at_line(self)
    }

    pub fn intersects_at_ray(&self, other: &Ray) -> (r: Intersections)
        requires
            self.within(LINE_BOUND as int),
            other.wf(),
            other.within(COORD_BOUND as int),
        ensures
            r@ == other.spec_inter_line(*self),
            r.wf(),
            r.all_within(POINT_BOUND as int),
    {
        other.intersects_at_line(self)
    }
}

/// All products formed while deciding how two bounded lines meet stay
/// inside an `i128`, and the crossing point stays inside the filter bound.
proof fn lemma_line_pair_products(a: Line, b: Line)
    requires
        a.within(LINE_BOUND as int),
        b.within(LINE_BOUND as int),
    ensures
        -0x4_0000_0000_0000_0000_0000 <= a.a * b.b <= 0x4_0000_0000_0000_0000_0000,
        -0x4_0000_0000_0000_0000_0000 <= b.a * a.b <= 0x4_0000_0000_0000_0000_0000,
        -0x4_0000_0000_0000_0000_0000 <= a.b * b.c <= 0x4_0000_0000_0000_0000_0000,
        -0x4_0000_0000_0000_0000_0000 <= b.b * a.c <= 0x4_0000_0000_0000_0000_0000,
        -0x4_0000_0000_0000_0000_0000 <= a.a * b.c <= 0x4_0000_0000_0000_0000_0000,
        -0x4_0000_0000_0000_0000_0000 <= b.a * a.c <= 0x4_0000_0000_0000_0000_0000,
        -0x4_0000_0000_0000_0000_0000 <= a.c * b.b <= 0x4_0000_0000_0000_0000_0000,
        -0x4_0000_0000_0000_0000_0000 <= b.c * a.b <= 0x4_0000_0000_0000_0000_0000,
{
    let lb = LINE_BOUND as int;
    lemma_mul_bound(a.a as int, b.b as int, lb, lb);
    lemma_mul_bound(b.a as int, a.b as int, lb, lb);
    lemma_mul_bound(a.b as int, b.c as int, lb, lb);
    lemma_mul_bound(b.b as int, a.c as int, lb, lb);
    lemma_mul_bound(a.a as int, b.c as int, lb, lb);
    lemma_mul_bound(b.a as int, a.c as int, lb, lb);
    lemma_mul_bound(a.c as int, b.b as int, lb, lb);
    lemma_mul_bound(b.c as int, a.b as int, lb, lb);
}

/// Cramer's point satisfies both generating line equations: the algebraic
/// heart of the transversal case.
proof fn lemma_cramer_on_lines(l1: Line, l2: Line)
    requires
        l1.within(LINE_BOUND as int),
        l2.within(LINE_BOUND as int),
        l1.spec_disc(l2) != 0,
    ensures
        l1.spec_on_line(l1.spec_cramer(l2)),
        l2.spec_on_line(l1.spec_cramer(l2)),
        l1.spec_cramer(l2).wf(),
        l1.spec_cramer(l2).within(POINT_BOUND as int),
{
    lemma_line_pair_products(l1, l2);
    let x = l1.c * l2.b - l2.c * l1.b;
    let y = l1.a * l2.c - l2.a * l1.c;
    let w = l1.spec_disc(l2);
    assert(l1.a * x + l1.b * y == l1.c * w) by (nonlinear_arith)
        requires
            x == l1.c * l2.b - l2.c * l1.b,
            y == l1.a * l2.c - l2.a * l1.c,
            w == l1.a * l2.b - l2.a * l1.b,
    ;
    assert(l2.a * x + l2.b * y == l2.c * w) by (nonlinear_arith)
        requires
            x == l1.c * l2.b - l2.c * l1.b,
            y == l1.a * l2.c - l2.a * l1.c,
            w == l1.a * l2.b - l2.a * l1.b,
    ;
    let p = l1.spec_cramer(l2);
    if w >= 0 {
        assert(p.x == x && p.y == y && p.w == w);
    } else {
        assert(p.x == -x && p.y == -y && p.w == -w);
        assert(l1.a * p.x + l1.b * p.y == l1.c * p.w) by (nonlinear_arith)
            requires
                p.x == -x,
                p.y == -y,
                p.w == -w,
                l1.a * x + l1.b * y == l1.c * w,
        ;
        assert(l2.a * p.x + l2.b * p.y == l2.c * p.w) by (nonlinear_arith)
            requires
                p.x == -x,
                p.y == -y,
                p.w == -w,
                l2.a * x + l2.b * y == l2.c * w,
        ;
    }
}

impl Segment {
    /// Where the segment meets a line, as a value: the crossing points of
    /// the two carrier lines, restricted to the segment's bounding box.
    pub open spec fn spec_inter_line(self, l: Line) -> Seq<Point> {
        l.spec_inter(self.spec_to_line()).filter(PointPred::InSegmentBox(self).spec_as_fn())
    }

    pub fn intersects_at_line(&self, other: &Line) -> (r: Intersections)
        requires
            self.wf(),
            self.within(COORD_BOUND as int),
            other.within(LINE_BOUND as int),
        ensures
            r@ == self.spec_inter_line(*other),
            r.wf(),
            r.all_within(POINT_BOUND as int),
    {
        let own = self.to_line();
        let raw = other.intersects_at(&own);
        raw.filter(&PointPred::InSegmentBox(*self))
    }

    /// Where two segments meet, as a value: the carrier-line crossing
    /// restricted to both bounding boxes.
    pub open spec fn spec_inter_pair(self, other: Segment) -> Seq<Point> {
        other.spec_inter_line(self.spec_to_line()).filter(
            PointPred::InSegmentBox(self).spec_as_fn(),
        )
    }

    /// Where two segments meet: the carrier-line crossing restricted to
    /// both bounding boxes.
    pub fn intersects_at(&self, other: &Segment) -> (r: Intersections)
        requires
            self.wf(),
            other.wf(),
            self.within(COORD_BOUND as int),
            other.within(COORD_BOUND as int),
        ensures
            r@ == self.spec_inter_pair(*other),
            r.wf(),
            r.all_within(POINT_BOUND as int),
    {
        let own = self.to_line();
        let raw = other.intersects_at_line(&own);
        raw.filter(&PointPred::InSegmentBox(*self))
    }

    pub fn intersects_at_ray(&self, other: &Ray) -> (r: Intersections)
        requires
            self.wf(),
            other.wf(),
            self.within(COORD_BOUND as int),
            other.within(COORD_BOUND as int),
        ensures
            r@ == other.spec_inter_line(self.spec_to_line()).filter(
                PointPred::InSegmentBox(*self).spec_as_fn(),
            ),
            r.wf(),
            r.all_within(POINT_BOUND as int),
    {
        let own = self.to_line();
        let raw = other.intersects_at_line(&own);
        raw.filter(&PointPred::InSegmentBox(*self))
    }

    /// How often two segments meet: the cardinality of `intersects_at`,
    /// by construction.
    pub fn intersects(&self, other: &Segment) -> (c: Count)
        requires
            self.wf(),
            other.wf(),
            self.within(COORD_BOUND as int),
            other.within(COORD_BOUND as int),
        ensures
            c == Count::spec_from_len(self.spec_inter_pair(*other).len() as int),
    {
        self.intersects_at(other).count()
    }
}

impl Ray {
    /// Where the ray meets a line, as a value: the crossing points of the
    /// carrier lines, restricted to the ray's forward side.
    pub open spec fn spec_inter_line(self, l: Line) -> Seq<Point> {
        l.spec_inter(self.spec_to_line()).filter(PointPred::ForwardOf(self).spec_as_fn())
    }

    pub fn intersects_at_line(&self, other: &Line) -> (r: Intersections)
        requires
            self.wf(),
            self.within(COORD_BOUND as int),
            other.within(LINE_BOUND as int),
        ensures
            r@ == self.spec_inter_line(*other),
            r.wf(),
            r.all_within(POINT_BOUND as int),
    {
        let own = self.to_line();
        let raw = other.intersects_at(&own);
        raw.filter(&PointPred::ForwardOf(*self))
    }

    pub fn intersects_at_segment(&self, other: &Segment) -> (r: Intersections)
        requires
            self.wf(),
            other.wf(),
            self.within(COORD_BOUND as int),
            other.within(COORD_BOUND as int),
        ensures
            r@ == other.spec_inter_line(self.spec_to_line()).filter(
                PointPred::ForwardOf(*self).spec_as_fn(),
            ),
            r.wf(),
            r.all_within(POINT_BOUND as int),
    {
        let own = self.to_line();
        let raw = other.intersects_at_line(&own);
        raw.filter(&PointPred::ForwardOf(*self))
    }

    /// Where two rays meet: the carrier-line crossing restricted to both
    /// forward sides.
    pub fn intersects_at(&self, other: &Ray) -> (r: Intersections)
        requires
            self.wf(),
            other.wf(),
            self.within(COORD_BOUND as int),
            other.within(COORD_BOUND as int),
        ensures
            r@ == other.spec_inter_line(self.spec_to_line()).filter(
                PointPred::ForwardOf(*self).spec_as_fn(),
            ),
            r.wf(),
            r.all_within(POINT_BOUND as int),
    {
        let own = self.to_line();
        let raw = other.intersects_at_line(&own);
        raw.filter(&PointPred::ForwardOf(*self))
    }

    /// How often two rays meet: the cardinality of `intersects_at`, by
    /// construction.
    pub fn intersects(&self, other: &Ray) -> (c: Count)
        requires
            self.wf(),
            other.wf(),
            self.within(COORD_BOUND as int),
            other.within(COORD_BOUND as int),
        ensures
            c == Count::spec_from_len(
                other.spec_inter_line(self.spec_to_line()).filter(
                    PointPred::ForwardOf(*self).spec_as_fn(),
                ).len() as int,
            ),
    {
        self.intersects_at(other).count()
    }
}

/// Filtering keeps every point inside the bound it started in.
proof fn lemma_filter_all_within(s: Seq<Point>, pr: spec_fn(Point) -> bool)
    requires
        forall|i: int| 0 <= i < s.len() ==> (#[trigger] s[i]).wf() && s[i].within(
            POINT_BOUND as int,
        ),
    ensures
        forall|i: int|
            0 <= i < s.filter(pr).len() ==> (#[trigger] s.filter(pr)[i]).wf() && s.filter(pr)[
                i
            ].within(POINT_BOUND as int),
    decreases s.len(),
{
    reveal(Seq::filter);
    if s.len() > 0 {
        assert(forall|i: int|
            0 <= i < s.drop_last().len() ==> (#[trigger] s.drop_last()[i]).wf()
                && s.drop_last()[i].within(POINT_BOUND as int)) by {
            assert(forall|i: int| 0 <= i < s.len() - 1 ==> #[trigger] s.drop_last()[i] == s[i]);
        }
        lemma_filter_all_within(s.drop_last(), pr);
        let sub = s.drop_last().filter(pr);
        assert forall|i: int|
            0 <= i < s.filter(pr).len() implies (#[trigger] s.filter(pr)[i]).wf() && s.filter(pr)[
            i
        ].within(POINT_BOUND as int) by {
            reveal(Seq::filter);
            if pr(s.last()) {
                assert(s.filter(pr) == sub.push(s.last()));
                if i < sub.len() {
                    assert(s.filter(pr)[i] == sub[i]);
                } else {
                    assert(s.filter(pr)[i] == s.last());
                    assert(s.last() == s[s.len() - 1]);
                }
            } else {
                assert(s.filter(pr) == sub);
            }
        }
    }
}

/// Coefficient bound asked of lines handed to circle queries; the line of
/// a `ROUND_BOUND`-bounded segment or ray stays inside it.
pub const ROUND_LINE_BOUND: i128 = 0x2000_0000;

impl Circle {
    /// How often the circle meets a line, by comparing the squared
    /// distance from the center to the line against the squared radius:
    /// farther is no point, equal is one tangent point, nearer is a
    /// two-point chord.  The comparison is exact, so tangency is decided
    /// without a tolerance.
    pub open spec fn spec_count_line(self, l: Line) -> Count {
        let n = l.a * self.center.x + l.b * self.center.y - l.c * self.center.w;
        let lhs = (n * n) * (self.radius.d * self.radius.d);
        let rhs = (self.radius.n * self.radius.n) * ((l.a * l.a + l.b * l.b) * (self.center.w
            * self.center.w));
        if lhs > rhs {
            Count::Zero
        } else if lhs == rhs {
            Count::One
        } else {
            Count::Many(2)
        }
    }

    pub fn intersects_line(&self, l: &Line) -> (c: Count)
        requires
            self.wf(),
            self.within(ROUND_BOUND as int),
            l.within(ROUND_LINE_BOUND as int),
        ensures
            c == self.spec_count_line(*l),
    {
        proof {
            lemma_circle_line_products(*self, *l);
        }
        let n = l.a * self.center.x + l.b * self.center.y - l.c * self.center.w;
        let lhs = (n * n) * (self.radius.d * self.radius.d);
        let rhs = (self.radius.n * self.radius.n) * ((l.a * l.a + l.b * l.b) * (self.center.w
            * self.center.w));
        if lhs > rhs {
            Count::Zero
        } else if lhs == rhs {
            Count::One
        } else {
            Count::Many(2)
        }
    }

    /// How often two circles meet, decided by exact comparison of the
    /// squared center distance against the squared radius sum and the
    /// squared radius difference: beyond the sum or inside the
    /// difference no point, on either boundary one tangent point,
    /// coincident circles a whole family, otherwise two points.
    pub open spec fn spec_count_circle(self, o: Circle) -> Count {
        let d2n = self.center.dist_sq_num(o.center);
        let d2d = (self.center.w * o.center.w) * (self.center.w * o.center.w);
        let sn = self.radius.n * o.radius.d + o.radius.n * self.radius.d;
        let dn = self.radius.n * o.radius.d - o.radius.n * self.radius.d;
        let sd = self.radius.d * o.radius.d;
        if d2n * (sd * sd) > (sn * sn) * d2d {
            Count::Zero
        } else if d2n * (sd * sd) == (sn * sn) * d2d {
            Count::One
        } else if d2n * (sd * sd) < (dn * dn) * d2d {
            Count::Zero
        } else if d2n * (sd * sd) == (dn * dn) * d2d {
            if d2n == 0 {
                Count::Inf
            } else {
                Count::One
            }
        } else {
            Count::Many(2)
        }
    }

    pub fn intersects(&self, other: &Circle) -> (c: Count)
        requires
            self.wf(),
            other.wf(),
            self.within(ROUND_BOUND as int),
            other.within(ROUND_BOUND as int),
        ensures
            c == self.spec_count_circle(*other),
    {
        proof {
            lemma_circle_pair_products(*self, *other);
        }
        let d2n_rat = self.center.dist_sq(other.center);
        let d2n = d2n_rat.n;
        let d2d = (self.center.w * other.center.w) * (self.center.w * other.center.w);
        let sn = self.radius.n * other.radius.d + other.radius.n * self.radius.d;
        let dn = self.radius.n * other.radius.d - other.radius.n * self.radius.d;
        let sd = self.radius.d * other.radius.d;
        let lhs = d2n * (sd * sd);
        let outer = (sn * sn) * d2d;
        let inner = (dn * dn) * d2d;
        if lhs > outer {
            Count::Zero
        } else if lhs == outer {
            Count::One
        } else if lhs < inner {
            Count::Zero
        } else if lhs == inner {
            if d2n == 0 {
                Count::Inf
            } else {
                Count::One
            }
        } else {
            Count::Many(2)
        }
    }
}

impl Circle {
    /// Leading coefficient of the ray-circle quadratic, cleared of all
    /// denominators: positive for any nonzero direction.
    pub open spec fn spec_ray_qa(self, ray: Ray) -> int {
        (self.radius.d * self.radius.d) * ((ray.dir.x * ray.dir.x + ray.dir.y * ray.dir.y) * ((
        ray.init.w * self.center.w) * (ray.init.w * self.center.w)))
    }

    /// Half the linear coefficient of the ray-circle quadratic: its sign
    /// says whether the center lies forward of the ray's origin along
    /// the direction (negative) or behind it.
    pub open spec fn spec_ray_qb(self, ray: Ray) -> int {
        let ux = ray.init.x * self.center.w - self.center.x * ray.init.w;
        let uy = ray.init.y * self.center.w - self.center.y * ray.init.w;
        (self.radius.d * self.radius.d) * (((ux * ray.dir.x + uy * ray.dir.y) * ray.dir.w) * (
        ray.init.w * self.center.w))
    }

    /// Constant coefficient of the ray-circle quadratic: its sign says
    /// whether the ray's origin lies outside (positive), on (zero), or
    /// inside (negative) the circle.
    pub open spec fn spec_ray_qg(self, ray: Ray) -> int {
        let ux = ray.init.x * self.center.w - self.center.x * ray.init.w;
        let uy = ray.init.y * self.center.w - self.center.y * ray.init.w;
        (self.radius.d * self.radius.d) * ((ux * ux + uy * uy) * (ray.dir.w * ray.dir.w)) - (
        self.radius.n * self.radius.n) * (((ray.init.w * self.center.w) * ray.dir.w) * ((
        ray.init.w * self.center.w) * ray.dir.w))
    }

    /// How often the circle meets a ray: the carrier line's crossings,
    /// counted only where they lie strictly forward of the ray's origin.
    /// The carrier-line classification fixes how many real roots the
    /// ray's quadratic has, and the signs of the quadratic's Vieta
    /// coefficients say how many of them are positive: with the origin
    /// inside the circle one crossing is always ahead, with it outside
    /// both crossings are ahead exactly when the center is.
    pub open spec fn spec_count_ray(self, ray: Ray) -> Count {
        let lc = self.spec_count_line(ray.spec_to_line());
        let qb = self.spec_ray_qb(ray);
        let qg = self.spec_ray_qg(ray);
        if lc == Count::Zero {
            Count::Zero
        } else if lc == Count::One {
            if qb < 0 {
                Count::One
            } else {
                Count::Zero
            }
        } else {
            if qg < 0 {
                Count::One
            } else if qg == 0 {
                if qb < 0 {
                    Count::One
                } else {
                    Count::Zero
                }
            } else {
                if qb < 0 {
                    Count::Many(2)
                } else {
                    Count::Zero
                }
            }
        }
    }

    pub fn intersects_ray(&self, ray: &Ray) -> (c: Count)
        requires
            self.wf(),
            ray.wf(),
            self.within(ROUND_BOUND as int),
            ray.within(ROUND_BOUND as int),
        ensures
            c == self.spec_count_ray(*ray),
    {
        proof {
            lemma_ray_circle_products(*self, *ray);
            let rb = ROUND_BOUND as int;
            lemma_mul_bound(-(ray.dir.y as int), ray.init.w as int, rb, rb);
            lemma_mul_bound(ray.dir.x as int, ray.init.w as int, rb, rb);
            lemma_mul_bound(-(ray.dir.y as int), ray.init.x as int, rb, rb);
            lemma_mul_bound(ray.dir.x as int, ray.init.y as int, rb, rb);
        }
        let rl = ray.to_line();
        let lc = self.intersects_line(&rl);
        if lc == Count::Zero {
            return Count::Zero;
        }
        let ux = ray.init.x * self.center.w - self.center.x * ray.init.w;
        let uy = ray.init.y * self.center.w - self.center.y * ray.init.w;
        let rd2 = self.radius.d * self.radius.d;
        let iwcw = ray.init.w * self.center.w;
        let qb = rd2 * (((ux * ray.dir.x + uy * ray.dir.y) * ray.dir.w) * iwcw);
        if lc == Count::One {
            return if qb < 0 {
                Count::One
            } else {
                Count::Zero
            };
        }
        let qg = rd2 * ((ux * ux + uy * uy) * (ray.dir.w * ray.dir.w)) - (self.radius.n
            * self.radius.n) * ((iwcw * ray.dir.w) * (iwcw * ray.dir.w));
        if qg < 0 {
            Count::One
        } else if qg == 0 {
            if qb < 0 {
                Count::One
            } else {
                Count::Zero
            }
        } else {
            if qb < 0 {
                Count::Many(2)
            } else {
                Count::Zero
            }
        }
    }
}

impl Ray {
    /// How often the ray meets a circle.
    pub fn intersects_circle(&self, other: &Circle) -> (c: Count)
        requires
            self.wf(),
            other.wf(),
            self.within(ROUND_BOUND as int),
            other.within(ROUND_BOUND as int),
        ensures
            c == other.spec_count_ray(*self),
    {
        other.intersects_ray(self)
    }
}

/// Bounds for the ray-circle quadratic's coefficients.
proof fn lemma_ray_circle_products(ci: Circle, ray: Ray)
    requires
        ci.wf(),
        ray.wf(),
        ci.within(ROUND_BOUND as int),
        ray.within(ROUND_BOUND as int),
    ensures
        ({
            let ux = ray.init.x * ci.center.w - ci.center.x * ray.init.w;
            let uy = ray.init.y * ci.center.w - ci.center.y * ray.init.w;
            let rd2 = ci.radius.d * ci.radius.d;
            let iwcw = ray.init.w * ci.center.w;
            &&& -0x1000_0000 <= ray.init.x * ci.center.w <= 0x1000_0000
            &&& -0x1000_0000 <= ci.center.x * ray.init.w <= 0x1000_0000
            &&& -0x1000_0000 <= ray.init.y * ci.center.w <= 0x1000_0000
            &&& -0x1000_0000 <= ci.center.y * ray.init.w <= 0x1000_0000
            &&& 1 <= rd2 <= 0x1000_0000
            &&& 1 <= iwcw <= 0x1000_0000
            &&& -0x800_0000_0000 <= ux * ray.dir.x <= 0x800_0000_0000
            &&& -0x800_0000_0000 <= uy * ray.dir.y <= 0x800_0000_0000
            &&& -0x400_0000_0000_0000 <= (ux * ray.dir.x + uy * ray.dir.y) * ray.dir.w
                <= 0x400_0000_0000_0000
            &&& -0x40_0000_0000_0000_0000_0000 <= ((ux * ray.dir.x + uy * ray.dir.y) * ray.dir.w)
                * iwcw <= 0x40_0000_0000_0000_0000_0000
            &&& -0x4_0000_0000_0000_0000_0000_0000_0000 <= rd2 * (((ux * ray.dir.x + uy
                * ray.dir.y) * ray.dir.w) * iwcw) <= 0x4_0000_0000_0000_0000_0000_0000_0000
            &&& 0 <= ux * ux <= 0x400_0000_0000_0000
            &&& 0 <= uy * uy <= 0x400_0000_0000_0000
            &&& 1 <= ray.dir.w * ray.dir.w <= 0x1000_0000
            &&& 0 <= (ux * ux + uy * uy) * (ray.dir.w * ray.dir.w)
                <= 0x80_0000_0000_0000_0000_0000
            &&& 0 <= rd2 * ((ux * ux + uy * uy) * (ray.dir.w * ray.dir.w))
                <= 0x8_0000_0000_0000_0000_0000_0000_0000
            &&& 1 <= iwcw * ray.dir.w <= 0x400_0000_0000
            &&& 1 <= (iwcw * ray.dir.w) * (iwcw * ray.dir.w) <= 0x10_0000_0000_0000_0000_0000
            &&& 1 <= ci.radius.n * ci.radius.n <= 0x1000_0000
            &&& 0 < (ci.radius.n * ci.radius.n) * ((iwcw * ray.dir.w) * (iwcw * ray.dir.w))
                <= 0x1_0000_0000_0000_0000_0000_0000_0000
        }),
{
    let rb = ROUND_BOUND as int;
    lemma_mul_bound(ray.init.x as int, ci.center.w as int, rb, rb);
    lemma_mul_bound(ci.center.x as int, ray.init.w as int, rb, rb);
    lemma_mul_bound(ray.init.y as int, ci.center.w as int, rb, rb);
    lemma_mul_bound(ci.center.y as int, ray.init.w as int, rb, rb);
    lemma_mul_bound(ci.radius.d as int, ci.radius.d as int, rb, rb);
    lemma_mul_pos(ci.radius.d as int, ci.radius.d as int);
    lemma_mul_bound(ray.init.w as int, ci.center.w as int, rb, rb);
    lemma_mul_pos(ray.init.w as int, ci.center.w as int);
    let ux = ray.init.x * ci.center.w - ci.center.x * ray.init.w;
    let uy = ray.init.y * ci.center.w - ci.center.y * ray.init.w;
    let rd2 = ci.radius.d * ci.radius.d;
    let iwcw = ray.init.w * ci.center.w;
    lemma_mul_bound(ux, ray.dir.x as int, 0x2000_0000, rb);
    lemma_mul_bound(uy, ray.dir.y as int, 0x2000_0000, rb);
    lemma_mul_bound(ux * ray.dir.x + uy * ray.dir.y, ray.dir.w as int, 0x1000_0000_0000, rb);
    lemma_mul_bound(
        (ux * ray.dir.x + uy * ray.dir.y) * ray.dir.w,
        iwcw,
        0x400_0000_0000_0000,
        0x1000_0000,
    );
    lemma_mul_bound(
        rd2,
        ((ux * ray.dir.x + uy * ray.dir.y) * ray.dir.w) * iwcw,
        0x1000_0000,
        0x40_0000_0000_0000_0000_0000,
    );
    lemma_mul_bound(ux, ux, 0x2000_0000, 0x2000_0000);
    lemma_mul_bound(uy, uy, 0x2000_0000, 0x2000_0000);
    assert(0 <= ux * ux && 0 <= uy * uy) by (nonlinear_arith);
    lemma_mul_bound(ray.dir.w as int, ray.dir.w as int, rb, rb);
    lemma_mul_pos(ray.dir.w as int, ray.dir.w as int);
    lemma_mul_bound(ux * ux + uy * uy, ray.dir.w * ray.dir.w, 0x800_0000_0000_0000, 0x1000_0000);
    assert(0 <= (ux * ux + uy * uy) * (ray.dir.w * ray.dir.w)) by (nonlinear_arith)
        requires
            0 <= ux * ux + uy * uy,
            0 < ray.dir.w * ray.dir.w,
    ;
    lemma_mul_bound(
        rd2,
        (ux * ux + uy * uy) * (ray.dir.w * ray.dir.w),
        0x1000_0000,
        0x80_0000_0000_0000_0000_0000,
    );
    assert(0 <= rd2 * ((ux * ux + uy * uy) * (ray.dir.w * ray.dir.w))) by (nonlinear_arith)
        requires
            0 < rd2,
            0 <= (ux * ux + uy * uy) * (ray.dir.w * ray.dir.w),
    ;
    lemma_mul_bound(iwcw, ray.dir.w as int, 0x1000_0000, rb);
    lemma_mul_pos(iwcw, ray.dir.w as int);
    lemma_mul_bound(iwcw * ray.dir.w, iwcw * ray.dir.w, 0x400_0000_0000, 0x400_0000_0000);
    lemma_mul_pos(iwcw * ray.dir.w, iwcw * ray.dir.w);
    lemma_mul_bound(ci.radius.n as int, ci.radius.n as int, rb, rb);
    lemma_mul_pos(ci.radius.n as int, ci.radius.n as int);
    lemma_mul_bound(
        ci.radius.n * ci.radius.n,
        (iwcw * ray.dir.w) * (iwcw * ray.dir.w),
        0x1000_0000,
        0x10_0000_0000_0000_0000_0000,
    );
    lemma_mul_pos(ci.radius.n * ci.radius.n, (iwcw * ray.dir.w) * (iwcw * ray.dir.w));
}

impl Line {
    /// How often the line meets a circle.
    pub fn intersects_circle(&self, other: &Circle) -> (c: Count)
        requires
            other.wf(),
            other.within(ROUND_BOUND as int),
            self.within(ROUND_LINE_BOUND as int),
        ensures
            c == other.spec_count_line(*self),
    {
        other.intersects_line(self)
    }
}

/// Bounds for the line-circle radical comparison.
proof fn lemma_circle_line_products(ci: Circle, l: Line)
    requires
        ci.wf(),
        ci.within(ROUND_BOUND as int),
        l.within(ROUND_LINE_BOUND as int),
    ensures
        ({
            let n = l.a * ci.center.x + l.b * ci.center.y - l.c * ci.center.w;
            &&& -0x800_0000_0000 <= l.a * ci.center.x <= 0x800_0000_0000
            &&& -0x800_0000_0000 <= l.b * ci.center.y <= 0x800_0000_0000
            &&& -0x800_0000_0000 <= l.c * ci.center.w <= 0x800_0000_0000
            &&& 0 <= n * n <= 0x240_0000_0000_0000_0000_0000
            &&& 1 <= ci.radius.d * ci.radius.d <= 0x1000_0000
            &&& 1 <= ci.radius.n * ci.radius.n <= 0x1000_0000
            &&& 0 <= (n * n) * (ci.radius.d * ci.radius.d)
                <= 0x240_0000_0000_0000_0000_0000_0000_0000
            &&& 0 <= l.a * l.a <= 0x400_0000_0000_0000
            &&& 0 <= l.b * l.b <= 0x400_0000_0000_0000
            &&& 0 <= l.a * l.a + l.b * l.b <= 0x800_0000_0000_0000
            &&& 1 <= ci.center.w * ci.center.w <= 0x1000_0000
            &&& 0 <= (l.a * l.a + l.b * l.b) * (ci.center.w * ci.center.w)
                <= 0x80_0000_0000_0000_0000_0000
            &&& 0 <= (ci.radius.n * ci.radius.n) * ((l.a * l.a + l.b * l.b) * (ci.center.w
                * ci.center.w)) <= 0x8_0000_0000_0000_0000_0000_0000_0000
        }),
{
    let rb = ROUND_BOUND as int;
    let lb = ROUND_LINE_BOUND as int;
    lemma_mul_bound(l.a as int, ci.center.x as int, lb, rb);
    lemma_mul_bound(l.b as int, ci.center.y as int, lb, rb);
    lemma_mul_bound(l.c as int, ci.center.w as int, lb, rb);
    let n = l.a * ci.center.x + l.b * ci.center.y - l.c * ci.center.w;
    lemma_mul_bound(n, n, 0x1800_0000_0000, 0x1800_0000_0000);
    assert(0 <= n * n) by (nonlinear_arith);
    lemma_mul_bound(ci.radius.d as int, ci.radius.d as int, rb, rb);
    lemma_mul_pos(ci.radius.d as int, ci.radius.d as int);
    lemma_mul_bound(ci.radius.n as int, ci.radius.n as int, rb, rb);
    lemma_mul_pos(ci.radius.n as int, ci.radius.n as int);
    lemma_mul_bound(
        n * n,
        ci.radius.d * ci.radius.d,
        0x240_0000_0000_0000_0000_0000,
        0x1000_0000,
    );
    assert(0 <= (n * n) * (ci.radius.d * ci.radius.d)) by (nonlinear_arith)
        requires
            0 <= n * n,
            0 < ci.radius.d * ci.radius.d,
    ;
    lemma_mul_bound(l.a as int, l.a as int, lb, lb);
    lemma_mul_bound(l.b as int, l.b as int, lb, lb);
    assert(0 <= l.a * l.a && 0 <= l.b * l.b) by (nonlinear_arith);
    lemma_mul_bound(ci.center.w as int, ci.center.w as int, rb, rb);
    lemma_mul_pos(ci.center.w as int, ci.center.w as int);
    lemma_mul_bound(
        l.a * l.a + l.b * l.b,
        ci.center.w * ci.center.w,
        0x800_0000_0000_0000,
        0x1000_0000,
    );
    assert(0 <= (l.a * l.a + l.b * l.b) * (ci.center.w * ci.center.w)) by (nonlinear_arith)
        requires
            0 <= l.a * l.a + l.b * l.b,
            0 < ci.center.w * ci.center.w,
    ;
    lemma_mul_bound(
        ci.radius.n * ci.radius.n,
        (l.a * l.a + l.b * l.b) * (ci.center.w * ci.center.w),
        0x1000_0000,
        0x80_0000_0000_0000_0000_0000,
    );
    assert(0 <= (ci.radius.n * ci.radius.n) * ((l.a * l.a + l.b * l.b) * (ci.center.w
        * ci.center.w))) by (nonlinear_arith)
        requires
            0 < ci.radius.n * ci.radius.n,
            0 <= (l.a * l.a + l.b * l.b) * (ci.center.w * ci.center.w),
    ;
}

/// Bounds for the circle-circle radical comparison.
proof fn lemma_circle_pair_products(a: Circle, b: Circle)
    requires
        a.wf(),
        b.wf(),
        a.within(ROUND_BOUND as int),
        b.within(ROUND_BOUND as int),
    ensures
        ({
            let d2n = a.center.dist_sq_num(b.center);
            let d2d = (a.center.w * b.center.w) * (a.center.w * b.center.w);
            let sn = a.radius.n * b.radius.d + b.radius.n * a.radius.d;
            let dn = a.radius.n * b.radius.d - b.radius.n * a.radius.d;
            let sd = a.radius.d * b.radius.d;
            &&& -0x1000_0000 <= a.radius.n * b.radius.d <= 0x1000_0000
            &&& -0x1000_0000 <= b.radius.n * a.radius.d <= 0x1000_0000
            &&& 1 <= a.center.w * b.center.w <= 0x1000_0000
            &&& 1 <= sd <= 0x1000_0000
            &&& 1 <= sd * sd <= 0x100_0000_0000_0000
            &&& 0 <= d2n <= 0x800_0000_0000_0000
            &&& 0 <= d2n * (sd * sd) <= 0x8_0000_0000_0000_0000_0000_0000_0000
            &&& 0 <= sn * sn <= 0x400_0000_0000_0000
            &&& 0 <= dn * dn <= 0x400_0000_0000_0000
            &&& 1 <= d2d <= 0x100_0000_0000_0000
            &&& 0 <= (sn * sn) * d2d <= 0x4_0000_0000_0000_0000_0000_0000_0000
            &&& 0 <= (dn * dn) * d2d <= 0x4_0000_0000_0000_0000_0000_0000_0000
        }),
{
    let rb = ROUND_BOUND as int;
    crate::two::point::lemma_dist_sq_bounds(a.center, b.center, rb);
    lemma_mul_bound(a.radius.n as int, b.radius.d as int, rb, rb);
    lemma_mul_bound(b.radius.n as int, a.radius.d as int, rb, rb);
    lemma_mul_bound(a.radius.d as int, b.radius.d as int, rb, rb);
    lemma_mul_pos(a.radius.d as int, b.radius.d as int);
    let sd = a.radius.d * b.radius.d;
    lemma_mul_bound(sd, sd, 0x1000_0000, 0x1000_0000);
    lemma_mul_pos(sd, sd);
    let d2n = a.center.dist_sq_num(b.center);
    lemma_mul_bound(d2n, sd * sd, 0x800_0000_0000_0000, 0x100_0000_0000_0000);
    assert(0 <= d2n * (sd * sd)) by (nonlinear_arith)
        requires
            0 <= d2n,
            0 < sd * sd,
    ;
    let sn = a.radius.n * b.radius.d + b.radius.n * a.radius.d;
    let dn = a.radius.n * b.radius.d - b.radius.n * a.radius.d;
    lemma_mul_bound(sn, sn, 0x2000_0000, 0x2000_0000);
    lemma_mul_bound(dn, dn, 0x2000_0000, 0x2000_0000);
    assert(0 <= sn * sn && 0 <= dn * dn) by (nonlinear_arith);
    let d2d = (a.center.w * b.center.w) * (a.center.w * b.center.w);
    lemma_mul_bound(sn * sn, d2d, 0x400_0000_0000_0000, 0x100_0000_0000_0000);
    lemma_mul_bound(dn * dn, d2d, 0x400_0000_0000_0000, 0x100_0000_0000_0000);
    assert(0 <= (sn * sn) * d2d && 0 <= (dn * dn) * d2d) by (nonlinear_arith)
        requires
            0 <= sn * sn,
            0 <= dn * dn,
            0 < d2d,
    ;
}

} // verus!
