use vstd::prelude::*;

verus! {

/// True when the mathematical integer `v` fits an `i128` with room to negate.
pub open spec fn fits(v: int) -> bool {
    -(i128::MAX as int) <= v <= i128::MAX as int
}

/// Largest magnitude allowed on either side of an exact cross-multiplied
/// comparison: two factors of this size always multiply within an `i128`.
pub const CMP_BOUND: i128 = 0x7fff_ffff_ffff_ffff;

/// An exact rational scalar: the value `n / d`, with `d` kept positive.
///
/// Two `Rat`s denote the same value when their cross products agree, so
/// structural equality is finer than value equality; contracts use
/// `spec_eq` and executable code uses `eq_val`.
#[derive(Clone, Copy, Debug)]
pub struct Rat {
    pub n: i128,
    pub d: i128,
}

impl Rat {
    /// Denominator positive, numerator negatable without overflow.
    pub open spec fn wf(self) -> bool {
        &&& 1 <= self.d
        &&& -(i128::MAX as int) <= self.n
    }

    /// Numerator and denominator both bounded in magnitude by `b`.
    pub open spec fn within(self, b: int) -> bool {
        &&& -b <= self.n <= b
        &&& 1 <= self.d <= b
    }

    /// The two rationals denote the same value.
    pub open spec fn spec_eq(self, o: Rat) -> bool {
        self.n * o.d == o.n * self.d
    }

    /// `self <= o` as values (valid under `wf`, where denominators are positive).
    pub open spec fn spec_le(self, o: Rat) -> bool {
        self.n * o.d <= o.n * self.d
    }

    /// `self < o` as values.
    pub open spec fn spec_lt(self, o: Rat) -> bool {
        self.n * o.d < o.n * self.d
    }

    pub fn new(n: i64, d: i64) -> (r: Rat)
        requires
            1 <= d,
        ensures
            r.n == n,
            r.d == d,
            r.wf(),
            r.within(0x8000_0000_0000_0000),
    {
        Rat { n: n as i128, d: d as i128 }
    }

    pub fn from_int(v: i64) -> (r: Rat)
        ensures
            r.n == v,
            r.d == 1,
            r.wf(),
            r.within(0x8000_0000_0000_0000),
    {
        Rat { n: v as i128, d: 1 }
    }

    pub fn zero() -> (r: Rat)
        ensures
            r.n == 0,
            r.d == 1,
            r.wf(),
            r.within(1),
    {
        Rat { n: 0, d: 1 }
    }

    /// Value equality, decided by exact cross multiplication.
    pub fn eq_val(self, o: Rat) -> (r: bool)
        requires
            self.wf(),
            o.wf(),
            self.within(CMP_BOUND as int),
            o.within(CMP_BOUND as int),
        ensures
            r == self.spec_eq(o),
    {
        proof {
            lemma_cross_product_fits(self, o);
        }
        self.n * o.d == o.n * self.d
    }

    pub fn le(self, o: Rat) -> (r: bool)
        requires
            self.wf(),
            o.wf(),
            self.within(CMP_BOUND as int),
            o.within(CMP_BOUND as int),
        ensures
            r == self.spec_le(o),
    {
        proof {
            lemma_cross_product_fits(self, o);
        }
        self.n * o.d <= o.n * self.d
    }

    pub fn lt(self, o: Rat) -> (r: bool)
        requires
            self.wf(),
            o.wf(),
            self.within(CMP_BOUND as int),
            o.within(CMP_BOUND as int),
        ensures
            r == self.spec_lt(o),
    {
        proof {
            lemma_cross_product_fits(self, o);
        }
        self.n * o.d < o.n * self.d
    }

    pub fn neg(self) -> (r: Rat)
        requires
            self.wf(),
        ensures
            r.n == -self.n,
            r.d == self.d,
            r.wf(),
    {
        Rat { n: -self.n, d: self.d }
    }

    pub fn is_nonneg(self) -> (r: bool)
        requires
            self.wf(),
        ensures
            r == (0 <= self.n),
    {
        0 <= self.n
    }
}

/// A product inside the negatable `i128` range, or nothing.
pub fn mul_fit(a: i128, b: i128) -> (r: Option<i128>)
    ensures
        match r {
            Option::Some(v) => fits(a * b) && v == a * b,
            Option::None => !fits(a * b),
        },
{
    match a.checked_mul(b) {
        Option::Some(v) => {
            if v == i128::MIN {
                Option::None
            } else {
                Option::Some(v)
            }
        },
        Option::None => Option::None,
    }
}

/// A sum inside the negatable `i128` range, or nothing.
pub fn add_fit(a: i128, b: i128) -> (r: Option<i128>)
    ensures
        match r {
            Option::Some(v) => fits(a + b) && v == a + b,
            Option::None => !fits(a + b),
        },
{
    match a.checked_add(b) {
        Option::Some(v) => {
            if v == i128::MIN {
                Option::None
            } else {
                Option::Some(v)
            }
        },
        Option::None => Option::None,
    }
}

/// The rational order is transitive.
pub proof fn lemma_le_trans(a: Rat, b: Rat, c: Rat)
    by (nonlinear_arith)
    requires
        a.wf(),
        b.wf(),
        c.wf(),
        a.spec_le(b),
        b.spec_le(c),
    ensures
        a.spec_le(c),
{
}

/// Value equality composes with the order: equal rationals compare the
/// same way against any third.
pub proof fn lemma_eq_le_compat(a: Rat, b: Rat, c: Rat)
    by (nonlinear_arith)
    requires
        a.wf(),
        b.wf(),
        c.wf(),
        a.spec_eq(b),
    ensures
        a.spec_le(c) == b.spec_le(c),
        c.spec_le(a) == c.spec_le(b),
        a.spec_eq(c) == b.spec_eq(c),
{
}

/// Cross products of two comparison-bounded rationals stay inside `i128`.
proof fn lemma_cross_product_fits(a: Rat, b: Rat)
    requires
        a.within(CMP_BOUND as int),
        b.within(CMP_BOUND as int),
    ensures
        fits(a.n * b.d),
        fits(b.n * a.d),
{
    assert(-(i128::MAX as int) <= a.n * b.d <= i128::MAX as int
        && -(i128::MAX as int) <= b.n * a.d <= i128::MAX as int) by (nonlinear_arith)
        requires
            -(CMP_BOUND as int) <= a.n <= CMP_BOUND as int,
            -(CMP_BOUND as int) <= b.n <= CMP_BOUND as int,
            1 <= a.d <= CMP_BOUND as int,
            1 <= b.d <= CMP_BOUND as int,
    ;
}

} // verus!
