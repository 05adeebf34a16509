use vstd::prelude::*;

verus! {

/// Ghost-level rational scalar: the value `n / d`, meaningful when `d > 0`.
/// All ray parameters (`t` values) and derived coordinates are exact
/// rationals, so every comparison in the geometry kernel is decided exactly.
pub struct Sc {
    pub n: int,
    pub d: int,
}

pub open spec fn qlt(a: Sc, b: Sc) -> bool {
    a.n * b.d < b.n * a.d
}

pub open spec fn qle(a: Sc, b: Sc) -> bool {
    a.n * b.d <= b.n * a.d
}

pub open spec fn qeq(a: Sc, b: Sc) -> bool {
    a.n * b.d == b.n * a.d
}

pub open spec fn sc_ok(a: Sc) -> bool {
    0 < a.d
}

/// Transitivity and exchange facts for the rational order; each needs
/// nonlinear reasoning once, and is linear to apply afterwards.
pub proof fn lemma_qle_trans(a: Sc, b: Sc, c: Sc)
    by (nonlinear_arith)
    requires
        sc_ok(a),
        sc_ok(b),
        sc_ok(c),
        qle(a, b),
        qle(b, c),
    ensures
        qle(a, c),
{
}

pub proof fn lemma_qlt_trans(a: Sc, b: Sc, c: Sc)
    by (nonlinear_arith)
    requires
        sc_ok(a),
        sc_ok(b),
        sc_ok(c),
        qlt(a, b),
        qlt(b, c),
    ensures
        qlt(a, c),
{
}

pub proof fn lemma_qlt_qle_trans(a: Sc, b: Sc, c: Sc)
    by (nonlinear_arith)
    requires
        sc_ok(a),
        sc_ok(b),
        sc_ok(c),
        qlt(a, b),
        qle(b, c),
    ensures
        qlt(a, c),
{
}

pub proof fn lemma_qle_qlt_trans(a: Sc, b: Sc, c: Sc)
    by (nonlinear_arith)
    requires
        sc_ok(a),
        sc_ok(b),
        sc_ok(c),
        qle(a, b),
        qlt(b, c),
    ensures
        qlt(a, c),
{
}

/// With positive denominators the order is total: `a < b`, `a == b`, or `b < a`.
pub proof fn lemma_q_total(a: Sc, b: Sc)
    requires
        sc_ok(a),
        sc_ok(b),
    ensures
        qlt(a, b) || qeq(a, b) || qlt(b, a),
        qle(a, b) <==> !qlt(b, a),
        qeq(a, b) <==> (qle(a, b) && qle(b, a)),
{
}

/// Equal values may be substituted on either side of the order.
pub proof fn lemma_qeq_subst(a: Sc, b: Sc, c: Sc)
    by (nonlinear_arith)
    requires
        sc_ok(a),
        sc_ok(b),
        sc_ok(c),
        qeq(a, b),
    ensures
        qlt(a, c) <==> qlt(b, c),
        qlt(c, a) <==> qlt(c, b),
        qle(a, c) <==> qle(b, c),
        qle(c, a) <==> qle(c, b),
{
}

pub proof fn lemma_qeq_trans(a: Sc, b: Sc, c: Sc)
    by (nonlinear_arith)
    requires
        sc_ok(a),
        sc_ok(b),
        sc_ok(c),
        qeq(a, b),
        qeq(b, c),
    ensures
        qeq(a, c),
{
}

/// Numerator and denominator bounds under which two rationals can be
/// compared in `i128` arithmetic without overflow.
pub open spec fn sc_bounded(a: Sc, nb: int, db: int) -> bool {
    -nb <= a.n <= nb && 0 < a.d <= db
}

pub proof fn lemma_cross_bound(a: Sc, b: Sc, nb: int, db: int)
    by (nonlinear_arith)
    requires
        0 <= nb,
        0 <= db,
        sc_bounded(a, nb, db),
        sc_bounded(b, nb, db),
    ensures
        -(nb * db) <= a.n * b.d <= nb * db,
        -(nb * db) <= b.n * a.d <= nb * db,
{
}

/// Executable exact rational: `num / den` with `den > 0`.  The geometry
/// kernel keeps every `t` value it compares within `NUM_BOUND` and
/// `DEN_BOUND`, so cross multiplications fit in `i128`.
pub const NUM_BOUND: i128 = 1180591620717411303424;

pub const DEN_BOUND: i128 = 35184372088832;

#[derive(Clone, Copy, Debug)]
pub struct Rat {
    pub num: i128,
    pub den: i128,
}

impl Rat {
    /// The rational value this pair denotes.
    pub open spec fn v(self) -> Sc {
        Sc { n: self.num as int, d: self.den as int }
    }

    pub open spec fn wf(self) -> bool {
        0 < self.den
    }

    /// Tight enough for exact `i128` comparison against any other
    /// `bounded` rational.
    pub open spec fn bounded(self) -> bool {
        sc_bounded(self.v(), NUM_BOUND as int, DEN_BOUND as int)
    }

    pub fn new(num: i64, den: i64) -> (r: Rat)
        requires
            0 < den <= DEN_BOUND,
        ensures
            r.v() == (Sc { n: num as int, d: den as int }),
            r.wf(),
            r.bounded(),
    {
        Rat { num: num as i128, den: den as i128 }
    }

    pub fn from_int(num: i64) -> (r: Rat)
        ensures
            r == (Rat { num: num as i128, den: 1 }),
            r.v() == (Sc { n: num as int, d: 1int }),
            r.wf(),
            r.bounded(),
    {
        Rat { num: num as i128, den: 1 }
    }

    pub fn lt(&self, other: &Rat) -> (r: bool)
        requires
            self.wf(),
            other.wf(),
            self.bounded(),
            other.bounded(),
        ensures
            r == qlt(self.v(), other.v()),
    {
        proof {
            lemma_cross_bound(self.v(), other.v(), NUM_BOUND as int, DEN_BOUND as int);
        }
        self.num * other.den < other.num * self.den
    }

    pub fn le(&self, other: &Rat) -> (r: bool)
        requires
            self.wf(),
            other.wf(),
            self.bounded(),
            other.bounded(),
        ensures
            r == qle(self.v(), other.v()),
    {
        proof {
            lemma_cross_bound(self.v(), other.v(), NUM_BOUND as int, DEN_BOUND as int);
        }
        self.num * other.den <= other.num * self.den
    }

    pub fn eqv(&self, other: &Rat) -> (r: bool)
        requires
            self.wf(),
            other.wf(),
            self.bounded(),
            other.bounded(),
        ensures
            r == qeq(self.v(), other.v()),
    {
        proof {
            lemma_cross_bound(self.v(), other.v(), NUM_BOUND as int, DEN_BOUND as int);
        }
        self.num * other.den == other.num * self.den
    }
}

/// Floor of the square root, the exact integer substitute for `sqrt`:
/// `r` is the unique integer with `r * r <= n < (r + 1) * (r + 1)`.
pub open spec fn is_sqrt_floor(n: int, r: int) -> bool {
    0 <= r && r * r <= n && n < (r + 1) * (r + 1)
}

pub proof fn lemma_sqrt_floor_unique(n: int, r1: int, r2: int)
    by (nonlinear_arith)
    requires
        is_sqrt_floor(n, r1),
        is_sqrt_floor(n, r2),
    ensures
        r1 == r2,
{
}

/// The floor square root as a ghost value, fixed by its characterization.
pub open spec fn sqf(n: int) -> int {
    choose|r: int| is_sqrt_floor(n, r)
}

/// Any witness of the characterization is the ghost floor square root.
pub proof fn lemma_sqf_is(n: int, w: int)
    requires
        is_sqrt_floor(n, w),
    ensures
        sqf(n) == w,
        0 <= sqf(n),
{
    assert(exists|r: int| is_sqrt_floor(n, r));
    assert(is_sqrt_floor(n, sqf(n)));
    lemma_sqrt_floor_unique(n, sqf(n), w);
}

/// Every nonnegative integer has a floor square root.
pub proof fn lemma_sqrt_exists(n: int)
    requires
        0 <= n,
    ensures
        is_sqrt_floor(n, sqf(n)),
    decreases n,
{
    if n == 0 {
        assert(is_sqrt_floor(0, 0)) by (nonlinear_arith);
    } else {
        lemma_sqrt_exists(n - 1);
        let r0 = sqf(n - 1);
        if n < (r0 + 1) * (r0 + 1) {
            assert(is_sqrt_floor(n, r0));
        } else {
            assert(n == (r0 + 1) * (r0 + 1));
            assert((r0 + 1) * (r0 + 1) < (r0 + 2) * (r0 + 2)) by (nonlinear_arith)
                requires
                    0 <= r0,
            ;
            assert(is_sqrt_floor(n, r0 + 1));
        }
    }
    assert(is_sqrt_floor(n, sqf(n)));
}

/// Binary search for the floor square root on `i128`.
/// The largest argument `sqrt_floor` accepts, `2^126`.
pub const SQRT_ARG_BOUND: i128 = 85070591730234615865843651857942052864;

pub fn sqrt_floor(n: i128) -> (r: i128)
    requires
        0 <= n < SQRT_ARG_BOUND,
    ensures
        is_sqrt_floor(n as int, r as int),
{
    let mut lo: i128 = 0;
    let mut hi: i128 = 9223372036854775808;
    proof {
        assert(9223372036854775808int * 9223372036854775808int
            == 85070591730234615865843651857942052864int) by (nonlinear_arith);
    }
    // Invariant: lo * lo <= n and hi * hi > n, so the answer is in [lo, hi).
    while lo + 1 < hi
        invariant
            0 <= lo < hi <= 9223372036854775808,
            lo * lo <= n,
            hi * hi > n,
            n < SQRT_ARG_BOUND,
        decreases hi - lo,
    {
        let mid = lo + (hi - lo) / 2;
        assert(lo < mid < hi);
        assert(mid * mid <= 9223372036854775807int * 9223372036854775807int)
            by (nonlinear_arith)
            requires
                0 < mid <= 9223372036854775807int,
        ;
        if mid * mid <= n {
            lo = mid;
        } else {
            hi = mid;
        }
    }
    assert(hi == lo + 1);
    lo
}

} // verus!
