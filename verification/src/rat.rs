//! Exact rational numbers.
//!
//! The legacy format carries decimal numerals; the library keeps each value
//! exactly, as a fraction `num / den` with a positive denominator.  Values
//! decoded from the input are `bounded`: both components stay below
//! `RAT_BOUND`, so that comparisons can cross-multiply in `i128` without
//! overflow.  Quotients of bounded values are merely well-formed.

use vstd::prelude::*;

verus! {

/// Magnitude limit for decoded rationals: `10^18`.
pub const RAT_BOUND: i128 = 1_000_000_000_000_000_000;

/// An exact rational `num / den`.
#[derive(Clone, Copy, Debug, PartialEq, Eq, Structural)]
pub struct Rat {
    pub num: i128,
    pub den: i128,
}

/// Mathematical value of a rational: an unbounded numerator/denominator pair.
pub struct RatV {
    pub n: int,
    pub d: int,
}

impl View for Rat {
    type V = RatV;

    open spec fn view(&self) -> RatV {
        RatV { n: self.num as int, d: self.den as int }
    }
}

impl Rat {
    /// A rational is well formed when its denominator is positive.
    pub open spec fn wf(self) -> bool {
        self.den > 0
    }

    /// A decoded rational: well formed with both components below `RAT_BOUND`.
    pub open spec fn bounded(self) -> bool {
        &&& self.wf()
        &&& -RAT_BOUND < self.num < RAT_BOUND
        &&& self.den <= RAT_BOUND
    }
}

/// `a <= b` as rationals (valid when both denominators are positive).
pub open spec fn rv_le(a: RatV, b: RatV) -> bool {
    a.n * b.d <= b.n * a.d
}

/// `a == b` as rationals (valid when both denominators are positive).
pub open spec fn rv_eq(a: RatV, b: RatV) -> bool {
    a.n * b.d == b.n * a.d
}

/// The smaller of two rationals, keeping `a`'s representation on ties.
pub open spec fn rv_min(a: RatV, b: RatV) -> RatV {
    if rv_le(a, b) {
        a
    } else {
        b
    }
}

/// The larger of two rationals, keeping `a`'s representation on ties.
pub open spec fn rv_max(a: RatV, b: RatV) -> RatV {
    if rv_le(b, a) {
        a
    } else {
        b
    }
}

/// The quotient `p / q` (valid when `q.n != 0`), with the sign moved into
/// the numerator so the denominator stays positive.
pub open spec fn rv_div(p: RatV, q: RatV) -> RatV {
    if q.n < 0 {
        RatV { n: -(p.n * q.d), d: p.d * -q.n }
    } else {
        RatV { n: p.n * q.d, d: p.d * q.n }
    }
}

/// The product `p * q`.
pub open spec fn rv_mul(p: RatV, q: RatV) -> RatV {
    RatV { n: p.n * q.n, d: p.d * q.d }
}

/// A rational value with a positive denominator, for which the order
/// relations above are meaningful.
pub open spec fn rv_pos(v: RatV) -> bool {
    v.d > 0
}

/// `rv_le` is transitive over positive denominators.
pub proof fn lemma_rv_le_trans(a: RatV, b: RatV, c: RatV)
    requires
        rv_pos(a),
        rv_pos(b),
        rv_pos(c),
        rv_le(a, b),
        rv_le(b, c),
    ensures
        rv_le(a, c),
{
    assert(a.n * c.d <= c.n * a.d) by (nonlinear_arith)
        requires
            a.d > 0,
            b.d > 0,
            c.d > 0,
            a.n * b.d <= b.n * a.d,
            b.n * c.d <= c.n * b.d,
    ;
}

/// `rv_min` sits below both arguments, `rv_max` above.
pub proof fn lemma_rv_min_max_bounds(a: RatV, b: RatV)
    requires
        rv_pos(a),
        rv_pos(b),
    ensures
        rv_le(rv_min(a, b), a),
        rv_le(rv_min(a, b), b),
        rv_le(a, rv_max(a, b)),
        rv_le(b, rv_max(a, b)),
{
}

proof fn lemma_cross_product_in_range(a: Rat, b: Rat)
    requires
        a.bounded(),
        b.bounded(),
    ensures
        -(RAT_BOUND as int) * (RAT_BOUND as int) <= a.num * b.den <= (RAT_BOUND as int) * (
        RAT_BOUND as int),
{
    assert(-(RAT_BOUND as int) * (RAT_BOUND as int) <= a.num * b.den <= (RAT_BOUND as int) * (
    RAT_BOUND as int)) by (nonlinear_arith)
        requires
            -RAT_BOUND < a.num < RAT_BOUND,
            0 < b.den <= RAT_BOUND,
    ;
}

/// Comparison `a <= b`, by cross-multiplication.
pub fn rat_le(a: &Rat, b: &Rat) -> (r: bool)
    requires
        a.bounded(),
        b.bounded(),
    ensures
        r == rv_le(a@, b@),
{
    proof {
        lemma_cross_product_in_range(*a, *b);
        lemma_cross_product_in_range(*b, *a);
    }
    a.num * b.den <= b.num * a.den
}

/// The smaller of two decoded rationals.
pub fn rat_min(a: Rat, b: Rat) -> (r: Rat)
    requires
        a.bounded(),
        b.bounded(),
    ensures
        r@ == rv_min(a@, b@),
        r.bounded(),
{
    if rat_le(&a, &b) {
        a
    } else {
        b
    }
}

/// The larger of two decoded rationals.
pub fn rat_max(a: Rat, b: Rat) -> (r: Rat)
    requires
        a.bounded(),
        b.bounded(),
    ensures
        r@ == rv_max(a@, b@),
        r.bounded(),
{
    if rat_le(&b, &a) {
        a
    } else {
        b
    }
}

/// The exact quotient `p / q`.  The result is well formed but need not be
/// `bounded`: its components can reach `RAT_BOUND^2`.
pub fn rat_div(p: &Rat, q: &Rat) -> (r: Rat)
    requires
        p.bounded(),
        q.bounded(),
        q.num != 0,
    ensures
        r@ == rv_div(p@, q@),
        r.wf(),
{
    proof {
        lemma_cross_product_in_range(*p, *q);
        assert(-(RAT_BOUND as int) * (RAT_BOUND as int) <= p.den * q.num <= (RAT_BOUND as int) * (
        RAT_BOUND as int)) by (nonlinear_arith)
            requires
                0 < p.den <= RAT_BOUND,
                -RAT_BOUND < q.num < RAT_BOUND,
        ;
    }
    let n = p.num * q.den;
    let d = p.den * q.num;
    proof {
        if q.num < 0 {
            assert(d < 0 && p.den as int * -(q.num as int) == -(d as int)) by (nonlinear_arith)
                requires
                    p.den > 0,
                    q.num < 0,
                    d == p.den * q.num,
            ;
        } else {
            assert(d > 0) by (nonlinear_arith)
                requires
                    p.den > 0,
                    q.num > 0,
                    d == p.den * q.num,
            ;
        }
    }
    if d < 0 {
        Rat { num: -n, den: -d }
    } else {
        Rat { num: n, den: d }
    }
}

} // verus!
