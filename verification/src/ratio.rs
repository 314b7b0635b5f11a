//! The ratio panel data: each curve of a block compared with the first.
//!
//! Curves are paired by position, never by matching x values: entry `k` of
//! curve `i` is compared with entry `k` of the reference curve, emitting
//! `(x_i[k], y_i[k] / y_0[k])`.  The reference curve itself is not part of
//! the output.  Where the reference y is zero the quotient does not exist
//! as a rational and the entry carries no value.

use vstd::prelude::*;
use crate::rat::{Rat, RatV, rv_div, rv_mul, rv_eq, rat_div};
use crate::curves::{Point, PointV, Curve, CurveV, point_bounded, curve_bounded, pv, cv};

verus! {

/// One entry of a ratio sequence: the x of the compared curve, and the
/// quotient of the y values where it exists.
#[derive(Clone, Copy, Debug)]
pub struct RatioPoint {
    pub x: Rat,
    pub y: Option<Rat>,
}

/// Mathematical value of a ratio entry.
pub struct RPointV {
    pub x: RatV,
    pub y: Option<RatV>,
}

impl View for RatioPoint {
    type V = RPointV;

    open spec fn view(&self) -> RPointV {
        RPointV {
            x: self.x@,
            y: match self.y {
                Some(q) => Some(q@),
                None => None,
            },
        }
    }
}

/// View of a ratio sequence.
pub open spec fn rpv(rs: Seq<RatioPoint>) -> Seq<RPointV> {
    rs.map_values(|p: RatioPoint| p@)
}

/// View of a list of ratio sequences.
pub open spec fn rrv(rss: Seq<Vec<RatioPoint>>) -> Seq<Seq<RPointV>> {
    rss.map_values(|v: Vec<RatioPoint>| rpv(v@))
}

/// The ratio sequence of curve `b` against reference `a`: positional
/// pairing over the shorter length.
pub open spec fn spec_ratio_seq(a: Seq<PointV>, b: Seq<PointV>) -> Seq<RPointV> {
    Seq::new(
        if a.len() <= b.len() {
            a.len()
        } else {
            b.len()
        },
        |k: int|
            RPointV {
                x: b[k].x,
                y: if a[k].y.n == 0 {
                    None
                } else {
                    Some(rv_div(b[k].y, a[k].y))
                },
            },
    )
}

/// The ratio sequences of a block: every curve after the first, against the
/// first.
pub open spec fn spec_ratios(cs: Seq<CurveV>) -> Seq<Seq<RPointV>> {
    if cs.len() == 0 {
        Seq::empty()
    } else {
        Seq::new((cs.len() - 1) as nat, |i: int| spec_ratio_seq(cs[0].points, cs[i + 1].points))
    }
}

/// Computes the ratio sequence of `b` against the reference `a`.
#[verifier::loop_isolation(false)]
pub fn ratio_seq(a: &Vec<Point>, b: &Vec<Point>) -> (r: Vec<RatioPoint>)
    requires
        forall|i: int| 0 <= i < a@.len() ==> point_bounded(a@[i]),
        forall|i: int| 0 <= i < b@.len() ==> point_bounded(b@[i]),
    ensures
        rpv(r@) == spec_ratio_seq(pv(a@), pv(b@)),
{
    let n: usize = if a.len() <= b.len() {
        a.len()
    } else {
        b.len()
    };
    let mut out: Vec<RatioPoint> = Vec::new();
    let mut k: usize = 0;
    while k < n
        invariant
            0 <= k <= n,
            out@.len() == k,
            forall|i: int| 0 <= i < k ==> out@[i]@ == spec_ratio_seq(pv(a@), pv(b@))[i],
        decreases n - k,
    {
        let y0 = a[k].y;
        if y0.num == 0 {
            out.push(RatioPoint { x: b[k].x, y: None });
        } else {
            let q = rat_div(&b[k].y, &a[k].y);
            out.push(RatioPoint { x: b[k].x, y: Some(q) });
        }
        k = k + 1;
    }
    proof {
        assert(rpv(out@) =~= spec_ratio_seq(pv(a@), pv(b@)));
    }
    out
}

/// Computes the ratio sequences of one block's curves.
#[verifier::loop_isolation(false)]
pub fn compute_ratios(cs: &Vec<Curve>) -> (r: Vec<Vec<RatioPoint>>)
    requires
        forall|i: int| 0 <= i < cs@.len() ==> curve_bounded(cs@[i]),
    ensures
        rrv(r@) == spec_ratios(cv(cs@)),
{
    let mut out: Vec<Vec<RatioPoint>> = Vec::new();
    if cs.len() == 0 {
        proof {
            assert(rrv(out@) =~= spec_ratios(cv(cs@)));
        }
        return out;
    }
    let mut i: usize = 1;
    while i < cs.len()
        invariant
            1 <= i <= cs@.len(),
            out@.len() == i - 1,
            forall|j: int| 0 <= j < i - 1 ==> rpv(out@[j]@) == spec_ratios(cv(cs@))[j],
        decreases cs@.len() - i,
    {
        let r = ratio_seq(&cs[0].points, &cs[i].points);
        out.push(r);
        i = i + 1;
    }
    proof {
        assert(rrv(out@) =~= spec_ratios(cv(cs@)));
    }
    out
}

/// Ratio Calculator law: for a block whose curves all have the length of
/// the reference curve, every ratio sequence has that same length; entry
/// `k` of the sequence for curve `i` carries `x_i[k]`, and, where the
/// reference y is nonzero, exactly the quotient `y_i[k] / y_0[k]`: a value
/// `q` with `q * y_0[k] == y_i[k]` as rationals.  Where the reference y is
/// zero the entry carries no value.
pub proof fn lemma_ratio_pointwise(cs: Seq<CurveV>, i: int, k: int)
    requires
        1 <= i < cs.len(),
        cs[i].points.len() == cs[0].points.len(),
        0 <= k < cs[i].points.len(),
        cs[0].points[k].y.d > 0,
        cs[i].points[k].y.d > 0,
    ensures
        spec_ratios(cs).len() == cs.len() - 1,
        spec_ratios(cs)[i - 1].len() == cs[0].points.len(),
        spec_ratios(cs)[i - 1][k].x == cs[i].points[k].x,
        cs[0].points[k].y.n == 0 ==> spec_ratios(cs)[i - 1][k].y is None,
        cs[0].points[k].y.n != 0 ==> spec_ratios(cs)[i - 1][k].y == Some(
            rv_div(cs[i].points[k].y, cs[0].points[k].y),
        ),
        cs[0].points[k].y.n != 0 ==> rv_eq(
            rv_mul(rv_div(cs[i].points[k].y, cs[0].points[k].y), cs[0].points[k].y),
            cs[i].points[k].y,
        ),
{
    let y0 = cs[0].points[k].y;
    let yi = cs[i].points[k].y;
    if y0.n != 0 {
        let q = rv_div(yi, y0);
        assert(rv_mul(q, y0).n * yi.d == yi.n * rv_mul(q, y0).d) by (nonlinear_arith)
            requires
                q == rv_div(yi, y0),
                rv_mul(q, y0) == (RatV { n: q.n * y0.n, d: q.d * y0.d }),
        ;
    }
}

} // verus!
