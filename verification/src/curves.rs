//! Reading titled point lists from the curve data stream.
//!
//! For each completed block the reader consumes `no_curves` groups from the
//! companion stream: one title line, then `"x y"` point lines until a blank
//! line (which is consumed) or the end of the stream.  Each point widens the
//! autoscale accumulators of the live settings.  A malformed point line is
//! fatal, and so is running out of lines where a title is expected; this is
//! deliberately harsher than the tolerant header decoding, and the two
//! failures carry distinct error values.

use vstd::prelude::*;
use crate::rat::{Rat, RatV, rv_min, rv_max, rv_le, rv_pos, rat_min, rat_max, lemma_rv_le_trans,
    lemma_rv_min_max_bounds};
use crate::decode::{
    is_blank, is_space, trim_start, find_space, spec_parse_rat, blank_line, parse_rat,
    lemma_trim_start_skip, lemma_find_space_is,
};
use crate::settings::{PlotSettings, SettingsV, AxisLo, AxisLoV};

verus! {

/// Why a run stops early.
#[derive(Clone, Copy, Debug, PartialEq, Eq, Structural)]
pub enum RunError {
    /// The curve stream ended where a curve title was expected.
    TitleExhausted,
    /// A point line failed numeric parsing.
    MalformedPoint,
}

/// One data point.
#[derive(Clone, Copy, Debug, PartialEq, Eq, Structural)]
pub struct Point {
    pub x: Rat,
    pub y: Rat,
}

/// Mathematical value of a point.
pub struct PointV {
    pub x: RatV,
    pub y: RatV,
}

impl View for Point {
    type V = PointV;

    open spec fn view(&self) -> PointV {
        PointV { x: self.x@, y: self.y@ }
    }
}

/// A titled, ordered point sequence.  Insertion order is file order; the
/// ratio pairing depends on it.
pub struct Curve {
    pub title: Vec<u8>,
    pub points: Vec<Point>,
}

/// Mathematical value of a curve.
#[verifier::ext_equal]
pub struct CurveV {
    pub title: Seq<u8>,
    pub points: Seq<PointV>,
}

impl View for Curve {
    type V = CurveV;

    open spec fn view(&self) -> CurveV {
        CurveV { title: self.title@, points: self.points@.map_values(|p: Point| p@) }
    }
}

/// Both coordinates are decoded (bounded) rationals.
pub open spec fn point_bounded(p: Point) -> bool {
    p.x.bounded() && p.y.bounded()
}

/// Every point of the curve is bounded.
pub open spec fn curve_bounded(c: Curve) -> bool {
    forall|j: int| 0 <= j < c.points@.len() ==> point_bounded(c.points@[j])
}

/// View of a point sequence.
pub open spec fn pv(ps: Seq<Point>) -> Seq<PointV> {
    ps.map_values(|p: Point| p@)
}

/// View of a curve sequence.
pub open spec fn cv(cs: Seq<Curve>) -> Seq<CurveV> {
    cs.map_values(|c: Curve| c@)
}

/// View of a line sequence.
pub open spec fn lv(lines: Seq<Vec<u8>>) -> Seq<Seq<u8>> {
    lines.map_values(|l: Vec<u8>| l@)
}

/// Value of a point line: the first two whitespace-separated tokens read as
/// decimal numerals.  Anything after the second token is ignored.
pub open spec fn spec_parse_point(l: Seq<u8>) -> Option<PointV> {
    let t1 = trim_start(l);
    let xe = find_space(t1);
    let xt = t1.subrange(0, xe);
    let rest = trim_start(t1.subrange(xe, t1.len() as int));
    let ye = find_space(rest);
    let yt = rest.subrange(0, ye);
    if xt.len() > 0 && yt.len() > 0 {
        match (spec_parse_rat(xt), spec_parse_rat(yt)) {
            (Some(x), Some(y)) => Some(PointV { x, y }),
            _ => None,
        }
    } else {
        None
    }
}

/// First index `>= off` holding a non-space byte, or `v.len()`.
#[verifier::loop_isolation(false)]
fn scan_while_space(v: &Vec<u8>, off: usize) -> (r: usize)
    requires
        off <= v.len(),
    ensures
        off <= r <= v.len(),
        forall|j: int| off <= j < r ==> is_space(v@[j]),
        r < v.len() ==> !is_space(v@[r as int]),
{
    let mut i: usize = off;
    while i < v.len() && space_probe(v, i)
        invariant
            off <= i <= v.len(),
            forall|j: int| off <= j < i ==> is_space(v@[j]),
        decreases v.len() - i,
    {
        i = i + 1;
    }
    i
}

/// First index `>= off` holding a space byte, or `v.len()`.
#[verifier::loop_isolation(false)]
fn scan_until_space(v: &Vec<u8>, off: usize) -> (r: usize)
    requires
        off <= v.len(),
    ensures
        off <= r <= v.len(),
        forall|j: int| off <= j < r ==> !is_space(v@[j]),
        r < v.len() ==> is_space(v@[r as int]),
{
    let mut i: usize = off;
    while i < v.len() && !space_probe(v, i)
        invariant
            off <= i <= v.len(),
            forall|j: int| off <= j < i ==> !is_space(v@[j]),
        decreases v.len() - i,
    {
        i = i + 1;
    }
    i
}

/// Whitespace test on byte `i` of `v`.
fn space_probe(v: &Vec<u8>, i: usize) -> (r: bool)
    requires
        i < v.len(),
    ensures
        r == is_space(v@[i as int]),
{
    let b = v[i];
    b == 32 || b == 9 || b == 10 || b == 12 || b == 13
}

/// Copy of the byte range `[lo, hi)` of `v`.
#[verifier::loop_isolation(false)]
pub(crate) fn copy_range(v: &Vec<u8>, lo: usize, hi: usize) -> (out: Vec<u8>)
    requires
        lo <= hi <= v.len(),
    ensures
        out@ == v@.subrange(lo as int, hi as int),
{
    let mut out: Vec<u8> = Vec::new();
    let mut i: usize = lo;
    while i < hi
        invariant
            lo <= i <= hi,
            out@ =~= v@.subrange(lo as int, i as int),
        decreases hi - i,
    {
        out.push(v[i]);
        i = i + 1;
    }
    proof {
        assert(out@ =~= v@.subrange(lo as int, hi as int));
    }
    out
}

/// Decodes one `"x y"` point line.
#[verifier::loop_isolation(false)]
#[verifier::rlimit(60)]
pub fn parse_point(l: &Vec<u8>) -> (r: Option<Point>)
    ensures
        match r {
            Some(p) => spec_parse_point(l@) == Some(p@) && point_bounded(p),
            None => spec_parse_point(l@) is None,
        },
{
    let n = l.len();
    let i0 = scan_while_space(l, 0);
    let ghost t1 = trim_start(l@);
    proof {
        lemma_trim_start_skip(l@, i0 as int);
    }
    let xe_abs = scan_until_space(l, i0);
    proof {
        lemma_find_space_is(t1, xe_abs - i0);
    }
    let ghost xt = t1.subrange(0, xe_abs - i0);
    if xe_abs == i0 {
        return None;
    }
    proof {
        assert(xt =~= l@.subrange(i0 as int, xe_abs as int));
    }
    let r_lo = scan_while_space(l, xe_abs);
    let ghost restin = t1.subrange(xe_abs - i0, t1.len() as int);
    let ghost rest = trim_start(restin);
    proof {
        assert(restin =~= l@.subrange(xe_abs as int, n as int));
        lemma_trim_start_skip(restin, r_lo - xe_abs);
        assert(rest =~= l@.subrange(r_lo as int, n as int));
    }
    let ye_abs = scan_until_space(l, r_lo);
    proof {
        lemma_find_space_is(rest, ye_abs - r_lo);
    }
    let ghost yt = rest.subrange(0, ye_abs - r_lo);
    if ye_abs == r_lo {
        return None;
    }
    proof {
        assert(yt =~= l@.subrange(r_lo as int, ye_abs as int));
    }
    let xv = copy_range(l, i0, xe_abs);
    let yv = copy_range(l, r_lo, ye_abs);
    let xr = parse_rat(&xv);
    let yr = parse_rat(&yv);
    match (xr, yr) {
        (Some(x), Some(y)) => Some(Point { x, y }),
        _ => None,
    }
}

/// The settings after one observed point: when autoscale is on for an axis,
/// its accumulator bounds widen to cover the point.
pub open spec fn spec_acc_point(s: SettingsV, p: PointV) -> SettingsV {
    let sx = if s.autoscale_x {
        SettingsV { xlo: axis_min(s.xlo, p.x), xhi: rv_max(s.xhi, p.x), ..s }
    } else {
        s
    };
    if sx.autoscale_y {
        SettingsV { ylo: axis_min(sx.ylo, p.y), yhi: rv_max(sx.yhi, p.y), ..sx }
    } else {
        sx
    }
}

/// Narrowing a lower-bound accumulator: the +infinity sentinel is replaced
/// by the observed value, a finite bound by the smaller of the two.
pub open spec fn axis_min(a: AxisLoV, x: RatV) -> AxisLoV {
    match a {
        AxisLoV::Inf => AxisLoV::Fin(x),
        AxisLoV::Fin(r) => AxisLoV::Fin(rv_min(r, x)),
    }
}

/// Widens the autoscale accumulators of `settings` by one observed point.
pub fn acc_point(settings: &mut PlotSettings, p: Point)
    requires
        old(settings).wf(),
        point_bounded(p),
    ensures
        final(settings)@ == spec_acc_point(old(settings)@, p@),
        final(settings).wf(),
{
    let ghost s0 = settings@;
    if settings.autoscale_x {
        settings.xlo = match settings.xlo {
            AxisLo::Inf => AxisLo::Fin(p.x),
            AxisLo::Fin(r) => AxisLo::Fin(rat_min(r, p.x)),
        };
        settings.xhi = rat_max(settings.xhi, p.x);
    }
    let ghost sx = settings@;
    if settings.autoscale_y {
        settings.ylo = match settings.ylo {
            AxisLo::Inf => AxisLo::Fin(p.y),
            AxisLo::Fin(r) => AxisLo::Fin(rat_min(r, p.y)),
        };
        settings.yhi = rat_max(settings.yhi, p.y);
    }
    proof {
        assert(sx =~= (if s0.autoscale_x {
            SettingsV { xlo: axis_min(s0.xlo, p@.x), xhi: rv_max(s0.xhi, p@.x), ..s0 }
        } else {
            s0
        }));
        assert(settings@ =~= spec_acc_point(s0, p@));
    }
}

/// Reading one point list from `lines` at `pos`: points accumulate into the
/// settings until a blank line (consumed) or the end of the stream; a
/// malformed point line is fatal.  Returns the points, the next stream
/// position, and the widened settings.
pub open spec fn spec_read_points(lines: Seq<Seq<u8>>, pos: int, s: SettingsV) -> Result<
    (Seq<PointV>, int, SettingsV),
    RunError,
>
    decreases lines.len() - pos,
{
    if pos < 0 || pos >= lines.len() {
        Ok((Seq::empty(), pos, s))
    } else if is_blank(lines[pos]) {
        Ok((Seq::empty(), pos + 1, s))
    } else {
        match spec_parse_point(lines[pos]) {
            None => Err(RunError::MalformedPoint),
            Some(p) => match spec_read_points(lines, pos + 1, spec_acc_point(s, p)) {
                Ok((ps, q, s2)) => Ok((seq![p] + ps, q, s2)),
                Err(e) => Err(e),
            },
        }
    }
}

/// Reading `n` titled point lists from `lines` at `pos`.  The stream ending
/// where a title is expected is fatal.
pub open spec fn spec_read_curves(lines: Seq<Seq<u8>>, pos: int, n: int, s: SettingsV) -> Result<
    (Seq<CurveV>, int, SettingsV),
    RunError,
>
    decreases n,
{
    if n <= 0 {
        Ok((Seq::empty(), pos, s))
    } else if pos < 0 || pos >= lines.len() {
        Err(RunError::TitleExhausted)
    } else {
        match spec_read_points(lines, pos + 1, s) {
            Err(e) => Err(e),
            Ok((ps, q, s2)) => match spec_read_curves(lines, q, n - 1, s2) {
                Err(e) => Err(e),
                Ok((cs, q2, s3)) => Ok(
                    (seq![CurveV { title: lines[pos], points: ps }] + cs, q2, s3),
                ),
            },
        }
    }
}

/// A partial read result, continued: points already read are put before
/// whatever the rest of the read yields.
pub open spec fn points_rest(
    r: Result<(Seq<PointV>, int, SettingsV), RunError>,
    done: Seq<PointV>,
) -> Result<(Seq<PointV>, int, SettingsV), RunError> {
    match r {
        Ok((ps, q, s2)) => Ok((done + ps, q, s2)),
        Err(e) => Err(e),
    }
}

/// A partial curve read, continued.
pub open spec fn curves_rest(
    r: Result<(Seq<CurveV>, int, SettingsV), RunError>,
    done: Seq<CurveV>,
) -> Result<(Seq<CurveV>, int, SettingsV), RunError> {
    match r {
        Ok((cs, q, s2)) => Ok((done + cs, q, s2)),
        Err(e) => Err(e),
    }
}

/// Reads one point list starting at `pos`, widening the autoscale bounds of
/// `settings` point by point.
#[verifier::loop_isolation(false)]
pub fn read_points(lines: &Vec<Vec<u8>>, pos: usize, settings: &mut PlotSettings) -> (r: Result<
    (Vec<Point>, usize),
    RunError,
>)
    requires
        old(settings).wf(),
        pos <= lines.len(),
    ensures
        final(settings).wf(),
        match r {
            Ok((pts, q)) => {
                &&& spec_read_points(lv(lines@), pos as int, old(settings)@) == Ok::<
                    _,
                    RunError,
                >((pv(pts@), q as int, final(settings)@))
                &&& pos <= q <= lines.len()
                &&& forall|i: int| 0 <= i < pts@.len() ==> point_bounded(pts@[i])
            },
            Err(e) => spec_read_points(lv(lines@), pos as int, old(settings)@) == Err::<
                (Seq<PointV>, int, SettingsV),
                _,
            >(e),
        },
{
    let ghost l = lv(lines@);
    let ghost s0 = settings@;
    let mut pts: Vec<Point> = Vec::new();
    let mut p: usize = pos;
    loop
        invariant
            pos <= p <= lines.len(),
            settings.wf(),
            forall|i: int| 0 <= i < pts@.len() ==> point_bounded(pts@[i]),
            spec_read_points(l, pos as int, s0) == points_rest(
                spec_read_points(l, p as int, settings@),
                pv(pts@),
            ),
        decreases lines.len() - p,
    {
        if p >= lines.len() {
            proof {
                assert(pv(pts@) + Seq::<PointV>::empty() =~= pv(pts@));
            }
            return Ok((pts, p));
        }
        let line: &Vec<u8> = &lines[p];
        assert(l[p as int] == line@);
        if blank_line(line) {
            proof {
                assert(pv(pts@) + Seq::<PointV>::empty() =~= pv(pts@));
            }
            return Ok((pts, p + 1));
        }
        match parse_point(line) {
            None => {
                return Err(RunError::MalformedPoint);
            },
            Some(pt) => {
                let ghost pts0 = pts@;
                let ghost sa = settings@;
                acc_point(settings, pt);
                pts.push(pt);
                proof {
                    assert(pv(pts@) =~= pv(pts0).push(pt@));
                    let rest = spec_read_points(l, p + 1, settings@);
                    if rest is Ok {
                        let (ps, q, s2) = rest->Ok_0;
                        assert(seq![pt@] + ps =~= pv(pts@).skip(pts0.len() as int) + ps);
                        assert(pv(pts0) + (seq![pt@] + ps) =~= pv(pts@) + ps);
                    }
                }
                p = p + 1;
            },
        }
    }
}

/// Reads `n` titled point lists starting at `pos`: the curves of one block.
#[verifier::loop_isolation(false)]
pub fn read_curves(lines: &Vec<Vec<u8>>, pos: usize, n: i8, settings: &mut PlotSettings) -> (r:
    Result<(Vec<Curve>, usize), RunError>)
    requires
        old(settings).wf(),
        pos <= lines.len(),
    ensures
        final(settings).wf(),
        match r {
            Ok((cs, q)) => {
                &&& spec_read_curves(lv(lines@), pos as int, n as int, old(settings)@) == Ok::<
                    _,
                    RunError,
                >((cv(cs@), q as int, final(settings)@))
                &&& q <= lines.len()
                &&& forall|i: int| 0 <= i < cs@.len() ==> curve_bounded(cs@[i])
            },
            Err(e) => spec_read_curves(lv(lines@), pos as int, n as int, old(settings)@) == Err::<
                (Seq<CurveV>, int, SettingsV),
                _,
            >(e),
        },
{
    let ghost l = lv(lines@);
    let ghost s0 = settings@;
    let mut cs: Vec<Curve> = Vec::new();
    let mut q: usize = pos;
    let mut j: i8 = 0;
    let m: i8 = if n < 0 {
        0
    } else {
        n
    };
    while j < m
        invariant
            0 <= j <= m,
            m == (if n < 0 {
                0
            } else {
                n
            }),
            pos <= q <= lines.len(),
            settings.wf(),
            forall|i: int| 0 <= i < cs@.len() ==> curve_bounded(cs@[i]),
            spec_read_curves(l, pos as int, n as int, s0) == curves_rest(
                spec_read_curves(l, q as int, n - j, settings@),
                cv(cs@),
            ),
        decreases m - j,
    {
        if q >= lines.len() {
            return Err(RunError::TitleExhausted);
        }
        let title = copy_range(&lines[q], 0, lines[q].len());
        assert(title@ == l[q as int]);
        let ghost sa = settings@;
        let ghost cs0 = cs@;
        let ghost q0 = q;
        match read_points(lines, q + 1, settings) {
            Err(e) => {
                return Err(e);
            },
            Ok((pts, q2)) => {
                let c = Curve { title, points: pts };
                proof {
                    assert(c@ =~= CurveV { title: l[q0 as int], points: pv(pts@) });
                }
                cs.push(c);
                q = q2;
                j = j + 1;
                proof {
                    assert(cv(cs@) =~= cv(cs0).push(c@));
                    let rest = spec_read_curves(l, q as int, n - j, settings@);
                    if rest is Ok {
                        let (cs2, qq, s3) = rest->Ok_0;
                        assert(cv(cs0) + (seq![c@] + cs2) =~= cv(cs@) + cs2);
                    }
                }
            },
        }
    }
    proof {
        assert(cv(cs@) + Seq::<CurveV>::empty() =~= cv(cs@));
    }
    Ok((cs, q))
}

/// The x coordinates of a point sequence.
pub open spec fn xs(ps: Seq<PointV>) -> Seq<RatV> {
    ps.map_values(|p: PointV| p.x)
}

/// The y coordinates of a point sequence.
pub open spec fn ys(ps: Seq<PointV>) -> Seq<RatV> {
    ps.map_values(|p: PointV| p.y)
}

/// All points of a curve sequence, in reading order.
pub open spec fn all_points(cs: Seq<CurveV>) -> Seq<PointV>
    decreases cs.len(),
{
    if cs.len() == 0 {
        Seq::empty()
    } else {
        cs[0].points + all_points(cs.subrange(1, cs.len() as int))
    }
}

/// A lower-bound accumulator folded over a value sequence.
pub open spec fn ext_min_seq(a: AxisLoV, vs: Seq<RatV>) -> AxisLoV
    decreases vs.len(),
{
    if vs.len() == 0 {
        a
    } else {
        ext_min_seq(axis_min(a, vs[0]), vs.subrange(1, vs.len() as int))
    }
}

/// An upper-bound accumulator folded over a value sequence.
pub open spec fn rv_max_seq(m: RatV, vs: Seq<RatV>) -> RatV
    decreases vs.len(),
{
    if vs.len() == 0 {
        m
    } else {
        rv_max_seq(rv_max(m, vs[0]), vs.subrange(1, vs.len() as int))
    }
}

/// `v` is the exact minimum of `vs`: it occurs in `vs` and sits below every
/// element.
pub open spec fn is_attained_min(v: RatV, vs: Seq<RatV>) -> bool {
    &&& exists|k: int| 0 <= k < vs.len() && v == vs[k]
    &&& forall|k: int| 0 <= k < vs.len() ==> rv_le(v, vs[k])
}

/// `v` is the exact maximum of `vs`.
pub open spec fn is_attained_max(v: RatV, vs: Seq<RatV>) -> bool {
    &&& exists|k: int| 0 <= k < vs.len() && v == vs[k]
    &&& forall|k: int| 0 <= k < vs.len() ==> rv_le(vs[k], v)
}

/// Every element has a positive denominator.
pub open spec fn all_pos(vs: Seq<RatV>) -> bool {
    forall|k: int| 0 <= k < vs.len() ==> rv_pos(vs[k])
}

/// A decoded numeral always has a positive denominator.
proof fn lemma_parse_rat_pos(s: Seq<u8>)
    requires
        spec_parse_rat(s) is Some,
    ensures
        rv_pos(spec_parse_rat(s)->Some_0),
{
    crate::decode::lemma_pow10_pos(18);
    let (neg, t) = crate::decode::sign_split(s);
    let ei = crate::decode::find_exp(t);
    let mant = t.subrange(0, ei);
    let di = crate::decode::find_dot(mant);
    let fp = if di == mant.len() {
        Seq::<u8>::empty()
    } else {
        mant.subrange(di + 1, mant.len() as int)
    };
    let expo = if ei == t.len() {
        Some(0int)
    } else {
        crate::decode::spec_parse_exp(t.subrange(ei + 1, t.len() as int))
    };
    let e10 = expo->Some_0 - fp.len();
    if e10 < 0 {
        crate::decode::lemma_pow10_pos((-e10) as nat);
    }
}

/// Every point an `Ok` read yields was decoded, so its coordinates have
/// positive denominators.
proof fn lemma_read_points_pos(lines: Seq<Seq<u8>>, pos: int, s: SettingsV)
    requires
        spec_read_points(lines, pos, s) is Ok,
    ensures
        all_pos(xs(spec_read_points(lines, pos, s)->Ok_0.0)),
        all_pos(ys(spec_read_points(lines, pos, s)->Ok_0.0)),
    decreases lines.len() - pos,
{
    if pos < 0 || pos >= lines.len() {
    } else if is_blank(lines[pos]) {
    } else {
        let p = spec_parse_point(lines[pos])->Some_0;
        let t1 = trim_start(lines[pos]);
        let xe = find_space(t1);
        lemma_parse_rat_pos(t1.subrange(0, xe));
        let rest = trim_start(t1.subrange(xe, t1.len() as int));
        lemma_parse_rat_pos(rest.subrange(0, find_space(rest)));
        lemma_read_points_pos(lines, pos + 1, spec_acc_point(s, p));
        let ps = spec_read_points(lines, pos, s)->Ok_0.0;
        let ps1 = spec_read_points(lines, pos + 1, spec_acc_point(s, p))->Ok_0.0;
        assert forall|k: int| 0 <= k < ps.len() implies rv_pos(xs(ps)[k]) && rv_pos(ys(ps)[k]) by {
            if k == 0 {
                assert(ps[0] == p);
                assert(xs(ps)[0] == p.x && ys(ps)[0] == p.y);
            } else {
                assert(ps[k] == ps1[k - 1]);
                assert(xs(ps)[k] == xs(ps1)[k - 1] && ys(ps)[k] == ys(ps1)[k - 1]);
            }
        }
    }
}

/// As `lemma_read_points_pos`, over a whole block's curves.
proof fn lemma_read_curves_pos(lines: Seq<Seq<u8>>, pos: int, n: int, s: SettingsV)
    requires
        spec_read_curves(lines, pos, n, s) is Ok,
    ensures
        all_pos(xs(all_points(spec_read_curves(lines, pos, n, s)->Ok_0.0))),
        all_pos(ys(all_points(spec_read_curves(lines, pos, n, s)->Ok_0.0))),
    decreases n,
{
    let cs = spec_read_curves(lines, pos, n, s)->Ok_0.0;
    if n <= 0 {
        assert(all_points(cs) =~= Seq::<PointV>::empty());
    } else {
        let r1 = spec_read_points(lines, pos + 1, s);
        let (ps, q, s2) = r1->Ok_0;
        lemma_read_points_pos(lines, pos + 1, s);
        lemma_read_curves_pos(lines, q, n - 1, s2);
        let cs1 = spec_read_curves(lines, q, n - 1, s2)->Ok_0.0;
        assert(cs.subrange(1, cs.len() as int) =~= cs1);
        assert(all_points(cs) =~= ps + all_points(cs1));
        let pts = all_points(cs);
        assert forall|k: int|
            0 <= k < pts.len() implies rv_pos(xs(pts)[k]) && rv_pos(ys(pts)[k]) by {
            if k < ps.len() {
                assert(pts[k] == ps[k]);
                assert(xs(pts)[k] == xs(ps)[k] && ys(pts)[k] == ys(ps)[k]);
            } else {
                assert(pts[k] == all_points(cs1)[k - ps.len()]);
                assert(xs(pts)[k] == xs(all_points(cs1))[k - ps.len()] && ys(pts)[k] == ys(
                    all_points(cs1),
                )[k - ps.len()]);
            }
        }
    }
}

/// An `Ok` point read accumulates exactly the fold of the observed
/// coordinates into the four autoscale bounds, and touches nothing else.
proof fn lemma_read_points_accumulates(lines: Seq<Seq<u8>>, pos: int, s: SettingsV)
    requires
        s.autoscale_x,
        s.autoscale_y,
        spec_read_points(lines, pos, s) is Ok,
    ensures
        ({
            let (ps, q, s2) = spec_read_points(lines, pos, s)->Ok_0;
            s2 == SettingsV {
                xlo: ext_min_seq(s.xlo, xs(ps)),
                xhi: rv_max_seq(s.xhi, xs(ps)),
                ylo: ext_min_seq(s.ylo, ys(ps)),
                yhi: rv_max_seq(s.yhi, ys(ps)),
                ..s
            }
        }),
    decreases lines.len() - pos,
{
    let (ps, q, s2) = spec_read_points(lines, pos, s)->Ok_0;
    if pos < 0 || pos >= lines.len() || is_blank(lines[pos]) {
        assert(xs(ps) =~= Seq::<RatV>::empty());
        assert(ys(ps) =~= Seq::<RatV>::empty());
        assert(s2 =~= SettingsV {
            xlo: ext_min_seq(s.xlo, xs(ps)),
            xhi: rv_max_seq(s.xhi, xs(ps)),
            ylo: ext_min_seq(s.ylo, ys(ps)),
            yhi: rv_max_seq(s.yhi, ys(ps)),
            ..s
        });
    } else {
        let p = spec_parse_point(lines[pos])->Some_0;
        let sa = spec_acc_point(s, p);
        lemma_read_points_accumulates(lines, pos + 1, sa);
        let ps1 = spec_read_points(lines, pos + 1, sa)->Ok_0.0;
        assert(xs(ps).subrange(1, xs(ps).len() as int) =~= xs(ps1));
        assert(ys(ps).subrange(1, ys(ps).len() as int) =~= ys(ps1));
        assert(xs(ps)[0] == p.x && ys(ps)[0] == p.y);
        assert(sa == SettingsV {
            xlo: axis_min(s.xlo, p.x),
            xhi: rv_max(s.xhi, p.x),
            ylo: axis_min(s.ylo, p.y),
            yhi: rv_max(s.yhi, p.y),
            ..s
        }) by {
            assert(sa =~= SettingsV {
                xlo: axis_min(s.xlo, p.x),
                xhi: rv_max(s.xhi, p.x),
                ylo: axis_min(s.ylo, p.y),
                yhi: rv_max(s.yhi, p.y),
                ..s
            });
        }
        assert(s2 =~= SettingsV {
            xlo: ext_min_seq(s.xlo, xs(ps)),
            xhi: rv_max_seq(s.xhi, xs(ps)),
            ylo: ext_min_seq(s.ylo, ys(ps)),
            yhi: rv_max_seq(s.yhi, ys(ps)),
            ..s
        });
    }
}

/// The folded lower bound is the exact minimum of what was seen: starting
/// from the +infinity sentinel it is the attained minimum of the values;
/// starting from a finite bound, of the bound and the values together.
proof fn lemma_ext_min_seq_attained(a: AxisLoV, vs: Seq<RatV>)
    requires
        all_pos(vs),
        a is Fin ==> rv_pos(a->Fin_0),
    ensures
        vs.len() == 0 ==> ext_min_seq(a, vs) == a,
        a is Inf && vs.len() > 0 ==> ext_min_seq(a, vs) is Fin && is_attained_min(
            ext_min_seq(a, vs)->Fin_0,
            vs,
        ),
        a is Fin ==> ext_min_seq(a, vs) is Fin && is_attained_min(
            ext_min_seq(a, vs)->Fin_0,
            seq![a->Fin_0] + vs,
        ),
    decreases vs.len(),
{
    if vs.len() == 0 {
        if a is Fin {
            let m = a->Fin_0;
            assert((seq![m] + vs)[0] == m);
        }
    } else {
        let vs1 = vs.subrange(1, vs.len() as int);
        assert(all_pos(vs1));
        match a {
            AxisLoV::Inf => {
                lemma_ext_min_seq_attained(AxisLoV::Fin(vs[0]), vs1);
                assert(seq![vs[0]] + vs1 =~= vs);
            },
            AxisLoV::Fin(m) => {
                let m1 = rv_min(m, vs[0]);
                lemma_rv_min_max_bounds(m, vs[0]);
                lemma_ext_min_seq_attained(AxisLoV::Fin(m1), vs1);
                let w = ext_min_seq(AxisLoV::Fin(m1), vs1)->Fin_0;
                let inner = seq![m1] + vs1;
                let outer = seq![m] + vs;
                assert(is_attained_min(w, inner));
                let ki = choose|k: int| 0 <= k < inner.len() && w == inner[k];
                if ki == 0 {
                    if rv_le(m, vs[0]) {
                        assert(outer[0] == m && w == m);
                    } else {
                        assert(outer[1] == vs[0] && w == vs[0]);
                    }
                } else {
                    assert(outer[ki + 1] == inner[ki]);
                }
                assert forall|k: int| 0 <= k < outer.len() implies rv_le(w, outer[k]) by {
                    assert(rv_pos(w)) by {
                        let kk = choose|k2: int| 0 <= k2 < inner.len() && w == inner[k2];
                        assert(rv_pos(inner[kk]));
                    }
                    if k == 0 {
                        assert(inner[0] == m1);
                        assert(rv_le(w, m1));
                        lemma_rv_le_trans(w, m1, m);
                    } else if k == 1 {
                        assert(inner[0] == m1);
                        assert(rv_le(w, m1));
                        lemma_rv_le_trans(w, m1, vs[0]);
                    } else {
                        assert(outer[k] == inner[k - 1]);
                    }
                }
            },
        }
    }
}

/// The folded upper bound is the exact maximum of the start value and the
/// values seen.
proof fn lemma_rv_max_seq_attained(m: RatV, vs: Seq<RatV>)
    requires
        all_pos(vs),
        rv_pos(m),
    ensures
        is_attained_max(rv_max_seq(m, vs), seq![m] + vs),
    decreases vs.len(),
{
    if vs.len() == 0 {
        assert((seq![m] + vs)[0] == m);
    } else {
        let vs1 = vs.subrange(1, vs.len() as int);
        let m1 = rv_max(m, vs[0]);
        lemma_rv_min_max_bounds(m, vs[0]);
        lemma_rv_max_seq_attained(m1, vs1);
        let w = rv_max_seq(m1, vs1);
        let inner = seq![m1] + vs1;
        let outer = seq![m] + vs;
        let ki = choose|k: int| 0 <= k < inner.len() && w == inner[k];
        if ki == 0 {
            if rv_le(vs[0], m) {
                assert(outer[0] == m && w == m);
            } else {
                assert(outer[1] == vs[0] && w == vs[0]);
            }
        } else {
            assert(outer[ki + 1] == inner[ki]);
        }
        assert forall|k: int| 0 <= k < outer.len() implies rv_le(outer[k], w) by {
            assert(rv_pos(w)) by {
                let kk = choose|k2: int| 0 <= k2 < inner.len() && w == inner[k2];
                assert(rv_pos(inner[kk]));
            }
            if k == 0 {
                assert(inner[0] == m1);
                assert(rv_le(m, m1) && rv_le(m1, w));
                lemma_rv_le_trans(m, m1, w);
            } else if k == 1 {
                assert(inner[0] == m1);
                assert(rv_le(vs[0], m1) && rv_le(m1, w));
                lemma_rv_le_trans(vs[0], m1, w);
            } else {
                assert(outer[k] == inner[k - 1]);
            }
        }
    }
}

/// Folding over a concatenation is folding twice.
proof fn lemma_ext_min_seq_append(a: AxisLoV, u: Seq<RatV>, v: Seq<RatV>)
    ensures
        ext_min_seq(a, u + v) == ext_min_seq(ext_min_seq(a, u), v),
    decreases u.len(),
{
    if u.len() == 0 {
        assert(u + v =~= v);
    } else {
        lemma_ext_min_seq_append(axis_min(a, u[0]), u.subrange(1, u.len() as int), v);
        assert((u + v).subrange(1, (u + v).len() as int) =~= u.subrange(1, u.len() as int) + v);
    }
}

/// Folding over a concatenation is folding twice.
proof fn lemma_rv_max_seq_append(m: RatV, u: Seq<RatV>, v: Seq<RatV>)
    ensures
        rv_max_seq(m, u + v) == rv_max_seq(rv_max_seq(m, u), v),
    decreases u.len(),
{
    if u.len() == 0 {
        assert(u + v =~= v);
    } else {
        lemma_rv_max_seq_append(rv_max(m, u[0]), u.subrange(1, u.len() as int), v);
        assert((u + v).subrange(1, (u + v).len() as int) =~= u.subrange(1, u.len() as int) + v);
    }
}

/// An `Ok` block read accumulates exactly the fold of all its curves'
/// coordinates into the four autoscale bounds, and touches nothing else.
proof fn lemma_read_curves_accumulates(lines: Seq<Seq<u8>>, pos: int, n: int, s: SettingsV)
    requires
        s.autoscale_x,
        s.autoscale_y,
        spec_read_curves(lines, pos, n, s) is Ok,
    ensures
        ({
            let (cs, q, s2) = spec_read_curves(lines, pos, n, s)->Ok_0;
            let pts = all_points(cs);
            s2 == SettingsV {
                xlo: ext_min_seq(s.xlo, xs(pts)),
                xhi: rv_max_seq(s.xhi, xs(pts)),
                ylo: ext_min_seq(s.ylo, ys(pts)),
                yhi: rv_max_seq(s.yhi, ys(pts)),
                ..s
            }
        }),
    decreases n,
{
    let (cs, q2, s2) = spec_read_curves(lines, pos, n, s)->Ok_0;
    let pts = all_points(cs);
    if n <= 0 {
        assert(pts =~= Seq::<PointV>::empty());
        assert(xs(pts) =~= Seq::<RatV>::empty());
        assert(ys(pts) =~= Seq::<RatV>::empty());
        assert(s2 =~= SettingsV {
            xlo: ext_min_seq(s.xlo, xs(pts)),
            xhi: rv_max_seq(s.xhi, xs(pts)),
            ylo: ext_min_seq(s.ylo, ys(pts)),
            yhi: rv_max_seq(s.yhi, ys(pts)),
            ..s
        });
    } else {
        let (ps, q1, sa) = spec_read_points(lines, pos + 1, s)->Ok_0;
        lemma_read_points_accumulates(lines, pos + 1, s);
        lemma_read_curves_accumulates(lines, q1, n - 1, sa);
        let cs1 = spec_read_curves(lines, q1, n - 1, sa)->Ok_0.0;
        let pts1 = all_points(cs1);
        assert(cs.subrange(1, cs.len() as int) =~= cs1);
        assert(pts =~= ps + pts1);
        assert(xs(pts) =~= xs(ps) + xs(pts1));
        assert(ys(pts) =~= ys(ps) + ys(pts1));
        lemma_ext_min_seq_append(s.xlo, xs(ps), xs(pts1));
        lemma_rv_max_seq_append(s.xhi, xs(ps), xs(pts1));
        lemma_ext_min_seq_append(s.ylo, ys(ps), ys(pts1));
        lemma_rv_max_seq_append(s.yhi, ys(ps), ys(pts1));
        assert(s2 =~= SettingsV {
            xlo: ext_min_seq(s.xlo, xs(pts)),
            xhi: rv_max_seq(s.xhi, xs(pts)),
            ylo: ext_min_seq(s.ylo, ys(pts)),
            yhi: rv_max_seq(s.yhi, ys(pts)),
            ..s
        });
    }
}

/// Autoscale exactness law: for a block read with both autoscale flags on
/// and the accumulators at their sentinels (`xlo`/`ylo` at +infinity,
/// `xhi`/`yhi` finite), the resulting `xlo` and `ylo` are the exact,
/// attained minima of all observed x and y coordinates, and `xhi` and
/// `yhi` the exact, attained maxima of those coordinates together with the
/// finite start sentinel (`-1` in a fresh block, so a maximum below `-1` is
/// reported as `-1`).
pub proof fn lemma_autoscale_exact(lines: Seq<Seq<u8>>, pos: int, n: int, s: SettingsV)
    requires
        s.autoscale_x,
        s.autoscale_y,
        s.xlo is Inf,
        s.ylo is Inf,
        rv_pos(s.xhi),
        rv_pos(s.yhi),
        spec_read_curves(lines, pos, n, s) is Ok,
    ensures
        ({
            let (cs, q, s2) = spec_read_curves(lines, pos, n, s)->Ok_0;
            let pts = all_points(cs);
            &&& pts.len() > 0 ==> s2.xlo is Fin && is_attained_min(s2.xlo->Fin_0, xs(pts))
            &&& pts.len() > 0 ==> s2.ylo is Fin && is_attained_min(s2.ylo->Fin_0, ys(pts))
            &&& is_attained_max(s2.xhi, seq![s.xhi] + xs(pts))
            &&& is_attained_max(s2.yhi, seq![s.yhi] + ys(pts))
        }),
{
    let (cs, q, s2) = spec_read_curves(lines, pos, n, s)->Ok_0;
    let pts = all_points(cs);
    lemma_read_curves_pos(lines, pos, n, s);
    lemma_read_curves_accumulates(lines, pos, n, s);
    lemma_ext_min_seq_attained(s.xlo, xs(pts));
    lemma_ext_min_seq_attained(s.ylo, ys(pts));
    lemma_rv_max_seq_attained(s.xhi, xs(pts));
    lemma_rv_max_seq_attained(s.yhi, ys(pts));
}

} // verus!
