//! The per-block plot settings aggregate and the record-kind cursor.
//!
//! One `PlotSettings` value is live per chart block.  It is rebuilt from
//! defaults at every blank-line reset, then progressively overwritten as
//! header records are decoded.  The `xlo`/`ylo` accumulators start at the
//! +infinity sentinel so that any observed point narrows them; `xhi`/`yhi`
//! start at the finite sentinel -1.

use vstd::prelude::*;
use crate::rat::{Rat, RatV};

verus! {

/// Cursor over the record kinds of the header stream: a strict cycle
/// `Head1 -> Head2 -> Xlabel -> Ylabel -> Title1 -> Title2 -> Line1 ->
/// Line2 -> Title1 -> ...`, with `Empty` entered on any blank line and left
/// for `Head1` on the next line.
#[derive(Clone, Copy, Debug, PartialEq, Eq, Structural)]
pub enum ReadingState {
    Head1,
    Head2,
    Xlabel,
    Ylabel,
    Title1,
    Title2,
    Line1,
    Line2,
    Empty,
}

/// A lower axis bound: the +infinity sentinel, or a finite rational.
#[derive(Clone, Copy, Debug, PartialEq, Eq, Structural)]
pub enum AxisLo {
    Inf,
    Fin(Rat),
}

/// Mathematical value of an `AxisLo`.
pub enum AxisLoV {
    Inf,
    Fin(RatV),
}

impl View for AxisLo {
    type V = AxisLoV;

    open spec fn view(&self) -> AxisLoV {
        match *self {
            AxisLo::Inf => AxisLoV::Inf,
            AxisLo::Fin(r) => AxisLoV::Fin(r@),
        }
    }
}

/// Decoded configuration of the chart block currently being assembled.
pub struct PlotSettings {
    pub xlabel: Vec<u8>,
    pub ylabel: Vec<u8>,
    pub title1: Vec<u8>,
    pub title2: Vec<u8>,
    pub xlo: AxisLo,
    pub xhi: Rat,
    pub ylo: AxisLo,
    pub yhi: Rat,
    pub xdim_lo: Rat,
    pub xdim_hi: Rat,
    pub ydim_lo: Rat,
    pub ydim_hi: Rat,
    pub no_curves: i8,
    pub no_points: i8,
    pub line_thickness: Rat,
    pub autoscale_x: bool,
    pub autoscale_y: bool,
    pub add_border: bool,
    pub xy_grid: i8,
    pub ratio_first: bool,
}

/// Mathematical value of a `PlotSettings`.
#[verifier::ext_equal]
pub struct SettingsV {
    pub xlabel: Seq<u8>,
    pub ylabel: Seq<u8>,
    pub title1: Seq<u8>,
    pub title2: Seq<u8>,
    pub xlo: AxisLoV,
    pub xhi: RatV,
    pub ylo: AxisLoV,
    pub yhi: RatV,
    pub xdim_lo: RatV,
    pub xdim_hi: RatV,
    pub ydim_lo: RatV,
    pub ydim_hi: RatV,
    pub no_curves: i8,
    pub no_points: i8,
    pub line_thickness: RatV,
    pub autoscale_x: bool,
    pub autoscale_y: bool,
    pub add_border: bool,
    pub xy_grid: i8,
    pub ratio_first: bool,
}

impl View for PlotSettings {
    type V = SettingsV;

    open spec fn view(&self) -> SettingsV {
        SettingsV {
            xlabel: self.xlabel@,
            ylabel: self.ylabel@,
            title1: self.title1@,
            title2: self.title2@,
            xlo: self.xlo@,
            xhi: self.xhi@,
            ylo: self.ylo@,
            yhi: self.yhi@,
            xdim_lo: self.xdim_lo@,
            xdim_hi: self.xdim_hi@,
            ydim_lo: self.ydim_lo@,
            ydim_hi: self.ydim_hi@,
            no_curves: self.no_curves,
            no_points: self.no_points,
            line_thickness: self.line_thickness@,
            autoscale_x: self.autoscale_x,
            autoscale_y: self.autoscale_y,
            add_border: self.add_border,
            xy_grid: self.xy_grid,
            ratio_first: self.ratio_first,
        }
    }
}

impl PlotSettings {
    /// Every rational held by the settings is a decoded (bounded) one.
    pub open spec fn wf(self) -> bool {
        &&& match self.xlo {
            AxisLo::Inf => true,
            AxisLo::Fin(r) => r.bounded(),
        }
        &&& match self.ylo {
            AxisLo::Inf => true,
            AxisLo::Fin(r) => r.bounded(),
        }
        &&& self.xhi.bounded()
        &&& self.yhi.bounded()
        &&& self.xdim_lo.bounded()
        &&& self.xdim_hi.bounded()
        &&& self.ydim_lo.bounded()
        &&& self.ydim_hi.bounded()
        &&& self.line_thickness.bounded()
    }
}

/// The finite sentinel `-1` that `xhi` and `yhi` start from.
pub open spec fn neg_one() -> RatV {
    RatV { n: -1, d: 1 }
}

/// The settings a fresh block starts from: empty labels, page dimensions
/// `[0, 13.5] x [0, 10]`, sentinel axis bounds, one curve, autoscale on,
/// stroke width `1.5`.
pub open spec fn default_settings() -> SettingsV {
    SettingsV {
        xlabel: Seq::empty(),
        ylabel: Seq::empty(),
        title1: Seq::empty(),
        title2: Seq::empty(),
        xlo: AxisLoV::Inf,
        xhi: neg_one(),
        ylo: AxisLoV::Inf,
        yhi: neg_one(),
        xdim_lo: RatV { n: 0, d: 1 },
        xdim_hi: RatV { n: 27, d: 2 },
        ydim_lo: RatV { n: 0, d: 1 },
        ydim_hi: RatV { n: 10, d: 1 },
        no_curves: 1,
        no_points: 0,
        line_thickness: RatV { n: 3, d: 2 },
        autoscale_x: true,
        autoscale_y: true,
        add_border: false,
        xy_grid: 0,
        ratio_first: false,
    }
}

impl Default for PlotSettings {
    /// A fresh settings aggregate, as rebuilt at program start and at every
    /// blank-line reset.
    fn default() -> (s: PlotSettings)
        ensures
            s@ == default_settings(),
            s.wf(),
    {
        let s = PlotSettings {
            xlabel: Vec::new(),
            ylabel: Vec::new(),
            title1: Vec::new(),
            title2: Vec::new(),
            xlo: AxisLo::Inf,
            xhi: Rat { num: -1, den: 1 },
            ylo: AxisLo::Inf,
            yhi: Rat { num: -1, den: 1 },
            xdim_lo: Rat { num: 0, den: 1 },
            xdim_hi: Rat { num: 27, den: 2 },
            ydim_lo: Rat { num: 0, den: 1 },
            ydim_hi: Rat { num: 10, den: 1 },
            no_curves: 1,
            no_points: 0,
            line_thickness: Rat { num: 3, den: 2 },
            autoscale_x: true,
            autoscale_y: true,
            add_border: false,
            xy_grid: 0,
            ratio_first: false,
        };
        proof {
            assert(s@ =~= default_settings());
        }
        s
    }
}

} // verus!
