//! The driver: header lines in, chart blocks out.
//!
//! Two line streams feed the run: the header stream drives the record state
//! machine line by line, and each time the cursor reaches `Line2` one
//! block's curves are consumed from the curve stream, the autoscale bounds
//! are final for that block, and the ratio sequences are derived.  Blocks
//! completed before a fatal curve-stream failure are kept; the failed block
//! is not.

use vstd::prelude::*;
use crate::settings::{PlotSettings, SettingsV, ReadingState, default_settings};
use crate::machine::{spec_advance, advance};
use crate::curves::{Curve, CurveV, RunError, lv, cv, copy_range, read_curves, spec_read_curves};
use crate::ratio::{RatioPoint, RPointV, rrv, spec_ratios, compute_ratios};

verus! {

/// One finished chart block: the settings as they stood when its curves
/// were read, the curves, and the derived ratio sequences.
pub struct Block {
    pub settings: PlotSettings,
    pub curves: Vec<Curve>,
    pub ratios: Vec<Vec<RatioPoint>>,
}

/// Mathematical value of a block.
#[verifier::ext_equal]
pub struct BlockV {
    pub settings: SettingsV,
    pub curves: Seq<CurveV>,
    pub ratios: Seq<Seq<RPointV>>,
}

impl View for Block {
    type V = BlockV;

    open spec fn view(&self) -> BlockV {
        BlockV { settings: self.settings@, curves: cv(self.curves@), ratios: rrv(self.ratios@) }
    }
}

/// View of a block sequence.
pub open spec fn bv(bs: Seq<Block>) -> Seq<BlockV> {
    bs.map_values(|b: Block| b@)
}

/// What a run of the two streams yields: the completed blocks, and the
/// fatal failure that stopped the run early, if any.
pub struct RunOutcome {
    pub blocks: Vec<Block>,
    pub error: Option<RunError>,
}

/// The whole run, from header line `i` and curve position `cpos` onwards:
/// each header line advances the state machine; reaching `Line2` consumes
/// one block's curves from the curve stream and emits a block whose ratios
/// are derived from its curves.
pub open spec fn spec_run(
    header: Seq<Seq<u8>>,
    i: int,
    cur: Seq<Seq<u8>>,
    cpos: int,
    s: SettingsV,
    st: ReadingState,
    acc: Seq<BlockV>,
) -> (Seq<BlockV>, Option<RunError>)
    decreases header.len() - i,
{
    if i < 0 || i >= header.len() {
        (acc, None)
    } else {
        let (s1, st1) = spec_advance(s, st, header[i]);
        if st1 == ReadingState::Line2 {
            match spec_read_curves(cur, cpos, s1.no_curves as int, s1) {
                Err(e) => (acc, Some(e)),
                Ok((cs, cpos2, s2)) => spec_run(
                    header,
                    i + 1,
                    cur,
                    cpos2,
                    s2,
                    st1,
                    acc.push(BlockV { settings: s2, curves: cs, ratios: spec_ratios(cs) }),
                ),
            }
        } else {
            spec_run(header, i + 1, cur, cpos, s1, st1, acc)
        }
    }
}

/// A deep copy of the live settings, snapshotted into a finished block.
fn snapshot(settings: &PlotSettings) -> (s: PlotSettings)
    ensures
        s@ == settings@,
        settings.wf() ==> s.wf(),
{
    let s = PlotSettings {
        xlabel: copy_range(&settings.xlabel, 0, settings.xlabel.len()),
        ylabel: copy_range(&settings.ylabel, 0, settings.ylabel.len()),
        title1: copy_range(&settings.title1, 0, settings.title1.len()),
        title2: copy_range(&settings.title2, 0, settings.title2.len()),
        xlo: settings.xlo,
        xhi: settings.xhi,
        ylo: settings.ylo,
        yhi: settings.yhi,
        xdim_lo: settings.xdim_lo,
        xdim_hi: settings.xdim_hi,
        ydim_lo: settings.ydim_lo,
        ydim_hi: settings.ydim_hi,
        no_curves: settings.no_curves,
        no_points: settings.no_points,
        line_thickness: settings.line_thickness,
        autoscale_x: settings.autoscale_x,
        autoscale_y: settings.autoscale_y,
        add_border: settings.add_border,
        xy_grid: settings.xy_grid,
        ratio_first: settings.ratio_first,
    };
    proof {
        assert(settings.xlabel@.subrange(0, settings.xlabel@.len() as int) =~= settings.xlabel@);
        assert(settings.ylabel@.subrange(0, settings.ylabel@.len() as int) =~= settings.ylabel@);
        assert(settings.title1@.subrange(0, settings.title1@.len() as int) =~= settings.title1@);
        assert(settings.title2@.subrange(0, settings.title2@.len() as int) =~= settings.title2@);
        assert(s@ =~= settings@);
    }
    s
}

/// Runs the state machine over the whole header stream against the curve
/// stream, yielding every completed block and the failure that ended the
/// run early, if any.
#[verifier::loop_isolation(false)]
pub fn process_streams(header: &Vec<Vec<u8>>, cur: &Vec<Vec<u8>>) -> (r: RunOutcome)
    ensures
        bv(r.blocks@) == spec_run(
            lv(header@),
            0,
            lv(cur@),
            0,
            default_settings(),
            ReadingState::Head1,
            Seq::empty(),
        ).0,
        r.error == spec_run(
            lv(header@),
            0,
            lv(cur@),
            0,
            default_settings(),
            ReadingState::Head1,
            Seq::empty(),
        ).1,
{
    let ghost h = lv(header@);
    let ghost c = lv(cur@);
    let ghost total = spec_run(h, 0, c, 0, default_settings(), ReadingState::Head1, Seq::empty());
    let mut settings = PlotSettings::default();
    let mut state = ReadingState::Head1;
    let mut blocks: Vec<Block> = Vec::new();
    let mut cpos: usize = 0;
    let mut i: usize = 0;
    proof {
        assert(bv(blocks@) =~= Seq::<BlockV>::empty());
    }
    while i < header.len()
        invariant
            0 <= i <= header.len(),
            cpos <= cur.len(),
            settings.wf(),
            spec_run(h, i as int, c, cpos as int, settings@, state, bv(blocks@)) == total,
        decreases header.len() - i,
    {
        let ghost s0 = settings@;
        let ghost st0 = state;
        let ghost b0 = bv(blocks@);
        let line: &Vec<u8> = &header[i];
        assert(h[i as int] == line@);
        advance(line, &mut settings, &mut state);
        if matches!(state, ReadingState::Line2) {
            let n = settings.no_curves;
            match read_curves(cur, cpos, n, &mut settings) {
                Err(e) => {
                    assert(spec_run(h, i as int, c, cpos as int, s0, st0, b0) == (b0, Some(e)));
                    return RunOutcome { blocks, error: Some(e) };
                },
                Ok((cs, cpos2)) => {
                    let ratios = compute_ratios(&cs);
                    let snap = snapshot(&settings);
                    let block = Block { settings: snap, curves: cs, ratios };
                    proof {
                        assert(block@ =~= BlockV {
                            settings: settings@,
                            curves: cv(block.curves@),
                            ratios: spec_ratios(cv(block.curves@)),
                        });
                    }
                    let ghost bl = block@;
                    blocks.push(block);
                    cpos = cpos2;
                    proof {
                        assert(bv(blocks@) =~= b0.push(bl));
                    }
                },
            }
        }
        i = i + 1;
    }
    RunOutcome { blocks, error: None }
}

} // verus!
