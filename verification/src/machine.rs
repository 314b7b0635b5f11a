//! The record state machine over header lines.
//!
//! Each call decodes one line under the current record kind and advances the
//! cursor by exactly one state; record kinds are trusted from position in
//! the cycle, never validated.  A blank line short-circuits everything: the
//! settings are rebuilt from defaults and the cursor passes through `Empty`
//! straight to `Head1`, discarding the blank line itself.

use vstd::prelude::*;
use crate::rat::Rat;
use crate::decode::{
    spec_field, spec_field_rat, spec_field_i8, spec_field_bool, spec_trim, is_blank, field_rat,
    field_i8, field_bool, extract_field, blank_line,
};
use crate::settings::{ReadingState, AxisLo, AxisLoV, PlotSettings, SettingsV, default_settings,
    neg_one};

verus! {

/// Column table of the fixed-width records: field `k` occupies the byte
/// range `[FIELDk_LO, FIELDk_HI)` of its line.
pub const FIELD1_LO: usize = 1;

pub const FIELD1_HI: usize = 13;

pub const FIELD2_LO: usize = 13;

pub const FIELD2_HI: usize = 24;

pub const FIELD3_LO: usize = 24;

pub const FIELD3_HI: usize = 35;

pub const FIELD4_LO: usize = 35;

pub const FIELD4_HI: usize = 46;

/// Best-effort field decoding: a decoded value replaces the current one,
/// a failed decode keeps it.
pub open spec fn or_keep<T>(cur: T, dec: Option<T>) -> T {
    match dec {
        Some(x) => x,
        None => cur,
    }
}

/// One step of the record state machine: the settings after decoding `line`
/// under record kind `st`, and the next record kind.
pub open spec fn spec_step(s: SettingsV, st: ReadingState, line: Seq<u8>) -> (SettingsV,
    ReadingState) {
    match st {
        ReadingState::Head1 => (
            SettingsV {
                xdim_lo: or_keep(s.xdim_lo, spec_field_rat(line, 1, 13)),
                xdim_hi: or_keep(s.xdim_hi, spec_field_rat(line, 13, 24)),
                ydim_lo: or_keep(s.ydim_lo, spec_field_rat(line, 24, 35)),
                ydim_hi: or_keep(s.ydim_hi, spec_field_rat(line, 35, 46)),
                ..s
            },
            ReadingState::Head2,
        ),
        ReadingState::Head2 => (
            SettingsV {
                no_curves: or_keep(s.no_curves, spec_field_i8(line, 1, 13)),
                no_points: or_keep(s.no_points, spec_field_i8(line, 13, 24)),
                add_border: or_keep(s.add_border, spec_field_bool(line, 24, 35)),
                xy_grid: or_keep(s.xy_grid, spec_field_i8(line, 35, 46)),
                ..s
            },
            ReadingState::Xlabel,
        ),
        ReadingState::Xlabel => (SettingsV { xlabel: spec_trim(line), ..s }, ReadingState::Ylabel),
        ReadingState::Ylabel => (SettingsV { ylabel: spec_trim(line), ..s }, ReadingState::Title1),
        ReadingState::Title1 => (SettingsV { title1: spec_trim(line), ..s }, ReadingState::Title2),
        ReadingState::Title2 => (SettingsV { title2: spec_trim(line), ..s }, ReadingState::Line1),
        ReadingState::Line1 => (
            SettingsV {
                xlo: AxisLoV::Inf,
                xhi: neg_one(),
                ylo: AxisLoV::Inf,
                yhi: neg_one(),
                ..s
            },
            ReadingState::Line2,
        ),
        ReadingState::Line2 => (s, ReadingState::Title1),
        ReadingState::Empty => (s, ReadingState::Head1),
    }
}

/// One line of the driver loop: a blank line rebuilds the settings from
/// defaults and restarts from `Empty` before the step is taken.
pub open spec fn spec_advance(s: SettingsV, st: ReadingState, line: Seq<u8>) -> (SettingsV,
    ReadingState) {
    if is_blank(line) {
        spec_step(default_settings(), ReadingState::Empty, line)
    } else {
        spec_step(s, st, line)
    }
}

/// Decodes one header line under the current record kind and advances the
/// cursor by one state.
pub fn parse(line: &Vec<u8>, settings: &mut PlotSettings, state: &mut ReadingState)
    requires
        old(settings).wf(),
    ensures
        final(settings)@ == spec_step(old(settings)@, *old(state), line@).0,
        *final(state) == spec_step(old(settings)@, *old(state), line@).1,
        final(settings).wf(),
{
    let ghost s0 = settings@;
    let ghost st0 = *state;
    match *state {
        ReadingState::Head1 => {
            match field_rat(line, FIELD1_LO, FIELD1_HI) {
                Some(r) => settings.xdim_lo = r,
                None => {},
            }
            match field_rat(line, FIELD2_LO, FIELD2_HI) {
                Some(r) => settings.xdim_hi = r,
                None => {},
            }
            match field_rat(line, FIELD3_LO, FIELD3_HI) {
                Some(r) => settings.ydim_lo = r,
                None => {},
            }
            match field_rat(line, FIELD4_LO, FIELD4_HI) {
                Some(r) => settings.ydim_hi = r,
                None => {},
            }
            *state = ReadingState::Head2;
            assert(settings@ =~= spec_step(s0, st0, line@).0);
        },
        ReadingState::Head2 => {
            match field_i8(line, FIELD1_LO, FIELD1_HI) {
                Some(x) => settings.no_curves = x,
                None => {},
            }
            match field_i8(line, FIELD2_LO, FIELD2_HI) {
                Some(x) => settings.no_points = x,
                None => {},
            }
            match field_bool(line, FIELD3_LO, FIELD3_HI) {
                Some(b) => settings.add_border = b,
                None => {},
            }
            match field_i8(line, FIELD4_LO, FIELD4_HI) {
                Some(x) => settings.xy_grid = x,
                None => {},
            }
            *state = ReadingState::Xlabel;
            assert(settings@ =~= spec_step(s0, st0, line@).0);
        },
        ReadingState::Xlabel => {
            match extract_field(line, 0, line.len()) {
                Some(f) => settings.xlabel = f,
                None => {},
            }
            *state = ReadingState::Ylabel;
            proof {
                assert(line@.subrange(0, line@.len() as int) =~= line@);
                assert(settings@ =~= spec_step(s0, st0, line@).0);
            }
        },
        ReadingState::Ylabel => {
            match extract_field(line, 0, line.len()) {
                Some(f) => settings.ylabel = f,
                None => {},
            }
            *state = ReadingState::Title1;
            proof {
                assert(line@.subrange(0, line@.len() as int) =~= line@);
                assert(settings@ =~= spec_step(s0, st0, line@).0);
            }
        },
        ReadingState::Title1 => {
            match extract_field(line, 0, line.len()) {
                Some(f) => settings.title1 = f,
                None => {},
            }
            *state = ReadingState::Title2;
            proof {
                assert(line@.subrange(0, line@.len() as int) =~= line@);
                assert(settings@ =~= spec_step(s0, st0, line@).0);
            }
        },
        ReadingState::Title2 => {
            match extract_field(line, 0, line.len()) {
                Some(f) => settings.title2 = f,
                None => {},
            }
            *state = ReadingState::Line1;
            proof {
                assert(line@.subrange(0, line@.len() as int) =~= line@);
                assert(settings@ =~= spec_step(s0, st0, line@).0);
            }
        },
        ReadingState::Line1 => {
            settings.xlo = AxisLo::Inf;
            settings.xhi = Rat { num: -1, den: 1 };
            settings.ylo = AxisLo::Inf;
            settings.yhi = Rat { num: -1, den: 1 };
            *state = ReadingState::Line2;
            assert(settings@ =~= spec_step(s0, st0, line@).0);
        },
        ReadingState::Line2 => {
            *state = ReadingState::Title1;
        },
        ReadingState::Empty => {
            *state = ReadingState::Head1;
        },
    }
}

/// Processes one line of the header stream: reset on a blank line, then one
/// state-machine step.
pub fn advance(line: &Vec<u8>, settings: &mut PlotSettings, state: &mut ReadingState)
    requires
        old(settings).wf(),
    ensures
        final(settings)@ == spec_advance(old(settings)@, *old(state), line@).0,
        *final(state) == spec_advance(old(settings)@, *old(state), line@).1,
        final(settings).wf(),
{
    if blank_line(line) {
        *settings = PlotSettings::default();
        *state = ReadingState::Empty;
    }
    parse(line, settings, state);
}

/// Decoder tolerance: a field that fails to decode (non-numeric text, out
/// of range, or a line too short for its columns) leaves the corresponding
/// settings field at its pre-call value.
pub proof fn lemma_decoder_tolerance(s: SettingsV, line: Seq<u8>)
    ensures
        spec_field_rat(line, 1, 13) is None ==> spec_step(s, ReadingState::Head1, line).0.xdim_lo
            == s.xdim_lo,
        spec_field_rat(line, 13, 24) is None ==> spec_step(s, ReadingState::Head1, line).0.xdim_hi
            == s.xdim_hi,
        spec_field_rat(line, 24, 35) is None ==> spec_step(s, ReadingState::Head1, line).0.ydim_lo
            == s.ydim_lo,
        spec_field_rat(line, 35, 46) is None ==> spec_step(s, ReadingState::Head1, line).0.ydim_hi
            == s.ydim_hi,
        spec_field_i8(line, 1, 13) is None ==> spec_step(s, ReadingState::Head2, line).0.no_curves
            == s.no_curves,
        spec_field_i8(line, 13, 24) is None ==> spec_step(s, ReadingState::Head2, line).0.no_points
            == s.no_points,
        spec_field_bool(line, 24, 35) is None ==> spec_step(s, ReadingState::Head2,
            line).0.add_border == s.add_border,
        spec_field_i8(line, 35, 46) is None ==> spec_step(s, ReadingState::Head2, line).0.xy_grid
            == s.xy_grid,
{
}

/// State reset invariant: a blank line forces the cursor through `Empty`,
/// the settings are rebuilt from defaults, and the next non-blank line is
/// decoded exactly as a `Head1` record over default settings.
pub proof fn lemma_blank_line_resets(
    s: SettingsV,
    st: ReadingState,
    blank: Seq<u8>,
    next: Seq<u8>,
)
    requires
        is_blank(blank),
        !is_blank(next),
    ensures
        spec_advance(s, st, blank).0 == default_settings(),
        spec_advance(s, st, blank).1 == ReadingState::Head1,
        spec_advance(spec_advance(s, st, blank).0, spec_advance(s, st, blank).1, next)
            == spec_step(default_settings(), ReadingState::Head1, next),
{
}

} // verus!
