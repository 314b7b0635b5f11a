use rusttab::settings::{PlotSettings, ReadingState, AxisLo};
use rusttab::machine::{parse, advance};
use rusttab::curves::{parse_point, RunError};
use rusttab::rat::Rat;
use rusttab::run::process_streams;

fn bytes(s: &str) -> Vec<u8> {
    s.as_bytes().to_vec()
}

fn lines(v: &[&str]) -> Vec<Vec<u8>> {
    let mut out: Vec<Vec<u8>> = Vec::new();
    for s in v {
        out.push(bytes(s));
    }
    out
}

/// A fixed-width header record: one pad byte, then the four fields at
/// byte columns [1,13), [13,24), [24,35), [35,46).
fn head_line(f1: &str, f2: &str, f3: &str, f4: &str) -> String {
    let mut s = String::from(" ");
    for (w, t) in [(12usize, f1), (11, f2), (11, f3), (11, f4)] {
        s.push_str(t);
        for _ in t.len()..w {
            s.push(' ');
        }
    }
    s
}

#[test]
fn state_machine_cycles() {
    let mut settings = PlotSettings::default();
    let mut state = ReadingState::Head1;
    let l = bytes("anything");
    parse(&l, &mut settings, &mut state);
    assert!(matches!(state, ReadingState::Head2));
    parse(&l, &mut settings, &mut state);
    assert!(matches!(state, ReadingState::Xlabel));
    parse(&l, &mut settings, &mut state);
    assert!(matches!(state, ReadingState::Ylabel));
    parse(&l, &mut settings, &mut state);
    assert!(matches!(state, ReadingState::Title1));
    parse(&l, &mut settings, &mut state);
    assert!(matches!(state, ReadingState::Title2));
    parse(&l, &mut settings, &mut state);
    assert!(matches!(state, ReadingState::Line1));
    parse(&l, &mut settings, &mut state);
    assert!(matches!(state, ReadingState::Line2));
    // After a completed block the cycle reopens at Title1.
    parse(&l, &mut settings, &mut state);
    assert!(matches!(state, ReadingState::Title1));
}

#[test]
fn head1_decodes_dimension_fields() {
    let mut settings = PlotSettings::default();
    let mut state = ReadingState::Head1;
    let l = bytes(&head_line("0", "13.5", "0", "10"));
    parse(&l, &mut settings, &mut state);
    assert_eq!(settings.xdim_lo, Rat { num: 0, den: 1 });
    assert_eq!(settings.xdim_hi, Rat { num: 135, den: 10 });
    assert_eq!(settings.ydim_lo, Rat { num: 0, den: 1 });
    assert_eq!(settings.ydim_hi, Rat { num: 10, den: 1 });
}

#[test]
fn decoder_tolerance_keeps_prior_value() {
    let mut settings = PlotSettings::default();
    let mut state = ReadingState::Head1;
    // Second field is not numeric: xdim_hi must stay at its default 13.5.
    let l = bytes(&head_line("2.5", "oops", "1", "4"));
    parse(&l, &mut settings, &mut state);
    assert_eq!(settings.xdim_lo, Rat { num: 25, den: 10 });
    assert_eq!(settings.xdim_hi, Rat { num: 27, den: 2 });
    assert_eq!(settings.ydim_lo, Rat { num: 1, den: 1 });
    assert!(matches!(state, ReadingState::Head2));
}

#[test]
fn head2_decodes_counts_and_flags() {
    let mut settings = PlotSettings::default();
    let mut state = ReadingState::Head2;
    let l = bytes(&head_line("2", "3", "1", "4"));
    parse(&l, &mut settings, &mut state);
    assert_eq!(settings.no_curves, 2);
    assert_eq!(settings.no_points, 3);
    assert!(settings.add_border);
    assert_eq!(settings.xy_grid, 4);
}

#[test]
fn blank_line_resets_to_head1() {
    let mut settings = PlotSettings::default();
    let mut state = ReadingState::Title2;
    settings.no_curves = 5;
    advance(&bytes("   "), &mut settings, &mut state);
    // The blank line is discarded: the machine passes through Empty and the
    // next line will be decoded as Head1, over default settings.
    assert!(matches!(state, ReadingState::Head1));
    assert_eq!(settings.no_curves, 1);
    let l = bytes(&head_line("1", "2", "3", "4"));
    advance(&l, &mut settings, &mut state);
    assert_eq!(settings.xdim_lo, Rat { num: 1, den: 1 });
    assert!(matches!(state, ReadingState::Head2));
}

#[test]
fn point_line_parsing() {
    let p = parse_point(&bytes("  1.5   -2e1  trailing junk")).unwrap();
    assert_eq!(p.x, Rat { num: 15, den: 10 });
    assert_eq!(p.y, Rat { num: -20, den: 1 });
    assert!(parse_point(&bytes("1.5")).is_none());
    assert!(parse_point(&bytes("1.5 oops")).is_none());
    assert!(parse_point(&bytes("")).is_none());
}

fn round_trip_header() -> Vec<Vec<u8>> {
    lines(&[
        &head_line("0", "13.5", "0", "10"),
        &head_line("2", "3", "0", "0"),
        "Time",
        "Amplitude",
        "RunA",
        "Comparison",
        "*",
        "*",
    ])
}

fn round_trip_curves() -> Vec<Vec<u8>> {
    lines(&[
        "CurveA", "0 1", "1 2", "2 4", "", "CurveB", "0 1", "1 2.5", "2 3", "",
    ])
}

#[test]
fn round_trip_single_block() {
    let out = process_streams(&round_trip_header(), &round_trip_curves());
    assert!(out.error.is_none());
    assert_eq!(out.blocks.len(), 1);
    let b = &out.blocks[0];
    assert_eq!(b.settings.xlabel, bytes("Time"));
    assert_eq!(b.settings.ylabel, bytes("Amplitude"));
    assert_eq!(b.settings.title1, bytes("RunA"));
    assert_eq!(b.settings.title2, bytes("Comparison"));
    assert_eq!(b.settings.no_curves, 2);
    // Autoscale bounds: xlo=0, xhi=2, ylo=1, yhi=4, exactly.
    assert_eq!(b.settings.xlo, AxisLo::Fin(Rat { num: 0, den: 1 }));
    assert_eq!(b.settings.xhi, Rat { num: 2, den: 1 });
    assert_eq!(b.settings.ylo, AxisLo::Fin(Rat { num: 1, den: 1 }));
    assert_eq!(b.settings.yhi, Rat { num: 4, den: 1 });
    // The two curves, in file order.
    assert_eq!(b.curves.len(), 2);
    assert_eq!(b.curves[0].title, bytes("CurveA"));
    assert_eq!(b.curves[1].title, bytes("CurveB"));
    assert_eq!(b.curves[0].points.len(), 3);
    assert_eq!(b.curves[1].points.len(), 3);
    // One ratio sequence: (0, 1.0), (1, 1.25), (2, 0.75).
    assert_eq!(b.ratios.len(), 1);
    let r = &b.ratios[0];
    assert_eq!(r.len(), 3);
    let expected = [(0i128, 1i128, 1i128), (1, 5, 4), (2, 3, 4)];
    for (k, (x, yn, yd)) in expected.iter().enumerate() {
        assert_eq!(r[k].x.num * 1, x * r[k].x.den);
        let y = r[k].y.unwrap();
        // y == yn/yd as rationals.
        assert_eq!(y.num * yd, yn * y.den);
        assert!(y.den > 0);
    }
}

#[test]
fn blank_reset_between_blocks_drops_labels() {
    let mut header = round_trip_header();
    header.push(bytes(""));
    // Second block: same shape, but its own labels.
    header.extend(lines(&[
        &head_line("0", "13.5", "0", "10"),
        &head_line("1", "3", "0", "0"),
        "Phase",
        "Magnitude",
        "RunB",
        "Second",
        "*",
        "*",
    ]));
    let mut curves = round_trip_curves();
    curves.extend(lines(&["CurveC", "5 6", "7 8", ""]));
    let out = process_streams(&header, &curves);
    assert!(out.error.is_none());
    assert_eq!(out.blocks.len(), 2);
    // The first block's labels do not leak into the second.
    assert_eq!(out.blocks[0].settings.xlabel, bytes("Time"));
    assert_eq!(out.blocks[1].settings.xlabel, bytes("Phase"));
    assert_eq!(out.blocks[1].settings.title1, bytes("RunB"));
    assert_eq!(out.blocks[1].settings.no_curves, 1);
    assert_eq!(out.blocks[1].curves.len(), 1);
    assert_eq!(out.blocks[1].ratios.len(), 0);
    // Second block's bounds come from its own points only.
    assert_eq!(out.blocks[1].settings.xlo, AxisLo::Fin(Rat { num: 5, den: 1 }));
    assert_eq!(out.blocks[1].settings.xhi, Rat { num: 7, den: 1 });
}

#[test]
fn consecutive_blocks_without_blank_share_headers() {
    // After Line2 the cycle reopens at Title1: a second block may follow
    // with only titles and the two marker lines.
    let mut header = round_trip_header();
    header.extend(lines(&["RunB", "Again", "*", "*"]));
    let mut curves = round_trip_curves();
    curves.extend(lines(&["CurveC", "5 6", "", "CurveD", "5 3", ""]));
    let out = process_streams(&header, &curves);
    assert!(out.error.is_none());
    assert_eq!(out.blocks.len(), 2);
    // Labels inherited from the first header, titles replaced.
    assert_eq!(out.blocks[1].settings.xlabel, bytes("Time"));
    assert_eq!(out.blocks[1].settings.title1, bytes("RunB"));
    // Line1 reset the accumulators: bounds cover only the new points.
    assert_eq!(out.blocks[1].settings.xlo, AxisLo::Fin(Rat { num: 5, den: 1 }));
    assert_eq!(out.blocks[1].settings.yhi, Rat { num: 6, den: 1 });
}

#[test]
fn curve_stream_exhaustion_is_fatal() {
    // no_curves=2 but only one titled list in the curve stream.
    let curves = lines(&["CurveA", "0 1", "1 2", ""]);
    let out = process_streams(&round_trip_header(), &curves);
    assert_eq!(out.error, Some(RunError::TitleExhausted));
    // No block is emitted for the failed block.
    assert_eq!(out.blocks.len(), 0);
}

#[test]
fn malformed_point_is_fatal() {
    let curves = lines(&["CurveA", "0 1", "1 oops", "", "CurveB", "0 1", ""]);
    let out = process_streams(&round_trip_header(), &curves);
    assert_eq!(out.error, Some(RunError::MalformedPoint));
    assert_eq!(out.blocks.len(), 0);
}

#[test]
fn ratio_with_zero_reference_has_no_value() {
    let header = lines(&[
        &head_line("0", "13.5", "0", "10"),
        &head_line("2", "2", "0", "0"),
        "X",
        "Y",
        "T1",
        "T2",
        "*",
        "*",
    ]);
    let curves = lines(&["A", "0 0", "1 2", "", "B", "0 5", "1 4", ""]);
    let out = process_streams(&header, &curves);
    assert!(out.error.is_none());
    let r = &out.blocks[0].ratios[0];
    assert!(r[0].y.is_none());
    let y1 = r[1].y.unwrap();
    assert_eq!(y1.num * 1, 2 * y1.den);
}

#[test]
fn sentinel_keeps_high_bound_at_minus_one() {
    // All x below -1: xhi stays at the -1 sentinel, exactly as the
    // accumulator starts it.
    let header = lines(&[
        &head_line("0", "13.5", "0", "10"),
        &head_line("1", "2", "0", "0"),
        "X",
        "Y",
        "T1",
        "T2",
        "*",
        "*",
    ]);
    let curves = lines(&["A", "-5 -3", "-4 -2", ""]);
    let out = process_streams(&header, &curves);
    assert!(out.error.is_none());
    let s = &out.blocks[0].settings;
    assert_eq!(s.xhi, Rat { num: -1, den: 1 });
    assert_eq!(s.xlo, AxisLo::Fin(Rat { num: -5, den: 1 }));
    assert_eq!(s.yhi, Rat { num: -1, den: 1 });
    assert_eq!(s.ylo, AxisLo::Fin(Rat { num: -3, den: 1 }));
}
