//! End-to-end scenarios: the concrete files and rules the format is
//! specified by, and the round trip exercised at run time.

use vasp_poscar::{
    format_poscar, from_lines, to_lines, Builder, Bool3, Coords, ParseErrorKind, Real, Real3,
    ScaleLine, ValidationError, Zeroed,
};

fn re_s(s: &str) -> Real {
    Real::from_token(s.to_string()).unwrap()
}

fn r3_s(a: &str, b: &str, c: &str) -> Real3 {
    Real3(re_s(a), re_s(b), re_s(c))
}

fn lines_s(s: &str) -> Vec<String> {
    s.lines().map(|l| l.to_string()).collect()
}

const EXAMPLE: &str = "cubic diamond\n  3.7\n    0.5 0.5 0.0\n    0.0 0.5 0.5\n    0.5 0.0 0.5\n   C\n   2\nDirect\n  0.0 0.0 0.0\n  0.25 0.25 0.25\n";

#[test]
fn minimal_valid_file() {
    let p = from_lines(lines_s(EXAMPLE), None).unwrap().into_raw();
    assert_eq!(p.comment, "cubic diamond");
    assert_eq!(p.scale, ScaleLine::Factor(re_s("3.7")));
    assert_eq!(p.lattice_vectors.0, r3_s("0.5", "0.5", "0.0"));
    assert_eq!(p.lattice_vectors.1, r3_s("0.0", "0.5", "0.5"));
    assert_eq!(p.lattice_vectors.2, r3_s("0.5", "0.0", "0.5"));
    assert_eq!(p.group_symbols, Some(vec!["C".to_string()]));
    assert_eq!(p.group_counts, vec![2]);
    assert_eq!(
        p.positions,
        Coords::Frac(vec![r3_s("0.0", "0.0", "0.0"), r3_s("0.25", "0.25", "0.25")]),
    );
    assert_eq!(p.velocities, None);
    assert_eq!(p.dynamics, None);
}

#[test]
fn minimal_file_round_trips_exactly() {
    let p = from_lines(lines_s(EXAMPLE), None).unwrap();
    // This file is in canonical layout already, so even the text
    // reproduces byte for byte.
    assert_eq!(format_poscar(&p), EXAMPLE);
}

#[test]
fn scale_sign_flips_mode() {
    let input = "comment\n  -10.0\n    1.0 0.0 0.0\n    0.0 1.0 0.0\n    0.0 0.0 1.0\n   1\nDirect\n  0.0 0.0 0.0\n";
    let p = from_lines(lines_s(input), None).unwrap();
    assert_eq!(p.raw_ref().scale, ScaleLine::Volume(re_s("10.0")));
    let lines = to_lines(&p);
    assert_eq!(lines[1], "  -10.0");
    // and the whole document is unchanged
    assert_eq!(format_poscar(&p), input);
}

#[test]
fn missing_symbols_line() {
    let input = "comment\n1.0\n1 0 0\n0 1 0\n0 0 1\n2\nDirect\n0 0 0\n0.5 0.5 0.5\n";
    let p = from_lines(lines_s(input), None).unwrap().into_raw();
    assert_eq!(p.group_symbols, None);
    assert_eq!(p.group_counts, vec![2]);
}

#[test]
fn malformed_scale_line() {
    let input = "comment\n1.0 2.0\n1 0 0\n0 1 0\n0 0 1\n1\nDirect\n0 0 0\n";
    let e = from_lines(lines_s(input), None).unwrap_err();
    assert_eq!(e.kind, ParseErrorKind::TooManyScaleValues);
    assert_eq!(e.line, Some(1));
    assert_eq!(e.col, Some(4));
}

#[test]
fn zero_atoms() {
    // at parse time
    let input = "comment\n1.0\n1 0 0\n0 1 0\n0 0 1\n0 0\nDirect\n";
    let e = from_lines(lines_s(input), None).unwrap_err();
    assert_eq!(e.kind, ParseErrorKind::NoAtoms);
    assert_eq!(e.line, Some(5));

    // at validation time
    let raw = Builder::new()
        .dummy_lattice_vectors()
        .positions(Coords::Frac(vec![]))
        .group_counts(vec![0, 0])
        .build_raw();
    assert!(matches!(raw.validate(), Err(ValidationError::NoAtoms)));
}

#[test]
fn scale_rejects_zero_and_nan() {
    let input = "comment\n0.0\n1 0 0\n0 1 0\n0 0 1\n1\nDirect\n0 0 0\n";
    let e = from_lines(lines_s(input), None).unwrap_err();
    assert_eq!(e.kind, ParseErrorKind::ScaleCannotBeZero);
    assert_eq!((e.line, e.col), (Some(1), Some(0)));

    let input = "comment\nNaN\n1 0 0\n0 1 0\n0 0 1\n1\nDirect\n0 0 0\n";
    let e = from_lines(lines_s(input), None).unwrap_err();
    assert_eq!(e.kind, ParseErrorKind::ScaleCannotBeNan);
}

#[test]
fn lexical_errors_carry_positions() {
    // a word that is not a real number, on the second lattice row
    let input = "comment\n1.0\n1 0 0\n0 x 0\n0 0 1\n1\nDirect\n0 0 0\n";
    let e = from_lines(lines_s(input), None).unwrap_err();
    assert_eq!(e.kind, ParseErrorKind::InvalidNumber);
    assert_eq!((e.line, e.col), (Some(3), Some(2)));

    // a bad logical after the coordinates
    let input = "comment\n1.0\n1 0 0\n0 1 0\n0 0 1\n1\nSelective Dynamics\nDirect\n0 0 0 T q F\n";
    let e = from_lines(lines_s(input), None).unwrap_err();
    assert_eq!(e.kind, ParseErrorKind::InvalidLogical);
    assert_eq!((e.line, e.col), (Some(8), Some(8)));

    // input that simply stops
    let input = "comment\n1.0\n1 0 0\n0 1 0\n0 0 1\n2\nDirect\n0 0 0\n";
    let e = from_lines(lines_s(input), None).unwrap_err();
    assert_eq!(e.kind, ParseErrorKind::UnexpectedEndOfInput);
    assert_eq!((e.line, e.col), (Some(8), None));

    // trailing junk after a complete velocity block
    let input = "comment\n1.0\n1 0 0\n0 1 0\n0 0 1\n1\nDirect\n0 0 0\nCartesian\n0 0 0\n\nwat\n";
    let e = from_lines(lines_s(input), None).unwrap_err();
    assert_eq!(e.kind, ParseErrorKind::UnexpectedTrailingContent);
    assert_eq!((e.line, e.col), (Some(11), Some(0)));
}

#[test]
fn parse_time_group_coupling() {
    let input = "comment\n1.0\n1 0 0\n0 1 0\n0 0 1\nC N\n2\nDirect\n0 0 0\n0 0 0\n";
    let e = from_lines(lines_s(input), None).unwrap_err();
    assert_eq!(e.kind, ParseErrorKind::InconsistentGroupCount);
    assert_eq!((e.line, e.col), (Some(6), Some(0)));
}

#[test]
fn coupling_precedes_symbol_check() {
    // an illegal symbol AND a count mismatch: the coupling is reported,
    // at the counts line, before any symbol is examined
    let input = "comment\n1.0\n1 0 0\n0 1 0\n0 0 1\nC 9N\n2\nDirect\n0 0 0\n0 0 0\n";
    let e = from_lines(lines_s(input), None).unwrap_err();
    assert_eq!(e.kind, ParseErrorKind::InconsistentGroupCount);
    assert_eq!((e.line, e.col), (Some(6), Some(0)));
}

#[test]
fn signed_volume_payload_is_rejected() {
    // the writer spells volume mode as a leading minus, so a volume
    // payload carrying its own written sign could not be read back;
    // validation refuses it
    let raw = Builder::new()
        .dummy_lattice_vectors()
        .positions(Coords::Frac(vec![r3_s("0.0", "0.0", "0.0")]))
        .scale(ScaleLine::Volume(re_s("+2.5")))
        .build_raw();
    assert!(matches!(raw.validate(), Err(ValidationError::BadScaleLine)));

    // a factor payload may carry a plus sign: it is written verbatim and
    // reads back unchanged
    let raw = Builder::new()
        .dummy_lattice_vectors()
        .positions(Coords::Frac(vec![r3_s("0.0", "0.0", "0.0")]))
        .scale(ScaleLine::Factor(re_s("+2.5")))
        .build_raw();
    let expected = raw.clone();
    let poscar = raw.validate().unwrap();
    let back = from_lines(to_lines(&poscar), None).unwrap().into_raw();
    assert_eq!(back, expected);
}

#[test]
fn parse_time_symbol_check() {
    let input = "comment\n1.0\n1 0 0\n0 1 0\n0 0 1\nC 9N\n1 2\nDirect\n0 0 0\n0 0 0\n0 0 0\n";
    let e = from_lines(lines_s(input), None).unwrap_err();
    assert_eq!(e.kind, ParseErrorKind::InvalidSymbol);
    assert_eq!((e.line, e.col), (Some(5), Some(2)));
}

#[test]
fn counts_line_tolerates_trailing_comment() {
    let input = "comment\n1.0\n1 0 0\n0 1 0\n0 0 1\n2 1 of which one is odd\nDirect\n0 0 0\n0 0 0\n0 0 0\n";
    let p = from_lines(lines_s(input), None).unwrap().into_raw();
    assert_eq!(p.group_counts, vec![2, 1]);
}

#[test]
fn error_messages_are_one_based() {
    let input = "comment\n1.0 2.0\n";
    let e = from_lines(lines_s(input), Some("POSCAR".to_string())).unwrap_err();
    assert_eq!(e.message(), "POSCAR:2:5: too many reals on scale line (expected just one)");
    let e2 = from_lines(lines_s(input), None).unwrap_err();
    assert_eq!(e2.message(), "<input>:2:5: too many reals on scale line (expected just one)");
}

#[test]
fn full_round_trip() {
    // every optional section present, both tags exercised
    let mut all = Builder::new()
        .comment("a structure with everything".to_string())
        .scale(ScaleLine::Volume(re_s("64.0")))
        .lattice_vectors(vasp_poscar::Mat3(
            r3_s("-4.0", "2.0", "-4.0"),
            r3_s("2.0", "-6.0", "6.0"),
            r3_s("-2.0", "-2.0", "0.0"),
        ))
        .group_symbols(vec!["B".to_string(), "N".to_string()])
        .group_counts(vec![1, 2])
        .positions(Coords::Cart(vec![
            r3_s("0.0", "0.25", "0.75"),
            r3_s("0.25", "-2.25", "3.125"),
            r3_s("1e-3", "2.5E+1", "inf"),
        ]))
        .dynamics(vec![
            Bool3(true, false, true),
            Bool3(false, false, false),
            Bool3(true, true, true),
        ])
        .velocities(Coords::Frac(vec![
            r3_s("0.1", "0.2", "0.3"),
            r3_s("-0.1", "-0.2", "-0.3"),
            r3_s("0.0", "0.0", "0.0"),
        ]))
        .build_raw();

    for velocities_cart in [false, true] {
        for positions_cart in [false, true] {
            let mut raw = all.clone();
            if positions_cart {
                raw.positions = Coords::Cart(raw.positions.raw());
            } else {
                raw.positions = Coords::Frac(raw.positions.raw());
            }
            if velocities_cart {
                raw.velocities = raw.velocities.map(|v| Coords::Cart(v.raw()));
            } else {
                raw.velocities = raw.velocities.map(|v| Coords::Frac(v.raw()));
            }
            let expected = raw.clone();
            let poscar = raw.validate().unwrap();
            let lines = to_lines(&poscar);
            let back = from_lines(lines, None).unwrap().into_raw();
            assert_eq!(back, expected);
        }
    }

    // factor mode, no optional sections
    all.scale = ScaleLine::Factor(re_s("2.0"));
    all.group_symbols = None;
    all.dynamics = None;
    all.velocities = None;
    let expected = all.clone();
    let poscar = all.validate().unwrap();
    let back = from_lines(to_lines(&poscar), None).unwrap().into_raw();
    assert_eq!(back, expected);
}

#[test]
fn symbols_line_round_trips() {
    // symbols of width one and three, padded and recovered exactly
    let raw = Builder::new()
        .dummy_lattice_vectors()
        .group_symbols(vec!["C".to_string(), "Xe".to_string(), "Uuo".to_string()])
        .group_counts(vec![1, 1, 1])
        .positions(Coords::Frac(Zeroed))
        .build_raw();
    let poscar = raw.validate().unwrap();
    let lines = to_lines(&poscar);
    assert_eq!(lines[5], "   C Xe Uuo");
    let back = from_lines(lines, None).unwrap().into_raw();
    assert_eq!(
        back.group_symbols,
        Some(vec!["C".to_string(), "Xe".to_string(), "Uuo".to_string()]),
    );
}

#[test]
fn suspicious_indented_flag_means_fractional() {
    // a coordinate-system line whose first character is a space selects
    // fractional coordinates, whatever word follows
    let input = "comment\n1.0\n1 0 0\n0 1 0\n0 0 1\n1\n Cartesian\n0 0 0\n";
    let p = from_lines(lines_s(input), None).unwrap().into_raw();
    assert!(matches!(p.positions, Coords::Frac(_)));

    // an empty coordinate-system line does too
    let input = "comment\n1.0\n1 0 0\n0 1 0\n0 0 1\n1\n\n0 0 0\n";
    let p = from_lines(lines_s(input), None).unwrap().into_raw();
    assert!(matches!(p.positions, Coords::Frac(_)));

    // and a `k` selects Cartesian
    let input = "comment\n1.0\n1 0 0\n0 1 0\n0 0 1\n1\nkartesisch\n0 0 0\n";
    let p = from_lines(lines_s(input), None).unwrap().into_raw();
    assert!(matches!(p.positions, Coords::Cart(_)));
}

#[test]
fn leading_plus_ends_counts() {
    // a count with a leading plus is not a count: it begins the trailing
    // comment, so only one group remains
    let input = "comment\n1.0\n1 0 0\n0 1 0\n0 0 1\n2 +1\nDirect\n0 0 0\n0 0 0\n";
    let p = from_lines(lines_s(input), None).unwrap().into_raw();
    assert_eq!(p.group_counts, vec![2]);
}
