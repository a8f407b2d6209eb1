//! Smoke tests of parsing: each section of a small file lands in the
//! right field, token for token.

use vasp_poscar::{from_lines, Coords, Real, Real3, ScaleLine};

fn re_p(s: &str) -> Real {
    Real::from_token(s.to_string()).unwrap()
}

fn r3_p(a: &str, b: &str, c: &str) -> Real3 {
    Real3(re_p(a), re_p(b), re_p(c))
}

fn lines_p(s: &str) -> Vec<String> {
    s.lines().map(|l| l.to_string()).collect()
}

#[test]
fn raw_parse_comment() {
    let input = "  this is a # boring ! comment\n1\n1 0 0\n0 1 0\n0 0 1\n1\nDirect\n0 0 0\n";
    let p = from_lines(lines_p(input), None).unwrap().into_raw();
    assert_eq!(p.comment, "  this is a # boring ! comment");
}

#[test]
fn raw_parse_scale() {
    let input = "comment\n2.45\n1 0 0\n0 1 0\n0 0 1\n1\nDirect\n0 0 0\n";
    let p = from_lines(lines_p(input), None).unwrap().into_raw();
    assert_eq!(p.scale, ScaleLine::Factor(re_p("2.45")));

    let input = "comment\n-2.45\n1 0 0\n0 1 0\n0 0 1\n1\nDirect\n0 0 0\n";
    let p = from_lines(lines_p(input), None).unwrap().into_raw();
    assert_eq!(p.scale, ScaleLine::Volume(re_p("2.45")));
}

#[test]
fn raw_parse_lattice() {
    let input = "comment\n2.45\n1.25 2.5 3.0\n-1.25 2.5 3.0\n1.25 -2.5 3.0\n1\nDirect\n0 0 0\n";
    let p = from_lines(lines_p(input), None).unwrap().into_raw();
    assert_eq!(p.lattice_vectors.0, r3_p("1.25", "2.5", "3.0"));
    assert_eq!(p.lattice_vectors.1, r3_p("-1.25", "2.5", "3.0"));
    assert_eq!(p.lattice_vectors.2, r3_p("1.25", "-2.5", "3.0"));
}

#[test]
fn raw_parse_atom_types() {
    let input = "comment\n2.45\n1.25 2.5 3.0\n-1.25 2.5 3.0\n1.25 -2.5 3.0\nC N\n2 1\nDirect\n0 0 0\n0.25 0.25 0.25\n0.5 0.5 0.5\n";
    let p = from_lines(lines_p(input), None).unwrap().into_raw();
    assert_eq!(p.group_symbols, Some(vec!["C".to_string(), "N".to_string()]));
    assert_eq!(p.group_counts, vec![2, 1]);

    let input = "comment\n2.45\n1.25 2.5 3.0\n-1.25 2.5 3.0\n1.25 -2.5 3.0\n2 1\nDirect\n0 0 0\n0.25 0.25 0.25\n0.5 0.5 0.5\n";
    let p = from_lines(lines_p(input), None).unwrap().into_raw();
    assert_eq!(p.group_symbols, None);
    assert_eq!(p.group_counts, vec![2, 1]);
}

#[test]
fn raw_parse_positions() {
    let input = "comment\n2.45\n1.25 2.5 3.0\n-1.25 2.5 3.0\n1.25 -2.5 3.0\n2 1\nCartesian\n0 0.25 0.5\n1 1.25 1.5\n2 2.25 2.5\n";
    let p = from_lines(lines_p(input), None).unwrap().into_raw();
    assert_eq!(
        p.positions,
        Coords::Cart(vec![
            r3_p("0", "0.25", "0.5"),
            r3_p("1", "1.25", "1.5"),
            r3_p("2", "2.25", "2.5"),
        ]),
    );

    let input = "comment\n2.45\n1.25 2.5 3.0\n-1.25 2.5 3.0\n1.25 -2.5 3.0\n2 1\nDirect\n0 0.25 0.5\n1 1.25 1.5\n2 2.25 2.5\n";
    let p = from_lines(lines_p(input), None).unwrap().into_raw();
    assert_eq!(
        p.positions,
        Coords::Frac(vec![
            r3_p("0", "0.25", "0.5"),
            r3_p("1", "1.25", "1.5"),
            r3_p("2", "2.25", "2.5"),
        ]),
    );
}

#[test]
fn raw_parse_dynamics() {
    let input = "comment\n2.45\n1.25 2.5 3.0\n-1.25 2.5 3.0\n1.25 -2.5 3.0\n2 1\nSelective Dynamics\nCartesian\n0 0.25 0.5 T F T\n1 1.25 1.5 F F T\n2 2.25 2.5 T T F\n";
    let p = from_lines(lines_p(input), None).unwrap().into_raw();
    assert_eq!(
        p.dynamics,
        Some(vec![
            vasp_poscar::Bool3(true, false, true),
            vasp_poscar::Bool3(false, false, true),
            vasp_poscar::Bool3(true, true, false),
        ]),
    );

    let input = "comment\n2.45\n1.25 2.5 3.0\n-1.25 2.5 3.0\n1.25 -2.5 3.0\n2 1\nCartesian\n0 0.25 0.5\n1 1.25 1.5\n2 2.25 2.5\n";
    let p = from_lines(lines_p(input), None).unwrap().into_raw();
    assert_eq!(p.dynamics, None);
}

#[test]
fn raw_parse_velocities() {
    let input = "comment\n2.45\n1.25 2.5 3.0\n-1.25 2.5 3.0\n1.25 -2.5 3.0\n2\nCartesian\n0 0 0\n0 0 0\n";
    let p = from_lines(lines_p(input), None).unwrap().into_raw();
    assert_eq!(p.velocities, None);

    let input = "comment\n2.45\n1.25 2.5 3.0\n-1.25 2.5 3.0\n1.25 -2.5 3.0\n2\nCartesian\n0 0 0\n0 0 0\nCartesian\n0 0.25 0.5\n1 1.25 1.5\n";
    let p = from_lines(lines_p(input), None).unwrap().into_raw();
    assert_eq!(
        p.velocities,
        Some(Coords::Cart(vec![r3_p("0", "0.25", "0.5"), r3_p("1", "1.25", "1.5")])),
    );

    let input = "comment\n2.45\n1.25 2.5 3.0\n-1.25 2.5 3.0\n1.25 -2.5 3.0\n2\nCartesian\n0 0 0\n0 0 0\nDirect\n0 0.25 0.5\n1 1.25 1.5\n";
    let p = from_lines(lines_p(input), None).unwrap().into_raw();
    assert_eq!(
        p.velocities,
        Some(Coords::Frac(vec![r3_p("0", "0.25", "0.5"), r3_p("1", "1.25", "1.5")])),
    );

    // A blank line meaning fractional velocities, as this crate's own
    // output writes them.
    let input = "comment\n2.45\n1.25 2.5 3.0\n-1.25 2.5 3.0\n1.25 -2.5 3.0\n2\nCartesian\n0 0 0\n0 0 0\n\n0 0.25 0.5\n1 1.25 1.5\n";
    let p = from_lines(lines_p(input), None).unwrap().into_raw();
    assert_eq!(
        p.velocities,
        Some(Coords::Frac(vec![r3_p("0", "0.25", "0.5"), r3_p("1", "1.25", "1.5")])),
    );
}
