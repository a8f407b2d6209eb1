//! Smoke tests of writing: each section lands on the right line, in the
//! canonical layout.

use vasp_poscar::{to_lines, Bool3, Builder, Coords, RawPoscar, Real, Real3, ScaleLine};

fn re_w(s: &str) -> Real {
    Real::from_token(s.to_string()).unwrap()
}

fn r3_w(a: &str, b: &str, c: &str) -> Real3 {
    Real3(re_w(a), re_w(b), re_w(c))
}

fn zero3_w() -> Real3 {
    r3_w("0.0", "0.0", "0.0")
}

fn boring_poscar() -> RawPoscar {
    Builder::new()
        .dummy_lattice_vectors()
        .positions(Coords::Frac(vec![zero3_w()]))
        .build_raw()
}

#[test]
fn raw_write_comment() {
    let mut poscar = boring_poscar();
    poscar.comment = "  this is a # boring ! comment".into();

    let lines = to_lines(&poscar.validate().unwrap());
    assert_eq!(lines[0], "  this is a # boring ! comment");
}

#[test]
fn raw_write_scale() {
    let mut poscar = boring_poscar();
    poscar.scale = ScaleLine::Factor(re_w("2.75"));
    let lines = to_lines(&poscar.validate().unwrap());
    assert_eq!(lines[1], "  2.75");

    let mut poscar = boring_poscar();
    poscar.scale = ScaleLine::Volume(re_w("2.75"));
    let lines = to_lines(&poscar.validate().unwrap());
    assert_eq!(lines[1], "  -2.75");
}

#[test]
fn raw_write_lattice() {
    let mut poscar = boring_poscar();
    poscar.lattice_vectors = vasp_poscar::Mat3(
        r3_w("1.25", "2.5", "3.0"),
        r3_w("-1.25", "2.5", "3.0"),
        r3_w("1.25", "-2.5", "3.0"),
    );
    let lines = to_lines(&poscar.validate().unwrap());
    assert_eq!(lines[2], "    1.25 2.5 3.0");
    assert_eq!(lines[3], "    -1.25 2.5 3.0");
    assert_eq!(lines[4], "    1.25 -2.5 3.0");
}

#[test]
fn raw_write_atom_types() {
    let mut poscar = boring_poscar();
    poscar.group_counts = vec![2, 1];
    poscar.positions = Coords::Frac(vec![zero3_w(); 3]);
    let lines = to_lines(&poscar.validate().unwrap());
    assert_eq!(lines[5], "   2  1");

    let mut poscar = boring_poscar();
    poscar.group_counts = vec![2, 1];
    poscar.group_symbols = Some(vec!["C".into(), "N".into()]);
    poscar.positions = Coords::Frac(vec![zero3_w(); 3]);
    let lines = to_lines(&poscar.validate().unwrap());
    assert_eq!(lines[5], "   C  N");
    assert_eq!(lines[6], "   2  1");
}

#[test]
fn raw_write_positions() {
    let mut poscar = boring_poscar();
    poscar.group_counts = vec![2, 1];
    poscar.positions = Coords::Frac(vec![
        r3_w("0.0", "0.25", "0.5"),
        r3_w("1.0", "1.25", "1.5"),
        r3_w("2.0", "2.25", "2.5"),
    ]);
    let lines = to_lines(&poscar.validate().unwrap());
    assert_eq!(lines[6], "Direct");
    assert_eq!(lines[7], "  0.0 0.25 0.5");
    assert_eq!(lines[8], "  1.0 1.25 1.5");
    assert_eq!(lines[9], "  2.0 2.25 2.5");

    let mut poscar = boring_poscar();
    poscar.group_counts = vec![2, 1];
    poscar.positions = Coords::Cart(vec![
        r3_w("0.0", "0.25", "0.5"),
        r3_w("1.0", "1.25", "1.5"),
        r3_w("2.0", "2.25", "2.5"),
    ]);
    let lines = to_lines(&poscar.validate().unwrap());
    assert_eq!(lines[6], "Cartesian");
    assert_eq!(lines[7], "  0.0 0.25 0.5");
}

#[test]
fn raw_write_dynamics() {
    let mut poscar = boring_poscar();
    poscar.group_counts = vec![2, 1];
    poscar.positions = Coords::Frac(vec![zero3_w(); 3]);
    poscar.dynamics = Some(vec![
        Bool3(true, false, true),
        Bool3(false, false, true),
        Bool3(true, true, false),
    ]);
    let lines = to_lines(&poscar.validate().unwrap());
    assert_eq!(lines.len(), 11);
    assert_eq!(lines[6], "Selective Dynamics");
    assert_eq!(lines[7], "Direct");
    assert_eq!(lines[8], "  0.0 0.0 0.0 T F T");
    assert_eq!(lines[9], "  0.0 0.0 0.0 F F T");
    assert_eq!(lines[10], "  0.0 0.0 0.0 T T F");
}

#[test]
fn raw_write_velocities() {
    let mut poscar = boring_poscar();
    poscar.group_counts = vec![2, 1];
    poscar.positions = Coords::Frac(vec![zero3_w(); 3]);

    poscar.velocities = None;
    {
        let lines = to_lines(&poscar.clone().validate().unwrap());
        assert_eq!(10, lines.len());
    }

    poscar.velocities = Some(Coords::Frac(vec![r3_w("0.1", "0.1", "0.1"); 3]));
    {
        let lines = to_lines(&poscar.clone().validate().unwrap());
        assert_eq!(14, lines.len());
        assert_eq!(lines[10], "");
        assert_eq!(lines[11], "  0.1 0.1 0.1");
        assert_eq!(lines[12], "  0.1 0.1 0.1");
        assert_eq!(lines[13], "  0.1 0.1 0.1");
    }

    poscar.velocities = Some(Coords::Cart(vec![r3_w("0.1", "0.1", "0.1"); 3]));
    {
        let lines = to_lines(&poscar.clone().validate().unwrap());
        assert_eq!(14, lines.len());
        assert_eq!(lines[10], "Cartesian");
        assert_eq!(lines[11], "  0.1 0.1 0.1");
    }
}

#[test]
fn token_preservation() {
    // The round-trip mode keeps every numeric token exactly as written.
    let mut poscar = boring_poscar();
    poscar.lattice_vectors = vasp_poscar::Mat3(
        r3_w("1.0", "-1.2e-30", "0.0"),
        r3_w("0.0", "1.23456789012", "0.0"),
        r3_w("0.0", "0.0", "1.0"),
    );
    poscar.positions = Coords::Frac(vec![r3_w("1.23456789012", "-1.2e-30", "0.0")]);
    poscar.velocities = Some(Coords::Frac(vec![r3_w("-1.2e-30", "0.0", "1.23456789012")]));
    let lines = to_lines(&poscar.validate().unwrap());
    assert_eq!(lines[2].trim(), "1.0 -1.2e-30 0.0");
    assert_eq!(lines[3].trim(), "0.0 1.23456789012 0.0");
    assert_eq!(lines[4].trim(), "0.0 0.0 1.0");
    assert_eq!(lines[7].trim(), "1.23456789012 -1.2e-30 0.0");
    assert_eq!(lines[9].trim(), "-1.2e-30 0.0 1.23456789012");
}
