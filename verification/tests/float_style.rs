//! Tests of the two numeric rendering modes: verbatim (round-trip) and
//! precision-limited.

use vasp_poscar::{
    fixed_token, to_lines, to_lines_styled, Builder, Coords, FloatStyle, Mat3, Real, Real3,
};

fn re_f(s: &str) -> Real {
    Real::from_token(s.to_string()).unwrap()
}

fn r3_f(a: &str, b: &str, c: &str) -> Real3 {
    Real3(re_f(a), re_f(b), re_f(c))
}

#[test]
fn float_formatting() {
    let mut poscar = Builder::new()
        .dummy_lattice_vectors()
        .positions(Coords::Frac(vec![r3_f("0.0", "0.0", "0.0")]))
        .build_raw();
    poscar.lattice_vectors = Mat3(
        r3_f("1.0", "-1.2e-30", "0.0"), // a number worth keeping verbatim
        r3_f("0.0", "1.23456789012", "0.0"), // a number to be rounded
        r3_f("0.0", "0.0", "1.0"),
    );
    poscar.group_counts = vec![1];
    poscar.positions = Coords::Frac(vec![r3_f("1.23456789012", "-1.2e-30", "0.0")]);
    poscar.velocities = Some(Coords::Frac(vec![r3_f("-1.2e-30", "0.0", "1.23456789012")]));
    let poscar = poscar.validate().unwrap();

    // the default mode keeps every token verbatim
    let lines = to_lines(&poscar);
    let picked: Vec<&str> = [1, 2, 3, 4, 7, 9].iter().map(|&i| lines[i].trim()).collect();
    assert_eq!(
        picked,
        vec![
            "1.0",
            "1.0 -1.2e-30 0.0",
            "0.0 1.23456789012 0.0",
            "0.0 0.0 1.0",
            "1.23456789012 -1.2e-30 0.0",
            "-1.2e-30 0.0 1.23456789012",
        ],
    );

    // explicit width and precision render every value
    let st = FloatStyle::new(Some(9), Some(6));
    let lines = to_lines_styled(&poscar, &st);
    let picked: Vec<&str> = [1, 2, 3, 4, 7, 9].iter().map(|&i| lines[i].trim()).collect();
    assert_eq!(
        picked,
        vec![
            "1.000000",
            "1.000000 -0.000000  0.000000",
            "0.000000  1.234568  0.000000",
            "0.000000  0.000000  1.000000",
            "1.234568 -0.000000  0.000000",
            "-0.000000  0.000000  1.234568",
        ],
    );
}

#[test]
fn fixed_token_rounding() {
    assert_eq!(fixed_token("1.0", 6), "1.000000");
    assert_eq!(fixed_token("1.23456789012", 6), "1.234568");
    assert_eq!(fixed_token("-1.2e-30", 6), "-0.000000");
    assert_eq!(fixed_token("2.5", 0), "3");
    assert_eq!(fixed_token("2.4", 0), "2");
    assert_eq!(fixed_token("-2.5", 0), "-3");
    assert_eq!(fixed_token("0.999", 2), "1.00");
    assert_eq!(fixed_token("9.99", 1), "10.0");
    assert_eq!(fixed_token("1e3", 1), "1000.0");
    assert_eq!(fixed_token("12.5e-1", 2), "1.25");
    assert_eq!(fixed_token("inf", 6), "inf");
    assert_eq!(fixed_token("-inf", 6), "-inf");
    assert_eq!(fixed_token("nan", 6), "nan");
    // past every binary double: saturates like evaluation would
    assert_eq!(fixed_token("1e999", 2), "inf");
    assert_eq!(fixed_token("-1e999", 2), "-inf");
    assert_eq!(fixed_token("1e-999", 2), "0.00");
}
