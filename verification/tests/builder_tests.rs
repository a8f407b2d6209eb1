//! Tests of the builder.

use vasp_poscar::{Bool3, Builder, Coords, Mat3, Real, Real3, ScaleLine, Zeroed};

fn re_b(s: &str) -> Real {
    Real::from_token(s.to_string()).unwrap()
}

fn r3_b(a: &str, b: &str, c: &str) -> Real3 {
    Real3(re_b(a), re_b(b), re_b(c))
}

fn zero3_b() -> Real3 {
    r3_b("0.0", "0.0", "0.0")
}

fn new_dumdum() -> Builder {
    Builder::new().dummy_lattice_vectors().positions(Coords::Frac(vec![zero3_b()]))
}

#[test]
fn test_comment() {
    assert_eq!("POSCAR File", new_dumdum().build_raw().comment);
    assert_eq!(
        "hello warld",
        new_dumdum().comment("hello warld".to_string()).build_raw().comment,
    );
}

#[test]
fn test_scale() {
    assert_eq!(ScaleLine::Factor(re_b("1.0")), new_dumdum().build_raw().scale);
    assert_eq!(
        ScaleLine::Volume(re_b("0.5")),
        new_dumdum().scale(ScaleLine::Volume(re_b("0.5"))).build_raw().scale,
    );
}

#[test]
fn test_lattice() {
    let eye = Mat3(
        r3_b("1.0", "0.0", "0.0"),
        r3_b("0.0", "1.0", "0.0"),
        r3_b("0.0", "0.0", "1.0"),
    );
    assert_eq!(eye, new_dumdum().build_raw().lattice_vectors);

    let m = Mat3(
        r3_b("1.0", "2.0", "3.0"),
        r3_b("4.0", "5.0", "6.0"),
        r3_b("9.0", "8.0", "7.0"),
    );
    assert_eq!(m.clone(), new_dumdum().lattice_vectors(m).build_raw().lattice_vectors);
}

#[test]
fn test_positions() {
    for coords in vec![
        Coords::Frac(vec![r3_b("1.0", "2.0", "3.0"), r3_b("4.0", "5.0", "6.0")]),
        Coords::Cart(vec![r3_b("1.0", "2.0", "3.0"), r3_b("4.0", "5.0", "6.0")]),
    ] {
        assert_eq!(
            coords.clone(),
            new_dumdum().positions(coords).build_raw().positions,
        );
    }

    for (zero, expected) in vec![
        (Coords::Frac(Zeroed), Coords::Frac(vec![zero3_b(); 7])),
        (Coords::Cart(Zeroed), Coords::Cart(vec![zero3_b(); 7])),
    ] {
        assert_eq!(
            expected,
            new_dumdum().group_counts(vec![3, 1, 3]).positions(zero).build_raw().positions,
        );
    }
}

#[test]
fn test_velocities() {
    for coords in vec![
        Coords::Frac(vec![r3_b("1.0", "2.0", "3.0"), r3_b("4.0", "5.0", "6.0")]),
        Coords::Cart(vec![r3_b("1.0", "2.0", "3.0"), r3_b("4.0", "5.0", "6.0")]),
    ] {
        assert_eq!(
            Some(coords.clone()),
            new_dumdum().velocities(coords).build_raw().velocities,
        );
    }

    // pos is something that is "clearly not the argument to velocities()"
    // but has the right length
    for (zero, expected, pos) in vec![
        (
            Coords::Frac(Zeroed),
            Coords::Frac(vec![zero3_b(); 7]),
            Coords::Cart(vec![r3_b("0.5", "0.5", "0.5"); 7]),
        ),
        (
            Coords::Cart(Zeroed),
            Coords::Cart(vec![zero3_b(); 7]),
            Coords::Frac(vec![r3_b("0.5", "0.5", "0.5"); 7]),
        ),
    ] {
        // Zeroed with group_counts.
        // Positions are deliberately given wrong length
        //  to make sure that `build_raw()` doesn't care
        assert_eq!(
            Some(expected.clone()),
            new_dumdum()
                .positions(Coords::Cart(vec![zero3_b()]))
                .group_counts(vec![3, 1, 3])
                .velocities(zero.clone())
                .build_raw()
                .velocities,
        );

        // Zeroed with auto counts; length comes from positions
        assert_eq!(
            Some(expected.clone()),
            new_dumdum().positions(pos.clone()).velocities(zero).build_raw().velocities,
        );
    }
}

#[test]
fn test_group_counts() {
    assert_eq!(
        vec![4, 2, 5],
        new_dumdum()
            .dummy_lattice_vectors()
            .group_counts(vec![4, 2, 5])
            .build_raw()
            .group_counts,
    );

    // Auto
    assert_eq!(
        vec![4],
        Builder::new()
            .dummy_lattice_vectors()
            .positions(Coords::Frac(vec![zero3_b(); 4]))
            .build_raw()
            .group_counts,
    );
    assert_eq!(
        vec![4],
        Builder::new()
            .dummy_lattice_vectors()
            .group_counts(vec![3])
            .auto_group_counts()
            .positions(Coords::Frac(vec![zero3_b(); 4]))
            .build_raw()
            .group_counts,
    );
}

#[test]
fn test_group_symbols() {
    assert_eq!(None, new_dumdum().group_counts(vec![4, 2, 5]).build_raw().group_symbols);

    assert_eq!(
        Some(vec![format!("A"), format!("B"), format!("C")]),
        new_dumdum()
            .group_symbols(vec!["A".to_string(), "B".to_string(), "C".to_string()])
            .build_raw()
            .group_symbols,
    );
}

#[test]
fn test_dynamics() {
    assert_eq!(None, new_dumdum().build_raw().dynamics);

    assert_eq!(
        Some(vec![Bool3(true, true, false); 6]),
        new_dumdum().dynamics(vec![Bool3(true, true, false); 6]).build_raw().dynamics,
    );
}
