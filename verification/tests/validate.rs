//! Tests of `RawPoscar::validate`, one of the two ways a `Poscar` comes
//! to be.

use vasp_poscar::{Builder, Coords, RawPoscar, Real, Real3, ScaleLine, ValidationError};

fn re_v(s: &str) -> Real {
    Real::from_token(s.to_string()).unwrap()
}

fn zero3_v() -> Real3 {
    Real3(re_v("0.0"), re_v("0.0"), re_v("0.0"))
}

fn boring_poscar() -> RawPoscar {
    Builder::new()
        .dummy_lattice_vectors()
        .positions(Coords::Frac(vec![zero3_v()]))
        .build_raw()
}

#[test]
fn comment_newline() {
    let mut poscar = boring_poscar();

    poscar.comment = "lol\rrite".into();
    assert!(matches!(
        poscar.clone().validate(),
        Err(ValidationError::NewlineInComment),
    ));

    poscar.comment = "lol\nrite".into();
    assert!(matches!(
        poscar.clone().validate(),
        Err(ValidationError::NewlineInComment),
    ));
}

#[test]
fn bad_scale() {
    let mut poscars = vec![
        boring_poscar(),
        boring_poscar(),
        boring_poscar(),
        boring_poscar(),
    ];
    poscars[0].scale = ScaleLine::Factor(re_v("0.0"));
    poscars[1].scale = ScaleLine::Volume(re_v("0.0"));
    poscars[2].scale = ScaleLine::Factor(re_v("-1.0"));
    poscars[3].scale = ScaleLine::Volume(re_v("-1.0"));

    for poscar in poscars {
        assert!(matches!(poscar.validate(), Err(ValidationError::BadScaleLine)));
    }
}

#[test]
fn no_atoms() {
    let mut poscar = boring_poscar();
    poscar.positions = Coords::Frac(vec![]);

    poscar.group_counts = vec![];
    assert!(matches!(poscar.clone().validate(), Err(ValidationError::NoAtoms)));

    poscar.group_counts = vec![0, 0];
    assert!(matches!(poscar.clone().validate(), Err(ValidationError::NoAtoms)));
}

#[test]
fn symbol_whitespace() {
    let mut poscar = boring_poscar();
    poscar.positions = Coords::Cart(vec![zero3_v(), zero3_v(), zero3_v()]);
    poscar.group_counts = vec![1, 1, 1];
    poscar.group_symbols = Some(vec!["C".into(), "N".into(), "O".into()]);

    let bad_syms = vec![
        // leading digit
        "0om",
        // embedded whitespace
        "C C",
        "C\t",
        "\rC",
        "C\nC",
        // empty
        "",
    ];

    assert!(matches!(poscar.clone().validate(), Ok(_)));
    for bad in bad_syms {
        poscar.group_symbols.as_mut().unwrap()[1] = bad.into();
        assert!(matches!(
            poscar.clone().validate(),
            Err(ValidationError::InvalidSymbol(Some(ref sym))) if sym == bad,
        ));
    }
}

#[test]
fn inconsistent_num_groups() {
    let mut poscar = boring_poscar();
    poscar.group_counts = vec![2, 1];
    poscar.positions = Coords::Frac(vec![zero3_v(), zero3_v(), zero3_v()]);

    // too few symbols
    poscar.group_symbols = Some(vec!["C".into()]);
    assert!(matches!(
        poscar.clone().validate(),
        Err(ValidationError::InconsistentNumGroups),
    ));

    // too many symbols
    poscar.group_symbols = Some(vec!["C".into(); 3]);
    assert!(matches!(
        poscar.clone().validate(),
        Err(ValidationError::InconsistentNumGroups),
    ));
}

#[test]
fn inconsistent_num_atoms() {
    let mut poscar = boring_poscar();
    poscar.group_counts = vec![2, 1];
    poscar.positions = Coords::Frac(vec![zero3_v(), zero3_v()]);
    assert!(matches!(poscar.validate(), Err(ValidationError::WrongLength(..))));

    let mut poscar = boring_poscar();
    poscar.group_counts = vec![2, 1];
    poscar.positions = Coords::Frac(vec![zero3_v(), zero3_v(), zero3_v()]);
    assert!(matches!(poscar.clone().validate(), Ok(_)));

    {
        let mut poscar = poscar.clone();
        poscar.dynamics = Some(vec![vasp_poscar::Bool3(true, true, true); 2]);
        assert!(matches!(poscar.validate(), Err(ValidationError::WrongLength(..))));
    }

    {
        let mut poscar = poscar.clone();
        poscar.velocities = Some(Coords::Frac(vec![zero3_v(), zero3_v()]));
        assert!(matches!(poscar.validate(), Err(ValidationError::WrongLength(..))));
    }
}
