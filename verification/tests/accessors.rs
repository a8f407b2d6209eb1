//! Tests of the read-only accessors of a validated structure.

use vasp_poscar::{Builder, Coords, Poscar, Real, Real3, Zeroed};

fn re_a(s: &str) -> Real {
    Real::from_token(s.to_string()).unwrap()
}

fn zero3_a() -> Real3 {
    Real3(re_a("0.0"), re_a("0.0"), re_a("0.0"))
}

#[test]
fn test_group_iters() {
    let poscar = Builder::new()
        .group_counts(vec![2, 5, 1])
        .group_symbols(vec!["C".to_string(), "B".to_string(), "C".to_string()])
        .dummy_lattice_vectors()
        .positions(Coords::Cart(Zeroed))
        .build()
        .unwrap();

    assert_eq!(poscar.group_counts().len(), 3);
    let mut reversed = poscar.group_counts();
    reversed.reverse();
    assert_eq!(reversed, vec![1, 5, 2]);
    assert_eq!(
        poscar.group_symbols(),
        Some(vec!["C".to_string(), "B".to_string(), "C".to_string()]),
    );

    let poscar = {
        let mut poscar = poscar.into_raw();
        poscar.group_symbols = None;
        poscar.validate().unwrap()
    };

    assert!(poscar.group_symbols().is_none());
}

#[test]
fn test_site_symbols() {
    let builder = Builder::new()
        .positions(Coords::Frac(Zeroed))
        .dummy_lattice_vectors()
        .group_counts(vec![2, 3, 1]);

    fn get_site_symbols(poscar: &Poscar) -> Option<Vec<String>> {
        poscar.site_symbols()
    }

    let poscar = builder.clone().build().unwrap();
    assert_eq!(poscar.group_counts(), vec![2, 3, 1]);
    assert_eq!(poscar.group_symbols(), None);
    assert_eq!(get_site_symbols(&poscar), None);

    let poscar = builder
        .clone()
        .group_symbols(vec!["Xe".to_string(), "C".to_string(), "Xe".to_string()])
        .build()
        .unwrap();
    assert_eq!(poscar.group_counts(), vec![2, 3, 1]);
    assert_eq!(
        poscar.group_symbols(),
        Some(vec!["Xe".to_string(), "C".to_string(), "Xe".to_string()]),
    );
    assert_eq!(
        get_site_symbols(&poscar),
        Some(vec![
            "Xe".to_string(),
            "Xe".to_string(),
            "C".to_string(),
            "C".to_string(),
            "C".to_string(),
            "Xe".to_string(),
        ]),
    );

    // walking from both ends of the per-site list
    let poscar = builder
        .clone()
        .group_symbols(vec!["Xe".to_string(), "C".to_string(), "B".to_string()])
        .build()
        .unwrap();
    let symbols = poscar.site_symbols().unwrap();
    assert_eq!(symbols.len(), 6);
    assert_eq!(symbols[0], "Xe");
    assert_eq!(symbols[5], "B");
    let mut middle_reversed: Vec<String> = symbols[1..5].to_vec();
    middle_reversed.reverse();
    assert_eq!(
        middle_reversed,
        vec!["C".to_string(), "C".to_string(), "C".to_string(), "Xe".to_string()],
    );
    assert_eq!(poscar.num_sites(), 6);
    assert_eq!(poscar.comment(), "POSCAR File");
}
