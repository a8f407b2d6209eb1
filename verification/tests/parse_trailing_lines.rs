//! Exhaustively tests support for trailing lines, in an attempt to trip
//! up the code that detects whether velocities are present.

use vasp_poscar::{format_poscar, from_lines};

#[test]
fn parse_trailing_lines() {
    // Inputs that differ in where they end
    // (note: these are written in the default output format)
    const BODIES: &[&str] = &[
        // File that ends after positions
        "comment\n  1.0\n    1.0 0.0 0.0\n    0.0 1.0 0.0\n    0.0 0.0 1.0\n   1\nDirect\n  0.0 0.0 0.0\n",
        // File that ends after velocities
        "comment\n  1.0\n    1.0 0.0 0.0\n    0.0 1.0 0.0\n    0.0 0.0 1.0\n   1\nDirect\n  0.0 0.0 0.0\n\n  0.0 0.0 0.0\n",
    ];

    // Things allowed to show up as trailing blank lines (which may
    // be handled by different logic in some cases)
    const BLANK_LINES: &[&str] = &["", "  \t \t "];

    // match a body with a sequence of trailing blank lines
    for &body in BODIES {
        for blanks in permutations_with_replacement_upto(3, BLANK_LINES) {
            let mut input = body.to_string();
            for blank in blanks {
                input.push('\n');
                input.push_str(blank);
            }

            let lines: Vec<String> = input.lines().map(|l| l.to_string()).collect();
            let poscar = from_lines(lines, None).expect(&input);
            let actual = format_poscar(&poscar);

            // it should have stripped the trailing lines, leaving the original body.
            assert_eq!(body, actual, "input was: {:?}", input);
        }
    }
}

fn permutations_with_replacement<T>(n: usize, items: &[T]) -> Vec<Vec<T>>
where
    T: Clone,
{
    match n {
        0 => vec![vec![]],
        _ => permutations_with_replacement(n - 1, items)
            .into_iter()
            .flat_map(|v| {
                items.iter().cloned().map(move |x| {
                    let mut v = v.clone();
                    v.push(x);
                    v
                })
            })
            .collect(),
    }
}

fn permutations_with_replacement_upto<T>(n_max: usize, items: &[T]) -> Vec<Vec<T>>
where
    T: Clone,
{
    (0..n_max + 1).flat_map(|n| permutations_with_replacement(n, items)).collect()
}

#[test]
fn test_permutations_upto() {
    let mut actual = permutations_with_replacement_upto(2, &[1u32, 2u32]);
    actual.sort();

    let mut expected = vec![
        vec![],
        vec![1],
        vec![2],
        vec![1, 1],
        vec![1, 2],
        vec![2, 1],
        vec![2, 2],
    ];
    expected.sort();
    assert_eq!(actual, expected);
}
