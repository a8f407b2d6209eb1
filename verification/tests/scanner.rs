//! Tests of the word scanner and the primitive token parsers.

use vasp_poscar::parse::{parse_logical, parse_unsigned, Spanned, UnsignedError};
use vasp_poscar::Real;

#[test]
fn words() {
    // test with space at boundaries
    let s = Spanned { path: None, line: 0, col: 0, s: "  aa b   ccc  ".to_string() };
    let mut w = s.words();
    let mut collected = Vec::new();
    while let Some(x) = w.next() {
        collected.push(x);
    }
    assert_eq!(
        collected,
        vec![
            Spanned { path: None, line: 0, col: 2, s: "aa".to_string() },
            Spanned { path: None, line: 0, col: 5, s: "b".to_string() },
            Spanned { path: None, line: 0, col: 9, s: "ccc".to_string() },
        ],
    );

    // test nonzero col, and words at boundaries
    let s = s.slice(3, s.as_str().len() - 3);
    let mut w = s.words();
    let mut collected = Vec::new();
    while let Some(x) = w.next() {
        collected.push(x);
    }
    assert_eq!(
        collected,
        vec![
            Spanned { path: None, line: 0, col: 3, s: "a".to_string() },
            Spanned { path: None, line: 0, col: 5, s: "b".to_string() },
            Spanned { path: None, line: 0, col: 9, s: "cc".to_string() },
        ],
    );
}

#[test]
fn unsigned_tokens() {
    assert_eq!(parse_unsigned("123"), Ok(123));
    assert_eq!(parse_unsigned("0"), Ok(0));
    assert_eq!(parse_unsigned("18446744073709551615"), Ok(u64::MAX));
    assert_eq!(parse_unsigned("+1"), Err(UnsignedError::LeadingPlus));
    assert_eq!(parse_unsigned(""), Err(UnsignedError::Invalid));
    assert_eq!(parse_unsigned("-1"), Err(UnsignedError::Invalid));
    assert_eq!(parse_unsigned("12x"), Err(UnsignedError::Invalid));
    // overflow ends the counts rather than erroring elsewhere
    assert_eq!(parse_unsigned("18446744073709551616"), Err(UnsignedError::Invalid));
    assert_eq!(parse_unsigned("99999999999999999999999"), Err(UnsignedError::Invalid));
}

#[test]
fn logical_tokens() {
    assert_eq!(parse_logical("T"), Some(true));
    assert_eq!(parse_logical("t"), Some(true));
    assert_eq!(parse_logical("F"), Some(false));
    assert_eq!(parse_logical(".TRUE."), Some(true));
    assert_eq!(parse_logical(".t"), Some(true));
    assert_eq!(parse_logical(".FALSE."), Some(false));
    assert_eq!(parse_logical("Tanything"), Some(true));
    assert_eq!(parse_logical(""), None);
    assert_eq!(parse_logical("."), None);
    assert_eq!(parse_logical("x"), None);
    assert_eq!(parse_logical("1"), None);
}

#[test]
fn real_tokens() {
    for good in ["1", "1.0", ".5", "5.", "-3", "+3.7", "1e5", "1E-5", "2.5e+30", "inf",
        "Infinity", "NaN", "-inf", "-0.0", "0e9"] {
        assert!(Real::from_token(good.to_string()).is_some(), "{}", good);
    }
    for bad in ["", ".", "e5", "3e", "3e+", "3e+5x", "+-3", "1 2", "abc", "0x10", "--1"] {
        assert!(Real::from_token(bad.to_string()).is_none(), "{}", bad);
    }
}
