//! Version model behavior: parsing, rendering, ordering and operator
//! semantics on concrete values.

use core::cmp::Ordering;
use huak::satisfies;
use huak::HuakError;
use huak::Version;
use huak::VersionOperator;

fn v(s: &str) -> Version {
    Version::parse(s).unwrap()
}

#[test]
fn version_parse_round_trips() {
    for s in [
        "3.11",
        "1.0.0",
        "22.8.0",
        "1.0.0a1",
        "2.0b2",
        "1.2.3rc4",
        "1.0.post2",
        "1.0.dev3",
        "1.0a1.post2.dev3",
        "1.0+local.build",
        "0.1",
    ] {
        let parsed = Version::parse(s).unwrap();
        assert_eq!(parsed.version_str(), s);
    }
}

#[test]
fn version_parse_rejects_malformed() {
    for s in [
        "", "a", "1.", ".1", "1..2", "01", "1.01", "1.0x", "1.0-", "1.0+", "1.0+UP", "python",
        "1.0.0 ", " 1.0",
    ] {
        let r = Version::parse(s);
        assert!(matches!(r, Err(HuakError::VersionParseError { .. })), "accepted {:?}", s);
    }
}

#[test]
fn version_ordering() {
    assert_eq!(v("1.0.0").compare(&v("1.0.1")), Ordering::Less);
    assert_eq!(v("1.0.0a1").compare(&v("1.0.0")), Ordering::Less);
    assert_eq!(v("1.0.0").compare(&v("1.0.0a1")), Ordering::Greater);
    assert_eq!(v("1.0").compare(&v("1.0.0")), Ordering::Equal);
    assert_eq!(v("1.0.dev1").compare(&v("1.0a1")), Ordering::Less);
    assert_eq!(v("1.0a1").compare(&v("1.0b1")), Ordering::Less);
    assert_eq!(v("1.0b1").compare(&v("1.0rc1")), Ordering::Less);
    assert_eq!(v("1.0rc1").compare(&v("1.0")), Ordering::Less);
    assert_eq!(v("1.0").compare(&v("1.0.post1")), Ordering::Less);
    assert_eq!(v("1.0").compare(&v("1.0+local")), Ordering::Less);
    assert_eq!(v("1.0+aaa").compare(&v("1.0+bbb")), Ordering::Less);
    assert_eq!(v("2.9").compare(&v("2.10")), Ordering::Less);
}

#[test]
fn operator_spellings() {
    let cases: [(&str, VersionOperator); 8] = [
        ("==", VersionOperator::Equal),
        ("===", VersionOperator::ExactEqual),
        ("!=", VersionOperator::NotEqual),
        ("~=", VersionOperator::TildeEqual),
        ("<", VersionOperator::LessThan),
        ("<=", VersionOperator::LessThanEqual),
        (">", VersionOperator::GreaterThan),
        (">=", VersionOperator::GreaterThanEqual),
    ];
    for (s, op) in cases {
        assert_eq!(VersionOperator::parse(s).unwrap(), op);
        assert_eq!(op.op_str(), s);
    }
    assert!(matches!(
        VersionOperator::parse("=="),
        Ok(VersionOperator::Equal)
    ));
    assert!(matches!(
        VersionOperator::parse("=!"),
        Err(HuakError::InvalidOperatorError { .. })
    ));
}

#[test]
fn operator_satisfies_compatible_release() {
    assert!(satisfies(&v("2.1.0"), &VersionOperator::TildeEqual, &v("2.0")));
    assert!(!satisfies(&v("3.0.0"), &VersionOperator::TildeEqual, &v("2.0")));
    assert!(satisfies(&v("1.4.9"), &VersionOperator::TildeEqual, &v("1.4.5")));
    assert!(!satisfies(&v("1.5.0"), &VersionOperator::TildeEqual, &v("1.4.5")));
    assert!(!satisfies(&v("1.4.4"), &VersionOperator::TildeEqual, &v("1.4.5")));
}

#[test]
fn operator_satisfies_comparisons() {
    assert!(satisfies(&v("1.0"), &VersionOperator::Equal, &v("1.0.0")));
    assert!(!satisfies(&v("1.0.1"), &VersionOperator::Equal, &v("1.0.0")));
    assert!(satisfies(&v("1.0.1"), &VersionOperator::NotEqual, &v("1.0.0")));
    assert!(satisfies(&v("1.0.0"), &VersionOperator::LessThan, &v("1.0.1")));
    assert!(satisfies(&v("1.0.1"), &VersionOperator::GreaterThan, &v("1.0.0")));
    assert!(satisfies(&v("1.0.0"), &VersionOperator::LessThanEqual, &v("1.0")));
    assert!(satisfies(&v("1.0.0"), &VersionOperator::GreaterThanEqual, &v("1.0")));
    // arbitrary equality distinguishes spellings that mere precedence equates
    assert!(satisfies(&v("1.0.0"), &VersionOperator::ExactEqual, &v("1.0.0")));
    assert!(!satisfies(&v("1.0"), &VersionOperator::ExactEqual, &v("1.0.0")));
}
