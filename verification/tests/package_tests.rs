//! Package entity behavior: dependency string parsing, canonical names,
//! round trips and equality.

use huak::canonicalize_name;
use huak::HuakError;
use huak::Package;
use huak::PlatformTag;
use huak::VersionOperator;

#[test]
fn package_display_str() {
    let package = Package::from_str_parts("package", "==", "0.0.0").unwrap();
    assert_eq!(package.dependency_str(), "package==0.0.0");
}

#[test]
fn package_version_operator() {
    let package = Package::from_str_parts("package", "==", "0.0.0").unwrap();
    assert_eq!(*package.version_operator().unwrap(), VersionOperator::Equal);
}

#[test]
fn package_from_str() {
    let package: Package = "package==0.0.0".parse().unwrap();
    assert_eq!(package.dependency_str(), "package==0.0.0");
    assert_eq!(package.name(), "package");
    assert_eq!(
        package.version_operator().unwrap().op_str(),
        VersionOperator::Equal.op_str()
    );
    assert_eq!(package.version_str(), "0.0.0");
}

#[test]
fn package_platform_tags() {
    let mut a = Package::parse("black==22.8.0").unwrap();
    let mut b = Package::parse("black==22.8.0").unwrap();
    assert!(a == b);
    a.platform_tags.push(PlatformTag {
        value: String::from("cp311-abi3-manylinux_2_17_x86_64"),
    });
    assert!(a != b);
    b.platform_tags.push(PlatformTag {
        value: String::from("cp311-abi3-manylinux_2_17_x86_64"),
    });
    assert!(a == b);
}

#[test]
fn package_round_trip() {
    for s in [
        "black==22.8.0",
        "ruff",
        "click>=8.1.3",
        "isort<=5.12.0",
        "pytest>6",
        "requests~=2.28",
        "pip!=23.0",
        "exact===1.0.0",
        "My.Weird_Name==0.1",
    ] {
        let p = Package::parse(s).unwrap();
        assert_eq!(p.dependency_str(), s, "round trip broke for {:?}", s);
    }
}

#[test]
fn package_parse_rejects_malformed() {
    for s in ["", "==1.0", "-black==1.0", "black-==1.0", "black==", "black=1.0", "black 1.0"] {
        let r = Package::parse(s);
        assert!(matches!(r, Err(HuakError::PackageParseError { .. })), "accepted {:?}", s);
    }
}

#[test]
fn package_canonical_names() {
    assert_eq!(canonicalize_name("Black"), "black");
    assert_eq!(canonicalize_name("friendly.BARD_project"), "friendly-bard-project");
    assert_eq!(canonicalize_name("a--b__c..d"), "a-b-c-d");
    let p = Package::parse("Django>=4.0").unwrap();
    assert_eq!(p.canonical_name(), "django");
    assert_eq!(p.name(), "Django");
    assert_eq!(p.dependency_str(), "Django>=4.0");
}

#[test]
fn package_equality_uses_canonical_name() {
    let a = Package::parse("My-Package==1.0").unwrap();
    let b = Package::parse("my_package==1.0").unwrap();
    let c = Package::parse("my-package==1.1").unwrap();
    assert!(a == b);
    assert!(a != c);
}

#[test]
fn package_from_str_parts_errors() {
    assert!(matches!(
        Package::from_str_parts("pkg", "=!", "1.0"),
        Err(HuakError::InvalidOperatorError { .. })
    ));
    assert!(matches!(
        Package::from_str_parts("pkg", "==", "not a version"),
        Err(HuakError::VersionParseError { .. })
    ));
    assert!(matches!(
        Package::from_str_parts("-bad-", "==", "1.0"),
        Err(HuakError::PackageParseError { .. })
    ));
}
