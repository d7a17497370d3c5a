//! Resolver behavior: replace-on-match merging and conflict detection.

use huak::DependencyResolver;
use huak::HuakError;
use huak::Package;

fn pkgs(specs: &[&str]) -> Vec<Package> {
    specs.iter().map(|s| Package::parse(s).unwrap()).collect()
}

fn dep_strs(packages: &[Package]) -> Vec<String> {
    packages.iter().map(|p| p.dependency_str()).collect()
}

#[test]
fn resolver_replace_on_match() {
    // baseline {black==22.8.0} + requested {black==23.0.0} keeps only the
    // requested version
    let baseline = pkgs(&["black==22.8.0"]);
    let mut resolver = DependencyResolver::new();
    resolver.with_dependencies(&pkgs(&["black==23.0.0"]));
    let resolved = resolver.resolve(&baseline).unwrap();
    assert_eq!(dep_strs(&resolved), vec!["black==23.0.0"]);
}

#[test]
fn resolver_conflict() {
    // two requests for ruff with different versions fail, naming both
    let mut resolver = DependencyResolver::new();
    resolver.with_dependencies(&pkgs(&["ruff==0.1.0", "ruff==0.2.0"]));
    let r = resolver.resolve(&Vec::new());
    match r {
        Err(HuakError::ConflictError { first, second }) => {
            assert_eq!(first, "ruff==0.1.0");
            assert_eq!(second, "ruff==0.2.0");
        },
        other => panic!("expected a conflict, got {:?}", other),
    }
}

#[test]
fn resolver_merges_new_names_in_order() {
    let baseline = pkgs(&["click==8.1.3", "black==22.8.0"]);
    let mut resolver = DependencyResolver::new();
    resolver.with_dependencies(&pkgs(&["isort==5.12.0", "black==23.0.0"]));
    let resolved = resolver.resolve(&baseline).unwrap();
    assert_eq!(
        dep_strs(&resolved),
        vec!["click==8.1.3", "black==23.0.0", "isort==5.12.0"]
    );
}

#[test]
fn resolver_equal_duplicates_are_no_conflict() {
    let mut resolver = DependencyResolver::new();
    resolver.with_dependencies(&pkgs(&["ruff==0.1.0", "ruff==0.1.0"]));
    let resolved = resolver.resolve(&Vec::new()).unwrap();
    assert_eq!(dep_strs(&resolved), vec!["ruff==0.1.0"]);
}

#[test]
fn resolver_with_empty_request_is_a_no_op() {
    let mut resolver = DependencyResolver::new();
    resolver.with_dependencies(&pkgs(&["black==22.8.0"]));
    resolver.with_dependencies(&Vec::new());
    assert_eq!(resolver.dependencies().len(), 1);
    let resolved = resolver.resolve(&Vec::new()).unwrap();
    assert_eq!(dep_strs(&resolved), vec!["black==22.8.0"]);
}
