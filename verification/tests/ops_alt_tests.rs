//! A second pass over the operation planners through the configuration
//! builder API, exercising option staging and the command list runner.

use huak::build_project;
use huak::clean_project;
use huak::display_project_version;
use huak::init_project;
use huak::install_project_dependencies;
use huak::install_project_optional_dependencies;
use huak::lint_project;
use huak::remove_project_dependencies;
use huak::remove_project_optional_dependencies;
use huak::run_command_list_with_context;
use huak::test_project;
use huak::BuildOptions;
use huak::HuakError;
use huak::LintOptions;
use huak::OperationConfig;
use huak::Package;
use huak::VirtualEnvironment;

fn config_at(root: &str) -> OperationConfig {
    let mut config = OperationConfig::new();
    config.with_root(root);
    config
}

#[test]
fn ops_test_add_project_dependencies() {
    let installed = vec![Package::parse("click==8.1.3").unwrap()];
    let deps = vec![Package::parse("ruff").unwrap()];
    let to_install = huak::add_project_dependencies(&installed, &deps);
    assert_eq!(to_install.len(), 2);
    assert_eq!(to_install[1].dependency_str(), "ruff");
}

#[test]
fn ops_test_add_optional_project_dependencies() {
    let installed = vec![Package::parse("click==8.1.3").unwrap()];
    let deps = vec![Package::parse("ruff").unwrap()];
    let to_install = huak::add_project_optional_dependencies(&installed, &deps, "test");
    assert_eq!(to_install.len(), 2);
    assert_eq!(to_install[0].dependency_str(), "click==8.1.3");
}

#[test]
fn ops_test_clean_project() {
    let mut config = OperationConfig::new();
    assert_eq!(clean_project(&config), "/dist");
    config.with_root("/elsewhere");
    assert_eq!(clean_project(&config), "/elsewhere/dist");
}

#[test]
fn ops_test_lint_project() {
    let mut config = config_at("/p");
    config.with_lint_options(LintOptions {
        values: vec![(String::from("ignore"), String::from("E501"))],
    });
    let cmd = lint_project(&config, "/p/.venv").unwrap();
    assert_eq!(cmd.args, vec![".", "--ignore=E501"]);
    assert_eq!(cmd.path_prepend.unwrap(), "/p/.venv");
}

#[test]
fn ops_test_build_project() {
    let mut config = config_at("/p");
    config.with_build_options(BuildOptions { values: Vec::new() });
    let cmd = build_project(&config, "/p/.venv").unwrap();
    assert_eq!(cmd.program, "build");
    assert!(cmd.args.is_empty());
}

#[test]
fn ops_test_init_project() {
    let plan = init_project(&config_at("/p"));
    assert_eq!(plan.path, "/p/pyproject.toml");
    assert!(plan.contents.starts_with("[project]\n"));
}

#[test]
fn ops_test_install_project_dependencies() {
    let mut venv = VirtualEnvironment::create("/usr/bin/python3.11", "/p/.venv").unwrap();
    let had_black = venv.find_site_packages_package("black").is_some();
    install_project_dependencies(&mut venv, &vec![Package::parse("black==22.8.0").unwrap()])
        .unwrap();
    assert!(!had_black);
    assert!(venv.find_site_packages_package("black").is_some());
}

#[test]
fn ops_test_install_project_optional_dependencies() {
    let mut venv = VirtualEnvironment::create("/usr/bin/python3.11", "/p/.venv").unwrap();
    let had_pytest = venv.find_site_packages_package("pytest").is_some();
    install_project_optional_dependencies(
        &mut venv,
        &vec![Package::parse("pytest>=6").unwrap()],
        "test",
    )
    .unwrap();
    assert!(!had_pytest);
    assert!(venv.find_site_packages_package("pytest").is_some());
}

#[test]
fn ops_test_remove_project_dependencies() {
    let mut venv = VirtualEnvironment::create("/usr/bin/python3.11", "/p/.venv").unwrap();
    venv.install_package(&Package::parse("black==22.8.0").unwrap()).unwrap();
    let venv_had_black = venv.find_site_packages_package("black").is_some();
    remove_project_dependencies(&mut venv, &vec![String::from("black")]).unwrap();
    assert!(venv_had_black);
    assert!(venv.find_site_packages_package("black").is_none());
}

#[test]
fn ops_test_remove_project_optional_dependencies() {
    let mut venv = VirtualEnvironment::create("/usr/bin/python3.11", "/p/.venv").unwrap();
    venv.install_package(&Package::parse("pytest>=6").unwrap()).unwrap();
    let venv_had_pytest = venv.find_site_packages_package("pytest").is_some();
    remove_project_optional_dependencies(&mut venv, &vec![String::from("pytest")], "test")
        .unwrap();
    assert!(venv_had_pytest);
    assert!(venv.find_site_packages_package("pytest").is_none());
}

#[test]
fn ops_test_run_command_with_context() {
    let config = config_at("/p");
    let command = vec![
        String::from("pip"),
        String::from("install"),
        String::from("xlcsv"),
    ];
    let cmd = run_command_list_with_context(&config, "/p/.venv", &command).unwrap();
    assert_eq!(cmd.program, "pip");
    assert_eq!(cmd.args, vec!["install", "xlcsv"]);
    assert!(matches!(
        run_command_list_with_context(&config, "/p/.venv", &Vec::new()),
        Err(HuakError::InternalError { .. })
    ));
}

#[test]
fn ops_test_test_project() {
    let cmd = test_project(&config_at("/p"), "/p/.venv");
    assert_eq!(cmd.program, "pytest");
    assert_eq!(cmd.cwd.unwrap(), "/p");
}

#[test]
fn ops_test_display_project_version() {
    let version = String::from("1.2.3");
    assert_eq!(display_project_version(Some(&version)).unwrap(), "1.2.3");
}
