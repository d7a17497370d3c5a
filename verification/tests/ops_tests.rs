//! Operation planners: each operation computes the command to run or the
//! files to write, and these tests pin the plans down on concrete inputs.

use huak::add_project_dependencies;
use huak::add_project_optional_dependencies;
use huak::build_project;
use huak::clean_project;
use huak::create_new_app_project;
use huak::create_new_default_project;
use huak::create_new_lib_project;
use huak::default_pyproject_toml_contents;
use huak::display_project_version;
use huak::fix_project_lints;
use huak::format_project;
use huak::init_project;
use huak::install_project_dependencies;
use huak::install_project_optional_dependencies;
use huak::lint_project;
use huak::remove_project_dependencies;
use huak::remove_project_optional_dependencies;
use huak::run_command_str_with_context;
use huak::test_project;
use huak::BuildOptions;
use huak::FormatOptions;
use huak::HuakError;
use huak::LintOptions;
use huak::OperationConfig;
use huak::Package;
use huak::VirtualEnvironment;

fn config_at(root: &str) -> OperationConfig {
    let mut config = OperationConfig::new();
    config.with_root(root);
    config
}

fn venv() -> VirtualEnvironment {
    VirtualEnvironment::create("/usr/bin/python3.11", "/work/.venv").unwrap()
}

fn pair(k: &str, v: &str) -> (String, String) {
    (String::from(k), String::from(v))
}

#[test]
fn test_add_project_dependencies() {
    let installed = vec![Package::parse("black==22.8.0").unwrap()];
    let deps = vec![Package::parse("ruff").unwrap()];
    let to_install = add_project_dependencies(&installed, &deps);
    let strs: Vec<String> = to_install.iter().map(|p| p.dependency_str()).collect();
    assert_eq!(strs, vec!["black==22.8.0", "ruff"]);
}

#[test]
fn test_add_optional_project_dependencies() {
    let installed = vec![Package::parse("pytest>=6").unwrap()];
    let deps = vec![Package::parse("ruff").unwrap()];
    let to_install = add_project_optional_dependencies(&installed, &deps, "test");
    let strs: Vec<String> = to_install.iter().map(|p| p.dependency_str()).collect();
    assert_eq!(strs, vec!["pytest>=6", "ruff"]);
}

#[test]
fn test_build_project() {
    let mut config = config_at("/work/mock-project");
    assert!(matches!(
        build_project(&config, "/work/.venv"),
        Err(HuakError::BuildOptionsMissingError)
    ));
    config.with_build_options(BuildOptions { values: vec![pair("wheel", "true")] });
    let cmd = build_project(&config, "/work/.venv").unwrap();
    assert_eq!(cmd.program, "build");
    assert_eq!(cmd.args, vec!["--wheel=true"]);
    assert_eq!(cmd.path_prepend.unwrap(), "/work/.venv");
    assert_eq!(cmd.cwd.unwrap(), "/work/mock-project");
}

#[test]
fn test_fmt_project() {
    let mut config = config_at("/work/mock-project");
    config.with_format_options(FormatOptions { values: vec![pair("line-length", "88")] });
    let cmd = format_project(&config, "/work/.venv").unwrap();
    assert_eq!(cmd.program, "black");
    assert_eq!(cmd.args, vec![".", "--line-length=88"]);
    assert_eq!(cmd.cwd.unwrap(), "/work/mock-project");
}

#[test]
fn test_lint_project() {
    let mut config = config_at("/work/mock-project");
    assert!(matches!(
        lint_project(&config, "/work/.venv"),
        Err(HuakError::BuildOptionsMissingError)
    ));
    config.with_lint_options(LintOptions { values: Vec::new() });
    let cmd = lint_project(&config, "/work/.venv").unwrap();
    assert_eq!(cmd.program, "ruff");
    assert_eq!(cmd.args, vec!["."]);
}

#[test]
fn test_fix_project_lints() {
    let mut config = config_at("/work/mock-project");
    config.with_lint_options(LintOptions { values: vec![pair("select", "I001")] });
    let cmd = fix_project_lints(&config, "/work/.venv").unwrap();
    assert_eq!(cmd.program, "ruff");
    assert_eq!(cmd.args, vec![".", "--fix", "--select=I001"]);
}

#[test]
fn test_init_project() {
    let config = config_at("/work/mock-project");
    let plan = init_project(&config);
    assert_eq!(plan.path, "/work/mock-project/pyproject.toml");
    assert_eq!(plan.contents, default_pyproject_toml_contents());
}

#[test]
fn test_install_project_dependencies() {
    let mut venv = venv();
    let deps = vec![Package::parse("black==22.8.0").unwrap()];
    install_project_dependencies(&mut venv, &deps).unwrap();
    assert!(venv.find_site_packages_package("black").is_some());
}

#[test]
fn test_install_project_optional_dependencies() {
    let mut venv = venv();
    let deps = vec![Package::parse("pytest>=6").unwrap()];
    install_project_optional_dependencies(&mut venv, &deps, "test").unwrap();
    assert!(venv.find_site_packages_package("pytest").is_some());
}

#[test]
fn test_clean_project() {
    let config = config_at("/work/mock-project");
    assert_eq!(clean_project(&config), "/work/mock-project/dist");
}

#[test]
fn test_new_default_project() {
    let config = config_at("/work/mock-project");
    let plan = create_new_default_project(&config);
    assert_eq!(plan.path, "/work/mock-project/pyproject.toml");
    assert_eq!(plan.contents, default_pyproject_toml_contents());
}

#[test]
fn test_new_lib_project() {
    let config = config_at("/work/mock-project");
    let plans = create_new_lib_project(&config);
    assert_eq!(plans.len(), 3);
    assert_eq!(plans[0].path, "/work/mock-project/pyproject.toml");
    assert_eq!(plans[1].path, "/work/mock-project/src/project/__init__.py");
    assert_eq!(plans[1].contents, "__version__ = \"0.0.1\"\n");
    assert_eq!(plans[2].path, "/work/mock-project/tests/test_version.py");
    assert_eq!(
        plans[2].contents,
        "from project import __version__\n\n\ndef test_version():\n    __version__\n"
    );
}

#[test]
fn test_new_app_project() {
    let config = config_at("/work/mock-project");
    let plans = create_new_app_project(&config);
    assert_eq!(plans.len(), 2);
    assert_eq!(plans[1].path, "/work/mock-project/src/project/main.py");
    assert_eq!(
        plans[1].contents,
        "def main():\n    print(\"Hello, World!\")\n\n\nif __name__ == \"__main__\":\n    main()\n"
    );
}

#[test]
fn test_remove_project_dependencies() {
    let mut venv = venv();
    venv.install_package(&Package::parse("black==22.8.0").unwrap()).unwrap();
    venv.install_package(&Package::parse("ruff==0.1.0").unwrap()).unwrap();
    remove_project_dependencies(&mut venv, &vec![String::from("black")]).unwrap();
    assert!(venv.find_site_packages_package("black").is_none());
    assert!(venv.find_site_packages_package("ruff").is_some());
    let missing = remove_project_dependencies(&mut venv, &vec![String::from("black")]);
    assert!(matches!(missing, Err(HuakError::PackageNotFoundError { .. })));
}

#[test]
fn test_remove_project_optional_dependencies() {
    let mut venv = venv();
    venv.install_package(&Package::parse("pytest>=6").unwrap()).unwrap();
    remove_project_optional_dependencies(&mut venv, &vec![String::from("pytest")], "test")
        .unwrap();
    assert!(venv.find_site_packages_package("pytest").is_none());
}

#[test]
fn test_run_command_with_context() {
    let config = config_at("/work/mock-project");
    let cmd = run_command_str_with_context(&config, "/work/.venv", "pip install xlcsv").unwrap();
    assert_eq!(cmd.program, "pip");
    assert_eq!(cmd.args, vec!["install", "xlcsv"]);
    assert_eq!(cmd.path_prepend.unwrap(), "/work/.venv");
    assert_eq!(cmd.cwd.unwrap(), "/work/mock-project");
    assert!(matches!(
        run_command_str_with_context(&config, "/work/.venv", "   "),
        Err(HuakError::InternalError { .. })
    ));
}

#[test]
fn test_test_project() {
    let config = config_at("/work/mock-project");
    let cmd = test_project(&config, "/work/.venv");
    assert_eq!(cmd.program, "pytest");
    assert!(cmd.args.is_empty());
    assert_eq!(cmd.cwd.unwrap(), "/work/mock-project");
}

#[test]
fn test_display_project_version() {
    let version = String::from("0.0.1");
    assert_eq!(display_project_version(Some(&version)).unwrap(), "0.0.1");
    assert!(matches!(
        display_project_version(None),
        Err(HuakError::InternalError { .. })
    ));
}
