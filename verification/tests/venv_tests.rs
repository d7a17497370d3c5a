//! Virtual environment behavior: configuration round trips, discovery of
//! an environment root, the package directory model and isolation.

use huak::DependencyResolver;
use huak::HuakError;
use huak::Package;
use huak::VirtualEnvironment;
use huak::VirtualEnvironmentConfig;

#[test]
fn python_environment_default() {
    let python_environment = VirtualEnvironment::new();
    let python_path = python_environment.python_path();
    // the interpreter lives two levels under the default environment root
    let mut parts = python_path.rsplitn(3, '/');
    assert_eq!(parts.next().unwrap(), "python");
    assert_eq!(parts.next().unwrap(), "bin");
    assert_eq!(parts.next().unwrap(), ".venv");
}

#[test]
fn python_environment_executable_dir_name() {
    let venv = VirtualEnvironment::from_path(
        ".venv",
        "home = /usr/bin\ninclude-system-site-packages = false\nversion = 3.11\n",
    )
    .unwrap();
    assert_eq!(venv.executables_dir_path(), ".venv/bin");
    assert_eq!(venv.python_path(), ".venv/bin/python");
    assert_eq!(venv.site_packages_dir_path(), ".venv/lib/python3.11/site-packages");
}

#[test]
fn venv_config_round_trip() {
    let text = "home = /usr/bin\ninclude-system-site-packages = false\nversion = 3.11.2\n";
    let config = VirtualEnvironmentConfig::from_config_str(text).unwrap();
    assert_eq!(config.home, "/usr/bin");
    assert!(!config.include_system_site_packages);
    assert_eq!(config.version.as_ref().unwrap().version_str(), "3.11.2");
    assert_eq!(config.to_config_string(), text);

    let no_version = "home = /opt/python/bin\ninclude-system-site-packages = true\n";
    let config = VirtualEnvironmentConfig::from_config_str(no_version).unwrap();
    assert!(config.include_system_site_packages);
    assert!(config.version.is_none());
    assert_eq!(config.to_config_string(), no_version);
}

#[test]
fn venv_config_rejects_malformed() {
    for text in [
        "",
        "home=/usr/bin\ninclude-system-site-packages = false\n",
        "home = /usr/bin\n",
        "home = /usr/bin\ninclude-system-site-packages = maybe\n",
        "home = /usr/bin\ninclude-system-site-packages = false\nversion = !\n",
        "home = /usr/bin\ninclude-system-site-packages = false\nversion = 3.11",
    ] {
        let r = VirtualEnvironmentConfig::from_config_str(text);
        assert!(
            matches!(r, Err(HuakError::NotAVirtualEnvironmentError { .. })),
            "accepted {:?}",
            text
        );
    }
}

#[test]
fn venv_find_walks_ancestors() {
    let dirs = vec![String::from("/home/user/project")];
    let found =
        VirtualEnvironment::find("/home/user/project/src/app", &dirs).unwrap();
    assert_eq!(found, "/home/user/project");

    let found = VirtualEnvironment::find("/home/user/project", &dirs).unwrap();
    assert_eq!(found, "/home/user/project");

    let missing = VirtualEnvironment::find("/somewhere/else", &dirs);
    assert!(matches!(missing, Err(HuakError::PyVenvNotFoundError)));
}

#[test]
fn venv_create_needs_an_interpreter() {
    let venv = VirtualEnvironment::create("/usr/bin/python3.11", "./.venv").unwrap();
    assert_eq!(venv.root(), "./.venv");
    assert_eq!(venv.config.home, "/usr/bin");
    assert!(venv.is_isolated());
    assert_eq!(venv.config.version.as_ref().unwrap().version_str(), "3.11");

    let r = VirtualEnvironment::create("/usr/bin/sh", "./.venv");
    assert!(matches!(r, Err(HuakError::InterpreterNotFoundError)));
}

#[test]
fn venv_isolation_invariant() {
    // an isolated environment refuses every base site-packages lookup
    let venv = VirtualEnvironment::create("/usr/bin/python3.11", "./.venv").unwrap();
    assert!(venv.is_isolated());
    assert!(matches!(
        venv.find_base_site_packages_package("black"),
        Err(HuakError::IsolationViolationError)
    ));
    assert!(matches!(
        venv.find_base_site_packages_dist_info("black"),
        Err(HuakError::IsolationViolationError)
    ));
    let mut venv = venv;
    let pkg = Package::parse("black==22.8.0").unwrap();
    assert!(matches!(
        venv.add_package_to_base_site_packages(&pkg),
        Err(HuakError::IsolationViolationError)
    ));
    assert!(matches!(
        venv.remove_package_from_base_site_packages(&pkg),
        Err(HuakError::IsolationViolationError)
    ));
}

#[test]
fn venv_non_isolated_base_lookups() {
    let mut venv = VirtualEnvironment::from_path(
        ".venv",
        "home = /usr/bin\ninclude-system-site-packages = true\nversion = 3.11\n",
    )
    .unwrap();
    assert!(!venv.is_isolated());
    let pkg = Package::parse("requests==2.28.0").unwrap();
    venv.add_package_to_base_site_packages(&pkg).unwrap();
    let found = venv.find_base_site_packages_package("requests").unwrap().unwrap();
    assert_eq!(found.dependency_str(), "requests==2.28.0");
    venv.remove_package_from_base_site_packages(&pkg).unwrap();
    assert!(venv.find_base_site_packages_package("requests").unwrap().is_none());
}

#[test]
fn venv_end_to_end_scenario() {
    // create at ./.venv from python3.11
    let mut venv = VirtualEnvironment::create("/usr/bin/python3.11", "./.venv").unwrap();

    // resolve [black==22.8.0] against the empty baseline
    let requested = vec![Package::parse("black==22.8.0").unwrap()];
    let baseline = venv.installed_packages().unwrap();
    assert!(baseline.is_empty());
    let mut resolver = DependencyResolver::new();
    resolver.with_dependencies(&requested);
    let resolved = resolver.resolve(&baseline).unwrap();
    assert_eq!(resolved.len(), 1);
    assert_eq!(resolved[0].dependency_str(), "black==22.8.0");

    // install the resolved set
    venv.install_packages(&resolved).unwrap();
    let found = venv.find_site_packages_package("black").unwrap();
    assert_eq!(found.dependency_str(), "black==22.8.0");
    let dist = venv.find_site_packages_dist_info("black").unwrap();
    assert_eq!(dist.record_file, "RECORD");
    assert_eq!(dist.installer_file, "INSTALLER");
    assert!(dist.requested_file.is_some());

    // uninstall, and the lookups come back empty
    venv.uninstall_package("black").unwrap();
    assert!(venv.find_site_packages_package("black").is_none());
    assert!(venv.find_site_packages_dist_info("black").is_none());
    assert!(matches!(
        venv.uninstall_package("black"),
        Err(HuakError::PackageNotFoundError { .. })
    ));
}

#[test]
fn venv_one_version_per_canonical_name() {
    let mut venv = VirtualEnvironment::create("/usr/bin/python3.11", "./.venv").unwrap();
    venv.install_package(&Package::parse("black==22.8.0").unwrap()).unwrap();
    venv.install_package(&Package::parse("Black==23.0.0").unwrap()).unwrap();
    let installed = venv.installed_packages().unwrap();
    assert_eq!(installed.len(), 1);
    assert_eq!(installed[0].dependency_str(), "Black==23.0.0");
}

#[test]
fn venv_activation_plan() {
    let venv = VirtualEnvironment::create("/usr/bin/python3.11", "/work/.venv").unwrap();
    let plan = venv.activate();
    assert_eq!(plan.path_prepend, "/work/.venv/bin");
    assert_eq!(plan.virtual_env, "/work/.venv");
    assert_eq!(
        venv.activate_with("/usr/bin:/bin"),
        "/work/.venv/bin:/usr/bin:/bin"
    );
}
