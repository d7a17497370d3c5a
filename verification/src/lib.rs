//! Engine of a Python project and package manager: discovery of Python
//! interpreters on the host search path, a model of virtual environments and
//! their installed packages, a PEP 440 compliant version and specifier model,
//! and a resolver that reconciles requested dependencies against what an
//! environment already holds.

mod error;
mod interpreters;
mod ops;
mod package;
mod project;
mod resolver;
mod venv;
mod version;

pub use ops::BuildOptions;
pub use ops::CommandSpec;
pub use ops::FileWritePlan;
pub use ops::FormatOptions;
pub use ops::LintOptions;
pub use ops::OperationConfig;
pub use ops::Verbosity;
pub use ops::activate_venv;
pub use ops::add_project_dependencies;
pub use ops::add_project_optional_dependencies;
pub use ops::build_project;
pub use ops::clean_project;
pub use ops::create_new_app_project;
pub use ops::create_new_default_project;
pub use ops::create_new_lib_project;
pub use ops::display_project_version;
pub use ops::fix_project_lints;
pub use ops::format_project;
pub use ops::init_project;
pub use ops::install_project_dependencies;
pub use ops::install_project_optional_dependencies;
pub use ops::lint_project;
pub use ops::remove_project_dependencies;
pub use ops::remove_project_optional_dependencies;
pub use ops::run_command_list_with_context;
pub use ops::run_command_str_with_context;
pub use ops::test_project;
pub use project::ProjectLayout;
pub use project::ProjectType;
pub use project::default_pyproject_toml_contents;
pub use venv::ActivationPlan;
pub use venv::VirtualEnvironment;
pub use venv::VirtualEnvironmentConfig;

pub use resolver::DependencyResolver;

pub use interpreters::Interpreters;
pub use interpreters::all_python_interpreters_in_paths;
pub use interpreters::env_path_values;
pub use interpreters::python_version_from_path;
pub use interpreters::valid_python_interpreter_file_name;

pub use error::HuakError;
pub use error::HuakResult;
pub use package::DistInfo;
pub use package::Package;
pub use package::PackageMetadata;
pub use package::PackageSpecifier;
pub use package::PlatformTag;
pub use package::canonicalize_name;
pub use version::PreKind;
pub use version::PreRelease;
pub use version::Version;
pub use version::VersionOperator;
pub use version::satisfies;
