//! Operations over a project and its environment, as plans: each operation
//! computes exactly what must run or be written — a command with its
//! arguments, scoped search path and working directory, or a file with its
//! contents — and the caller performs the effect. No operation here touches
//! the filesystem or spawns a process itself.

use vstd::prelude::*;
use vstd::string::StringExecFns;
use vstd::string::StringSliceAdditionalSpecFns;
use vstd::string::StrSliceExecFns;

use crate::error::HuakError;
use crate::package::pkgs_like;
use crate::package::wf_package;
use crate::package::Package;
use crate::project::spec_default_pyproject_toml;
use crate::resolver::has_canon;
use crate::venv::exec_dir_chars;
use crate::venv::lookup_chars;
use crate::venv::wf_venv;
use crate::venv::VirtualEnvironment;

verus! {

/// How much the operation layer should say while working.
#[derive(Clone, Copy, PartialEq, Eq, Structural, Debug)]
pub enum Verbosity {
    Verbose,
    Normal,
    Quiet,
}

impl Default for Verbosity {
    /// Output is verbose unless asked otherwise.
    fn default() -> (r: Self)
        ensures
            r == Verbosity::Verbose,
    {
        Verbosity::Verbose
    }
}

/// Extra `--key=value` arguments for a build command.
#[derive(Debug)]
pub struct BuildOptions {
    pub values: Vec<(String, String)>,
}

/// Extra `--key=value` arguments for a formatter command.
#[derive(Debug)]
pub struct FormatOptions {
    pub values: Vec<(String, String)>,
}

/// Extra `--key=value` arguments for a linter command.
#[derive(Debug)]
pub struct LintOptions {
    pub values: Vec<(String, String)>,
}

/// What an operation wants the project root and tool options to be.
#[derive(Debug)]
pub struct OperationConfig {
    pub root: String,
    pub build_options: Option<BuildOptions>,
    pub format_options: Option<FormatOptions>,
    pub lint_options: Option<LintOptions>,
}

impl OperationConfig {
    /// A configuration with an empty root and no tool options.
    pub fn new() -> (r: OperationConfig)
        ensures
            r.root@ == Seq::<char>::empty(),
            r.build_options is None,
            r.format_options is None,
            r.lint_options is None,
    {
        OperationConfig {
            root: String::new(),
            build_options: None,
            format_options: None,
            lint_options: None,
        }
    }

    /// The project root the operations work against.
    pub fn root(&self) -> (r: &String)
        ensures
            r@ == self.root@,
    {
        &self.root
    }

    /// Point the configuration at a project root.
    pub fn with_root(&mut self, path: &str)
        ensures
            final(self).root@ == path@,
            final(self).build_options == old(self).build_options,
            final(self).format_options == old(self).format_options,
            final(self).lint_options == old(self).lint_options,
    {
        self.root = path.to_owned();
    }

    /// The staged build options, if any.
    pub fn build_options(&self) -> (r: Option<&BuildOptions>)
        ensures
            match self.build_options {
                Some(ref o) => r matches Some(ro) && ro == o,
                None => r is None,
            },
    {
        self.build_options.as_ref()
    }

    /// Stage build options.
    pub fn with_build_options(&mut self, options: BuildOptions)
        ensures
            final(self).build_options == Some(options),
            final(self).root == old(self).root,
            final(self).format_options == old(self).format_options,
            final(self).lint_options == old(self).lint_options,
    {
        self.build_options = Some(options);
    }

    /// The staged formatter options, if any.
    pub fn format_options(&self) -> (r: Option<&FormatOptions>)
        ensures
            match self.format_options {
                Some(ref o) => r matches Some(ro) && ro == o,
                None => r is None,
            },
    {
        self.format_options.as_ref()
    }

    /// Stage formatter options.
    pub fn with_format_options(&mut self, options: FormatOptions)
        ensures
            final(self).format_options == Some(options),
            final(self).root == old(self).root,
            final(self).build_options == old(self).build_options,
            final(self).lint_options == old(self).lint_options,
    {
        self.format_options = Some(options);
    }

    /// The staged linter options, if any.
    pub fn lint_options(&self) -> (r: Option<&LintOptions>)
        ensures
            match self.lint_options {
                Some(ref o) => r matches Some(ro) && ro == o,
                None => r is None,
            },
    {
        self.lint_options.as_ref()
    }

    /// Stage linter options.
    pub fn with_lint_options(&mut self, options: LintOptions)
        ensures
            final(self).lint_options == Some(options),
            final(self).root == old(self).root,
            final(self).build_options == old(self).build_options,
            final(self).format_options == old(self).format_options,
    {
        self.lint_options = Some(options);
    }
}

/// A process for the caller to run: the program, its arguments, a directory
/// to put in front of the process's search path, and a working directory.
#[derive(Debug)]
pub struct CommandSpec {
    pub program: String,
    pub args: Vec<String>,
    pub path_prepend: Option<String>,
    pub cwd: Option<String>,
}

/// A file for the caller to write.
#[derive(Debug)]
pub struct FileWritePlan {
    pub path: String,
    pub contents: String,
}

/// The spelling of one `--key=value` argument.
pub open spec fn opt_arg_chars(k: Seq<char>, v: Seq<char>) -> Seq<char> {
    "--"@ + k + "="@ + v
}

/// Append one `--key=value` argument per option pair.
fn push_option_args(args: &mut Vec<String>, values: &Vec<(String, String)>)
    ensures
        final(args)@.len() == old(args)@.len() + values@.len(),
        forall|q: int| 0 <= q < old(args)@.len() ==> final(args)@[q] == #[trigger] old(args)@[q],
        forall|q: int|
            0 <= q < values@.len() ==> (#[trigger] final(args)@[old(args)@.len() + q])@
                == opt_arg_chars(values@[q].0@, values@[q].1@),
{
    let n = values.len();
    let mut i: usize = 0;
    while i < n
        invariant
            i <= n,
            n == values@.len(),
            args@.len() == old(args)@.len() + i,
            forall|q: int| 0 <= q < old(args)@.len() ==> args@[q] == #[trigger] old(args)@[q],
            forall|q: int|
                0 <= q < i ==> (#[trigger] args@[old(args)@.len() + q])@ == opt_arg_chars(
                    values@[q].0@,
                    values@[q].1@,
                ),
        decreases n - i,
    {
        let mut a = String::new();
        a.append("--");
        a.append(values[i].0.as_str());
        a.append("=");
        a.append(values[i].1.as_str());
        proof {
            assert(a@ =~= opt_arg_chars(values@[i as int].0@, values@[i as int].1@));
        }
        args.push(a);
        i = i + 1;
    }
}

/// The new search-path value that activates the found environment in the
/// caller's shell.
pub fn activate_venv(venv: &VirtualEnvironment, path_var: &str) -> (r: String)
    ensures
        r@ == exec_dir_chars(*venv) + ":"@ + path_var@,
{
    venv.activate_with(path_var)
}

/// The packages to install so a project gains new dependencies: everything
/// already installed followed by the additions, in order.
pub fn add_project_dependencies(installed: &Vec<Package>, dependencies: &Vec<Package>) -> (r: Vec<
    Package,
>)
    ensures
        pkgs_like(installed@ + dependencies@, r@),
{
    let mut out = crate::package::clone_pkgs(installed);
    let mut more = crate::package::clone_pkgs(dependencies);
    out.append(&mut more);
    proof {
        assert forall|i: int| 0 <= i < (installed@ + dependencies@).len() implies crate::package::pkg_like(
            #[trigger] (installed@ + dependencies@)[i],
            out@[i],
        ) by {
            if i < installed@.len() {
                assert((installed@ + dependencies@)[i] == installed@[i]);
            } else {
                assert((installed@ + dependencies@)[i] == dependencies@[i - installed@.len()]);
            }
        }
    }
    out
}

/// As `add_project_dependencies`; which optional group the additions join
/// is the manifest layer's concern.
pub fn add_project_optional_dependencies(
    installed: &Vec<Package>,
    dependencies: &Vec<Package>,
    group: &str,
) -> (r: Vec<Package>)
    ensures
        pkgs_like(installed@ + dependencies@, r@),
{
    let _ = group;
    add_project_dependencies(installed, dependencies)
}

/// The build command: `build`, with the staged options, run at the project
/// root with the environment's root in front of the search path. Fails
/// exactly when no build options are staged.
pub fn build_project(config: &OperationConfig, venv_root: &str) -> (r: Result<
    CommandSpec,
    HuakError,
>)
    ensures
        r is Ok <==> config.build_options is Some,
        r matches Err(e) ==> e == HuakError::BuildOptionsMissingError,
        r matches Ok(c) ==> {
            &&& c.program@ == "build"@
            &&& (config.build_options matches Some(o) && c.args@.len() == o.values@.len() && (
            forall|q: int|
                0 <= q < o.values@.len() ==> (#[trigger] c.args@[q])@ == opt_arg_chars(
                    o.values@[q].0@,
                    o.values@[q].1@,
                )))
            &&& (c.path_prepend matches Some(p) && p@ == venv_root@)
            &&& (c.cwd matches Some(w) && w@ == config.root@)
        },
{
    let options = match &config.build_options {
        Some(o) => o,
        None => {
            return Err(HuakError::BuildOptionsMissingError);
        },
    };
    let mut args: Vec<String> = Vec::new();
    let ghost pre = args@;
    push_option_args(&mut args, &options.values);
    proof {
        assert forall|q: int| 0 <= q < options.values@.len() implies (#[trigger] args@[q])@
            == opt_arg_chars(options.values@[q].0@, options.values@[q].1@) by {
            assert(args@[pre.len() + q]@ == opt_arg_chars(
                options.values@[q].0@,
                options.values@[q].1@,
            ));
        }
    }
    Ok(
        CommandSpec {
            program: "build".to_owned(),
            args,
            path_prepend: Some(venv_root.to_owned()),
            cwd: Some(config.root.clone()),
        },
    )
}

/// The formatter command: `black .`, with the staged options, at the
/// project root. Fails exactly when no formatter options are staged.
pub fn format_project(config: &OperationConfig, venv_root: &str) -> (r: Result<
    CommandSpec,
    HuakError,
>)
    ensures
        r is Ok <==> config.format_options is Some,
        r matches Err(e) ==> e == HuakError::BuildOptionsMissingError,
        r matches Ok(c) ==> {
            &&& c.program@ == "black"@
            &&& c.args@.len() >= 1 && c.args@[0]@ == "."@
            &&& (config.format_options matches Some(o) && c.args@.len() == 1 + o.values@.len() && (
            forall|q: int|
                0 <= q < o.values@.len() ==> (#[trigger] c.args@[1 + q])@ == opt_arg_chars(
                    o.values@[q].0@,
                    o.values@[q].1@,
                )))
            &&& (c.path_prepend matches Some(p) && p@ == venv_root@)
            &&& (c.cwd matches Some(w) && w@ == config.root@)
        },
{
    let options = match &config.format_options {
        Some(o) => o,
        None => {
            return Err(HuakError::BuildOptionsMissingError);
        },
    };
    let mut args: Vec<String> = Vec::new();
    args.push(".".to_owned());
    let ghost pre = args@;
    push_option_args(&mut args, &options.values);
    proof {
        assert forall|q: int| 0 <= q < options.values@.len() implies (#[trigger] args@[1 + q])@
            == opt_arg_chars(options.values@[q].0@, options.values@[q].1@) by {
            assert(args@[pre.len() + q]@ == opt_arg_chars(
                options.values@[q].0@,
                options.values@[q].1@,
            ));
        }
        assert(args@[0] == pre[0]);
    }
    Ok(
        CommandSpec {
            program: "black".to_owned(),
            args,
            path_prepend: Some(venv_root.to_owned()),
            cwd: Some(config.root.clone()),
        },
    )
}

/// The linter command: `ruff .`, with the staged options, at the project
/// root. Fails exactly when no linter options are staged.
pub fn lint_project(config: &OperationConfig, venv_root: &str) -> (r: Result<
    CommandSpec,
    HuakError,
>)
    ensures
        r is Ok <==> config.lint_options is Some,
        r matches Err(e) ==> e == HuakError::BuildOptionsMissingError,
        r matches Ok(c) ==> {
            &&& c.program@ == "ruff"@
            &&& c.args@.len() >= 1 && c.args@[0]@ == "."@
            &&& (config.lint_options matches Some(o) && c.args@.len() == 1 + o.values@.len() && (
            forall|q: int|
                0 <= q < o.values@.len() ==> (#[trigger] c.args@[1 + q])@ == opt_arg_chars(
                    o.values@[q].0@,
                    o.values@[q].1@,
                )))
            &&& (c.path_prepend matches Some(p) && p@ == venv_root@)
            &&& (c.cwd matches Some(w) && w@ == config.root@)
        },
{
    let options = match &config.lint_options {
        Some(o) => o,
        None => {
            return Err(HuakError::BuildOptionsMissingError);
        },
    };
    let mut args: Vec<String> = Vec::new();
    args.push(".".to_owned());
    let ghost pre = args@;
    push_option_args(&mut args, &options.values);
    proof {
        assert forall|q: int| 0 <= q < options.values@.len() implies (#[trigger] args@[1 + q])@
            == opt_arg_chars(options.values@[q].0@, options.values@[q].1@) by {
            assert(args@[pre.len() + q]@ == opt_arg_chars(
                options.values@[q].0@,
                options.values@[q].1@,
            ));
        }
        assert(args@[0] == pre[0]);
    }
    Ok(
        CommandSpec {
            program: "ruff".to_owned(),
            args,
            path_prepend: Some(venv_root.to_owned()),
            cwd: Some(config.root.clone()),
        },
    )
}

/// The lint-fix command: `ruff . --fix`, with the staged options, at the
/// project root. Fails exactly when no linter options are staged.
pub fn fix_project_lints(config: &OperationConfig, venv_root: &str) -> (r: Result<
    CommandSpec,
    HuakError,
>)
    ensures
        r is Ok <==> config.lint_options is Some,
        r matches Err(e) ==> e == HuakError::BuildOptionsMissingError,
        r matches Ok(c) ==> {
            &&& c.program@ == "ruff"@
            &&& c.args@.len() >= 2 && c.args@[0]@ == "."@ && c.args@[1]@ == "--fix"@
            &&& (config.lint_options matches Some(o) && c.args@.len() == 2 + o.values@.len() && (
            forall|q: int|
                0 <= q < o.values@.len() ==> (#[trigger] c.args@[2 + q])@ == opt_arg_chars(
                    o.values@[q].0@,
                    o.values@[q].1@,
                )))
            &&& (c.path_prepend matches Some(p) && p@ == venv_root@)
            &&& (c.cwd matches Some(w) && w@ == config.root@)
        },
{
    let options = match &config.lint_options {
        Some(o) => o,
        None => {
            return Err(HuakError::BuildOptionsMissingError);
        },
    };
    let mut args: Vec<String> = Vec::new();
    args.push(".".to_owned());
    args.push("--fix".to_owned());
    let ghost pre = args@;
    push_option_args(&mut args, &options.values);
    proof {
        assert forall|q: int| 0 <= q < options.values@.len() implies (#[trigger] args@[2 + q])@
            == opt_arg_chars(options.values@[q].0@, options.values@[q].1@) by {
            assert(args@[pre.len() + q]@ == opt_arg_chars(
                options.values@[q].0@,
                options.values@[q].1@,
            ));
        }
        assert(args@[0] == pre[0]);
        assert(args@[1] == pre[1]);
    }
    Ok(
        CommandSpec {
            program: "ruff".to_owned(),
            args,
            path_prepend: Some(venv_root.to_owned()),
            cwd: Some(config.root.clone()),
        },
    )
}

/// The file that initializes an existing project: the default manifest at
/// the project root.
pub fn init_project(config: &OperationConfig) -> (r: FileWritePlan)
    ensures
        r.path@ == config.root@ + "/pyproject.toml"@,
        r.contents@ == spec_default_pyproject_toml(),
{
    let mut path = config.root.clone();
    path.append("/pyproject.toml");
    FileWritePlan {
        path,
        contents: crate::project::default_pyproject_toml_contents().to_owned(),
    }
}

/// Record a project's dependencies as installed in its environment; the
/// caller runs the installer first and commits here on success.
pub fn install_project_dependencies(
    venv: &mut VirtualEnvironment,
    dependencies: &Vec<Package>,
) -> (r: Result<(), HuakError>)
    requires
        wf_venv(*old(venv)),
        forall|i: int| 0 <= i < dependencies@.len() ==> wf_package(#[trigger] dependencies@[i]),
    ensures
        r is Ok,
        wf_venv(*final(venv)),
        final(venv).root == old(venv).root,
        final(venv).config == old(venv).config,
        forall|i: int|
            0 <= i < dependencies@.len() ==> has_canon(
                final(venv).site_packages@,
                #[trigger] dependencies@[i].canonical_name@,
            ),
{
    venv.install_packages(dependencies)
}

/// As `install_project_dependencies`, for one optional dependency group.
pub fn install_project_optional_dependencies(
    venv: &mut VirtualEnvironment,
    dependencies: &Vec<Package>,
    group: &str,
) -> (r: Result<(), HuakError>)
    requires
        wf_venv(*old(venv)),
        forall|i: int| 0 <= i < dependencies@.len() ==> wf_package(#[trigger] dependencies@[i]),
    ensures
        r is Ok,
        wf_venv(*final(venv)),
        final(venv).root == old(venv).root,
        final(venv).config == old(venv).config,
        forall|i: int|
            0 <= i < dependencies@.len() ==> has_canon(
                final(venv).site_packages@,
                #[trigger] dependencies@[i].canonical_name@,
            ),
{
    let _ = group;
    venv.install_packages(dependencies)
}

/// The directory a clean removes: the project's `dist` directory.
pub fn clean_project(config: &OperationConfig) -> (r: String)
    ensures
        r@ == config.root@ + "/dist"@,
{
    let mut out = config.root.clone();
    out.append("/dist");
    out
}

/// The files that scaffold a fresh default project.
pub fn create_new_default_project(config: &OperationConfig) -> (r: FileWritePlan)
    ensures
        r.path@ == config.root@ + "/pyproject.toml"@,
        r.contents@ == spec_default_pyproject_toml(),
{
    init_project(config)
}

/// The files that scaffold a library-like project: the manifest, a package
/// module carrying a version, and a version test.
pub fn create_new_lib_project(config: &OperationConfig) -> (r: Vec<FileWritePlan>)
    ensures
        r@.len() == 3,
        r@[0].path@ == config.root@ + "/pyproject.toml"@,
        r@[0].contents@ == spec_default_pyproject_toml(),
        r@[1].path@ == config.root@ + "/src/project/__init__.py"@,
        r@[1].contents@ == "__version__ = \"0.0.1\"\n"@,
        r@[2].path@ == config.root@ + "/tests/test_version.py"@,
        r@[2].contents@
            == "from project import __version__\n\n\ndef test_version():\n    __version__\n"@,
{
    let mut out: Vec<FileWritePlan> = Vec::new();
    out.push(init_project(config));
    let mut init_path = config.root.clone();
    init_path.append("/src/project/__init__.py");
    out.push(
        FileWritePlan { path: init_path, contents: "__version__ = \"0.0.1\"\n".to_owned() },
    );
    let mut test_path = config.root.clone();
    test_path.append("/tests/test_version.py");
    out.push(
        FileWritePlan {
            path: test_path,
            contents: "from project import __version__\n\n\ndef test_version():\n    __version__\n".to_owned(),
        },
    );
    out
}

/// The files that scaffold an application-like project: the manifest and a
/// main module.
pub fn create_new_app_project(config: &OperationConfig) -> (r: Vec<FileWritePlan>)
    ensures
        r@.len() == 2,
        r@[0].path@ == config.root@ + "/pyproject.toml"@,
        r@[0].contents@ == spec_default_pyproject_toml(),
        r@[1].path@ == config.root@ + "/src/project/main.py"@,
        r@[1].contents@
            == "def main():\n    print(\"Hello, World!\")\n\n\nif __name__ == \"__main__\":\n    main()\n"@,
{
    let mut out: Vec<FileWritePlan> = Vec::new();
    out.push(init_project(config));
    let mut main_path = config.root.clone();
    main_path.append("/src/project/main.py");
    out.push(
        FileWritePlan {
            path: main_path,
            contents: "def main():\n    print(\"Hello, World!\")\n\n\nif __name__ == \"__main__\":\n    main()\n".to_owned(),
        },
    );
    out
}

/// Remove each named dependency from the environment, in order; stops at
/// the first name with nothing installed under it.
pub fn remove_project_dependencies(
    venv: &mut VirtualEnvironment,
    dependency_names: &Vec<String>,
) -> (r: Result<(), HuakError>)
    requires
        wf_venv(*old(venv)),
    ensures
        wf_venv(*final(venv)),
        final(venv).root == old(venv).root,
        final(venv).config == old(venv).config,
        r matches Err(e) ==> e matches HuakError::PackageNotFoundError { .. },
        r is Ok ==> forall|i: int|
            0 <= i < dependency_names@.len() ==> !has_canon(
                final(venv).site_packages@,
                lookup_chars(#[trigger] dependency_names@[i]@),
            ),
{
    let n = dependency_names.len();
    let mut i: usize = 0;
    while i < n
        invariant
            i <= n,
            n == dependency_names@.len(),
            wf_venv(*venv),
            venv.root == old(venv).root,
            venv.config == old(venv).config,
            forall|k: int|
                0 <= k < i ==> !has_canon(
                    venv.site_packages@,
                    lookup_chars(#[trigger] dependency_names@[k]@),
                ),
        decreases n - i,
    {
        let ghost pre = venv.site_packages@;
        match venv.uninstall_package(dependency_names[i].as_str()) {
            Ok(_) => {},
            Err(e) => {
                return Err(e);
            },
        }
        proof {
            let k = choose|k: int|
                {
                    &&& 0 <= k < pre.len()
                    &&& #[trigger] pre[k].canonical_name@ == lookup_chars(
                        dependency_names@[i as int]@,
                    )
                    &&& venv.site_packages@ == pre.remove(k)
                };
            assert forall|m: int|
                0 <= m < i + 1 implies !has_canon(
                venv.site_packages@,
                lookup_chars(#[trigger] dependency_names@[m]@),
            ) by {
                let key = lookup_chars(dependency_names@[m]@);
                if has_canon(venv.site_packages@, key) {
                    let w = choose|w: int|
                        0 <= w < venv.site_packages@.len()
                            && #[trigger] venv.site_packages@[w].canonical_name@ == key;
                    if m < i {
                        let w2: int = if w < k {
                            w
                        } else {
                            w + 1
                        };
                        assert(venv.site_packages@[w] == pre[w2]);
                        assert(has_canon(pre, key));
                        assert(false);
                    } else {
                        // the freshly removed name: its only carrier was entry k
                        let w2: int = if w < k {
                            w
                        } else {
                            w + 1
                        };
                        assert(venv.site_packages@[w] == pre[w2]);
                        assert(w2 != k);
                        if w2 < k {
                            assert(pre[w2].canonical_name@ != pre[k].canonical_name@);
                        } else {
                            assert(pre[k].canonical_name@ != pre[w2].canonical_name@);
                        }
                        assert(false);
                    }
                }
            }
        }
        i = i + 1;
    }
    Ok(())
}

/// As `remove_project_dependencies`, for one optional dependency group.
pub fn remove_project_optional_dependencies(
    venv: &mut VirtualEnvironment,
    dependency_names: &Vec<String>,
    group: &str,
) -> (r: Result<(), HuakError>)
    requires
        wf_venv(*old(venv)),
    ensures
        wf_venv(*final(venv)),
        final(venv).root == old(venv).root,
        final(venv).config == old(venv).config,
        r matches Err(e) ==> e matches HuakError::PackageNotFoundError { .. },
        r is Ok ==> forall|i: int|
            0 <= i < dependency_names@.len() ==> !has_canon(
                final(venv).site_packages@,
                lookup_chars(#[trigger] dependency_names@[i]@),
            ),
{
    let _ = group;
    remove_project_dependencies(venv, dependency_names)
}

/// First index at or after `i` holding a space (or the end of `s`).
pub open spec fn sp_end(s: Seq<char>, i: int) -> int
    decreases s.len() - i when 0 <= i <= s.len()
{
    if i < s.len() && s[i] != ' ' {
        sp_end(s, i + 1)
    } else {
        i
    }
}

proof fn lemma_sp_end_bounds(s: Seq<char>, i: int)
    requires
        0 <= i <= s.len(),
    ensures
        i <= sp_end(s, i) <= s.len(),
    decreases s.len() - i,
{
    if i < s.len() && s[i] != ' ' {
        lemma_sp_end_bounds(s, i + 1);
    }
}

/// The whitespace-separated tokens of a command line from `i` on.
pub open spec fn ws_tokens(s: Seq<char>, i: int) -> Seq<Seq<char>>
    decreases s.len() - i when 0 <= i <= s.len() via ws_tokens_decreases
{
    if i >= s.len() {
        Seq::empty()
    } else if s[i] == ' ' {
        ws_tokens(s, i + 1)
    } else {
        let j = sp_end(s, i);
        seq![s.subrange(i, j)] + ws_tokens(s, j)
    }
}

#[via_fn]
proof fn ws_tokens_decreases(s: Seq<char>, i: int) {
    lemma_sp_end_bounds(s, i);
    if i < s.len() && s[i] != ' ' {
        assert(sp_end(s, i) == sp_end(s, i + 1));
        lemma_sp_end_bounds(s, i + 1);
    }
}

/// Run a command string within the project's context: its first token is
/// the program, the rest are arguments, the working directory is the
/// project root, and the environment's executables directory leads the
/// search path. Fails exactly when the string holds no token.
pub fn run_command_str_with_context(
    config: &OperationConfig,
    venv_root: &str,
    command: &str,
) -> (r: Result<CommandSpec, HuakError>)
    ensures
        r is Ok <==> ws_tokens(command@, 0).len() >= 1,
        r matches Err(e) ==> e matches HuakError::InternalError { .. },
        r matches Ok(c) ==> {
            &&& c.program@ == ws_tokens(command@, 0)[0]
            &&& c.args@.len() == ws_tokens(command@, 0).len() - 1
            &&& (forall|q: int|
                0 <= q < c.args@.len() ==> (#[trigger] c.args@[q])@ == ws_tokens(command@, 0)[q
                    + 1])
            &&& (c.path_prepend matches Some(p) && p@ == venv_root@)
            &&& (c.cwd matches Some(w) && w@ == config.root@)
        },
{
    let ghost s = command@;
    let len = command.unicode_len();
    let mut tokens: Vec<String> = Vec::new();
    let mut i: usize = 0;
    let mut done = false;
    while !done
        invariant
            i <= len,
            len == s.len(),
            s == command@,
            !done ==> ws_tokens(s, 0) == tokens@.map_values(|t: String| t@) + ws_tokens(
                s,
                i as int,
            ),
            done ==> ws_tokens(s, 0) == tokens@.map_values(|t: String| t@),
        decreases (if done {
            0int
        } else {
            len - i + 2
        }),
    {
        if i >= len {
            proof {
                assert(ws_tokens(s, i as int) =~= Seq::<Seq<char>>::empty());
                assert(ws_tokens(s, 0) =~= tokens@.map_values(|t: String| t@));
            }
            done = true;
        } else if command.get_char(i) == ' ' {
            i = i + 1;
        } else {
            let ghost pre = tokens@;
            let mut j = i;
            while j < len && command.get_char(j) != ' '
                invariant
                    i <= j <= len,
                    len == s.len(),
                    s == command@,
                    sp_end(s, i as int) == sp_end(s, j as int),
                decreases len - j,
            {
                j = j + 1;
            }
            assert(sp_end(s, i as int) == j as int);
            let piece = command.substring_char(i, j).to_owned();
            tokens.push(piece);
            proof {
                assert(tokens@.map_values(|t: String| t@) =~= pre.map_values(|t: String| t@)
                    + seq![s.subrange(i as int, j as int)]);
                assert(ws_tokens(s, i as int) == seq![s.subrange(i as int, j as int)] + ws_tokens(
                    s,
                    j as int,
                ));
                assert(ws_tokens(s, 0) =~= tokens@.map_values(|t: String| t@) + ws_tokens(
                    s,
                    j as int,
                ));
            }
            i = j;
        }
    }
    if tokens.len() == 0 {
        return Err(
            HuakError::InternalError { message: "a command must name a program".to_owned() },
        );
    }
    let mut rest: Vec<String> = Vec::new();
    let n = tokens.len();
    let mut k: usize = 1;
    while k < n
        invariant
            1 <= k <= n,
            n == tokens@.len(),
            rest@.len() == k - 1,
            forall|q: int| 0 <= q < k - 1 ==> #[trigger] rest@[q] == tokens@[q + 1],
        decreases n - k,
    {
        rest.push(tokens[k].clone());
        k = k + 1;
    }
    let program = tokens[0].clone();
    proof {
        assert(tokens@.map_values(|t: String| t@)[0] == tokens@[0]@);
        assert(program@ == ws_tokens(s, 0)[0]);
        assert forall|q: int| 0 <= q < rest@.len() implies (#[trigger] rest@[q])@ == ws_tokens(
            s,
            0,
        )[q + 1] by {
            assert(rest@[q] == tokens@[q + 1]);
            assert(tokens@.map_values(|t: String| t@)[q + 1] == tokens@[q + 1]@);
        }
    }
    Ok(
        CommandSpec {
            program,
            args: rest,
            path_prepend: Some(venv_root.to_owned()),
            cwd: Some(config.root.clone()),
        },
    )
}

/// Run a command given as a list within the project's context. Fails
/// exactly when the list is empty.
pub fn run_command_list_with_context(
    config: &OperationConfig,
    venv_root: &str,
    command: &Vec<String>,
) -> (r: Result<CommandSpec, HuakError>)
    ensures
        r is Ok <==> command@.len() >= 1,
        r matches Err(e) ==> e matches HuakError::InternalError { .. },
        r matches Ok(c) ==> {
            &&& c.program@ == command@[0]@
            &&& c.args@.len() == command@.len() - 1
            &&& (forall|q: int|
                0 <= q < c.args@.len() ==> (#[trigger] c.args@[q])@ == command@[q + 1]@)
            &&& (c.path_prepend matches Some(p) && p@ == venv_root@)
            &&& (c.cwd matches Some(w) && w@ == config.root@)
        },
{
    if command.len() == 0 {
        return Err(
            HuakError::InternalError { message: "a command must name a program".to_owned() },
        );
    }
    let mut rest: Vec<String> = Vec::new();
    let n = command.len();
    let mut k: usize = 1;
    while k < n
        invariant
            1 <= k <= n,
            n == command@.len(),
            rest@.len() == k - 1,
            forall|q: int| 0 <= q < k - 1 ==> #[trigger] rest@[q] == command@[q + 1],
        decreases n - k,
    {
        rest.push(command[k].clone());
        k = k + 1;
    }
    Ok(
        CommandSpec {
            program: command[0].clone(),
            args: rest,
            path_prepend: Some(venv_root.to_owned()),
            cwd: Some(config.root.clone()),
        },
    )
}

/// The test command: `pytest` at the project root.
pub fn test_project(config: &OperationConfig, venv_root: &str) -> (r: CommandSpec)
    ensures
        r.program@ == "pytest"@,
        r.args@.len() == 0,
        r.path_prepend matches Some(p) && p@ == venv_root@,
        r.cwd matches Some(w) && w@ == config.root@,
{
    CommandSpec {
        program: "pytest".to_owned(),
        args: Vec::new(),
        path_prepend: Some(venv_root.to_owned()),
        cwd: Some(config.root.clone()),
    }
}

/// The version string to display for a project; fails when the manifest
/// names none.
pub fn display_project_version(version: Option<&String>) -> (r: Result<String, HuakError>)
    ensures
        r is Ok <==> version is Some,
        r matches Ok(s) ==> (version matches Some(v) && s@ == v@),
        r matches Err(e) ==> e matches HuakError::InternalError { .. },
{
    match version {
        Some(v) => Ok(v.clone()),
        None => Err(
            HuakError::InternalError { message: "the project names no version".to_owned() },
        ),
    }
}

} // verus!
