//! Project-level data: the kind of project being scaffolded and the layout
//! of its important files. The manifest file itself is an external
//! collaborator; the engine only exchanges dependency strings with it.

use vstd::prelude::*;
use vstd::string::StringExecFns;

verus! {

/// Whether a project is distributed as a library or as an executed process.
#[derive(Clone, Copy, PartialEq, Eq, Structural, Debug)]
pub enum ProjectType {
    Library,
    Application,
}

impl Default for ProjectType {
    /// Projects are library-like unless said otherwise.
    fn default() -> (r: Self)
        ensures
            r == ProjectType::Library,
    {
        ProjectType::Library
    }
}

/// Where a project's important files live, all derived from its root.
#[derive(Debug)]
pub struct ProjectLayout {
    pub root: String,
    pub python_root: String,
    pub pyproject_toml_path: String,
}

impl ProjectLayout {
    /// The layout every path of which is computed from the root once.
    pub fn from_root(root: &str) -> (r: ProjectLayout)
        ensures
            r.root@ == root@,
            r.python_root@ == root@ + "/src"@,
            r.pyproject_toml_path@ == root@ + "/pyproject.toml"@,
    {
        let mut python_root = root.to_owned();
        python_root.append("/src");
        let mut pyproject_toml_path = root.to_owned();
        pyproject_toml_path.append("/pyproject.toml");
        ProjectLayout { root: root.to_owned(), python_root, pyproject_toml_path }
    }
}

/// The manifest text a fresh project starts from.
pub open spec fn spec_default_pyproject_toml() -> Seq<char> {
    "[project]\nname = \"\"\nversion = \"0.0.1\"\ndescription = \"\"\n\n[build-system]\nrequires = [\"hatchling\"]\nbuild-backend = \"hatchling.build\"\n"@
}

/// The default manifest contents written for a new project.
pub fn default_pyproject_toml_contents() -> (r: &'static str)
    ensures
        r@ == spec_default_pyproject_toml(),
{
    "[project]\nname = \"\"\nversion = \"0.0.1\"\ndescription = \"\"\n\n[build-system]\nrequires = [\"hatchling\"]\nbuild-backend = \"hatchling.build\"\n"
}

} // verus!
