//! Error values surfaced by the library. Parse errors are returned, never
//! panicked; the caller owns any retry policy.

use vstd::prelude::*;

verus! {

/// Every failure the engine can report.
#[derive(Debug, PartialEq, Eq)]
pub enum HuakError {
    /// A version string did not match the accepted PEP 440 grammar.
    VersionParseError { input: String },
    /// A dependency string did not split into a name and a valid specifier.
    PackageParseError { input: String },
    /// An operator string did not map to a known version operator.
    InvalidOperatorError { input: String },
    /// No virtual environment marker was found in the starting directory or
    /// any of its ancestors.
    PyVenvNotFoundError,
    /// No package with the given canonical name is installed.
    PackageNotFoundError { name: String },
    /// No usable Python interpreter was found.
    InterpreterNotFoundError,
    /// Two requested packages with the same canonical name disagree; both
    /// conflicting specifiers are carried verbatim.
    ConflictError { first: String, second: String },
    /// A base (system) site-packages operation was attempted on an isolated
    /// environment.
    IsolationViolationError,
    /// The directory did not hold a readable environment configuration file.
    NotAVirtualEnvironmentError { root: String },
    /// An installer process failed; its captured output is kept verbatim.
    InstallError { output: String },
    /// An uninstall operation failed; its captured output is kept verbatim.
    UninstallError { output: String },
    /// An underlying filesystem failure, kept verbatim.
    IOError { message: String },
    /// An operation was started without the options it needs.
    BuildOptionsMissingError,
    /// A failure internal to the engine, kept verbatim.
    InternalError { message: String },
}

pub type HuakResult<T> = Result<T, HuakError>;

} // verus!
