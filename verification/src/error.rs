//! The one error type of the engine. Resolution and manifest errors
//! surface before any compilation begins; compile and link failures
//! carry the failing tool's captured standard error and abort the whole
//! run at a single top-level point.

use vstd::prelude::*;

verus! {

/// Everything that can go wrong in a run.
#[derive(Debug, PartialEq, Eq)]
pub enum BuildError {
    /// No manifest document was found.
    ManifestMissing,
    /// The manifest document could not be decoded.
    ManifestParseError,
    /// A declared dependency names no known project.
    UnknownDependency(String),
    /// The dependency edges form a cycle.
    DependencyCycle,
    /// The manifest defines no project at all.
    NoProjectsDefined,
    /// The requested project name is absent from the manifest.
    ProjectNotFound(String),
    /// No project was requested and none carries the default flag.
    NoDefaultProject,
    /// A compiler invocation exited with failure; holds its standard error.
    CompileFailure(String),
    /// A linker or archiver invocation exited with failure; holds its
    /// standard error.
    LinkFailure(String),
    /// The persisted cache store could not be read or written.
    CacheIOError,
}

} // verus!
