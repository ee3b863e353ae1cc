//! Decoded manifest values: the global toolchain configuration and the
//! project list. The surrounding program parses the manifest document
//! and hands these plain values in; the engine treats them as read-only.

use vstd::prelude::*;

verus! {

/// Global build configuration: toolchain executables, their optional
/// extra arguments, and the output directories for binaries (`bin`) and
/// intermediate objects (`obj`).
pub struct Config {
    pub compiler: String,
    pub compiler_opts: Option<Vec<String>>,
    pub linker: String,
    pub linker_opts: Option<Vec<String>>,
    pub packer: String,
    pub packer_opts: Option<Vec<String>>,
    pub bin: String,
    pub obj: String,
}

/// A whole decoded manifest: the configuration and the project set.
pub struct BuildConfig {
    pub config: Config,
    pub projects: Vec<crate::project::Project>,
}

/// The string list held by an optional manifest field: empty when the
/// field is absent.
pub open spec fn opt_list(o: Option<Vec<String>>) -> Seq<Seq<char>> {
    match o {
        Option::Some(v) => v.deep_view(),
        Option::None => Seq::empty(),
    }
}

} // verus!
