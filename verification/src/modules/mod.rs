//! The prompt's modules.
use vstd::prelude::*;
use crate::modules::git::GitRequest;
use crate::modules::utils::VersionFormat;

pub mod bun;
pub mod deno;
pub mod env;
pub mod git;
pub mod go;
pub mod node;
pub mod python;
pub mod rust;
pub mod time;
pub mod utils;

verus! {

/// What a module's rendering comes to: either the text to show (or nothing),
/// or what has to be looked up outside before the text can be made.
#[derive(Debug)]
pub enum ModuleOutput {
    /// The text to show, or `None` to show nothing.
    Text(Option<String>),
    /// The tool's version is needed; the text is `finish_version` of it.
    Version(VersionFormat),
    /// The value of this environment variable is needed; the text is
    /// `finish_env` of it.
    EnvVar(String),
    /// The branch and status of a repository are needed.
    Git(GitRequest),
}

} // verus!
