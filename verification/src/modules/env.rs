//! The `env` module: the value of the environment variable that its format names.
use vstd::prelude::*;
use crate::detector::ModuleContext;
use crate::error::{PromptError, is_invalid_format, invalid_format};
use crate::modules::ModuleOutput;

verus! {

/// The hint given when the env module has no variable name.
pub open spec fn env_format_hint() -> Seq<char> {
    "Provide an environment variable name, e.g., {env:blue:USER}"@
}

/// What the env module renders for `format`: the lookup of the variable
/// it names, or the format error when it names none.
pub open spec fn env_renders(r: Result<ModuleOutput, PromptError>, format: Seq<char>) -> bool {
    if format.len() == 0 {
        r matches Err(e) && is_invalid_format(e, "env"@, format, env_format_hint())
    } else {
        r matches Ok(ModuleOutput::EnvVar(name)) && name@ == format
    }
}

/// The environment variable module.
pub struct EnvModule;

impl Default for EnvModule {
    fn default() -> Self {
        EnvModule
    }
}

impl EnvModule {
    pub fn new() -> Self {
        EnvModule
    }

    /// The markers whose presence this module looks for: none.
    pub fn fs_markers(&self) -> (m: Vec<&'static str>)
        ensures
            m@.len() == 0,
    {
        Vec::new()
    }

    /// Asks for the variable named by `format`; an empty format is an error.
    pub fn render(&self, format: &str, _context: &ModuleContext) -> (r: Result<ModuleOutput, PromptError>)
        ensures
            env_renders(r, format@),
    {
        if format.unicode_len() == 0 {
            return Err(
                invalid_format("env", format, "Provide an environment variable name, e.g., {env:blue:USER}"),
            );
        }
        Ok(ModuleOutput::EnvVar(String::from_str(format)))
    }
}

/// The text of the env module for the variable's value: nothing when the
/// variable is unset or empty, its value otherwise.
pub fn finish_env(value: Option<String>) -> (r: Option<String>)
    ensures
        match value {
            Some(v) if v@.len() > 0 => r == Some(v),
            _ => r is None,
        },
{
    match value {
        Some(v) => {
            if v.as_str().unicode_len() == 0 {
                None
            } else {
                Some(v)
            }
        },
        None => None,
    }
}

} // verus!
