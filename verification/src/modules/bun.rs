//! The `bun` module: the Bun version, in projects with `bun.lockb` or `bunfig.toml`.
use vstd::prelude::*;
use crate::detector::ModuleContext;
use crate::error::PromptError;
use crate::modules::ModuleOutput;
use crate::modules::utils::{
    law_version_module_cases, normalized_version_format, render_version_module, some_marker_found,
    version_render,
};
use crate::text::{trim, trimmed};

verus! {

/// What the bun module renders in `context` for `format`.
pub open spec fn bun_renders(r: Result<ModuleOutput, PromptError>, context: ModuleContext, format: Seq<char>) -> bool {
    version_render(r, context.detection@.contains_key("bun.lockb"@) || context.detection@.contains_key("bunfig.toml"@), context.no_version, format, "bun"@)
}

/// The Bun module.
pub struct BunModule;

impl Default for BunModule {
    fn default() -> Self {
        BunModule
    }
}

impl BunModule {
    pub fn new() -> Self {
        BunModule
    }

    /// The markers whose presence this module looks for.
    pub fn fs_markers(&self) -> (m: Vec<&'static str>)
        ensures
            m@.len() == 2,
            m@[0]@ == "bun.lockb"@,
            m@[1]@ == "bunfig.toml"@,
    {
        let mut m: Vec<&'static str> = Vec::new();
        m.push("bun.lockb");
        m.push("bunfig.toml");
        m
    }

    /// Renders in a project with `bun.lockb` or `bunfig.toml` (see `version_render`).
    pub fn render(&self, format: &str, context: &ModuleContext) -> (r: Result<ModuleOutput, PromptError>)
        ensures
            bun_renders(r, *context, format@),
    {
        let has_marker = context.marker_path("bun.lockb").is_some() || context.marker_path(
            "bunfig.toml",
        ).is_some();
        render_version_module(has_marker, context.no_version, format, "bun")
    }
}

/// The version in the output of `bun --version`: the output trimmed.
pub fn bun_version_from_output(stdout: &str) -> (r: String)
    ensures
        r@ == trim(stdout@),
{
    trimmed(stdout)
}

/// The bun module asks for the version exactly when one of its markers
/// (`bun.lockb`, `bunfig.toml`) was found, versions are wanted and the format is a version
/// format; with none of them found it shows nothing.
pub proof fn law_bun_renders_on_its_markers(
    r: Result<ModuleOutput, PromptError>,
    context: ModuleContext,
    format: Seq<char>,
)
    requires
        bun_renders(r, context, format),
    ensures
        version_render(r, some_marker_found(context.detection@, seq!["bun.lockb"@, "bunfig.toml"@]), context.no_version, format, "bun"@),
        !some_marker_found(context.detection@, seq!["bun.lockb"@, "bunfig.toml"@]) ==> r matches Ok(ModuleOutput::Text(None)),
        some_marker_found(context.detection@, seq!["bun.lockb"@, "bunfig.toml"@]) && !context.no_version
            && normalized_version_format(format) is Some ==> r matches Ok(ModuleOutput::Version(_)),
{
    let ms = seq!["bun.lockb"@, "bunfig.toml"@];
        assert(ms[0] == "bun.lockb"@);
        assert(ms[1] == "bunfig.toml"@);
        if context.detection@.contains_key("bun.lockb"@) {
            assert(context.detection@.contains_key(ms[0]));
        }
        if context.detection@.contains_key("bunfig.toml"@) {
            assert(context.detection@.contains_key(ms[1]));
        }
    if some_marker_found(context.detection@, ms) {
        let i = choose|i: int| 0 <= i < ms.len() && context.detection@.contains_key(#[trigger] ms[i]);
        assert(context.detection@.contains_key(ms[i]));
    }
    let has = some_marker_found(context.detection@, ms);
    law_version_module_cases(r, has, context.no_version, format, "bun"@);
}

} // verus!
