//! The `deno` module: the Deno version, in projects with `deno.json` or `deno.jsonc`.
use vstd::prelude::*;
use crate::detector::ModuleContext;
use crate::error::PromptError;
use crate::modules::ModuleOutput;
use crate::modules::utils::{
    law_version_module_cases, normalized_version_format, render_version_module, some_marker_found,
    version_render,
};
use crate::text::{first_line, first_line_of, nth_word, nth_word_of};

verus! {

/// What the deno module renders in `context` for `format`.
pub open spec fn deno_renders(r: Result<ModuleOutput, PromptError>, context: ModuleContext, format: Seq<char>) -> bool {
    version_render(r, context.detection@.contains_key("deno.json"@) || context.detection@.contains_key("deno.jsonc"@), context.no_version, format, "deno"@)
}

/// The Deno module.
pub struct DenoModule;

impl Default for DenoModule {
    fn default() -> Self {
        DenoModule
    }
}

impl DenoModule {
    pub fn new() -> Self {
        DenoModule
    }

    /// The markers whose presence this module looks for.
    pub fn fs_markers(&self) -> (m: Vec<&'static str>)
        ensures
            m@.len() == 2,
            m@[0]@ == "deno.json"@,
            m@[1]@ == "deno.jsonc"@,
    {
        let mut m: Vec<&'static str> = Vec::new();
        m.push("deno.json");
        m.push("deno.jsonc");
        m
    }

    /// Renders in a project with `deno.json` or `deno.jsonc` (see `version_render`).
    pub fn render(&self, format: &str, context: &ModuleContext) -> (r: Result<ModuleOutput, PromptError>)
        ensures
            deno_renders(r, *context, format@),
    {
        let has_marker = context.marker_path("deno.json").is_some() || context.marker_path(
            "deno.jsonc",
        ).is_some();
        render_version_module(has_marker, context.no_version, format, "deno")
    }
}

/// The version that `deno --version` printed: the second word of its first line.
pub open spec fn deno_version_of(stdout: Seq<char>) -> Option<Seq<char>> {
    match first_line(stdout) {
        Some(l) => nth_word(l, 1),
        None => None,
    }
}

/// The version in the output of `deno --version`.
pub fn deno_version_from_output(stdout: &str) -> (r: Option<String>)
    ensures
        match r {
            Some(v) => deno_version_of(stdout@) == Some(v@),
            None => deno_version_of(stdout@) is None,
        },
{
    match first_line_of(stdout) {
        Some(l) => nth_word_of(l.as_str(), 1),
        None => None,
    }
}

/// The deno module asks for the version exactly when one of its markers
/// (`deno.json`, `deno.jsonc`) was found, versions are wanted and the format is a version
/// format; with none of them found it shows nothing.
pub proof fn law_deno_renders_on_its_markers(
    r: Result<ModuleOutput, PromptError>,
    context: ModuleContext,
    format: Seq<char>,
)
    requires
        deno_renders(r, context, format),
    ensures
        version_render(r, some_marker_found(context.detection@, seq!["deno.json"@, "deno.jsonc"@]), context.no_version, format, "deno"@),
        !some_marker_found(context.detection@, seq!["deno.json"@, "deno.jsonc"@]) ==> r matches Ok(ModuleOutput::Text(None)),
        some_marker_found(context.detection@, seq!["deno.json"@, "deno.jsonc"@]) && !context.no_version
            && normalized_version_format(format) is Some ==> r matches Ok(ModuleOutput::Version(_)),
{
    let ms = seq!["deno.json"@, "deno.jsonc"@];
        assert(ms[0] == "deno.json"@);
        assert(ms[1] == "deno.jsonc"@);
        if context.detection@.contains_key("deno.json"@) {
            assert(context.detection@.contains_key(ms[0]));
        }
        if context.detection@.contains_key("deno.jsonc"@) {
            assert(context.detection@.contains_key(ms[1]));
        }
    if some_marker_found(context.detection@, ms) {
        let i = choose|i: int| 0 <= i < ms.len() && context.detection@.contains_key(#[trigger] ms[i]);
        assert(context.detection@.contains_key(ms[i]));
    }
    let has = some_marker_found(context.detection@, ms);
    law_version_module_cases(r, has, context.no_version, format, "deno"@);
}

} // verus!
