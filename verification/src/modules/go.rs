//! The `go` module: the Go version, in modules with a `go.mod`.
use vstd::prelude::*;
use crate::detector::ModuleContext;
use crate::error::PromptError;
use crate::modules::ModuleOutput;
use crate::modules::utils::{
    law_version_module_cases, normalized_version_format, render_version_module, some_marker_found,
    version_render,
};
use crate::text::{nth_word, nth_word_of, strip_prefix_all, trim_start_matches};

verus! {

/// What the go module renders in `context` for `format`.
pub open spec fn go_renders(r: Result<ModuleOutput, PromptError>, context: ModuleContext, format: Seq<char>) -> bool {
    version_render(r, context.detection@.contains_key("go.mod"@), context.no_version, format, "go"@)
}

/// The Go module.
pub struct GoModule;

impl Default for GoModule {
    fn default() -> Self {
        GoModule
    }
}

impl GoModule {
    pub fn new() -> Self {
        GoModule
    }

    /// The markers whose presence this module looks for.
    pub fn fs_markers(&self) -> (m: Vec<&'static str>)
        ensures
            m@.len() == 1,
            m@[0]@ == "go.mod"@,
    {
        let mut m: Vec<&'static str> = Vec::new();
        m.push("go.mod");
        m
    }

    /// Renders in a module with a `go.mod` (see `version_render`).
    pub fn render(&self, format: &str, context: &ModuleContext) -> (r: Result<ModuleOutput, PromptError>)
        ensures
            go_renders(r, *context, format@),
    {
        let has_marker = context.marker_path("go.mod").is_some();
        render_version_module(has_marker, context.no_version, format, "go")
    }
}

/// The version that `go version` printed: its third word (`go1.22.1`)
/// without the leading `go`s.
pub open spec fn go_version_of(stdout: Seq<char>) -> Option<Seq<char>> {
    match nth_word(stdout, 2) {
        Some(w) => Some(strip_prefix_all(w, "go"@)),
        None => None,
    }
}

/// The version in the output of `go version`.
pub fn go_version_from_output(stdout: &str) -> (r: Option<String>)
    ensures
        match r {
            Some(v) => go_version_of(stdout@) == Some(v@),
            None => go_version_of(stdout@) is None,
        },
{
    proof {
        reveal_strlit("go");
    }
    match nth_word_of(stdout, 2) {
        Some(w) => Some(trim_start_matches(w.as_str(), "go")),
        None => None,
    }
}

/// The go module asks for the version exactly when one of its markers
/// (`go.mod`) was found, versions are wanted and the format is a version
/// format; with none of them found it shows nothing.
pub proof fn law_go_renders_on_its_markers(
    r: Result<ModuleOutput, PromptError>,
    context: ModuleContext,
    format: Seq<char>,
)
    requires
        go_renders(r, context, format),
    ensures
        version_render(r, some_marker_found(context.detection@, seq!["go.mod"@]), context.no_version, format, "go"@),
        !some_marker_found(context.detection@, seq!["go.mod"@]) ==> r matches Ok(ModuleOutput::Text(None)),
        some_marker_found(context.detection@, seq!["go.mod"@]) && !context.no_version
            && normalized_version_format(format) is Some ==> r matches Ok(ModuleOutput::Version(_)),
{
    let ms = seq!["go.mod"@];
        assert(ms[0] == "go.mod"@);
        if context.detection@.contains_key("go.mod"@) {
            assert(context.detection@.contains_key(ms[0]));
        }
    if some_marker_found(context.detection@, ms) {
        let i = choose|i: int| 0 <= i < ms.len() && context.detection@.contains_key(#[trigger] ms[i]);
        assert(context.detection@.contains_key(ms[i]));
    }
    let has = some_marker_found(context.detection@, ms);
    law_version_module_cases(r, has, context.no_version, format, "go"@);
}

} // verus!
