//! The `node` module: the Node.js version, in projects with a `package.json`.
use vstd::prelude::*;
use crate::detector::ModuleContext;
use crate::error::PromptError;
use crate::modules::ModuleOutput;
use crate::modules::utils::{
    law_version_module_cases, normalized_version_format, render_version_module, some_marker_found,
    version_render,
};
use crate::text::{strip_prefix_all, trim, trim_start_matches, trimmed};

verus! {

/// What the node module renders in `context` for `format`.
pub open spec fn node_renders(r: Result<ModuleOutput, PromptError>, context: ModuleContext, format: Seq<char>) -> bool {
    version_render(r, context.detection@.contains_key("package.json"@), context.no_version, format, "node"@)
}

/// The Node.js module.
pub struct NodeModule;

impl Default for NodeModule {
    fn default() -> Self {
        NodeModule
    }
}

impl NodeModule {
    pub fn new() -> Self {
        NodeModule
    }

    /// The markers whose presence this module looks for.
    pub fn fs_markers(&self) -> (m: Vec<&'static str>)
        ensures
            m@.len() == 1,
            m@[0]@ == "package.json"@,
    {
        let mut m: Vec<&'static str> = Vec::new();
        m.push("package.json");
        m
    }

    /// Renders in a project with a `package.json` (see `version_render`).
    pub fn render(&self, format: &str, context: &ModuleContext) -> (r: Result<ModuleOutput, PromptError>)
        ensures
            node_renders(r, *context, format@),
    {
        let has_marker = context.marker_path("package.json").is_some();
        render_version_module(has_marker, context.no_version, format, "node")
    }
}

/// The version that `node --version` printed: its output trimmed, without
/// the leading `v`s.
pub open spec fn node_version_of(stdout: Seq<char>) -> Seq<char> {
    strip_prefix_all(trim(stdout), "v"@)
}

/// The version in the output of `node --version`.
pub fn node_version_from_output(stdout: &str) -> (r: String)
    ensures
        r@ == node_version_of(stdout@),
{
    let t = trimmed(stdout);
    proof {
        reveal_strlit("v");
    }
    trim_start_matches(t.as_str(), "v")
}

/// The node module asks for the version exactly when one of its markers
/// (`package.json`) was found, versions are wanted and the format is a version
/// format; with none of them found it shows nothing.
pub proof fn law_node_renders_on_its_markers(
    r: Result<ModuleOutput, PromptError>,
    context: ModuleContext,
    format: Seq<char>,
)
    requires
        node_renders(r, context, format),
    ensures
        version_render(r, some_marker_found(context.detection@, seq!["package.json"@]), context.no_version, format, "node"@),
        !some_marker_found(context.detection@, seq!["package.json"@]) ==> r matches Ok(ModuleOutput::Text(None)),
        some_marker_found(context.detection@, seq!["package.json"@]) && !context.no_version
            && normalized_version_format(format) is Some ==> r matches Ok(ModuleOutput::Version(_)),
{
    let ms = seq!["package.json"@];
        assert(ms[0] == "package.json"@);
        if context.detection@.contains_key("package.json"@) {
            assert(context.detection@.contains_key(ms[0]));
        }
    if some_marker_found(context.detection@, ms) {
        let i = choose|i: int| 0 <= i < ms.len() && context.detection@.contains_key(#[trigger] ms[i]);
        assert(context.detection@.contains_key(ms[i]));
    }
    let has = some_marker_found(context.detection@, ms);
    law_version_module_cases(r, has, context.no_version, format, "node"@);
}

} // verus!
