//! The `python` module: the Python version, in projects with
//! `requirements.txt`, `pyproject.toml` or `setup.py`.
use vstd::prelude::*;
use crate::detector::ModuleContext;
use crate::error::PromptError;
use crate::modules::ModuleOutput;
use crate::modules::utils::{
    law_version_module_cases, normalized_version_format, render_version_module, some_marker_found,
    version_render,
};
use crate::text::{nth_word, nth_word_of};

verus! {

/// What the python module renders in `context` for `format`.
pub open spec fn python_renders(r: Result<ModuleOutput, PromptError>, context: ModuleContext, format: Seq<char>) -> bool {
    version_render(r, context.detection@.contains_key("requirements.txt"@) || context.detection@.contains_key("pyproject.toml"@) || context.detection@.contains_key("setup.py"@), context.no_version, format, "python"@)
}

/// The Python module.
pub struct PythonModule;

impl Default for PythonModule {
    fn default() -> Self {
        PythonModule
    }
}

impl PythonModule {
    pub fn new() -> Self {
        PythonModule
    }

    /// The markers whose presence this module looks for.
    pub fn fs_markers(&self) -> (m: Vec<&'static str>)
        ensures
            m@.len() == 3,
            m@[0]@ == "requirements.txt"@,
            m@[1]@ == "pyproject.toml"@,
            m@[2]@ == "setup.py"@,
    {
        let mut m: Vec<&'static str> = Vec::new();
        m.push("requirements.txt");
        m.push("pyproject.toml");
        m.push("setup.py");
        m
    }

    /// Renders in a project with `requirements.txt`, `pyproject.toml` or
    /// `setup.py` (see `version_render`).
    pub fn render(&self, format: &str, context: &ModuleContext) -> (r: Result<ModuleOutput, PromptError>)
        ensures
            python_renders(r, *context, format@),
    {
        let has_marker = context.marker_path("requirements.txt").is_some() || context.marker_path(
            "pyproject.toml",
        ).is_some() || context.marker_path("setup.py").is_some();
        render_version_module(has_marker, context.no_version, format, "python")
    }
}

/// The version that `python --version` printed: the second word of its
/// standard output, or of its error output when the standard output is empty.
pub open spec fn python_version_of(stdout: Seq<char>, stderr: Seq<char>) -> Option<Seq<char>> {
    if stdout.len() == 0 {
        nth_word(stderr, 1)
    } else {
        nth_word(stdout, 1)
    }
}

/// The version in the output of `python3 --version` (or `python --version`).
pub fn python_version_from_output(stdout: &str, stderr: &str) -> (r: Option<String>)
    ensures
        match r {
            Some(v) => python_version_of(stdout@, stderr@) == Some(v@),
            None => python_version_of(stdout@, stderr@) is None,
        },
{
    if stdout.unicode_len() == 0 {
        nth_word_of(stderr, 1)
    } else {
        nth_word_of(stdout, 1)
    }
}

/// The python module asks for the version exactly when one of its markers
/// (`requirements.txt`, `pyproject.toml`, `setup.py`) was found, versions are wanted and the format is a version
/// format; with none of them found it shows nothing.
pub proof fn law_python_renders_on_its_markers(
    r: Result<ModuleOutput, PromptError>,
    context: ModuleContext,
    format: Seq<char>,
)
    requires
        python_renders(r, context, format),
    ensures
        version_render(r, some_marker_found(context.detection@, seq!["requirements.txt"@, "pyproject.toml"@, "setup.py"@]), context.no_version, format, "python"@),
        !some_marker_found(context.detection@, seq!["requirements.txt"@, "pyproject.toml"@, "setup.py"@]) ==> r matches Ok(ModuleOutput::Text(None)),
        some_marker_found(context.detection@, seq!["requirements.txt"@, "pyproject.toml"@, "setup.py"@]) && !context.no_version
            && normalized_version_format(format) is Some ==> r matches Ok(ModuleOutput::Version(_)),
{
    let ms = seq!["requirements.txt"@, "pyproject.toml"@, "setup.py"@];
        assert(ms[0] == "requirements.txt"@);
        assert(ms[1] == "pyproject.toml"@);
        assert(ms[2] == "setup.py"@);
        if context.detection@.contains_key("requirements.txt"@) {
            assert(context.detection@.contains_key(ms[0]));
        }
        if context.detection@.contains_key("pyproject.toml"@) {
            assert(context.detection@.contains_key(ms[1]));
        }
        if context.detection@.contains_key("setup.py"@) {
            assert(context.detection@.contains_key(ms[2]));
        }
    if some_marker_found(context.detection@, ms) {
        let i = choose|i: int| 0 <= i < ms.len() && context.detection@.contains_key(#[trigger] ms[i]);
        assert(context.detection@.contains_key(ms[i]));
    }
    let has = some_marker_found(context.detection@, ms);
    law_version_module_cases(r, has, context.no_version, format, "python"@);
}

} // verus!
