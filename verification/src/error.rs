//! The error type shared by the prompt modules.
use vstd::prelude::*;

verus! {

/// Why a module could not render.
#[derive(Debug)]
pub enum PromptError {
    /// The format given to a module is not one that it understands.
    InvalidFormat { module: String, format: String, valid_formats: String },
    /// Reading the clock or another system resource failed.
    IoError(String),
}

/// `e` reports that `module` was given `format`, and lists `valid_formats`.
pub open spec fn is_invalid_format(
    e: PromptError,
    module: Seq<char>,
    format: Seq<char>,
    valid_formats: Seq<char>,
) -> bool {
    match e {
        PromptError::InvalidFormat { module: m, format: f, valid_formats: v } => {
            &&& m@ == module
            &&& f@ == format
            &&& v@ == valid_formats
        },
        _ => false,
    }
}

/// The `InvalidFormat` error of `module` for `format`.
pub fn invalid_format(module: &str, format: &str, valid_formats: &str) -> (e: PromptError)
    ensures
        is_invalid_format(e, module@, format@, valid_formats@),
{
    PromptError::InvalidFormat {
        module: String::from_str(module),
        format: String::from_str(format),
        valid_formats: String::from_str(valid_formats),
    }
}

} // verus!
