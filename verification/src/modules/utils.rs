//! The version formats that the tool-version modules share.
use vstd::prelude::*;
use crate::error::{PromptError, is_invalid_format, invalid_format};
use crate::modules::ModuleOutput;
use crate::text::{chars_of, find_char_from, find_from, lemma_find_from, before_first, str_eq, substring};

verus! {

/// The formats listed when a version module is given one it does not know.
pub open spec fn version_formats_list() -> Seq<char> {
    "full, f, short, s, major, m"@
}

/// The normalized name of a version format: `""`, `"full"` and `"f"` are
/// `"full"`; `"short"` and `"s"` are `"short"`; `"major"` and `"m"` are `"major"`.
pub open spec fn normalized_version_format(f: Seq<char>) -> Option<Seq<char>> {
    if f == ""@ || f == "full"@ || f == "f"@ {
        Some("full"@)
    } else if f == "short"@ || f == "s"@ {
        Some("short"@)
    } else if f == "major"@ || f == "m"@ {
        Some("major"@)
    } else {
        None
    }
}

/// Checks the format given to the version module `module_name` and returns
/// its normalized name.
pub fn validate_version_format(format: &str, module_name: &str) -> (r: Result<
    &'static str,
    PromptError,
>)
    ensures
        match r {
            Ok(n) => normalized_version_format(format@) == Some(n@),
            Err(e) => normalized_version_format(format@) is None && is_invalid_format(
                e,
                module_name@,
                format@,
                version_formats_list(),
            ),
        },
{
    if str_eq(format, "") || str_eq(format, "full") || str_eq(format, "f") {
        Ok("full")
    } else if str_eq(format, "short") || str_eq(format, "s") {
        Ok("short")
    } else if str_eq(format, "major") || str_eq(format, "m") {
        Ok("major")
    } else {
        Err(invalid_format(module_name, format, "full, f, short, s, major, m"))
    }
}

/// Normalizing a format that is already normalized leaves it as it is.
pub proof fn law_normalized_version_format_is_fixed(f: Seq<char>)
    requires
        normalized_version_format(f) is Some,
    ensures
        normalized_version_format(normalized_version_format(f)->0) == normalized_version_format(
            f,
        ),
{
    reveal_strlit("");
    reveal_strlit("full");
    reveal_strlit("f");
    reveal_strlit("short");
    reveal_strlit("s");
    reveal_strlit("major");
    reveal_strlit("m");
    assert("short"@.len() != ""@.len() && "short"@.len() != "f"@.len() && "short"@[0] != "full"@[0]);
    assert("major"@.len() != ""@.len() && "major"@.len() != "f"@.len() && "major"@[0] != "full"@[0]);
    assert("major"@.len() != "s"@.len() && "major"@[0] != "short"@[0]);
}

/// `version` cut down to `major.minor`: the text up to its second `.`, or all
/// of it when it has no `.`.
pub open spec fn shorten(v: Seq<char>) -> Seq<char> {
    let i = find_from(v, '.', 0);
    if i < v.len() {
        v.take(i) + seq!['.'] + before_first(v.skip(i + 1), '.')
    } else {
        v
    }
}

/// The major part of a version: the text before its first `.`.
pub open spec fn major(v: Seq<char>) -> Seq<char> {
    before_first(v, '.')
}

proof fn lemma_find_from_skip(s: Seq<char>, c: char, a: int, i: int)
    requires
        0 <= a <= i <= s.len(),
    ensures
        find_from(s.skip(a), c, i - a) == find_from(s, c, i) - a,
    decreases s.len() - i,
{
    if i < s.len() && s[i] != c {
        lemma_find_from_skip(s, c, a, i + 1);
    }
}

proof fn lemma_find_from_take(s: Seq<char>, c: char, n: int, i: int)
    requires
        0 <= i <= n <= s.len(),
        find_from(s, c, i) >= n,
    ensures
        find_from(s.take(n), c, i) == n,
    decreases n - i,
{
    lemma_find_from(s, c, i);
    if i < n {
        lemma_find_from_take(s, c, n, i + 1);
    }
}

proof fn lemma_find_from_take_hit(s: Seq<char>, c: char, n: int, i: int)
    requires
        0 <= i <= n <= s.len(),
        find_from(s, c, i) < n,
    ensures
        find_from(s.take(n), c, i) == find_from(s, c, i),
    decreases n - i,
{
    lemma_find_from(s, c, i);
    if s[i] != c {
        lemma_find_from_take_hit(s, c, n, i + 1);
    }
}

/// The end of `shorten(v)` inside `v`: `shorten(v)` is `v.take(end)`.
proof fn lemma_shorten_is_prefix(v: Seq<char>)
    ensures
        find_from(v, '.', 0) < v.len() ==> shorten(v) == v.take(
            find_from(v, '.', find_from(v, '.', 0) + 1),
        ),
{
    lemma_find_from(v, '.', 0);
    let i = find_from(v, '.', 0);
    if i < v.len() {
        lemma_find_from(v, '.', i + 1);
        lemma_find_from_skip(v, '.', i + 1, i + 1);
        let j = find_from(v, '.', i + 1);
        assert(shorten(v) =~= v.take(j));
    }
}

/// `version` shortened to `major.minor`.
pub fn shorten_version(version: &str) -> (r: String)
    ensures
        r@ == shorten(version@),
{
    let cs = chars_of(version);
    let i = find_char_from(&cs, '.', 0);
    proof {
        lemma_shorten_is_prefix(version@);
    }
    if i < cs.len() {
        let j = find_char_from(&cs, '.', i + 1);
        substring(version, 0, j)
    } else {
        assert(version@.subrange(0, cs@.len() as int) =~= version@);
        substring(version, 0, cs.len())
    }
}

/// The major part of `version`.
pub fn major_version(version: &str) -> (r: String)
    ensures
        r@ == major(version@),
{
    let cs = chars_of(version);
    let i = find_char_from(&cs, '.', 0);
    assert(version@.subrange(0, i as int) =~= major(version@));
    substring(version, 0, i)
}

/// Shortening a version that is already short leaves it as it is.
pub proof fn law_shorten_is_idempotent(v: Seq<char>)
    ensures
        shorten(shorten(v)) == shorten(v),
{
    lemma_shorten_is_prefix(v);
    lemma_find_from(v, '.', 0);
    let i = find_from(v, '.', 0);
    if i < v.len() {
        lemma_find_from(v, '.', i + 1);
        let j = find_from(v, '.', i + 1);
        let w = v.take(j);
        lemma_find_from_take_hit(v, '.', j, 0);
        assert(find_from(w, '.', 0) == i);
        lemma_find_from_take(v, '.', j, i + 1);
        lemma_shorten_is_prefix(w);
        assert(w.take(j) =~= w);
    }
}

/// A shortened version is a prefix of the version with at most one `.`, and
/// it has a `.` exactly when the version has one.
pub proof fn law_shorten_is_a_prefix_with_one_dot(v: Seq<char>)
    ensures
        shorten(v).len() <= v.len(),
        v.take(shorten(v).len() as int) == shorten(v),
        forall|a: int, b: int|
            0 <= a < b < shorten(v).len() ==> !(#[trigger] shorten(v)[a] == '.' && #[trigger] shorten(
                v,
            )[b] == '.'),
        shorten(v).contains('.') <==> v.contains('.'),
{
    lemma_shorten_is_prefix(v);
    lemma_find_from(v, '.', 0);
    let i = find_from(v, '.', 0);
    if i < v.len() {
        lemma_find_from(v, '.', i + 1);
        let j = find_from(v, '.', i + 1);
        let w = shorten(v);
        assert(w == v.take(j));
        assert(v.take(w.len() as int) =~= w);
        assert forall|a: int, b: int| 0 <= a < b < w.len() implies !(#[trigger] w[a] == '.'
            && #[trigger] w[b] == '.') by {
            assert(w[a] == v[a] && w[b] == v[b]);
        }
        assert(w[i] == '.');
        assert(v[i] == '.');
    } else {
        assert(shorten(v) == v);
        assert(v.take(v.len() as int) =~= v);
        assert forall|k: int| 0 <= k < v.len() implies v[k] != '.' by {}
    }
}

/// The major part of a shortened version is the major part of the version.
pub proof fn law_major_of_short(v: Seq<char>)
    ensures
        major(shorten(v)) == major(v),
{
    lemma_shorten_is_prefix(v);
    lemma_find_from(v, '.', 0);
    let i = find_from(v, '.', 0);
    if i < v.len() {
        lemma_find_from(v, '.', i + 1);
        let j = find_from(v, '.', i + 1);
        lemma_find_from_take_hit(v, '.', j, 0);
        assert(major(v.take(j)) =~= major(v));
    }
}

/// A version format, once validated.
#[derive(Clone, Copy, Debug, PartialEq, Eq, Structural)]
pub enum VersionFormat {
    /// The version as the tool reports it.
    Full,
    /// `major.minor`.
    Short,
    /// The major version only.
    Major,
}

/// The format whose normalized name is `n`.
pub open spec fn version_format_named(n: Seq<char>) -> Option<VersionFormat> {
    if n == "full"@ {
        Some(VersionFormat::Full)
    } else if n == "short"@ {
        Some(VersionFormat::Short)
    } else if n == "major"@ {
        Some(VersionFormat::Major)
    } else {
        None
    }
}

/// The format with normalized name `n` (one of `validate_version_format`'s results).
pub fn version_format_from_name(n: &str) -> (f: VersionFormat)
    requires
        version_format_named(n@) is Some,
    ensures
        version_format_named(n@) == Some(f),
{
    if str_eq(n, "full") {
        VersionFormat::Full
    } else if str_eq(n, "short") {
        VersionFormat::Short
    } else {
        VersionFormat::Major
    }
}

/// What a version module shows for `version` in format `f`.
pub open spec fn formatted_version(f: VersionFormat, version: Seq<char>) -> Seq<char> {
    match f {
        VersionFormat::Full => version,
        VersionFormat::Short => shorten(version),
        VersionFormat::Major => major(version),
    }
}

/// The text that a version module shows, once the tool has been asked for
/// its version: nothing when the tool gave none.
pub fn finish_version(f: VersionFormat, version: Option<String>) -> (r: Option<String>)
    ensures
        match version {
            None => r is None,
            Some(v) => r matches Some(s) && s@ == formatted_version(f, v@),
        },
{
    match version {
        None => None,
        Some(v) => match f {
            VersionFormat::Full => Some(v),
            VersionFormat::Short => Some(shorten_version(v.as_str())),
            VersionFormat::Major => Some(major_version(v.as_str())),
        },
    }
}

/// What a tool-version module renders: nothing when none of its markers was
/// found, an empty text when versions are turned off, the format error when
/// `format` is not a version format, and otherwise a request for the tool's
/// version in that format.
pub open spec fn version_render(
    r: Result<ModuleOutput, PromptError>,
    has_marker: bool,
    no_version: bool,
    format: Seq<char>,
    module: Seq<char>,
) -> bool {
    if !has_marker {
        r matches Ok(ModuleOutput::Text(None))
    } else if no_version {
        r matches Ok(ModuleOutput::Text(Some(s))) && s@.len() == 0
    } else {
        match normalized_version_format(format) {
            None => r matches Err(e) && is_invalid_format(e, module, format, version_formats_list()),
            Some(n) => r matches Ok(ModuleOutput::Version(f)) && version_format_named(n) == Some(f),
        }
    }
}

/// The rendering shared by the tool-version modules (see `version_render`).
pub fn render_version_module(
    has_marker: bool,
    no_version: bool,
    format: &str,
    module_name: &str,
) -> (r: Result<ModuleOutput, PromptError>)
    ensures
        version_render(r, has_marker, no_version, format@, module_name@),
{
    if !has_marker {
        return Ok(ModuleOutput::Text(None));
    }
    if no_version {
        return Ok(ModuleOutput::Text(Some(String::new())));
    }
    let normalized = validate_version_format(format, module_name)?;
    proof {
        reveal_strlit("full");
        reveal_strlit("short");
        reveal_strlit("major");
        assert("short"@[0] != "full"@[0] && "major"@[0] != "full"@[0] && "major"@[0] != "short"@[0]);
    }
    Ok(ModuleOutput::Version(version_format_from_name(normalized)))
}

/// Some marker of `markers` is among those found in `detection`.
pub open spec fn some_marker_found(detection: Map<Seq<char>, Seq<char>>, markers: Seq<Seq<char>>) -> bool {
    exists|i: int| 0 <= i < markers.len() && detection.contains_key(#[trigger] markers[i])
}

/// What a tool-version module's rendering gives, by case: nothing when none
/// of its markers was found; an empty text when versions are left out; the
/// format error for a format that is not a version format; otherwise a
/// request for the version in the format it names.
pub proof fn law_version_module_cases(
    r: Result<ModuleOutput, PromptError>,
    has_marker: bool,
    no_version: bool,
    format: Seq<char>,
    module: Seq<char>,
)
    requires
        version_render(r, has_marker, no_version, format, module),
    ensures
        !has_marker ==> r matches Ok(ModuleOutput::Text(None)),
        has_marker && no_version ==> (r matches Ok(ModuleOutput::Text(Some(t))) && t@.len() == 0),
        has_marker && !no_version && normalized_version_format(format) is None ==> (r matches Err(e)
            && is_invalid_format(e, module, format, version_formats_list())),
        has_marker && !no_version && normalized_version_format(format) is Some ==> (r matches Ok(
            ModuleOutput::Version(v),
        ) && version_format_named(normalized_version_format(format)->0) == Some(v)),
{
}

} // verus!
