//! The `rust` module: the version of the Rust toolchain that applies to the
//! working directory, and the rustup settings and toolchain files that
//! decide which toolchain that is.
use vstd::prelude::*;
use crate::detector::ModuleContext;
use crate::error::PromptError;
use crate::modules::ModuleOutput;
use crate::modules::utils::{
    law_version_module_cases, normalized_version_format, render_version_module, some_marker_found,
    version_render,
};
use crate::text::{opt_view, chars_of, find_from, find_char_from, lemma_find_from, nth_word, nth_word_of, str_eq, trim, trimmed};

verus! {

/// What the rust module renders in `context` for `format`.
pub open spec fn rust_renders(r: Result<ModuleOutput, PromptError>, context: ModuleContext, format: Seq<char>) -> bool {
    version_render(r, context.detection@.contains_key("Cargo.toml"@), context.no_version, format, "rust"@)
}

/// The Rust module.
pub struct RustModule;

impl Default for RustModule {
    fn default() -> Self {
        RustModule
    }
}

impl RustModule {
    pub fn new() -> Self {
        RustModule
    }

    /// The markers whose presence this module looks for.
    pub fn fs_markers(&self) -> (m: Vec<&'static str>)
        ensures
            m@.len() == 1,
            m@[0]@ == "Cargo.toml"@,
    {
        let mut m: Vec<&'static str> = Vec::new();
        m.push("Cargo.toml");
        m
    }

    /// Renders in a crate with a `Cargo.toml` (see `version_render`).
    pub fn render(&self, format: &str, context: &ModuleContext) -> (r: Result<ModuleOutput, PromptError>)
        ensures
            rust_renders(r, *context, format@),
    {
        let has_marker = context.marker_path("Cargo.toml").is_some();
        render_version_module(has_marker, context.no_version, format, "rust")
    }
}

/// The version in the output of `rustc --version`: its second word
/// (`rustc 1.76.0 (a58dcd2a3 2024-01-17)` gives `1.76.0`).
pub fn parse_rustc_version(stdout: &str) -> (r: Option<String>)
    ensures
        match r {
            Some(v) => nth_word(stdout@, 1) == Some(v@),
            None => nth_word(stdout@, 1) is None,
        },
{
    nth_word_of(stdout, 1)
}

/// `v` trimmed, when that leaves something.
pub open spec fn nonempty_trimmed(v: Seq<char>) -> Option<Seq<char>> {
    if trim(v).len() > 0 {
        Some(trim(v))
    } else {
        None
    }
}

/// `value.trim()`, or `None` when nothing is left.
pub fn trimmed_nonempty(value: &str) -> (r: Option<String>)
    ensures
        opt_view(r) == nonempty_trimmed(value@),
{
    let t = trimmed(value);
    if t.as_str().unicode_len() == 0 {
        None
    } else {
        Some(t)
    }
}

/// A value nested in a table of a TOML document, as far as the settings
/// files are read: a string, or something else.
#[derive(Debug)]
pub enum TomlScalar {
    Str(String),
    Other,
}

/// A top-level value of a TOML document: a string, a table (with its
/// entries in the order in which the document's table lists them), or
/// something else.
#[derive(Debug)]
pub enum TomlItem {
    Str(String),
    Table(Vec<(String, TomlScalar)>),
    Other,
}

/// A TOML document: the entries of its top-level table, in order.
#[derive(Debug)]
pub struct TomlDoc {
    pub entries: Vec<(String, TomlItem)>,
}

/// The document that `toml::from_str` reads from `contents`, or `None` when
/// `contents` is not valid TOML.
pub uninterp spec fn toml_document(contents: Seq<char>) -> Option<TomlDoc>;

/// Parses `contents` with `toml::from_str::<toml::Table>` and keeps, of each
/// top-level entry, whether it is a string (with its text), a table (with
/// its entries, of which it keeps the strings' texts) or something else.
/// The contract claims only that the result is `toml_document(contents)`:
/// the same text always reads the same.
#[verifier::external_body]
fn parse_toml(contents: &str) -> (doc: Option<TomlDoc>)
    ensures
        doc == toml_document(contents@),
{
    let table = toml::from_str::<toml::Table>(contents).ok()?;
    let entries = table.into_iter().map(|(k, v)| (k, match v {
        toml::Value::String(s) => TomlItem::Str(s),
        toml::Value::Table(t) => TomlItem::Table(t.into_iter().map(|(k2, w)| (k2, match w {
            toml::Value::String(s) => TomlScalar::Str(s),
            _ => TomlScalar::Other,
        })).collect()),
        _ => TomlItem::Other,
    })).collect();
    Some(TomlDoc { entries })
}

/// The index of the first entry named `key` at or after `i`, or the number of entries.
pub open spec fn key_index<V>(entries: Seq<(String, V)>, key: Seq<char>, i: int) -> int
    decreases entries.len() - i,
{
    if i < 0 || i >= entries.len() {
        entries.len() as int
    } else if entries[i].0@ == key {
        i
    } else {
        key_index(entries, key, i + 1)
    }
}

/// The text of the first top-level entry named `key`, when it is a string
/// (`value.get(key).and_then(Value::as_str)`).
pub open spec fn doc_str(entries: Seq<(String, TomlItem)>, key: Seq<char>) -> Option<Seq<char>> {
    let i = key_index(entries, key, 0);
    if i < entries.len() {
        match entries[i].1 {
            TomlItem::Str(s) => Some(s@),
            _ => None,
        }
    } else {
        None
    }
}

/// The text of the first entry named `key` of a nested table, when it is a string.
pub open spec fn table_str(entries: Seq<(String, TomlScalar)>, key: Seq<char>) -> Option<Seq<char>> {
    let i = key_index(entries, key, 0);
    if i < entries.len() {
        match entries[i].1 {
            TomlScalar::Str(s) => Some(s@),
            _ => None,
        }
    } else {
        None
    }
}

/// The index of the first entry named `key` in `entries`.
fn find_key<V>(entries: &Vec<(String, V)>, key: &str) -> (i: usize)
    ensures
        i == key_index(entries@, key@, 0),
        i <= entries@.len(),
{
    let mut i: usize = 0;
    while i < entries.len()
        invariant
            i <= entries@.len(),
            key_index(entries@, key@, i as int) == key_index(entries@, key@, 0),
        decreases entries.len() - i,
    {
        if str_eq(entries[i].0.as_str(), key) {
            return i;
        }
        i += 1;
    }
    i
}

/// The string value of the top-level entry `key` of `doc`.
fn get_doc_str(doc: &TomlDoc, key: &str) -> (r: Option<String>)
    ensures
        opt_view(r) == doc_str(doc.entries@, key@),
{
    let i = find_key(&doc.entries, key);
    if i < doc.entries.len() {
        match &doc.entries[i].1 {
            TomlItem::Str(s) => Some(s.clone()),
            _ => None,
        }
    } else {
        None
    }
}

/// The settings that rustup keeps in `settings.toml`, as read from the file.
pub struct RustupSettingsFile {
    pub default_toolchain: Option<String>,
    pub default_host_triple: Option<String>,
    /// The per-directory toolchains, with the directories as written in the file.
    pub overrides: Vec<(String, String)>,
}

/// The view of a list of pairs of strings.
pub open spec fn pairs_view(p: Seq<(String, String)>) -> Seq<(Seq<char>, Seq<char>)> {
    p.map_values(|e: (String, String)| (e.0@, e.1@))
}

/// The overrides of a settings file: the entries of its `overrides` table
/// whose value is a string that is not blank, with that string trimmed.
pub open spec fn override_pairs(entries: Seq<(String, TomlScalar)>) -> Seq<(Seq<char>, Seq<char>)>
    decreases entries.len(),
{
    if entries.len() == 0 {
        Seq::empty()
    } else {
        let p = override_pairs(entries.drop_last());
        match entries.last().1 {
            TomlScalar::Str(t) => if trim(t@).len() > 0 {
                p.push((entries.last().0@, trim(t@)))
            } else {
                p
            },
            TomlScalar::Other => p,
        }
    }
}

/// The `overrides` table of a settings document (empty when it has none).
pub open spec fn doc_overrides(entries: Seq<(String, TomlItem)>) -> Seq<(Seq<char>, Seq<char>)> {
    let i = key_index(entries, "overrides"@, 0);
    if i < entries.len() {
        match entries[i].1 {
            TomlItem::Table(t) => override_pairs(t@),
            _ => Seq::empty(),
        }
    } else {
        Seq::empty()
    }
}

/// A settings document is read only when it has no `version` string, or
/// its `version` is `"12"`.
pub open spec fn settings_version_ok(entries: Seq<(String, TomlItem)>) -> bool {
    match doc_str(entries, "version"@) {
        Some(v) => v == "12"@,
        None => true,
    }
}

/// The settings read from the text of `settings.toml`: nothing when it is
/// not TOML or has another version; otherwise its non-blank default
/// toolchain and default host triple, trimmed, and its overrides.
pub open spec fn settings_file_matches(r: RustupSettingsFile, contents: Seq<char>) -> bool {
    settings_doc_matches(r, toml_document(contents))
}

/// The settings read from the document `doc` of `settings.toml` (`None`
/// when the text is not TOML): see `settings_file_matches`.
pub open spec fn settings_doc_matches(r: RustupSettingsFile, doc: Option<TomlDoc>) -> bool {
    match doc {
        Some(doc) if settings_version_ok(doc.entries@) => {
            &&& opt_view(r.default_toolchain) == match doc_str(doc.entries@, "default_toolchain"@) {
                Some(v) => nonempty_trimmed(v),
                None => None,
            }
            &&& opt_view(r.default_host_triple) == match doc_str(
                doc.entries@,
                "default_host_triple"@,
            ) {
                Some(v) => nonempty_trimmed(v),
                None => None,
            }
            &&& pairs_view(r.overrides@) == doc_overrides(doc.entries@)
        },
        _ => {
            &&& r.default_toolchain is None
            &&& r.default_host_triple is None
            &&& r.overrides@.len() == 0
        },
    }
}

/// The overrides of the table `t`.
fn overrides_of(t: &Vec<(String, TomlScalar)>) -> (r: Vec<(String, String)>)
    ensures
        pairs_view(r@) == override_pairs(t@),
{
    let mut r: Vec<(String, String)> = Vec::new();
    let mut i: usize = 0;
    while i < t.len()
        invariant
            i <= t@.len(),
            pairs_view(r@) == override_pairs(t@.take(i as int)),
        decreases t.len() - i,
    {
        assert(t@.take(i + 1).drop_last() =~= t@.take(i as int));
        let ghost before = r@;
        match &t[i].1 {
            TomlScalar::Str(v) => {
                let tc = trimmed(v.as_str());
                if tc.as_str().unicode_len() > 0 {
                    r.push((t[i].0.clone(), tc));
                    assert(pairs_view(r@) =~= pairs_view(before).push((t@[i as int].0@, trim(v@))));
                }
            },
            TomlScalar::Other => {},
        }
        i += 1;
    }
    assert(t@.take(t@.len() as int) =~= t@);
    r
}

/// Reads the rustup settings from the text of `settings.toml`.
pub fn parse_rustup_settings(contents: &str) -> (r: RustupSettingsFile)
    ensures
        settings_file_matches(r, contents@),
{
    match parse_toml(contents) {
        Some(doc) => settings_from_document(&doc),
        None => RustupSettingsFile { default_toolchain: None, default_host_triple: None, overrides: Vec::new() },
    }
}

/// Reads the rustup settings from the document of `settings.toml`.
pub fn settings_from_document(doc: &TomlDoc) -> (r: RustupSettingsFile)
    ensures
        settings_doc_matches(r, Some(*doc)),
{
    let empty = RustupSettingsFile {
        default_toolchain: None,
        default_host_triple: None,
        overrides: Vec::new(),
    };
    if let Some(v) = get_doc_str(doc, "version") {
        if !str_eq(v.as_str(), "12") {
            return empty;
        }
    }
    let default_toolchain = match get_doc_str(doc, "default_toolchain") {
        Some(v) => trimmed_nonempty(v.as_str()),
        None => None,
    };
    let default_host_triple = match get_doc_str(doc, "default_host_triple") {
        Some(v) => trimmed_nonempty(v.as_str()),
        None => None,
    };
    let i = find_key(&doc.entries, "overrides");
    let overrides = if i < doc.entries.len() {
        match &doc.entries[i].1 {
            TomlItem::Table(t) => overrides_of(t),
            _ => Vec::new(),
        }
    } else {
        Vec::new()
    };
    let r = RustupSettingsFile { default_toolchain, default_host_triple, overrides };
    assert(pairs_view(r.overrides@) =~= doc_overrides(doc.entries@));
    r
}

/// The toolchain named by the text of a toolchain file, where `toml_only`
/// says the file is `rust-toolchain.toml`: nothing for a blank file; the
/// trimmed text when the file may be plain and that text is one line; and
/// otherwise the TOML `toolchain` entry, either a non-blank string or a
/// table whose `channel` string is taken (trimmed).
pub open spec fn toolchain_file_value(contents: Seq<char>, toml_only: bool) -> Option<Seq<char>> {
    let t = trim(contents);
    if t.len() == 0 {
        None
    } else if !toml_only && find_from(t, '\n', 0) == t.len() {
        Some(t)
    } else {
        match toml_document(contents) {
            None => None,
            Some(doc) => toolchain_doc_value(doc),
        }
    }
}

/// A toolchain file is read as text only when it is a legacy file whose
/// trimmed text is one line: that line is the toolchain. A file with more
/// lines, or a `rust-toolchain.toml`, is read as TOML only; a blank file
/// names no toolchain.
pub proof fn law_toolchain_file_text_or_toml(contents: Seq<char>, toml_only: bool)
    ensures
        trim(contents).len() == 0 ==> toolchain_file_value(contents, toml_only) is None,
        trim(contents).len() > 0 && (toml_only || trim(contents).contains('\n'))
            ==> toolchain_file_value(contents, toml_only) == match toml_document(contents) {
            None => None,
            Some(doc) => toolchain_doc_value(doc),
        },
        trim(contents).len() > 0 && !toml_only && !trim(contents).contains('\n')
            ==> toolchain_file_value(contents, toml_only) == Some(trim(contents)),
        forall|t: Seq<char>|
            toolchain_file_value(contents, toml_only) == Some(t) && t.contains('\n') ==> (match toml_document(
                contents,
            ) {
                None => None,
                Some(doc) => toolchain_doc_value(doc),
            }) == Some(t),
{
    let t = trim(contents);
    lemma_find_from(t, '\n', 0);
    let i = find_from(t, '\n', 0);
    if t.contains('\n') {
        let j = choose|j: int| 0 <= j < t.len() && t[j] == '\n';
        assert(i <= j);
    }
    if i < t.len() {
        assert(t[i] == '\n');
    }
}

/// The toolchain that the TOML document of a toolchain file names: its
/// `toolchain` entry, either a non-blank string (trimmed) or a table whose
/// `channel` string is taken (trimmed).
pub open spec fn toolchain_doc_value(doc: TomlDoc) -> Option<Seq<char>> {
    let i = key_index(doc.entries@, "toolchain"@, 0);
    if i < doc.entries@.len() {
        match doc.entries@[i].1 {
            TomlItem::Table(tab) => match table_str(tab@, "channel"@) {
                Some(c) => Some(trim(c)),
                None => None,
            },
            TomlItem::Str(c) => nonempty_trimmed(c@),
            TomlItem::Other => None,
        }
    } else {
        None
    }
}

/// The toolchain named by the text of a toolchain file (see `toolchain_file_value`).
pub fn toolchain_from_file(contents: &str, toml_only: bool) -> (r: Option<String>)
    ensures
        opt_view(r) == toolchain_file_value(contents@, toml_only),
{
    let t = trimmed(contents);
    let tc = chars_of(t.as_str());
    if tc.len() == 0 {
        return None;
    }
    if !toml_only && find_char_from(&tc, '\n', 0) == tc.len() {
        return Some(t);
    }
    match parse_toml(contents) {
        Some(doc) => toolchain_from_document(&doc),
        None => None,
    }
}

/// The toolchain that the TOML document of a toolchain file names (see
/// `toolchain_doc_value`).
pub fn toolchain_from_document(doc: &TomlDoc) -> (r: Option<String>)
    ensures
        opt_view(r) == toolchain_doc_value(*doc),
{
    let i = find_key(&doc.entries, "toolchain");
    if i < doc.entries.len() {
        match &doc.entries[i].1 {
            TomlItem::Table(tab) => {
                let j = find_key(tab, "channel");
                if j < tab.len() {
                    match &tab[j].1 {
                        TomlScalar::Str(c) => Some(trimmed(c.as_str())),
                        TomlScalar::Other => None,
                    }
                } else {
                    None
                }
            },
            TomlItem::Str(c) => trimmed_nonempty(c.as_str()),
            TomlItem::Other => None,
        }
    } else {
        None
    }
}

/// The toolchain files looked for in each directory, in order, each with
/// whether it must be TOML.
pub fn toolchain_file_names() -> (r: Vec<(&'static str, bool)>)
    ensures
        r@.len() == 2,
        r@[0].0@ == "rust-toolchain"@ && !r@[0].1,
        r@[1].0@ == "rust-toolchain.toml"@ && r@[1].1,
{
    let mut r: Vec<(&'static str, bool)> = Vec::new();
    r.push(("rust-toolchain", false));
    r.push(("rust-toolchain.toml", true));
    r
}

/// The toolchain that applies: the non-blank `RUSTUP_TOOLCHAIN` value
/// (trimmed) first, then the override of the working directory, then the
/// toolchain file found from it, then the default toolchain.
pub open spec fn chosen_toolchain(
    env_value: Option<Seq<char>>,
    dir_override: Option<Seq<char>>,
    file: Option<Seq<char>>,
    default: Option<Seq<char>>,
) -> Option<Seq<char>> {
    match env_value {
        Some(v) if nonempty_trimmed(v) is Some => nonempty_trimmed(v),
        _ => if dir_override is Some {
            dir_override
        } else if file is Some {
            file
        } else {
            default
        },
    }
}

/// Chooses the toolchain that applies (see `chosen_toolchain`).
pub fn choose_toolchain(
    env_value: Option<String>,
    dir_override: Option<String>,
    file: Option<String>,
    default: Option<String>,
) -> (r: Option<String>)
    ensures
        opt_view(r) == chosen_toolchain(
            opt_view(env_value),
            opt_view(dir_override),
            opt_view(file),
            opt_view(default),
        ),
{
    if let Some(v) = &env_value {
        if let Some(t) = trimmed_nonempty(v.as_str()) {
            return Some(t);
        }
    }
    if dir_override.is_some() {
        dir_override
    } else if file.is_some() {
        file
    } else {
        default
    }
}

/// The toolchain directories where `rustc` of `toolchain` may be, in order:
/// `toolchain` itself, then, when its name has no `-` and a host triple is
/// known, `toolchain-host`.
pub open spec fn toolchain_dirs(toolchain: Seq<char>, host: Option<Seq<char>>) -> Seq<Seq<char>> {
    if find_from(toolchain, '-', 0) < toolchain.len() {
        seq![toolchain]
    } else {
        match host {
            Some(h) => seq![toolchain, toolchain + seq!['-'] + h],
            None => seq![toolchain],
        }
    }
}

/// The toolchain directories to look for `rustc` in (see `toolchain_dirs`).
pub fn toolchain_dir_candidates(toolchain: &str, host: Option<String>) -> (r: Vec<String>)
    ensures
        r@.map_values(|s: String| s@) == toolchain_dirs(toolchain@, opt_view(host)),
{
    let ghost hv = opt_view(host);
    let mut r: Vec<String> = Vec::new();
    r.push(String::from_str(toolchain));
    let cs = chars_of(toolchain);
    let has_dash = find_char_from(&cs, '-', 0) < cs.len();
    if !has_dash {
        if let Some(h) = host {
            proof {
                reveal_strlit("-");
            }
            let alt = String::from_str(toolchain).concat("-").concat(h.as_str());
            assert(alt@ == toolchain@ + seq!['-'] + h@);
            r.push(alt);
            assert(r@.map_values(|s: String| s@) =~= seq![toolchain@, toolchain@ + seq!['-'] + h@]);
        } else {
            assert(r@.map_values(|s: String| s@) =~= seq![toolchain@]);
        }
    } else {
        assert(r@.map_values(|s: String| s@) =~= seq![toolchain@]);
    }
    r
}

/// A path, as its components (`Path::components`).
pub open spec fn path_view(p: Seq<String>) -> Seq<Seq<char>> {
    p.map_values(|s: String| s@)
}

/// `cwd.starts_with(dir)`: the components of `dir` begin those of `cwd`.
pub open spec fn path_starts_with(cwd: Seq<Seq<char>>, dir: Seq<Seq<char>>) -> bool {
    dir.len() <= cwd.len() && cwd.take(dir.len() as int) == dir
}

/// The override that applies to `cwd` among `entries`, read in order: the
/// first of the longest directories that `cwd` lies in.
pub open spec fn best_override(entries: Seq<(Vec<String>, String)>, cwd: Seq<Seq<char>>) -> Option<(int, Seq<char>)>
    decreases entries.len(),
{
    if entries.len() == 0 {
        None
    } else {
        let prev = best_override(entries.drop_last(), cwd);
        let e = entries.last();
        let d = e.0@.len() as int;
        if path_starts_with(cwd, path_view(e.0@)) {
            match prev {
                Some((bd, t)) if bd >= d => prev,
                _ => Some((d, e.1@)),
            }
        } else {
            prev
        }
    }
}

/// rustup's settings: the default toolchain and host triple, and the
/// toolchain chosen for each overridden directory.
pub struct RustupSettings {
    default_toolchain: Option<String>,
    default_host_triple: Option<String>,
    overrides: Vec<(Vec<String>, String)>,
}

/// No two entries of `entries` have the same directory.
pub open spec fn distinct_dirs(entries: Seq<(Vec<String>, String)>) -> bool {
    forall|i: int, j: int|
        0 <= i < j < entries.len() ==> path_view(#[trigger] entries[i].0@) != path_view(
            #[trigger] entries[j].0@,
        )
}

/// The index of the first entry at or after `i` whose directory is `d`, or
/// the number of entries.
pub open spec fn dir_index(entries: Seq<(Vec<String>, String)>, d: Seq<Seq<char>>, i: int) -> int
    decreases entries.len() - i,
{
    if i < 0 || i >= entries.len() {
        entries.len() as int
    } else if path_view(entries[i].0@) == d {
        i
    } else {
        dir_index(entries, d, i + 1)
    }
}

proof fn lemma_dir_index(entries: Seq<(Vec<String>, String)>, d: Seq<Seq<char>>, i: int)
    requires
        0 <= i <= entries.len(),
    ensures
        i <= dir_index(entries, d, i) <= entries.len(),
        dir_index(entries, d, i) < entries.len() ==> path_view(entries[dir_index(entries, d, i)].0@)
            == d,
        forall|k: int| i <= k < dir_index(entries, d, i) ==> path_view(#[trigger] entries[k].0@) != d,
    decreases entries.len() - i,
{
    if i < entries.len() && path_view(entries[i].0@) != d {
        lemma_dir_index(entries, d, i + 1);
    }
}

/// `a` and `b` have the same components.
fn same_path(a: &Vec<String>, b: &Vec<String>) -> (r: bool)
    ensures
        r == (path_view(a@) == path_view(b@)),
{
    if a.len() != b.len() {
        assert(path_view(a@).len() != path_view(b@).len());
        return false;
    }
    let mut i: usize = 0;
    while i < a.len()
        invariant
            a@.len() == b@.len(),
            i <= a@.len(),
            forall|j: int| 0 <= j < i ==> a@[j]@ == b@[j]@,
        decreases a.len() - i,
    {
        if !str_eq(a[i].as_str(), b[i].as_str()) {
            assert(path_view(a@)[i as int] != path_view(b@)[i as int]);
            return false;
        }
        i += 1;
    }
    assert(path_view(a@) =~= path_view(b@));
    true
}

impl RustupSettings {
    /// The directories with an override.
    pub closed spec fn overrides_list(&self) -> Seq<(Vec<String>, String)> {
        self.overrides@
    }

    /// No directory has two overrides.
    pub closed spec fn wf(&self) -> bool {
        distinct_dirs(self.overrides@)
    }

    /// Settings with the given defaults and no override.
    pub fn new(default_toolchain: Option<String>, default_host_triple: Option<String>) -> (s: Self)
        ensures
            s.wf(),
            opt_view(s.spec_default_toolchain()) == opt_view(default_toolchain),
            opt_view(s.spec_default_host_triple()) == opt_view(default_host_triple),
            s.overrides_list().len() == 0,
    {
        RustupSettings { default_toolchain, default_host_triple, overrides: Vec::new() }
    }

    pub closed spec fn spec_default_toolchain(&self) -> Option<String> {
        self.default_toolchain
    }

    pub closed spec fn spec_default_host_triple(&self) -> Option<String> {
        self.default_host_triple
    }

    /// The default toolchain.
    pub fn default_toolchain(&self) -> (r: Option<&str>)
        ensures
            match r {
                Some(t) => opt_view(self.spec_default_toolchain()) == Some(t@),
                None => self.spec_default_toolchain() is None,
            },
    {
        match &self.default_toolchain {
            Some(t) => Some(t.as_str()),
            None => None,
        }
    }

    /// The default host triple.
    pub fn default_host_triple(&self) -> (r: Option<&str>)
        ensures
            match r {
                Some(t) => opt_view(self.spec_default_host_triple()) == Some(t@),
                None => self.spec_default_host_triple() is None,
            },
    {
        match &self.default_host_triple {
            Some(t) => Some(t.as_str()),
            None => None,
        }
    }

    /// Sets the override of the directory `dir` (given by its components)
    /// to `toolchain`: the entry of that directory is replaced, or a new
    /// entry is added at the end when it has none.
    pub fn insert_override(&mut self, dir: Vec<String>, toolchain: String)
        requires
            old(self).wf(),
        ensures
            final(self).wf(),
            final(self).spec_default_toolchain() == old(self).spec_default_toolchain(),
            final(self).spec_default_host_triple() == old(self).spec_default_host_triple(),
            final(self).overrides_list() == ({
                let k = dir_index(old(self).overrides_list(), path_view(dir@), 0);
                if k < old(self).overrides_list().len() {
                    old(self).overrides_list().update(k, (dir, toolchain))
                } else {
                    old(self).overrides_list().push((dir, toolchain))
                }
            }),
    {
        let mut k: usize = 0;
        while k < self.overrides.len() && !same_path(&self.overrides[k].0, &dir)
            invariant
                k <= self.overrides@.len(),
                dir_index(self.overrides@, path_view(dir@), k as int) == dir_index(
                    self.overrides@,
                    path_view(dir@),
                    0,
                ),
            decreases self.overrides.len() - k,
        {
            k += 1;
        }
        let ghost old_o = self.overrides@;
        let ghost dv = path_view(dir@);
        proof {
            lemma_dir_index(old_o, dv, 0);
        }
        if k < self.overrides.len() {
            self.overrides.set(k, (dir, toolchain));
            assert forall|i: int, j: int|
                0 <= i < j < self.overrides@.len() implies path_view(
                #[trigger] self.overrides@[i].0@,
            ) != path_view(#[trigger] self.overrides@[j].0@) by {
                if i != k && j != k {
                    assert(self.overrides@[i] == old_o[i] && self.overrides@[j] == old_o[j]);
                } else if i == k {
                    assert(self.overrides@[j] == old_o[j]);
                    assert(path_view(old_o[k as int].0@) != path_view(old_o[j].0@));
                } else {
                    assert(self.overrides@[i] == old_o[i]);
                    assert(path_view(old_o[i].0@) != path_view(old_o[k as int].0@));
                }
            }
        } else {
            self.overrides.push((dir, toolchain));
            assert forall|i: int, j: int|
                0 <= i < j < self.overrides@.len() implies path_view(
                #[trigger] self.overrides@[i].0@,
            ) != path_view(#[trigger] self.overrides@[j].0@) by {
                assert(self.overrides@[i] == old_o[i]);
                if j < old_o.len() {
                    assert(self.overrides@[j] == old_o[j]);
                }
            }
        }
    }

    /// The toolchain overridden for the deepest directory that contains
    /// `cwd` (both given by their components), if any.
    pub fn lookup_override(&self, cwd: &Vec<String>) -> (r: Option<String>)
        ensures
            opt_view(r) == match best_override(self.overrides_list(), path_view(cwd@)) {
                Some((d, t)) => Some(t),
                None => None,
            },
    {
        let mut best: Option<(usize, usize)> = None;
        let mut i: usize = 0;
        while i < self.overrides.len()
            invariant
                i <= self.overrides@.len(),
                match best_override(self.overrides@.take(i as int), path_view(cwd@)) {
                    None => best is None,
                    Some((d, t)) => best matches Some((bd, bi)) && bd == d && bi < i
                        && self.overrides@[bi as int].1@ == t,
                },
            decreases self.overrides.len() - i,
        {
            assert(self.overrides@.take(i + 1).drop_last() =~= self.overrides@.take(i as int));
            let dir = &self.overrides[i].0;
            let depth = dir.len();
            if components_prefix(dir, cwd) {
                match best {
                    Some((bd, _)) if bd >= depth => {},
                    _ => {
                        best = Some((depth, i));
                    },
                }
            }
            i += 1;
        }
        assert(self.overrides@.take(self.overrides@.len() as int) =~= self.overrides@);
        match best {
            Some((_, bi)) => Some(self.overrides[bi].1.clone()),
            None => None,
        }
    }
}

/// Whether `cwd` lies in `dir` (`Path::starts_with` on components).
fn components_prefix(dir: &Vec<String>, cwd: &Vec<String>) -> (r: bool)
    ensures
        r == path_starts_with(path_view(cwd@), path_view(dir@)),
{
    if dir.len() > cwd.len() {
        return false;
    }
    let mut i: usize = 0;
    while i < dir.len()
        invariant
            dir@.len() <= cwd@.len(),
            i <= dir@.len(),
            forall|j: int| 0 <= j < i ==> dir@[j]@ == cwd@[j]@,
        decreases dir.len() - i,
    {
        if !str_eq(dir[i].as_str(), cwd[i].as_str()) {
            assert(path_view(cwd@).take(dir@.len() as int)[i as int] != path_view(dir@)[i as int]);
            return false;
        }
        i += 1;
    }
    assert(path_view(cwd@).take(dir@.len() as int) =~= path_view(dir@));
    true
}

/// The override that applies is the one of the deepest overridden directory
/// that contains `cwd`: `None` exactly when no overridden directory contains
/// it, and otherwise the toolchain of an overridden directory that contains
/// it and is at least as deep as every other one that does.
pub proof fn law_override_is_deepest(entries: Seq<(Vec<String>, String)>, cwd: Seq<Seq<char>>)
    ensures
        best_override(entries, cwd) is None <==> forall|i: int|
            0 <= i < entries.len() ==> !path_starts_with(cwd, path_view(#[trigger] entries[i].0@)),
        best_override(entries, cwd) matches Some((d, t)) ==> exists|i: int|
            0 <= i < entries.len() && path_starts_with(cwd, path_view(#[trigger] entries[i].0@))
                && entries[i].0@.len() == d && entries[i].1@ == t && forall|j: int|
                0 <= j < entries.len() && path_starts_with(cwd, path_view(#[trigger] entries[j].0@))
                    ==> entries[j].0@.len() <= d,
    decreases entries.len(),
{
    if entries.len() > 0 {
        let pre = entries.drop_last();
        law_override_is_deepest(pre, cwd);
        let n = entries.len() - 1;
        assert forall|i: int| 0 <= i < n implies entries[i] == pre[i] by {}
        if best_override(entries, cwd) is None {
            assert forall|i: int| 0 <= i < entries.len() implies !path_starts_with(
                cwd,
                path_view(#[trigger] entries[i].0@),
            ) by {
                if i < n {
                    assert(entries[i] == pre[i]);
                }
            }
        }
        if let Some((d, t)) = best_override(entries, cwd) {
            let e = entries.last();
            let prev_depth: int = match best_override(pre, cwd) {
                Some((pd, _)) => pd,
                None => -1,
            };
            if path_starts_with(cwd, path_view(e.0@)) && prev_depth < e.0@.len() {
                assert forall|j: int|
                    0 <= j < entries.len() && path_starts_with(cwd, path_view(#[trigger] entries[j].0@))
                        implies entries[j].0@.len() <= d by {
                    if j < n {
                        assert(entries[j] == pre[j]);
                        assert(path_view(pre[j].0@).len() == pre[j].0@.len());
                    }
                }
                assert(entries[n] == e);
            } else {
                let (pd, pt) = match best_override(pre, cwd) {
                    Some(b) => b,
                    None => (0, Seq::empty()),
                };
                let i = choose|i: int|
                    0 <= i < pre.len() && path_starts_with(cwd, path_view(#[trigger] pre[i].0@))
                        && pre[i].0@.len() == pd && pre[i].1@ == pt && forall|j: int|
                        0 <= j < pre.len() && path_starts_with(cwd, path_view(#[trigger] pre[j].0@))
                            ==> pre[j].0@.len() <= pd;
                assert(entries[i] == pre[i]);
                assert forall|j: int|
                    0 <= j < entries.len() && path_starts_with(cwd, path_view(#[trigger] entries[j].0@))
                        implies entries[j].0@.len() <= d by {
                    if j < n {
                        assert(entries[j] == pre[j]);
                    } else {
                        assert(path_view(e.0@).len() == e.0@.len());
                    }
                }
            }
        }
    }
}

/// The rust module asks for the version exactly when one of its markers
/// (`Cargo.toml`) was found, versions are wanted and the format is a version
/// format; with none of them found it shows nothing.
pub proof fn law_rust_renders_on_its_markers(
    r: Result<ModuleOutput, PromptError>,
    context: ModuleContext,
    format: Seq<char>,
)
    requires
        rust_renders(r, context, format),
    ensures
        version_render(r, some_marker_found(context.detection@, seq!["Cargo.toml"@]), context.no_version, format, "rust"@),
        !some_marker_found(context.detection@, seq!["Cargo.toml"@]) ==> r matches Ok(ModuleOutput::Text(None)),
        some_marker_found(context.detection@, seq!["Cargo.toml"@]) && !context.no_version
            && normalized_version_format(format) is Some ==> r matches Ok(ModuleOutput::Version(_)),
{
    let ms = seq!["Cargo.toml"@];
        assert(ms[0] == "Cargo.toml"@);
        if context.detection@.contains_key("Cargo.toml"@) {
            assert(context.detection@.contains_key(ms[0]));
        }
    if some_marker_found(context.detection@, ms) {
        let i = choose|i: int| 0 <= i < ms.len() && context.detection@.contains_key(#[trigger] ms[i]);
        assert(context.detection@.contains_key(ms[i]));
    }
    let has = some_marker_found(context.detection@, ms);
    law_version_module_cases(r, has, context.no_version, format, "rust"@);
}

} // verus!
