//! The `git` module: the branch of the repository around the working
//! directory, followed by `*` (modified), `+` (staged) and `?` (untracked).
use vstd::prelude::*;
use crate::detector::ModuleContext;
use crate::error::{PromptError, is_invalid_format, invalid_format};
use crate::modules::ModuleOutput;
use crate::text::{chars_of, find_from, lemma_find_from, str_eq, substring, trim, trimmed};

verus! {

/// How much the git module shows.
#[derive(Clone, Copy, Debug, PartialEq, Eq, Structural)]
pub enum GitMode {
    /// The branch and the status markers.
    Full,
    /// The branch only.
    Short,
}

/// A parsed git format.
#[derive(Clone, Copy, Debug, PartialEq, Eq, Structural)]
pub struct GitFormat {
    pub mode: GitMode,
    /// Show nothing unless the repository belongs to the current user.
    pub owned_only: bool,
}

/// The pieces of `s` between the occurrences of `c` (`str::split`), empty
/// pieces included.
pub open spec fn split_parts(s: Seq<char>, c: char) -> Seq<Seq<char>>
    decreases s.len(),
{
    if s.len() == 0 {
        seq![Seq::<char>::empty()]
    } else {
        let p = split_parts(s.drop_last(), c);
        if s.last() == c {
            p.push(Seq::empty())
        } else {
            p.update(p.len() - 1, p.last().push(s.last()))
        }
    }
}

proof fn lemma_split_parts_nonempty(s: Seq<char>, c: char)
    ensures
        split_parts(s, c).len() >= 1,
    decreases s.len(),
{
    if s.len() > 0 {
        lemma_split_parts_nonempty(s.drop_last(), c);
    }
}

/// What one `+`-separated part of a git format asks for.
#[derive(Clone, Copy, Debug, PartialEq, Eq, Structural)]
pub enum GitFormatPart {
    /// An empty part, which is skipped.
    Nothing,
    /// `full`/`f` or `short`/`s`.
    Mode(GitMode),
    /// `owned`, `o`, `owned-only` or `owned_only`.
    Owned,
    /// Anything else.
    Unknown,
}

/// The meaning of one part of a git format.
pub open spec fn git_format_part(p: Seq<char>) -> GitFormatPart {
    if p.len() == 0 {
        GitFormatPart::Nothing
    } else if p == "full"@ || p == "f"@ {
        GitFormatPart::Mode(GitMode::Full)
    } else if p == "short"@ || p == "s"@ {
        GitFormatPart::Mode(GitMode::Short)
    } else if p == "owned"@ || p == "o"@ || p == "owned-only"@ || p == "owned_only"@ {
        GitFormatPart::Owned
    } else {
        GitFormatPart::Unknown
    }
}

/// The mode and owned flag chosen by `parts`, read left to right (a later
/// mode overrides an earlier one); `None` when some part is unknown.
pub open spec fn fold_git_parts(parts: Seq<Seq<char>>) -> Option<(Option<GitMode>, bool)>
    decreases parts.len(),
{
    if parts.len() == 0 {
        Some((None, false))
    } else {
        match fold_git_parts(parts.drop_last()) {
            None => None,
            Some((m, o)) => match git_format_part(parts.last()) {
                GitFormatPart::Nothing => Some((m, o)),
                GitFormatPart::Mode(g) => Some((Some(g), o)),
                GitFormatPart::Owned => Some((m, true)),
                GitFormatPart::Unknown => None,
            },
        }
    }
}

/// The git format that `f` describes: its `+`-separated parts folded, with
/// `Full` as the mode when no part names one.
pub open spec fn git_format_of(f: Seq<char>) -> Option<GitFormat> {
    match fold_git_parts(split_parts(f, '+')) {
        None => None,
        Some((m, o)) => Some(
            GitFormat {
                mode: match m {
                    Some(g) => g,
                    None => GitMode::Full,
                },
                owned_only: o,
            },
        ),
    }
}

/// The formats listed when the git module is given one it does not know.
pub open spec fn git_formats_list() -> Seq<char> {
    "full, f, short, s, +o, +owned"@
}

/// What the part `p` asks for.
pub fn classify_git_part(p: &str) -> (r: GitFormatPart)
    ensures
        r == git_format_part(p@),
{
    if p.unicode_len() == 0 {
        GitFormatPart::Nothing
    } else if str_eq(p, "full") || str_eq(p, "f") {
        GitFormatPart::Mode(GitMode::Full)
    } else if str_eq(p, "short") || str_eq(p, "s") {
        GitFormatPart::Mode(GitMode::Short)
    } else if str_eq(p, "owned") || str_eq(p, "o") || str_eq(p, "owned-only") || str_eq(
        p,
        "owned_only",
    ) {
        GitFormatPart::Owned
    } else {
        GitFormatPart::Unknown
    }
}

/// `parts[i]` names the mode `g`, and no later part names a mode.
pub open spec fn last_mode_at(parts: Seq<Seq<char>>, i: int, g: GitMode) -> bool {
    &&& 0 <= i < parts.len()
    &&& git_format_part(parts[i]) == GitFormatPart::Mode(g)
    &&& forall|k: int| i < k < parts.len() ==> !(#[trigger] git_format_part(parts[k]) is Mode)
}

proof fn lemma_fold_git_parts(parts: Seq<Seq<char>>)
    ensures
        (fold_git_parts(parts) is Some) <==> forall|i: int|
            0 <= i < parts.len() ==> !(#[trigger] git_format_part(parts[i]) is Unknown),
        fold_git_parts(parts) matches Some((m, o)) ==> {
            &&& o <==> exists|i: int|
                0 <= i < parts.len() && #[trigger] git_format_part(parts[i]) is Owned
            &&& forall|g: GitMode| m == Some(g) <==> exists|i: int| #[trigger] last_mode_at(parts, i, g)
        },
    decreases parts.len(),
{
    if parts.len() > 0 {
        let p = parts.drop_last();
        lemma_fold_git_parts(p);
        let n = parts.len() - 1;
        let x = git_format_part(parts[n]);
        assert forall|i: int| 0 <= i < n implies parts[i] == p[i] by {}
        if fold_git_parts(p) is None {
            let i0 = choose|i: int| 0 <= i < p.len() && #[trigger] git_format_part(p[i]) is Unknown;
            assert(git_format_part(parts[i0]) is Unknown);
        } else if x is Unknown {
        } else {
            let (m, o) = fold_git_parts(p)->0;
            assert forall|i: int| 0 <= i < parts.len() implies !(#[trigger] git_format_part(
                parts[i],
            ) is Unknown) by {
                if i < n {
                    assert(parts[i] == p[i]);
                }
            }
            let (m2, o2) = fold_git_parts(parts)->0;
            if o2 {
                if x is Owned {
                    assert(git_format_part(parts[n]) is Owned);
                } else {
                    let i0 = choose|i: int| 0 <= i < p.len() && #[trigger] git_format_part(p[i]) is Owned;
                    assert(git_format_part(parts[i0]) is Owned);
                }
            } else {
                assert forall|i: int| 0 <= i < parts.len() implies !(#[trigger] git_format_part(
                    parts[i],
                ) is Owned) by {
                    if i < n {
                        assert(parts[i] == p[i]);
                    }
                }
            }
            assert forall|g: GitMode| m2 == Some(g) <==> exists|i: int| #[trigger] last_mode_at(parts, i, g) by {
                if x is Mode {
                    if m2 == Some(g) {
                        assert(last_mode_at(parts, n, g));
                    }
                    if exists|i: int| #[trigger] last_mode_at(parts, i, g) {
                        let i0 = choose|i: int| #[trigger] last_mode_at(parts, i, g);
                        if i0 < n {
                            assert(git_format_part(parts[n]) is Mode);
                        }
                    }
                } else {
                    if m2 == Some(g) {
                        let i0 = choose|i: int| #[trigger] last_mode_at(p, i, g);
                        assert forall|k: int| i0 < k < parts.len() implies !(#[trigger] git_format_part(
                            parts[k],
                        ) is Mode) by {
                            if k < n {
                                assert(parts[k] == p[k]);
                            }
                        }
                        assert(last_mode_at(parts, i0, g));
                    }
                    if exists|i: int| #[trigger] last_mode_at(parts, i, g) {
                        let i0 = choose|i: int| #[trigger] last_mode_at(parts, i, g);
                        assert(i0 < n);
                        assert forall|k: int| i0 < k < p.len() implies !(#[trigger] git_format_part(
                            p[k],
                        ) is Mode) by {
                            assert(parts[k] == p[k]);
                            assert(!(git_format_part(parts[k]) is Mode));
                        }
                        assert(last_mode_at(p, i0, g));
                    }
                }
            }
        }
    }
}

/// What a git format asks for, read from its `+`-separated parts: it is
/// valid exactly when every part is empty, a mode or the owned flag; the mode
/// is the one named by the last part that names one (`Full` when none does);
/// and only owned repositories are shown exactly when some part asks so.
pub proof fn law_git_format_closed_form(f: Seq<char>)
    ensures
        (git_format_of(f) is Some) <==> forall|i: int|
            0 <= i < split_parts(f, '+').len() ==> !(#[trigger] git_format_part(
                split_parts(f, '+')[i],
            ) is Unknown),
        git_format_of(f) matches Some(g) ==> {
            &&& g.owned_only <==> exists|i: int|
                0 <= i < split_parts(f, '+').len() && #[trigger] git_format_part(
                    split_parts(f, '+')[i],
                ) is Owned
            &&& g.mode == GitMode::Short <==> exists|i: int|
                #[trigger] last_mode_at(split_parts(f, '+'), i, GitMode::Short)
        },
{
    let parts = split_parts(f, '+');
    lemma_fold_git_parts(parts);
    if fold_git_parts(parts) is Some {
        let m = (fold_git_parts(parts)->0).0;
        if m is None {
            if exists|i: int| #[trigger] last_mode_at(parts, i, GitMode::Short) {
                assert(m == Some(GitMode::Short));
            }
        }
    }
}

/// Parses a git format such as `"full+owned"` or `"s+o"`.
pub fn parse_git_format(format: &str) -> (r: Result<GitFormat, PromptError>)
    ensures
        match r {
            Ok(g) => git_format_of(format@) == Some(g),
            Err(e) => git_format_of(format@) is None && is_invalid_format(
                e,
                "git"@,
                format@,
                git_formats_list(),
            ),
        },
{
    let cs = chars_of(format);
    let n = cs.len();
    let mut mode: Option<GitMode> = None;
    let mut owned_only = false;
    let mut start: usize = 0;
    let mut i: usize = 0;
    let ghost mut done: Seq<Seq<char>> = Seq::empty();
    assert(format@.take(0) =~= Seq::<char>::empty());
    assert(format@.subrange(0, 0) =~= Seq::<char>::empty());
    assert(split_parts(Seq::<char>::empty(), '+') =~= done.push(format@.subrange(0, 0)));
    while i < n
        invariant
            n == format@.len(),
            cs@ == format@,
            start <= i <= n,
            split_parts(format@.take(i as int), '+') == done.push(
                format@.subrange(start as int, i as int),
            ),
            fold_git_parts(done) == Some((mode, owned_only)),
        decreases n - i,
    {
        let c = cs[i];
        let ghost prev = format@.take(i as int);
        assert(format@.take(i + 1).drop_last() =~= prev);
        if c == '+' {
            let part = substring(format, start, i);
            let kind = classify_git_part(part.as_str());
            proof {
                let d2 = done.push(format@.subrange(start as int, i as int));
                assert(d2.drop_last() =~= done);
                done = d2;
            }
            match kind {
                GitFormatPart::Nothing => {},
                GitFormatPart::Mode(g) => {
                    mode = Some(g);
                },
                GitFormatPart::Owned => {
                    owned_only = true;
                },
                GitFormatPart::Unknown => {
                    proof {
                        let sp = split_parts(format@.take(i + 1), '+');
                        assert(format@.take(i + 1).last() == '+');
                        assert(sp == split_parts(prev, '+').push(Seq::empty()));
                        assert(sp.take(done.len() as int) =~= done);
                        lemma_fold_none_stays(format@, done, i as int + 1);
                    }
                    return Err(invalid_format("git", format, "full, f, short, s, +o, +owned"));
                },
            }
            start = i + 1;
            assert(format@.subrange(start as int, start as int) =~= Seq::<char>::empty());
        } else {
            proof {
                lemma_split_parts_nonempty(prev, '+');
                assert(format@.subrange(start as int, i as int).push(c) =~= format@.subrange(
                    start as int,
                    i + 1,
                ));
            }
        }
        i += 1;
    }
    assert(format@.take(n as int) =~= format@);
    let part = substring(format, start, n);
    let kind = classify_git_part(part.as_str());
    let ghost all = done.push(format@.subrange(start as int, n as int));
    assert(all.drop_last() =~= done);
    match kind {
        GitFormatPart::Nothing => {},
        GitFormatPart::Mode(g) => {
            mode = Some(g);
        },
        GitFormatPart::Owned => {
            owned_only = true;
        },
        GitFormatPart::Unknown => {
            return Err(invalid_format("git", format, "full, f, short, s, +o, +owned"));
        },
    }
    let mode = match mode {
        Some(g) => g,
        None => GitMode::Full,
    };
    Ok(GitFormat { mode, owned_only })
}

/// Once a prefix of the format holds an unknown part, the whole format is refused.
proof fn lemma_fold_none_stays(f: Seq<char>, done: Seq<Seq<char>>, j: int)
    requires
        0 <= j <= f.len(),
        fold_git_parts(done) is None,
        split_parts(f.take(j), '+').take(done.len() as int) == done,
        done.len() < split_parts(f.take(j), '+').len(),
    ensures
        git_format_of(f) is None,
    decreases f.len() - j,
{
    if j == f.len() {
        assert(f.take(j) =~= f);
        lemma_fold_prefix_none(split_parts(f, '+'), done.len() as int);
    } else {
        let p = split_parts(f.take(j), '+');
        assert(f.take(j + 1).drop_last() =~= f.take(j));
        lemma_split_parts_nonempty(f.take(j), '+');
        let p2 = split_parts(f.take(j + 1), '+');
        assert(p2.take(done.len() as int) =~= p.take(done.len() as int));
        lemma_fold_none_stays(f, done, j + 1);
    }
}

/// Folding stays refused once a prefix of the parts is refused.
proof fn lemma_fold_prefix_none(parts: Seq<Seq<char>>, k: int)
    requires
        0 <= k <= parts.len(),
        fold_git_parts(parts.take(k)) is None,
    ensures
        fold_git_parts(parts) is None,
    decreases parts.len() - k,
{
    if k < parts.len() {
        assert(parts.take(k + 1).drop_last() =~= parts.take(k));
        lemma_fold_prefix_none(parts, k + 1);
    } else {
        assert(parts.take(k) =~= parts);
    }
}

/// Which kinds of change a repository has.
#[derive(Clone, Copy, Debug, PartialEq, Eq, Structural)]
pub struct GitStatus {
    pub modified: bool,
    pub staged: bool,
    pub untracked: bool,
}

impl GitStatus {
    /// No change of any kind.
    pub fn empty() -> (s: Self)
        ensures
            !s.modified && !s.staged && !s.untracked,
    {
        GitStatus { modified: false, staged: false, untracked: false }
    }

    /// Whether every kind of change has been seen already.
    pub fn is_complete(&self) -> (r: bool)
        ensures
            r == (self.modified && self.staged && self.untracked),
    {
        self.modified && self.staged && self.untracked
    }
}

/// The index of the next `\n` at or after `st`, or the length of `s`.
pub open spec fn line_end(s: Seq<u8>, st: int) -> int {
    find_from(s, 10u8, st)
}

/// A line of `s` begins at `st`: `st` is 0 or follows a `\n`, and the line is
/// not the empty remainder after a final `\n` (`str::lines`).
pub open spec fn is_line_start(s: Seq<u8>, st: int) -> bool {
    &&& 0 <= st <= s.len()
    &&& (st == 0 || s[st - 1] == 10u8)
    &&& (line_end(s, st) < s.len() || st < s.len())
}

/// The line of `s` that begins at `st`, without its `\n` or `\r\n`.
pub open spec fn line_at(s: Seq<u8>, st: int) -> Seq<u8> {
    let e = line_end(s, st);
    let raw = s.subrange(st, e);
    if e < s.len() && raw.len() > 0 && raw.last() == 13u8 {
        raw.drop_last()
    } else {
        raw
    }
}

/// A porcelain line that reports an untracked file: it starts with `??`.
pub open spec fn untracked_line(l: Seq<u8>) -> bool {
    l.len() >= 2 && l[0] == 63u8 && l[1] == 63u8
}

/// A porcelain line whose first (index) column reports a change.
pub open spec fn staged_line(l: Seq<u8>) -> bool {
    !untracked_line(l) && l.len() >= 2 && l[0] != 32u8 && l[0] != 63u8
}

/// A porcelain line whose second (worktree) column reports a change.
pub open spec fn modified_line(l: Seq<u8>) -> bool {
    !untracked_line(l) && l.len() >= 2 && l[1] != 32u8 && l[1] != 63u8
}

/// Some line of `s` that begins before `hi` has the property `which`
/// (0: untracked, 1: staged, 2: modified).
pub open spec fn some_line_before(s: Seq<u8>, hi: int, which: int) -> bool {
    exists|st: int| 0 <= st < hi && is_line_start(s, st) && #[trigger] line_has(s, st, which)
}

/// The line at `st` has the property `which`.
pub open spec fn line_has(s: Seq<u8>, st: int, which: int) -> bool {
    if which == 0 {
        untracked_line(line_at(s, st))
    } else if which == 1 {
        staged_line(line_at(s, st))
    } else {
        modified_line(line_at(s, st))
    }
}

/// The status that `git status --porcelain=v1` output `s` reports: a kind of
/// change is present when some line reports it.
pub open spec fn porcelain_status(s: Seq<u8>) -> GitStatus {
    GitStatus {
        untracked: some_line_before(s, s.len() as int + 1, 0),
        staged: some_line_before(s, s.len() as int + 1, 1),
        modified: some_line_before(s, s.len() as int + 1, 2),
    }
}

proof fn lemma_some_line_step(s: Seq<u8>, st: int, which: int)
    requires
        0 <= st < s.len(),
        st == 0 || s[st - 1] == 10u8,
    ensures
        some_line_before(s, line_end(s, st) + 1, which) == (some_line_before(s, st, which)
            || line_has(s, st, which)),
        is_line_start(s, st),
{
    lemma_find_from(s, 10u8, st);
    let e = line_end(s, st);
    if some_line_before(s, e + 1, which) {
        let x = choose|x: int|
            0 <= x < e + 1 && is_line_start(s, x) && #[trigger] line_has(s, x, which);
        if x > st {
            assert(s[x - 1] != 10u8);
        }
    }
    if some_line_before(s, st, which) {
        let x = choose|x: int| 0 <= x < st && is_line_start(s, x) && #[trigger] line_has(s, x, which);
        assert(0 <= x < e + 1);
    }
    if line_has(s, st, which) {
        assert(0 <= st < e + 1);
    }
}

proof fn lemma_no_line_at_end(s: Seq<u8>, hi: int, which: int)
    requires
        hi == s.len() || hi == s.len() + 1,
    ensures
        some_line_before(s, hi, which) == some_line_before(s, s.len() as int + 1, which),
{
    lemma_find_from(s, 10u8, s.len() as int);
    if some_line_before(s, s.len() as int + 1, which) {
        let x = choose|x: int|
            0 <= x < s.len() + 1 && is_line_start(s, x) && #[trigger] line_has(s, x, which);
        assert(x < s.len());
        assert(0 <= x < hi);
    }
}

/// The union of two statuses: each kind of change present in either.
pub open spec fn status_union(x: GitStatus, y: GitStatus) -> GitStatus {
    GitStatus {
        modified: x.modified || y.modified,
        staged: x.staged || y.staged,
        untracked: x.untracked || y.untracked,
    }
}

proof fn lemma_find_in_front(a: Seq<u8>, b: Seq<u8>, st: int)
    requires
        0 <= st < a.len(),
        a.last() == 10u8,
    ensures
        find_from(a + b, 10u8, st) == find_from(a, 10u8, st),
        find_from(a, 10u8, st) < a.len(),
    decreases a.len() - st,
{
    if a[st] != 10u8 {
        lemma_find_in_front(a, b, st + 1);
    }
}

proof fn lemma_find_in_back(a: Seq<u8>, b: Seq<u8>, st: int)
    requires
        a.len() <= st <= a.len() + b.len(),
    ensures
        find_from(a + b, 10u8, st) == a.len() + find_from(b, 10u8, st - a.len()),
    decreases a.len() + b.len() - st,
{
    if st < a.len() + b.len() && (a + b)[st] != 10u8 {
        lemma_find_in_back(a, b, st + 1);
    }
}

proof fn lemma_lines_of_concat(a: Seq<u8>, b: Seq<u8>, which: int)
    requires
        a.len() == 0 || a.last() == 10u8,
    ensures
        some_line_before(a + b, (a + b).len() as int + 1, which) == (some_line_before(a, a.len() as int + 1, which)
            || some_line_before(b, b.len() as int + 1, which)),
{
    let s = a + b;
    let n = a.len() as int;
    if some_line_before(s, s.len() as int + 1, which) {
        let st = choose|st: int|
            0 <= st < s.len() + 1 && is_line_start(s, st) && #[trigger] line_has(s, st, which);
        if st < n {
            lemma_find_in_front(a, b, st);
            lemma_find_from(a, 10u8, st);
            let e = find_from(a, 10u8, st);
            assert(s.subrange(st, e) =~= a.subrange(st, e));
            assert(line_at(s, st) =~= line_at(a, st));
            assert(is_line_start(a, st));
            assert(line_has(a, st, which));
        } else {
            lemma_find_in_back(a, b, st);
            let sb = st - n;
            lemma_find_from(b, 10u8, sb);
            let e = find_from(b, 10u8, sb);
            assert(s.subrange(st, e + n) =~= b.subrange(sb, e));
            assert(line_at(s, st) =~= line_at(b, sb));
            if sb > 0 {
                assert(b[sb - 1] == s[st - 1]);
            }
            assert(is_line_start(b, sb));
            assert(line_has(b, sb, which));
        }
    }
    if some_line_before(a, a.len() as int + 1, which) {
        let st = choose|st: int|
            0 <= st < a.len() + 1 && is_line_start(a, st) && #[trigger] line_has(a, st, which);
        lemma_find_from(a, 10u8, st);
        if st == n {
            assert(false);
        }
        lemma_find_in_front(a, b, st);
        let e = find_from(a, 10u8, st);
        assert(s.subrange(st, e) =~= a.subrange(st, e));
        assert(line_at(s, st) =~= line_at(a, st));
        if st > 0 {
            assert(s[st - 1] == a[st - 1]);
        }
        assert(is_line_start(s, st));
        assert(line_has(s, st, which));
    }
    if some_line_before(b, b.len() as int + 1, which) {
        let sb = choose|st: int|
            0 <= st < b.len() + 1 && is_line_start(b, st) && #[trigger] line_has(b, st, which);
        let st = sb + n;
        lemma_find_in_back(a, b, st);
        lemma_find_from(b, 10u8, sb);
        let e = find_from(b, 10u8, sb);
        assert(s.subrange(st, e + n) =~= b.subrange(sb, e));
        assert(line_at(s, st) =~= line_at(b, sb));
        if st > 0 {
            if sb > 0 {
                assert(s[st - 1] == b[sb - 1]);
            } else {
                assert(s[st - 1] == a.last());
            }
        }
        assert(is_line_start(s, st));
        assert(line_has(s, st, which));
    }
}

/// Each line of `git status` output counts on its own: the status of two
/// outputs put one after the other (the first ending with a line break) is
/// the union of their statuses.
pub proof fn law_porcelain_lines_are_independent(a: Seq<u8>, b: Seq<u8>)
    requires
        a.len() == 0 || a.last() == 10u8,
    ensures
        porcelain_status(a + b) == status_union(porcelain_status(a), porcelain_status(b)),
{
    lemma_lines_of_concat(a, b, 0);
    lemma_lines_of_concat(a, b, 1);
    lemma_lines_of_concat(a, b, 2);
}

/// The index of the next `\n` in `s` at or after `st`, or `s.len()`.
fn find_newline(s: &[u8], st: usize) -> (e: usize)
    requires
        st <= s@.len(),
    ensures
        e == line_end(s@, st as int),
        st <= e <= s@.len(),
{
    let mut k = st;
    while k < s.len() && s[k] != 10u8
        invariant
            st <= k <= s@.len(),
            find_from(s@, 10u8, k as int) == find_from(s@, 10u8, st as int),
        decreases s.len() - k,
    {
        k += 1;
    }
    k
}

/// The status reported by the output of `git status --porcelain=v1
/// --untracked-files=normal` (the bytes of its text).
pub fn parse_porcelain_status(out: &[u8]) -> (r: GitStatus)
    ensures
        r == porcelain_status(out@),
{
    let n = out.len();
    let mut status = GitStatus::empty();
    let mut st: usize = 0;
    let mut ended = false;
    while !ended && st < n
        invariant
            n == out@.len(),
            st <= n,
            !ended ==> (st == 0 || out@[st - 1] == 10u8),
            status.untracked == some_line_before(out@, if ended { n + 1 } else { st as int }, 0),
            status.staged == some_line_before(out@, if ended { n + 1 } else { st as int }, 1),
            status.modified == some_line_before(out@, if ended { n + 1 } else { st as int }, 2),
        decreases n + 1 - st - (if ended { 1int } else { 0 }),
    {
        let e = find_newline(out, st);
        let mut end = e;
        if e < n && e > st && out[e - 1] == 13u8 {
            end = e - 1;
        }
        let ghost l = line_at(out@, st as int);
        assert(l =~= out@.subrange(st as int, end as int));
        let len = end - st;
        let untracked = len >= 2 && out[st] == 63u8 && out[st + 1] == 63u8;
        if untracked {
            status.untracked = true;
        } else if len >= 2 {
            if out[st] != 32u8 && out[st] != 63u8 {
                status.staged = true;
            }
            if out[st + 1] != 32u8 && out[st + 1] != 63u8 {
                status.modified = true;
            }
        }
        proof {
            lemma_some_line_step(out@, st as int, 0);
            lemma_some_line_step(out@, st as int, 1);
            lemma_some_line_step(out@, st as int, 2);
            lemma_find_from(out@, 10u8, st as int);
        }
        if e < n {
            st = e + 1;
        } else {
            st = n;
            ended = true;
        }
    }
    let ghost hi: int = if ended { n + 1 } else { st as int };
    proof {
        lemma_no_line_at_end(out@, hi, 0);
        lemma_no_line_at_end(out@, hi, 1);
        lemma_no_line_at_end(out@, hi, 2);
    }
    status
}

/// A kind of change that the status of a work tree against its index
/// reports (what `gix` calls an index-worktree summary).
#[derive(Clone, Copy, Debug, PartialEq, Eq, Structural)]
pub enum WorktreeSummary {
    Added,
    IntentToAdd,
    Conflict,
    Copied,
    Modified,
    Removed,
    Renamed,
    TypeChange,
}

/// One item of a repository status walk.
#[derive(Clone, Copy, Debug, PartialEq, Eq, Structural)]
pub enum StatusItem {
    /// A difference between the index and the work tree, with its summary
    /// when it has one.
    IndexWorktree(Option<WorktreeSummary>),
    /// A difference between `HEAD` and the index.
    TreeIndex,
}

/// The status after `item` is taken into account.
pub open spec fn status_with(s: GitStatus, item: StatusItem) -> GitStatus {
    match item {
        StatusItem::IndexWorktree(None) => s,
        StatusItem::IndexWorktree(Some(WorktreeSummary::Added)) => GitStatus { untracked: true, ..s },
        StatusItem::IndexWorktree(Some(WorktreeSummary::IntentToAdd)) => GitStatus {
            staged: true,
            ..s
        },
        StatusItem::IndexWorktree(Some(_)) => GitStatus { modified: true, ..s },
        StatusItem::TreeIndex => GitStatus { staged: true, ..s },
    }
}

/// Taking a status item into account only ever sets flags, and sets the
/// one its kind calls for: a conflicted, copied, modified, removed, renamed
/// or type-changed file sets `modified`; an added (untracked) file sets
/// `untracked`; a file added with intent, or a difference between `HEAD` and
/// the index, sets `staged`; an item without a summary changes nothing. No
/// other flag is set.
pub proof fn law_status_item_flags(s: GitStatus, item: StatusItem)
    ensures
        s.modified ==> status_with(s, item).modified,
        s.staged ==> status_with(s, item).staged,
        s.untracked ==> status_with(s, item).untracked,
        item == StatusItem::IndexWorktree(Some(WorktreeSummary::Conflict))
            || item == StatusItem::IndexWorktree(Some(WorktreeSummary::Copied))
            || item == StatusItem::IndexWorktree(Some(WorktreeSummary::Modified))
            || item == StatusItem::IndexWorktree(Some(WorktreeSummary::Removed))
            || item == StatusItem::IndexWorktree(Some(WorktreeSummary::Renamed))
            || item == StatusItem::IndexWorktree(Some(WorktreeSummary::TypeChange))
            ==> status_with(s, item) == (GitStatus { modified: true, ..s }),
        item == StatusItem::IndexWorktree(Some(WorktreeSummary::Added)) ==> status_with(s, item) == (
        GitStatus { untracked: true, ..s }),
        item == StatusItem::IndexWorktree(Some(WorktreeSummary::IntentToAdd)) || item == StatusItem::TreeIndex
            ==> status_with(s, item) == (GitStatus { staged: true, ..s }),
        item == StatusItem::IndexWorktree(None) ==> status_with(s, item) == s,
{
}

impl GitStatus {
    /// Takes one status item into account.
    pub fn absorb(&mut self, item: StatusItem)
        ensures
            *final(self) == status_with(*old(self), item),
    {
        match item {
            StatusItem::IndexWorktree(None) => {},
            StatusItem::IndexWorktree(Some(WorktreeSummary::Added)) => {
                self.untracked = true;
            },
            StatusItem::IndexWorktree(Some(WorktreeSummary::IntentToAdd)) => {
                self.staged = true;
            },
            StatusItem::IndexWorktree(Some(_)) => {
                self.modified = true;
            },
            StatusItem::TreeIndex => {
                self.staged = true;
            },
        }
    }
}

/// The status of a repository, as the git module shows it.
pub struct GitInfo {
    pub branch: String,
    pub has_changes: bool,
    pub has_staged: bool,
    pub has_untracked: bool,
}

impl GitInfo {
    /// The information about a repository on `branch` with `status`.
    pub fn new(branch: String, status: GitStatus) -> (i: Self)
        ensures
            i.branch == branch,
            i.has_changes == status.modified,
            i.has_staged == status.staged,
            i.has_untracked == status.untracked,
    {
        GitInfo {
            branch,
            has_changes: status.modified,
            has_staged: status.staged,
            has_untracked: status.untracked,
        }
    }
}

/// `c` when `b` holds, nothing otherwise.
pub open spec fn marker_if(b: bool, c: char) -> Seq<char> {
    if b {
        seq![c]
    } else {
        Seq::empty()
    }
}

/// The text of the git module: the branch, then in `Full` mode `*` for
/// changes, `+` for staged changes and `?` for untracked files.
pub open spec fn git_text(mode: GitMode, branch: Seq<char>, changes: bool, staged: bool, untracked: bool) -> Seq<char> {
    match mode {
        GitMode::Short => branch,
        GitMode::Full => branch + marker_if(changes, '*') + marker_if(staged, '+') + marker_if(
            untracked,
            '?',
        ),
    }
}

/// What the git module shows for a repository described by `info`.
pub fn format_git_info(mode: GitMode, info: &GitInfo) -> (r: String)
    ensures
        r@ == git_text(mode, info.branch@, info.has_changes, info.has_staged, info.has_untracked),
{
    let mut result = info.branch.clone();
    match mode {
        GitMode::Short => {},
        GitMode::Full => {
            proof {
                reveal_strlit("*");
                reveal_strlit("+");
                reveal_strlit("?");
            }
            let ghost b = result@;
            if info.has_changes {
                result.append("*");
            }
            assert(result@ =~= b + marker_if(info.has_changes, '*'));
            let ghost b1 = result@;
            if info.has_staged {
                result.append("+");
            }
            assert(result@ =~= b1 + marker_if(info.has_staged, '+'));
            let ghost b2 = result@;
            if info.has_untracked {
                result.append("?");
            }
            assert(result@ =~= b2 + marker_if(info.has_untracked, '?'));
        },
    }
    result
}

/// The value printed by a successful `git` command: its output trimmed,
/// or nothing when that is empty.
pub fn git_output_value(stdout: &str) -> (r: Option<String>)
    ensures
        match r {
            Some(v) => v@ == trim(stdout@) && v@.len() > 0,
            None => trim(stdout@).len() == 0,
        },
{
    let value = trimmed(stdout);
    if value.as_str().unicode_len() == 0 {
        None
    } else {
        Some(value)
    }
}

/// What the git module needs looked up: the repository whose `.git` was
/// found at `git_dir`, to be shown in `format`.
#[derive(Debug)]
pub struct GitRequest {
    pub git_dir: String,
    pub format: GitFormat,
}

/// What the git module renders in `context` for `format`: the format error
/// when `format` is not a git format (whether or not there is a
/// repository), nothing when no `.git` was found, and otherwise a request
/// for the repository whose `.git` was found.
pub open spec fn git_renders(r: Result<ModuleOutput, PromptError>, context: ModuleContext, format: Seq<char>) -> bool {
    match git_format_of(format) {
        None => r matches Err(e) && is_invalid_format(e, "git"@, format, git_formats_list()),
        Some(g) => if context.detection@.contains_key(".git"@) {
            r matches Ok(ModuleOutput::Git(q)) && q.format == g && q.git_dir@ == context.detection@[".git"@]
        } else {
            r matches Ok(ModuleOutput::Text(None))
        },
    }
}

/// What the memo holds for one repository: its branch and its three flags.
pub open spec fn info_view(i: GitInfo) -> (Seq<char>, bool, bool, bool) {
    (i.branch@, i.has_changes, i.has_staged, i.has_untracked)
}

/// The first entry of `entries`, from index `i` on, for the root `root`.
pub open spec fn memo_lookup(entries: Seq<(String, GitInfo)>, root: Seq<char>, i: int) -> Option<
    (Seq<char>, bool, bool, bool),
>
    decreases entries.len() - i,
{
    if i < 0 || i >= entries.len() {
        None
    } else if entries[i].0@ == root {
        Some(info_view(entries[i].1))
    } else {
        memo_lookup(entries, root, i + 1)
    }
}

proof fn lemma_memo_lookup_shift(
    old_e: Seq<(String, GitInfo)>,
    new_e: Seq<(String, GitInfo)>,
    root: Seq<char>,
    i: int,
)
    requires
        0 <= i <= old_e.len(),
        new_e.len() == old_e.len() + 1,
        forall|j: int| 0 <= j < old_e.len() ==> #[trigger] new_e[j + 1] == old_e[j],
    ensures
        memo_lookup(new_e, root, i + 1) == memo_lookup(old_e, root, i),
    decreases old_e.len() - i,
{
    if i < old_e.len() {
        assert(new_e[i + 1] == old_e[i]);
        lemma_memo_lookup_shift(old_e, new_e, root, i + 1);
    }
}

/// The repositories already looked up during one rendering, by root.
pub struct GitMemo {
    entries: Vec<(String, GitInfo)>,
}

impl View for GitMemo {
    type V = Map<Seq<char>, (Seq<char>, bool, bool, bool)>;

    closed spec fn view(&self) -> Map<Seq<char>, (Seq<char>, bool, bool, bool)> {
        Map::new(
            |r: Seq<char>| memo_lookup(self.entries@, r, 0) is Some,
            |r: Seq<char>| memo_lookup(self.entries@, r, 0)->0,
        )
    }
}

impl GitMemo {
    /// A memo with no repository.
    pub fn new() -> (m: Self)
        ensures
            m@ == Map::<Seq<char>, (Seq<char>, bool, bool, bool)>::empty(),
    {
        let m = GitMemo { entries: Vec::new() };
        assert(m@ =~= Map::<Seq<char>, (Seq<char>, bool, bool, bool)>::empty());
        m
    }

    /// What was recorded for the repository at `root`.
    pub fn get(&self, root: &str) -> (r: Option<&GitInfo>)
        ensures
            match r {
                Some(i) => self@.contains_key(root@) && self@[root@] == info_view(*i),
                None => !self@.contains_key(root@),
            },
    {
        let mut i: usize = 0;
        while i < self.entries.len()
            invariant
                i <= self.entries@.len(),
                memo_lookup(self.entries@, root@, i as int) == memo_lookup(self.entries@, root@, 0),
            decreases self.entries.len() - i,
        {
            if str_eq(self.entries[i].0.as_str(), root) {
                return Some(&self.entries[i].1);
            }
            i += 1;
        }
        None
    }

    /// Records `info` for the repository at `root`, in place of what was
    /// recorded for it before.
    pub fn insert(&mut self, root: &str, info: GitInfo)
        ensures
            final(self)@ == old(self)@.insert(root@, info_view(info)),
    {
        let ghost old_e = self.entries@;
        let ghost v = info_view(info);
        self.entries.insert(0, (String::from_str(root), info));
        proof {
            let new_e = self.entries@;
            assert forall|j: int| 0 <= j < old_e.len() implies #[trigger] new_e[j + 1] == old_e[j] by {}
            assert forall|r: Seq<char>| r != root@ implies memo_lookup(new_e, r, 0) == memo_lookup(
                old_e,
                r,
                0,
            ) by {
                lemma_memo_lookup_shift(old_e, new_e, r, 0);
            }
            assert(memo_lookup(new_e, root@, 0) == Some(v));
            assert(self@ =~= old(self)@.insert(root@, v));
        }
    }
}

/// The next step of the git module for a request.
pub enum GitStep {
    /// Show nothing.
    Nothing,
    /// Show this text.
    Show(String),
    /// Look up the branch of the repository at `root`, and its status when
    /// `need_status` holds, then finish with `finish_git_lookup`.
    LookUp { root: String, need_status: bool },
}

/// The next step for `format` on the repository at `root` (none when the
/// `.git` found has no parent), where `owned` tells whether the current user
/// owns that repository and `memo` is what was already looked up: nothing
/// without a root, or for a repository of another user when only owned ones
/// are shown; the remembered text when the repository was looked up already;
/// otherwise a look-up, with the status only in `Full` mode.
pub open spec fn git_step_is(
    s: GitStep,
    format: GitFormat,
    root: Option<Seq<char>>,
    owned: bool,
    memo: Map<Seq<char>, (Seq<char>, bool, bool, bool)>,
) -> bool {
    match root {
        None => s is Nothing,
        Some(r) => if format.owned_only && !owned {
            s is Nothing
        } else if memo.contains_key(r) {
            s matches GitStep::Show(t) && t@ == git_text(
                format.mode,
                memo[r].0,
                memo[r].1,
                memo[r].2,
                memo[r].3,
            )
        } else {
            s matches GitStep::LookUp { root: q, need_status } && q@ == r && need_status == (
            format.mode == GitMode::Full)
        },
    }
}

/// The next step for `format` on the repository at `root`; `owned` is
/// consulted only when `format` shows owned repositories only.
pub fn git_step(format: GitFormat, root: Option<&str>, owned: bool, memo: &GitMemo) -> (s: GitStep)
    ensures
        git_step_is(
            s,
            format,
            match root {
                Some(r) => Some(r@),
                None => None,
            },
            owned,
            memo@,
        ),
{
    let r = match root {
        None => {
            return GitStep::Nothing;
        },
        Some(r) => r,
    };
    if format.owned_only && !owned {
        return GitStep::Nothing;
    }
    match memo.get(r) {
        Some(info) => GitStep::Show(format_git_info(format.mode, info)),
        None => {
            let need_status = match format.mode {
                GitMode::Full => true,
                GitMode::Short => false,
            };
            GitStep::LookUp { root: String::from_str(r), need_status }
        },
    }
}

/// Finishes a look-up of the repository at `root`, whose branch is `branch`
/// and status `status`: records them in `memo` and gives the text for `mode`.
pub fn finish_git_lookup(
    mode: GitMode,
    root: &str,
    branch: String,
    status: GitStatus,
    memo: &mut GitMemo,
) -> (r: String)
    ensures
        r@ == git_text(mode, branch@, status.modified, status.staged, status.untracked),
        final(memo)@ == old(memo)@.insert(
            root@,
            (branch@, status.modified, status.staged, status.untracked),
        ),
{
    let info = GitInfo::new(branch, status);
    let text = format_git_info(mode, &info);
    memo.insert(root, info);
    text
}

/// The status marks shown after the branch in `Full` mode.
pub open spec fn status_marks(changes: bool, staged: bool, untracked: bool) -> Seq<char> {
    marker_if(changes, '*') + marker_if(staged, '+') + marker_if(untracked, '?')
}

/// The full text of a repository is its short text followed by its status
/// marks, in the order `*`, `+`, `?`.
pub proof fn law_full_is_short_plus_marks(branch: Seq<char>, changes: bool, staged: bool, untracked: bool)
    ensures
        git_text(GitMode::Full, branch, changes, staged, untracked) == git_text(
            GitMode::Short,
            branch,
            changes,
            staged,
            untracked,
        ) + status_marks(changes, staged, untracked),
{
    assert(git_text(GitMode::Full, branch, changes, staged, untracked) =~= branch + status_marks(
        changes,
        staged,
        untracked,
    ));
}

/// After a full look-up of a repository, a short render of the same
/// repository (with nothing hiding it) shows the full text without its
/// status marks.
pub proof fn law_short_after_full(
    memo: Map<Seq<char>, (Seq<char>, bool, bool, bool)>,
    root: Seq<char>,
    branch: Seq<char>,
    status: GitStatus,
    s: GitStep,
    owned: bool,
)
    requires
        git_step_is(
            s,
            GitFormat { mode: GitMode::Short, owned_only: false },
            Some(root),
            owned,
            memo.insert(root, (branch, status.modified, status.staged, status.untracked)),
        ),
    ensures
        s matches GitStep::Show(t) && git_text(
            GitMode::Full,
            branch,
            status.modified,
            status.staged,
            status.untracked,
        ) == t@ + status_marks(status.modified, status.staged, status.untracked),
{
    law_full_is_short_plus_marks(branch, status.modified, status.staged, status.untracked);
}

/// On a repository that the current user does not own, a format that shows
/// owned repositories only shows nothing, whatever was looked up before.
pub proof fn law_unowned_shows_nothing(
    format: GitFormat,
    root: Seq<char>,
    memo: Map<Seq<char>, (Seq<char>, bool, bool, bool)>,
    s: GitStep,
)
    requires
        format.owned_only,
        git_step_is(s, format, Some(root), false, memo),
    ensures
        s is Nothing,
{
}

/// The repository module.
pub struct GitModule;

impl GitModule {
    pub fn new() -> Self {
        GitModule
    }

    /// The markers whose presence this module looks for.
    pub fn fs_markers(&self) -> (m: Vec<&'static str>)
        ensures
            m@.len() == 1,
            m@[0]@ == ".git"@,
    {
        let mut m: Vec<&'static str> = Vec::new();
        m.push(".git");
        m
    }

    /// Parses `format`; when a `.git` marker was found, asks for that
    /// repository, and otherwise shows nothing.
    pub fn render(&self, format: &str, context: &ModuleContext) -> (r: Result<ModuleOutput, PromptError>)
        ensures
            git_renders(r, *context, format@),
    {
        let format = parse_git_format(format)?;
        match context.marker_path(".git") {
            None => Ok(ModuleOutput::Text(None)),
            Some(path) => Ok(ModuleOutput::Git(GitRequest { git_dir: String::from_str(path), format })),
        }
    }
}

} // verus!
