//! Which shell the prompt is for: from `--shell`, from the environment, or
//! from the parent process.
use vstd::prelude::*;
use crate::numbers::{parse_u32, parsed_u32};
use crate::text::{
    after_last, after_last_index, before_first, chars_of, find_char_from, find_from, has_prefix,
    lemma_find_from, nth_word, nth_word_of, occurs_at, str_eq, strip_prefix_all, strip_prefix_all_index,
    strip_suffix_char_all, strip_suffix_char_all_index, substring, trim, trim_bounds,
};

verus! {

/// The shell whose prompt escapes are used.
#[derive(Clone, Copy, Debug, PartialEq, Eq, Structural)]
pub enum Shell {
    Zsh,
    Bash,
    Plain,
}

/// The shell named `n` (`bash`, `zsh` or `none`).
pub open spec fn shell_named(n: Seq<char>) -> Option<Shell> {
    if n == "bash"@ {
        Some(Shell::Bash)
    } else if n == "zsh"@ {
        Some(Shell::Zsh)
    } else if n == "none"@ {
        Some(Shell::Plain)
    } else {
        None
    }
}

/// The value given to `--shell` is not a shell name.
#[derive(Debug)]
pub struct UnknownShell {
    pub name: String,
}

/// The shell named by the value of `--shell`.
pub fn parse_shell(value: &str) -> (r: Result<Shell, UnknownShell>)
    ensures
        match r {
            Ok(s) => shell_named(value@) == Some(s),
            Err(e) => shell_named(value@) is None && e.name@ == value@,
        },
{
    if str_eq(value, "bash") {
        Ok(Shell::Bash)
    } else if str_eq(value, "zsh") {
        Ok(Shell::Zsh)
    } else if str_eq(value, "none") {
        Ok(Shell::Plain)
    } else {
        Err(UnknownShell { name: String::from_str(value) })
    }
}

/// The program name in a shell path or command name: trimmed, without
/// trailing NULs or leading dashes (login shells), after its last `/`.
pub open spec fn program_name(value: Seq<char>) -> Seq<char> {
    after_last(strip_prefix_all(strip_suffix_char_all(trim(value), '\0'), "-"@), '/')
}

/// The shell that a program name designates: `zsh` or `bash`.
pub open spec fn shell_of_program(name: Seq<char>) -> Option<Shell> {
    if name == "zsh"@ {
        Some(Shell::Zsh)
    } else if name == "bash"@ {
        Some(Shell::Bash)
    } else {
        None
    }
}

/// The shell that a shell path or command name designates.
pub fn shell_from_name(value: &str) -> (r: Option<Shell>)
    ensures
        r == shell_of_program(program_name(value@)),
{
    let cs = chars_of(value);
    let (a, b) = trim_bounds(&cs);
    let t = substring(value, a, b);
    let tc = chars_of(t.as_str());
    let e = strip_suffix_char_all_index(&tc, '\0');
    let u = substring(t.as_str(), 0, e);
    assert(u@ =~= strip_suffix_char_all(trim(value@), '\0'));
    let uc = chars_of(u.as_str());
    let dash = chars_of("-");
    proof {
        reveal_strlit("-");
    }
    let i = strip_prefix_all_index(&uc, &dash);
    let w = substring(u.as_str(), i, uc.len());
    assert(w@ =~= strip_prefix_all(u@, "-"@));
    let wc = chars_of(w.as_str());
    let j = after_last_index(&wc, '/');
    let name = substring(w.as_str(), j, wc.len());
    assert(name@ =~= program_name(value@));
    if str_eq(name.as_str(), "zsh") {
        Some(Shell::Zsh)
    } else if str_eq(name.as_str(), "bash") {
        Some(Shell::Bash)
    } else {
        None
    }
}

/// The shell that the environment shows: zsh when `ZSH_VERSION` is set,
/// bash when `BASH_VERSION` is, and otherwise the one that `SHELL` names.
pub open spec fn env_shell(zsh_version_set: bool, bash_version_set: bool, shell_var: Option<Seq<char>>) -> Option<Shell> {
    if zsh_version_set {
        Some(Shell::Zsh)
    } else if bash_version_set {
        Some(Shell::Bash)
    } else {
        match shell_var {
            Some(p) => shell_of_program(program_name(p)),
            None => None,
        }
    }
}

/// The shell that the environment shows (see `env_shell`).
pub fn shell_from_env(zsh_version_set: bool, bash_version_set: bool, shell_var: Option<&str>) -> (r: Option<Shell>)
    ensures
        r == env_shell(
            zsh_version_set,
            bash_version_set,
            match shell_var {
                Some(p) => Some(p@),
                None => None,
            },
        ),
{
    if zsh_version_set {
        return Some(Shell::Zsh);
    }
    if bash_version_set {
        return Some(Shell::Bash);
    }
    match shell_var {
        Some(p) => shell_from_name(p),
        None => None,
    }
}

/// The shell of a process, from its NUL-separated command line: the one
/// its first argument names.
pub fn shell_from_cmdline(cmdline: &str) -> (r: Option<Shell>)
    ensures
        r == shell_of_program(program_name(before_first(cmdline@, '\0'))),
{
    let cs = chars_of(cmdline);
    let e = find_char_from(&cs, '\0', 0);
    let first = substring(cmdline, 0, e);
    assert(first@ =~= before_first(cmdline@, '\0'));
    shell_from_name(first.as_str())
}

/// The shell to use: the one given on the command line, else the one the
/// environment shows, else the one of the parent process, else none.
pub open spec fn resolved_shell(cli: Option<Shell>, from_env: Option<Shell>, from_parent: Option<Shell>) -> Shell {
    match cli {
        Some(s) => s,
        None => match from_env {
            Some(s) => s,
            None => match from_parent {
                Some(s) => s,
                None => Shell::Plain,
            },
        },
    }
}

/// The shell given on the command line wins; without one, the shell that
/// the environment names; without that, the parent process's shell; and
/// with none of them, no shell escapes.
pub proof fn law_shell_priority(cli: Option<Shell>, from_env: Option<Shell>, from_parent: Option<Shell>)
    ensures
        forall|s: Shell| cli == Some(s) ==> resolved_shell(cli, from_env, from_parent) == s,
        forall|s: Shell| cli is None && from_env == Some(s) ==> resolved_shell(cli, from_env, from_parent) == s,
        forall|s: Shell|
            cli is None && from_env is None && from_parent == Some(s) ==> resolved_shell(
                cli,
                from_env,
                from_parent,
            ) == s,
        cli is None && from_env is None && from_parent is None ==> resolved_shell(cli, from_env, from_parent)
            == Shell::Plain,
{
}

/// Chooses the shell (see `resolved_shell`).
pub fn resolve_shell(cli: Option<Shell>, from_env: Option<Shell>, from_parent: Option<Shell>) -> (r: Shell)
    ensures
        r == resolved_shell(cli, from_env, from_parent),
{
    if let Some(s) = cli {
        return s;
    }
    if let Some(s) = from_env {
        return s;
    }
    match from_parent {
        Some(s) => s,
        None => Shell::Plain,
    }
}

/// The line of `s` that begins at `st` (before the next `\n`, without a
/// `\r` just before it).
pub open spec fn text_line_at(s: Seq<char>, st: int) -> Seq<char> {
    let e = find_from(s, '\n', st);
    let raw = s.subrange(st, e);
    if e < s.len() && raw.len() > 0 && raw.last() == '\r' {
        raw.drop_last()
    } else {
        raw
    }
}

/// The first line of `s`, from the line that begins at `st` on, that starts
/// with `p` (`s.lines().find(|l| l.starts_with(p))`).
pub open spec fn first_line_with(s: Seq<char>, p: Seq<char>, st: int) -> Option<Seq<char>>
    decreases s.len() - st,
{
    if st < 0 || st >= s.len() {
        None
    } else if has_prefix(text_line_at(s, st), p) {
        Some(text_line_at(s, st))
    } else if find_from(s, '\n', st) >= s.len() {
        None
    } else {
        proof {
            lemma_find_from(s, '\n', st);
        }
        first_line_with(s, p, find_from(s, '\n', st) + 1)
    }
}

/// The parent's process id in the text of `/proc/self/status`: the second
/// word of its `PPid:` line, read as a `u32`.
pub open spec fn status_ppid(status: Seq<char>) -> Option<u32> {
    match first_line_with(status, "PPid:"@, 0) {
        Some(l) => match nth_word(l, 1) {
            Some(w) => parsed_u32(w),
            None => None,
        },
        None => None,
    }
}

/// The parent's process id in the text of `/proc/self/status`, unless it
/// is missing or 0.
pub fn parent_pid_from_status(status: &str) -> (r: Option<u32>)
    ensures
        r == match status_ppid(status@) {
            Some(p) if p != 0 => Some(p),
            _ => None,
        },
{
    let cs = chars_of(status);
    let prefix = chars_of("PPid:");
    let n = cs.len();
    let mut st: usize = 0;
    let mut line: Option<String> = None;
    while st < n
        invariant_except_break
            line is None,
        invariant
            n == status@.len(),
            cs@ == status@,
            prefix@ == "PPid:"@,
            st <= n,
            first_line_with(status@, "PPid:"@, st as int) == first_line_with(status@, "PPid:"@, 0),
        ensures
            match line {
                Some(l) => first_line_with(status@, "PPid:"@, 0) == Some(l@),
                None => first_line_with(status@, "PPid:"@, 0) is None,
            },
        decreases n - st,
    {
        let e = find_char_from(&cs, '\n', st);
        proof {
            lemma_find_from(status@, '\n', st as int);
        }
        let end = if e < n && e > st && cs[e - 1] == '\r' {
            e - 1
        } else {
            e
        };
        let l = substring(status, st, end);
        assert(l@ =~= text_line_at(status@, st as int));
        let lc = chars_of(l.as_str());
        let starts = occurs_at(&lc, &prefix, 0);
        assert(lc@.skip(0) =~= l@);
        if starts {
            line = Some(l);
            break;
        }
        if e >= n {
            st = n;
        } else {
            st = e + 1;
        }
    }
    let ghost found = first_line_with(status@, "PPid:"@, 0);
    let word = match line {
        Some(l) => nth_word_of(l.as_str(), 1),
        None => None,
    };
    let ppid = match word {
        Some(w) => parse_u32(w.as_str()),
        None => None,
    };
    match ppid {
        Some(p) => if p == 0 {
            None
        } else {
            Some(p)
        },
        None => None,
    }
}

} // verus!
