//! Colours and text attributes of a placeholder's style, written as ANSI
//! escapes and wrapped for the shell that prints the prompt.
use vstd::prelude::*;
use crate::modules::git::split_parts;
use crate::shell::Shell;
use crate::text::{chars_of, str_eq, substring};

verus! {

/// The ANSI code of one word of a style: a foreground colour or a text
/// attribute.
pub open spec fn style_code(w: Seq<char>) -> Option<Seq<char>> {
    if w == "black"@ {
        Some("30"@)
    } else if w == "red"@ {
        Some("31"@)
    } else if w == "green"@ {
        Some("32"@)
    } else if w == "yellow"@ {
        Some("33"@)
    } else if w == "blue"@ {
        Some("34"@)
    } else if w == "purple"@ || w == "magenta"@ {
        Some("35"@)
    } else if w == "cyan"@ {
        Some("36"@)
    } else if w == "white"@ {
        Some("37"@)
    } else if w == "bold"@ {
        Some("1"@)
    } else if w == "dim"@ {
        Some("2"@)
    } else if w == "italic"@ {
        Some("3"@)
    } else if w == "underline"@ {
        Some("4"@)
    } else {
        None
    }
}

/// The codes of the words of a style that have one, joined by `;`.
pub open spec fn style_codes(words: Seq<Seq<char>>) -> Seq<char>
    decreases words.len(),
{
    if words.len() == 0 {
        Seq::empty()
    } else {
        let rest = style_codes(words.drop_last());
        match style_code(words.last()) {
            None => rest,
            Some(c) => if rest.len() == 0 {
                c
            } else {
                rest + ";"@ + c
            },
        }
    }
}

/// The codes of the style `style`, whose words are separated by `.`.
pub open spec fn codes_of_style(style: Seq<char>) -> Seq<char> {
    style_codes(split_parts(style, '.'))
}

/// What opens an escape that takes no room on the line, for `shell`.
pub open spec fn hidden_open(shell: Shell) -> Seq<char> {
    match shell {
        Shell::Bash => "\x01"@,
        Shell::Zsh => "%{"@,
        Shell::Plain => ""@,
    }
}

/// What closes an escape that takes no room on the line, for `shell`.
pub open spec fn hidden_close(shell: Shell) -> Seq<char> {
    match shell {
        Shell::Bash => "\x02"@,
        Shell::Zsh => "%}"@,
        Shell::Plain => ""@,
    }
}

/// `text` in the style whose codes are `codes`: unchanged without colour,
/// without codes or without text; otherwise between the escape that sets
/// the codes and the one that resets them, each wrapped for `shell`.
pub open spec fn painted(text: Seq<char>, codes: Seq<char>, shell: Shell, no_color: bool) -> Seq<char> {
    if no_color || codes.len() == 0 || text.len() == 0 {
        text
    } else {
        hidden_open(shell) + "\x1b["@ + codes + "m"@ + hidden_close(shell) + text + hidden_open(shell)
            + "\x1b[0m"@ + hidden_close(shell)
    }
}

/// The ANSI code of the style word `w`.
fn style_code_of(w: &str) -> (r: Option<&'static str>)
    ensures
        match r {
            Some(c) => style_code(w@) == Some(c@),
            None => style_code(w@) is None,
        },
{
    if str_eq(w, "black") {
        Some("30")
    } else if str_eq(w, "red") {
        Some("31")
    } else if str_eq(w, "green") {
        Some("32")
    } else if str_eq(w, "yellow") {
        Some("33")
    } else if str_eq(w, "blue") {
        Some("34")
    } else if str_eq(w, "purple") || str_eq(w, "magenta") {
        Some("35")
    } else if str_eq(w, "cyan") {
        Some("36")
    } else if str_eq(w, "white") {
        Some("37")
    } else if str_eq(w, "bold") {
        Some("1")
    } else if str_eq(w, "dim") {
        Some("2")
    } else if str_eq(w, "italic") {
        Some("3")
    } else if str_eq(w, "underline") {
        Some("4")
    } else {
        None
    }
}

/// The pieces of `s` between the occurrences of `c` (`str::split`).
pub fn split_on(s: &str, c: char) -> (r: Vec<String>)
    ensures
        r@.map_values(|x: String| x@) == split_parts(s@, c),
{
    let cs = chars_of(s);
    let n = cs.len();
    let mut r: Vec<String> = Vec::new();
    let mut start: usize = 0;
    let mut i: usize = 0;
    assert(s@.take(0) =~= Seq::<char>::empty());
    assert(split_parts(Seq::<char>::empty(), c) =~= r@.map_values(|x: String| x@).push(
        s@.subrange(0, 0),
    ));
    while i < n
        invariant
            n == s@.len(),
            cs@ == s@,
            start <= i <= n,
            split_parts(s@.take(i as int), c) == r@.map_values(|x: String| x@).push(
                s@.subrange(start as int, i as int),
            ),
        decreases n - i,
    {
        let ghost prev = s@.take(i as int);
        let ghost done = r@.map_values(|x: String| x@);
        assert(s@.take(i + 1).drop_last() =~= prev);
        if cs[i] == c {
            let part = substring(s, start, i);
            r.push(part);
            proof {
                assert(r@.map_values(|x: String| x@) =~= done.push(s@.subrange(start as int, i as int)));
                assert(s@.subrange(i + 1, i + 1) =~= Seq::<char>::empty());
            }
            start = i + 1;
        } else {
            proof {
                let p = split_parts(prev, c);
                assert(s@.subrange(start as int, i + 1) =~= s@.subrange(start as int, i as int).push(
                    s@[i as int],
                ));
                assert(p.update(p.len() - 1, p.last().push(s@[i as int])) =~= done.push(
                    s@.subrange(start as int, i + 1),
                ));
            }
        }
        i += 1;
    }
    proof {
        assert(s@.take(n as int) =~= s@);
    }
    r.push(substring(s, start, n));
    proof {
        assert(r@.map_values(|x: String| x@) =~= split_parts(s@, c));
    }
    r
}

/// The codes of the style `style`, joined by `;`.
pub fn style_codes_of(style: &str) -> (r: String)
    ensures
        r@ == codes_of_style(style@),
{
    proof {
        reveal_strlit(";");
    }
    let words = split_on(style, '.');
    let ghost ws = words@.map_values(|x: String| x@);
    let mut r = String::new();
    let mut k: usize = 0;
    while k < words.len()
        invariant
            k <= words@.len(),
            ws == words@.map_values(|x: String| x@),
            r@ == style_codes(ws.take(k as int)),
        decreases words.len() - k,
    {
        assert(ws.take(k + 1).drop_last() =~= ws.take(k as int));
        assert(ws.take(k + 1).last() == words@[k as int]@);
        match style_code_of(words[k].as_str()) {
            None => {},
            Some(code) => {
                if r.as_str().unicode_len() > 0 {
                    r.append(";");
                }
                r.append(code);
            },
        }
        k += 1;
    }
    assert(ws.take(words@.len() as int) =~= ws);
    r
}

/// `text` in `style` for `shell` (see `painted`).
pub fn paint(text: String, style: &str, shell: Shell, no_color: bool) -> (r: String)
    ensures
        r@ == painted(text@, codes_of_style(style@), shell, no_color),
{
    let codes = style_codes_of(style);
    if no_color || codes.as_str().unicode_len() == 0 || text.as_str().unicode_len() == 0 {
        return text;
    }
    let (open, close) = match shell {
        Shell::Bash => ("\x01", "\x02"),
        Shell::Zsh => ("%{", "%}"),
        Shell::Plain => ("", ""),
    };
    let mut r = String::from_str(open);
    r.append("\x1b[");
    r.append(codes.as_str());
    r.append("m");
    r.append(close);
    r.append(text.as_str());
    r.append(open);
    r.append("\x1b[0m");
    r.append(close);
    r
}

} // verus!
