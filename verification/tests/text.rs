use prmt::style::{paint, split_on, style_codes_of};
use prmt::shell::Shell;
use prmt::placeholders::{parse_format, Segment};
use prmt::text::{first_line_of, is_whitespace, nth_word_of, str_eq, trim_start_matches, trimmed};

const SAMPLES: &[&str] = &[
    "",
    " ",
    "abc",
    "  abc  ",
    "\t a b\u{a0}c \u{3000}",
    "\u{2000}x\u{205f}y\u{85}",
    "one\ntwo\r\nthree",
    "\r\n",
    "a\rb\r",
    "vv1.2",
];

#[test]
fn text_helpers_agree_with_str() {
    for s in SAMPLES {
        assert_eq!(trimmed(s), s.trim(), "{s:?}");
        for k in 0..4 {
            assert_eq!(nth_word_of(s, k).as_deref(), s.split_whitespace().nth(k), "{s:?} {k}");
        }
        assert_eq!(first_line_of(s).as_deref(), s.lines().next(), "{s:?}");
        assert_eq!(trim_start_matches(s, "v"), s.trim_start_matches('v'), "{s:?}");
        for t in SAMPLES {
            assert_eq!(str_eq(s, t), s == t);
        }
    }
    for c in ['\u{0}', ' ', '\t', '\u{b}', '\u{1c}', '\u{85}', '\u{a0}', '\u{180e}', '\u{200b}', '\u{2029}', 'x'] {
        assert_eq!(is_whitespace(c), c.is_whitespace(), "{c:?}");
    }
}

#[test]
fn format_strings_split_into_text_and_placeholders() {
    let pieces = parse_format("a {git:purple:s+o} {time} {x:y}{ z");
    let shown: Vec<String> = pieces
        .iter()
        .map(|p| match p {
            Segment::Text(t) => format!("T[{t}]"),
            Segment::Slot { name, style, format } => {
                format!("S[{name}|{}|{format}]", style.clone().unwrap_or_else(|| "-".to_string()))
            }
        })
        .collect();
    assert_eq!(
        shown,
        vec!["T[a ]", "S[git|purple|s+o]", "T[ ]", "S[time|-|]", "T[ ]", "S[x|y|]", "T[{ z]"]
    );
    let pieces = parse_format("{a:b:c:d}");
    match &pieces[1] {
        Segment::Slot { name, style, format } => {
            assert_eq!(name, "a");
            assert_eq!(style.as_deref(), Some("b"));
            assert_eq!(format, "c:d");
        }
        _ => panic!("expected a placeholder"),
    }
}

#[test]
fn styles_become_ansi_escapes_for_the_shell() {
    assert_eq!(style_codes_of("purple"), "35");
    assert_eq!(style_codes_of("red.bold.sparkly"), "31;1");
    assert_eq!(style_codes_of(""), "");
    assert_eq!(paint("main".to_string(), "purple", Shell::Plain, false), "\x1b[35mmain\x1b[0m");
    assert_eq!(
        paint("main".to_string(), "cyan.bold", Shell::Bash, false),
        "\x01\x1b[36;1m\x02main\x01\x1b[0m\x02"
    );
    assert_eq!(
        paint("v1".to_string(), "green", Shell::Zsh, false),
        "%{\x1b[32m%}v1%{\x1b[0m%}"
    );
    assert_eq!(paint("main".to_string(), "purple", Shell::Zsh, true), "main");
    assert_eq!(paint(String::new(), "purple", Shell::Bash, false), "");
    assert_eq!(paint("x".to_string(), "unknown", Shell::Bash, false), "x");
}

#[test]
fn split_on_keeps_empty_pieces() {
    assert_eq!(split_on("a..b.", '.'), vec!["a", "", "b", ""]);
    assert_eq!(split_on("", '.'), vec![""]);
}
