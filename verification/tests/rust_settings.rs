use prmt::modules::rust::{settings_from_document, toolchain_from_document, TomlDoc, TomlItem, TomlScalar};
use prmt::modules::rust::{
    choose_toolchain, parse_rustup_settings, toolchain_dir_candidates, toolchain_file_names,
    toolchain_from_file, trimmed_nonempty, RustupSettings,
};

fn comps(p: &str) -> Vec<String> {
    p.split('/').filter(|c| !c.is_empty()).map(|c| c.to_string()).collect()
}

#[test]
fn read_plain_toolchain_file() {
    assert_eq!(toolchain_from_file("stable\n", false), Some("stable".to_string()));
}

#[test]
fn read_toml_toolchain_file() {
    let contents = "[toolchain]\nchannel = \"nightly-x86_64-unknown-linux-gnu\"\n";
    assert_eq!(
        toolchain_from_file(contents, true),
        Some("nightly-x86_64-unknown-linux-gnu".to_string())
    );
}

#[test]
fn toolchain_file_forms() {
    assert_eq!(toolchain_from_file("   \n", false), None);
    assert_eq!(toolchain_from_file("toolchain = \" beta \"", true), Some("beta".to_string()));
    assert_eq!(toolchain_from_file("toolchain = \"  \"", true), None);
    assert_eq!(toolchain_from_file("stable", true), None);
    assert_eq!(toolchain_from_file("[toolchain]\nchannel = \"  \"\n", true), Some(String::new()));
    assert_eq!(toolchain_from_file("[toolchain]\ncomponents = []\n", true), None);
    let names = toolchain_file_names();
    assert_eq!(names, vec![("rust-toolchain", false), ("rust-toolchain.toml", true)]);
}

#[test]
fn rustup_settings_are_read() {
    let text = "version = \"12\"\ndefault_toolchain = \" stable-x86_64-unknown-linux-gnu \"\n\
                default_host_triple = \"x86_64-unknown-linux-gnu\"\n\
                [overrides]\n\"/home/me/old\" = \"1.70\"\n\"/home/me/blank\" = \" \"\n";
    let file = parse_rustup_settings(text);
    assert_eq!(file.default_toolchain, Some("stable-x86_64-unknown-linux-gnu".to_string()));
    assert_eq!(file.default_host_triple, Some("x86_64-unknown-linux-gnu".to_string()));
    assert_eq!(file.overrides, vec![("/home/me/old".to_string(), "1.70".to_string())]);

    let other_version = parse_rustup_settings("version = \"13\"\ndefault_toolchain = \"nightly\"\n");
    assert_eq!(other_version.default_toolchain, None);
    let broken = parse_rustup_settings("this is = = not toml");
    assert_eq!(broken.default_toolchain, None);
    assert!(broken.overrides.is_empty());
}

#[test]
fn deepest_override_applies() {
    let mut settings = RustupSettings::new(Some("stable".to_string()), None);
    settings.insert_override(comps("/home/me"), "1.70".to_string());
    settings.insert_override(comps("/home/me/project"), "nightly".to_string());
    settings.insert_override(comps("/home/other"), "beta".to_string());
    assert_eq!(settings.lookup_override(&comps("/home/me/project/src")), Some("nightly".to_string()));
    assert_eq!(settings.lookup_override(&comps("/home/me/notes")), Some("1.70".to_string()));
    assert_eq!(settings.lookup_override(&comps("/tmp")), None);
    settings.insert_override(comps("/home/me/project"), "1.80".to_string());
    assert_eq!(settings.lookup_override(&comps("/home/me/project")), Some("1.80".to_string()));
    assert_eq!(settings.default_toolchain(), Some("stable"));
    assert_eq!(settings.default_host_triple(), None);
}

#[test]
fn toolchain_priority() {
    let s = |v: &str| Some(v.to_string());
    assert_eq!(choose_toolchain(s(" nightly "), s("a"), s("b"), s("c")), s("nightly"));
    assert_eq!(choose_toolchain(s("  "), s("a"), s("b"), s("c")), s("a"));
    assert_eq!(choose_toolchain(None, None, s("b"), s("c")), s("b"));
    assert_eq!(choose_toolchain(None, None, None, s("c")), s("c"));
    assert_eq!(trimmed_nonempty("  x "), s("x"));
    assert_eq!(trimmed_nonempty(" \t"), None);
}

#[test]
fn rustc_directories() {
    assert_eq!(
        toolchain_dir_candidates("stable", Some("x86_64-unknown-linux-gnu".to_string())),
        vec!["stable".to_string(), "stable-x86_64-unknown-linux-gnu".to_string()]
    );
    assert_eq!(
        toolchain_dir_candidates("nightly-2024-01-01", Some("x".to_string())),
        vec!["nightly-2024-01-01".to_string()]
    );
    assert_eq!(toolchain_dir_candidates("stable", None), vec!["stable".to_string()]);
}

fn doc(entries: Vec<(&str, TomlItem)>) -> TomlDoc {
    TomlDoc { entries: entries.into_iter().map(|(k, v)| (k.to_string(), v)).collect() }
}

#[test]
fn settings_are_read_from_a_document() {
    let d = doc(vec![
        ("version", TomlItem::Str("12".to_string())),
        ("default_toolchain", TomlItem::Str("  stable  ".to_string())),
        ("default_host_triple", TomlItem::Str("   ".to_string())),
        (
            "overrides",
            TomlItem::Table(vec![
                ("/a".to_string(), TomlScalar::Str(" nightly ".to_string())),
                ("/b".to_string(), TomlScalar::Other),
                ("/c".to_string(), TomlScalar::Str(" ".to_string())),
            ]),
        ),
    ]);
    let s = settings_from_document(&d);
    assert_eq!(s.default_toolchain.as_deref(), Some("stable"));
    assert_eq!(s.default_host_triple, None);
    assert_eq!(s.overrides, vec![("/a".to_string(), "nightly".to_string())]);

    let old = doc(vec![
        ("version", TomlItem::Str("11".to_string())),
        ("default_toolchain", TomlItem::Str("stable".to_string())),
    ]);
    let s = settings_from_document(&old);
    assert!(s.default_toolchain.is_none() && s.overrides.is_empty());
}

#[test]
fn toolchains_are_read_from_a_document() {
    let table = doc(vec![(
        "toolchain",
        TomlItem::Table(vec![("channel".to_string(), TomlScalar::Str(" 1.80.0 ".to_string()))]),
    )]);
    assert_eq!(toolchain_from_document(&table).as_deref(), Some("1.80.0"));
    let string = doc(vec![("toolchain", TomlItem::Str(" beta ".to_string()))]);
    assert_eq!(toolchain_from_document(&string).as_deref(), Some("beta"));
    let blank = doc(vec![("toolchain", TomlItem::Str("  ".to_string()))]);
    assert_eq!(toolchain_from_document(&blank), None);
    let other = doc(vec![("toolchain", TomlItem::Other)]);
    assert_eq!(toolchain_from_document(&other), None);
    assert_eq!(toolchain_from_document(&doc(vec![])), None);
}
