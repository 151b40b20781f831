use prmt::detector::{DetectionContext, MarkerSearch, ModuleContext};
use prmt::error::PromptError;
use prmt::modules::bun::{bun_version_from_output, BunModule};
use prmt::modules::deno::{deno_version_from_output, DenoModule};
use prmt::modules::env::{finish_env, EnvModule};
use prmt::modules::go::{go_version_from_output, GoModule};
use prmt::modules::node::{node_version_from_output, NodeModule};
use prmt::modules::python::{python_version_from_output, PythonModule};
use prmt::modules::rust::{parse_rustc_version, RustModule};
use prmt::modules::utils::{
    finish_version, major_version, shorten_version, validate_version_format, VersionFormat,
};
use prmt::modules::ModuleOutput;

fn context_with(markers: &[&str], no_version: bool) -> ModuleContext {
    let required: Vec<String> = markers.iter().map(|m| m.to_string()).collect();
    let mut search = MarkerSearch::new(required, "/project".to_string());
    for m in markers {
        search.found_at(m.to_string());
    }
    ModuleContext {
        no_version,
        exit_code: None,
        detection: search.into_context(),
        utc_offset_secs: 0,
    }
}

#[test]
fn errors_when_format_missing() {
    let module = EnvModule::new();
    let err = module.render("", &ModuleContext::default()).unwrap_err();

    match err {
        PromptError::InvalidFormat { module, .. } => assert_eq!(module, "env"),
        other => panic!("expected invalid format error, got {other:?}"),
    }
}

#[test]
fn renders_value_when_variable_is_present() {
    let module = EnvModule::new();
    let request = module.render("PRMT_TEST_ENV_PRESENT", &ModuleContext::default()).unwrap();
    match request {
        ModuleOutput::EnvVar(name) => assert_eq!(name, "PRMT_TEST_ENV_PRESENT"),
        _ => panic!("expected a variable lookup"),
    }
    let value = finish_env(Some("zenpie".to_string()));
    assert_eq!(value, Some("zenpie".to_string()));
}

#[test]
fn returns_none_when_variable_missing() {
    assert_eq!(finish_env(None), None);
}

#[test]
fn returns_none_when_variable_empty() {
    assert_eq!(finish_env(Some(String::new())), None);
}

#[test]
fn parses_rustc_version() {
    let input = "rustc 1.76.0 (a58dcd2a3 2024-01-17)";
    assert_eq!(parse_rustc_version(input), Some("1.76.0".to_string()));
}

#[test]
fn version_formats_normalize() {
    for (given, normal) in [
        ("", "full"),
        ("full", "full"),
        ("f", "full"),
        ("short", "short"),
        ("s", "short"),
        ("major", "major"),
        ("m", "major"),
    ] {
        assert_eq!(validate_version_format(given, "node").unwrap(), normal);
        assert_eq!(validate_version_format(normal, "node").unwrap(), normal);
    }
    match validate_version_format("minor", "go") {
        Err(PromptError::InvalidFormat { module, format, valid_formats }) => {
            assert_eq!(module, "go");
            assert_eq!(format, "minor");
            assert_eq!(valid_formats, "full, f, short, s, major, m");
        }
        other => panic!("unexpected result: {other:?}"),
    }
}

#[test]
fn versions_shorten() {
    assert_eq!(shorten_version("1.76.0"), "1.76");
    assert_eq!(shorten_version("20.11.1"), "20.11");
    assert_eq!(shorten_version("3"), "3");
    assert_eq!(shorten_version("1.2"), "1.2");
    assert_eq!(shorten_version(&shorten_version("1.76.0")), "1.76");
    assert_eq!(major_version("20.11.1"), "20");
    assert_eq!(major_version("nightly"), "nightly");
    assert_eq!(
        finish_version(VersionFormat::Short, Some("1.22.3".to_string())),
        Some("1.22".to_string())
    );
    assert_eq!(
        finish_version(VersionFormat::Major, Some("1.22.3".to_string())),
        Some("1".to_string())
    );
    assert_eq!(
        finish_version(VersionFormat::Full, Some("1.22.3".to_string())),
        Some("1.22.3".to_string())
    );
    assert_eq!(finish_version(VersionFormat::Full, None), None);
}

#[test]
fn tool_outputs_parse() {
    assert_eq!(node_version_from_output("v20.11.1\n"), "20.11.1");
    assert_eq!(
        go_version_from_output("go version go1.22.1 linux/amd64\n"),
        Some("1.22.1".to_string())
    );
    assert_eq!(go_version_from_output("go version"), None);
    assert_eq!(bun_version_from_output(" 1.1.8\n"), "1.1.8");
    assert_eq!(
        deno_version_from_output("deno 1.42.1 (release, x86_64-unknown-linux-gnu)\nv8 12.3\n"),
        Some("1.42.1".to_string())
    );
    assert_eq!(deno_version_from_output(""), None);
    assert_eq!(
        python_version_from_output("", "Python 3.12.2\n"),
        Some("3.12.2".to_string())
    );
    assert_eq!(
        python_version_from_output("Python 3.11.0\n", "ignored 9.9"),
        Some("3.11.0".to_string())
    );
}

#[test]
fn version_modules_need_their_markers() {
    let bare = ModuleContext::default();
    match NodeModule::new().render("bogus", &bare) {
        Ok(ModuleOutput::Text(None)) => {}
        _ => panic!("no marker means no output, whatever the format"),
    }
    let node = context_with(&["package.json"], false);
    match NodeModule::new().render("s", &node) {
        Ok(ModuleOutput::Version(VersionFormat::Short)) => {}
        _ => panic!("expected a version request"),
    }
    assert!(NodeModule::new().render("bogus", &node).is_err());
    let quiet = context_with(&["Cargo.toml"], true);
    match RustModule::new().render("major", &quiet) {
        Ok(ModuleOutput::Text(Some(t))) => assert_eq!(t, ""),
        _ => panic!("expected empty text"),
    }
    let bun = context_with(&["bunfig.toml"], false);
    assert!(matches!(
        BunModule::new().render("", &bun),
        Ok(ModuleOutput::Version(VersionFormat::Full))
    ));
    let deno = context_with(&["deno.jsonc"], false);
    assert!(matches!(
        DenoModule::new().render("m", &deno),
        Ok(ModuleOutput::Version(VersionFormat::Major))
    ));
    let py = context_with(&["setup.py"], false);
    assert!(matches!(
        PythonModule::new().render("full", &py),
        Ok(ModuleOutput::Version(VersionFormat::Full))
    ));
    let go = context_with(&["go.mod"], false);
    assert!(matches!(
        GoModule::new().render("f", &go),
        Ok(ModuleOutput::Version(VersionFormat::Full))
    ));
    assert!(DetectionContext::empty().get("go.mod").is_none());
}
