use prmt::cli::{parse_args_from, ArgOutcome, ArgsError};
use prmt::bench::bench_stats;
use prmt::cli::{ArgStep, Cli, CliArg, CliError, ValueOption};
use prmt::numbers::{parse_i32, parse_u32};
use prmt::registry::{ModuleRef, ModuleRegistry};
use prmt::shell::{
    parent_pid_from_status, parse_shell, resolve_shell, shell_from_cmdline, shell_from_env,
    shell_from_name, Shell,
};

#[test]
fn shell_names() {
    assert_eq!(shell_from_name("/bin/zsh"), Some(Shell::Zsh));
    assert_eq!(shell_from_name("-bash"), Some(Shell::Bash));
    assert_eq!(shell_from_name(" zsh\n"), Some(Shell::Zsh));
    assert_eq!(shell_from_name("bash\0\0"), Some(Shell::Bash));
    assert_eq!(shell_from_name("/usr/bin/fish"), None);
    assert_eq!(shell_from_cmdline("/bin/bash\0-l\0"), Some(Shell::Bash));
    assert_eq!(shell_from_env(false, true, Some("/bin/zsh")), Some(Shell::Bash));
    assert_eq!(shell_from_env(false, false, Some("/bin/zsh")), Some(Shell::Zsh));
    assert_eq!(shell_from_env(false, false, None), None);
    assert_eq!(resolve_shell(None, None, None), Shell::Plain);
    assert_eq!(resolve_shell(Some(Shell::Bash), Some(Shell::Zsh), None), Shell::Bash);
    assert_eq!(resolve_shell(None, None, Some(Shell::Zsh)), Shell::Zsh);
    assert_eq!(parse_shell("zsh").unwrap(), Shell::Zsh);
    assert_eq!(parse_shell("none").unwrap(), Shell::Plain);
    assert_eq!(parse_shell("fish").unwrap_err().name, "fish");
}

#[test]
fn parent_pid() {
    let status = "Name:\tprmt\nState:\tR (running)\nPPid:\t4242\nTracerPid:\t0\n";
    assert_eq!(parent_pid_from_status(status), Some(4242));
    assert_eq!(parent_pid_from_status("PPid:\t0\n"), None);
    assert_eq!(parent_pid_from_status("Name:\tx\n"), None);
    assert_eq!(parent_pid_from_status("PPid:\tabc\n"), None);
}

#[test]
fn numbers_parse_like_std() {
    for s in ["0", "+7", "4294967295", "4294967296", "-1", "", "+", "12a", "007"] {
        assert_eq!(parse_u32(s), s.parse::<u32>().ok(), "{s}");
    }
    for s in ["0", "-0", "+5", "-2147483648", "-2147483649", "2147483647", "2147483648", "-", "1 "] {
        assert_eq!(parse_i32(s), s.parse::<i32>().ok(), "{s}");
    }
}

#[test]
fn command_line_steps() {
    let mut cli = Cli::new();
    assert_eq!(cli.on_arg(&CliArg::Short('n')), ArgStep::Continue);
    assert!(cli.no_version);
    assert_eq!(cli.on_arg(&CliArg::Long("debug".to_string())), ArgStep::Continue);
    assert!(cli.debug);
    assert_eq!(cli.on_arg(&CliArg::Long("no-color".to_string())), ArgStep::Continue);
    assert!(cli.no_color);
    assert_eq!(cli.on_arg(&CliArg::Value("{git}".to_string())), ArgStep::Continue);
    assert_eq!(cli.on_arg(&CliArg::Value("{node}".to_string())), ArgStep::Continue);
    assert_eq!(cli.format.as_deref(), Some("{git}"));
    assert_eq!(
        cli.on_arg(&CliArg::Long("code".to_string())),
        ArgStep::NeedValue(ValueOption::Code)
    );
    assert!(cli.on_value(ValueOption::Code, "-1".to_string()).is_ok());
    assert_eq!(cli.code, Some(-1));
    assert!(matches!(cli.on_value(ValueOption::Code, "x".to_string()), Err(CliError::InvalidCode(_))));
    assert!(matches!(cli.on_value(ValueOption::Shell, "fish".to_string()), Err(CliError::UnknownShell(_))));
    assert!(cli.on_value(ValueOption::Shell, "bash".to_string()).is_ok());
    assert_eq!(cli.shell, Some(Shell::Bash));
    assert_eq!(cli.on_arg(&CliArg::Short('f')), ArgStep::NeedValue(ValueOption::Format));
    assert!(cli.on_value(ValueOption::Format, "{time}".to_string()).is_ok());
    assert_eq!(cli.format.as_deref(), Some("{time}"));
    assert_eq!(cli.on_arg(&CliArg::Short('h')), ArgStep::Help);
    assert_eq!(cli.on_arg(&CliArg::Long("version".to_string())), ArgStep::Version);
    assert_eq!(cli.on_arg(&CliArg::Short('x')), ArgStep::Unexpected);
    assert_eq!(cli.on_arg(&CliArg::Long("shell".to_string())), ArgStep::NeedValue(ValueOption::Shell));
    assert!(!cli.bench);
}

#[test]
fn registry_lookups() {
    let mut registry = ModuleRegistry::new();
    registry.register("node", ModuleRef::Node);
    registry.register("git", ModuleRef::Git);
    registry.register("bun", ModuleRef::Bun);
    assert_eq!(registry.get("git"), Some(ModuleRef::Git));
    assert_eq!(registry.get("path"), None);
    registry.register("git", ModuleRef::Time);
    assert_eq!(registry.get("git"), Some(ModuleRef::Time));
    registry.register("nodejs", ModuleRef::Node);
    let mut markers = registry.required_markers();
    markers.sort();
    assert_eq!(markers, vec!["bun.lockb", "bunfig.toml", "package.json"]);
}

#[test]
fn bench_summary() {
    let mut times: Vec<u64> = (1..=100).map(|i| i * 10).collect();
    times.swap(3, 99);
    let stats = bench_stats(&times);
    assert_eq!(stats.min, 10);
    assert_eq!(stats.max, 1000);
    assert_eq!(stats.p99, 990);
    assert_eq!(stats.avg, 505);
    let same = vec![7u64; 100];
    let stats = bench_stats(&same);
    assert_eq!((stats.min, stats.avg, stats.max, stats.p99), (7, 7, 7, 7));
}

fn args(list: &[&str]) -> Vec<String> {
    list.iter().map(|a| a.to_string()).collect()
}

fn run_options(list: &[&str]) -> Cli {
    match prmt::cli::parse_args_from(args(list)) {
        Ok(prmt::cli::ArgOutcome::Run(cli)) => cli,
        _ => panic!("expected the options to be accepted"),
    }
}

#[test]
fn command_line_sets_flags_values_and_format() {
    let cli = run_options(&["-nd", "{git}", "--code", "5", "--shell", "zsh", "extra"]);
    assert!(cli.no_version && cli.debug && !cli.bench && !cli.no_color);
    assert_eq!(cli.format.as_deref(), Some("{git}"));
    assert_eq!(cli.code, Some(5));
    assert_eq!(cli.shell, Some(Shell::Zsh));

    let cli = run_options(&["--format={time}", "-b", "--no-color"]);
    assert_eq!(cli.format.as_deref(), Some("{time}"));
    assert!(cli.bench && cli.no_color);

    let cli = run_options(&[]);
    assert!(cli.format.is_none() && cli.code.is_none() && cli.shell.is_none());
    assert!(!cli.no_version && !cli.debug && !cli.bench && !cli.no_color);

    let cli = run_options(&["-f", "{node}", "{rust}"]);
    assert_eq!(cli.format.as_deref(), Some("{node}"));
}

#[test]
fn command_line_help_version_and_errors() {
    assert!(matches!(parse_args_from(args(&["-n", "-h", "-x"])), Ok(ArgOutcome::Help)));
    assert!(matches!(parse_args_from(args(&["--version"])), Ok(ArgOutcome::Version)));
    match parse_args_from(args(&["-x"])) {
        Err(ArgsError::Unexpected(CliArg::Short('x'))) => {}
        _ => panic!("expected -x to be refused"),
    }
    match parse_args_from(args(&["--colour"])) {
        Err(ArgsError::Unexpected(CliArg::Long(name))) => assert_eq!(name, "colour"),
        _ => panic!("expected --colour to be refused"),
    }
    match parse_args_from(args(&["--code", "x"])) {
        Err(ArgsError::Invalid(CliError::InvalidCode(v))) => assert_eq!(v, "x"),
        _ => panic!("expected an invalid exit code"),
    }
    match parse_args_from(args(&["--shell", "fish"])) {
        Err(ArgsError::Invalid(CliError::UnknownShell(v))) => assert_eq!(v, "fish"),
        _ => panic!("expected an unknown shell"),
    }
    assert!(matches!(parse_args_from(args(&["-f"])), Err(ArgsError::Syntax(_))));
    assert!(matches!(parse_args_from(args(&["--debug=yes"])), Err(ArgsError::Syntax(_))));
}

#[test]
fn command_line_positional_and_explicit_formats() {
    let cli = run_options(&["first", "second"]);
    assert_eq!(cli.format.as_deref(), Some("first"));
    assert!(!cli.no_version && !cli.debug && !cli.bench && !cli.no_color);
    assert!(cli.code.is_none() && cli.shell.is_none());
    assert_eq!(run_options(&["pos", "-f", "X"]).format.as_deref(), Some("X"));
    assert_eq!(run_options(&["--format", "X", "pos"]).format.as_deref(), Some("X"));
}

#[test]
fn command_line_short_and_long_flags() {
    for list in [
        &["-n", "-d", "-b", "--no-color", "--code", "3"][..],
        &["--no-version", "--debug", "--bench", "--no-color", "--code", "3"][..],
    ] {
        let cli = run_options(list);
        assert!(cli.no_version && cli.debug && cli.bench && cli.no_color);
        assert_eq!(cli.code, Some(3));
        assert!(cli.format.is_none() && cli.shell.is_none());
    }
}

#[test]
fn command_line_refusals_and_stops() {
    assert!(parse_args_from(args(&["--code", "abc"])).is_err());
    assert!(parse_args_from(args(&["--bogus"])).is_err());
    assert!(parse_args_from(args(&["-f"])).is_err());
    for list in [&["-h"][..], &["--help"][..]] {
        assert!(matches!(parse_args_from(args(list)), Ok(ArgOutcome::Help)));
    }
    for list in [&["-V"][..], &["--version"][..]] {
        assert!(matches!(parse_args_from(args(list)), Ok(ArgOutcome::Version)));
    }
}
