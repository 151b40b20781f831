use prmt::modules::git::{finish_git_lookup, git_step, GitFormat, GitMemo, GitStep};
use prmt::detector::ModuleContext;
use prmt::error::PromptError;
use prmt::modules::git::{
    format_git_info, git_output_value, parse_git_format, parse_porcelain_status, GitInfo, GitMode,
    GitModule, GitStatus, StatusItem, WorktreeSummary,
};
use prmt::modules::ModuleOutput;

#[test]
fn parse_git_format_defaults_to_full() {
    let format = parse_git_format("").expect("format");
    assert!(matches!(format.mode, GitMode::Full));
    assert!(!format.owned_only);
}

#[test]
fn parse_git_format_full_owned() {
    let format = parse_git_format("full+owned").expect("format");
    assert!(matches!(format.mode, GitMode::Full));
    assert!(format.owned_only);
}

#[test]
fn parse_git_format_short_o() {
    let format = parse_git_format("s+o").expect("format");
    assert!(matches!(format.mode, GitMode::Short));
    assert!(format.owned_only);
}

#[test]
fn parse_git_format_rejects_unknown() {
    let err = parse_git_format("full+wat").unwrap_err();
    match err {
        PromptError::InvalidFormat { module, .. } => assert_eq!(module, "git"),
        other => panic!("unexpected error: {other:?}"),
    }
}

#[test]
fn git_format_later_mode_wins_and_empty_parts_are_skipped() {
    let format = parse_git_format("short++full").expect("format");
    assert_eq!(format.mode, GitMode::Full);
    assert!(!format.owned_only);
    let format = parse_git_format("owned_only+s+").expect("format");
    assert_eq!(format.mode, GitMode::Short);
    assert!(format.owned_only);
    let format = parse_git_format("+owned-only").expect("format");
    assert_eq!(format.mode, GitMode::Full);
    assert!(format.owned_only);
    match parse_git_format("wat") {
        Err(PromptError::InvalidFormat { format, valid_formats, .. }) => {
            assert_eq!(format, "wat");
            assert_eq!(valid_formats, "full, f, short, s, +o, +owned");
        }
        other => panic!("unexpected result: {other:?}"),
    }
}

#[test]
fn porcelain_status_flags() {
    let out = b" M src/lib.rs\nA  new.rs\n?? scratch.txt\n";
    assert_eq!(
        parse_porcelain_status(out),
        GitStatus { modified: true, staged: true, untracked: true }
    );
    assert_eq!(
        parse_porcelain_status(b"M  staged.rs"),
        GitStatus { modified: false, staged: true, untracked: false }
    );
    assert_eq!(
        parse_porcelain_status(b""),
        GitStatus { modified: false, staged: false, untracked: false }
    );
    // A "\r\n" line ending is not part of the line.
    assert_eq!(
        parse_porcelain_status(b"M\r\n"),
        GitStatus { modified: false, staged: false, untracked: false }
    );
    // A lone "\r" at the very end is.
    assert_eq!(
        parse_porcelain_status(b"M\r"),
        GitStatus { modified: true, staged: true, untracked: false }
    );
}

#[test]
fn status_items_accumulate() {
    let mut status = GitStatus::empty();
    status.absorb(StatusItem::IndexWorktree(Some(WorktreeSummary::Renamed)));
    assert_eq!(status, GitStatus { modified: true, staged: false, untracked: false });
    status.absorb(StatusItem::IndexWorktree(None));
    status.absorb(StatusItem::IndexWorktree(Some(WorktreeSummary::Added)));
    assert!(!status.is_complete());
    status.absorb(StatusItem::TreeIndex);
    assert!(status.is_complete());
    let mut intent = GitStatus::empty();
    intent.absorb(StatusItem::IndexWorktree(Some(WorktreeSummary::IntentToAdd)));
    assert_eq!(intent, GitStatus { modified: false, staged: true, untracked: false });
}

#[test]
fn git_info_text() {
    let info = GitInfo::new(
        "main".to_string(),
        GitStatus { modified: true, staged: true, untracked: true },
    );
    assert_eq!(format_git_info(GitMode::Full, &info), "main*+?");
    assert_eq!(format_git_info(GitMode::Short, &info), "main");
    let clean = GitInfo::new("dev".to_string(), GitStatus::empty());
    assert_eq!(format_git_info(GitMode::Full, &clean), "dev");
    let untracked = GitInfo::new(
        "dev".to_string(),
        GitStatus { modified: false, staged: false, untracked: true },
    );
    assert_eq!(format_git_info(GitMode::Full, &untracked), "dev?");
}

#[test]
fn git_output_is_trimmed() {
    assert_eq!(git_output_value("  main\n"), Some("main".to_string()));
    assert_eq!(git_output_value(" \n"), None);
}

#[test]
fn git_module_without_repository_shows_nothing() {
    let module = GitModule::new();
    match module.render("short", &ModuleContext::default()) {
        Ok(ModuleOutput::Text(None)) => {}
        _ => panic!("expected no output"),
    }
    assert!(module.render("nope", &ModuleContext::default()).is_err());
}

#[test]
fn git_steps_follow_ownership_and_the_memo() {
    let mut memo = GitMemo::new();
    let full = GitFormat { mode: GitMode::Full, owned_only: false };
    let short_owned = GitFormat { mode: GitMode::Short, owned_only: true };

    assert!(matches!(git_step(full, None, true, &memo), GitStep::Nothing));
    assert!(matches!(git_step(short_owned, Some("/repo"), false, &memo), GitStep::Nothing));
    match git_step(full, Some("/repo"), false, &memo) {
        GitStep::LookUp { root, need_status } => {
            assert_eq!(root, "/repo");
            assert!(need_status);
        }
        _ => panic!("expected a look-up"),
    }
    match git_step(short_owned, Some("/repo"), true, &memo) {
        GitStep::LookUp { need_status, .. } => assert!(!need_status),
        _ => panic!("expected a look-up"),
    }

    let status = GitStatus { modified: true, staged: false, untracked: true };
    let text = finish_git_lookup(GitMode::Full, "/repo", "main".to_string(), status, &mut memo);
    assert_eq!(text, "main*?");
    assert_eq!(memo.get("/repo").map(|i| i.branch.as_str()), Some("main"));
    assert!(memo.get("/other").is_none());

    let short = GitFormat { mode: GitMode::Short, owned_only: false };
    match git_step(short, Some("/repo"), false, &memo) {
        GitStep::Show(t) => {
            assert_eq!(t, "main");
            assert!(text.starts_with(&t));
        }
        _ => panic!("expected the remembered text"),
    }
    match git_step(full, Some("/repo"), true, &memo) {
        GitStep::Show(t) => assert_eq!(t, "main*?"),
        _ => panic!("expected the remembered text"),
    }
    assert!(matches!(git_step(short_owned, Some("/repo"), false, &memo), GitStep::Nothing));
}

#[test]
fn git_format_parts_in_closed_form() {
    assert!(parse_git_format("o+s").map(|g| g.mode == GitMode::Short && g.owned_only).unwrap());
    assert!(parse_git_format("s+f").map(|g| g.mode == GitMode::Full && !g.owned_only).unwrap());
    assert!(parse_git_format("+owned_only+").map(|g| g.mode == GitMode::Full && g.owned_only).unwrap());
    assert!(parse_git_format("s+x").is_err());
}
