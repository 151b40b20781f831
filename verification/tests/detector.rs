use prmt::detector::{MarkerSearch, MAX_TRAVERSAL_DEPTH};

#[test]
fn detect_returns_empty_for_no_requirements() {
    let search = MarkerSearch::new(Vec::new(), "/tmp".to_string());
    assert!(!search.keep_climbing());
    let ctx = search.into_context();
    assert!(ctx.get("Cargo.toml").is_none());
}

/// Walks the directories `levels` (innermost first), where each level lists
/// the names it holds, as the prompt's working-directory search does.
fn walk(required: &[&str], levels: &[(&str, &[&str])]) -> prmt::detector::DetectionContext {
    let mut search =
        MarkerSearch::new(required.iter().map(|s| s.to_string()).collect(), levels[0].0.to_string());
    let mut level = 0;
    loop {
        let (dir, names) = levels[level];
        for marker in search.pending() {
            let candidate = search.candidate(&marker);
            assert_eq!(candidate, format!("{dir}/{marker}"));
            if names.contains(&marker.as_str()) {
                search.found_at(marker);
            }
        }
        if !search.keep_climbing() || level + 1 >= levels.len() {
            break;
        }
        level += 1;
        search.climbed(levels[level].0.to_string());
    }
    search.into_context()
}

#[test]
fn detect_finds_markers_up_the_tree() {
    let levels: &[(&str, &[&str])] = &[
        ("/tmp/x/project/src/bin", &[]),
        ("/tmp/x/project/src", &["bin"]),
        ("/tmp/x/project", &["Cargo.toml", ".git", "src"]),
        ("/tmp/x", &["project"]),
    ];
    let ctx = walk(&[".git", "Cargo.toml"], levels);
    let cargo = ctx.get("Cargo.toml").expect("detector should find Cargo.toml");
    assert!(cargo.ends_with("Cargo.toml"), "expected Cargo.toml to be the detected file");
    assert_eq!(cargo, "/tmp/x/project/Cargo.toml");
    let git = ctx.get(".git").expect("detector should find .git");
    assert!(git.ends_with(".git"), "expected .git directory to match");
    assert_eq!(git, "/tmp/x/project/.git");
}

#[test]
fn detect_handles_missing_markers() {
    let levels: &[(&str, &[&str])] = &[("/t/a/b/c", &[]), ("/t/a/b", &["c"]), ("/t/a", &["b"]), ("/t", &["a"])];
    let ctx = walk(&["Cargo.toml"], levels);
    assert!(ctx.get("Cargo.toml").is_none());
}

#[test]
fn detection_keeps_the_innermost_marker_and_stops_at_the_depth_limit() {
    let levels: &[(&str, &[&str])] = &[("/w/inner", &["package.json"]), ("/w", &["package.json", ".git"])];
    let ctx = walk(&["package.json", ".git"], levels);
    assert_eq!(ctx.get("package.json"), Some("/w/inner/package.json"));
    assert_eq!(ctx.get(".git"), Some("/w/.git"));

    let mut search = MarkerSearch::new(vec!["Cargo.toml".to_string()], "/a".to_string());
    let mut climbs = 0;
    while search.keep_climbing() {
        search.climbed("/".to_string());
        climbs += 1;
    }
    assert_eq!(climbs, MAX_TRAVERSAL_DEPTH);
}

#[test]
fn candidate_paths_join_the_directory_and_the_marker() {
    let search = MarkerSearch::new(vec!["Cargo.toml".to_string()], "/".to_string());
    assert_eq!(search.candidate("Cargo.toml"), "/Cargo.toml");
    let search = MarkerSearch::new(vec!["go.mod".to_string()], "/srv/app".to_string());
    assert_eq!(search.candidate("go.mod"), "/srv/app/go.mod");
    let search = MarkerSearch::new(vec!["go.mod".to_string()], String::new());
    assert_eq!(search.candidate("go.mod"), "go.mod");
}
