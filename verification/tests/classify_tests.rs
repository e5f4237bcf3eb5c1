use git_monitor::classify::{build_change_batch, classify_path, Classification};

#[test]
fn bookkeeping_paths_are_ignored() {
    let root = "/repo";
    assert_eq!(classify_path("/repo/.git/objects/ab/cdef", root), Classification::Ignore);
    assert_eq!(classify_path("/repo/.git/logs/HEAD", root), Classification::Ignore);
    assert_eq!(classify_path("/repo/.git/FETCH_HEAD", root), Classification::Ignore);
    assert_eq!(classify_path("/repo/target/debug/foo", root), Classification::Ignore);
    assert_eq!(classify_path("/repo/.git/hooks/pre-commit", root), Classification::Ignore);
}

#[test]
fn editor_noise_is_ignored() {
    let root = "/repo";
    assert_eq!(classify_path("/repo/src/main.rs.swp", root), Classification::Ignore);
    assert_eq!(classify_path("/repo/src/main.rs.swo", root), Classification::Ignore);
    assert_eq!(classify_path("/repo/src/main.rs~", root), Classification::Ignore);
}

#[test]
fn index_and_head_signal_metadata() {
    let root = "/repo";
    assert_eq!(classify_path("/repo/.git/index", root), Classification::MetadataChange);
    assert_eq!(classify_path("/repo/.git/HEAD", root), Classification::MetadataChange);
}

#[test]
fn other_git_internals_are_ignored() {
    let root = "/repo";
    assert_eq!(classify_path("/repo/.git/config", root), Classification::Ignore);
    assert_eq!(classify_path("/repo/.git/refs/heads/main", root), Classification::Ignore);
}

#[test]
fn working_tree_paths_are_relativized() {
    assert_eq!(
        classify_path("/repo/src/main.rs", "/repo"),
        Classification::WorkingTreeChange("src/main.rs".to_string())
    );
    // a trailing separator on the root makes no difference
    assert_eq!(
        classify_path("/repo/src/main.rs", "/repo/"),
        Classification::WorkingTreeChange("src/main.rs".to_string())
    );
}

#[test]
fn path_outside_root_is_used_unmodified() {
    assert_eq!(
        classify_path("/elsewhere/note.txt", "/repo"),
        Classification::WorkingTreeChange("/elsewhere/note.txt".to_string())
    );
    // a root that is not a whole leading component does not match
    assert_eq!(
        classify_path("/repository/note.txt", "/repo"),
        Classification::WorkingTreeChange("/repository/note.txt".to_string())
    );
}

#[test]
fn window_coalesces_into_one_deduplicated_batch() {
    let events = vec![
        "/repo/src/a.rs".to_string(),
        "/repo/.git/objects/ab/cd".to_string(),
        "/repo/src/b.rs".to_string(),
        "/repo/src/a.rs".to_string(),
        "/repo/src/a.rs".to_string(),
    ];
    let batch = build_change_batch(&events, "/repo").unwrap();
    assert_eq!(batch, vec!["src/a.rs".to_string(), "src/b.rs".to_string()]);
}

#[test]
fn bookkeeping_only_window_yields_no_batch() {
    let events = vec![
        "/repo/.git/objects/ab/cd".to_string(),
        "/repo/.git/logs/HEAD".to_string(),
        "/repo/src/a.rs.swp".to_string(),
        "/repo/target/debug/build".to_string(),
    ];
    assert!(build_change_batch(&events, "/repo").is_none());
}

#[test]
fn metadata_only_window_yields_an_empty_batch() {
    let events = vec!["/repo/.git/index".to_string()];
    let batch = build_change_batch(&events, "/repo").unwrap();
    assert!(batch.is_empty());
}

#[test]
fn empty_window_yields_no_batch() {
    let events: Vec<String> = Vec::new();
    assert!(build_change_batch(&events, "/repo").is_none());
}
