use git_monitor::app::{ActivePanel, App};
use git_monitor::status::{FileChange, FileStatus};

fn entry(path: &str, status: FileStatus, staged: bool) -> FileChange {
    FileChange {
        path: path.to_string(),
        status,
        staged,
        additions: 0,
        deletions: 0,
        modified_time: None,
    }
}

fn modified(path: &str) -> FileChange {
    entry(path, FileStatus::Modified, false)
}

fn paths(app: &App) -> Vec<String> {
    let mut out: Vec<String> = Vec::new();
    for f in app.files.iter() {
        out.push(f.path.clone());
    }
    out
}

#[test]
fn manual_refresh_sorts_untouched_entries_by_path() {
    let mut app = App::new(
        vec![modified("c.txt"), modified("a.txt"), modified("b.txt")],
        "main".to_string(),
        0,
    );
    app.refresh_status(
        vec![modified("c.txt"), modified("a.txt"), modified("b.txt")],
        "main".to_string(),
        100,
    );
    assert_eq!(paths(&app), vec!["a.txt", "b.txt", "c.txt"]);
}

#[test]
fn recency_sort_example_order() {
    // a.txt touched most recently, b.txt 100ms earlier, the others never:
    // touched entries lead newest-first, untouched follow in path order
    let snapshot = || {
        vec![modified("a.txt"), modified("b.txt"), modified("c.txt"), modified("a0.txt")]
    };
    let mut app = App::new(snapshot(), "main".to_string(), 0);
    app.refresh_status_with_paths(snapshot(), "main".to_string(), vec!["b.txt".to_string()], 900);
    app.refresh_status_with_paths(snapshot(), "main".to_string(), vec!["a.txt".to_string()], 1000);
    assert_eq!(paths(&app), vec!["a.txt", "b.txt", "a0.txt", "c.txt"]);
}

#[test]
fn selection_stays_on_path_across_reconciliation() {
    let mut app = App::new(
        vec![modified("a.txt"), modified("b.txt"), modified("c.txt")],
        "main".to_string(),
        0,
    );
    app.select_next();
    assert_eq!(app.files[app.selected_index].path, "b.txt");
    // a touch reorders the collection; the selected path must survive
    let snapshot = vec![modified("a.txt"), modified("b.txt"), modified("c.txt")];
    app.refresh_status_with_paths(snapshot, "main".to_string(), vec!["c.txt".to_string()], 100);
    assert_eq!(paths(&app), vec!["c.txt", "a.txt", "b.txt"]);
    assert_eq!(app.files[app.selected_index].path, "b.txt");
    assert_eq!(app.selected_index, 2);
}

#[test]
fn selection_clamps_when_path_vanishes() {
    let mut app = App::new(
        vec![modified("a.txt"), modified("b.txt"), modified("c.txt")],
        "main".to_string(),
        0,
    );
    app.select_next();
    app.select_next();
    assert_eq!(app.selected_index, 2);
    app.refresh_status(vec![modified("a.txt")], "main".to_string(), 100);
    assert_eq!(app.selected_index, 0);
    assert_eq!(app.files[app.selected_index].path, "a.txt");
}

#[test]
fn pruning_removes_record_for_vanished_path() {
    let snapshot = || vec![modified("a.txt"), modified("x.txt")];
    let mut app = App::new(snapshot(), "main".to_string(), 0);
    app.refresh_status_with_paths(snapshot(), "main".to_string(), vec!["x.txt".to_string()], 100);
    assert!(app.is_recently_changed("x.txt", 100));
    // x.txt is absent from the fresh snapshot: its record must be swept
    app.refresh_status(vec![modified("a.txt")], "main".to_string(), 200);
    assert!(!app.is_recently_changed("x.txt", 200));
    assert_eq!(app.get_change_progress("x.txt", 200), None);
}

#[test]
fn manual_refresh_twice_is_idempotent() {
    let snapshot = || {
        vec![modified("b.txt"), modified("a.txt"), entry("z.txt", FileStatus::Untracked, false)]
    };
    let mut app = App::new(snapshot(), "main".to_string(), 0);
    app.refresh_status_with_paths(snapshot(), "main".to_string(), vec!["z.txt".to_string()], 50);
    app.refresh_status(snapshot(), "main".to_string(), 100);
    let order_once = paths(&app);
    let selected_once = app.selected_index;
    app.refresh_status(snapshot(), "main".to_string(), 150);
    assert_eq!(paths(&app), order_once);
    assert_eq!(app.selected_index, selected_once);
}

#[test]
fn end_to_end_change_batch_scenario() {
    // repository has src/a.rs modified/unstaged and src/b.rs untracked,
    // selection on src/a.rs; a change-batch names src/b.rs
    let snapshot = || {
        vec![
            entry("src/a.rs", FileStatus::Modified, false),
            entry("src/b.rs", FileStatus::Untracked, false),
        ]
    };
    let mut app = App::new(snapshot(), "main".to_string(), 0);
    assert_eq!(app.files[app.selected_index].path, "src/a.rs");
    app.refresh_status_with_paths(
        snapshot(),
        "main".to_string(),
        vec!["src/b.rs".to_string()],
        1000,
    );
    assert!(app.is_recently_changed("src/b.rs", 1000));
    assert_eq!(app.get_change_progress("src/b.rs", 1000), Some(0));
    assert_eq!(paths(&app), vec!["src/b.rs", "src/a.rs"]);
    assert_eq!(app.files[app.selected_index].path, "src/a.rs");
    assert_eq!(app.selected_index, 1);
}

#[test]
fn touched_path_matches_by_suffix() {
    // the watcher reports an absolute path; the snapshot holds a relative one
    let snapshot = || vec![modified("src/a.rs"), modified("src/b.rs")];
    let mut app = App::new(snapshot(), "main".to_string(), 0);
    app.refresh_status_with_paths(
        snapshot(),
        "main".to_string(),
        vec!["/home/user/repo/src/b.rs".to_string()],
        100,
    );
    assert!(app.is_recently_changed("src/b.rs", 100));
    assert_eq!(paths(&app), vec!["src/b.rs", "src/a.rs"]);
}

#[test]
fn touched_path_without_entry_is_dropped() {
    let snapshot = || vec![modified("a.txt")];
    let mut app = App::new(snapshot(), "main".to_string(), 0);
    app.refresh_status_with_paths(snapshot(), "main".to_string(), vec!["gone.txt".to_string()], 100);
    assert!(!app.is_recently_changed("gone.txt", 100));
    assert!(!app.is_recently_changed("a.txt", 100));
}

#[test]
fn recency_progress_and_expiry() {
    let snapshot = || vec![modified("a.txt")];
    let mut app = App::new(snapshot(), "main".to_string(), 0);
    app.refresh_status_with_paths(snapshot(), "main".to_string(), vec!["a.txt".to_string()], 1000);
    assert_eq!(app.get_change_progress("a.txt", 1400), Some(500));
    assert!(app.is_recently_changed("a.txt", 1799));
    // the 800ms window has passed: the visual effect ends
    assert!(!app.is_recently_changed("a.txt", 1800));
    assert_eq!(app.get_change_progress("a.txt", 1800), None);
}

#[test]
fn select_next_and_previous_wrap() {
    let mut app = App::new(
        vec![modified("a.txt"), modified("b.txt"), modified("c.txt")],
        "main".to_string(),
        0,
    );
    app.select_next();
    app.select_next();
    assert_eq!(app.selected_index, 2);
    app.select_next();
    assert_eq!(app.selected_index, 0);
    app.select_previous();
    assert_eq!(app.selected_index, 2);
    app.select_previous();
    assert_eq!(app.selected_index, 1);
}

#[test]
fn selection_noops_on_empty_collection() {
    let mut app = App::new(Vec::new(), "main".to_string(), 0);
    app.select_next();
    app.select_previous();
    assert_eq!(app.selected_index, 0);
    assert!(app.selected_file().is_none());
    assert!(app.toggle_stage().is_none());
}

#[test]
fn toggle_panel_flips_focus() {
    let mut app = App::new(Vec::new(), "main".to_string(), 0);
    assert_eq!(app.active_panel, ActivePanel::FileList);
    app.toggle_panel();
    assert_eq!(app.active_panel, ActivePanel::DiffView);
    app.toggle_panel();
    assert_eq!(app.active_panel, ActivePanel::FileList);
}

#[test]
fn toggle_stage_reports_selected_entry() {
    let mut app = App::new(
        vec![entry("a.txt", FileStatus::Modified, true), modified("b.txt")],
        "main".to_string(),
        0,
    );
    let req = app.toggle_stage().unwrap();
    assert_eq!(req.0, "a.txt");
    assert!(req.1);
    app.select_next();
    let req = app.toggle_stage().unwrap();
    assert_eq!(req.0, "b.txt");
    assert!(!req.1);
}

#[test]
fn status_counts() {
    let app = App::new(
        vec![
            entry("a.txt", FileStatus::Modified, true),
            entry("b.txt", FileStatus::Modified, false),
            entry("c.txt", FileStatus::Untracked, false),
            entry("d.txt", FileStatus::Added, true),
            entry("e.txt", FileStatus::Modified, false),
        ],
        "main".to_string(),
        0,
    );
    assert_eq!(app.staged_count(), 2);
    assert_eq!(app.modified_count(), 2);
    assert_eq!(app.untracked_count(), 1);
}

#[test]
fn seconds_since_update_counts_whole_seconds() {
    let mut app = App::new(Vec::new(), "main".to_string(), 0);
    app.refresh_status(Vec::new(), "main".to_string(), 10_000);
    assert_eq!(app.seconds_since_update(12_500), 2);
    assert_eq!(app.seconds_since_update(10_000), 0);
    assert_eq!(app.seconds_since_update(9_000), 0);
}

#[test]
fn quit_stops_the_loop() {
    let mut app = App::new(Vec::new(), "main".to_string(), 0);
    assert!(app.is_running());
    app.quit();
    assert!(!app.is_running());
}

#[test]
fn refresh_replaces_branch_name() {
    let mut app = App::new(Vec::new(), "main".to_string(), 0);
    app.refresh_status(Vec::new(), "feature/x".to_string(), 10);
    assert_eq!(app.branch_name, "feature/x");
    assert_eq!(app.last_update, 10);
}
