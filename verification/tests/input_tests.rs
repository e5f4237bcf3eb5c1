use git_monitor::app::{ActivePanel, App};
use git_monitor::events::{
    handle_key_event, handle_mouse_event, is_in_area, KeyAction, KeyCode, KeyInput, MouseInput,
    MouseKind,
};
use git_monitor::sorting::sort_by_modified_time;
use git_monitor::status::{parse_status, FileChange, FileStatus, StatusFlags};

fn entry(path: &str, mtime: Option<u64>) -> FileChange {
    FileChange {
        path: path.to_string(),
        status: FileStatus::Modified,
        staged: false,
        additions: 0,
        deletions: 0,
        modified_time: mtime,
    }
}

fn three_files() -> Vec<FileChange> {
    vec![entry("a.txt", None), entry("b.txt", None), entry("c.txt", None)]
}

fn key(code: KeyCode) -> KeyInput {
    KeyInput { code, ctrl: false }
}

#[test]
fn quit_keys_stop_the_app() {
    for k in [key(KeyCode::Char('q')), key(KeyCode::Esc), KeyInput {
        code: KeyCode::Char('c'),
        ctrl: true,
    }] {
        let mut app = App::new(three_files(), "main".to_string(), 0);
        let action = handle_key_event(&mut app, k);
        assert!(!app.is_running());
        assert_eq!(action, KeyAction::Nothing);
    }
    // a plain 'c' does not quit
    let mut app = App::new(three_files(), "main".to_string(), 0);
    handle_key_event(&mut app, key(KeyCode::Char('c')));
    assert!(app.is_running());
}

#[test]
fn j_and_k_navigate_the_file_list() {
    let mut app = App::new(three_files(), "main".to_string(), 0);
    handle_key_event(&mut app, key(KeyCode::Char('j')));
    assert_eq!(app.selected_index, 1);
    handle_key_event(&mut app, key(KeyCode::Down));
    assert_eq!(app.selected_index, 2);
    handle_key_event(&mut app, key(KeyCode::Char('k')));
    assert_eq!(app.selected_index, 1);
    handle_key_event(&mut app, key(KeyCode::Up));
    assert_eq!(app.selected_index, 0);
}

#[test]
fn j_and_k_scroll_the_diff_when_it_has_focus() {
    let mut app = App::new(three_files(), "main".to_string(), 0);
    handle_key_event(&mut app, key(KeyCode::Tab));
    assert_eq!(app.active_panel, ActivePanel::DiffView);
    handle_key_event(&mut app, key(KeyCode::Char('j')));
    handle_key_event(&mut app, key(KeyCode::Char('j')));
    assert_eq!(app.diff_scroll, 2);
    handle_key_event(&mut app, key(KeyCode::Char('k')));
    assert_eq!(app.diff_scroll, 1);
    assert_eq!(app.selected_index, 0);
}

#[test]
fn page_keys_scroll_ten_lines() {
    let mut app = App::new(three_files(), "main".to_string(), 0);
    handle_key_event(&mut app, key(KeyCode::PageDown));
    assert_eq!(app.diff_scroll, 10);
    handle_key_event(&mut app, key(KeyCode::PageUp));
    assert_eq!(app.diff_scroll, 0);
    handle_key_event(&mut app, key(KeyCode::PageUp));
    assert_eq!(app.diff_scroll, 0);
}

#[test]
fn home_and_end_jump_the_selection() {
    let mut app = App::new(three_files(), "main".to_string(), 0);
    handle_key_event(&mut app, key(KeyCode::End));
    assert_eq!(app.selected_index, 2);
    handle_key_event(&mut app, key(KeyCode::Home));
    assert_eq!(app.selected_index, 0);
}

#[test]
fn enter_and_r_request_backend_work() {
    let mut app = App::new(three_files(), "main".to_string(), 0);
    assert_eq!(handle_key_event(&mut app, key(KeyCode::Enter)), KeyAction::ToggleStage);
    assert_eq!(handle_key_event(&mut app, key(KeyCode::Char('r'))), KeyAction::Refresh);
    assert_eq!(handle_key_event(&mut app, key(KeyCode::Char('x'))), KeyAction::Nothing);
    assert_eq!(app.selected_index, 0);
    assert!(app.is_running());
}

#[test]
fn is_in_area_checks_bounds() {
    let area = Some((10u16, 5u16, 20u16, 10u16));
    assert!(is_in_area(10, 5, area));
    assert!(is_in_area(29, 14, area));
    assert!(!is_in_area(30, 5, area));
    assert!(!is_in_area(10, 15, area));
    assert!(!is_in_area(9, 5, area));
    assert!(!is_in_area(10, 4, area));
    assert!(!is_in_area(10, 5, None));
}

#[test]
fn mouse_click_selects_the_clicked_row() {
    let mut app = App::new(three_files(), "main".to_string(), 0);
    let list_area = Some((0u16, 0u16, 40u16, 20u16));
    let diff_area = Some((40u16, 0u16, 40u16, 20u16));
    // row 3 is two rows below the border: the third entry
    let click = MouseInput { kind: MouseKind::Down, column: 5, row: 3 };
    handle_mouse_event(&mut app, click, list_area, diff_area);
    assert_eq!(app.selected_index, 2);
    assert_eq!(app.active_panel, ActivePanel::FileList);
    // a click below the last entry only focuses the list
    let click = MouseInput { kind: MouseKind::Down, column: 5, row: 15 };
    handle_mouse_event(&mut app, click, list_area, diff_area);
    assert_eq!(app.selected_index, 2);
    // a click in the diff view focuses it
    let click = MouseInput { kind: MouseKind::Down, column: 45, row: 3 };
    handle_mouse_event(&mut app, click, list_area, diff_area);
    assert_eq!(app.active_panel, ActivePanel::DiffView);
}

#[test]
fn mouse_scroll_navigates_and_scrolls() {
    let mut app = App::new(three_files(), "main".to_string(), 0);
    let list_area = Some((0u16, 0u16, 40u16, 20u16));
    let diff_area = Some((40u16, 0u16, 40u16, 20u16));
    let scroll = MouseInput { kind: MouseKind::ScrollDown, column: 5, row: 3 };
    handle_mouse_event(&mut app, scroll, list_area, diff_area);
    assert_eq!(app.selected_index, 1);
    let scroll = MouseInput { kind: MouseKind::ScrollDown, column: 45, row: 3 };
    handle_mouse_event(&mut app, scroll, list_area, diff_area);
    assert_eq!(app.diff_scroll, 3);
    let scroll = MouseInput { kind: MouseKind::ScrollUp, column: 45, row: 3 };
    handle_mouse_event(&mut app, scroll, list_area, diff_area);
    assert_eq!(app.diff_scroll, 0);
    let scroll = MouseInput { kind: MouseKind::ScrollUp, column: 5, row: 3 };
    handle_mouse_event(&mut app, scroll, list_area, diff_area);
    assert_eq!(app.selected_index, 0);
}

#[test]
fn conflicts_win_over_staged_and_working_tree_flags() {
    let mut flags = StatusFlags {
        conflicted: true,
        index_new: true,
        index_modified: false,
        index_deleted: false,
        index_renamed: false,
        wt_new: true,
        wt_modified: false,
        wt_deleted: false,
        wt_renamed: false,
    };
    assert_eq!(parse_status(flags), (Some(FileStatus::Conflicted), false));
    flags.conflicted = false;
    assert_eq!(parse_status(flags), (Some(FileStatus::Added), true));
    flags.index_new = false;
    assert_eq!(parse_status(flags), (Some(FileStatus::Untracked), false));
    flags.wt_new = false;
    assert_eq!(parse_status(flags), (None, false));
}

#[test]
fn staged_flags_classify_before_working_tree_flags() {
    let flags = StatusFlags {
        conflicted: false,
        index_new: false,
        index_modified: true,
        index_deleted: false,
        index_renamed: false,
        wt_new: false,
        wt_modified: true,
        wt_deleted: false,
        wt_renamed: false,
    };
    assert_eq!(parse_status(flags), (Some(FileStatus::Modified), true));
}

#[test]
fn snapshot_sorts_newest_modification_first() {
    let files = vec![
        entry("old.txt", Some(100)),
        entry("never.txt", None),
        entry("new.txt", Some(300)),
        entry("mid.txt", Some(200)),
        entry("also_never.txt", None),
    ];
    let sorted = sort_by_modified_time(files);
    let order: Vec<&str> = sorted.iter().map(|f| f.path.as_str()).collect();
    assert_eq!(order, vec!["new.txt", "mid.txt", "old.txt", "also_never.txt", "never.txt"]);
}
