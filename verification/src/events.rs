//! Application events and input handling: the closed set of event kinds
//! that the single consumer drains, and the state transitions that key and
//! mouse input cause.

use vstd::prelude::*;
use crate::app::{ActivePanel, App};

verus! {

/// The interval of the periodic ticker, in milliseconds.
pub const TICK_INTERVAL_MS: u64 = 200;

/// A key, modeled as the closed set of codes the application reacts to.
#[derive(Debug, Clone, Copy, PartialEq, Eq, Structural)]
pub enum KeyCode {
    Char(char),
    Esc,
    Enter,
    Tab,
    Up,
    Down,
    PageUp,
    PageDown,
    Home,
    End,
    Other,
}

/// One keyboard input: a key code and whether control was held.
#[derive(Debug, Clone, Copy, PartialEq, Eq, Structural)]
pub struct KeyInput {
    pub code: KeyCode,
    pub ctrl: bool,
}

/// The mouse gestures the application reacts to.
#[derive(Debug, Clone, Copy, PartialEq, Eq, Structural)]
pub enum MouseKind {
    ScrollDown,
    ScrollUp,
    Down,
    Other,
}

/// One mouse input: the gesture and where it happened.
#[derive(Debug, Clone, Copy, PartialEq, Eq, Structural)]
pub struct MouseInput {
    pub kind: MouseKind,
    pub column: u16,
    pub row: u16,
}

/// Application events: the closed tagged union that the event multiplexer
/// delivers to its single consumer, in arrival order.
#[derive(Debug)]
pub enum Event {
    /// Terminal tick
    Tick,
    /// Keyboard input
    Key(KeyInput),
    /// Mouse input
    Mouse(MouseInput),
    /// Repository change detected, with the changed file paths
    GitChange(Vec<String>),
    /// Terminal resize
    Resize(u16, u16),
}

/// What a key asks of the surrounding shell: work that needs the backend
/// and cannot happen inside the state transition itself.
#[derive(Debug, Clone, Copy, PartialEq, Eq, Structural)]
pub enum KeyAction {
    /// Nothing beyond the state change already made.
    Nothing,
    /// Stage or unstage the selected file, then refresh.
    ToggleStage,
    /// Re-fetch the snapshot and reconcile manually.
    Refresh,
}

/// Keys that quit: `q`, escape, or control-c.
pub open spec fn is_quit_key(key: KeyInput) -> bool {
    ||| key.code == KeyCode::Char('q')
    ||| key.code == KeyCode::Esc
    ||| (key.code == KeyCode::Char('c') && key.ctrl)
}

/// Everything except the running flag, selection, focus and diff scroll is
/// untouched by input handling.
pub open spec fn input_frame(o: App, f: App) -> bool {
    &&& f.files == o.files
    &&& f.branch_name == o.branch_name
    &&& f.last_update == o.last_update
    &&& f.recently_changed == o.recently_changed
    &&& f.file_list_area == o.file_list_area
    &&& f.diff_view_area == o.diff_view_area
}

/// The effect of advancing the selection.
pub open spec fn select_next_rel(o: App, f: App) -> bool {
    &&& (o.files@.len() == 0 ==> f == o)
    &&& (o.files@.len() > 0 ==> {
        &&& f.selected_index == (o.selected_index + 1) % (o.files@.len() as int)
        &&& f.diff_scroll == 0
        &&& f.running == o.running
        &&& f.active_panel == o.active_panel
        &&& input_frame(o, f)
    })
}

/// The effect of moving the selection back.
pub open spec fn select_previous_rel(o: App, f: App) -> bool {
    &&& (o.files@.len() == 0 ==> f == o)
    &&& (o.files@.len() > 0 ==> {
        &&& f.selected_index == (if o.selected_index == 0 {
            o.files@.len() - 1
        } else {
            o.selected_index - 1
        })
        &&& f.diff_scroll == 0
        &&& f.running == o.running
        &&& f.active_panel == o.active_panel
        &&& input_frame(o, f)
    })
}

/// The effect of scrolling the diff view by `n` lines downwards,
/// saturating at the top of the range.
pub open spec fn scroll_down_rel(o: App, f: App, n: int) -> bool {
    &&& f.diff_scroll == (if o.diff_scroll + n <= usize::MAX {
        o.diff_scroll + n
    } else {
        usize::MAX as int
    })
    &&& f.selected_index == o.selected_index
    &&& f.running == o.running
    &&& f.active_panel == o.active_panel
    &&& input_frame(o, f)
}

/// The effect of scrolling the diff view by `n` lines upwards, saturating
/// at zero.
pub open spec fn scroll_up_rel(o: App, f: App, n: int) -> bool {
    &&& f.diff_scroll == (if o.diff_scroll - n >= 0 {
        o.diff_scroll - n
    } else {
        0int
    })
    &&& f.selected_index == o.selected_index
    &&& f.running == o.running
    &&& f.active_panel == o.active_panel
    &&& input_frame(o, f)
}

/// Whether coordinates fall inside an (x, y, width, height) area.
pub open spec fn is_in_area_spec(x: u16, y: u16, area: Option<(u16, u16, u16, u16)>) -> bool {
    match area {
        Some(a) => a.0 <= x < a.0 + a.2 && a.1 <= y < a.1 + a.3,
        None => false,
    }
}

/// Check if coordinates are within the given area.
pub fn is_in_area(x: u16, y: u16, area: Option<(u16, u16, u16, u16)>) -> (r: bool)
    ensures
        r == is_in_area_spec(x, y, area),
{
    match area {
        Some((ax, ay, width, height)) => {
            x >= ax && (x as u32) < ax as u32 + width as u32 && y >= ay && (y as u32) < ay as u32
                + height as u32
        },
        None => false,
    }
}

/// Handle one keyboard event: navigation and focus changes mutate the
/// state directly; quitting clears the running flag; stage-toggling and
/// manual refresh are returned as the action the shell must perform
/// against the backend.
pub fn handle_key_event(app: &mut App, key: KeyInput) -> (r: KeyAction)
    requires
        old(app).wf(),
    ensures
        final(app).wf(),
        is_quit_key(key) ==> quit_effect(*old(app), *final(app)) && r == KeyAction::Nothing,
        !is_quit_key(key) ==> match key.code {
            KeyCode::Char(c) => {
                if c == 'j' {
                    nav_down_effect(*old(app), *final(app)) && r == KeyAction::Nothing
                } else if c == 'k' {
                    nav_up_effect(*old(app), *final(app)) && r == KeyAction::Nothing
                } else if c == 'r' {
                    *final(app) == *old(app) && r == KeyAction::Refresh
                } else {
                    *final(app) == *old(app) && r == KeyAction::Nothing
                }
            },
            KeyCode::Down => nav_down_effect(*old(app), *final(app)) && r == KeyAction::Nothing,
            KeyCode::Up => nav_up_effect(*old(app), *final(app)) && r == KeyAction::Nothing,
            KeyCode::Tab => toggle_focus_effect(*old(app), *final(app)) && r
                == KeyAction::Nothing,
            KeyCode::Enter => *final(app) == *old(app) && r == KeyAction::ToggleStage,
            KeyCode::PageDown => scroll_down_rel(*old(app), *final(app), 10) && r
                == KeyAction::Nothing,
            KeyCode::PageUp => scroll_up_rel(*old(app), *final(app), 10) && r
                == KeyAction::Nothing,
            KeyCode::Home => home_effect(*old(app), *final(app)) && r == KeyAction::Nothing,
            KeyCode::End => end_effect(*old(app), *final(app)) && r == KeyAction::Nothing,
            _ => *final(app) == *old(app) && r == KeyAction::Nothing,
        },
{
    let quit = match key.code {
        KeyCode::Char(c) => c == 'q' || (c == 'c' && key.ctrl),
        KeyCode::Esc => true,
        _ => false,
    };
    if quit {
        app.quit();
        return KeyAction::Nothing;
    }
    match key.code {
        KeyCode::Char(c) => {
            if c == 'j' {
                nav_down(app);
                KeyAction::Nothing
            } else if c == 'k' {
                nav_up(app);
                KeyAction::Nothing
            } else if c == 'r' {
                KeyAction::Refresh
            } else {
                KeyAction::Nothing
            }
        },
        KeyCode::Down => {
            nav_down(app);
            KeyAction::Nothing
        },
        KeyCode::Up => {
            nav_up(app);
            KeyAction::Nothing
        },
        KeyCode::Tab => {
            app.toggle_panel();
            KeyAction::Nothing
        },
        KeyCode::Enter => KeyAction::ToggleStage,
        KeyCode::PageDown => {
            let mut n: usize = 0;
            while n < 10
                invariant
                    0 <= n <= 10,
                    app.wf(),
                    scroll_down_rel(*old(app), *app, n as int),
                decreases 10 - n,
            {
                app.scroll_diff_down();
                n = n + 1;
            }
            KeyAction::Nothing
        },
        KeyCode::PageUp => {
            let mut n: usize = 0;
            while n < 10
                invariant
                    0 <= n <= 10,
                    app.wf(),
                    scroll_up_rel(*old(app), *app, n as int),
                decreases 10 - n,
            {
                app.scroll_diff_up();
                n = n + 1;
            }
            KeyAction::Nothing
        },
        KeyCode::Home => {
            app.selected_index = 0;
            app.diff_scroll = 0;
            KeyAction::Nothing
        },
        KeyCode::End => {
            let len = app.files.len();
            if len > 0 {
                app.selected_index = len - 1;
                app.diff_scroll = 0;
            }
            KeyAction::Nothing
        },
        _ => KeyAction::Nothing,
    }
}

/// The effect of quitting: only the running flag falls.
pub open spec fn quit_effect(o: App, f: App) -> bool {
    &&& !f.running
    &&& f.selected_index == o.selected_index
    &&& f.active_panel == o.active_panel
    &&& f.diff_scroll == o.diff_scroll
    &&& input_frame(o, f)
}

/// The effect of switching focus between the two panels.
pub open spec fn toggle_focus_effect(o: App, f: App) -> bool {
    &&& f.active_panel == (match o.active_panel {
        ActivePanel::FileList => ActivePanel::DiffView,
        ActivePanel::DiffView => ActivePanel::FileList,
    })
    &&& f.running == o.running
    &&& f.selected_index == o.selected_index
    &&& f.diff_scroll == o.diff_scroll
    &&& input_frame(o, f)
}

/// The effect of jumping to the first entry.
pub open spec fn home_effect(o: App, f: App) -> bool {
    &&& f.selected_index == 0
    &&& f.diff_scroll == 0
    &&& f.running == o.running
    &&& f.active_panel == o.active_panel
    &&& input_frame(o, f)
}

/// The effect of jumping to the last entry, when there is one.
pub open spec fn end_effect(o: App, f: App) -> bool {
    &&& (o.files@.len() == 0 ==> f == o)
    &&& (o.files@.len() > 0 ==> {
        &&& f.selected_index == o.files@.len() - 1
        &&& f.diff_scroll == 0
        &&& f.running == o.running
        &&& f.active_panel == o.active_panel
        &&& input_frame(o, f)
    })
}

/// Down-navigation: next file when the list has focus, otherwise one line
/// of diff scroll.
pub open spec fn nav_down_effect(o: App, f: App) -> bool {
    &&& (o.active_panel == ActivePanel::FileList ==> select_next_rel(o, f))
    &&& (o.active_panel == ActivePanel::DiffView ==> scroll_down_rel(o, f, 1))
}

/// Up-navigation: previous file when the list has focus, otherwise one
/// line of diff scroll.
pub open spec fn nav_up_effect(o: App, f: App) -> bool {
    &&& (o.active_panel == ActivePanel::FileList ==> select_previous_rel(o, f))
    &&& (o.active_panel == ActivePanel::DiffView ==> scroll_up_rel(o, f, 1))
}

fn nav_down(app: &mut App)
    requires
        old(app).wf(),
    ensures
        final(app).wf(),
        nav_down_effect(*old(app), *final(app)),
{
    match app.active_panel {
        ActivePanel::FileList => app.select_next(),
        ActivePanel::DiffView => app.scroll_diff_down(),
    }
}

fn nav_up(app: &mut App)
    requires
        old(app).wf(),
    ensures
        final(app).wf(),
        nav_up_effect(*old(app), *final(app)),
{
    match app.active_panel {
        ActivePanel::FileList => app.select_previous(),
        ActivePanel::DiffView => app.scroll_diff_up(),
    }
}

/// The row of the file list that a click lands on, counting from the top
/// of the list's inner area (one row below the border).
pub open spec fn clicked_row(row: u16, area_y: u16) -> int {
    if row >= area_y + 1 {
        row - (area_y + 1)
    } else {
        0
    }
}

/// The effect of a press in the file list: it takes focus, and when the
/// clicked row names an entry, that entry is selected.
pub open spec fn click_list_effect(o: App, f: App, row: u16, area: (u16, u16, u16, u16)) -> bool {
    &&& f.active_panel == ActivePanel::FileList
    &&& (if clicked_row(row, area.1) < o.files@.len() {
        f.selected_index == clicked_row(row, area.1) && f.diff_scroll == 0
    } else {
        f.selected_index == o.selected_index && f.diff_scroll == o.diff_scroll
    })
    &&& f.running == o.running
    &&& input_frame(o, f)
}

/// The effect of a press in the diff view: it takes focus, nothing else.
pub open spec fn click_diff_effect(o: App, f: App) -> bool {
    &&& f.active_panel == ActivePanel::DiffView
    &&& f.selected_index == o.selected_index
    &&& f.diff_scroll == o.diff_scroll
    &&& f.running == o.running
    &&& input_frame(o, f)
}

/// Handle one mouse event: scrolling navigates whichever panel the
/// pointer is over, and a press focuses that panel — in the file list it
/// also selects the clicked row when one is there.
pub fn handle_mouse_event(
    app: &mut App,
    mouse: MouseInput,
    file_list_area: Option<(u16, u16, u16, u16)>,
    diff_view_area: Option<(u16, u16, u16, u16)>,
)
    requires
        old(app).wf(),
    ensures
        final(app).wf(),
        match mouse.kind {
            MouseKind::ScrollDown => {
                if is_in_area_spec(mouse.column, mouse.row, file_list_area) {
                    select_next_rel(*old(app), *final(app))
                } else if is_in_area_spec(mouse.column, mouse.row, diff_view_area) {
                    scroll_down_rel(*old(app), *final(app), 3)
                } else {
                    *final(app) == *old(app)
                }
            },
            MouseKind::ScrollUp => {
                if is_in_area_spec(mouse.column, mouse.row, file_list_area) {
                    select_previous_rel(*old(app), *final(app))
                } else if is_in_area_spec(mouse.column, mouse.row, diff_view_area) {
                    scroll_up_rel(*old(app), *final(app), 3)
                } else {
                    *final(app) == *old(app)
                }
            },
            MouseKind::Down => {
                if is_in_area_spec(mouse.column, mouse.row, file_list_area) {
                    match file_list_area {
                        Some(a) => click_list_effect(*old(app), *final(app), mouse.row, a),
                        None => false,
                    }
                } else if is_in_area_spec(mouse.column, mouse.row, diff_view_area) {
                    click_diff_effect(*old(app), *final(app))
                } else {
                    *final(app) == *old(app)
                }
            },
            MouseKind::Other => *final(app) == *old(app),
        },
{
    let in_file_list = is_in_area(mouse.column, mouse.row, file_list_area);
    let in_diff_view = is_in_area(mouse.column, mouse.row, diff_view_area);
    match mouse.kind {
        MouseKind::ScrollDown => {
            if in_file_list {
                app.select_next();
            } else if in_diff_view {
                app.scroll_diff_down();
                app.scroll_diff_down();
                app.scroll_diff_down();
            }
        },
        MouseKind::ScrollUp => {
            if in_file_list {
                app.select_previous();
            } else if in_diff_view {
                app.scroll_diff_up();
                app.scroll_diff_up();
                app.scroll_diff_up();
            }
        },
        MouseKind::Down => {
            if in_file_list {
                match file_list_area {
                    Some((_, y, _, _)) => {
                        let border: u32 = y as u32 + 1;
                        let relative_row: u16 = if mouse.row as u32 >= border {
                            (mouse.row as u32 - border) as u16
                        } else {
                            0
                        };
                        let index = relative_row as usize;
                        if index < app.files.len() {
                            app.selected_index = index;
                            app.diff_scroll = 0;
                        }
                    },
                    None => {},
                }
                app.active_panel = ActivePanel::FileList;
            } else if in_diff_view {
                app.active_panel = ActivePanel::DiffView;
            }
        },
        MouseKind::Other => {},
    }
}

} // verus!
