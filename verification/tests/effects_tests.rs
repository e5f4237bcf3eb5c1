use git_monitor::color::Color;
use git_monitor::diff::{classify_diff_line, clamp_scroll, origin_prefix, scroll_percent, DiffLineKind};
use git_monitor::effects::{Effect, EffectManager, EffectType, VisualState};
use git_monitor::icons::{parse_hex_color, FileIcon};
use git_monitor::status::FileStatus;
use git_monitor::file_list::get_status_display;

#[test]
fn effect_progress_and_completion() {
    let e = Effect::new(EffectType::Pulse, "a.txt".to_string(), 500, 1000);
    assert_eq!(e.progress(1000), 0);
    assert_eq!(e.progress(1250), 500);
    assert_eq!(e.progress(1500), 1000);
    assert_eq!(e.progress(9999), 1000);
    assert!(!e.is_complete(1499));
    assert!(e.is_complete(1500));
    // a clock that runs behind the start saturates at zero
    assert_eq!(e.progress(500), 0);
}

#[test]
fn trigger_file_change_replaces_effects() {
    let mut m = EffectManager::new();
    m.trigger_new_file("a.txt", 0);
    m.trigger_file_change("a.txt", 100);
    let effects = m.get_effects("a.txt").unwrap();
    assert_eq!(effects.len(), 3);
    assert_eq!(effects[0].effect_type, EffectType::Sweep);
    assert_eq!(effects[0].duration_ms, 300);
    assert_eq!(effects[1].effect_type, EffectType::Pulse);
    assert_eq!(effects[1].duration_ms, 500);
    assert_eq!(effects[2].effect_type, EffectType::Flash);
    assert_eq!(effects[2].duration_ms, 800);
    assert!(effects.iter().all(|e| e.start_ms == 100 && e.target_id == "a.txt"));
}

#[test]
fn trigger_new_file_and_delete() {
    let mut m = EffectManager::new();
    m.trigger_new_file("n.txt", 5);
    let effects = m.get_effects("n.txt").unwrap();
    assert_eq!(effects.len(), 1);
    assert_eq!(effects[0].effect_type, EffectType::FadeIn);
    assert_eq!(effects[0].duration_ms, 500);
    m.trigger_file_delete("n.txt", 10);
    let effects = m.get_effects("n.txt").unwrap();
    assert_eq!(effects.len(), 1);
    assert_eq!(effects[0].effect_type, EffectType::FadeOut);
    assert_eq!(effects[0].duration_ms, 300);
}

#[test]
fn add_effect_appends_to_target() {
    let mut m = EffectManager::new();
    m.add_effect("a.txt", Effect::new(EffectType::Flash, "a.txt".to_string(), 200, 0));
    m.add_effect("a.txt", Effect::new(EffectType::Sweep, "a.txt".to_string(), 300, 0));
    let effects = m.get_effects("a.txt").unwrap();
    assert_eq!(effects.len(), 2);
    assert!(m.get_effects("b.txt").is_none());
}

#[test]
fn cleanup_drops_completed_effects_and_empty_targets() {
    let mut m = EffectManager::new();
    m.trigger_file_change("a.txt", 0);
    m.trigger_new_file("b.txt", 0);
    // at 400ms the 300ms sweep and the 500ms effects diverge
    m.cleanup(400);
    let a = m.get_effects("a.txt").unwrap();
    assert_eq!(a.len(), 2);
    assert_eq!(a[0].effect_type, EffectType::Pulse);
    assert_eq!(a[1].effect_type, EffectType::Flash);
    let b = m.get_effects("b.txt").unwrap();
    assert_eq!(b.len(), 1);
    // once everything has run its course, both targets vanish
    m.cleanup(1000);
    assert!(m.get_effects("a.txt").is_none());
    assert!(m.get_effects("b.txt").is_none());
}

#[test]
fn visual_state_combines_channels() {
    let mut m = EffectManager::new();
    m.trigger_file_change("a.txt", 0);
    let vs = m.calculate_visual_state("a.txt", 0);
    assert_eq!(vs.sweep_position, Some(0));
    assert_eq!(vs.brightness, Some(500));
    assert_eq!(vs.flash_intensity, Some(1000));
    assert_eq!(vs.opacity, None);
    let empty = m.calculate_visual_state("other.txt", 0);
    assert_eq!(empty, VisualState::default());
}

#[test]
fn bg_color_uses_strongest_channel() {
    let vs = VisualState {
        sweep_position: None,
        brightness: Some(0),
        opacity: None,
        flash_intensity: Some(1000),
    };
    // half the flash intensity wins over zero brightness
    let c = vs.calculate_bg_color(Color::Rgb(0, 0, 0), Color::Rgb(200, 100, 50));
    assert_eq!(c, Color::Rgb(100, 50, 25));
    let none = VisualState::default();
    assert_eq!(
        none.calculate_bg_color(Color::Rgb(10, 20, 30), Color::Rgb(200, 100, 50)),
        Color::Rgb(10, 20, 30)
    );
}

#[test]
fn diff_lines_classify_for_coloring() {
    assert_eq!(classify_diff_line("@@ -1,4 +1,4 @@"), DiffLineKind::Hunk);
    assert_eq!(classify_diff_line("+added line"), DiffLineKind::Addition);
    assert_eq!(classify_diff_line("-removed line"), DiffLineKind::Deletion);
    assert_eq!(classify_diff_line("+++ b/file"), DiffLineKind::Context);
    assert_eq!(classify_diff_line("--- a/file"), DiffLineKind::Context);
    assert_eq!(classify_diff_line(" unchanged"), DiffLineKind::Context);
    assert_eq!(classify_diff_line(""), DiffLineKind::Context);
}

#[test]
fn diff_origin_prefixes() {
    assert_eq!(origin_prefix('+'), "+");
    assert_eq!(origin_prefix('-'), "-");
    assert_eq!(origin_prefix(' '), " ");
    assert_eq!(origin_prefix('@'), "@");
    assert_eq!(origin_prefix('>'), ">");
    assert_eq!(origin_prefix('<'), "<");
    assert_eq!(origin_prefix('F'), "");
    assert_eq!(origin_prefix('H'), "");
    assert_eq!(origin_prefix('B'), "");
}

#[test]
fn diff_scroll_clamps_to_content() {
    assert_eq!(clamp_scroll(0, 100, 20), 0);
    assert_eq!(clamp_scroll(80, 100, 20), 80);
    assert_eq!(clamp_scroll(95, 100, 20), 80);
    assert_eq!(clamp_scroll(5, 10, 20), 0);
    assert_eq!(scroll_percent(40, 80), 50);
    assert_eq!(scroll_percent(80, 80), 100);
    assert_eq!(scroll_percent(0, 0), 0);
}

#[test]
fn hex_colors_parse_to_rgb() {
    assert_eq!(parse_hex_color("#e44d26"), Color::Rgb(228, 77, 38));
    assert_eq!(parse_hex_color("e44d26"), Color::Rgb(228, 77, 38));
    assert_eq!(parse_hex_color("#FFFFFF"), Color::Rgb(255, 255, 255));
    assert_eq!(parse_hex_color("#fff"), Color::Rgb(158, 158, 158));
    assert_eq!(parse_hex_color(""), Color::Rgb(158, 158, 158));
    assert_eq!(parse_hex_color("#zzzzzz"), Color::Rgb(158, 158, 158));
}

#[test]
fn file_icon_comes_from_the_icon_tables() {
    let icon = FileIcon::from_filename("main.rs");
    assert_eq!(icon.icon.chars().count(), 1);
    assert_ne!(icon.icon, "m");
    // the rust extension's color in the icon tables
    assert_eq!(icon.color, Color::Rgb(0xde, 0xa5, 0x84));
}

#[test]
fn status_symbols_and_colors() {
    assert_eq!(FileStatus::Modified.symbol(), "M");
    assert_eq!(FileStatus::Added.symbol(), "A");
    assert_eq!(FileStatus::Deleted.symbol(), "D");
    assert_eq!(FileStatus::Renamed.symbol(), "R");
    assert_eq!(FileStatus::Untracked.symbol(), "U");
    assert_eq!(FileStatus::Conflicted.symbol(), "!");
    let (sym, color) = get_status_display(&FileStatus::Modified, true);
    assert_eq!(sym, "M");
    assert_eq!(color, Color::Rgb(166, 227, 161));
    let (sym, color) = get_status_display(&FileStatus::Modified, false);
    assert_eq!(sym, "M");
    assert_eq!(color, Color::Rgb(249, 226, 175));
}
