use git_monitor::color::{calculate_pulse_brightness, interpolate_color, Color};
use git_monitor::file_list::{format_filename_and_dir, split_path};

// ==================== split_path tests ====================

#[test]
fn test_split_path_with_directory() {
    let (filename, directory) = split_path("src/ui/components/file_list.rs");
    assert_eq!(filename, "file_list.rs");
    assert_eq!(directory, "src/ui/components");
}

#[test]
fn test_split_path_single_directory() {
    let (filename, directory) = split_path("src/main.rs");
    assert_eq!(filename, "main.rs");
    assert_eq!(directory, "src");
}

#[test]
fn test_split_path_no_directory() {
    let (filename, directory) = split_path("README.md");
    assert_eq!(filename, "README.md");
    assert_eq!(directory, "");
}

#[test]
fn test_split_path_deep_nested() {
    let (filename, directory) = split_path("a/b/c/d/e/f.txt");
    assert_eq!(filename, "f.txt");
    assert_eq!(directory, "a/b/c/d/e");
}

// ==================== format_filename_and_dir tests ====================

#[test]
fn test_format_filename_and_dir_enough_space() {
    let (filename, dir) = format_filename_and_dir("main.rs", "src", 20);
    assert_eq!(filename, "main.rs");
    assert_eq!(dir, "src");
}

#[test]
fn test_format_filename_and_dir_no_directory() {
    let (filename, dir) = format_filename_and_dir("README.md", "", 20);
    assert_eq!(filename, "README.md");
    assert_eq!(dir, "");
}

#[test]
fn test_format_filename_and_dir_truncate_directory() {
    // filename(7) + space(1) + dir needs truncation
    let (filename, dir) = format_filename_and_dir("main.rs", "src/ui/components", 15);
    assert_eq!(filename, "main.rs");
    // Available for dir: 15 - 7 - 1 = 7, so truncate with "..."
    assert!(dir.starts_with("..."));
}

#[test]
fn test_format_filename_and_dir_no_space_for_directory() {
    // filename(10) fits in available(12), but no space for directory
    let (filename, dir) = format_filename_and_dir("config.toml", "src", 12);
    assert_eq!(filename, "config.toml");
    assert_eq!(dir, "");
}

#[test]
fn test_format_filename_and_dir_truncate_filename() {
    let (filename, dir) = format_filename_and_dir("extremely_long_filename.rs", "src", 10);
    // Filename alone is too long, truncate it
    assert!(filename.ends_with("..."));
    assert_eq!(dir, "");
}

#[test]
fn test_format_filename_and_dir_exact_fit() {
    // filename(4) + space(1) + dir(3) = 8
    let (filename, dir) = format_filename_and_dir("test", "abc", 8);
    assert_eq!(filename, "test");
    assert_eq!(dir, "abc");
}

// ==================== calculate_pulse_brightness tests ====================

#[test]
fn test_calculate_pulse_brightness_at_start() {
    let brightness = calculate_pulse_brightness(0);
    // At progress=0 the wave is at its midpoint, so brightness is exactly half
    assert_eq!(brightness, 500);
}

#[test]
fn test_calculate_pulse_brightness_at_end() {
    let brightness = calculate_pulse_brightness(1000);
    // At progress=1000 the decay factor is 0, so brightness is 0
    assert_eq!(brightness, 0);
}

#[test]
fn test_calculate_pulse_brightness_in_range() {
    // Brightness should always be between 0 and 1000 permille
    for i in 0..=100u64 {
        let progress = i * 10;
        let brightness = calculate_pulse_brightness(progress);
        assert!(
            brightness <= 1000,
            "Brightness {} out of range at progress {}",
            brightness,
            progress
        );
    }
}

// ==================== interpolate_color tests ====================

#[test]
fn test_interpolate_color_factor_zero() {
    let from = Color::Rgb(0, 0, 0);
    let to = Color::Rgb(255, 255, 255);
    let result = interpolate_color(from, to, 0);
    assert_eq!(result, Color::Rgb(0, 0, 0));
}

#[test]
fn test_interpolate_color_factor_one() {
    let from = Color::Rgb(0, 0, 0);
    let to = Color::Rgb(255, 255, 255);
    let result = interpolate_color(from, to, 1000);
    assert_eq!(result, Color::Rgb(255, 255, 255));
}

#[test]
fn test_interpolate_color_factor_half() {
    let from = Color::Rgb(0, 0, 0);
    let to = Color::Rgb(200, 100, 50);
    let result = interpolate_color(from, to, 500);
    assert_eq!(result, Color::Rgb(100, 50, 25));
}

#[test]
fn test_interpolate_color_non_rgb_returns_to() {
    let from = Color::Red;
    let to = Color::Blue;
    let result = interpolate_color(from, to, 500);
    assert_eq!(result, Color::Blue);
}

#[test]
fn test_interpolate_color_mixed_types() {
    let from = Color::Red;
    let to = Color::Rgb(100, 100, 100);
    let result = interpolate_color(from, to, 500);
    // Non-RGB from returns to
    assert_eq!(result, Color::Rgb(100, 100, 100));
}
