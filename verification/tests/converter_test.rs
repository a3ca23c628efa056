use sexy_claude::converter::{convert_bg, convert_fg, is_dark_bg, CellColor, UiColor};

const TEST_BG: UiColor = UiColor::Rgb(30, 30, 46);

#[test]
fn test_convert_bg_default_uses_theme() {
    assert_eq!(convert_bg(CellColor::Default, TEST_BG), TEST_BG);
}

#[test]
fn test_convert_bg_dark_rgb_uses_theme() {
    assert_eq!(convert_bg(CellColor::Rgb(20, 20, 20), TEST_BG), TEST_BG);
}

#[test]
fn test_convert_bg_bright_rgb_preserved() {
    assert_eq!(convert_bg(CellColor::Rgb(200, 100, 50), TEST_BG), UiColor::Rgb(200, 100, 50));
}

#[test]
fn test_convert_bg_black_indexed_uses_theme() {
    assert_eq!(convert_bg(CellColor::Idx(0), TEST_BG), TEST_BG);
}

#[test]
fn test_convert_bg_colored_indexed_preserved() {
    assert_eq!(convert_bg(CellColor::Idx(1), TEST_BG), UiColor::Indexed(1));
}

#[test]
fn test_convert_bg_dark_gray_indexed_uses_theme() {
    assert_eq!(convert_bg(CellColor::Idx(232), TEST_BG), TEST_BG);
    assert_eq!(convert_bg(CellColor::Idx(237), TEST_BG), TEST_BG);
    assert_eq!(convert_bg(CellColor::Idx(238), TEST_BG), UiColor::Indexed(238));
}

#[test]
fn test_convert_fg_default() {
    assert_eq!(convert_fg(CellColor::Default, TEST_BG), UiColor::Reset);
}

#[test]
fn test_convert_fg_indexed() {
    assert_eq!(convert_fg(CellColor::Idx(1), TEST_BG), UiColor::Indexed(1));
}

#[test]
fn test_convert_fg_rgb() {
    assert_eq!(convert_fg(CellColor::Rgb(255, 128, 0), TEST_BG), UiColor::Rgb(255, 128, 0));
}

#[test]
fn test_is_dark_bg() {
    assert!(is_dark_bg(0, 0, 0));
    assert!(is_dark_bg(20, 20, 30));
    assert!(is_dark_bg(30, 30, 46));
    assert!(!is_dark_bg(100, 100, 100));
    assert!(!is_dark_bg(255, 255, 255));
}

#[test]
fn test_is_dark_bg_threshold() {
    // Luminance 34 is dark, 35 is not.
    assert!(is_dark_bg(34, 34, 34));
    assert!(!is_dark_bg(35, 35, 35));
}
