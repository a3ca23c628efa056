use sexy_claude::config::{validate_settings, ConfigError, LayoutConfig};

#[test]
fn test_validation_fps() {
    let layout = LayoutConfig::default();
    assert!(validate_settings(0, &layout).is_err());
}

#[test]
fn test_validation_pane_percent() {
    let layout = LayoutConfig { claude_pane_percent: 10 };
    assert!(validate_settings(30, &layout).is_err());
}

#[test]
fn layout_default_share() {
    assert_eq!(LayoutConfig::default().claude_pane_percent, 70);
}

#[test]
fn settings_ranges() {
    let ok = LayoutConfig { claude_pane_percent: 20 };
    assert_eq!(validate_settings(1, &ok), Ok(()));
    assert_eq!(validate_settings(120, &LayoutConfig { claude_pane_percent: 100 }), Ok(()));
    assert_eq!(validate_settings(121, &ok), Err(ConfigError::Fps));
    assert_eq!(validate_settings(0, &LayoutConfig { claude_pane_percent: 5 }), Err(ConfigError::Fps));
    assert_eq!(validate_settings(60, &LayoutConfig { claude_pane_percent: 101 }), Err(ConfigError::PanePercent));
    assert_eq!(ConfigError::Fps.message(), "fps must be between 1 and 120");
}

#[test]
fn saving_the_theme_keeps_the_other_values() {
    let text = sexy_claude::config::config_text_with_theme(Some("fps = 60\ntheme = \"nord\"\n"), "dracula").unwrap();
    assert!(text.contains("fps = 60"));
    assert!(text.contains("theme = \"dracula\""));
    assert!(!text.contains("nord"));
}

#[test]
fn saving_the_theme_without_a_file_writes_only_the_theme() {
    let text = sexy_claude::config::config_text_with_theme(None, "nord").unwrap();
    assert_eq!(text.trim(), "theme = \"nord\"");
    let broken = sexy_claude::config::config_text_with_theme(Some("not = = toml"), "nord").unwrap();
    assert_eq!(broken.trim(), "theme = \"nord\"");
}
