use oyo_core::color::Color;
use oyo_core::config::{resolve_background, resolve_token, DarkLight};
use std::collections::HashMap;
use oyo_core::config::{Config, FilesConfig, PlaybackConfig, ThemeConfig, ThemeTokens, UiConfig};
use oyo_core::display::ViewMode;

#[test]
fn playback_defaults() {
    let p = PlaybackConfig::default();
    assert_eq!(p.speed, 200);
    assert_eq!(p.animation_duration, 150);
    assert!(!p.autoplay && !p.animation && !p.auto_step_on_enter);
    assert!(p.auto_step_blank_files);
    assert!(FilesConfig::default().panel_visible);
}

#[test]
fn ui_defaults() {
    let ui = UiConfig::default();
    assert!(ui.auto_center);
    assert!(!ui.zen && !ui.line_wrap && !ui.scrollbar && !ui.strikethrough_deletions);
    assert_eq!(ui.primary_marker, "▶");
    assert_eq!(ui.extent_marker, "▌");
    assert!(ui.primary_marker_right.is_none() && ui.extent_marker_right.is_none());
    assert!(ui.theme.defs.is_empty());
    assert!(ThemeTokens::default().diff_added.is_none());
}

#[test]
fn configured_view_mode_and_theme_mode() {
    let mut config = Config::default();
    assert_eq!(config.parse_view_mode(), None);
    config.ui.view_mode = Some("sbs".to_string());
    assert_eq!(config.parse_view_mode(), Some(ViewMode::Split));
    config.ui.view_mode = Some("evo".to_string());
    assert_eq!(config.parse_view_mode(), Some(ViewMode::Evolution));
    config.ui.view_mode = Some("other".to_string());
    assert_eq!(config.parse_view_mode(), None);

    let mut theme = ThemeConfig::default();
    assert!(!theme.is_light_mode());
    theme.mode = Some("LIGHT".to_string());
    assert!(theme.is_light_mode());
    theme.mode = Some("dark".to_string());
    assert!(!theme.is_light_mode());
}

#[test]
fn theme_tokens_resolve_by_mode() {
    let mut defs = HashMap::new();
    defs.insert("green1".to_string(), "#00ff00".to_string());
    let token = Some(DarkLight { dark: "green1".to_string(), light: Some("blue".to_string()) });
    assert_eq!(resolve_token(&token, Color::Red, false, &defs), Color::Rgb(0, 255, 0));
    assert_eq!(resolve_token(&token, Color::Red, true, &defs), Color::Blue);
    let bad_light = Some(DarkLight { dark: "cyan".to_string(), light: Some("nope".to_string()) });
    assert_eq!(resolve_token(&bad_light, Color::Red, true, &defs), Color::Cyan);
    let bad = Some(DarkLight { dark: "nope".to_string(), light: None });
    assert_eq!(resolve_token(&bad, Color::Red, true, &defs), Color::Red);
    assert_eq!(resolve_token(&None, Color::Yellow, false, &defs), Color::Yellow);

    let clear = Some(DarkLight { dark: " Transparent ".to_string(), light: None });
    assert_eq!(resolve_background(&clear, false, &defs), None);
    let none = Some(DarkLight { dark: "#101010".to_string(), light: Some("NONE".to_string()) });
    assert_eq!(resolve_background(&none, true, &defs), None);
    assert_eq!(resolve_background(&none, false, &defs), Some(Color::Rgb(16, 16, 16)));
    assert_eq!(resolve_background(&None, false, &defs), None);
}
