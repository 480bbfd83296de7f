use env_manager::release::update_offer;
use env_manager::settings::AppSettings;
use env_manager::tray::{menu_action, MenuAction};

#[test]
fn same_version_offers_nothing() {
    assert!(update_offer("v0.1.0".to_string(), None, None, "0.1.0").is_none());
    assert!(update_offer("vv0.1.0".to_string(), None, None, "0.1.0").is_none());
    assert!(update_offer("0.1.0".to_string(), None, None, "0.1.0").is_none());
}

#[test]
fn newer_tag_is_offered() {
    let info = update_offer(
        "v0.2.0".to_string(),
        Some("notes".to_string()),
        Some("https://example.org/r".to_string()),
        "0.1.0",
    )
    .unwrap();
    assert_eq!(info.version, "v0.2.0");
    assert_eq!(info.release_notes, "notes");
    assert_eq!(info.download_url, "https://example.org/r");
}

#[test]
fn missing_fields_become_empty() {
    let info = update_offer("V0.1.0".to_string(), None, None, "0.1.0").unwrap();
    assert_eq!(info.version, "V0.1.0");
    assert_eq!(info.release_notes, "");
    assert_eq!(info.download_url, "");
}

#[test]
fn default_settings() {
    let s = AppSettings::default();
    assert_eq!(s.theme, "system");
    assert!(!s.auto_start);
    assert_eq!(s.show_hotkey, "Ctrl+Shift+E");
}

#[test]
fn menu_entries() {
    assert_eq!(menu_action("显示/隐藏"), MenuAction::ToggleWindow);
    assert_eq!(menu_action("设置"), MenuAction::ShowSettings);
    assert_eq!(menu_action("退出"), MenuAction::Quit);
    assert_eq!(menu_action("other"), MenuAction::Ignore);
}
