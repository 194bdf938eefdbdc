use gage::config::{
    default_settings_path, display_settings_path, gage_home, join_path, plugin_marketplace_dir,
    ScannerSettings, Settings,
};

fn settings(enable: &[&str], disable: &[&str]) -> Settings {
    Settings {
        scanners: ScannerSettings {
            enable: enable.iter().map(|s| s.to_string()).collect(),
            disable: disable.iter().map(|s| s.to_string()).collect(),
        },
    }
}

#[test]
fn default_settings_enable_everything() {
    let s = Settings::default();
    assert!(s.scanners.enable.is_empty());
    assert!(s.scanners.disable.is_empty());
    assert!(s.is_scanner_enabled("effort"));
}

#[test]
fn enable_list_restricts() {
    let s = settings(&["effort"], &[]);
    assert!(s.is_scanner_enabled("effort"));
    assert!(!s.is_scanner_enabled("hidden-thinking"));
}

#[test]
fn disable_takes_precedence() {
    let s = settings(&["effort"], &["effort"]);
    assert!(!s.is_scanner_enabled("effort"));
    let s = settings(&[], &["hidden-thinking"]);
    assert!(!s.is_scanner_enabled("hidden-thinking"));
    assert!(s.is_scanner_enabled("effort"));
}

#[test]
fn paths_join_like_std() {
    assert_eq!(join_path("/home/u", ".gage"), "/home/u/.gage");
    assert_eq!(join_path("/home/u/", ".gage"), "/home/u/.gage");
    assert_eq!(join_path("", "x"), "x");
    assert_eq!(join_path("/a", "/etc"), "/etc");
    for (base, rel) in [("/home/u", ".gage"), ("/home/u/", ".gage"), ("", "x"), ("/a", "/etc"), ("a", "")] {
        let expect = std::path::Path::new(base).join(rel);
        assert_eq!(join_path(base, rel), expect.to_str().unwrap());
    }
}

#[test]
fn gage_home_prefers_gage_home_var() {
    assert_eq!(gage_home(Some("/opt/g".into()), Some("/home/u".into())), "/opt/g");
    assert_eq!(gage_home(None, Some("/home/u".into())), "/home/u/.gage");
}

#[test]
fn settings_locations() {
    assert_eq!(default_settings_path("/home/u/.gage"), "/home/u/.gage/settings.json");
    assert_eq!(plugin_marketplace_dir("/home/u/.gage"), "/home/u/.gage/.plugin-marketplace");
    assert_eq!(display_settings_path(None), "~/.gage/settings.json");
    assert_eq!(display_settings_path(Some("/opt/g".into())), "/opt/g/settings.json");
}
