use nativum::manifest::{
    appearance_of, default_core, default_title, default_version, default_view, package_name,
    window_title,
};
use nativum::tokens::Appearance;

#[test]
fn manifest_defaults() {
    assert_eq!(default_title(), "nativum");
    assert_eq!(default_version(), "0.1.0");
    assert_eq!(default_view(), "src/app.native");
    assert_eq!(default_core(), "src/core.json");
}

#[test]
fn appearance_setting_resolves() {
    assert_eq!(appearance_of("dark"), Appearance::Dark);
    assert_eq!(appearance_of("light"), Appearance::Light);
    assert_eq!(appearance_of("system"), Appearance::Light);
    assert_eq!(appearance_of(""), Appearance::Light);
    assert_eq!(appearance_of("Dark"), Appearance::Light);
}

#[test]
fn display_name_replaces_default_title() {
    assert_eq!(window_title("nativum", "Habits"), "Habits");
    assert_eq!(window_title("", "Habits"), "Habits");
    assert_eq!(window_title("My Title", "Habits"), "My Title");
    assert_eq!(window_title("nativum", ""), "nativum");
    assert_eq!(window_title("", ""), "");
}

#[test]
fn package_name_falls_back_to_directory() {
    assert_eq!(package_name("counter", Some("dir")), "counter");
    assert_eq!(package_name("", Some("habits")), "habits");
    assert_eq!(package_name("", None), "app");
}
