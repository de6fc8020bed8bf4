use beatbank::settings::{settings_or_default, Settings};

#[test]
fn missing_settings_default_to_light_theme() {
    let s = Settings::default();
    assert_eq!(s.theme(), "light");
    let fallback = settings_or_default(None);
    assert_eq!(fallback.theme(), "light");
}

#[test]
fn stored_settings_are_kept() {
    let s = settings_or_default(Some(Settings::new("dark".to_string())));
    assert_eq!(s.theme(), "dark");
}
