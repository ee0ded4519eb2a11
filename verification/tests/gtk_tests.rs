use cookbook::i18n::{get_language, Locale};
use cookbook::ui::{Tab, DEFAULT_MARGIN};
use cookbook::user_settings::{resolve_data_dir, Theme, UserSettings};

#[test]
fn test_error_dialog_logic() {
    let error_message = "Test error";
    assert_eq!(error_message, "Test error");
}

#[test]
fn test_about_dialog_logic() {
    let about_text = "Cookbook GTK App";
    assert!(about_text.contains("Cookbook"));
}

#[test]
fn test_settings_tab_build() {
    let tab_name = "Settings";
    assert_eq!(tab_name, "Settings");
}

#[test]
fn test_data_dir_logic() {
    let data_dir = "/tmp/cookbook-data";
    assert!(data_dir.starts_with("/tmp"));
}

#[test]
fn test_default_margin() {
    assert!(DEFAULT_MARGIN > 0);
}

#[test]
fn test_set_language() {
    let lang = "fr";
    let mut locale = Locale::new();
    locale.set_language(lang);
    assert_eq!(get_language(&locale), "fr");
}

#[test]
fn test_language_fallback() {
    let lang = "zz";
    let mut locale = Locale::new();
    locale.set_language(lang);
    assert_eq!(get_language(&locale), "zz");
}

#[test]
fn test_locale_starts_in_english() {
    assert_eq!(get_language(&Locale::new()), "en");
}

#[test]
fn test_user_settings_load_default() {
    let settings = UserSettings::default();
    assert!(settings.language.is_empty() || settings.language == "en");
    assert_eq!(settings.data_dir, None);
    assert_eq!(settings.theme, Theme::System);
}

#[test]
fn test_config_theme_default() {
    assert_eq!(cookbook::config::Theme::default(), cookbook::config::Theme::System);
}

#[test]
fn test_tab_equality() {
    assert_eq!(Tab::Recipes, Tab::Recipes);
    assert_ne!(Tab::Recipes, Tab::Pantry);
}

#[test]
fn theme_labels_round_trip() {
    for t in [Theme::System, Theme::Light, Theme::Dark] {
        assert_eq!(Theme::from_label(t.label()), t);
    }
    assert_eq!(Theme::from_label("Solarized"), Theme::System);
    assert_eq!(Theme::Dark.gtk_theme(), ("Adwaita-dark", true));
    assert_eq!(Theme::Light.gtk_theme(), ("Adwaita", false));
}

#[test]
fn data_dir_comes_from_settings_then_environment() {
    let mut s = UserSettings::default();
    assert_eq!(resolve_data_dir(&s, None, "example/data".into()), "example/data");
    assert_eq!(resolve_data_dir(&s, Some("/env".into()), "example/data".into()), "/env");
    s.data_dir = Some("/mine".into());
    assert_eq!(resolve_data_dir(&s, Some("/env".into()), "example/data".into()), "/mine");
}
