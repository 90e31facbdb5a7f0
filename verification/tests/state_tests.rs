use mdterm::state::Theme;

#[test]
fn theme_class_names_round_trip() {
    for theme in [Theme::Dark, Theme::Light, Theme::Nord, Theme::Monokai] {
        assert_eq!(Theme::from_class_name(theme.class_name()), Some(theme));
    }
}

#[test]
fn theme_from_name_or_class() {
    assert_eq!(Theme::from_name_or_class("dark"), Some(Theme::Dark));
    assert_eq!(Theme::from_name_or_class("THEME-DARK"), Some(Theme::Dark));
    assert_eq!(Theme::from_name_or_class("nord"), Some(Theme::Nord));
    assert_eq!(Theme::from_name_or_class("theme-nord"), Some(Theme::Nord));
    assert_eq!(Theme::from_name_or_class("Nord"), Some(Theme::Nord));
    assert_eq!(Theme::from_name_or_class("monokai"), Some(Theme::Monokai));
    assert_eq!(Theme::from_name_or_class("light"), Some(Theme::Light));
    assert_eq!(Theme::from_name_or_class("other"), None);
}

#[test]
fn unknown_theme_class_is_rejected() {
    assert_eq!(Theme::from_class_name("theme-unknown"), None);
}

#[test]
fn theme_names_are_lower_cased_as_unicode_text() {
    assert_eq!(Theme::from_name_or_class("MONO\u{212A}AI"), Some(Theme::Monokai));
    assert_eq!(Theme::from_lowered_name(" theme-light "), Some(Theme::Light));
    assert_eq!(Theme::from_lowered_name(" dark "), None);
    assert_eq!(Theme::from_name_or_class(" THEME-NORD "), Some(Theme::Nord));
}
