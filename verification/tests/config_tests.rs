use mdterm::config::{
    config_file_paths, get_config_dir, get_config_path, join_path_exec, number_text, RawConfigFile,
    RawFontSection, RawTerminalSection, TerminalConfig, DEFAULT_FONT_FAMILY, DEFAULT_THEME_NAME,
};

fn defaults() -> TerminalConfig<String, f64> {
    TerminalConfig {
        theme: Some(DEFAULT_THEME_NAME.to_string()),
        font_family: Some(DEFAULT_FONT_FAMILY.to_string()),
        font_size: Some(13.0),
        character_height: Some(1.0),
    }
}

fn empty() -> RawConfigFile<String, f64> {
    RawConfigFile { theme: None, font_family: None, font_size: None, character_height: None, terminal: None, font: None }
}

#[test]
fn test_parse_flat_config() {
    let raw = RawConfigFile {
        theme: Some("nord".to_string()),
        font_family: Some("Fira Code".to_string()),
        font_size: Some(14.0),
        character_height: Some(1.3),
        ..empty()
    };
    let cfg = raw.into_terminal_config(defaults());
    assert_eq!(cfg.theme, Some("nord".to_string()));
    assert_eq!(cfg.font_family, Some("Fira Code".to_string()));
    assert_eq!(cfg.font_size, Some(14.0));
    assert_eq!(cfg.character_height, Some(1.3));
}

#[test]
fn test_parse_nested_terminal_section() {
    let raw = RawConfigFile {
        terminal: Some(RawTerminalSection {
            theme: Some("light".to_string()),
            font_family: Some("Cascadia Code".to_string()),
            font_size: Some(15.0),
            character_height: Some(1.2),
            font: None,
        }),
        theme: Some("dark".to_string()),
        ..empty()
    };
    let cfg = raw.into_terminal_config(defaults());
    assert_eq!(cfg.theme, Some("light".to_string()));
    assert_eq!(cfg.font_family, Some("Cascadia Code".to_string()));
    assert_eq!(cfg.font_size, Some(15.0));
    assert_eq!(cfg.character_height, Some(1.2));
}

#[test]
fn test_parse_nested_font_section() {
    let raw = RawConfigFile {
        theme: Some("nord".to_string()),
        font: Some(RawFontSection { family: Some("Ubuntu Mono".to_string()), size: Some(18.0), character_height: None }),
        character_height: Some(1.4),
        ..empty()
    };
    let cfg = raw.into_terminal_config(defaults());
    assert_eq!(cfg.theme, Some("nord".to_string()));
    assert_eq!(cfg.font_family, Some("Ubuntu Mono".to_string()));
    assert_eq!(cfg.font_size, Some(18.0));
    assert_eq!(cfg.character_height, Some(1.4));
}

#[test]
fn test_parse_defaults_for_missing_fields() {
    let raw = RawConfigFile { font_size: Some(16.0), ..empty() };
    let cfg = raw.into_terminal_config(defaults());
    assert_eq!(cfg.theme, Some("dark".to_string()));
    assert_eq!(
        cfg.font_family,
        Some("JetBrains Mono, Menlo, Monaco, Consolas, \"Courier New\", monospace".to_string())
    );
    assert_eq!(cfg.font_size, Some(16.0));
    assert_eq!(cfg.character_height, Some(1.0));
}

#[test]
fn test_empty_config_uses_defaults() {
    let cfg = empty().into_terminal_config(defaults());
    let d = defaults();
    assert_eq!(cfg.theme, d.theme);
    assert_eq!(cfg.font_family, d.font_family);
    assert_eq!(cfg.font_size, d.font_size);
    assert_eq!(cfg.character_height, d.character_height);
}

#[test]
fn terminal_font_section_beats_top_level_font_section() {
    let raw = RawConfigFile {
        terminal: Some(RawTerminalSection {
            theme: None,
            font_family: None,
            font_size: None,
            character_height: None,
            font: Some(RawFontSection { family: Some("A".to_string()), size: None, character_height: Some(2.0) }),
        }),
        font: Some(RawFontSection { family: Some("B".to_string()), size: Some(9.0), character_height: Some(3.0) }),
        font_size: Some(10.0),
        ..empty()
    };
    let cfg = raw.into_terminal_config(defaults());
    assert_eq!(cfg.font_family, Some("A".to_string()));
    assert_eq!(cfg.font_size, Some(9.0));
    assert_eq!(cfg.character_height, Some(2.0));
}

#[test]
fn test_parse_with_aliases_and_strings() {
    assert_eq!(number_text("16px").as_deref(), Some("16"));
    assert_eq!(number_text(" 1.5 ").as_deref(), Some("1.5"));
    assert_eq!(number_text("12 px px").as_deref(), Some("12 px"));
    assert_eq!(number_text("pxpx"), None);
    assert_eq!(number_text("  "), None);
}

#[test]
fn config_paths() {
    assert_eq!(get_config_dir("/home/u"), "/home/u/.config/mdterm");
    assert_eq!(get_config_dir("/home/u/"), "/home/u/.config/mdterm");
    assert_eq!(join_path_exec("", "x"), "x");
    let (yml, yaml) = config_file_paths("/c");
    assert_eq!(yml, "/c/config.yml");
    assert_eq!(yaml, "/c/config.yaml");
    assert_eq!(get_config_path("/c", true, true), "/c/config.yml");
    assert_eq!(get_config_path("/c", false, true), "/c/config.yaml");
    assert_eq!(get_config_path("/c", false, false), "/c/config.yml");
}
