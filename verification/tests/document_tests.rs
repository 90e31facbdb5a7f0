use mdterm::document::{
    cycle_mode, editor_document_text, export_base_name, export_document, image_html, link_html,
    match_label, paste_is_markdown, replace_every, replace_first, session_detail, shortcut_actions,
    slash_action, space_format, table_html, ShortcutAction, SlashAction,
};
use mdterm::files::{is_listed_name, list_entries};
use mdterm::state::{EditorMode, FileEntry};

#[test]
fn keyboard_shortcuts() {
    assert_eq!(shortcut_actions("s", true, false, false, false), vec![ShortcutAction::Save]);
    assert_eq!(shortcut_actions("o", false, true, false, false), vec![ShortcutAction::OpenFile { left: true }]);
    assert_eq!(shortcut_actions("w", true, false, false, false), vec![]);
    assert_eq!(shortcut_actions("w", true, false, false, true), vec![ShortcutAction::CloseEditor]);
    assert_eq!(shortcut_actions("2", false, false, true, false), vec![ShortcutAction::SetMode(EditorMode::Split)]);
    assert_eq!(shortcut_actions("x", true, true, true, true), vec![]);
    assert_eq!(shortcut_actions("M", true, false, false, false), vec![ShortcutAction::CycleMode]);
    assert_eq!(shortcut_actions("m", false, true, false, false), vec![ShortcutAction::CycleMode]);
    assert_eq!(shortcut_actions("S", true, false, false, false), vec![ShortcutAction::Save]);
    assert_eq!(cycle_mode(EditorMode::Source), EditorMode::Wysiwyg);
}

#[test]
fn inserted_markup() {
    assert_eq!(
        table_html(1, 2),
        "<table class=\"md-table\"><thead><tr><th>Header 1</th><th>Header 2</th></tr></thead><tbody><tr><td>Row 1 Col 1</td><td>Row 1 Col 2</td></tr></tbody></table><p></p>"
    );
    assert_eq!(link_html("http://x", "  "), "<a href=\"http://x\">http://x</a>");
    assert_eq!(link_html("http://x", "X"), "<a href=\"http://x\">X</a>");
    assert_eq!(image_html("a.png", "A"), "<img src=\"a.png\" alt=\"A\" />");
    assert_eq!(slash_action("table"), SlashAction::InsertTable { rows: 3, cols: 3 });
    assert_eq!(
        slash_action("h2"),
        SlashAction::Exec { command: "formatBlock".to_string(), value: Some("<h2>".to_string()) }
    );
    assert_eq!(slash_action("nope"), SlashAction::Nothing);
}

#[test]
fn find_and_replace() {
    assert_eq!(replace_first("a-b-c", "-", "+").as_deref(), Some("a+b-c"));
    assert_eq!(replace_first("abc", "x", "+"), None);
    assert_eq!(replace_first("abc", "", "+"), None);
    assert_eq!(replace_every("a-b-c", "-", "+").as_deref(), Some("a+b+c"));
    assert_eq!(replace_every("abc", "", "+"), None);
}

#[test]
fn exporting() {
    assert_eq!(export_base_name("notes.md"), "notes");
    assert_eq!(export_base_name("page.htm"), "page");
    assert_eq!(export_base_name("x.html.md"), "x.html");
    assert_eq!(export_base_name("plain"), "plain");
    let f = export_document("# Hi", "a.md", false, "html").unwrap();
    assert_eq!(f.file_name, "a.html");
    assert_eq!(f.mime, "text/html");
    assert!(f.content.contains("<title>a</title>"));
    assert!(f.content.contains("<h1 id=\"hi\" class=\"md-heading md-h1\">Hi</h1>"));
    assert!(export_document("# Hi", "a.md", false, "print").is_none());
    let m = export_document("# Hi", "a.md", false, "md").unwrap();
    assert_eq!((m.file_name.as_str(), m.content.as_str(), m.mime.as_str()), ("a.md", "# Hi", "text/markdown"));
}

fn entry(name: &str, is_dir: bool) -> FileEntry {
    FileEntry { name: name.to_string(), path: format!("/d/{}", name), is_dir, size: 0 }
}

#[test]
fn directory_listing() {
    assert!(!is_listed_name(".git"));
    assert!(is_listed_name(".md"));
    assert!(!is_listed_name("node_modules"));
    let listed = list_entries(vec![
        entry("b.md", false),
        entry("Zed", true),
        entry("target", true),
        entry("A.md", false),
        entry(".hidden", false),
        entry("apps", true),
    ]);
    let names: Vec<&str> = listed.iter().map(|e| e.name.as_str()).collect();
    assert_eq!(names, vec!["apps", "Zed", "A.md", "b.md"]);
}

#[test]
fn visual_editor_helpers() {
    assert_eq!(
        space_format(" ## "),
        SlashAction::Exec { command: "formatBlock".to_string(), value: Some("<h2>".to_string()) }
    );
    assert_eq!(space_format("1."), SlashAction::Exec { command: "insertOrderedList".to_string(), value: None });
    assert_eq!(space_format("word"), SlashAction::Nothing);
    assert!(paste_is_markdown("", "# Title"));
    assert!(paste_is_markdown("  ", "a\nb"));
    assert!(!paste_is_markdown("<b>x</b>", "# Title"));
    assert!(!paste_is_markdown("", "plain words"));
    assert_eq!(match_label(3, 7), "3/7");
    assert_eq!(match_label(0, 0), "No matches");
    assert_eq!(session_detail(1, 0), "1 window");
    assert_eq!(session_detail(2, 1), "2 windows · 1 client attached");
    assert_eq!(session_detail(3, 2), "3 windows · 2 clients attached");
    let doc = "<html><head><title>T</title></head><body><p>old</p></body></html>";
    let updated = editor_document_text("<p>new</p>", true, doc);
    assert!(updated.contains("<p>new</p>"));
    assert!(updated.contains("<title>T</title>"));
    assert!(!updated.contains("old"));
    assert_eq!(editor_document_text("<h1>Hi</h1>", false, ""), "# Hi");
}

#[test]
fn dialogs_confirm_only_with_a_required_value() {
    assert!(!mdterm::document::confirm_allowed(""));
    assert!(!mdterm::document::confirm_allowed("  \t"));
    assert!(mdterm::document::confirm_allowed(" https://example.com "));
}

#[test]
fn title_bar_tabs_are_numbered_and_labelled() {
    let t = mdterm::document::tab_chrome(0, 1, false, "", true);
    assert_eq!(t.badge, "1");
    assert_eq!(t.title, "Terminal 1");
    assert_eq!(t.tooltip, "Tab 1 (Super+1)");
    assert_eq!(t.class_name, "titlebar-tab active");
    assert!(!t.closable);
    let t = mdterm::document::tab_chrome(9, 12, true, "notes.md", false);
    assert_eq!(t.badge, "");
    assert_eq!(t.title, "notes.md");
    assert_eq!(t.tooltip, "Tab 10 (Super+10)");
    assert_eq!(t.class_name, "titlebar-tab");
    assert!(t.closable);
}
