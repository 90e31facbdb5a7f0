use mdterm::html::{html_by_extension, looks_like_html};
use mdterm::html::{
    clean_html_editor_output, extract_html_outline, is_html_file, strip_html_tags, HtmlEnvelope,
};

#[test]
fn test_is_html_file() {
    assert!(is_html_file("index.html", ""));
    assert!(is_html_file("page.HTM", ""));
    assert!(is_html_file("app.xhtml", ""));
    assert!(!is_html_file("README.md", ""));
    assert!(!is_html_file("notes.markdown", ""));

    // Content detection fallback
    assert!(is_html_file("stdin", "<!DOCTYPE html><html><body>Test</body></html>"));
    assert!(is_html_file("unnamed", "<html><head><title>T</title></head><body>B</body></html>"));
    assert!(!is_html_file("stdin", "# Markdown Title\nSome text"));
}

#[test]
fn test_parse_full_html_envelope() {
    let raw = r#"<!DOCTYPE html>
<html lang="en">
<head>
  <meta charset="utf-8">
  <title>Test Page</title>
  <style>body { color: red; }</style>
</head>
<body class="main-body" data-theme="dark">
  <h1>Welcome</h1>
  <p>Hello world</p>
</body>
</html>"#;

    let env = HtmlEnvelope::parse(raw);
    assert!(env.has_envelope);
    assert!(env.header.contains("<!DOCTYPE html>"));
    assert!(env.header.contains("<title>Test Page</title>"));
    assert!(env.header.contains("<body class=\"main-body\" data-theme=\"dark\">"));
    assert!(env.body.contains("<h1>Welcome</h1>"));
    assert!(env.body.contains("<p>Hello world</p>"));
    assert!(env.footer.contains("</body>"));
    assert!(env.footer.contains("</html>"));

    // Reassemble with updated body
    let updated = env.reassemble("\n  <h1>Updated Welcome</h1>\n  <p>New paragraph</p>\n");
    assert!(updated.contains("<title>Test Page</title>"));
    assert!(updated.contains("<body class=\"main-body\" data-theme=\"dark\">"));
    assert!(updated.contains("Updated Welcome"));
    assert!(updated.contains("</body>"));
}

#[test]
fn test_parse_html_fragment() {
    let fragment = "<div class=\"card\"><h2>Card Title</h2><p>Description</p></div>";
    let env = HtmlEnvelope::parse(fragment);
    assert!(!env.has_envelope);
    assert_eq!(env.body, fragment);

    let updated = env.reassemble("<h2>New Title</h2>");
    assert_eq!(updated, "<h2>New Title</h2>");
}

#[test]
fn test_extract_html_outline() {
    let html = r#"
            <h1 id="intro">Introduction</h1>
            <p>Some text</p>
            <h2>Getting Started</h2>
            <p>Details</p>
            <h3 class="custom">Step 1: Install</h3>
            <h1 id="conclusion">Conclusion</h1>
        "#;

    let outline = extract_html_outline(html);
    assert_eq!(outline.len(), 4);
    assert_eq!(outline[0].level, 1);
    assert_eq!(outline[0].text, "Introduction");
    assert_eq!(outline[0].id, "intro");

    assert_eq!(outline[1].level, 2);
    assert_eq!(outline[1].text, "Getting Started");
    assert_eq!(outline[1].id, "getting-started");

    assert_eq!(outline[2].level, 3);
    assert_eq!(outline[2].text, "Step 1: Install");

    assert_eq!(outline[3].level, 1);
    assert_eq!(outline[3].text, "Conclusion");
    assert_eq!(outline[3].id, "conclusion");
}

#[test]
fn test_strip_html_tags() {
    let html = "<h1>Title</h1><p>This is <strong>bold</strong> &amp; <em>italic</em> text.</p>";
    let stripped = strip_html_tags(html);
    assert_eq!(stripped, "Title This is bold & italic text.");
}

#[test]
fn test_render_preview_scopes_body() {
    let raw = "<!DOCTYPE html><html><head><style>body { font-size: 18px; }</style></head><body><p>Content</p></body></html>";
    let env = HtmlEnvelope::parse(raw);
    let preview = env.render_preview();
    assert!(preview.contains(".preview-surface { font-size: 18px; }"));
    assert!(!preview.contains("body { font-size: 18px; }"));
}

#[test]
fn test_clean_html_editor_output() {
    let dirty = r#"
            <div>Content</div>
            <!-- MERMAID_PREVIEW_START -->
            <div class="mermaid-preview-container">Preview</div>
            <!-- MERMAID_PREVIEW_END -->
            <div class="code-block-header"><button>Copy</button></div>
            <pre class="mermaid-code-pre" style="display: none;"><code>graph TD</code></pre>
        "#;
    let cleaned = clean_html_editor_output(dirty);
    assert!(!cleaned.contains("MERMAID_PREVIEW_START"));
    assert!(!cleaned.contains("mermaid-preview-container"));
    assert!(!cleaned.contains("code-block-header"));
    assert!(!cleaned.contains("display: none;"));
    assert!(!cleaned.contains("mermaid-code-pre"));
    assert!(cleaned.contains("<div>Content</div>"));
    assert!(cleaned.contains("<code>graph TD</code>"));
}

#[test]
fn test_ensure_full_document() {
    let fragment = "<h1>Title</h1><p>Body</p>";
    let env = HtmlEnvelope::parse(fragment);
    let full = env.ensure_full_document("My Document");
    assert!(full.contains("<!DOCTYPE html>"));
    assert!(full.contains("<title>My Document</title>"));
    assert!(full.contains("<h1>Title</h1><p>Body</p>"));
}

#[test]
fn html_recognition_parts() {
    assert_eq!(html_by_extension("a.xhtml"), Some(true));
    assert_eq!(html_by_extension("a.mkd"), Some(false));
    assert_eq!(html_by_extension("a.txt"), None);
    assert!(looks_like_html("<div>x</div>"));
    assert!(!looks_like_html("<div>x"));
    assert!(looks_like_html("<p>x</p> tail"));
    assert!(is_html_file("NOTES.HTM", "# not html"));
    assert!(is_html_file("notes", "   <!DOCTYPE HTML>"));
}

#[test]
fn code_block_header_with_nested_div_is_removed_whole() {
    let html = "<div class=\"code-block-header\"><div class=\"code-lang-tag\">mermaid</div><button>Copy</button></div><pre>x</pre>";
    assert_eq!(clean_html_editor_output(html), "<pre>x</pre>");
}

#[test]
fn heading_id_is_read_only_from_the_id_attribute() {
    let outline = extract_html_outline("<h2 data-id=\"x\" class=\"c\">Title</h2>");
    assert_eq!(outline.len(), 1);
    assert_eq!(outline[0].id, "title");
    let outline = extract_html_outline("<h1 id='intro'>Hello</h1><h1 ID=other>World</h1>");
    assert_eq!(outline[0].id, "intro");
    assert_eq!(outline[1].id, "other");
}

#[test]
fn stripping_keeps_non_ascii_characters() {
    assert_eq!(strip_html_tags("<p>café</p>"), "café");
    assert_eq!(strip_html_tags("<p>İ</p>"), "İ");
    assert_eq!(strip_html_tags("<div>Grüße</div><p>日本</p>"), "Grüße 日本");
}
