use mdterm::markdown::{event_kind, markdown_to_html, rewrite_events, MdKind, Piece};
use mdterm::outline::slugify;
use mdterm::tmux_parser::{decode_octal, ControlParser};

#[test]
fn octal_escaping_round_trips() {
    let raw: Vec<u8> = (0u8..=255).collect();
    let mut escaped = Vec::new();
    for b in &raw {
        if *b < 32 || *b == b'\\' || *b >= 127 {
            escaped.extend_from_slice(format!("\\{:03o}", b).as_bytes());
        } else {
            escaped.push(*b);
        }
    }
    assert_eq!(decode_octal(&escaped), raw);
}

#[test]
fn feeding_in_pieces_equals_feeding_at_once() {
    let stream = b"%output %1 a\\012\n%begin 1 2 1\nline\n%end 1 2 1\n%window-add @3\n";
    let mut whole = ControlParser::new();
    let all = whole.feed(stream).events;
    for cut in 0..stream.len() {
        let mut p = ControlParser::new();
        let mut evs = p.feed(&stream[..cut]).events;
        evs.extend(p.feed(&stream[cut..]).events);
        assert_eq!(evs, all, "split at {}", cut);
    }
}

#[test]
fn headings_get_anchor_ids() {
    assert_eq!(slugify("  Hello, World! "), "hello-world");
    assert_eq!(slugify("Ünïcode Tëxt"), "Ünïcode-tëxt");
    assert_eq!(slugify("!!!"), "section");
    assert_eq!(
        markdown_to_html("# Hello World", false),
        "<h1 id=\"hello-world\" class=\"md-heading md-h1\">Hello World</h1>"
    );
}

#[test]
fn code_blocks_escape_their_text() {
    let html = markdown_to_html("```\na<b & c>\n```", false);
    assert!(html.contains("<span class=\"code-lang-tag\">text</span>"));
    assert!(html.contains("a&lt;b &amp; c&gt;\n"));
}

#[test]
fn task_markers_become_numbered_checkboxes() {
    let html = markdown_to_html("- [x] one\n- [ ] two\n", false);
    assert!(html.contains("data-task-idx=\"0\" checked disabled />"));
    assert!(html.contains("data-task-idx=\"1\"  disabled />"));
    let editable = markdown_to_html("- [x] one\n", true);
    assert!(editable.contains("data-task-idx=\"0\" checked  />"));
}

#[test]
fn rewriting_keeps_plain_events() {
    let events = vec![
        pulldown_cmark::Event::Start(pulldown_cmark::Tag::Paragraph),
        pulldown_cmark::Event::Text("hi".into()),
        pulldown_cmark::Event::End(pulldown_cmark::TagEnd::Paragraph),
    ];
    let kinds: Vec<MdKind> = events.iter().map(event_kind).collect();
    assert_eq!(kinds, vec![MdKind::Other, MdKind::Text("hi".to_string()), MdKind::Other]);
    let pieces = rewrite_events(events, kinds, false);
    assert_eq!(pieces.len(), 3);
    assert!(matches!(&pieces[1], Piece::Keep(pulldown_cmark::Event::Text(t)) if t.as_ref() == "hi"));
}

#[test]
fn tables_and_quotes_get_classes() {
    let html = markdown_to_html("> q\n\n| a |\n|---|\n| b |\n", false);
    assert!(html.contains("<blockquote class=\"md-blockquote\">"));
    assert!(html.contains("<div class=\"table-responsive\"><table class=\"md-table\">"));
    assert!(html.contains("</table></div>"));
}

#[test]
fn slugs_are_fixed_points_of_slugify() {
    for t in ["Hello, World!", "  Über  Straße -- 2024 ", "___", "A_B-C d", "日本語 テキスト", ""] {
        let s = mdterm::outline::slugify(t);
        assert_eq!(mdterm::outline::slugify(&s), s);
        assert!(s.chars().all(|c| c == '-' || (c.is_alphanumeric() && !c.is_ascii_uppercase())));
    }
    assert_eq!(mdterm::outline::slugify("Hello, World!"), "hello-world");
}
