use mdterm::stats::DocumentCounts;

#[test]
fn test_document_stats_markdown() {
    let md = "# Title\n\nThis is a paragraph with words.";
    let stats = DocumentCounts::compute(md, false);
    assert_eq!(stats.words, 8);
    assert_eq!(stats.paragraphs, 2);
}

#[test]
fn test_document_stats_html() {
    let html = "<div><h1>Title</h1><p>This is a paragraph with words.</p></div>";
    let stats = DocumentCounts::compute(html, true);
    assert_eq!(stats.words, 7);
}

#[test]
fn counts_of_empty_and_spaced_text() {
    let e = DocumentCounts::compute("", false);
    assert_eq!(e, DocumentCounts { words: 0, chars: 0, chars_no_spaces: 0, lines: 1, paragraphs: 1 });
    let s = DocumentCounts::compute("a b\r\n\n\n  \n\nc d e\n", false);
    assert_eq!(s.words, 5);
    assert_eq!(s.chars, 17);
    assert_eq!(s.chars_no_spaces, 5);
    assert_eq!(s.lines, 6);
    assert_eq!(s.paragraphs, 2);
}

#[test]
fn default_counts_match_an_empty_document() {
    let d = DocumentCounts::default();
    assert_eq!(d, DocumentCounts { words: 0, chars: 0, chars_no_spaces: 0, lines: 1, paragraphs: 1 });
    assert_eq!(DocumentCounts::compute("", false), d);
    assert_eq!(DocumentCounts::compute("", true), d);
}
