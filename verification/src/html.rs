//! HTML documents: splitting a document into envelope and body, preview
//! preparation, editor clean-up, outline extraction and tag stripping.
use vstd::prelude::*;
use crate::text::{
    find_chars, trim, trim_chars, digit_value,
    chars_of, string_of, slice_chars, push_all, push_str, push_range, lower, lower_seq, lower_chars,
    replace_all, replace_chars, contains_str, ends_with_str, starts_with_str, trim_start, trim_start_chars,
    find, find_from, find_str_from, matches_at, lemma_find_from_bounds, lemma_find_from_skip,
    is_ws, is_ws_char, matches_at_chars, text_lower, to_lowercase_chars,
};
use crate::state::{OutlineItem, OutlineItemView, outline_view};
use crate::outline::{slugify, slugify_spec};

verus! {

/// The characters that may follow a tag name such as `<body`.
pub open spec fn is_tag_delim(c: char) -> bool {
    c == ' ' || c == '\t' || c == '\r' || c == '\n' || c == '>' || c == '/'
}

/// The first occurrence, at or after `from`, of `prefix` in `lower` that
/// ends the text or is followed by a tag delimiter.
pub open spec fn tag_start_from(lower: Seq<char>, prefix: Seq<char>, from: int) -> Option<int>
    decreases lower.len() + 1 - from,
{
    if prefix.len() == 0 || from < 0 {
        None
    } else {
        match find_from(lower, prefix, from) {
            Some(abs) => {
                let after = abs + prefix.len();
                if after >= lower.len() || is_tag_delim(lower[after]) {
                    Some(abs)
                } else if after > from {
                    tag_start_from(lower, prefix, after)
                } else {
                    None
                }
            },
            None => None,
        }
    }
}

/// The index of the first `>` at or after `i` outside a quoted attribute
/// value, given the quote character currently open.
pub open spec fn tag_close_from(s: Seq<char>, i: int, quote: Option<char>) -> Option<int>
    decreases s.len() - i,
{
    if i < 0 || i >= s.len() {
        None
    } else {
        match quote {
            Some(q) => if s[i] == q {
                tag_close_from(s, i + 1, None)
            } else {
                tag_close_from(s, i + 1, quote)
            },
            None => if s[i] == '"' || s[i] == '\'' {
                tag_close_from(s, i + 1, Some(s[i]))
            } else if s[i] == '>' {
                Some(i)
            } else {
                tag_close_from(s, i + 1, None)
            },
        }
    }
}

/// Helper to locate an HTML opening tag like `<body` or `<html`
fn find_tag_start(lower_html: &Vec<char>, tag_prefix: &str) -> (r: Option<usize>)
    ensures
        r matches Some(k) ==> tag_start_from(lower_html@, tag_prefix@, 0) == Some(k as int)
            && k < lower_html@.len(),
        r is None ==> tag_start_from(lower_html@, tag_prefix@, 0) is None,
{
    let plen = chars_of(tag_prefix).len();
    if plen == 0 {
        return None;
    }
    let n = lower_html.len();
    let mut search_from: usize = 0;
    loop
        invariant
            n == lower_html@.len(),
            plen == tag_prefix@.len(),
            plen > 0,
            search_from <= lower_html@.len() + plen,
            tag_start_from(lower_html@, tag_prefix@, 0) == tag_start_from(
                lower_html@,
                tag_prefix@,
                search_from as int,
            ),
        decreases lower_html@.len() + plen - search_from,
    {
        let pos = match find_str_from(lower_html, tag_prefix, search_from) {
            Some(p) => p,
            None => return None,
        };
        let after = pos + plen;
        if after >= lower_html.len() {
            return Some(pos);
        }
        let c = lower_html[after];
        if c == ' ' || c == '\t' || c == '\r' || c == '\n' || c == '>' || c == '/' {
            return Some(pos);
        }
        search_from = after;
    }
}

/// Helper to find the matching `>` closing an HTML tag, ignoring quoted attribute values.
fn find_tag_close(html: &Vec<char>, start_pos: usize) -> (r: Option<usize>)
    ensures
        r matches Some(k) ==> tag_close_from(html@, start_pos as int, None) == Some(k as int)
            && start_pos <= k < html@.len(),
        r is None ==> tag_close_from(html@, start_pos as int, None) is None,
{
    let mut in_quote: Option<char> = None;
    let mut i = start_pos;
    while i < html.len()
        invariant
            start_pos <= i,
            tag_close_from(html@, start_pos as int, None) == tag_close_from(html@, i as int, in_quote),
        decreases html.len() - i,
    {
        let b = html[i];
        match in_quote {
            Some(q) => {
                if b == q {
                    in_quote = None;
                }
            },
            None => {
                if b == '"' || b == '\'' {
                    in_quote = Some(b);
                } else if b == '>' {
                    return Some(i);
                }
            },
        }
        i = i + 1;
    }
    None
}

// ---------------------------------------------------------------------------
// Envelope
// ---------------------------------------------------------------------------

/// Represents the decomposition of an HTML document into its outer envelope
/// (doctype, html, head, body tags) and inner body content for editing.
#[derive(Clone, Debug, PartialEq, Eq)]
pub struct HtmlEnvelope {
    /// Everything preceding the inner body content (e.g. `<!DOCTYPE html><html><head>...</head><body ...>`).
    pub header: String,
    /// The inner HTML content of the `<body>` element (or the whole snippet if no `<body>` tag).
    pub body: String,
    /// Everything following the inner body content (e.g. `</body></html>`).
    pub footer: String,
    /// True if an actual HTML document structure (like `<body>` or `<html>`) was detected.
    pub has_envelope: bool,
}

/// The mathematical value of an [`HtmlEnvelope`].
pub struct EnvelopeView {
    pub header: Seq<char>,
    pub body: Seq<char>,
    pub footer: Seq<char>,
    pub has_envelope: bool,
}

impl View for HtmlEnvelope {
    type V = EnvelopeView;

    open spec fn view(&self) -> EnvelopeView {
        EnvelopeView {
            header: self.header@,
            body: self.body@,
            footer: self.footer@,
            has_envelope: self.has_envelope,
        }
    }
}

/// The envelope around the element opened by `open` (e.g. `<body`), closed
/// by `close` (e.g. `</body`), with `dflt_footer` when no closing tag follows.
pub open spec fn element_envelope(
    raw: Seq<char>,
    open: Seq<char>,
    close: Seq<char>,
    dflt_footer: Seq<char>,
) -> Option<EnvelopeView> {
    let low = lower_seq(raw);
    match tag_start_from(low, open, 0) {
        Some(start) => match tag_close_from(raw, start, None) {
            Some(open_end) => {
                let content_start = open_end + 1;
                let content_end = match find_from(low, close, content_start) {
                    Some(c) => c,
                    None => raw.len() as int,
                };
                Some(
                    EnvelopeView {
                        header: raw.take(content_start),
                        body: raw.subrange(content_start, content_end),
                        footer: if content_end < raw.len() {
                            raw.skip(content_end)
                        } else {
                            dflt_footer
                        },
                        has_envelope: true,
                    },
                )
            },
            None => None,
        },
        None => None,
    }
}

/// How a document is split: around `<body>` if it has one, else around
/// `<html>`, else the whole text is the body of a fragment.
pub open spec fn parse_spec(raw: Seq<char>) -> EnvelopeView {
    match element_envelope(raw, "<body"@, "</body"@, "\n</body>\n</html>"@) {
        Some(e) => e,
        None => match element_envelope(raw, "<html"@, "</html"@, "\n</html>"@) {
            Some(e) => e,
            None => EnvelopeView { header: seq![], body: raw, footer: seq![], has_envelope: false },
        },
    }
}

/// The document with `new_body` in place of the body.
pub open spec fn reassemble_spec(env: EnvelopeView, new_body: Seq<char>) -> Seq<char> {
    if env.has_envelope {
        env.header + new_body + env.footer
    } else {
        new_body
    }
}

fn element_envelope_exec(
    raw: &Vec<char>,
    low: &Vec<char>,
    open: &str,
    close: &str,
    dflt_footer: &str,
) -> (r: Option<HtmlEnvelope>)
    requires
        low@ == lower_seq(raw@),
    ensures
        r matches Some(e) ==> element_envelope(raw@, open@, close@, dflt_footer@) == Some(e@),
        r is None ==> element_envelope(raw@, open@, close@, dflt_footer@) is None,
{
    let start = match find_tag_start(low, open) {
        Some(s) => s,
        None => return None,
    };
    let n = raw.len();
    let open_end = match find_tag_close(raw, start) {
        Some(e) => e,
        None => return None,
    };
    let content_start = open_end + 1;
    let content_end = match find_str_from(low, close, content_start) {
        Some(c) => c,
        None => raw.len(),
    };
    let header = string_of(&slice_chars(raw, 0, content_start));
    let body = string_of(&slice_chars(raw, content_start, content_end));
    let footer = if content_end < raw.len() {
        string_of(&slice_chars(raw, content_end, raw.len()))
    } else {
        string_of(&chars_of(dflt_footer))
    };
    assert(raw@.subrange(0, content_start as int) =~= raw@.take(content_start as int));
    assert(raw@.subrange(content_end as int, raw@.len() as int) =~= raw@.skip(content_end as int));
    Some(HtmlEnvelope { header, body, footer, has_envelope: true })
}

impl HtmlEnvelope {
    /// Parses an HTML document into envelope and body.
    pub fn parse(raw_html: &str) -> (r: Self)
        ensures
            r@ == parse_spec(raw_html@),
    {
        let raw = chars_of(raw_html);
        let low = lower_chars(&raw);
        if let Some(e) = element_envelope_exec(&raw, &low, "<body", "</body", "\n</body>\n</html>") {
            return e;
        }
        if let Some(e) = element_envelope_exec(&raw, &low, "<html", "</html", "\n</html>") {
            return e;
        }
        HtmlEnvelope {
            header: String::new(),
            body: string_of(&raw),
            footer: String::new(),
            has_envelope: false,
        }
    }

    /// Reassembles the full document with updated body content.
    pub fn reassemble(&self, new_body: &str) -> (r: String)
        ensures
            r@ == reassemble_spec(self@, new_body@),
    {
        if self.has_envelope {
            let mut out = chars_of(self.header.as_str());
            push_str(&mut out, new_body);
            push_str(&mut out, self.footer.as_str());
            string_of(&out)
        } else {
            string_of(&chars_of(new_body))
        }
    }
}

/// Splitting a document and reassembling it with its own body gives the
/// document back; only a missing closing tag is supplied. Without an
/// envelope the whole document is the body; with one, header, body and
/// footer are the document, or, when the closing tag is missing, header and
/// body are, and the footer is the default closing tags.
pub proof fn lemma_parse_reassemble(raw: Seq<char>)
    ensures
        ({
            let env = parse_spec(raw);
            let out = reassemble_spec(env, env.body);
            out == raw || out == raw + "\n</body>\n</html>"@ || out == raw + "\n</html>"@
        }),
        !parse_spec(raw).has_envelope ==> parse_spec(raw).header.len() == 0 && parse_spec(
            raw,
        ).footer.len() == 0 && parse_spec(raw).body == raw,
        parse_spec(raw).has_envelope ==> parse_spec(raw).header + parse_spec(raw).body + parse_spec(
            raw,
        ).footer == raw || (parse_spec(raw).header + parse_spec(raw).body == raw && (parse_spec(
            raw,
        ).footer == "\n</body>\n</html>"@ || parse_spec(raw).footer == "\n</html>"@)),
{
    let env = parse_spec(raw);
    if env.has_envelope {
        let low = lower_seq(raw);
        let b = element_envelope(raw, "<body"@, "</body"@, "\n</body>\n</html>"@);
        let pick = if b is Some { "</body"@ } else { "</html"@ };
        let open = if b is Some { "<body"@ } else { "<html"@ };
        let start = tag_start_from(low, open, 0)->0;
        lemma_tag_start_bounds(low, open, 0);
        lemma_tag_close_bounds(raw, start, None);
        let cs = tag_close_from(raw, start, None)->0 + 1;
        lemma_find_from_bounds(low, pick, cs);
        match find_from(low, pick, cs) {
            Some(c) => {
                assert(raw.take(cs) + raw.subrange(cs, c) + raw.skip(c) =~= raw);
                assert(low.len() == raw.len());
                reveal_strlit("</body");
                reveal_strlit("</html");
                assert(pick.len() > 0);
                assert(c < raw.len());
                assert(env.header == raw.take(cs) && env.body == raw.subrange(cs, c));
                assert(env.footer == raw.skip(c));
                assert(env.header + env.body + env.footer =~= raw);
            },
            None => {
                assert(raw.take(cs) + raw.subrange(cs, raw.len() as int) =~= raw);
                assert(env.header + env.body =~= raw);
            },
        }
    }
}

proof fn lemma_tag_start_bounds(lower: Seq<char>, prefix: Seq<char>, from: int)
    ensures
        tag_start_from(lower, prefix, from) matches Some(k) ==> from <= k && k + prefix.len()
            <= lower.len(),
    decreases lower.len() + 1 - from,
{
    if prefix.len() > 0 && from >= 0 {
        lemma_find_from_bounds(lower, prefix, from);
        if let Some(abs) = find_from(lower, prefix, from) {
            let after = abs + prefix.len();
            if !(after >= lower.len() || is_tag_delim(lower[after])) && after > from {
                lemma_tag_start_bounds(lower, prefix, after);
            }
        }
    }
}

proof fn lemma_tag_close_bounds(s: Seq<char>, i: int, quote: Option<char>)
    ensures
        tag_close_from(s, i, quote) matches Some(k) ==> i <= k < s.len(),
    decreases s.len() - i,
{
    if 0 <= i < s.len() {
        match quote {
            Some(q) => if s[i] == q {
                lemma_tag_close_bounds(s, i + 1, None);
            } else {
                lemma_tag_close_bounds(s, i + 1, quote);
            },
            None => if s[i] == '"' || s[i] == '\'' {
                lemma_tag_close_bounds(s, i + 1, Some(s[i]));
            } else if s[i] != '>' {
                lemma_tag_close_bounds(s, i + 1, None);
            },
        }
    }
}


// ---------------------------------------------------------------------------
// Preview and standalone documents
// ---------------------------------------------------------------------------

/// `body` and `html` selectors of a style block rewritten to `.preview-surface`.
pub open spec fn scope_style(b: Seq<char>) -> Seq<char> {
    replace_all(
        replace_all(
            replace_all(
                replace_all(b, "body {"@, ".preview-surface {"@),
                "body{"@,
                ".preview-surface {"@,
            ),
            "html {"@,
            ".preview-surface {"@,
        ),
        "html{"@,
        ".preview-surface {"@,
    )
}

/// The scoped `<style>…</style>` blocks of `header` from index `from` on.
pub open spec fn styles_from(header: Seq<char>, low: Seq<char>, from: int) -> Seq<char>
    decreases header.len() + 1 - from,
{
    if from < 0 || from > header.len() {
        seq![]
    } else {
        match find_from(low, "<style"@, from) {
            Some(st) => match find_from(low, "</style>"@, st) {
                Some(c) => {
                    let end = c + "</style>"@.len();
                    if from < end <= header.len() {
                        scope_style(header.subrange(st, end)) + styles_from(header, low, end)
                    } else {
                        seq![]
                    }
                },
                None => seq![],
            },
            None => seq![],
        }
    }
}

pub open spec fn render_preview_spec(env: EnvelopeView) -> Seq<char> {
    if !env.has_envelope {
        env.body
    } else {
        styles_from(env.header, lower_seq(env.header), 0) + env.body
    }
}

fn scope_style_chars(b: &Vec<char>) -> (r: Vec<char>)
    ensures
        r@ == scope_style(b@),
{
    proof {
        reveal_strlit("body {");
        reveal_strlit("body{");
        reveal_strlit("html {");
        reveal_strlit("html{");
    }
    let a = replace_chars(b, "body {", ".preview-surface {");
    let c = replace_chars(&a, "body{", ".preview-surface {");
    let d = replace_chars(&c, "html {", ".preview-surface {");
    replace_chars(&d, "html{", ".preview-surface {")
}

fn styles_exec(header: &Vec<char>, low: &Vec<char>) -> (r: Vec<char>)
    requires
        low@ == lower_seq(header@),
    ensures
        r@ == styles_from(header@, low@, 0),
{
    let mut preview: Vec<char> = Vec::new();
    let mut search_from: usize = 0;
    let n = low.len();
    let close_len = chars_of("</style>").len();
    proof {
        reveal_strlit("</style>");
    }
    assert(preview@ + styles_from(header@, low@, 0) =~= styles_from(header@, low@, 0));
    loop
        invariant
            low@ == lower_seq(header@),
            low@.len() == header@.len(),
            close_len == "</style>"@.len(),
            close_len == 8,
            n == low@.len(),
            search_from <= header@.len(),
            preview@ + styles_from(header@, low@, search_from as int) == styles_from(
                header@,
                low@,
                0,
            ),
        decreases header@.len() + 1 - search_from,
    {
        let st = match find_str_from(low, "<style", search_from) {
            Some(st) => st,
            None => {
                assert(preview@ =~= preview@ + styles_from(header@, low@, search_from as int));
                return preview;
            },
        };
        let c = match find_str_from(low, "</style>", st) {
            Some(c) => c,
            None => {
                assert(preview@ =~= preview@ + styles_from(header@, low@, search_from as int));
                return preview;
            },
        };
        let end = c + close_len;
        let block = slice_chars(header, st, end);
        let scoped = scope_style_chars(&block);
        let ghost before = preview@;
        push_all(&mut preview, &scoped);
        assert(preview@ + styles_from(header@, low@, end as int) =~= before + styles_from(
            header@,
            low@,
            search_from as int,
        ));
        search_from = end;
    }
}

impl HtmlEnvelope {
    /// Prepares HTML for rendering in Split mode preview safely.
    pub fn render_preview(&self) -> (r: String)
        ensures
            r@ == render_preview_spec(self@),
    {
        if !self.has_envelope {
            return string_of(&chars_of(self.body.as_str()));
        }
        let header = chars_of(self.header.as_str());
        let low = lower_chars(&header);
        let mut preview = styles_exec(&header, &low);
        push_str(&mut preview, self.body.as_str());
        string_of(&preview)
    }
}


/// The standalone document template: the text before the title.
pub const DOC_HEAD: &'static str = "<!DOCTYPE html>\n<html lang=\"en\">\n<head>\n  <meta charset=\"utf-8\" />\n  <meta name=\"viewport\" content=\"width=device-width, initial-scale=1.0\" />\n  <title>";

/// The standalone document template: the text between title and body.
pub const DOC_MID: &'static str = "</title>\n  <style>\n    body { font-family: -apple-system, BlinkMacSystemFont, \"Segoe UI\", Roboto, Helvetica, Arial, sans-serif; line-height: 1.6; max-width: 860px; margin: 40px auto; padding: 0 20px; color: #1e293b; background: #ffffff; }\n    h1, h2, h3, h4 { color: #0f172a; margin-top: 1.5em; margin-bottom: 0.5em; }\n    h1 { border-bottom: 2px solid #e2e8f0; padding-bottom: 8px; }\n    code { background: #f1f5f9; padding: 2px 6px; border-radius: 4px; font-family: monospace; font-size: 0.9em; }\n    pre { background: #0f172a; color: #f8fafc; padding: 16px; border-radius: 8px; overflow-x: auto; }\n    blockquote { border-left: 4px solid #3b82f6; margin: 1.5em 0; padding-left: 16px; color: #475569; font-style: italic; }\n    table { width: 100%; border-collapse: collapse; margin: 1.5em 0; }\n    th, td { border: 1px solid #cbd5e1; padding: 10px 14px; text-align: left; }\n    th { background: #f8fafc; font-weight: 600; }\n  </style>\n</head>\n<body>\n";

/// The standalone document template: the text after the body.
pub const DOC_TAIL: &'static str = "\n</body>\n</html>";

/// A complete document: the envelope's own when its header holds a doctype,
/// else the body placed in the standalone template under `title`.
pub open spec fn full_document_spec(env: EnvelopeView, title: Seq<char>) -> Seq<char> {
    if env.has_envelope && find(text_lower(env.header), "<!doctype"@) is Some {
        reassemble_spec(env, env.body)
    } else {
        DOC_HEAD@ + title + DOC_MID@ + env.body + DOC_TAIL@
    }
}

impl HtmlEnvelope {
    /// Ensures the content is a complete, well-formed standalone HTML document.
    pub fn ensure_full_document(&self, default_title: &str) -> (r: String)
        ensures
            r@ == full_document_spec(self@, default_title@),
    {
        if self.has_envelope {
            let low = to_lowercase_chars(self.header.as_str());
            if contains_str(&low, "<!doctype") {
                return self.reassemble(self.body.as_str());
            }
        }
        let mut out = chars_of(DOC_HEAD);
        push_str(&mut out, default_title);
        push_str(&mut out, DOC_MID);
        push_str(&mut out, self.body.as_str());
        push_str(&mut out, DOC_TAIL);
        string_of(&out)
    }
}

// ---------------------------------------------------------------------------
// Recognising HTML
// ---------------------------------------------------------------------------

pub open spec fn ends_with(s: Seq<char>, suffix: Seq<char>) -> bool {
    suffix.len() <= s.len() && matches_at(s, s.len() - suffix.len(), suffix)
}

/// Lower-cased text that looks like an HTML document or snippet.
pub open spec fn looks_like_html_spec(low: Seq<char>) -> bool {
    ||| matches_at(low, 0, "<!doctype html"@)
    ||| matches_at(low, 0, "<html"@)
    ||| (find(low, "<head"@) is Some && find(low, "</head>"@) is Some)
    ||| (find(low, "<body"@) is Some && find(low, "</body>"@) is Some)
    ||| (matches_at(low, 0, "<div"@) && ends_with(low, "</div>"@))
    ||| (matches_at(low, 0, "<p>"@) && find(low, "</p>"@) is Some)
}

/// Text that looks like an HTML document or snippet.
pub open spec fn is_html_content_spec(content: Seq<char>) -> bool {
    looks_like_html_spec(text_lower(trim_start(content)))
}

/// What a lower-cased file name says by its extension: HTML (`.html`,
/// `.htm`, `.xhtml`), not HTML (a Markdown extension), or nothing.
pub open spec fn html_extension_spec(low: Seq<char>) -> Option<bool> {
    if ends_with(low, ".html"@) || ends_with(low, ".htm"@) || ends_with(low, ".xhtml"@) {
        Some(true)
    } else if ends_with(low, ".md"@) || ends_with(low, ".markdown"@) || ends_with(low, ".mdown"@)
        || ends_with(low, ".mkd"@) {
        Some(false)
    } else {
        None
    }
}

/// A file is HTML by its extension, and otherwise by its content.
pub open spec fn is_html_file_spec(filename: Seq<char>, content: Seq<char>) -> bool {
    match html_extension_spec(text_lower(filename)) {
        Some(b) => b,
        None => is_html_content_spec(content),
    }
}

/// What a lower-cased file name says by its extension.
pub fn html_by_extension(lowered: &str) -> (r: Option<bool>)
    ensures
        r == html_extension_spec(lowered@),
{
    let low = chars_of(lowered);
    if ends_with_str(&low, ".html") || ends_with_str(&low, ".htm") || ends_with_str(&low, ".xhtml") {
        return Some(true);
    }
    if ends_with_str(&low, ".md") || ends_with_str(&low, ".markdown") || ends_with_str(&low, ".mdown")
        || ends_with_str(&low, ".mkd") {
        return Some(false);
    }
    None
}

/// Whether lower-cased text looks like an HTML document or snippet.
pub fn looks_like_html(lowered: &str) -> (r: bool)
    ensures
        r == looks_like_html_spec(lowered@),
{
    let low = chars_of(lowered);
    starts_with_str(&low, "<!doctype html") || starts_with_str(&low, "<html") || (contains_str(
        &low,
        "<head",
    ) && contains_str(&low, "</head>")) || (contains_str(&low, "<body") && contains_str(
        &low,
        "</body>",
    )) || (starts_with_str(&low, "<div") && ends_with_str(&low, "</div>")) || (starts_with_str(
        &low,
        "<p>",
    ) && contains_str(&low, "</p>"))
}

/// Checks if a file should be treated as HTML based on its filename and content.
pub fn is_html_file(filename: &str, content: &str) -> (r: bool)
    ensures
        r == is_html_file_spec(filename@, content@),
{
    let low = string_of(&to_lowercase_chars(filename));
    match html_by_extension(low.as_str()) {
        Some(b) => b,
        None => is_html_content(content),
    }
}

/// Checks if text content looks like an HTML document or snippet.
pub fn is_html_content(content: &str) -> (r: bool)
    ensures
        r == is_html_content_spec(content@),
{
    let trimmed = string_of(&trim_start_chars(&chars_of(content)));
    let low = string_of(&to_lowercase_chars(trimmed.as_str()));
    looks_like_html(low.as_str())
}

// ---------------------------------------------------------------------------
// Editor clean-up
// ---------------------------------------------------------------------------

/// Repeatedly removes the first span from `open` to the next `close`
/// (inclusive), until no `open` is followed by a `close`.
pub open spec fn remove_spans(s: Seq<char>, open: Seq<char>, close: Seq<char>) -> Seq<char>
    decreases s.len(),
{
    if open.len() == 0 || close.len() == 0 {
        s
    } else {
        match find(s, open) {
            Some(st) => match find_from(s, close, st) {
                Some(e) => {
                    let n = s.take(st) + s.skip(e + close.len());
                    if 0 <= st <= e && e + close.len() <= s.len() {
                        remove_spans(n, open, close)
                    } else {
                        s
                    }
                },
                None => s,
            },
            None => s,
        }
    }
}

/// Editor output without mermaid previews, code block headers (each with
/// everything nested in it) and the attributes that hide mermaid sources.
pub open spec fn clean_editor_spec(html: Seq<char>) -> Seq<char> {
    let a = remove_spans(html, "<!-- MERMAID_PREVIEW_START -->"@, "<!-- MERMAID_PREVIEW_END -->"@);
    let b = remove_matched_div_spec(a, "<div class=\"code-block-header\""@);
    replace_all(
        replace_all(replace_all(b, "style=\"display: none;\""@, seq![]), "style=\"display:none;\""@, seq![]),
        "class=\"mermaid-code-pre\""@,
        seq![],
    )
}

pub(crate) fn remove_spans_exec(s: Vec<char>, open: &str, close: &str) -> (r: Vec<char>)
    requires
        open@.len() > 0,
        close@.len() > 0,
    ensures
        r@ == remove_spans(s@, open@, close@),
{
    let clen = chars_of(close).len();
    let mut cur = s;
    loop
        invariant
            open@.len() > 0,
            close@.len() > 0,
            clen == close@.len(),
            remove_spans(cur@, open@, close@) == remove_spans(s@, open@, close@),
        decreases cur@.len(),
    {
        proof {
            lemma_find_from_bounds(cur@, open@, 0);
        }
        let st = match find_str_from(&cur, open, 0) {
            Some(st) => st,
            None => return cur,
        };
        let e = match find_str_from(&cur, close, st) {
            Some(e) => e,
            None => return cur,
        };
        let n = cur.len();
        assert(e + clen <= n);
        let mut next = slice_chars(&cur, 0, st);
        push_range(&mut next, &cur, e + clen, n);
        assert(next@ =~= cur@.take(st as int) + cur@.skip(e + close@.len()));
        cur = next;
    }
}

/// Cleans temporary editor artifacts from innerHTML before storing as document content.
pub fn clean_html_editor_output(html: &str) -> (r: String)
    ensures
        r@ == clean_editor_spec(html@),
{
    proof {
        reveal_strlit("<!-- MERMAID_PREVIEW_START -->");
        reveal_strlit("<!-- MERMAID_PREVIEW_END -->");
        reveal_strlit("<div class=\"code-block-header\"");
        reveal_strlit("</div>");
        reveal_strlit("style=\"display: none;\"");
        reveal_strlit("style=\"display:none;\"");
        reveal_strlit("class=\"mermaid-code-pre\"");
        reveal_strlit("");
    }
    let a = remove_spans_exec(chars_of(html), "<!-- MERMAID_PREVIEW_START -->", "<!-- MERMAID_PREVIEW_END -->");
    let mut header_free = string_of(&a);
    remove_matched_div(&mut header_free, "<div class=\"code-block-header\"");
    let b = chars_of(header_free.as_str());
    let c = replace_chars(&b, "style=\"display: none;\"", "");
    let d = replace_chars(&c, "style=\"display:none;\"", "");
    let e = replace_chars(&d, "class=\"mermaid-code-pre\"", "");
    assert(""@ =~= Seq::<char>::empty());
    string_of(&e)
}


// ---------------------------------------------------------------------------
// Removing whole elements
// ---------------------------------------------------------------------------

pub open spec fn div_close_tag() -> Seq<char> {
    seq!['<', '/', 'd', 'i', 'v', '>']
}

pub open spec fn div_open_tag() -> Seq<char> {
    seq!['<', 'd', 'i', 'v']
}

/// A nested `<div` opens at `i`: the name is followed by whitespace, `>` or `/`.
pub open spec fn div_opens_at(s: Seq<char>, i: int) -> bool {
    &&& matches_at(s, i, div_open_tag())
    &&& i + 4 < s.len()
    &&& (is_ws(s[i + 4]) || s[i + 4] == '>' || s[i + 4] == '/')
}

/// Scanning `s` from `i` inside `depth` open divs: the index just past the
/// `</div>` that closes the outermost of them.
pub open spec fn div_end_from(s: Seq<char>, i: int, depth: nat) -> Option<int>
    decreases s.len() - i,
{
    if i < 0 || i >= s.len() {
        None
    } else if matches_at(s, i, div_close_tag()) {
        if depth <= 1 {
            Some(i + 6)
        } else {
            div_end_from(s, i + 6, (depth - 1) as nat)
        }
    } else if div_opens_at(s, i) {
        div_end_from(s, i + 4, depth + 1)
    } else {
        div_end_from(s, i + 1, depth)
    }
}

pub proof fn lemma_div_end_bounds(s: Seq<char>, i: int, depth: nat)
    ensures
        div_end_from(s, i, depth) matches Some(e) ==> 0 <= i < e <= s.len(),
    decreases s.len() - i,
{
    if i < 0 || i >= s.len() {
    } else if matches_at(s, i, div_close_tag()) {
        if depth > 1 {
            lemma_div_end_bounds(s, i + 6, (depth - 1) as nat);
        }
    } else if div_opens_at(s, i) {
        lemma_div_end_bounds(s, i + 4, depth + 1);
    } else {
        lemma_div_end_bounds(s, i + 1, depth);
    }
}

/// Removes, again and again, the first element that starts with `prefix`,
/// up to and including the `</div>` that closes it, nested divs counted;
/// stops when `prefix` no longer occurs or its element is never closed.
pub open spec fn remove_matched_div_spec(s: Seq<char>, prefix: Seq<char>) -> Seq<char>
    decreases s.len(),
{
    if prefix.len() == 0 {
        s
    } else {
        match find(s, prefix) {
            None => s,
            Some(st) => match div_end_from(s, st + prefix.len(), 1) {
                None => s,
                Some(e) => if 0 <= st < e <= s.len() {
                    remove_matched_div_spec(s.take(st) + s.skip(e), prefix)
                } else {
                    s
                },
            },
        }
    }
}

fn div_end_exec(s: &Vec<char>, from: usize) -> (r: Option<usize>)
    ensures
        r matches Some(e) ==> div_end_from(s@, from as int, 1) == Some(e as int),
        r is None ==> div_end_from(s@, from as int, 1) is None,
{
    let close: Vec<char> = vec!['<', '/', 'd', 'i', 'v', '>'];
    let open: Vec<char> = vec!['<', 'd', 'i', 'v'];
    assert(close@ =~= div_close_tag());
    assert(open@ =~= div_open_tag());
    let mut i = from;
    let mut depth: usize = 1;
    while i < s.len()
        invariant
            from <= i,
            1 <= depth <= i - from + 1,
            close@ == div_close_tag(),
            open@ == div_open_tag(),
            div_end_from(s@, from as int, 1) == div_end_from(s@, i as int, depth as nat),
        decreases s.len() - i,
    {
        if matches_at_chars(s, i, &close) {
            if depth <= 1 {
                return Some(i + 6);
            }
            depth = depth - 1;
            i = i + 6;
        } else if matches_at_chars(s, i, &open) && i + 4 < s.len() && (is_ws_char(s[i + 4]) || s[i + 4]
            == '>' || s[i + 4] == '/') {
            depth = depth + 1;
            i = i + 4;
        } else {
            i = i + 1;
        }
    }
    None
}

/// Removes from `html` each element that starts with `open_prefix`, nested
/// divs inside it included, as long as its closing `</div>` is found.
pub fn remove_matched_div(html: &mut String, open_prefix: &str)
    ensures
        final(html)@ == remove_matched_div_spec(old(html)@, open_prefix@),
{
    let ghost orig = html@;
    let p = chars_of(open_prefix);
    assert(orig == old(html)@);
    if p.len() == 0 {
        return;
    }
    let mut cur = chars_of(html.as_str());
    loop
        invariant
            p@ == open_prefix@,
            p@.len() > 0,
            remove_matched_div_spec(cur@, p@) == remove_matched_div_spec(orig, p@),
        ensures
            cur@ == remove_matched_div_spec(orig, p@),
        decreases cur@.len(),
    {
        proof {
            lemma_find_from_bounds(cur@, p@, 0);
        }
        let st = match find_chars(&cur, &p, 0) {
            Some(st) => st,
            None => break,
        };
        let n = cur.len();
        let plen = p.len();
        assert(st + plen <= n);
        proof {
            lemma_div_end_bounds(cur@, st + p@.len(), 1);
        }
        let e = match div_end_exec(&cur, st + plen) {
            Some(e) => e,
            None => break,
        };
        let mut next = slice_chars(&cur, 0, st);
        push_range(&mut next, &cur, e, n);
        assert(next@ =~= cur@.take(st as int) + cur@.skip(e as int));
        cur = next;
    }
    *html = string_of(&cur);
}

// ---------------------------------------------------------------------------
// Tag stripping
// ---------------------------------------------------------------------------

/// At index `i` of the ASCII-lowercased text `ls` a block-level tag starts (or ends).
pub open spec fn is_block_at(ls: Seq<char>, i: int) -> bool {
    ||| matches_at(ls, i, "<p"@)
    ||| matches_at(ls, i, "</p"@)
    ||| matches_at(ls, i, "<div"@)
    ||| matches_at(ls, i, "</div"@)
    ||| matches_at(ls, i, "<h1"@)
    ||| matches_at(ls, i, "</h1"@)
    ||| matches_at(ls, i, "<h2"@)
    ||| matches_at(ls, i, "</h2"@)
    ||| matches_at(ls, i, "<h3"@)
    ||| matches_at(ls, i, "</h3"@)
    ||| matches_at(ls, i, "<h4"@)
    ||| matches_at(ls, i, "</h4"@)
    ||| matches_at(ls, i, "<h5"@)
    ||| matches_at(ls, i, "</h5"@)
    ||| matches_at(ls, i, "<h6"@)
    ||| matches_at(ls, i, "</h6"@)
    ||| matches_at(ls, i, "<li"@)
    ||| matches_at(ls, i, "</li"@)
    ||| matches_at(ls, i, "<br"@)
    ||| matches_at(ls, i, "<hr"@)
    ||| matches_at(ls, i, "<tr"@)
    ||| matches_at(ls, i, "</tr"@)
    ||| matches_at(ls, i, "<blockquote"@)
    ||| matches_at(ls, i, "</blockquote"@)
}

/// The scanner state of tag stripping.
pub struct StripState {
    pub in_tag: bool,
    pub in_script: bool,
    pub in_style: bool,
    pub is_block: bool,
    pub out: Seq<char>,
}

/// One character of tag stripping. Text outside tags, scripts and styles is
/// kept as it is; a block-level tag leaves one space behind unless the text
/// already ends in a space or newline.
pub open spec fn strip_step(s: Seq<char>, i: int, st: StripState) -> StripState {
    let ls = lower_seq(s);
    if !st.in_tag && s[i] == '<' {
        let script = if matches_at(ls, i, "<script"@) {
            true
        } else if matches_at(ls, i, "</script>"@) {
            false
        } else {
            st.in_script
        };
        let style = if matches_at(ls, i, "<script"@) || matches_at(ls, i, "</script>"@) {
            st.in_style
        } else if matches_at(ls, i, "<style"@) {
            true
        } else if matches_at(ls, i, "</style>"@) {
            false
        } else {
            st.in_style
        };
        StripState {
            in_tag: true,
            in_script: script,
            in_style: style,
            is_block: st.is_block || is_block_at(ls, i),
            out: st.out,
        }
    } else if st.in_tag {
        if s[i] == '>' {
            StripState {
                in_tag: false,
                in_script: st.in_script,
                in_style: st.in_style,
                is_block: false,
                out: if st.is_block && !(st.out.len() == 0 || st.out.last() == ' ' || st.out.last()
                    == '\n') {
                    st.out.push(' ')
                } else {
                    st.out
                },
            }
        } else {
            st
        }
    } else if !st.in_script && !st.in_style {
        StripState { out: st.out.push(s[i]), ..st }
    } else {
        st
    }
}

pub open spec fn strip_run(s: Seq<char>, i: int, st: StripState) -> StripState
    decreases s.len() - i,
{
    if i < 0 || i >= s.len() {
        st
    } else {
        strip_run(s, i + 1, strip_step(s, i, st))
    }
}

/// The basic entities decoded, in this order: `&nbsp;`, `&amp;`, `&lt;`,
/// `&gt;`, `&quot;`, `&#39;`.
pub open spec fn decode_entities(x: Seq<char>) -> Seq<char> {
    replace_all(
        replace_all(
            replace_all(
                replace_all(replace_all(replace_all(x, "&nbsp;"@, " "@), "&amp;"@, "&"@), "&lt;"@, "<"@),
                "&gt;"@,
                ">"@,
            ),
            "&quot;"@,
            "\""@,
        ),
        "&#39;"@,
        "'"@,
    )
}

/// The readable text of an HTML fragment: its characters outside tags,
/// scripts and styles, entities decoded, trimmed.
pub open spec fn strip_spec(html: Seq<char>) -> Seq<char> {
    let init = StripState { in_tag: false, in_script: false, in_style: false, is_block: false, out: seq![] };
    trim(decode_entities(strip_run(html, 0, init).out))
}

/// `s[i..]` starts with the characters of `lit`.
fn matches_at_str(s: &Vec<char>, i: usize, lit: &str) -> (r: bool)
    ensures
        r == matches_at(s@, i as int, lit@),
{
    let p = chars_of(lit);
    matches_at_chars(s, i, &p)
}

fn block_tag_at(ls: &Vec<char>, i: usize) -> (r: bool)
    ensures
        r == is_block_at(ls@, i as int),
{
    matches_at_str(ls, i, "<p") ||
    matches_at_str(ls, i, "</p") ||
    matches_at_str(ls, i, "<div") ||
    matches_at_str(ls, i, "</div") ||
    matches_at_str(ls, i, "<h1") ||
    matches_at_str(ls, i, "</h1") ||
    matches_at_str(ls, i, "<h2") ||
    matches_at_str(ls, i, "</h2") ||
    matches_at_str(ls, i, "<h3") ||
    matches_at_str(ls, i, "</h3") ||
    matches_at_str(ls, i, "<h4") ||
    matches_at_str(ls, i, "</h4") ||
    matches_at_str(ls, i, "<h5") ||
    matches_at_str(ls, i, "</h5") ||
    matches_at_str(ls, i, "<h6") ||
    matches_at_str(ls, i, "</h6") ||
    matches_at_str(ls, i, "<li") ||
    matches_at_str(ls, i, "</li") ||
    matches_at_str(ls, i, "<br") ||
    matches_at_str(ls, i, "<hr") ||
    matches_at_str(ls, i, "<tr") ||
    matches_at_str(ls, i, "</tr") ||
    matches_at_str(ls, i, "<blockquote") ||
    matches_at_str(ls, i, "</blockquote")
}

fn decode_entities_exec(x: &Vec<char>) -> (r: Vec<char>)
    ensures
        r@ == decode_entities(x@),
{
    proof {
        reveal_strlit("&nbsp;");
        reveal_strlit("&amp;");
        reveal_strlit("&lt;");
        reveal_strlit("&gt;");
        reveal_strlit("&quot;");
        reveal_strlit("&#39;");
    }
    let a = replace_chars(x, "&nbsp;", " ");
    let b = replace_chars(&a, "&amp;", "&");
    let c = replace_chars(&b, "&lt;", "<");
    let d = replace_chars(&c, "&gt;", ">");
    let e = replace_chars(&d, "&quot;", "\"");
    replace_chars(&e, "&#39;", "'")
}

/// Strips HTML tags and decodes basic entities to produce clean readable text.
pub fn strip_html_tags(html: &str) -> (r: String)
    ensures
        r@ == strip_spec(html@),
{
    let s = chars_of(html);
    let ls = lower_chars(&s);
    let n = s.len();
    let mut out: Vec<char> = Vec::new();
    let mut i: usize = 0;
    let mut in_tag = false;
    let mut in_script = false;
    let mut in_style = false;
    let mut is_block_tag = false;
    let ghost init = StripState { in_tag: false, in_script: false, in_style: false, is_block: false, out: seq![] };
    while i < n
        invariant
            n == s@.len(),
            s@ == html@,
            ls@ == lower_seq(s@),
            i <= n,
            strip_run(s@, 0, init) == strip_run(
                s@,
                i as int,
                StripState { in_tag, in_script, in_style, is_block: is_block_tag, out: out@ },
            ),
        decreases n - i,
    {
        let c = s[i];
        if !in_tag && c == '<' {
            if matches_at_str(&ls, i, "<script") {
                in_script = true;
            } else if matches_at_str(&ls, i, "</script>") {
                in_script = false;
            } else if matches_at_str(&ls, i, "<style") {
                in_style = true;
            } else if matches_at_str(&ls, i, "</style>") {
                in_style = false;
            }
            if block_tag_at(&ls, i) {
                is_block_tag = true;
            }
            in_tag = true;
        } else if in_tag {
            if c == '>' {
                in_tag = false;
                if is_block_tag {
                    let ends_blank = out.len() == 0 || out[out.len() - 1] == ' ' || out[out.len()
                        - 1] == '\n';
                    if !ends_blank {
                        out.push(' ');
                    }
                    is_block_tag = false;
                }
            }
        } else if !in_script && !in_style {
            out.push(c);
        }
        i = i + 1;
    }
    let d = decode_entities_exec(&out);
    string_of(&trim_chars(&d))
}

// ---------------------------------------------------------------------------
// Attributes and outline
// ---------------------------------------------------------------------------

pub open spec fn is_attr_end(c: char) -> bool {
    c == ' ' || c == '>' || c == '\t' || c == '\r' || c == '\n'
}

/// The index of the first attribute-ending character at or after `i`, or the length.
pub open spec fn attr_end_from(s: Seq<char>, i: int) -> int
    decreases s.len() - i,
{
    if i < 0 || i >= s.len() {
        s.len() as int
    } else if is_attr_end(s[i]) {
        i
    } else {
        attr_end_from(s, i + 1)
    }
}

/// The first index at or after `from` where `search` starts right after a
/// whitespace character, i.e. at the start of an attribute.
pub open spec fn attr_start_from(low: Seq<char>, search: Seq<char>, from: int) -> Option<int>
    decreases low.len() + 1 - from,
{
    if from < 0 || from + search.len() > low.len() {
        None
    } else if from > 0 && is_ws(low[from - 1]) && matches_at(low, from, search) {
        Some(from)
    } else {
        attr_start_from(low, search, from + 1)
    }
}

pub proof fn lemma_attr_start_bounds(low: Seq<char>, search: Seq<char>, from: int)
    ensures
        attr_start_from(low, search, from) matches Some(k) ==> from <= k && 0 < k && k
            + search.len() <= low.len() && matches_at(low, k, search) && is_ws(low[k - 1]),
    decreases low.len() + 1 - from,
{
    if from < 0 || from + search.len() > low.len() {
    } else if from > 0 && is_ws(low[from - 1]) && matches_at(low, from, search) {
    } else {
        lemma_attr_start_bounds(low, search, from + 1);
    }
}

/// The value of attribute `name` in a tag's text (the name matched without
/// regard to ASCII case, at the start of an attribute): quoted with `"` or
/// `'` (absent when the quote is not closed) or unquoted up to a space, `>`,
/// tab or line break.
pub open spec fn attr_spec(tag: Seq<char>, name: Seq<char>) -> Option<Seq<char>> {
    let low = lower_seq(tag);
    let search = lower_seq(name).push('=');
    match attr_start_from(low, search, 0) {
        Some(pos) => {
            let after = pos + search.len();
            if 0 <= after < tag.len() {
                let q = tag[after];
                if q == '"' || q == '\'' {
                    match find_from(tag, seq![q], after + 1) {
                        Some(e) => Some(tag.subrange(after + 1, e)),
                        None => None,
                    }
                } else {
                    Some(tag.subrange(after, attr_end_from(tag, after)))
                }
            } else {
                None
            }
        },
        None => None,
    }
}

fn attr_start_exec(low: &Vec<char>, search: &Vec<char>) -> (r: Option<usize>)
    ensures
        r matches Some(k) ==> attr_start_from(low@, search@, 0) == Some(k as int),
        r is None ==> attr_start_from(low@, search@, 0) is None,
{
    let n = low.len();
    let m = search.len();
    if m > n {
        return None;
    }
    let mut i: usize = 0;
    loop
        invariant
            n == low@.len(),
            m == search@.len(),
            m <= n,
            i <= n - m,
            attr_start_from(low@, search@, 0) == attr_start_from(low@, search@, i as int),
        decreases n - m - i,
    {
        if i > 0 && is_ws_char(low[i - 1]) && matches_at_chars(low, i, search) {
            return Some(i);
        }
        if i == n - m {
            assert(attr_start_from(low@, search@, i + 1) is None);
            return None;
        }
        i = i + 1;
    }
}

/// Extracts a named attribute value from an HTML tag string.
fn extract_tag_attribute(tag: &Vec<char>, attr_name: &str) -> (r: Option<Vec<char>>)
    ensures
        match r {
            Some(v) => attr_spec(tag@, attr_name@) == Some(v@),
            None => attr_spec(tag@, attr_name@) is None,
        },
{
    let low = lower_chars(tag);
    let mut search = lower_chars(&chars_of(attr_name));
    search.push('=');
    let n = tag.len();
    let pos = match attr_start_exec(&low, &search) {
        Some(p) => p,
        None => return None,
    };
    proof {
        lemma_attr_start_bounds(low@, search@, 0);
    }
    let after = pos + search.len();
    if after >= n {
        return None;
    }
    let q = tag[after];
    if q == '"' || q == '\'' {
        let qv: Vec<char> = vec![q];
        assert(qv@ =~= seq![q]);
        match find_chars(tag, &qv, after + 1) {
            Some(e) => {
                proof {
                    lemma_find_from_bounds(tag@, seq![q], after + 1);
                }
                Some(slice_chars(tag, after + 1, e))
            },
            None => None,
        }
    } else {
        let mut end = after;
        while end < n && !(tag[end] == ' ' || tag[end] == '>' || tag[end] == '\t' || tag[end]
            == '\r' || tag[end] == '\n')
            invariant
                n == tag@.len(),
                after <= end <= n,
                attr_end_from(tag@, after as int) == attr_end_from(tag@, end as int),
            decreases n - end,
        {
            end = end + 1;
        }
        Some(slice_chars(tag, after, end))
    }
}

/// The headings `<h1>`…`<h6>` of `html` found from index `from` on.
pub open spec fn html_outline_from(html: Seq<char>, low: Seq<char>, from: int) -> Seq<OutlineItemView>
    decreases html.len() + 1 - from,
{
    if from < 0 || from >= html.len() {
        seq![]
    } else {
        match find_from(low, "<h"@, from) {
            Some(ts) => {
                let fallback = if from < ts + 2 <= html.len() + 1 {
                    html_outline_from(html, low, ts + 2)
                } else {
                    seq![]
                };
                if ts + 3 < html.len() && '1' <= html[ts + 2] && html[ts + 2] <= '6' && (html[ts
                    + 3] == ' ' || html[ts + 3] == '>' || html[ts + 3] == '\t' || html[ts + 3]
                    == '\n') {
                    match tag_close_from(html, ts, None) {
                        Some(tc) => {
                            let close = "</h"@ + seq![html[ts + 2]] + ">"@;
                            let cs = tc + 1;
                            match find_from(low, close, cs) {
                                Some(ce) => {
                                    let text = trim(strip_spec(html.subrange(cs, ce)));
                                    let next = ce + close.len();
                                    let rest = if from < next <= html.len() + 1 {
                                        html_outline_from(html, low, next)
                                    } else {
                                        seq![]
                                    };
                                    if text.len() > 0 {
                                        let id = match attr_spec(html.subrange(ts, tc + 1), "id"@) {
                                            Some(v) => v,
                                            None => slugify_spec(text),
                                        };
                                        seq![
                                            OutlineItemView {
                                                level: digit_value(html[ts + 2]),
                                                text,
                                                id,
                                            },
                                        ] + rest
                                    } else {
                                        rest
                                    }
                                },
                                None => fallback,
                            }
                        },
                        None => fallback,
                    }
                } else {
                    fallback
                }
            },
            None => seq![],
        }
    }
}

pub open spec fn extract_html_outline_spec(html: Seq<char>) -> Seq<OutlineItemView> {
    html_outline_from(html, lower_seq(html), 0)
}

/// The outline item of a heading whose opening tag spans `ts..=tc` and whose
/// content spans `cs..ce`.
fn heading_item_at(html: &Vec<char>, ts: usize, tc: usize, cs: usize, ce: usize) -> (r: Option<OutlineItem>)
    requires
        ts + 3 < html@.len(),
        ts <= tc,
        cs == tc + 1,
        cs <= ce <= html@.len(),
        '1' <= html@[ts + 2] <= '6',
    ensures
        ({
            let text = trim(strip_spec(html@.subrange(cs as int, ce as int)));
            match r {
                Some(item) => text.len() > 0 && item@ == (OutlineItemView {
                    level: digit_value(html@[ts + 2]),
                    text,
                    id: match attr_spec(html@.subrange(ts as int, tc + 1), "id"@) {
                        Some(v) => v,
                        None => slugify_spec(text),
                    },
                }),
                None => text.len() == 0,
            }
        }),
{
    let inner = string_of(&slice_chars(html, cs, ce));
    let stripped = strip_html_tags(inner.as_str());
    let text = trim_chars(&chars_of(stripped.as_str()));
    if text.len() == 0 {
        return None;
    }
    let text_s = string_of(&text);
    let header = slice_chars(html, ts, tc + 1);
    let id = match extract_tag_attribute(&header, "id") {
        Some(v) => string_of(&v),
        None => slugify(text_s.as_str()),
    };
    let d = html[ts + 2];
    let level: usize = ((d as u32) - 48) as usize;
    Some(OutlineItem { level, text: text_s, id })
}

/// One step of the outline scan from `from`: `None` when no further `<h`
/// occurs, else the item found (if any) and where the scan continues.
fn outline_step(h: &Vec<char>, low: &Vec<char>, from: usize) -> (r: Option<(Option<OutlineItem>, usize)>)
    requires
        low@ == lower_seq(h@),
        from < h@.len(),
    ensures
        match r {
            None => html_outline_from(h@, low@, from as int) == Seq::<OutlineItemView>::empty(),
            Some((item, next)) => from < next <= h@.len() + 1 && html_outline_from(h@, low@, from as int)
                == (match item {
                Some(it) => seq![it@],
                None => Seq::<OutlineItemView>::empty(),
            }) + html_outline_from(h@, low@, next as int),
        },
{
    let n = h.len();
    proof {
        reveal_strlit("<h");
    }
    let ts = match find_str_from(low, "<h", from) {
        Some(ts) => ts,
        None => return None,
    };
    if n - ts > 3 && '1' <= h[ts + 2] && h[ts + 2] <= '6' && (h[ts + 3] == ' ' || h[ts + 3] == '>'
        || h[ts + 3] == '\t' || h[ts + 3] == '\n') {
        if let Some(tc) = find_tag_close(h, ts) {
            let mut close: Vec<char> = vec!['<', '/', 'h'];
            close.push(h[ts + 2]);
            close.push('>');
            proof {
                reveal_strlit("</h");
                reveal_strlit(">");
            }
            assert(close@ =~= "</h"@ + seq![h@[ts + 2]] + ">"@);
            let cs = tc + 1;
            if let Some(ce) = find_chars(low, &close, cs) {
                proof {
                    lemma_find_from_bounds(low@, close@, cs as int);
                }
                let next = ce + close.len();
                let item = heading_item_at(h, ts, tc, cs, ce);
                return Some((item, next));
            }
        }
    }
    Some((None, ts + 2))
}

/// Extracts document outline (headings H1-H6) from HTML.
pub fn extract_html_outline(html: &str) -> (r: Vec<OutlineItem>)
    ensures
        outline_view(r@) == extract_html_outline_spec(html@),
{
    let h = chars_of(html);
    let low = lower_chars(&h);
    let n = h.len();
    let mut items: Vec<OutlineItem> = Vec::new();
    let mut search_from: usize = 0;
    assert(outline_view(items@) + html_outline_from(h@, low@, 0) =~= html_outline_from(h@, low@, 0));
    loop
        invariant
            h@ == html@,
            low@ == lower_seq(h@),
            n == h@.len(),
            search_from <= n + 1,
            outline_view(items@) + html_outline_from(h@, low@, search_from as int)
                == html_outline_from(h@, low@, 0),
        decreases n + 1 - search_from,
    {
        if search_from >= n {
            assert(outline_view(items@) =~= html_outline_from(h@, low@, 0));
            return items;
        }
        match outline_step(&h, &low, search_from) {
            None => {
                assert(outline_view(items@) =~= html_outline_from(h@, low@, 0));
                return items;
            },
            Some((item, next)) => {
                let ghost old_items = items@;
                match item {
                    Some(it) => {
                        items.push(it);
                        assert(outline_view(items@) =~= outline_view(old_items).push(it@));
                    },
                    None => {},
                }
                assert(outline_view(items@) + html_outline_from(h@, low@, next as int) =~= outline_view(
                    old_items,
                ) + html_outline_from(h@, low@, search_from as int));
                search_from = next;
            },
        }
    }
}

// ---------------------------------------------------------------------------
// Laws of the outline
// ---------------------------------------------------------------------------

/// The first match of `pat` from `from` on is at `k` when it occurs there and
/// `s` does not start with its first character anywhere before.
proof fn lemma_find_first_at(s: Seq<char>, pat: Seq<char>, from: int, k: int)
    requires
        0 <= from <= k,
        pat.len() > 0,
        matches_at(s, k, pat),
        forall|i: int| from <= i < k ==> s[i] != pat[0],
    ensures
        find_from(s, pat, from) == Some(k),
    decreases k - from,
{
    if from < k {
        assert(s.subrange(from, from + pat.len())[0] == s[from]);
        assert(!matches_at(s, from, pat));
        lemma_find_first_at(s, pat, from + 1, k);
    }
}

/// Text without `c` is left alone by replacing a pattern that starts with `c`.
proof fn lemma_replace_absent(x: Seq<char>, pat: Seq<char>, rep: Seq<char>)
    requires
        pat.len() > 0,
        forall|j: int| 0 <= j < x.len() ==> x[j] != pat[0],
    ensures
        replace_all(x, pat, rep) == x,
    decreases x.len(),
{
    if x.len() > 0 {
        if pat.len() <= x.len() {
            assert(x.subrange(0, pat.len() as int)[0] == x[0]);
        }
        assert(!matches_at(x, 0, pat));
        lemma_replace_absent(x.drop_first(), pat, rep);
        assert(seq![x[0]] + x.drop_first() =~= x);
    }
}

/// Text without `<` passes tag stripping unchanged.
proof fn lemma_strip_plain(t: Seq<char>, i: int, st: StripState)
    requires
        0 <= i <= t.len(),
        forall|j: int| 0 <= j < t.len() ==> t[j] != '<',
        !st.in_tag,
        !st.in_script,
        !st.in_style,
    ensures
        strip_run(t, i, st).out == st.out + t.skip(i),
    decreases t.len() - i,
{
    if i == t.len() {
        assert(st.out + t.skip(i) =~= st.out);
    } else {
        let st2 = strip_step(t, i, st);
        assert(st2.out == st.out.push(t[i]));
        lemma_strip_plain(t, i + 1, st2);
        assert(st.out.push(t[i]) + t.skip(i + 1) =~= st.out + t.skip(i));
    }
}

/// A heading of any level from 1 to 6 around plain text is exactly one
/// outline item: that level, that text, and the text's slug as id.
pub proof fn lemma_single_heading_outline(d: char, t: Seq<char>)
    requires
        '1' <= d <= '6',
        t.len() > 0,
        trim(t) == t,
        forall|j: int| 0 <= j < t.len() ==> t[j] != '<' && t[j] != '&',
    ensures
        extract_html_outline_spec(seq!['<', 'h', d, '>'] + t + seq!['<', '/', 'h', d, '>']) == seq![
            OutlineItemView { level: digit_value(d), text: t, id: slugify_spec(t) },
        ],
{
    let open = seq!['<', 'h', d, '>'];
    let closing = seq!['<', '/', 'h', d, '>'];
    let html = open + t + closing;
    let low = lower_seq(html);
    let n = t.len() as int;
    reveal_strlit("<h");
    reveal_strlit("</h");
    reveal_strlit(">");
    reveal_strlit("id");
    reveal_strlit("&nbsp;");
    reveal_strlit("&amp;");
    reveal_strlit("&lt;");
    reveal_strlit("&gt;");
    reveal_strlit("&quot;");
    reveal_strlit("&#39;");
    assert(html.len() == n + 9);
    assert(html[0] == '<' && html[1] == 'h' && html[2] == d && html[3] == '>');
    assert forall|j: int| 0 <= j < n implies html[4 + j] == t[j] by {}
    assert(html[4 + n] == '<' && html[5 + n] == '/' && html[6 + n] == 'h' && html[7 + n] == d
        && html[8 + n] == '>');
    // the opening tag
    assert(low.subrange(0, 2) =~= "<h"@);
    lemma_find_first_at(low, "<h"@, 0, 0);
    assert(tag_close_from(html, 3, None) == Some(3int));
    assert(tag_close_from(html, 2, None) == Some(3int));
    assert(tag_close_from(html, 1, None) == Some(3int));
    assert(tag_close_from(html, 0, None) == Some(3int));
    // the closing tag
    let close = "</h"@ + seq![html[2]] + ">"@;
    assert(close =~= closing);
    assert(low.subrange(4 + n, 9 + n) =~= closing);
    assert forall|i: int| 4 <= i < 4 + n implies low[i] != close[0] by {
        assert(low[i] == lower(t[i - 4]));
    }
    lemma_find_first_at(low, close, 4, 4 + n);
    // the text
    assert(html.subrange(4, 4 + n) =~= t);
    let init = StripState { in_tag: false, in_script: false, in_style: false, is_block: false, out: seq![] };
    lemma_strip_plain(t, 0, init);
    assert(Seq::<char>::empty() + t.skip(0) =~= t);
    lemma_replace_absent(t, "&nbsp;"@, " "@);
    lemma_replace_absent(t, "&amp;"@, "&"@);
    lemma_replace_absent(t, "&lt;"@, "<"@);
    lemma_replace_absent(t, "&gt;"@, ">"@);
    lemma_replace_absent(t, "&quot;"@, "\""@);
    lemma_replace_absent(t, "&#39;"@, "'"@);
    assert(decode_entities(t) == t);
    assert(strip_spec(t) == t);
    // the id
    let tag = html.subrange(0, 4);
    let search = lower_seq("id"@).push('=');
    assert(attr_start_from(lower_seq(tag), search, 2) is None);
    assert(attr_start_from(lower_seq(tag), search, 1) is None);
    assert(attr_start_from(lower_seq(tag), search, 0) is None);
    assert(attr_spec(tag, "id"@) is None);
    // nothing after it
    assert(html_outline_from(html, low, 9 + n) =~= Seq::<OutlineItemView>::empty());
}

} // verus!
