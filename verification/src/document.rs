//! What the editor does on its own: keyboard shortcuts, slash commands,
//! inserted markup, find and replace, and exporting a document.
use vstd::prelude::*;
use crate::text::{
    chars_of, string_of, push_str, push_dec, dec, trim, trim_chars, find, find_str_from, replace_all,
    replace_chars, matches_at, ends_with_str, slice_chars, push_range, eq_str, contains_str,
    starts_with_str, text_lower, to_lowercase_chars,
};
use crate::state::EditorMode;
use crate::html::{
    HtmlEnvelope, parse_spec, full_document_spec, reassemble_spec, clean_editor_spec,
    clean_html_editor_output,
};
use crate::markdown::{markdown_to_html, markdown_html_spec, html_to_markdown, html_to_markdown_spec};

verus! {

broadcast use vstd::string::group_string_axioms;

// ---------------------------------------------------------------------------
// Keyboard shortcuts
// ---------------------------------------------------------------------------

/// What a shortcut asks for.
#[derive(Debug, Clone, Copy, PartialEq, Eq, Structural)]
pub enum ShortcutAction {
    SetMode(EditorMode),
    Save,
    /// Open the file dialog, the editor going to the left side when `left`.
    OpenFile { left: bool },
    NewFile { left: bool },
    ToggleFind,
    CloseEditor,
    NextTheme,
    CycleMode,
}

/// The mode after `m` in the cycle WYSIWYG, split, source.
pub open spec fn next_mode(m: EditorMode) -> EditorMode {
    match m {
        EditorMode::Wysiwyg => EditorMode::Split,
        EditorMode::Split => EditorMode::Source,
        EditorMode::Source => EditorMode::Wysiwyg,
    }
}

/// Cycling the mode three times comes back to where it started, through
/// every mode once.
pub proof fn lemma_mode_cycle(m: EditorMode)
    ensures
        next_mode(next_mode(next_mode(m))) == m,
        next_mode(m) != m,
        next_mode(next_mode(m)) != m,
        next_mode(next_mode(m)) != next_mode(m),
{
}

pub fn cycle_mode(m: EditorMode) -> (r: EditorMode)
    ensures
        r == next_mode(m),
{
    match m {
        EditorMode::Wysiwyg => EditorMode::Split,
        EditorMode::Split => EditorMode::Source,
        EditorMode::Source => EditorMode::Wysiwyg,
    }
}

/// The action of `Alt` with `key`.
pub open spec fn alt_action(key: Seq<char>) -> Option<ShortcutAction> {
    if key == "1"@ {
        Some(ShortcutAction::SetMode(EditorMode::Wysiwyg))
    } else if key == "2"@ {
        Some(ShortcutAction::SetMode(EditorMode::Split))
    } else if key == "3"@ {
        Some(ShortcutAction::SetMode(EditorMode::Source))
    } else {
        None
    }
}

/// The action of `Ctrl` (or `Cmd`) with `key`; `Cmd` sends new and opened
/// documents to the left side.
pub open spec fn ctrl_action(key: Seq<char>, meta: bool, editor_open: bool) -> Option<ShortcutAction> {
    if key == "s"@ {
        Some(ShortcutAction::Save)
    } else if key == "o"@ {
        Some(ShortcutAction::OpenFile { left: meta })
    } else if key == "n"@ {
        Some(ShortcutAction::NewFile { left: meta })
    } else if key == "f"@ {
        Some(ShortcutAction::ToggleFind)
    } else if key == "w"@ && editor_open {
        Some(ShortcutAction::CloseEditor)
    } else if key == "t"@ {
        Some(ShortcutAction::NextTheme)
    } else if key == "m"@ {
        Some(ShortcutAction::CycleMode)
    } else {
        None
    }
}

pub open spec fn opt_action_seq(a: Option<ShortcutAction>) -> Seq<ShortcutAction> {
    match a {
        Some(x) => seq![x],
        None => seq![],
    }
}

/// The actions of a lower-cased key, in order: the `Alt`
/// one, then the `Ctrl`/`Cmd` one. Each of them takes the key from the page.
pub open spec fn shortcut_spec(key: Seq<char>, ctrl: bool, meta: bool, alt: bool, editor_open: bool) -> Seq<
    ShortcutAction,
> {
    (if alt {
        opt_action_seq(alt_action(key))
    } else {
        seq![]
    }) + (if ctrl || meta {
        opt_action_seq(ctrl_action(key, meta, editor_open))
    } else {
        seq![]
    })
}

fn alt_action_exec(k: &Vec<char>) -> (r: Option<ShortcutAction>)
    ensures
        r == alt_action(k@),
{
    if eq_str(k, "1") {
        Some(ShortcutAction::SetMode(EditorMode::Wysiwyg))
    } else if eq_str(k, "2") {
        Some(ShortcutAction::SetMode(EditorMode::Split))
    } else if eq_str(k, "3") {
        Some(ShortcutAction::SetMode(EditorMode::Source))
    } else {
        None
    }
}

fn ctrl_action_exec(k: &Vec<char>, meta: bool, editor_open: bool) -> (r: Option<ShortcutAction>)
    ensures
        r == ctrl_action(k@, meta, editor_open),
{
    if eq_str(k, "s") {
        Some(ShortcutAction::Save)
    } else if eq_str(k, "o") {
        Some(ShortcutAction::OpenFile { left: meta })
    } else if eq_str(k, "n") {
        Some(ShortcutAction::NewFile { left: meta })
    } else if eq_str(k, "f") {
        Some(ShortcutAction::ToggleFind)
    } else if eq_str(k, "w") && editor_open {
        Some(ShortcutAction::CloseEditor)
    } else if eq_str(k, "t") {
        Some(ShortcutAction::NextTheme)
    } else if eq_str(k, "m") {
        Some(ShortcutAction::CycleMode)
    } else {
        None
    }
}

/// The actions of a key press; the key is lower-cased first, so `M` and `m`
/// act alike.
pub fn shortcut_actions(key: &str, ctrl: bool, meta: bool, alt: bool, editor_open: bool) -> (r: Vec<
    ShortcutAction,
>)
    ensures
        r@ == shortcut_spec(text_lower(key@), ctrl, meta, alt, editor_open),
{
    let k = to_lowercase_chars(key);
    let mut r: Vec<ShortcutAction> = Vec::new();
    if alt {
        match alt_action_exec(&k) {
            Some(a) => r.push(a),
            None => {},
        }
    }
    let ghost first = r@;
    if ctrl || meta {
        match ctrl_action_exec(&k, meta, editor_open) {
            Some(a) => r.push(a),
            None => {},
        }
    }
    assert(r@ =~= shortcut_spec(text_lower(key@), ctrl, meta, alt, editor_open));
    r
}

// ---------------------------------------------------------------------------
// Inserted markup
// ---------------------------------------------------------------------------

pub open spec fn header_cells(cols: nat) -> Seq<char>
    decreases cols,
{
    if cols == 0 {
        seq![]
    } else {
        header_cells((cols - 1) as nat) + "<th>Header "@ + dec(cols) + "</th>"@
    }
}

pub open spec fn row_cells(row: nat, cols: nat) -> Seq<char>
    decreases cols,
{
    if cols == 0 {
        seq![]
    } else {
        row_cells(row, (cols - 1) as nat) + "<td>Row "@ + dec(row) + " Col "@ + dec(cols) + "</td>"@
    }
}

pub open spec fn table_rows(rows: nat, cols: nat) -> Seq<char>
    decreases rows,
{
    if rows == 0 {
        seq![]
    } else {
        table_rows((rows - 1) as nat, cols) + "<tr>"@ + row_cells(rows, cols) + "</tr>"@
    }
}

/// A table of `rows` rows under a header row, with placeholder cells.
pub open spec fn table_html_spec(rows: nat, cols: nat) -> Seq<char> {
    "<table class=\"md-table\"><thead><tr>"@ + header_cells(cols) + "</tr></thead><tbody>"@ + table_rows(
        rows,
        cols,
    ) + "</tbody></table><p></p>"@
}

pub fn table_html(rows: u32, cols: u32) -> (r: String)
    ensures
        r@ == table_html_spec(rows as nat, cols as nat),
{
    let mut out = chars_of("<table class=\"md-table\"><thead><tr>");
    let ghost start = out@;
    let mut c: u32 = 0;
    while c < cols
        invariant
            c <= cols,
            out@ == start + header_cells(c as nat),
        decreases cols - c,
    {
        c = c + 1;
        push_str(&mut out, "<th>Header ");
        push_dec(&mut out, c as u64);
        push_str(&mut out, "</th>");
    }
    push_str(&mut out, "</tr></thead><tbody>");
    let ghost head = out@;
    let mut r: u32 = 0;
    while r < rows
        invariant
            r <= rows,
            out@ == head + table_rows(r as nat, cols as nat),
        decreases rows - r,
    {
        r = r + 1;
        let ghost before = out@;
        push_str(&mut out, "<tr>");
        let ghost open = out@;
        let mut k: u32 = 0;
        while k < cols
            invariant
                k <= cols,
                1 <= r <= rows,
                out@ == open + row_cells(r as nat, k as nat),
            decreases cols - k,
        {
            k = k + 1;
            push_str(&mut out, "<td>Row ");
            push_dec(&mut out, r as u64);
            push_str(&mut out, " Col ");
            push_dec(&mut out, k as u64);
            push_str(&mut out, "</td>");
        }
        push_str(&mut out, "</tr>");
    }
    push_str(&mut out, "</tbody></table><p></p>");
    string_of(&out)
}

/// A link to `url` showing `text`, or the address where the text is blank.
pub open spec fn link_html_spec(url: Seq<char>, text: Seq<char>) -> Seq<char> {
    "<a href=\""@ + url + "\">"@ + (if trim(text).len() == 0 {
        url
    } else {
        text
    }) + "</a>"@
}

pub fn link_html(url: &str, text: &str) -> (r: String)
    ensures
        r@ == link_html_spec(url@, text@),
{
    let mut out = chars_of("<a href=\"");
    push_str(&mut out, url);
    push_str(&mut out, "\">");
    if trim_chars(&chars_of(text)).len() == 0 {
        push_str(&mut out, url);
    } else {
        push_str(&mut out, text);
    }
    push_str(&mut out, "</a>");
    string_of(&out)
}

pub open spec fn image_html_spec(url: Seq<char>, alt: Seq<char>) -> Seq<char> {
    "<img src=\""@ + url + "\" alt=\""@ + alt + "\" />"@
}

pub fn image_html(url: &str, alt: &str) -> (r: String)
    ensures
        r@ == image_html_spec(url@, alt@),
{
    let mut out = chars_of("<img src=\"");
    push_str(&mut out, url);
    push_str(&mut out, "\" alt=\"");
    push_str(&mut out, alt);
    push_str(&mut out, "\" />");
    string_of(&out)
}

/// What a slash command does in the editor.
#[derive(Debug, Clone, PartialEq, Eq)]
pub enum SlashAction {
    /// Run the editing command `command` with `value`.
    Exec { command: String, value: Option<String> },
    /// Insert a table of this many rows and columns.
    InsertTable { rows: u32, cols: u32 },
    /// Insert the sample diagram (its markup is `MERMAID_SAMPLE`) and render diagrams.
    InsertMermaid,
    Nothing,
}

pub const TASK_LIST_SAMPLE: &'static str = "<ul class=\"task-list\"><li class=\"task-list-item\"><input type=\"checkbox\" class=\"md-task-checkbox\" /> Task</li></ul>";

pub const CODE_SAMPLE: &'static str = "<pre><code>// code here\n</code></pre><p></p>";

pub enum SlashActionView {
    Exec { command: Seq<char>, value: Option<Seq<char>> },
    InsertTable { rows: u32, cols: u32 },
    InsertMermaid,
    Nothing,
}

impl View for SlashAction {
    type V = SlashActionView;

    open spec fn view(&self) -> SlashActionView {
        match self {
            SlashAction::Exec { command, value } => SlashActionView::Exec {
                command: command@,
                value: match value {
                    Some(v) => Some(v@),
                    None => None,
                },
            },
            SlashAction::InsertTable { rows, cols } => SlashActionView::InsertTable { rows: *rows, cols: *cols },
            SlashAction::InsertMermaid => SlashActionView::InsertMermaid,
            SlashAction::Nothing => SlashActionView::Nothing,
        }
    }
}

pub open spec fn exec_cmd(command: Seq<char>, value: Option<Seq<char>>) -> SlashActionView {
    SlashActionView::Exec { command, value }
}

/// The slash menu's items.
pub open spec fn slash_spec(item: Seq<char>) -> SlashActionView {
    if item == "h1"@ {
        exec_cmd("formatBlock"@, Some("<h1>"@))
    } else if item == "h2"@ {
        exec_cmd("formatBlock"@, Some("<h2>"@))
    } else if item == "h3"@ {
        exec_cmd("formatBlock"@, Some("<h3>"@))
    } else if item == "tasklist"@ {
        exec_cmd("insertHTML"@, Some(TASK_LIST_SAMPLE@))
    } else if item == "bullet"@ {
        exec_cmd("insertUnorderedList"@, None)
    } else if item == "number"@ {
        exec_cmd("insertOrderedList"@, None)
    } else if item == "quote"@ {
        exec_cmd("formatBlock"@, Some("<blockquote>"@))
    } else if item == "code"@ {
        exec_cmd("insertHTML"@, Some(CODE_SAMPLE@))
    } else if item == "mermaid"@ {
        SlashActionView::InsertMermaid
    } else if item == "table"@ {
        SlashActionView::InsertTable { rows: 3, cols: 3 }
    } else if item == "divider"@ {
        exec_cmd("insertHorizontalRule"@, None)
    } else {
        SlashActionView::Nothing
    }
}

fn exec_action(command: &str, value: Option<&str>) -> (r: SlashAction)
    ensures
        r@ == exec_cmd(
            command@,
            match value {
                Some(v) => Some(v@),
                None => None,
            },
        ),
{
    SlashAction::Exec {
        command: string_of(&chars_of(command)),
        value: match value {
            Some(v) => Some(string_of(&chars_of(v))),
            None => None,
        },
    }
}

pub fn slash_action(item: &str) -> (r: SlashAction)
    ensures
        r@ == slash_spec(item@),
{
    let k = chars_of(item);
    if eq_str(&k, "h1") {
        exec_action("formatBlock", Some("<h1>"))
    } else if eq_str(&k, "h2") {
        exec_action("formatBlock", Some("<h2>"))
    } else if eq_str(&k, "h3") {
        exec_action("formatBlock", Some("<h3>"))
    } else if eq_str(&k, "tasklist") {
        exec_action("insertHTML", Some(TASK_LIST_SAMPLE))
    } else if eq_str(&k, "bullet") {
        exec_action("insertUnorderedList", None)
    } else if eq_str(&k, "number") {
        exec_action("insertOrderedList", None)
    } else if eq_str(&k, "quote") {
        exec_action("formatBlock", Some("<blockquote>"))
    } else if eq_str(&k, "code") {
        exec_action("insertHTML", Some(CODE_SAMPLE))
    } else if eq_str(&k, "mermaid") {
        SlashAction::InsertMermaid
    } else if eq_str(&k, "table") {
        SlashAction::InsertTable { rows: 3, cols: 3 }
    } else if eq_str(&k, "divider") {
        exec_action("insertHorizontalRule", None)
    } else {
        SlashAction::Nothing
    }
}

// ---------------------------------------------------------------------------
// Find and replace
// ---------------------------------------------------------------------------

/// The text with the first occurrence of `query` replaced; `None` for an
/// empty query or one that does not occur.
pub open spec fn replace_first_spec(text: Seq<char>, query: Seq<char>, replacement: Seq<char>) -> Option<Seq<char>> {
    if query.len() == 0 {
        None
    } else {
        match find(text, query) {
            Some(k) => Some(text.take(k) + replacement + text.skip(k + query.len())),
            None => None,
        }
    }
}

pub fn replace_first(text: &str, query: &str, replacement: &str) -> (r: Option<String>)
    ensures
        match r {
            Some(t) => replace_first_spec(text@, query@, replacement@) == Some(t@),
            None => replace_first_spec(text@, query@, replacement@) is None,
        },
{
    let q = chars_of(query);
    if q.len() == 0 {
        return None;
    }
    let t = chars_of(text);
    match find_str_from(&t, query, 0) {
        Some(k) => {
            let n = t.len();
            let ql = q.len();
            assert(k + ql <= n);
            let mut out = slice_chars(&t, 0, k);
            push_str(&mut out, replacement);
            push_range(&mut out, &t, k + ql, n);
            assert(out@ =~= text@.take(k as int) + replacement@ + text@.skip(k + query@.len()));
            Some(string_of(&out))
        },
        None => None,
    }
}

/// The text with every occurrence of `query` replaced; `None` for an empty query.
pub fn replace_every(text: &str, query: &str, replacement: &str) -> (r: Option<String>)
    ensures
        query@.len() == 0 ==> r is None,
        query@.len() > 0 ==> (r matches Some(t) && t@ == replace_all(text@, query@, replacement@)),
{
    let q = chars_of(query);
    if q.len() == 0 {
        return None;
    }
    Some(string_of(&replace_chars(&chars_of(text), query, replacement)))
}

// ---------------------------------------------------------------------------
// Export
// ---------------------------------------------------------------------------

pub open spec fn document_suffixes() -> Seq<Seq<char>> {
    seq![".html"@, ".htm"@, ".xhtml"@, ".md"@, ".markdown"@]
}

/// `name` without the first of `suffixes` it ends with.
pub open spec fn strip_first_suffix(name: Seq<char>, suffixes: Seq<Seq<char>>) -> Seq<char>
    decreases suffixes.len(),
{
    if suffixes.len() == 0 {
        name
    } else {
        let x = suffixes[0];
        if x.len() <= name.len() && matches_at(name, name.len() - x.len(), x) {
            name.take(name.len() - x.len())
        } else {
            strip_first_suffix(name, suffixes.drop_first())
        }
    }
}

/// The name of an exported document: its file name without a document extension.
pub fn export_base_name(name: &str) -> (r: String)
    ensures
        r@ == strip_first_suffix(name@, document_suffixes()),
{
    let n = chars_of(name);
    let ghost ss = document_suffixes();
    proof {
        reveal_with_fuel(strip_first_suffix, 6);
        assert(ss.drop_first()[0] == ".htm"@);
        assert(ss.drop_first().drop_first()[0] == ".xhtml"@);
        assert(ss.drop_first().drop_first().drop_first()[0] == ".md"@);
        assert(ss.drop_first().drop_first().drop_first().drop_first()[0] == ".markdown"@);
        assert(ss.drop_first().drop_first().drop_first().drop_first().drop_first().len() == 0);
    }
    if ends_with_str(&n, ".html") {
        proof {
            reveal_strlit(".html");
        }
        return string_of(&slice_chars(&n, 0, n.len() - 5));
    }
    if ends_with_str(&n, ".htm") {
        proof {
            reveal_strlit(".htm");
        }
        return string_of(&slice_chars(&n, 0, n.len() - 4));
    }
    if ends_with_str(&n, ".xhtml") {
        proof {
            reveal_strlit(".xhtml");
        }
        return string_of(&slice_chars(&n, 0, n.len() - 6));
    }
    if ends_with_str(&n, ".md") {
        proof {
            reveal_strlit(".md");
        }
        return string_of(&slice_chars(&n, 0, n.len() - 3));
    }
    if ends_with_str(&n, ".markdown") {
        proof {
            reveal_strlit(".markdown");
        }
        return string_of(&slice_chars(&n, 0, n.len() - 9));
    }
    string_of(&n)
}

/// A file to hand to the user.
pub struct ExportFile {
    pub file_name: String,
    pub content: String,
    pub mime: String,
}

/// The standalone page of a Markdown document.
pub open spec fn markdown_page(title: Seq<char>, markdown: Seq<char>) -> Seq<char> {
    EXPORT_HEAD@ + title + EXPORT_MID@ + markdown_html_spec(markdown, false) + EXPORT_TAIL@
}

/// Exports the document `content` named `name` as `format`: `html` gives a
/// standalone page, `print` nothing (the print dialog is opened instead),
/// anything else the Markdown text.
pub fn export_document(content: &str, name: &str, is_html: bool, format: &str) -> (r: Option<ExportFile>)
    ensures
        ({
            let base = strip_first_suffix(name@, document_suffixes());
            if format@ == "html"@ {
                r matches Some(f) && f.file_name@ == base + ".html"@ && f.mime@ == "text/html"@
                    && f.content@ == if is_html {
                    full_document_spec(parse_spec(content@), base)
                } else {
                    markdown_page(base, content@)
                }
            } else if format@ == "print"@ {
                r is None
            } else {
                r matches Some(f) && f.file_name@ == base + ".md"@ && f.mime@ == "text/markdown"@
                    && f.content@ == if is_html {
                    html_to_markdown_spec(content@)
                } else {
                    content@
                }
            }
        }),
{
    let base = export_base_name(name);
    let fmt = chars_of(format);
    if eq_str(&fmt, "html") {
        let page = if is_html {
            let env = HtmlEnvelope::parse(content);
            env.ensure_full_document(base.as_str())
        } else {
            let body = markdown_to_html(content, false);
            let mut out = chars_of(EXPORT_HEAD);
            push_str(&mut out, base.as_str());
            push_str(&mut out, EXPORT_MID);
            push_str(&mut out, body.as_str());
            push_str(&mut out, EXPORT_TAIL);
            string_of(&out)
        };
        let mut file = chars_of(base.as_str());
        push_str(&mut file, ".html");
        Some(ExportFile { file_name: string_of(&file), content: page, mime: string_of(&chars_of("text/html")) })
    } else if eq_str(&fmt, "print") {
        None
    } else {
        let md = if is_html {
            html_to_markdown(content)
        } else {
            string_of(&chars_of(content))
        };
        let mut file = chars_of(base.as_str());
        push_str(&mut file, ".md");
        Some(ExportFile { file_name: string_of(&file), content: md, mime: string_of(&chars_of("text/markdown")) })
    }
}

// ---------------------------------------------------------------------------
// The visual editor
// ---------------------------------------------------------------------------

/// The document text after an edit in the visual editor: an HTML document
/// keeps its envelope around the cleaned body; Markdown is converted back.
pub open spec fn editor_text_spec(editor_html: Seq<char>, is_html: bool, current: Seq<char>) -> Seq<char> {
    if is_html {
        reassemble_spec(parse_spec(current), clean_editor_spec(editor_html))
    } else {
        html_to_markdown_spec(editor_html)
    }
}

pub fn editor_document_text(editor_html: &str, is_html: bool, current: &str) -> (r: String)
    ensures
        r@ == editor_text_spec(editor_html@, is_html, current@),
{
    if is_html {
        let clean = clean_html_editor_output(editor_html);
        let env = HtmlEnvelope::parse(current);
        env.reassemble(clean.as_str())
    } else {
        html_to_markdown(editor_html)
    }
}

/// The block format that typing a space after Markdown-like marks applies.
pub open spec fn space_format_spec(text: Seq<char>) -> SlashActionView {
    let t = trim(text);
    if t == "#"@ {
        exec_cmd("formatBlock"@, Some("<h1>"@))
    } else if t == "##"@ {
        exec_cmd("formatBlock"@, Some("<h2>"@))
    } else if t == "###"@ {
        exec_cmd("formatBlock"@, Some("<h3>"@))
    } else if t == "####"@ {
        exec_cmd("formatBlock"@, Some("<h4>"@))
    } else if t == ">"@ {
        exec_cmd("formatBlock"@, Some("<blockquote>"@))
    } else if t == "-"@ || t == "*"@ {
        exec_cmd("insertUnorderedList"@, None)
    } else if t == "1."@ {
        exec_cmd("insertOrderedList"@, None)
    } else {
        SlashActionView::Nothing
    }
}

/// What a space typed after `text` (the text of the current block) does.
pub fn space_format(text: &str) -> (r: SlashAction)
    ensures
        r@ == space_format_spec(text@),
{
    let t = trim_chars(&chars_of(text));
    if eq_str(&t, "#") {
        exec_action("formatBlock", Some("<h1>"))
    } else if eq_str(&t, "##") {
        exec_action("formatBlock", Some("<h2>"))
    } else if eq_str(&t, "###") {
        exec_action("formatBlock", Some("<h3>"))
    } else if eq_str(&t, "####") {
        exec_action("formatBlock", Some("<h4>"))
    } else if eq_str(&t, ">") {
        exec_action("formatBlock", Some("<blockquote>"))
    } else if eq_str(&t, "-") || eq_str(&t, "*") {
        exec_action("insertUnorderedList", None)
    } else if eq_str(&t, "1.") {
        exec_action("insertOrderedList", None)
    } else {
        SlashAction::Nothing
    }
}

/// Pasted plain text is taken as Markdown when no HTML came with it and it
/// spans lines or looks like Markdown.
pub open spec fn paste_is_markdown_spec(html_data: Seq<char>, plain: Seq<char>) -> bool {
    &&& trim(html_data).len() == 0
    &&& plain.len() > 0
    &&& (find(plain, "\n"@) is Some || matches_at(plain, 0, "# "@) || matches_at(plain, 0, "## "@)
        || matches_at(plain, 0, "### "@) || matches_at(plain, 0, "- "@) || matches_at(plain, 0, "* "@)
        || matches_at(plain, 0, "> "@) || matches_at(plain, 0, "```"@) || find(plain, "```"@) is Some
        || find(plain, "| "@) is Some)
}

pub fn paste_is_markdown(html_data: &str, plain: &str) -> (r: bool)
    ensures
        r == paste_is_markdown_spec(html_data@, plain@),
{
    let h = trim_chars(&chars_of(html_data));
    let p = chars_of(plain);
    if h.len() != 0 || p.len() == 0 {
        return false;
    }
    contains_str(&p, "\n") || starts_with_str(&p, "# ") || starts_with_str(&p, "## ") || starts_with_str(
        &p,
        "### ",
    ) || starts_with_str(&p, "- ") || starts_with_str(&p, "* ") || starts_with_str(&p, "> ")
        || starts_with_str(&p, "```") || contains_str(&p, "```") || contains_str(&p, "| ")
}

/// The find bar's position text: `3/7`, or `No matches`.
pub open spec fn match_label_spec(current: u64, total: u64) -> Seq<char> {
    if total > 0 {
        dec(current as nat) + "/"@ + dec(total as nat)
    } else {
        "No matches"@
    }
}

pub fn match_label(current: u64, total: u64) -> (r: String)
    ensures
        r@ == match_label_spec(current, total),
{
    if total > 0 {
        let mut out: Vec<char> = Vec::new();
        push_dec(&mut out, current);
        push_str(&mut out, "/");
        push_dec(&mut out, total);
        string_of(&out)
    } else {
        string_of(&chars_of("No matches"))
    }
}

/// How a tmux session is described: its windows, and its attached clients if any.
pub open spec fn session_detail_spec(windows: u32, attached: u32) -> Seq<char> {
    dec(windows as nat) + " window"@ + (if windows == 1 {
        ""@
    } else {
        "s"@
    }) + (if attached > 0 {
        " · "@ + dec(attached as nat) + " client"@ + (if attached == 1 {
            ""@
        } else {
            "s"@
        }) + " attached"@
    } else {
        ""@
    })
}

pub fn session_detail(windows: u32, attached: u32) -> (r: String)
    ensures
        r@ == session_detail_spec(windows, attached),
{
    let mut out: Vec<char> = Vec::new();
    push_dec(&mut out, windows as u64);
    push_str(&mut out, " window");
    push_str(&mut out, if windows == 1 { "" } else { "s" });
    if attached > 0 {
        push_str(&mut out, " · ");
        push_dec(&mut out, attached as u64);
        push_str(&mut out, " client");
        push_str(&mut out, if attached == 1 { "" } else { "s" });
        push_str(&mut out, " attached");
    } else {
        push_str(&mut out, "");
    }
    string_of(&out)
}

/// A dialog's confirm button acts only when its required field (the URL of a
/// link or image, the name of a new file) holds more than whitespace.
pub fn confirm_allowed(required: &str) -> (r: bool)
    ensures
        r == (trim(required@).len() > 0),
{
    trim_chars(&chars_of(required)).len() > 0
}

/// What the title bar shows for one tab.
pub struct TabChrome {
    /// The number badge, `1` to `9` for the first nine tabs, empty after.
    pub badge: String,
    /// The file name of an editor tab, `Terminal n` for a terminal tab.
    pub title: String,
    /// The tooltip, naming the tab and its shortcut.
    pub tooltip: String,
    /// The CSS class, marking the active tab.
    pub class_name: String,
    /// A close button is shown when more than one tab is open.
    pub closable: bool,
}

pub open spec fn tab_badge_spec(index: nat) -> Seq<char> {
    if index < 9 {
        dec(index + 1)
    } else {
        ""@
    }
}

pub open spec fn tab_title_spec(index: nat, is_editor: bool, filename: Seq<char>) -> Seq<char> {
    if is_editor {
        filename
    } else {
        "Terminal "@ + dec(index + 1)
    }
}

pub open spec fn tab_tooltip_spec(index: nat) -> Seq<char> {
    "Tab "@ + dec(index + 1) + " (Super+"@ + dec(index + 1) + ")"@
}

pub open spec fn tab_class_spec(is_active: bool) -> Seq<char> {
    if is_active {
        "titlebar-tab active"@
    } else {
        "titlebar-tab"@
    }
}

/// The title-bar chrome of tab `index` (counted from 0) among `count` tabs.
pub fn tab_chrome(index: u64, count: u64, is_editor: bool, filename: &str, is_active: bool) -> (r:
    TabChrome)
    requires
        index < count,
    ensures
        r.badge@ == tab_badge_spec(index as nat),
        r.title@ == tab_title_spec(index as nat, is_editor, filename@),
        r.tooltip@ == tab_tooltip_spec(index as nat),
        r.class_name@ == tab_class_spec(is_active),
        r.closable == (count > 1),
{
    let number = index + 1;
    let mut badge: Vec<char> = Vec::new();
    if index < 9 {
        push_dec(&mut badge, number);
    } else {
        push_str(&mut badge, "");
    }
    let mut title: Vec<char> = Vec::new();
    if is_editor {
        push_str(&mut title, filename);
    } else {
        push_str(&mut title, "Terminal ");
        push_dec(&mut title, number);
    }
    let mut tooltip: Vec<char> = Vec::new();
    push_str(&mut tooltip, "Tab ");
    push_dec(&mut tooltip, number);
    push_str(&mut tooltip, " (Super+");
    push_dec(&mut tooltip, number);
    push_str(&mut tooltip, ")");
    let class_name = if is_active {
        string_of(&chars_of("titlebar-tab active"))
    } else {
        string_of(&chars_of("titlebar-tab"))
    };
    assert(badge@ =~= tab_badge_spec(index as nat));
    assert(title@ =~= tab_title_spec(index as nat, is_editor, filename@));
    assert(tooltip@ =~= tab_tooltip_spec(index as nat));
    TabChrome {
        badge: string_of(&badge),
        title: string_of(&title),
        tooltip: string_of(&tooltip),
        class_name,
        closable: count > 1,
    }
}

pub const EXPORT_HEAD: &'static str = "<!DOCTYPE html>\n<html lang=\"en\">\n<head>\n  <meta charset=\"utf-8\" />\n  <meta name=\"viewport\" content=\"width=device-width, initial-scale=1.0\" />\n  <title>";

pub const EXPORT_MID: &'static str = "</title>\n  <style>\n    body { font-family: -apple-system, BlinkMacSystemFont, \"Segoe UI\", Roboto, Helvetica, Arial, sans-serif; line-height: 1.6; max-width: 860px; margin: 40px auto; padding: 0 20px; color: #1e293b; background: #ffffff; }\n    h1, h2, h3, h4 { color: #0f172a; margin-top: 1.5em; margin-bottom: 0.5em; }\n    h1 { border-bottom: 2px solid #e2e8f0; padding-bottom: 8px; }\n    code { background: #f1f5f9; padding: 2px 6px; border-radius: 4px; font-family: monospace; font-size: 0.9em; }\n    pre { background: #0f172a; color: #f8fafc; padding: 16px; border-radius: 8px; overflow-x: auto; }\n    blockquote { border-left: 4px solid #3b82f6; margin: 1.5em 0; padding-left: 16px; color: #475569; font-style: italic; }\n    table { width: 100%; border-collapse: collapse; margin: 1.5em 0; }\n    th, td { border: 1px solid #cbd5e1; padding: 10px 14px; text-align: left; }\n    th { background: #f8fafc; font-weight: 600; }\n    .task-list { list-style-type: none; padding-left: 0; }\n    img { max-width: 100%; height: auto; border-radius: 6px; }\n    .mermaid { display: flex; justify-content: center; margin: 24px 0; background: #f8fafc; padding: 16px; border-radius: 8px; border: 1px solid #e2e8f0; }\n  </style>\n  <script type=\"module\">\n    import mermaid from 'https://cdn.jsdelivr.net/npm/mermaid@10/dist/mermaid.esm.min.mjs';\n    mermaid.initialize({ startOnLoad: true });\n  </script>\n</head>\n<body>\n";

pub const EXPORT_TAIL: &'static str = "\n</body>\n</html>";

pub const MERMAID_SAMPLE: &'static str = "<div class=\"code-block-wrapper mermaid-block-wrapper\" data-lang=\"mermaid\"><div class=\"code-block-header\" contenteditable=\"false\"><div class=\"code-lang-tag\"><svg viewBox=\"0 0 24 24\" width=\"13\" height=\"13\" fill=\"none\" stroke=\"currentColor\" stroke-width=\"2\" style=\"margin-right: 5px; vertical-align: -1px;\"><circle cx=\"6\" cy=\"6\" r=\"3\"></circle><circle cx=\"6\" cy=\"18\" r=\"3\"></circle><circle cx=\"18\" cy=\"12\" r=\"3\"></circle><line x1=\"8.5\" y1=\"7.5\" x2=\"15.5\" y2=\"10.5\"></line><line x1=\"8.5\" y1=\"16.5\" x2=\"15.5\" y2=\"13.5\"></line></svg><span>mermaid</span></div><div class=\"mermaid-view-switcher\"><button type=\"button\" class=\"mermaid-tab-btn active\" data-tab=\"diagram\" onclick=\"window._toggleMermaidView(this, 'diagram')\">Diagram</button><button type=\"button\" class=\"mermaid-tab-btn\" data-tab=\"code\" onclick=\"window._toggleMermaidView(this, 'code')\">Code</button></div><button type=\"button\" class=\"code-copy-btn\" onclick=\"navigator.clipboard.writeText(this.closest('.code-block-wrapper').querySelector('code').innerText);this.innerText='Copied!';setTimeout(()=>this.innerText='Copy',1500)\">Copy</button></div><!-- MERMAID_PREVIEW_START --><div class=\"mermaid-preview-container\" contenteditable=\"false\"><div class=\"mermaid-preview-target\"><div class=\"mermaid-loading\">Rendering diagram...</div></div></div><!-- MERMAID_PREVIEW_END --><pre class=\"mermaid-code-pre\" style=\"display: none;\"><code class=\"language-mermaid\">graph TD\n    A[Start] --&gt; B{Decision}\n    B --&gt;|Yes| C[Result 1]\n    B --&gt;|No| D[Result 2]</code></pre></div><p></p>";


} // verus!
