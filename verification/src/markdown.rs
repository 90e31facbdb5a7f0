//! Markdown rendering for the preview and the editor surfaces, and the way
//! back from editor HTML to Markdown.
use vstd::prelude::*;
use pulldown_cmark::{CodeBlockKind, Event, Tag, TagEnd};
use crate::text::{
    chars_of, string_of, push_str, push_all, push_dec, dec, trim, trim_chars, lower_seq,
    lower_chars, eq_str, find, find_from, find_str_from, contains_str, replace_all, replace_chars,
    matches_at, matches_at_chars, trim_start, skip_ws, lines, lines_of, slice_chars, push_range,
    lemma_find_from_bounds, lemma_find_from_skip,
};
use crate::outline::{slugify, slugify_spec};
use crate::html::{remove_spans, remove_spans_exec, remove_matched_div, remove_matched_div_spec};

verus! {

broadcast use vstd::string::group_string_axioms;

#[verifier::external_type_specification]
#[verifier::external_body]
pub struct ExMarkdownEvent<'a>(Event<'a>);

/// Parser options: tables, footnotes, strikethrough, task lists and heading attributes.
pub const MARKDOWN_OPTIONS: u32 = (1u32 << 1) | (1u32 << 2) | (1u32 << 3) | (1u32 << 4) | (1u32 << 6);

pub const MERMAID_EDIT_OPEN: &'static str = "<div class=\"code-block-wrapper mermaid-block-wrapper\" data-lang=\"mermaid\"><div class=\"code-block-header\" contenteditable=\"false\"><div class=\"code-lang-tag\"><svg viewBox=\"0 0 24 24\" width=\"13\" height=\"13\" fill=\"none\" stroke=\"currentColor\" stroke-width=\"2\" style=\"margin-right: 5px; vertical-align: -1px;\"><circle cx=\"6\" cy=\"6\" r=\"3\"></circle><circle cx=\"6\" cy=\"18\" r=\"3\"></circle><circle cx=\"18\" cy=\"12\" r=\"3\"></circle><line x1=\"8.5\" y1=\"7.5\" x2=\"15.5\" y2=\"10.5\"></line><line x1=\"8.5\" y1=\"16.5\" x2=\"15.5\" y2=\"13.5\"></line></svg><span>mermaid</span></div><div class=\"mermaid-view-switcher\"><button type=\"button\" class=\"mermaid-tab-btn active\" data-tab=\"diagram\" onclick=\"window._toggleMermaidView(this, 'diagram')\">Diagram</button><button type=\"button\" class=\"mermaid-tab-btn\" data-tab=\"code\" onclick=\"window._toggleMermaidView(this, 'code')\">Code</button></div><button type=\"button\" class=\"code-copy-btn\" onclick=\"navigator.clipboard.writeText(this.closest('.code-block-wrapper').querySelector('code').innerText);this.innerText='Copied!';setTimeout(()=>this.innerText='Copy',1500)\">Copy</button></div><!-- MERMAID_PREVIEW_START --><div class=\"mermaid-preview-container\" contenteditable=\"false\"><div class=\"mermaid-preview-target\" data-raw-code=\"";

pub const MERMAID_EDIT_MID: &'static str = "\"><div class=\"mermaid-loading\">Rendering diagram...</div></div></div><!-- MERMAID_PREVIEW_END --><pre class=\"mermaid-code-pre\" style=\"display: none;\"><code class=\"language-mermaid\">";

pub const MERMAID_EDIT_CLOSE: &'static str = "</code></pre></div>";

pub const MERMAID_EXPORT_OPEN: &'static str = "<div class=\"mermaid-export-wrapper\"><div class=\"mermaid\">";

pub const MERMAID_EXPORT_CLOSE: &'static str = "</div></div>";

pub const CODE_WRAP_EDIT: &'static str = "<div class=\"code-block-wrapper\" data-lang=\"";

pub const CODE_HEADER_EDIT: &'static str = "\"><div class=\"code-block-header\" contenteditable=\"false\"><span class=\"code-lang-tag\">";

pub const CODE_WRAP_VIEW: &'static str = "<div class=\"code-block-wrapper\"><div class=\"code-block-header\"><span class=\"code-lang-tag\">";

pub const CODE_COPY: &'static str = "</span><button type=\"button\" class=\"code-copy-btn\" onclick=\"navigator.clipboard.writeText(this.closest('.code-block-wrapper').querySelector('code').innerText);this.innerText='Copied!';setTimeout(()=>this.innerText='Copy',1500)\">Copy</button></div><pre><code class=\"language-";

pub const CODE_CLOSE: &'static str = "</code></pre></div>";

pub const CHECKBOX_OPEN: &'static str = "<input type=\"checkbox\" class=\"md-task-checkbox\" data-task-idx=\"";

pub const CHECKBOX_END: &'static str = " /> ";

/// What the rendering reads of one parser event; everything else is `Other`.
#[derive(Debug, Clone, PartialEq)]
pub enum MdKind {
    HeadingStart(u8),
    HeadingEnd,
    CodeBlockStart(String),
    CodeBlockEnd,
    TaskListMarker(bool),
    TableStart,
    TableEnd,
    QuoteStart,
    QuoteEnd,
    Text(String),
    Other,
}

pub enum MdKindView {
    HeadingStart(u8),
    HeadingEnd,
    CodeBlockStart(Seq<char>),
    CodeBlockEnd,
    TaskListMarker(bool),
    TableStart,
    TableEnd,
    QuoteStart,
    QuoteEnd,
    Text(Seq<char>),
    Other,
}

impl View for MdKind {
    type V = MdKindView;

    open spec fn view(&self) -> MdKindView {
        match self {
            MdKind::HeadingStart(l) => MdKindView::HeadingStart(*l),
            MdKind::HeadingEnd => MdKindView::HeadingEnd,
            MdKind::CodeBlockStart(l) => MdKindView::CodeBlockStart(l@),
            MdKind::CodeBlockEnd => MdKindView::CodeBlockEnd,
            MdKind::TaskListMarker(c) => MdKindView::TaskListMarker(*c),
            MdKind::TableStart => MdKindView::TableStart,
            MdKind::TableEnd => MdKindView::TableEnd,
            MdKind::QuoteStart => MdKindView::QuoteStart,
            MdKind::QuoteEnd => MdKindView::QuoteEnd,
            MdKind::Text(t) => MdKindView::Text(t@),
            MdKind::Other => MdKindView::Other,
        }
    }
}

pub open spec fn kinds_view(s: Seq<MdKind>) -> Seq<MdKindView> {
    s.map_values(|k: MdKind| k@)
}

/// One item handed to the HTML renderer: markup of our own, text to be
/// escaped, or a parser event kept as it came.
#[derive(Debug)]
pub enum Piece {
    Html(String),
    Text(String),
    Keep(Event<'static>),
}

pub enum PieceView {
    Html(Seq<char>),
    Text(Seq<char>),
    Keep(Event<'static>),
}

impl View for Piece {
    type V = PieceView;

    open spec fn view(&self) -> PieceView {
        match self {
            Piece::Html(h) => PieceView::Html(h@),
            Piece::Text(t) => PieceView::Text(t@),
            Piece::Keep(e) => PieceView::Keep(*e),
        }
    }
}

pub open spec fn pieces_view(s: Seq<Piece>) -> Seq<PieceView> {
    s.map_values(|p: Piece| p@)
}

// ---------------------------------------------------------------------------
// The parser and the renderer
// ---------------------------------------------------------------------------

/// The events that `pulldown_cmark::Parser` yields for `markdown` under the option bits `options`.
pub uninterp spec fn md_parse(markdown: Seq<char>, options: u32) -> Seq<Event<'static>>;

/// What an opening tag event is, as `MdKind` tells it (`Other` for any other event).
pub uninterp spec fn md_opening_kind(event: Event<'static>) -> MdKindView;

/// What an event other than an opening tag is, as `MdKind` tells it.
pub uninterp spec fn md_other_kind(event: Event<'static>) -> MdKindView;

/// What an event is, as `MdKind` tells it.
pub open spec fn md_kind(event: Event<'static>) -> MdKindView {
    if md_opening_kind(event) is Other {
        md_other_kind(event)
    } else {
        md_opening_kind(event)
    }
}

/// The HTML that `pulldown_cmark::html::push_html` writes for the pieces turned into events.
pub uninterp spec fn md_render(pieces: Seq<PieceView>) -> Seq<char>;

/// Calls `pulldown_cmark::Parser::new_ext`; claims the events are a function
/// of the text and the options.
#[verifier::external_body]
fn parse_markdown(markdown: &str, options: u32) -> (r: Vec<Event<'static>>)
    ensures
        r@ == md_parse(markdown@, options),
{
    let mut events = Vec::new();
    let opts = pulldown_cmark::Options::from_bits_truncate(options);
    for ev in pulldown_cmark::Parser::new_ext(markdown, opts) {
        events.push(ev.into_static());
    }
    events
}

/// Tells the opening tags of `pulldown_cmark::Event` apart; claims the kind
/// is a function of the event.
#[verifier::external_body]
fn opening_kind(ev: &Event<'static>) -> (r: MdKind)
    ensures
        r@ == md_opening_kind(*ev),
{
    match ev {
        Event::Start(Tag::Heading { level, .. }) => MdKind::HeadingStart(*level as u8),
        Event::Start(Tag::CodeBlock(CodeBlockKind::Fenced(l))) => MdKind::CodeBlockStart(l.to_string()),
        Event::Start(Tag::CodeBlock(_)) => MdKind::CodeBlockStart(String::new()),
        Event::Start(Tag::Table(_)) => MdKind::TableStart,
        Event::Start(Tag::BlockQuote(_)) => MdKind::QuoteStart,
        _ => MdKind::Other,
    }
}

/// Tells the closing tags, task markers and text of `pulldown_cmark::Event`
/// apart; claims the kind is a function of the event.
#[verifier::external_body]
fn other_kind(ev: &Event<'static>) -> (r: MdKind)
    ensures
        r@ == md_other_kind(*ev),
{
    match ev {
        Event::End(TagEnd::Heading(_)) => MdKind::HeadingEnd,
        Event::End(TagEnd::CodeBlock) => MdKind::CodeBlockEnd,
        Event::End(TagEnd::Table) => MdKind::TableEnd,
        Event::End(TagEnd::BlockQuote(_)) => MdKind::QuoteEnd,
        Event::TaskListMarker(c) => MdKind::TaskListMarker(*c),
        Event::Text(t) => MdKind::Text(t.to_string()),
        _ => MdKind::Other,
    }
}

/// The kind of one event.
pub fn event_kind(ev: &Event<'static>) -> (r: MdKind)
    ensures
        r@ == md_kind(*ev),
{
    let k = opening_kind(ev);
    match k {
        MdKind::Other => other_kind(ev),
        _ => k,
    }
}

/// Calls `pulldown_cmark::html::push_html` on the pieces turned into events
/// (`Html` and `Text` events for our own pieces); claims the HTML is a
/// function of the pieces.
#[verifier::external_body]
fn render_pieces(pieces: Vec<Piece>) -> (r: String)
    ensures
        r@ == md_render(pieces_view(pieces@)),
{
    let mut events = Vec::new();
    for p in pieces {
        events.push(match p {
            Piece::Html(h) => Event::Html(h.into()),
            Piece::Text(t) => Event::Text(t.into()),
            Piece::Keep(e) => e,
        });
    }
    let mut html = String::new();
    pulldown_cmark::html::push_html(&mut html, events.into_iter());
    html
}

/// `s` with `&`, `<` and `>` written as entities.
pub open spec fn escape_text(s: Seq<char>) -> Seq<char>
    decreases s.len(),
{
    if s.len() == 0 {
        seq![]
    } else {
        let c = s.last();
        escape_text(s.drop_last()) + if c == '&' {
            seq!['&', 'a', 'm', 'p', ';']
        } else if c == '<' {
            seq!['&', 'l', 't', ';']
        } else if c == '>' {
            seq!['&', 'g', 't', ';']
        } else {
            seq![c]
        }
    }
}

/// Calls `html_escape::encode_text`; claims it escapes exactly `&`, `<` and `>`.
#[verifier::external_body]
fn encode_text(s: &str) -> (r: String)
    ensures
        r@ == escape_text(s@),
{
    html_escape::encode_text(s).to_string()
}

// ---------------------------------------------------------------------------
// Rewriting the event stream
// ---------------------------------------------------------------------------

/// The opening tag of a heading: its level and an anchor id made from its text.
pub open spec fn heading_open(level: u8, text: Seq<char>) -> Seq<char> {
    "<h"@ + dec(level as nat) + " id=\""@ + slugify_spec(text) + "\" class=\"md-heading md-h"@
        + dec(level as nat) + "\">"@
}

pub open spec fn heading_close(level: u8) -> Seq<char> {
    "</h"@ + dec(level as nat) + ">"@
}

/// The language shown on a code block: its trimmed info string, or `text`.
pub open spec fn display_lang(lang: Seq<char>) -> Seq<char> {
    if trim(lang).len() == 0 {
        "text"@
    } else {
        trim(lang)
    }
}

/// The markup that replaces a fenced or indented code block.
pub open spec fn code_block_html(lang: Seq<char>, code: Seq<char>, editable: bool) -> Seq<char> {
    let dl = display_lang(lang);
    let esc = escape_text(code);
    if lower_seq(dl) == "mermaid"@ {
        if editable {
            MERMAID_EDIT_OPEN@ + esc + MERMAID_EDIT_MID@ + esc + MERMAID_EDIT_CLOSE@
        } else {
            MERMAID_EXPORT_OPEN@ + code + MERMAID_EXPORT_CLOSE@
        }
    } else if editable {
        CODE_WRAP_EDIT@ + dl + CODE_HEADER_EDIT@ + dl + CODE_COPY@ + dl + "\">"@ + esc + CODE_CLOSE@
    } else {
        CODE_WRAP_VIEW@ + dl + CODE_COPY@ + dl + "\">"@ + esc + CODE_CLOSE@
    }
}

/// The checkbox that replaces the `index`-th task list marker.
pub open spec fn checkbox_html(index: nat, checked: bool, editable: bool) -> Seq<char> {
    CHECKBOX_OPEN@ + dec(index) + "\" "@ + (if checked {
        "checked"@
    } else {
        ""@
    }) + " "@ + (if editable {
        ""@
    } else {
        "disabled"@
    }) + CHECKBOX_END@
}

/// What the rewriting remembers between events.
pub struct RewriteState {
    pub in_heading: bool,
    pub level: u8,
    pub heading: Seq<char>,
    pub in_code: bool,
    pub lang: Seq<char>,
    pub code: Seq<char>,
    pub tasks: nat,
}

pub open spec fn rewrite_start() -> RewriteState {
    RewriteState {
        in_heading: false,
        level: 1,
        heading: seq![],
        in_code: false,
        lang: seq![],
        code: seq![],
        tasks: 0,
    }
}

/// One event: headings are collected and re-emitted with an id, code blocks
/// are collected and replaced by their markup, task markers become numbered
/// checkboxes, tables and block quotes get classes; any other event is kept,
/// except inside a heading or a code block, where only text counts.
pub open spec fn rewrite_step(
    st: RewriteState,
    kind: MdKindView,
    ev: Event<'static>,
    editable: bool,
) -> (RewriteState, Seq<PieceView>) {
    match kind {
        MdKindView::HeadingStart(l) => (
            RewriteState { in_heading: true, level: l, heading: seq![], ..st },
            seq![],
        ),
        MdKindView::HeadingEnd => (
            RewriteState { in_heading: false, ..st },
            seq![
                PieceView::Html(heading_open(st.level, st.heading)),
                PieceView::Text(st.heading),
                PieceView::Html(heading_close(st.level)),
            ],
        ),
        MdKindView::CodeBlockStart(l) => (
            RewriteState { in_code: true, lang: l, code: seq![], ..st },
            seq![],
        ),
        MdKindView::CodeBlockEnd => (
            RewriteState { in_code: false, ..st },
            seq![PieceView::Html(code_block_html(st.lang, st.code, editable))],
        ),
        MdKindView::TaskListMarker(c) => (
            RewriteState { tasks: st.tasks + 1, ..st },
            seq![PieceView::Html(checkbox_html(st.tasks, c, editable))],
        ),
        MdKindView::TableStart => (st, seq![PieceView::Html(TABLE_OPEN@)]),
        MdKindView::TableEnd => (st, seq![PieceView::Html(TABLE_CLOSE@)]),
        MdKindView::QuoteStart => (st, seq![PieceView::Html(QUOTE_OPEN@)]),
        MdKindView::QuoteEnd => (st, seq![PieceView::Html(QUOTE_CLOSE@)]),
        MdKindView::Text(t) => if st.in_heading {
            (RewriteState { heading: st.heading + t, ..st }, seq![])
        } else if st.in_code {
            (RewriteState { code: st.code + t, ..st }, seq![])
        } else {
            (st, seq![PieceView::Keep(ev)])
        },
        MdKindView::Other => if st.in_heading || st.in_code {
            (st, seq![])
        } else {
            (st, seq![PieceView::Keep(ev)])
        },
    }
}

/// The rewriting of a whole event stream, the kind of `evs[i]` being `kinds[i]`.
pub open spec fn rewrite_run(evs: Seq<Event<'static>>, kinds: Seq<MdKindView>, editable: bool) -> (
    RewriteState,
    Seq<PieceView>,
)
    decreases evs.len(),
{
    if evs.len() == 0 {
        (rewrite_start(), seq![])
    } else {
        let (st, out) = rewrite_run(evs.drop_last(), kinds, editable);
        let (st2, more) = rewrite_step(st, kinds[evs.len() - 1], evs.last(), editable);
        (st2, out + more)
    }
}

/// The HTML of a Markdown text.
pub open spec fn markdown_html_spec(markdown: Seq<char>, editable: bool) -> Seq<char> {
    let evs = md_parse(markdown, MARKDOWN_OPTIONS);
    md_render(rewrite_run(evs, kinds_of(evs), editable).1)
}

/// The kinds of a sequence of events.
pub open spec fn kinds_of(evs: Seq<Event<'static>>) -> Seq<MdKindView> {
    evs.map_values(|e: Event<'static>| md_kind(e))
}

pub const TABLE_OPEN: &'static str = "<div class=\"table-responsive\"><table class=\"md-table\">";

pub const TABLE_CLOSE: &'static str = "</table></div>";

pub const QUOTE_OPEN: &'static str = "<blockquote class=\"md-blockquote\">";

pub const QUOTE_CLOSE: &'static str = "</blockquote>";

fn heading_open_html(level: u8, text: &Vec<char>) -> (r: String)
    ensures
        r@ == heading_open(level, text@),
{
    let slug = slugify(string_of(text).as_str());
    let mut out: Vec<char> = Vec::new();
    push_str(&mut out, "<h");
    push_dec(&mut out, level as u64);
    push_str(&mut out, " id=\"");
    push_str(&mut out, slug.as_str());
    push_str(&mut out, "\" class=\"md-heading md-h");
    push_dec(&mut out, level as u64);
    push_str(&mut out, "\">");
    string_of(&out)
}

fn heading_close_html(level: u8) -> (r: String)
    ensures
        r@ == heading_close(level),
{
    let mut out: Vec<char> = Vec::new();
    push_str(&mut out, "</h");
    push_dec(&mut out, level as u64);
    push_str(&mut out, ">");
    string_of(&out)
}

fn code_block_html_exec(lang: &Vec<char>, code: &Vec<char>, editable: bool) -> (r: String)
    ensures
        r@ == code_block_html(lang@, code@, editable),
{
    let t = trim_chars(lang);
    let dl: Vec<char> = if t.len() == 0 {
        chars_of("text")
    } else {
        t
    };
    let code_s = string_of(code);
    let esc = encode_text(code_s.as_str());
    let low = lower_chars(&dl);
    let mut out: Vec<char> = Vec::new();
    if eq_str(&low, "mermaid") {
        if editable {
            push_str(&mut out, MERMAID_EDIT_OPEN);
            push_str(&mut out, esc.as_str());
            push_str(&mut out, MERMAID_EDIT_MID);
            push_str(&mut out, esc.as_str());
            push_str(&mut out, MERMAID_EDIT_CLOSE);
        } else {
            push_str(&mut out, MERMAID_EXPORT_OPEN);
            push_all(&mut out, code);
            push_str(&mut out, MERMAID_EXPORT_CLOSE);
        }
    } else if editable {
        push_str(&mut out, CODE_WRAP_EDIT);
        push_all(&mut out, &dl);
        push_str(&mut out, CODE_HEADER_EDIT);
        push_all(&mut out, &dl);
        push_str(&mut out, CODE_COPY);
        push_all(&mut out, &dl);
        push_str(&mut out, "\">");
        push_str(&mut out, esc.as_str());
        push_str(&mut out, CODE_CLOSE);
    } else {
        push_str(&mut out, CODE_WRAP_VIEW);
        push_all(&mut out, &dl);
        push_str(&mut out, CODE_COPY);
        push_all(&mut out, &dl);
        push_str(&mut out, "\">");
        push_str(&mut out, esc.as_str());
        push_str(&mut out, CODE_CLOSE);
    }
    string_of(&out)
}

fn checkbox_html_exec(index: usize, checked: bool, editable: bool) -> (r: String)
    ensures
        r@ == checkbox_html(index as nat, checked, editable),
{
    let mut out: Vec<char> = Vec::new();
    push_str(&mut out, CHECKBOX_OPEN);
    push_dec(&mut out, index as u64);
    push_str(&mut out, "\" ");
    if checked {
        push_str(&mut out, "checked");
    } else {
        push_str(&mut out, "");
    }
    push_str(&mut out, " ");
    if editable {
        push_str(&mut out, "");
    } else {
        push_str(&mut out, "disabled");
    }
    push_str(&mut out, CHECKBOX_END);
    string_of(&out)
}

/// Rewrites a parser event stream for the preview or the editor, `kinds[i]`
/// being the kind of `events[i]`.
pub fn rewrite_events(events: Vec<Event<'static>>, kinds: Vec<MdKind>, is_editable: bool) -> (r: Vec<
    Piece,
>)
    requires
        kinds@.len() == events@.len(),
    ensures
        pieces_view(r@) == rewrite_run(events@, kinds_view(kinds@), is_editable).1,
{
    let ghost evs = events@;
    let ghost kv = kinds_view(kinds@);
    let n = events.len();
    let mut rest = events;
    let mut rev: Vec<Event<'static>> = Vec::new();
    while rest.len() > 0
        invariant
            rest@.len() + rev@.len() == n,
            n == evs.len(),
            rest@ == evs.take(rest@.len() as int),
            forall|j: int| 0 <= j < rev@.len() ==> rev@[j] == evs[n - 1 - j],
        decreases rest@.len(),
    {
        let ghost before = rest@;
        let e = rest.pop().unwrap();
        assert(rest@ =~= evs.take(rest@.len() as int));
        rev.push(e);
    }
    let mut in_heading = false;
    let mut level: u8 = 1;
    let mut heading: Vec<char> = Vec::new();
    let mut in_code = false;
    let mut lang: Vec<char> = Vec::new();
    let mut code: Vec<char> = Vec::new();
    let mut tasks: usize = 0;
    let mut out: Vec<Piece> = Vec::new();
    let mut i: usize = 0;
    assert(evs.take(0) =~= Seq::<Event<'static>>::empty());
    while i < n
        invariant
            i <= n,
            n == evs.len(),
            kv == kinds_view(kinds@),
            kinds@.len() == n,
            rev@.len() == n - i,
            forall|j: int| 0 <= j < rev@.len() ==> rev@[j] == evs[n - 1 - j],
            tasks <= i,
            rewrite_run(evs.take(i as int), kv, is_editable) == (
                RewriteState {
                    in_heading,
                    level,
                    heading: heading@,
                    in_code,
                    lang: lang@,
                    code: code@,
                    tasks: tasks as nat,
                },
                pieces_view(out@),
            ),
        decreases n - i,
    {
        let ev = rev.pop().unwrap();
        assert(ev == evs[i as int]);
        assert(evs.take(i + 1).drop_last() =~= evs.take(i as int));
        assert(kv[i as int] == kinds@[i as int]@);
        let ghost st = RewriteState {
            in_heading,
            level,
            heading: heading@,
            in_code,
            lang: lang@,
            code: code@,
            tasks: tasks as nat,
        };
        let ghost before = pieces_view(out@);
        let ghost step = rewrite_step(st, kv[i as int], ev, is_editable);
        match &kinds[i] {
            MdKind::HeadingStart(l) => {
                in_heading = true;
                level = *l;
                heading = Vec::new();
            },
            MdKind::HeadingEnd => {
                in_heading = false;
                out.push(Piece::Html(heading_open_html(level, &heading)));
                out.push(Piece::Text(string_of(&heading)));
                out.push(Piece::Html(heading_close_html(level)));
            },
            MdKind::CodeBlockStart(l) => {
                in_code = true;
                lang = chars_of(l.as_str());
                code = Vec::new();
            },
            MdKind::CodeBlockEnd => {
                in_code = false;
                out.push(Piece::Html(code_block_html_exec(&lang, &code, is_editable)));
            },
            MdKind::TaskListMarker(c) => {
                out.push(Piece::Html(checkbox_html_exec(tasks, *c, is_editable)));
                tasks = tasks + 1;
            },
            MdKind::TableStart => {
                out.push(Piece::Html(string_of(&chars_of(TABLE_OPEN))));
            },
            MdKind::TableEnd => {
                out.push(Piece::Html(string_of(&chars_of(TABLE_CLOSE))));
            },
            MdKind::QuoteStart => {
                out.push(Piece::Html(string_of(&chars_of(QUOTE_OPEN))));
            },
            MdKind::QuoteEnd => {
                out.push(Piece::Html(string_of(&chars_of(QUOTE_CLOSE))));
            },
            MdKind::Text(t) => {
                if in_heading {
                    push_str(&mut heading, t.as_str());
                } else if in_code {
                    push_str(&mut code, t.as_str());
                } else {
                    out.push(Piece::Keep(ev));
                }
            },
            MdKind::Other => {
                if !in_heading && !in_code {
                    out.push(Piece::Keep(ev));
                }
            },
        }
        assert(pieces_view(out@) =~= before + step.1);
        i = i + 1;
    }
    assert(evs.take(n as int) =~= evs);
    out
}

/// Renders Markdown to HTML for the preview (`is_editable == false`) or the
/// editor surface.
pub fn markdown_to_html(markdown: &str, is_editable: bool) -> (r: String)
    ensures
        r@ == markdown_html_spec(markdown@, is_editable),
{
    let events = parse_markdown(markdown, MARKDOWN_OPTIONS);
    let mut kinds: Vec<MdKind> = Vec::new();
    let mut i: usize = 0;
    while i < events.len()
        invariant
            i <= events@.len(),
            kinds_view(kinds@) == kinds_of(events@.take(i as int)),
        decreases events@.len() - i,
    {
        let k = event_kind(&events[i]);
        let ghost prev = kinds@;
        assert(kinds_view(prev).len() == i);
        kinds.push(k);
        assert(events@.take(i + 1) =~= events@.take(i as int).push(events@[i as int]));
        assert(kinds@ =~= prev.push(k));
        assert forall|j: int| 0 <= j < i + 1 implies kinds_view(kinds@)[j] == kinds_of(
            events@.take(i + 1),
        )[j] by {
            if j < i {
                assert(kinds@[j] == prev[j]);
                assert(kinds_view(kinds@)[j] == kinds_view(prev)[j]);
                assert(kinds_of(events@.take(i + 1))[j] == kinds_of(events@.take(i as int))[j]);
            }
        }
        assert(kinds_view(kinds@) =~= kinds_of(events@.take(i + 1)));
        i = i + 1;
    }
    assert(events@.take(i as int) =~= events@);
    let ghost evs = events@;
    let pieces = rewrite_events(events, kinds, is_editable);
    render_pieces(pieces)
}

// ---------------------------------------------------------------------------
// From editor HTML back to Markdown
// ---------------------------------------------------------------------------

pub const MERMAID_PREVIEW_START: &'static str = "<!-- MERMAID_PREVIEW_START -->";

pub const MERMAID_PREVIEW_END: &'static str = "<!-- MERMAID_PREVIEW_END -->";

pub const CODE_HEADER_PREFIX: &'static str = "<div class=\"code-block-header\"";

/// What an `<input …>` tag becomes: a checkbox turns into `[x] ` or `[ ] `,
/// any other input stays.
pub open spec fn input_replacement(tag: Seq<char>) -> Seq<char> {
    if find(tag, "type=\"checkbox\""@) is Some || find(tag, "type='checkbox'"@) is Some {
        if find(tag, "checked"@) is Some {
            "[x] "@
        } else {
            "[ ] "@
        }
    } else {
        tag
    }
}

/// Every complete `<input …>` tag replaced, left to right.
pub open spec fn normalize_checkboxes(s: Seq<char>) -> Seq<char>
    decreases s.len(),
{
    match find(s, "<input"@) {
        None => s,
        Some(pos) => match find_from(s, seq!['>'], pos) {
            None => s,
            Some(te) => if 0 <= pos <= te < s.len() {
                s.take(pos) + input_replacement(s.subrange(pos, te + 1)) + normalize_checkboxes(
                    s.skip(te + 1),
                )
            } else {
                s
            },
        },
    }
}

/// The table and code-block wrappers and the attributes hiding mermaid
/// sources taken out.
pub open spec fn unwrap_wrappers(s: Seq<char>) -> Seq<char> {
    let a = replace_all(s, "<div class=\"table-responsive\">"@, ""@);
    let b = replace_all(a, "</table></div>"@, "</table>"@);
    let c = replace_all(
        b,
        "<div class=\"code-block-wrapper mermaid-block-wrapper\" data-lang=\"mermaid\">"@,
        ""@,
    );
    let d = replace_all(c, "<div class=\"code-block-wrapper\">"@, ""@);
    let e = replace_all(d, "style=\"display: none;\""@, ""@);
    replace_all(e, "class=\"mermaid-code-pre\""@, ""@)
}

/// What `htmd::convert` makes of an HTML text (`None` where it fails).
pub uninterp spec fn htmd_markdown(html: Seq<char>) -> Option<Seq<char>>;

/// Calls `htmd::convert`; claims the outcome is a function of the HTML.
#[verifier::external_body]
fn convert_with_htmd(html: &str) -> (r: Option<String>)
    ensures
        match r {
            Some(m) => htmd_markdown(html@) == Some(m@),
            None => htmd_markdown(html@) is None,
        },
{
    htmd::convert(html).ok()
}

/// The list prefixes of a task item with mark `mark` (`x` or a space).
pub open spec fn task_prefixes(mark: char) -> Seq<Seq<char>> {
    seq![
        seq!['-', ' ', '[', mark, ']'],
        seq!['*', ' ', '[', mark, ']'],
        seq!['-', ' ', ' ', ' ', '[', mark, ']'],
        seq!['*', ' ', ' ', ' ', '[', mark, ']'],
    ]
}

/// `t` without the first of `prefixes` that it starts with.
pub open spec fn strip_any(t: Seq<char>, prefixes: Seq<Seq<char>>) -> Option<Seq<char>>
    decreases prefixes.len(),
{
    if prefixes.len() == 0 {
        None
    } else if matches_at(t, 0, prefixes[0]) {
        Some(t.skip(prefixes[0].len() as int))
    } else {
        strip_any(t, prefixes.drop_first())
    }
}

/// A task list line in the standard form `- [x] text` or `- [ ] text`,
/// indentation kept; other lines unchanged.
pub open spec fn fix_task_line(line: Seq<char>) -> Seq<char> {
    let t = trim_start(line);
    let indent = line.take(line.len() - t.len());
    match strip_any(t, task_prefixes('x')) {
        Some(rest) => indent + "- [x] "@ + trim_start(rest),
        None => match strip_any(t, task_prefixes(' ')) {
            Some(rest) => indent + "- [ ] "@ + trim_start(rest),
            None => line,
        },
    }
}

pub open spec fn fix_task_lines(ls: Seq<Seq<char>>) -> Seq<Seq<char>> {
    ls.map_values(|l: Seq<char>| fix_task_line(l))
}

/// The lines joined with `\n` between them.
pub open spec fn join_lines(ls: Seq<Seq<char>>) -> Seq<char>
    decreases ls.len(),
{
    if ls.len() == 0 {
        seq![]
    } else if ls.len() == 1 {
        ls[0]
    } else {
        join_lines(ls.drop_last()) + seq!['\n'] + ls.last()
    }
}

/// The HTML prepared for conversion: previews, code block headers and
/// wrappers removed, checkboxes written as task marks.
pub open spec fn prepared_html(html: Seq<char>) -> Seq<char> {
    let a = remove_spans(html, MERMAID_PREVIEW_START@, MERMAID_PREVIEW_END@);
    let b = remove_matched_div_spec(a, CODE_HEADER_PREFIX@);
    unwrap_wrappers(normalize_checkboxes(b))
}

/// The Markdown of editor HTML, given the converter's outcome `converted` on
/// the prepared HTML `prepared`: the converted text (or the prepared HTML where
/// the conversion failed) with task marks unescaped and task items normalized.
pub open spec fn finish_markdown(prepared: Seq<char>, converted: Option<Seq<char>>) -> Seq<char> {
    let md = match converted {
        Some(m) => m,
        None => prepared,
    };
    let e = replace_all(replace_all(md, "\\[x\\]"@, "[x]"@), "\\[ \\]"@, "[ ]"@);
    join_lines(fix_task_lines(lines(e)))
}

pub open spec fn html_to_markdown_spec(html: Seq<char>) -> Seq<char> {
    let p = prepared_html(html);
    finish_markdown(p, htmd_markdown(p))
}

fn input_replacement_exec(tag: &Vec<char>) -> (r: Vec<char>)
    ensures
        r@ == input_replacement(tag@),
{
    if contains_str(tag, "type=\"checkbox\"") || contains_str(tag, "type='checkbox'") {
        if contains_str(tag, "checked") {
            chars_of("[x] ")
        } else {
            chars_of("[ ] ")
        }
    } else {
        slice_chars(tag, 0, tag.len())
    }
}

fn normalize_checkboxes_exec(s: &Vec<char>) -> (r: Vec<char>)
    ensures
        r@ == normalize_checkboxes(s@),
{
    let mut out: Vec<char> = Vec::new();
    let mut i: usize = 0;
    assert(s@.skip(0) =~= s@);
    loop
        invariant_except_break
            out@ + normalize_checkboxes(s@.skip(i as int)) == normalize_checkboxes(s@),
        invariant
            i <= s@.len(),
        ensures
            out@ == normalize_checkboxes(s@),
        decreases s@.len() - i,
    {
        let ghost rem = s@.skip(i as int);
        proof {
            lemma_find_from_skip(s@, "<input"@, i as int, 0);
        }
        let pos = match find_str_from(s, "<input", i) {
            Some(k) => k,
            None => {
                push_range(&mut out, s, i, s.len());
                assert(s@.subrange(i as int, s@.len() as int) =~= rem);
                break;
            },
        };
        proof {
            reveal_strlit(">");
            lemma_find_from_skip(s@, ">"@, i as int, pos - i);
            assert(">"@ =~= seq!['>']);
        }
        let te = match find_str_from(s, ">", pos) {
            Some(t) => t,
            None => {
                push_range(&mut out, s, i, s.len());
                assert(s@.subrange(i as int, s@.len() as int) =~= rem);
                break;
            },
        };
        let n = s.len();
        assert(">"@.len() == 1);
        assert(te + 1 <= n);
        let tag = slice_chars(s, pos, te + 1);
        let rep = input_replacement_exec(&tag);
        let ghost before = out@;
        push_range(&mut out, s, i, pos);
        push_all(&mut out, &rep);
        assert(rem.take(pos - i) =~= s@.subrange(i as int, pos as int));
        assert(rem.subrange(pos - i, te - i + 1) =~= tag@);
        assert(rem.skip(te - i + 1) =~= s@.skip(te + 1));
        i = te + 1;
    }
    out
}

fn unwrap_wrappers_exec(s: &Vec<char>) -> (r: Vec<char>)
    ensures
        r@ == unwrap_wrappers(s@),
{
    proof {
        reveal_strlit("<div class=\"table-responsive\">");
        reveal_strlit("</table></div>");
        reveal_strlit("<div class=\"code-block-wrapper mermaid-block-wrapper\" data-lang=\"mermaid\">");
        reveal_strlit("<div class=\"code-block-wrapper\">");
        reveal_strlit("style=\"display: none;\"");
        reveal_strlit("class=\"mermaid-code-pre\"");
    }
    let a = replace_chars(s, "<div class=\"table-responsive\">", "");
    let b = replace_chars(&a, "</table></div>", "</table>");
    let c = replace_chars(
        &b,
        "<div class=\"code-block-wrapper mermaid-block-wrapper\" data-lang=\"mermaid\">",
        "",
    );
    let d = replace_chars(&c, "<div class=\"code-block-wrapper\">", "");
    let e = replace_chars(&d, "style=\"display: none;\"", "");
    replace_chars(&e, "class=\"mermaid-code-pre\"", "")
}

/// Prepares editor HTML for conversion: mermaid previews, code block headers
/// and wrappers removed, checkboxes written as `[x] ` and `[ ] `.
pub fn prepare_html(html: &str) -> (r: String)
    ensures
        r@ == prepared_html(html@),
{
    proof {
        reveal_strlit("<!-- MERMAID_PREVIEW_START -->");
        reveal_strlit("<!-- MERMAID_PREVIEW_END -->");
    }
    let a = remove_spans_exec(
        chars_of(html),
        "<!-- MERMAID_PREVIEW_START -->",
        "<!-- MERMAID_PREVIEW_END -->",
    );
    let mut a_s = string_of(&a);
    remove_matched_div(&mut a_s, CODE_HEADER_PREFIX);
    let b = chars_of(a_s.as_str());
    let c = normalize_checkboxes_exec(&b);
    let d = unwrap_wrappers_exec(&c);
    string_of(&d)
}

/// The length of the task prefix with mark `mark` that `t` starts with.
fn task_prefix_len(t: &Vec<char>, mark: char) -> (r: Option<usize>)
    ensures
        r matches Some(n) ==> n <= t@.len() && strip_any(t@, task_prefixes(mark)) == Some(
            t@.skip(n as int),
        ),
        r is None ==> strip_any(t@, task_prefixes(mark)) is None,
{
    let p0: Vec<char> = vec!['-', ' ', '[', mark, ']'];
    let p1: Vec<char> = vec!['*', ' ', '[', mark, ']'];
    let p2: Vec<char> = vec!['-', ' ', ' ', ' ', '[', mark, ']'];
    let p3: Vec<char> = vec!['*', ' ', ' ', ' ', '[', mark, ']'];
    let ghost ps = task_prefixes(mark);
    proof {
        reveal_with_fuel(strip_any, 5);
    }
    assert(p0@ =~= ps[0]);
    assert(p1@ =~= ps[1]);
    assert(p2@ =~= ps[2]);
    assert(p3@ =~= ps[3]);
    assert(ps.drop_first()[0] == ps[1]);
    assert(ps.drop_first().drop_first()[0] == ps[2]);
    assert(ps.drop_first().drop_first().drop_first()[0] == ps[3]);
    assert(ps.drop_first().drop_first().drop_first().drop_first().len() == 0);
    if matches_at_chars(t, 0, &p0) {
        Some(5)
    } else if matches_at_chars(t, 0, &p1) {
        Some(5)
    } else if matches_at_chars(t, 0, &p2) {
        Some(7)
    } else if matches_at_chars(t, 0, &p3) {
        Some(7)
    } else {
        None
    }
}

fn fix_task_line_exec(line: &Vec<char>) -> (r: Vec<char>)
    ensures
        r@ == fix_task_line(line@),
{
    let n = line.len();
    let i = skip_ws(line, 0);
    assert(line@.subrange(0, n as int) =~= line@);
    let t = slice_chars(line, i, n);
    assert(line@.take(n - t@.len()) =~= line@.subrange(0, i as int));
    match task_prefix_len(&t, 'x') {
        Some(k) => {
            let mut out = slice_chars(line, 0, i);
            push_str(&mut out, "- [x] ");
            let j = skip_ws(&t, k);
            push_range(&mut out, &t, j, t.len());
            assert(t@.subrange(k as int, t@.len() as int) =~= t@.skip(k as int));
            out
        },
        None => match task_prefix_len(&t, ' ') {
            Some(k) => {
                let mut out = slice_chars(line, 0, i);
                push_str(&mut out, "- [ ] ");
                let j = skip_ws(&t, k);
                push_range(&mut out, &t, j, t.len());
                assert(t@.subrange(k as int, t@.len() as int) =~= t@.skip(k as int));
                out
            },
            None => slice_chars(line, 0, n),
        },
    }
}

pub open spec fn opt_text(o: Option<String>) -> Option<Seq<char>> {
    match o {
        Some(m) => Some(m@),
        None => None,
    }
}

/// Finishes the conversion of editor HTML, given the converter's outcome on
/// the prepared HTML.
pub fn finish_markdown_text(prepared: &str, converted: Option<String>) -> (r: String)
    ensures
        r@ == finish_markdown(prepared@, opt_text(converted)),
{
    proof {
        reveal_strlit("\\[x\\]");
        reveal_strlit("\\[ \\]");
    }
    let md = match converted {
        Some(m) => chars_of(m.as_str()),
        None => chars_of(prepared),
    };
    let a = replace_chars(&md, "\\[x\\]", "[x]");
    let e = replace_chars(&a, "\\[ \\]", "[ ]");
    let ls = lines_of(&e);
    let ghost lv = ls@.map_values(|l: Vec<char>| l@);
    let mut out: Vec<char> = Vec::new();
    let mut i: usize = 0;
    while i < ls.len()
        invariant
            i <= ls@.len(),
            lv == ls@.map_values(|l: Vec<char>| l@),
            lv == lines(e@),
            out@ == join_lines(fix_task_lines(lv.take(i as int))),
        decreases ls@.len() - i,
    {
        let fixed = fix_task_line_exec(&ls[i]);
        if i > 0 {
            out.push('\n');
        }
        push_all(&mut out, &fixed);
        proof {
            let f = fix_task_lines(lv.take(i + 1));
            assert(f.drop_last() =~= fix_task_lines(lv.take(i as int)));
            assert(f.last() == fixed@);
            if i == 0 {
                assert(f.len() == 1);
            }
        }
        i = i + 1;
    }
    assert(lv.take(i as int) =~= lv);
    string_of(&out)
}

/// Converts editor HTML back to Markdown.
pub fn html_to_markdown(html: &str) -> (r: String)
    ensures
        r@ == html_to_markdown_spec(html@),
{
    let prepared = prepare_html(html);
    let converted = convert_with_htmd(prepared.as_str());
    finish_markdown_text(prepared.as_str(), converted)
}

// ---------------------------------------------------------------------------
// Laws of the rewriting
// ---------------------------------------------------------------------------

/// How many task list markers `kinds` holds, checked or not.
pub open spec fn task_markers(kinds: Seq<MdKindView>) -> nat
    decreases kinds.len(),
{
    if kinds.len() == 0 {
        0
    } else {
        task_markers(kinds.drop_last()) + if kinds.last() is TaskListMarker {
            1nat
        } else {
            0nat
        }
    }
}

proof fn lemma_rewrite_tasks(evs: Seq<Event<'static>>, kinds: Seq<MdKindView>, editable: bool, j: int)
    requires
        kinds.len() == evs.len(),
        0 <= j <= evs.len(),
    ensures
        rewrite_run(evs.take(j), kinds, editable).0.tasks == task_markers(kinds.take(j)),
    decreases j,
{
    if j > 0 {
        lemma_rewrite_tasks(evs, kinds, editable, j - 1);
        assert(evs.take(j).drop_last() =~= evs.take(j - 1));
        assert(kinds.take(j).drop_last() =~= kinds.take(j - 1));
        assert(evs.take(j).last() == evs[j - 1]);
        assert(kinds.take(j).last() == kinds[j - 1]);
    } else {
        assert(evs.take(0).len() == 0);
        assert(kinds.take(0).len() == 0);
    }
}

/// Task list markers are numbered in document order from 0, checked or not:
/// the marker at event `i` becomes the checkbox numbered by how many markers
/// come before it, and is all that event adds to the output.
pub proof fn lemma_task_numbering(evs: Seq<Event<'static>>, kinds: Seq<MdKindView>, editable: bool, i: int)
    requires
        kinds.len() == evs.len(),
        0 <= i < evs.len(),
        kinds[i] is TaskListMarker,
    ensures
        rewrite_run(evs.take(i + 1), kinds, editable).1 == rewrite_run(evs.take(i), kinds, editable).1
            + seq![PieceView::Html(checkbox_html(task_markers(kinds.take(i)), kinds[i]->TaskListMarker_0, editable))],
        rewrite_run(evs.take(i + 1), kinds, editable).0.tasks == task_markers(kinds.take(i)) + 1,
{
    lemma_rewrite_tasks(evs, kinds, editable, i);
    lemma_rewrite_tasks(evs, kinds, editable, i + 1);
    assert(evs.take(i + 1).drop_last() =~= evs.take(i));
    assert(evs.take(i + 1).last() == evs[i]);
    assert(kinds.take(i + 1).drop_last() =~= kinds.take(i));
    assert(kinds.take(i + 1).last() == kinds[i]);
}

/// Over a whole document, the markers are counted all the same.
pub proof fn lemma_task_count(evs: Seq<Event<'static>>, editable: bool)
    ensures
        rewrite_run(evs, kinds_of(evs), editable).0.tasks == task_markers(kinds_of(evs)),
{
    lemma_rewrite_tasks(evs, kinds_of(evs), editable, evs.len() as int);
    assert(evs.take(evs.len() as int) =~= evs);
    assert(kinds_of(evs).take(evs.len() as int) =~= kinds_of(evs));
}

} // verus!
