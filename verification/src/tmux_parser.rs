//! Sans-IO parser for the tmux control-mode protocol.
//!
//! Bytes go in through [`ControlParser::feed`]; typed [`ControlEvent`]s come out. The
//! parser never decodes pane output as UTF-8: `%output` payloads are octal
//! unescaped and passed on as raw bytes, because a single notification can end
//! in the middle of a multi-byte sequence.
use vstd::prelude::*;
use crate::text::{flatten, bytes_of, chars_of, slice_chars, slice_bytes, parse_uint, parse_uint_chars, index_of, index_of_from, split_char, split_on, find, find_from, find_bytes, matches_at, matches_at_bytes, utf8_lossy, utf8_lossy_chars, lossy_text, utf8_strict, eq_str, string_of, lemma_find_from_bounds, lemma_find_from_extend, lemma_find_from_skip, lemma_index_of, lemma_index_of_at};
use vstd::utf8::{valid_utf8, decode_utf8, encode_utf8};


verus! {

// ---------------------------------------------------------------------------
// Octal unescaping and ids
// ---------------------------------------------------------------------------

pub open spec fn is_octal(b: u8) -> bool {
    48 <= b && b <= 55
}

/// The byte denoted by the three octal digits `a b c` (wrapping like `as u8`).
pub open spec fn octal_value(a: u8, b: u8, c: u8) -> u8 {
    (((a - 48) * 64 + (b - 48) * 8 + (c - 48)) % 256) as u8
}

/// tmux's octal escaping undone: `\ooo` (a backslash and three octal digits)
/// becomes the byte it denotes; every other byte passes through.
pub open spec fn decode_octal_spec(s: Seq<u8>) -> Seq<u8>
    decreases s.len(),
{
    if s.len() == 0 {
        seq![]
    } else if s.len() > 3 && s[0] == 92 && is_octal(s[1]) && is_octal(s[2]) && is_octal(s[3]) {
        seq![octal_value(s[1], s[2], s[3])] + decode_octal_spec(s.skip(4))
    } else {
        seq![s[0]] + decode_octal_spec(s.drop_first())
    }
}

/// tmux's escaping of pane output: every byte below 0x20 and the backslash
/// are written as `\ooo`.
pub open spec fn encode_octal_spec(s: Seq<u8>) -> Seq<u8>
    decreases s.len(),
{
    if s.len() == 0 {
        seq![]
    } else if s[0] < 32 || s[0] == 92 {
        seq![92u8, (48 + s[0] / 64) as u8, (48 + (s[0] / 8) % 8) as u8, (48 + s[0] % 8) as u8]
            + encode_octal_spec(s.drop_first())
    } else {
        seq![s[0]] + encode_octal_spec(s.drop_first())
    }
}

/// Decodes tmux's octal escaping: every byte below 0x20 and `\` is written as
/// `\ooo`. Anything else passes through untouched.
pub fn decode_octal(input: &[u8]) -> (out: Vec<u8>)
    ensures
        out@ == decode_octal_spec(input@),
{
    let mut out: Vec<u8> = Vec::new();
    let mut i: usize = 0;
    assert(input@.skip(0) =~= input@);
    while i < input.len()
        invariant
            i <= input@.len(),
            out@ + decode_octal_spec(input@.skip(i as int)) == decode_octal_spec(input@),
        decreases input@.len() - i,
    {
        let ghost rest = input@.skip(i as int);
        let b = input[i];
        if b == 92 && input.len() - i > 3 && is_octal_triplet(input, i + 1) {
            let v: u32 = ((input[i + 1] - 48) as u32) * 64 + ((input[i + 2] - 48) as u32) * 8 + ((
            input[i + 3] - 48) as u32);
            let byte: u8 = (v % 256) as u8;
            assert(byte == octal_value(rest[1], rest[2], rest[3]));
            assert(rest.skip(4) =~= input@.skip(i + 4));
            out.push(byte);
            i = i + 4;
        } else {
            assert(rest.drop_first() =~= input@.skip(i + 1));
            out.push(b);
            i = i + 1;
        }
        assert(out@ + decode_octal_spec(input@.skip(i as int)) =~= decode_octal_spec(input@));
    }
    assert(input@.skip(i as int) =~= Seq::<u8>::empty());
    assert(out@ + decode_octal_spec(input@.skip(i as int)) =~= out@);
    out
}

fn is_octal_triplet(s: &[u8], at: usize) -> (r: bool)
    requires
        at + 3 <= s@.len(),
    ensures
        r == (is_octal(s@[at as int]) && is_octal(s@[at + 1]) && is_octal(s@[at + 2])),
{
    let a = s[at];
    let b = s[at + 1];
    let c = s[at + 2];
    48 <= a && a <= 55 && 48 <= b && b <= 55 && 48 <= c && c <= 55
}

/// Decoding undoes tmux's escaping: whatever bytes a pane wrote come back unchanged.
pub proof fn lemma_decode_encode_octal(s: Seq<u8>)
    ensures
        decode_octal_spec(encode_octal_spec(s)) == s,
    decreases s.len(),
{
    if s.len() > 0 {
        lemma_decode_encode_octal(s.drop_first());
        let e = encode_octal_spec(s);
        let tail = encode_octal_spec(s.drop_first());
        if s[0] < 32 || s[0] == 92 {
            let b = s[0];
            assert(e.skip(4) =~= tail);
            assert(octal_value((48 + b / 64) as u8, (48 + (b / 8) % 8) as u8, (48 + b % 8) as u8)
                == b) by (nonlinear_arith)
                requires
                    b < 32 || b == 92,
            ;
            assert(decode_octal_spec(e) =~= seq![b] + s.drop_first());
        } else {
            assert(e.drop_first() =~= tail);
            assert(decode_octal_spec(e) =~= seq![s[0]] + s.drop_first());
        }
        assert(seq![s[0]] + s.drop_first() =~= s);
    }
}

/// A byte sequence without backslashes passes through decoding unchanged.
pub proof fn lemma_decode_octal_plain(s: Seq<u8>)
    requires
        forall|i: int| 0 <= i < s.len() ==> s[i] != 92,
    ensures
        decode_octal_spec(s) == s,
    decreases s.len(),
{
    if s.len() > 0 {
        lemma_decode_octal_plain(s.drop_first());
        assert(seq![s[0]] + s.drop_first() =~= s);
    }
}

/// `t` without its leading `%`, `@` and `$` characters.
pub open spec fn strip_sigils(t: Seq<char>) -> Seq<char>
    decreases t.len(),
{
    if t.len() > 0 && (t[0] == '%' || t[0] == '@' || t[0] == '$') {
        strip_sigils(t.drop_first())
    } else {
        t
    }
}

/// The numeric id of a token like `%12`, `@3`, `$0` or `7`.
pub open spec fn parse_id_spec(t: Seq<char>) -> Option<u32> {
    match parse_uint(strip_sigils(t), u32::MAX as nat) {
        Some(v) => Some(v as u32),
        None => None,
    }
}

fn parse_id_chars(t: &Vec<char>) -> (r: Option<u32>)
    ensures
        r == parse_id_spec(t@),
{
    let mut i: usize = 0;
    assert(t@.skip(0) =~= t@);
    while i < t.len() && (t[i] == '%' || t[i] == '@' || t[i] == '$')
        invariant
            i <= t.len(),
            strip_sigils(t@) == strip_sigils(t@.skip(i as int)),
        decreases t.len() - i,
    {
        assert(t@.skip(i as int).drop_first() =~= t@.skip(i + 1));
        i = i + 1;
    }
    let rest = slice_chars(t, i, t.len());
    assert(rest@ =~= t@.skip(i as int));
    match parse_uint_chars(&rest, 4294967295u64) {
        Some(v) => Some(v as u32),
        None => None,
    }
}

/// Parses `%12`, `@3`, `$0` (or a bare number) into its numeric id.
pub fn parse_id(token: &str) -> (r: Option<u32>)
    ensures
        r == parse_id_spec(token@),
{
    let t = chars_of(token);
    parse_id_chars(&t)
}

// ---------------------------------------------------------------------------
// Events
// ---------------------------------------------------------------------------

/// A parsed control-mode event.
#[derive(Debug, Clone, PartialEq, Eq)]
pub enum ControlEvent {
    /// `%output` / `%extended-output`: raw bytes written by the pane's program.
    Output { pane: u32, data: Vec<u8> },
    /// A complete `%begin … %end|%error` block. `from_client` is set when the
    /// command was sent by this client (flags bit 0).
    Reply { number: u64, from_client: bool, ok: bool, lines: Vec<String> },
    LayoutChange { window: u32, layout: String, visible_layout: String, flags: String },
    WindowAdd { window: u32 },
    WindowClose { window: u32 },
    WindowRenamed { window: u32, name: String },
    WindowPaneChanged { window: u32, pane: u32 },
    SessionChanged { session: u32, name: String },
    SessionRenamed { name: String },
    SessionWindowChanged { session: u32, window: u32 },
    SessionsChanged,
    PaneModeChanged { pane: u32 },
    Pause { pane: u32 },
    Continue { pane: u32 },
    ClientDetached,
    Exit { reason: Option<String> },
    /// Any notification this parser doesn't model (kept for diagnostics).
    Other { line: String },
}

/// The mathematical value of an [`ControlEvent`].
pub enum ControlEventView {
    Output { pane: u32, data: Seq<u8> },
    Reply { number: u64, from_client: bool, ok: bool, lines: Seq<Seq<char>> },
    LayoutChange { window: u32, layout: Seq<char>, visible_layout: Seq<char>, flags: Seq<char> },
    WindowAdd { window: u32 },
    WindowClose { window: u32 },
    WindowRenamed { window: u32, name: Seq<char> },
    WindowPaneChanged { window: u32, pane: u32 },
    SessionChanged { session: u32, name: Seq<char> },
    SessionRenamed { name: Seq<char> },
    SessionWindowChanged { session: u32, window: u32 },
    SessionsChanged,
    PaneModeChanged { pane: u32 },
    Pause { pane: u32 },
    Continue { pane: u32 },
    ClientDetached,
    Exit { reason: Option<Seq<char>> },
    Other { line: Seq<char> },
}

pub open spec fn strings_view(v: Seq<String>) -> Seq<Seq<char>> {
    v.map_values(|s: String| s@)
}

impl View for ControlEvent {
    type V = ControlEventView;

    open spec fn view(&self) -> ControlEventView {
        match self {
            ControlEvent::Output { pane, data } => ControlEventView::Output { pane: *pane, data: data@ },
            ControlEvent::Reply { number, from_client, ok, lines } => ControlEventView::Reply {
                number: *number,
                from_client: *from_client,
                ok: *ok,
                lines: strings_view(lines@),
            },
            ControlEvent::LayoutChange { window, layout, visible_layout, flags } =>
                ControlEventView::LayoutChange {
                window: *window,
                layout: layout@,
                visible_layout: visible_layout@,
                flags: flags@,
            },
            ControlEvent::WindowAdd { window } => ControlEventView::WindowAdd { window: *window },
            ControlEvent::WindowClose { window } => ControlEventView::WindowClose { window: *window },
            ControlEvent::WindowRenamed { window, name } => ControlEventView::WindowRenamed {
                window: *window,
                name: name@,
            },
            ControlEvent::WindowPaneChanged { window, pane } => ControlEventView::WindowPaneChanged {
                window: *window,
                pane: *pane,
            },
            ControlEvent::SessionChanged { session, name } => ControlEventView::SessionChanged {
                session: *session,
                name: name@,
            },
            ControlEvent::SessionRenamed { name } => ControlEventView::SessionRenamed { name: name@ },
            ControlEvent::SessionWindowChanged { session, window } => ControlEventView::SessionWindowChanged {
                session: *session,
                window: *window,
            },
            ControlEvent::SessionsChanged => ControlEventView::SessionsChanged,
            ControlEvent::PaneModeChanged { pane } => ControlEventView::PaneModeChanged { pane: *pane },
            ControlEvent::Pause { pane } => ControlEventView::Pause { pane: *pane },
            ControlEvent::Continue { pane } => ControlEventView::Continue { pane: *pane },
            ControlEvent::ClientDetached => ControlEventView::ClientDetached,
            ControlEvent::Exit { reason } => ControlEventView::Exit {
                reason: match reason {
                    Some(r) => Some(r@),
                    None => None,
                },
            },
            ControlEvent::Other { line } => ControlEventView::Other { line: line@ },
        }
    }
}

pub open spec fn events_view(v: Seq<ControlEvent>) -> Seq<ControlEventView> {
    v.map_values(|e: ControlEvent| e@)
}


pub open spec fn opt_event_view(e: Option<ControlEvent>) -> Option<ControlEventView> {
    match e {
        Some(ev) => Some(ev@),
        None => None,
    }
}

pub open spec fn opt_seq(e: Option<ControlEventView>) -> Seq<ControlEventView> {
    match e {
        Some(ev) => seq![ev],
        None => seq![],
    }
}

// ---------------------------------------------------------------------------
// Line grammar
// ---------------------------------------------------------------------------


/// The first word of `t` (up to the first space).
pub open spec fn first_word(t: Seq<char>) -> Seq<char> {
    match index_of(t, ' ') {
        Some(k) => t.take(k),
        None => t,
    }
}

/// What follows the first space of `t`, or `dflt` when `t` holds no space.
pub open spec fn after_space_or(t: Seq<char>, dflt: Seq<char>) -> Seq<char> {
    match index_of(t, ' ') {
        Some(k) => t.skip(k + 1),
        None => dflt,
    }
}

/// The `i`-th space-separated piece of `args`, or empty.
pub open spec fn piece(args: Seq<char>, i: int) -> Seq<char> {
    let p = split_char(args, ' ');
    if 0 <= i < p.len() {
        p[i]
    } else {
        seq![]
    }
}

pub open spec fn id_arg(args: Seq<char>, i: int) -> Option<u32> {
    parse_id_spec(piece(args, i))
}

/// The pane id written as UTF-8 text in `b`.
pub open spec fn pane_token(b: Seq<u8>) -> Option<u32> {
    if valid_utf8(b) {
        parse_id_spec(decode_utf8(b))
    } else {
        None
    }
}

/// `%output %pane data`.
pub open spec fn output_line_spec(line: Seq<u8>) -> Option<ControlEventView> {
    let rest = line.skip(bytes_of("%output "@).len() as int);
    match find(rest, seq![32u8]) {
        Some(sp) => match pane_token(rest.take(sp)) {
            Some(pane) => Some(ControlEventView::Output { pane, data: decode_octal_spec(rest.skip(sp + 1)) }),
            None => None,
        },
        None => None,
    }
}

/// `%extended-output %pane age ... : data`.
pub open spec fn extended_line_spec(line: Seq<u8>) -> Option<ControlEventView> {
    let rest = line.skip(bytes_of("%extended-output "@).len() as int);
    match find(rest, seq![32u8]) {
        Some(sp) => match pane_token(rest.take(sp)) {
            Some(pane) => match find(rest, bytes_of(" : "@)) {
                Some(c) => Some(
                    ControlEventView::Output {
                        pane,
                        data: decode_octal_spec(rest.skip(c + bytes_of(" : "@).len())),
                    },
                ),
                None => None,
            },
            None => None,
        },
        None => None,
    }
}

/// The event of a notification line other than `%begin`, `%exit` and output.
pub open spec fn notification_spec(name: Seq<char>, args: Seq<char>, t: Seq<char>) -> Option<ControlEventView> {
    if name == "%layout-change"@ {
        match id_arg(args, 0) {
            Some(window) => Some(ControlEventView::LayoutChange {
                window,
                layout: piece(args, 1),
                visible_layout: piece(args, 2),
                flags: piece(args, 3),
            }),
            None => None,
        }
    } else if name == "%window-add"@ {
        match id_arg(args, 0) {
            Some(window) => Some(ControlEventView::WindowAdd { window }),
            None => None,
        }
    } else if name == "%window-close"@ || name == "%unlinked-window-close"@ {
        match id_arg(args, 0) {
            Some(window) => Some(ControlEventView::WindowClose { window }),
            None => None,
        }
    } else if name == "%window-renamed"@ {
        match id_arg(args, 0) {
            Some(window) => Some(ControlEventView::WindowRenamed { window, name: after_space_or(args, seq![]) }),
            None => None,
        }
    } else if name == "%window-pane-changed"@ {
        match (id_arg(args, 0), id_arg(args, 1)) {
            (Some(window), Some(pane)) => Some(ControlEventView::WindowPaneChanged { window, pane }),
            _ => None,
        }
    } else if name == "%session-changed"@ {
        match id_arg(args, 0) {
            Some(session) => Some(ControlEventView::SessionChanged { session, name: after_space_or(args, seq![]) }),
            None => None,
        }
    } else if name == "%session-renamed"@ {
        Some(ControlEventView::SessionRenamed { name: after_space_or(args, args) })
    } else if name == "%session-window-changed"@ {
        match (id_arg(args, 0), id_arg(args, 1)) {
            (Some(session), Some(window)) => Some(ControlEventView::SessionWindowChanged { session, window }),
            _ => None,
        }
    } else if name == "%sessions-changed"@ {
        Some(ControlEventView::SessionsChanged)
    } else if name == "%pane-mode-changed"@ {
        match id_arg(args, 0) {
            Some(pane) => Some(ControlEventView::PaneModeChanged { pane }),
            None => None,
        }
    } else if name == "%pause"@ {
        match id_arg(args, 0) {
            Some(pane) => Some(ControlEventView::Pause { pane }),
            None => None,
        }
    } else if name == "%continue"@ {
        match id_arg(args, 0) {
            Some(pane) => Some(ControlEventView::Continue { pane }),
            None => None,
        }
    } else if name == "%client-detached"@ {
        Some(ControlEventView::ClientDetached)
    } else {
        Some(ControlEventView::Other { line: t })
    }
}

/// The reply number of a `%end`/`%error` line (its third word).
pub open spec fn block_number_spec(line: Seq<u8>) -> Option<u64> {
    if valid_utf8(line) {
        let p = split_char(decode_utf8(line), ' ');
        if p.len() > 2 {
            match parse_uint(p[2], u64::MAX as nat) {
                Some(v) => Some(v as u64),
                None => None,
            }
        } else {
            None
        }
    } else {
        None
    }
}

/// The value of an integer word, or 0.
pub open spec fn uint_or_zero(t: Seq<char>, max: nat) -> nat {
    match parse_uint(t, max) {
        Some(v) => v,
        None => 0,
    }
}

/// A reply block being collected between `%begin` and `%end`/`%error`.
pub struct OpenBlockView {
    pub number: u64,
    pub from_client: bool,
    pub lines: Seq<Seq<char>>,
}

/// One line (without its terminator) applied to the open block and exit flag:
/// the new block, the new exit flag and the event the line produces, if any.
pub open spec fn parse_line_spec(block: Option<OpenBlockView>, exited: bool, line: Seq<u8>) -> (
    Option<OpenBlockView>,
    bool,
    Option<ControlEventView>,
) {
    match block {
        Some(b) => {
            let is_end = matches_at(line, 0, bytes_of("%end "@));
            let is_error = matches_at(line, 0, bytes_of("%error "@));
            if (is_end || is_error) && block_number_spec(line) == Some(b.number) {
                (
                    None,
                    exited,
                    Some(
                        ControlEventView::Reply {
                            number: b.number,
                            from_client: b.from_client,
                            ok: is_end,
                            lines: b.lines,
                        },
                    ),
                )
            } else {
                (
                    Some(
                        OpenBlockView {
                            number: b.number,
                            from_client: b.from_client,
                            lines: b.lines.push(lossy_text(line)),
                        },
                    ),
                    exited,
                    None,
                )
            }
        },
        None => {
            if matches_at(line, 0, bytes_of("%output "@)) {
                (None, exited, output_line_spec(line))
            } else if matches_at(line, 0, bytes_of("%extended-output "@)) {
                (None, exited, extended_line_spec(line))
            } else {
                let t = lossy_text(line);
                let name = first_word(t);
                let args = after_space_or(t, seq![]);
                if name == "%begin"@ {
                    (
                        Some(
                            OpenBlockView {
                                number: uint_or_zero(piece(args, 1), u64::MAX as nat) as u64,
                                from_client: uint_or_zero(piece(args, 2), u32::MAX as nat) % 2
                                    == 1,
                                lines: seq![],
                            },
                        ),
                        exited,
                        None,
                    )
                } else if name == "%exit"@ {
                    (
                        None,
                        true,
                        Some(
                            ControlEventView::Exit {
                                reason: if args.len() == 0 {
                                    None
                                } else {
                                    Some(args)
                                },
                            },
                        ),
                    )
                } else {
                    (None, exited, notification_spec(name, args, t))
                }
            }
        },
    }
}

/// A line without its `\r` before the `\n`.
pub open spec fn line_bytes(l: Seq<u8>) -> Seq<u8> {
    if l.len() > 0 && l.last() == 13 {
        l.drop_last()
    } else {
        l
    }
}

/// Parser state after a run over data: open block, exit flag, events, unconsumed bytes.
pub struct RunView {
    pub block: Option<OpenBlockView>,
    pub exited: bool,
    pub events: Seq<ControlEventView>,
    pub rest: Seq<u8>,
}

/// Every complete line of `data` fed through the line grammar until `%exit`.
pub open spec fn run_lines(block: Option<OpenBlockView>, exited: bool, data: Seq<u8>) -> RunView
    decreases data.len(),
{
    if exited {
        RunView { block, exited, events: seq![], rest: data }
    } else {
        match find(data, seq![10u8]) {
            Some(k) => if 0 <= k < data.len() {
                let r1 = parse_line_spec(block, exited, line_bytes(data.take(k)));
                let r2 = run_lines(r1.0, r1.1, data.skip(k + 1));
                RunView { block: r2.block, exited: r2.exited, events: opt_seq(r1.2) + r2.events, rest: r2.rest }
            } else {
                RunView { block, exited, events: seq![], rest: data }
            },
            None => RunView { block, exited, events: seq![], rest: data },
        }
    }
}

/// The observable state of a [`ControlParser`].
pub struct ParserState {
    pub buf: Seq<u8>,
    pub block: Option<OpenBlockView>,
    pub exited: bool,
}

/// The result of one `feed`: the new state, the events, and the bytes that
/// follow control mode once `%exit` has been seen.
pub struct FeedView {
    pub state: ParserState,
    pub events: Seq<ControlEventView>,
    pub trailing: Option<Seq<u8>>,
}

/// What feeding `bytes` to a parser in state `st` does.
pub open spec fn feed_spec(st: ParserState, bytes: Seq<u8>) -> FeedView {
    let r = run_lines(st.block, st.exited, st.buf + bytes);
    if r.exited && r.rest.len() >= 2 {
        let skip: int = if r.rest[0] == 27 && r.rest[1] == 92 {
            2
        } else {
            0
        };
        FeedView {
            state: ParserState { buf: seq![], block: r.block, exited: r.exited },
            events: r.events,
            trailing: Some(r.rest.skip(skip)),
        }
    } else {
        FeedView {
            state: ParserState { buf: r.rest, block: r.block, exited: r.exited },
            events: r.events,
            trailing: None,
        }
    }
}


// ---------------------------------------------------------------------------
// Laws of the line splitter
// ---------------------------------------------------------------------------

/// Running over `d + x` is running over `d`, then over what `d` left unconsumed followed by `x`.
pub proof fn lemma_run_lines_extend(block: Option<OpenBlockView>, exited: bool, d: Seq<u8>, x: Seq<u8>)
    ensures
        ({
            let r1 = run_lines(block, exited, d);
            let r2 = run_lines(r1.block, r1.exited, r1.rest + x);
            run_lines(block, exited, d + x) == RunView {
                block: r2.block,
                exited: r2.exited,
                events: r1.events + r2.events,
                rest: r2.rest,
            }
        }),
    decreases d.len(),
{
    let nl = seq![10u8];
    if exited {
        assert(run_lines(block, exited, d).events + run_lines(block, exited, d + x).events
            =~= Seq::<ControlEventView>::empty());
    } else {
        lemma_find_from_bounds(d, nl, 0);
        match find(d, nl) {
            Some(k) => {
                lemma_find_from_extend(d, x, nl, 0);
                let line = line_bytes(d.take(k));
                assert((d + x).take(k) =~= d.take(k));
                assert((d + x).skip(k + 1) =~= d.skip(k + 1) + x);
                let r1 = parse_line_spec(block, exited, line);
                lemma_run_lines_extend(r1.0, r1.1, d.skip(k + 1), x);
                let a = run_lines(r1.0, r1.1, d.skip(k + 1));
                let b = run_lines(a.block, a.exited, a.rest + x);
                assert(opt_seq(r1.2) + (a.events + b.events) =~= (opt_seq(r1.2) + a.events)
                    + b.events);
            },
            None => {
                assert(Seq::<ControlEventView>::empty() + run_lines(block, exited, d + x).events
                    =~= run_lines(block, exited, d + x).events);
            },
        }
    }
}

/// Feeding `a` and then `b` yields the same events, open block and exit flag
/// as feeding `a + b` at once: a notification split across reads is parsed
/// exactly as if it had arrived in one piece.
pub proof fn lemma_feed_split(st: ParserState, a: Seq<u8>, b: Seq<u8>)
    ensures
        ({
            let f1 = feed_spec(st, a);
            let f2 = feed_spec(f1.state, b);
            let f = feed_spec(st, a + b);
            &&& f1.events + f2.events == f.events
            &&& f2.state.block == f.state.block
            &&& f2.state.exited == f.state.exited
            &&& !f.state.exited ==> f2.state == f.state
        }),
{
    let d = st.buf + a;
    assert(st.buf + (a + b) =~= d + b);
    lemma_run_lines_extend(st.block, st.exited, d, b);
    let r1 = run_lines(st.block, st.exited, d);
    if r1.exited && r1.rest.len() >= 2 {
        assert(Seq::<u8>::empty() + b =~= b);
        let r2 = run_lines(r1.block, r1.exited, r1.rest + b);
        assert(r1.events + r2.events =~= r1.events);
        assert(r1.events + run_lines(r1.block, r1.exited, Seq::<u8>::empty() + b).events
            =~= r1.events);
    }
}

/// Feeding `a` and then `b` is feeding `a + b`: when control mode ends in
/// `a`, the second feed is not needed and the bytes after it simply carry
/// `b` as well; otherwise the second feed gives the rest of the events, and
/// the same state and trailing bytes.
pub proof fn lemma_feed_two(st: ParserState, a: Seq<u8>, b: Seq<u8>)
    ensures
        ({
            let f1 = feed_spec(st, a);
            let f2 = feed_spec(f1.state, b);
            let f = feed_spec(st, a + b);
            &&& f1.trailing matches Some(t1) ==> f.events == f1.events && f.state == f1.state
                && f.trailing == Some(t1 + b)
            &&& f1.trailing is None ==> f.events == f1.events + f2.events && f.state == f2.state
                && f.trailing == f2.trailing
        }),
{
    let d = st.buf + a;
    assert(st.buf + (a + b) =~= d + b);
    lemma_run_lines_extend(st.block, st.exited, d, b);
    let r1 = run_lines(st.block, st.exited, d);
    let r2 = run_lines(r1.block, r1.exited, r1.rest + b);
    if r1.exited && r1.rest.len() >= 2 {
        assert(r1.events + r2.events =~= r1.events);
        let skip: int = if r1.rest[0] == 27 && r1.rest[1] == 92 {
            2
        } else {
            0
        };
        assert((r1.rest + b)[0] == r1.rest[0] && (r1.rest + b)[1] == r1.rest[1]);
        assert((r1.rest + b).skip(skip) =~= r1.rest.skip(skip) + b);
    }
}

/// What feeding the reads `xs` one after another does, until control mode
/// ends: the events, the state, the bytes after control mode in the read
/// where it ended, and the reads left over.
pub struct FeedRunView {
    pub events: Seq<ControlEventView>,
    pub state: ParserState,
    pub trailing: Option<Seq<u8>>,
    pub left: Seq<Seq<u8>>,
}

pub open spec fn feed_run(st: ParserState, xs: Seq<Seq<u8>>) -> FeedRunView
    decreases xs.len(),
{
    if xs.len() == 0 {
        FeedRunView { events: seq![], state: st, trailing: None, left: seq![] }
    } else {
        let f = feed_spec(st, xs[0]);
        if f.trailing is Some {
            FeedRunView { events: f.events, state: f.state, trailing: f.trailing, left: xs.drop_first() }
        } else {
            let r = feed_run(f.state, xs.drop_first());
            FeedRunView { events: f.events + r.events, ..r }
        }
    }
}

/// However the control-mode stream is cut into reads, the parser yields the
/// events of reading it in one piece, ends in the same state, and, when
/// control mode ends, hands back the same bytes after it (those of the read
/// where it ended followed by the reads left over).
#[verifier::spinoff_prover]
pub proof fn lemma_feed_reads(st: ParserState, xs: Seq<Seq<u8>>)
    requires
        xs.len() > 0,
    ensures
        ({
            let r = feed_run(st, xs);
            let f = feed_spec(st, flatten(xs));
            &&& r.events == f.events
            &&& r.state == f.state
            &&& f.trailing is None ==> r.trailing is None
            &&& f.trailing matches Some(t) ==> r.trailing matches Some(t1) && t1 + flatten(r.left)
                == t
        }),
    decreases xs.len(),
{
    let x0 = xs[0];
    let rest = xs.drop_first();
    let fl = flatten(rest);
    assert(flatten(xs) == x0 + fl);
    let f1 = feed_spec(st, x0);
    if rest.len() == 0 {
        assert(fl =~= Seq::<u8>::empty());
        assert(x0 + fl =~= x0);
        assert(f1.events + Seq::<ControlEventView>::empty() =~= f1.events);
        if f1.trailing is Some {
            assert(f1.trailing->0 + fl =~= f1.trailing->0);
        }
    } else {
        lemma_feed_two(st, x0, fl);
        if f1.trailing is None {
            lemma_feed_reads(f1.state, rest);
        }
    }
}

/// `data` with every line terminator `\n` that is not already preceded by
/// `\r` written as `\r\n`.
pub open spec fn crlf_spec(data: Seq<u8>) -> Seq<u8>
    decreases data.len(),
{
    match find(data, seq![10u8]) {
        Some(k) => if 0 <= k < data.len() {
            let term: Seq<u8> = if k > 0 && data[k - 1] == 13 {
                seq![10u8]
            } else {
                seq![13u8, 10u8]
            };
            data.take(k) + term + crlf_spec(data.skip(k + 1))
        } else {
            data
        },
        None => data,
    }
}

proof fn lemma_find_nl_at(s: Seq<u8>, j: int, f: int)
    requires
        0 <= f <= j < s.len(),
        s[j] == 10,
        forall|i: int| f <= i < j ==> s[i] != 10,
    ensures
        find_from(s, seq![10u8], f) == Some(j),
    decreases j - f,
{
    assert(s.subrange(f, f + 1) =~= seq![s[f]]);
    if f < j {
        assert(s.subrange(f, f + 1)[0] != 10u8);
        assert(!matches_at(s, f, seq![10u8]));
        lemma_find_nl_at(s, j, f + 1);
    } else {
        assert(s.subrange(f, f + 1) =~= seq![10u8]);
        assert(matches_at(s, f, seq![10u8]));
    }
}

/// Writing line ends as `\r\n` in place of `\n` changes nothing: the same
/// events, block and exit flag, and, before `%exit`, the same unread bytes.
proof fn lemma_run_lines_crlf(block: Option<OpenBlockView>, exited: bool, data: Seq<u8>)
    ensures
        ({
            let r = run_lines(block, exited, data);
            let c = run_lines(block, exited, crlf_spec(data));
            &&& c.events == r.events
            &&& c.block == r.block
            &&& c.exited == r.exited
            &&& !r.exited ==> c.rest == r.rest
        }),
    decreases data.len(),
{
    let nl = seq![10u8];
    lemma_find_from_bounds(data, nl, 0);
    match find(data, nl) {
        Some(k) => {
            let line = data.take(k);
            let tail = data.skip(k + 1);
            let cr = k > 0 && data[k - 1] == 13;
            let term: Seq<u8> = if cr {
                seq![10u8]
            } else {
                seq![13u8, 10u8]
            };
            let c = crlf_spec(data);
            assert(c == line + term + crlf_spec(tail));
            assert forall|i: int| 0 <= i < k implies data[i] != 10 by {
                assert(!matches_at(data, i, nl));
                assert(data.subrange(i, i + 1) =~= seq![data[i]]);
            }
            let j = if cr {
                k
            } else {
                k + 1
            };
            assert(c[j] == 10);
            assert forall|i: int| 0 <= i < j implies c[i] != 10 by {
                if i < k {
                    assert(c[i] == data[i]);
                }
            }
            lemma_find_nl_at(c, j, 0);
            assert(c.skip(j + 1) =~= crlf_spec(tail));
            if cr {
                assert(c.take(j) =~= line);
            } else {
                assert(c.take(j) =~= line.push(13u8));
                assert(line_bytes(line.push(13u8)) =~= line);
                assert(line_bytes(line) == line);
            }
            assert(line_bytes(c.take(j)) == line_bytes(line));
            if !exited {
                let r1 = parse_line_spec(block, exited, line_bytes(line));
                lemma_run_lines_crlf(r1.0, r1.1, tail);
            }
        },
        None => {},
    }
}

/// A fresh parser (nothing buffered) reads `\r\n` line ends as it reads `\n`:
/// the same events and, until `%exit`, the same state.
pub proof fn lemma_feed_crlf(st: ParserState, bytes: Seq<u8>)
    requires
        st.buf.len() == 0,
    ensures
        ({
            let f = feed_spec(st, bytes);
            let c = feed_spec(st, crlf_spec(bytes));
            &&& c.events == f.events
            &&& c.state.block == f.state.block
            &&& c.state.exited == f.state.exited
            &&& !f.state.exited ==> c.state == f.state
        }),
{
    assert(st.buf + bytes =~= bytes);
    assert(st.buf + crlf_spec(bytes) =~= crlf_spec(bytes));
    lemma_run_lines_crlf(st.block, st.exited, bytes);
}

// ---------------------------------------------------------------------------
// The incremental parser
// ---------------------------------------------------------------------------

struct OpenBlock {
    number: u64,
    from_client: bool,
    lines: Vec<String>,
}

impl View for OpenBlock {
    type V = OpenBlockView;

    closed spec fn view(&self) -> OpenBlockView {
        OpenBlockView { number: self.number, from_client: self.from_client, lines: strings_view(self.lines@) }
    }
}

spec fn block_view(b: Option<OpenBlock>) -> Option<OpenBlockView> {
    match b {
        Some(x) => Some(x@),
        None => None,
    }
}

/// Incremental line-oriented parser. Handles both LF (pipe transport) and CRLF
/// (tmux -CC inside a pty) line endings.
pub struct ControlParser {
    buf: Vec<u8>,
    block: Option<OpenBlock>,
    exited: bool,
}

impl View for ControlParser {
    type V = ParserState;

    closed spec fn view(&self) -> ParserState {
        ParserState { buf: self.buf@, block: block_view(self.block), exited: self.exited }
    }
}

/// The result of feeding bytes: parsed events, plus any bytes that followed the
/// end of control mode (`%exit` + `ESC \`), which belong to the outer terminal.
#[derive(Debug)]
pub struct FeedResult {
    pub events: Vec<ControlEvent>,
    pub trailing: Option<Vec<u8>>,
}

pub open spec fn opt_bytes(t: Option<Vec<u8>>) -> Option<Seq<u8>> {
    match t {
        Some(v) => Some(v@),
        None => None,
    }
}

/// The first `k` pieces of a split, each as a fresh vector.
fn piece_at(pieces: &Vec<Vec<char>>, i: usize) -> (r: Vec<char>)
    ensures
        r@ == (if i < pieces@.len() {
            pieces@[i as int]@
        } else {
            seq![]
        }),
{
    if i < pieces.len() {
        slice_chars(&pieces[i], 0, pieces[i].len())
    } else {
        Vec::new()
    }
}

fn id_piece(pieces: &Vec<Vec<char>>, i: usize, Ghost(args): Ghost<Seq<char>>) -> (r: Option<u32>)
    requires
        pieces@.map_values(|l: Vec<char>| l@) == split_char(args, ' '),
    ensures
        r == id_arg(args, i as int),
{
    let p = piece_at(pieces, i);
    if i < pieces.len() {
        assert(pieces@.map_values(|l: Vec<char>| l@)[i as int] == pieces@[i as int]@);
    }
    parse_id_chars(&p)
}

fn piece_string(pieces: &Vec<Vec<char>>, i: usize, Ghost(args): Ghost<Seq<char>>) -> (r: String)
    requires
        pieces@.map_values(|l: Vec<char>| l@) == split_char(args, ' '),
    ensures
        r@ == piece(args, i as int),
{
    let p = piece_at(pieces, i);
    if i < pieces.len() {
        assert(pieces@.map_values(|l: Vec<char>| l@)[i as int] == pieces@[i as int]@);
    }
    string_of(&p)
}

/// What follows the first space of `t`, if any.
fn after_space(t: &Vec<char>) -> (r: Option<Vec<char>>)
    ensures
        r matches Some(v) ==> index_of(t@, ' ') is Some && v@ == after_space_or(t@, seq![]),
        r is None ==> index_of(t@, ' ') is None,
{
    proof {
        assert(t@.skip(0) =~= t@);
    }
    match index_of_from(t, ' ', 0) {
        Some(k) => {
            let v = slice_chars(t, k + 1, t.len());
            proof {
                lemma_index_of(t@, ' ');
            }
            assert(v@ =~= t@.skip(k + 1));
            Some(v)
        },
        None => None,
    }
}

fn name_after_space_or(args: &Vec<char>, keep_args: bool) -> (r: String)
    ensures
        r@ == after_space_or(args@, if keep_args { args@ } else { seq![] }),
{
    match after_space(args) {
        Some(v) => string_of(&v),
        None => if keep_args {
            string_of(args)
        } else {
            String::new()
        },
    }
}

fn notification(name: &Vec<char>, args: &Vec<char>, t: &Vec<char>) -> (r: Option<ControlEvent>)
    ensures
        opt_event_view(r) == notification_spec(name@, args@, t@),
{
    let pieces = split_on(args, ' ');
    let ghost a = args@;
    if eq_str(name, "%layout-change") {
        match id_piece(&pieces, 0, Ghost(a)) {
            Some(window) => Some(ControlEvent::LayoutChange {
                window,
                layout: piece_string(&pieces, 1, Ghost(a)),
                visible_layout: piece_string(&pieces, 2, Ghost(a)),
                flags: piece_string(&pieces, 3, Ghost(a)),
            }),
            None => None,
        }
    } else if eq_str(name, "%window-add") {
        match id_piece(&pieces, 0, Ghost(a)) {
            Some(window) => Some(ControlEvent::WindowAdd { window }),
            None => None,
        }
    } else if eq_str(name, "%window-close") || eq_str(name, "%unlinked-window-close") {
        match id_piece(&pieces, 0, Ghost(a)) {
            Some(window) => Some(ControlEvent::WindowClose { window }),
            None => None,
        }
    } else if eq_str(name, "%window-renamed") {
        match id_piece(&pieces, 0, Ghost(a)) {
            Some(window) => Some(ControlEvent::WindowRenamed { window, name: name_after_space_or(args, false) }),
            None => None,
        }
    } else if eq_str(name, "%window-pane-changed") {
        let w = id_piece(&pieces, 0, Ghost(a));
        let p = id_piece(&pieces, 1, Ghost(a));
        match (w, p) {
            (Some(window), Some(pane)) => Some(ControlEvent::WindowPaneChanged { window, pane }),
            _ => None,
        }
    } else if eq_str(name, "%session-changed") {
        match id_piece(&pieces, 0, Ghost(a)) {
            Some(session) => Some(ControlEvent::SessionChanged { session, name: name_after_space_or(args, false) }),
            None => None,
        }
    } else if eq_str(name, "%session-renamed") {
        Some(ControlEvent::SessionRenamed { name: name_after_space_or(args, true) })
    } else if eq_str(name, "%session-window-changed") {
        let s = id_piece(&pieces, 0, Ghost(a));
        let w = id_piece(&pieces, 1, Ghost(a));
        match (s, w) {
            (Some(session), Some(window)) => Some(ControlEvent::SessionWindowChanged { session, window }),
            _ => None,
        }
    } else if eq_str(name, "%sessions-changed") {
        Some(ControlEvent::SessionsChanged)
    } else if eq_str(name, "%pane-mode-changed") {
        match id_piece(&pieces, 0, Ghost(a)) {
            Some(pane) => Some(ControlEvent::PaneModeChanged { pane }),
            None => None,
        }
    } else if eq_str(name, "%pause") {
        match id_piece(&pieces, 0, Ghost(a)) {
            Some(pane) => Some(ControlEvent::Pause { pane }),
            None => None,
        }
    } else if eq_str(name, "%continue") {
        match id_piece(&pieces, 0, Ghost(a)) {
            Some(pane) => Some(ControlEvent::Continue { pane }),
            None => None,
        }
    } else if eq_str(name, "%client-detached") {
        Some(ControlEvent::ClientDetached)
    } else {
        Some(ControlEvent::Other { line: string_of(t) })
    }
}

fn pane_of_token(b: &[u8]) -> (r: Option<u32>)
    ensures
        r == pane_token(b@),
{
    match utf8_strict(b) {
        Some(t) => parse_id_chars(&t),
        None => None,
    }
}

fn output_event(line: &[u8], tag_len: usize, extended: bool) -> (r: Option<ControlEvent>)
    requires
        tag_len <= line@.len(),
        extended ==> tag_len == bytes_of("%extended-output "@).len(),
        !extended ==> tag_len == bytes_of("%output "@).len(),
    ensures
        opt_event_view(r) == (if extended {
            extended_line_spec(line@)
        } else {
            output_line_spec(line@)
        }),
{
    let rest = slice_bytes(line, tag_len, line.len());
    assert(rest@ =~= line@.skip(tag_len as int));
    let space: Vec<u8> = vec![32u8];
    assert(space@ =~= seq![32u8]);
    proof {
        assert(rest@.skip(0) =~= rest@);
    }
    let sp = match find_bytes(rest.as_slice(), space.as_slice(), 0) {
        Some(sp) => sp,
        None => return None,
    };
    proof {
        lemma_find_from_bounds(rest@, seq![32u8], 0);
    }
    let head = slice_bytes(rest.as_slice(), 0, sp);
    assert(head@ =~= rest@.take(sp as int));
    let pane = match pane_of_token(head.as_slice()) {
        Some(p) => p,
        None => return None,
    };
    let from = if extended {
        let sep = " : ".as_bytes();
        match find_bytes(rest.as_slice(), sep, 0) {
            Some(c) => {
                proof {
                    lemma_find_from_bounds(rest@, sep@, 0);
                }
                c + sep.len()
            },
            None => return None,
        }
    } else {
        sp + 1
    };
    let payload = slice_bytes(rest.as_slice(), from, rest.len());
    assert(payload@ =~= rest@.skip(from as int));
    Some(ControlEvent::Output { pane, data: decode_octal(payload.as_slice()) })
}

fn block_number(line: &[u8]) -> (r: Option<u64>)
    ensures
        r == block_number_spec(line@),
{
    let t = match utf8_strict(line) {
        Some(t) => t,
        None => return None,
    };
    let pieces = split_on(&t, ' ');
    if pieces.len() > 2 {
        assert(pieces@.map_values(|l: Vec<char>| l@)[2] == pieces@[2]@);
        parse_uint_chars(&pieces[2], 18446744073709551615u64)
    } else {
        None
    }
}

fn uint_word_or_zero(pieces: &Vec<Vec<char>>, i: usize, max: u64, Ghost(args): Ghost<Seq<char>>) -> (r: u64)
    requires
        pieces@.map_values(|l: Vec<char>| l@) == split_char(args, ' '),
    ensures
        r as nat == uint_or_zero(piece(args, i as int), max as nat),
{
    let p = piece_at(pieces, i);
    if i < pieces.len() {
        assert(pieces@.map_values(|l: Vec<char>| l@)[i as int] == pieces@[i as int]@);
    }
    match parse_uint_chars(&p, max) {
        Some(v) => v,
        None => 0,
    }
}

impl ControlParser {
    pub fn new() -> (p: Self)
        ensures
            p@ == (ParserState { buf: seq![], block: None, exited: false }),
    {
        ControlParser { buf: Vec::new(), block: None, exited: false }
    }

    /// True once `%exit` has been seen.
    pub fn exited(&self) -> (r: bool)
        ensures
            r == self@.exited,
    {
        self.exited
    }

    fn parse_line(&mut self, line: &[u8]) -> (r: Option<ControlEvent>)
        ensures
            ({
                let p = parse_line_spec(block_view(old(self).block), old(self).exited, line@);
                &&& block_view(final(self).block) == p.0
                &&& final(self).exited == p.1
                &&& opt_event_view(r) == p.2
                &&& final(self).buf == old(self).buf
            }),
    {
        let end_tag = "%end ".as_bytes();
        let error_tag = "%error ".as_bytes();
        let has_block = self.block.is_some();
        if has_block {
            let is_end = matches_at_bytes(line, 0, end_tag);
            let is_error = matches_at_bytes(line, 0, error_tag);
            let number = block_number(line);
            let open = self.block.take();
            match open {
                Some(mut b) => {
                    if (is_end || is_error) && number == Some(b.number) {
                        return Some(ControlEvent::Reply {
                            number: b.number,
                            from_client: b.from_client,
                            ok: is_end,
                            lines: b.lines,
                        });
                    }
                    let text = utf8_lossy_chars(line);
                    let ghost before = b.lines@;
                    b.lines.push(string_of(&text));
                    assert(strings_view(b.lines@) =~= strings_view(before).push(lossy_text(line@)));
                    self.block = Some(b);
                    return None;
                },
                None => {
                    return None;
                },
            }
        }
        let out_tag = "%output ".as_bytes();
        let ext_tag = "%extended-output ".as_bytes();
        if matches_at_bytes(line, 0, out_tag) {
            return output_event(line, out_tag.len(), false);
        }
        if matches_at_bytes(line, 0, ext_tag) {
            return output_event(line, ext_tag.len(), true);
        }
        let t = utf8_lossy_chars(line);
        let (name, args) = match after_space(&t) {
            Some(a) => {
                let k = match index_of_from(&t, ' ', 0) {
                    Some(k) => k,
                    None => 0,
                };
                proof {
                    assert(t@.skip(0) =~= t@);
                }
                (slice_chars(&t, 0, k), a)
            },
            None => (slice_chars(&t, 0, t.len()), Vec::new()),
        };
        proof {
            assert(t@.skip(0) =~= t@);
            assert(t@.subrange(0, t@.len() as int) =~= t@);
            lemma_index_of(t@, ' ');
        }
        assert(name@ == first_word(t@));
        assert(args@ == after_space_or(t@, seq![]));
        if eq_str(&name, "%begin") {
            let pieces = split_on(&args, ' ');
            let number = uint_word_or_zero(&pieces, 1, 18446744073709551615u64, Ghost(args@));
            let flags = uint_word_or_zero(&pieces, 2, 4294967295u64, Ghost(args@));
            self.block = Some(OpenBlock { number, from_client: flags % 2 == 1, lines: Vec::new() });
            assert(strings_view(Seq::<String>::empty()) =~= Seq::<Seq<char>>::empty());
            return None;
        }
        if eq_str(&name, "%exit") {
            self.exited = true;
            let reason = if args.len() == 0 {
                None
            } else {
                Some(string_of(&args))
            };
            return Some(ControlEvent::Exit { reason });
        }
        notification(&name, &args, &t)
    }
}


proof fn lemma_run_step(block: Option<OpenBlockView>, exited: bool, all: Seq<u8>, start: int, k: int)
    requires
        !exited,
        0 <= start <= k < all.len(),
        find_from(all, seq![10u8], start) == Some(k),
    ensures
        ({
            let r1 = parse_line_spec(block, exited, line_bytes(all.subrange(start, k)));
            let r2 = run_lines(r1.0, r1.1, all.skip(k + 1));
            run_lines(block, exited, all.skip(start)) == RunView {
                block: r2.block,
                exited: r2.exited,
                events: opt_seq(r1.2) + r2.events,
                rest: r2.rest,
            }
        }),
{
    let rest = all.skip(start);
    lemma_find_from_skip(all, seq![10u8], start, 0);
    assert(find(rest, seq![10u8]) == Some(k - start));
    assert(rest.take(k - start) =~= all.subrange(start, k));
    assert(rest.skip(k - start + 1) =~= all.skip(k + 1));
}

proof fn lemma_run_stop(block: Option<OpenBlockView>, exited: bool, all: Seq<u8>, start: int)
    requires
        0 <= start <= all.len(),
        exited || find_from(all, seq![10u8], start) is None,
    ensures
        run_lines(block, exited, all.skip(start)) == (RunView {
            block,
            exited,
            events: seq![],
            rest: all.skip(start),
        }),
{
    if !exited {
        lemma_find_from_skip(all, seq![10u8], start, 0);
    }
}

impl ControlParser {
    /// Feeds a chunk of the control-mode stream.
    #[verifier::rlimit(40)]
    pub fn feed(&mut self, bytes: &[u8]) -> (r: FeedResult)
        ensures
            ({
                let f = feed_spec(old(self)@, bytes@);
                &&& final(self)@ == f.state
                &&& events_view(r.events@) == f.events
                &&& opt_bytes(r.trailing) == f.trailing
            }),
    {
        let ghost st0 = self@;
        let mut data: Vec<u8> = Vec::new();
        std::mem::swap(&mut data, &mut self.buf);
        let mut i: usize = 0;
        while i < bytes.len()
            invariant
                i <= bytes@.len(),
                data@ == st0.buf + bytes@.take(i as int),
            decreases bytes@.len() - i,
        {
            data.push(bytes[i]);
            i = i + 1;
            assert(data@ =~= st0.buf + bytes@.take(i as int));
        }
        assert(bytes@.take(bytes@.len() as int) =~= bytes@);
        let ghost all = data@;
        let nl: Vec<u8> = vec![10u8];
        assert(nl@ =~= seq![10u8]);
        let mut events: Vec<ControlEvent> = Vec::new();
        let mut start: usize = 0;
        assert(all.skip(0) =~= all);
        assert(events_view(events@) + run_lines(st0.block, st0.exited, all).events =~= run_lines(
            st0.block,
            st0.exited,
            all,
        ).events);
        loop
            invariant
                data@ == all,
                nl@ == seq![10u8],
                start <= data@.len(),
                ({
                    let whole = run_lines(st0.block, st0.exited, all);
                    let now = run_lines(block_view(self.block), self.exited, all.skip(start as int));
                    &&& whole.block == now.block
                    &&& whole.exited == now.exited
                    &&& whole.rest == now.rest
                    &&& whole.events == events_view(events@) + now.events
                }),
            ensures
                data@ == all,
                start <= data@.len(),
                ({
                    let whole = run_lines(st0.block, st0.exited, all);
                    let now = run_lines(block_view(self.block), self.exited, all.skip(start as int));
                    &&& whole.block == now.block
                    &&& whole.exited == now.exited
                    &&& whole.rest == now.rest
                    &&& whole.events == events_view(events@) + now.events
                    &&& now.block == block_view(self.block)
                    &&& now.exited == self.exited
                    &&& now.events == Seq::<ControlEventView>::empty()
                    &&& now.rest == all.skip(start as int)
                }),
            decreases data@.len() - start,
        {
            if self.exited {
                proof {
                    lemma_run_stop(block_view(self.block), self.exited, all, start as int);
                }
                break;
            }
            let found = find_bytes(data.as_slice(), nl.as_slice(), start);
            proof {
                lemma_find_from_bounds(all, seq![10u8], start as int);
            }
            match found {
                None => {
                    proof {
                        lemma_run_stop(block_view(self.block), self.exited, all, start as int);
                    }
                    break;
                },
                Some(k) => {
                    assert(k + 1 <= all.len());
                    assert(k < data.len());
                    let mut end = k;
                    if end > start && data[end - 1] == 13 {
                        end = end - 1;
                    }
                    let line = slice_bytes(data.as_slice(), start, end);
                    assert(line@ =~= line_bytes(all.subrange(start as int, k as int)));
                    proof {
                        lemma_run_step(block_view(self.block), self.exited, all, start as int, k as int);
                    }
                    let ghost old_events = events@;
                    let ev = self.parse_line(line.as_slice());
                    match ev {
                        Some(e) => {
                            events.push(e);
                        },
                        None => {},
                    }
                    assert(events_view(events@) =~= events_view(old_events) + opt_seq(
                        opt_event_view(ev),
                    ));
                    start = k + 1;
                    let ghost now = run_lines(block_view(self.block), self.exited, all.skip(start as int));
                    assert(events_view(events@) + now.events =~= events_view(old_events) + (
                    opt_seq(opt_event_view(ev)) + now.events));
                },
            }
        }
        let ghost whole = run_lines(st0.block, st0.exited, all);
        assert(whole.rest == all.skip(start as int));
        assert(whole.events =~= events_view(events@));
        let mut trailing: Option<Vec<u8>> = None;
        if self.exited && data.len() - start >= 2 {
            let skip: usize = if data[start] == 27 && data[start + 1] == 92 {
                2
            } else {
                0
            };
            let t = slice_bytes(data.as_slice(), start + skip, data.len());
            assert(t@ =~= whole.rest.skip(skip as int));
            trailing = Some(t);
            self.buf = Vec::new();
        } else {
            let rest = slice_bytes(data.as_slice(), start, data.len());
            assert(rest@ =~= whole.rest);
            self.buf = rest;
        }
        FeedResult { events, trailing }
    }
}


impl Default for ControlParser {
    fn default() -> (p: Self)
        ensures
            p@ == (ParserState { buf: seq![], block: None, exited: false }),
    {
        ControlParser::new()
    }
}

// ---------------------------------------------------------------------------
// Detecting the start of in-band control mode
// ---------------------------------------------------------------------------

/// `ESC P 1000 p`, which `tmux -CC` prints when it enters control mode.
pub open spec fn dcs() -> Seq<u8> {
    seq![27u8, 80u8, 49u8, 48u8, 48u8, 48u8, 112u8]
}

/// `ESC P 1000 p`, which `tmux -CC` prints when it enters control mode.
pub fn control_mode_dcs() -> (r: Vec<u8>)
    ensures
        r@ == dcs(),
{
    let r: Vec<u8> = vec![27u8, 80u8, 49u8, 48u8, 48u8, 48u8, 112u8];
    assert(r@ =~= dcs());
    r
}

/// The last `k` bytes of `data` are the first `k` bytes of the sequence.
pub open spec fn ends_with_dcs_prefix(data: Seq<u8>, k: int) -> bool {
    0 <= k <= data.len() && k <= dcs().len() && data.skip(data.len() - k) == dcs().take(k)
}

/// The longest `j <= k` such that `data` ends with the first `j` bytes of the sequence.
pub open spec fn held_len_upto(data: Seq<u8>, k: int) -> int
    decreases k,
{
    if k <= 0 {
        0
    } else if ends_with_dcs_prefix(data, k) {
        k
    } else {
        held_len_upto(data, k - 1)
    }
}

/// How many trailing bytes of `data` are held back: the longest proper
/// prefix of the sequence that `data` ends with.
pub open spec fn held_len(data: Seq<u8>) -> int {
    held_len_upto(data, if data.len() < 6 { data.len() as int } else { 6 })
}

/// The mathematical value of a [`Detect`].
pub enum DetectView {
    Passthrough(Seq<u8>),
    Started { before: Seq<u8>, after: Seq<u8> },
}

/// What feeding `bytes` with `held` bytes held back yields: the outcome and the new hold.
pub open spec fn dcs_feed_spec(held: Seq<u8>, bytes: Seq<u8>) -> (DetectView, Seq<u8>) {
    let data = held + bytes;
    match find(data, dcs()) {
        Some(pos) => (DetectView::Started { before: data.take(pos), after: data.skip(pos + 7) }, seq![]),
        None => {
            let k = held_len(data);
            (DetectView::Passthrough(data.take(data.len() - k)), data.skip(data.len() - k))
        },
    }
}

/// Detects the `ESC P 1000 p` sequence that `tmux -CC` prints when it enters
/// control mode inside a terminal. Holds back a possible partial match at the
/// end of a chunk so the sequence is found even when split across reads.
pub struct DcsDetector {
    held: Vec<u8>,
}

impl View for DcsDetector {
    type V = Seq<u8>;

    closed spec fn view(&self) -> Seq<u8> {
        self.held@
    }
}

pub enum Detect {
    /// No control mode start: forward these bytes to the terminal.
    Passthrough(Vec<u8>),
    /// Control mode started: `before` goes to the terminal, `after` to the parser.
    Started { before: Vec<u8>, after: Vec<u8> },
}

impl View for Detect {
    type V = DetectView;

    open spec fn view(&self) -> DetectView {
        match self {
            Detect::Passthrough(b) => DetectView::Passthrough(b@),
            Detect::Started { before, after } => DetectView::Started { before: before@, after: after@ },
        }
    }
}

proof fn lemma_held_len_upto(data: Seq<u8>, k: int)
    requires
        0 <= k <= data.len(),
        k <= 6,
    ensures
        0 <= held_len_upto(data, k) <= k,
        held_len_upto(data, k) > 0 ==> ends_with_dcs_prefix(data, held_len_upto(data, k)),
        forall|j: int| held_len_upto(data, k) < j <= k ==> !ends_with_dcs_prefix(data, j),
    decreases k,
{
    if k > 0 && !ends_with_dcs_prefix(data, k) {
        lemma_held_len_upto(data, k - 1);
    }
}

fn held_count(data: &Vec<u8>, d: &Vec<u8>) -> (k: usize)
    requires
        d@ == dcs(),
    ensures
        k == held_len(data@),
        k <= data@.len(),
{
    let max: usize = if data.len() < 6 {
        data.len()
    } else {
        6
    };
    let mut k: usize = max;
    while k > 0
        invariant
            k <= max,
            max <= data@.len(),
            max <= 6,
            d@ == dcs(),
            held_len(data@) == held_len_upto(data@, k as int),
        decreases k,
    {
        let prefix = slice_bytes(d.as_slice(), 0, k);
        if matches_at_bytes(data.as_slice(), data.len() - k, prefix.as_slice()) {
            assert(data@.subrange(data.len() - k, data.len() - k + prefix@.len()) =~= data@.skip(
                data.len() - k,
            ));
            assert(prefix@ =~= dcs().take(k as int));
            return k;
        }
        assert(!ends_with_dcs_prefix(data@, k as int)) by {
            if ends_with_dcs_prefix(data@, k as int) {
                assert(data@.subrange(data.len() - k, data.len() - k + prefix@.len()) =~= data@.skip(
                    data.len() - k,
                ));
                assert(prefix@ =~= dcs().take(k as int));
            }
        }
        k = k - 1;
    }
    0
}

impl DcsDetector {
    pub fn new() -> (d: Self)
        ensures
            d@ == Seq::<u8>::empty(),
    {
        DcsDetector { held: Vec::new() }
    }

    pub fn feed(&mut self, bytes: &[u8]) -> (r: Detect)
        ensures
            (r@, final(self)@) == dcs_feed_spec(old(self)@, bytes@),
    {
        let ghost held0 = self@;
        let mut data: Vec<u8> = Vec::new();
        std::mem::swap(&mut data, &mut self.held);
        let mut i: usize = 0;
        while i < bytes.len()
            invariant
                i <= bytes@.len(),
                data@ == held0 + bytes@.take(i as int),
            decreases bytes@.len() - i,
        {
            data.push(bytes[i]);
            i = i + 1;
            assert(data@ =~= held0 + bytes@.take(i as int));
        }
        assert(bytes@.take(bytes@.len() as int) =~= bytes@);
        let d = control_mode_dcs();
        match find_bytes(data.as_slice(), d.as_slice(), 0) {
            Some(pos) => {
                assert(d@ == dcs());
                proof {
                    lemma_find_from_bounds(data@, dcs(), 0);
                }
                let n = data.len();
                assert(pos + 7 <= n);
                let after = slice_bytes(data.as_slice(), pos + 7, n);
                let before = slice_bytes(data.as_slice(), 0, pos);
                assert(before@ =~= data@.take(pos as int));
                assert(after@ =~= data@.skip(pos + 7));
                return Detect::Started { before, after };
            },
            None => {},
        }
        let k = held_count(&data, &d);
        assert(held_len(data@) == k);
        let len = data.len();
        let held = slice_bytes(data.as_slice(), len - k, len);
        let pass = slice_bytes(data.as_slice(), 0, len - k);
        assert(pass@ =~= data@.take(len - k));
        assert(held@ =~= data@.skip(len - k));
        self.held = held;
        Detect::Passthrough(pass)
    }
}

impl Default for DcsDetector {
    fn default() -> (d: Self)
        ensures
            d@ == Seq::<u8>::empty(),
    {
        DcsDetector::new()
    }
}


proof fn lemma_held_len_char(x: Seq<u8>)
    ensures
        0 <= held_len(x) <= 6,
        held_len(x) <= x.len(),
        ends_with_dcs_prefix(x, held_len(x)),
        forall|j: int| held_len(x) < j <= 6 ==> !ends_with_dcs_prefix(x, j),
{
    let m: int = if x.len() < 6 { x.len() as int } else { 6 };
    lemma_held_len_upto(x, m);
    if held_len(x) == 0 {
        assert(x.skip(x.len() as int) =~= dcs().take(0));
    }
}

proof fn lemma_held_len_eq(x: Seq<u8>, y: Seq<u8>)
    requires
        forall|j: int| 1 <= j <= 6 ==> ends_with_dcs_prefix(x, j) == ends_with_dcs_prefix(y, j),
    ensures
        held_len(x) == held_len(y),
{
    lemma_held_len_char(x);
    lemma_held_len_char(y);
    let hx = held_len(x);
    let hy = held_len(y);
    if hx > 0 {
        assert(ends_with_dcs_prefix(y, hx));
    }
    if hy > 0 {
        assert(ends_with_dcs_prefix(x, hy));
    }
}

proof fn lemma_no_early_match(d: Seq<u8>, b: Seq<u8>)
    requires
        find(d, dcs()) is None,
    ensures
        forall|j: int|
            0 <= j < d.len() - held_len(d) ==> !#[trigger] matches_at(d + b, j, dcs()),
{
    let e = d + b;
    lemma_held_len_char(d);
    lemma_find_from_bounds(d, dcs(), 0);
    let off = d.len() - held_len(d);
    assert forall|j: int| 0 <= j < off implies !#[trigger] matches_at(e, j, dcs()) by {
        if matches_at(e, j, dcs()) {
            if j + 7 <= d.len() {
                assert(e.subrange(j, j + 7) =~= d.subrange(j, j + 7));
                assert(matches_at(d, j, dcs()));
            } else {
                let m = d.len() - j;
                assert(d.skip(d.len() - m) =~= e.subrange(j, j + 7).take(m));
                assert(ends_with_dcs_prefix(d, m));
            }
        }
    }
}

proof fn lemma_find_shift(e: Seq<u8>, off: int)
    requires
        0 <= off <= e.len(),
        forall|j: int| 0 <= j < off ==> !#[trigger] matches_at(e, j, dcs()),
    ensures
        find(e, dcs()) == (match find(e.skip(off), dcs()) {
            Some(q) => Some(q + off),
            None => None::<int>,
        }),
{
    lemma_find_from_skip(e, dcs(), off, 0);
    lemma_find_from_bounds(e, dcs(), 0);
    lemma_find_from_bounds(e, dcs(), off);
    match find(e, dcs()) {
        Some(p) => {
            assert(p >= off);
        },
        None => {},
    }
    if find(e, dcs()) is None {
        assert(find_from(e, dcs(), off) is None);
    } else {
        assert(find_from(e, dcs(), off) == find(e, dcs()));
    }
}

proof fn lemma_tail_hold(d: Seq<u8>, b: Seq<u8>)
    requires
        find(d, dcs()) is None,
    ensures
        held_len(d + b) == held_len((d + b).skip(d.len() - held_len(d))),
{
    let e = d + b;
    lemma_held_len_char(d);
    let off = d.len() - held_len(d);
    let t = e.skip(off);
    assert forall|j: int| 1 <= j <= 6 implies ends_with_dcs_prefix(e, j) == ends_with_dcs_prefix(
        t,
        j,
    ) by {
        if j <= t.len() {
            assert(e.skip(e.len() - j) =~= t.skip(t.len() - j));
        } else if ends_with_dcs_prefix(e, j) {
            let m = j - b.len();
            assert(d.skip(d.len() - m) =~= e.skip(e.len() - j).take(m));
            assert(dcs().take(j).take(m) =~= dcs().take(m));
            assert(ends_with_dcs_prefix(d, m));
        }
    }
    lemma_held_len_eq(e, t);
}

/// A control-mode start split across two reads is found all the same: feeding
/// `a` and then `b` hands the terminal the same bytes, in the same order, and
/// the parser the same bytes, as feeding `a + b` at once.
pub proof fn lemma_dcs_split(held: Seq<u8>, a: Seq<u8>, b: Seq<u8>)
    requires
        find(held + a, dcs()) is None,
    ensures
        ({
            let (r1, h1) = dcs_feed_spec(held, a);
            let (r2, h2) = dcs_feed_spec(h1, b);
            let (r, h) = dcs_feed_spec(held, a + b);
            &&& r1 is Passthrough
            &&& r is Started ==> r2 is Started && r->before == r1->Passthrough_0 + r2->before
                && r->after == r2->after
            &&& r is Passthrough ==> r2 is Passthrough && r->Passthrough_0 == r1->Passthrough_0
                + r2->Passthrough_0 && h == h2
        }),
{
    let d = held + a;
    let e = d + b;
    assert(held + (a + b) =~= e);
    lemma_held_len_char(d);
    let k = held_len(d);
    let off = d.len() - k;
    let p1 = d.take(off);
    let t = e.skip(off);
    assert(d.skip(off) + b =~= t);
    lemma_no_early_match(d, b);
    lemma_find_shift(e, off);
    lemma_find_from_bounds(t, dcs(), 0);
    lemma_find_from_bounds(e, dcs(), 0);
    lemma_held_len_char(t);
    match find(e, dcs()) {
        Some(pos) => {
            assert(e.take(pos) =~= p1 + t.take(pos - off));
            assert(e.skip(pos + 7) =~= t.skip(pos - off + 7));
        },
        None => {
            lemma_tail_hold(d, b);
            let k2 = held_len(e);
            lemma_held_len_char(e);
            assert(e.take(e.len() - k2) =~= p1 + t.take(t.len() - k2));
            assert(e.skip(e.len() - k2) =~= t.skip(t.len() - k2));
        },
    }
}

/// What feeding the reads `xs` one after another does, from `held` held back:
/// the bytes passed through, and, once the sequence has been seen, the bytes
/// after it in that read and the reads not yet fed.
pub struct DcsRunView {
    pub passed: Seq<u8>,
    pub started: Option<Seq<u8>>,
    pub left: Seq<Seq<u8>>,
    pub held: Seq<u8>,
}

pub open spec fn dcs_run(held: Seq<u8>, xs: Seq<Seq<u8>>) -> DcsRunView
    decreases xs.len(),
{
    if xs.len() == 0 {
        DcsRunView { passed: seq![], started: None, left: seq![], held }
    } else {
        let (r, h) = dcs_feed_spec(held, xs[0]);
        match r {
            DetectView::Passthrough(p) => {
                let rest = dcs_run(h, xs.drop_first());
                DcsRunView { passed: p + rest.passed, ..rest }
            },
            DetectView::Started { before, after } => DcsRunView {
                passed: before,
                started: Some(after),
                left: xs.drop_first(),
                held: seq![],
            },
        }
    }
}

/// However the output is cut into reads, the detector finds what one read of
/// all of it would find. Without the sequence, the reads are passed through
/// in order but for the longest proper prefix of the sequence that they end
/// with, which is held back. With it, everything before its first
/// occurrence is passed through, and the read that completes it hands over
/// what follows it there, the later reads making up the rest.
pub proof fn lemma_dcs_reads(held: Seq<u8>, xs: Seq<Seq<u8>>)
    requires
        held.len() <= 6,
        held == dcs().take(held.len() as int),
    ensures
        ({
            let run = dcs_run(held, xs);
            let (r, h) = dcs_feed_spec(held, flatten(xs));
            &&& r is Passthrough ==> run.started is None && run.passed == r->Passthrough_0
                && run.held == h
            &&& r is Started ==> run.started is Some && run.passed == r->before
                && run.started->0 + flatten(run.left) == r->after
        }),
    decreases xs.len(),
{
    if xs.len() == 0 {
        let d = held + flatten(xs);
        assert(d =~= held);
        assert(find(held, dcs()) is None);
        lemma_held_len_char(held);
        assert(held.skip(0) =~= held);
        assert(ends_with_dcs_prefix(held, held.len() as int));
        assert(held.take(0) =~= Seq::<u8>::empty());
    } else {
        let x0 = xs[0];
        let f = flatten(xs.drop_first());
        assert(flatten(xs) == x0 + f);
        let d = held + x0;
        assert(held + (x0 + f) =~= d + f);
        lemma_find_from_bounds(d, dcs(), 0);
        match find(d, dcs()) {
            Some(pos) => {
                lemma_find_from_extend(d, f, dcs(), 0);
                assert((d + f).take(pos) =~= d.take(pos));
                assert((d + f).skip(pos + 7) =~= d.skip(pos + 7) + f);
            },
            None => {
                lemma_dcs_split(held, x0, f);
                let (r1, h1) = dcs_feed_spec(held, x0);
                lemma_held_len_char(d);
                assert(h1 =~= dcs().take(h1.len() as int));
                lemma_dcs_reads(h1, xs.drop_first());
            },
        }
    }
}

// ---------------------------------------------------------------------------
// Laws of the notifications
// ---------------------------------------------------------------------------

/// No byte of the UTF-8 encoding of a character other than the ASCII
/// character `v` is `v`.
proof fn lemma_scalar_bytes_not(s: u32, v: u8)
    requires
        vstd::utf8::is_scalar(s),
        v < 128,
        s != v as u32,
    ensures
        forall|i: int| 0 <= i < vstd::utf8::encode_scalar(s).len() ==> vstd::utf8::encode_scalar(s)[i] != v,
{
    let e = vstd::utf8::encode_scalar(s);
    if vstd::utf8::has_width_1_encoding(s) {
        assert((s & 0x7F) as u8 != v) by (bit_vector)
            requires
                s <= 0x7F,
                v < 128,
                s != v as u32,
        ;
    } else {
        assert((0x80u8 | (s & 0x3F) as u8) != v) by (bit_vector)
            requires
                v < 128,
        ;
        assert((0x80u8 | ((s >> 6) & 0x3F) as u8) != v) by (bit_vector)
            requires
                v < 128,
        ;
        assert((0x80u8 | ((s >> 12) & 0x3F) as u8) != v) by (bit_vector)
            requires
                v < 128,
        ;
        assert((0xC0u8 | ((s >> 6) & 0x1F) as u8) != v) by (bit_vector)
            requires
                v < 128,
        ;
        assert((0xE0u8 | ((s >> 12) & 0x0F) as u8) != v) by (bit_vector)
            requires
                v < 128,
        ;
        assert((0xF0u8 | ((s >> 18) & 0x7) as u8) != v) by (bit_vector)
            requires
                v < 128,
        ;
    }
}

/// The UTF-8 encoding of a text without the ASCII character `c` holds no byte `c`.
proof fn lemma_encode_without(t: Seq<char>, c: char)
    requires
        (c as u32) < 128,
        forall|j: int| 0 <= j < t.len() ==> t[j] != c,
    ensures
        forall|i: int| 0 <= i < vstd::utf8::encode_utf8(t).len() ==> vstd::utf8::encode_utf8(t)[i] as u32 != c as u32,
    decreases t.len(),
{
    if t.len() > 0 {
        let v = c as u32 as u8;
        assert(v as u32 == c as u32);
        vstd::utf8::char_is_scalar(t[0]);
        if t[0] as u32 == c as u32 {
            vstd::utf8::char_u32_cast(t[0], c as u32);
            vstd::utf8::char_u32_cast(c, c as u32);
        }
        lemma_scalar_bytes_not(t[0] as u32, v);
        lemma_encode_without(t.drop_first(), c);
        let e0 = vstd::utf8::encode_scalar(t[0] as u32);
        let er = vstd::utf8::encode_utf8(t.drop_first());
        assert(vstd::utf8::encode_utf8(t) == e0 + er);
        assert forall|i: int| 0 <= i < (e0 + er).len() implies (e0 + er)[i] as u32 != c as u32 by {
            if i < e0.len() {
                assert((e0 + er)[i] == e0[i]);
            } else {
                assert((e0 + er)[i] == er[i - e0.len()]);
            }
        }
    }
}

/// The first two bytes of the encoding of a text that starts with two ASCII characters.
proof fn lemma_encode_two_ascii(t: Seq<char>)
    requires
        t.len() >= 2,
        (t[0] as u32) < 128,
        (t[1] as u32) < 128,
    ensures
        vstd::utf8::encode_utf8(t).len() >= 2,
        vstd::utf8::encode_utf8(t)[0] as u32 == t[0] as u32,
        vstd::utf8::encode_utf8(t)[1] as u32 == t[1] as u32,
{
    let a = t[0] as u32;
    let b = t[1] as u32;
    assert((a & 0x7F) as u8 as u32 == a) by (bit_vector)
        requires
            a < 128,
    ;
    assert((b & 0x7F) as u8 as u32 == b) by (bit_vector)
        requires
            b < 128,
    ;
    let r = t.drop_first();
    assert(r[0] == t[1]);
    assert(vstd::utf8::encode_utf8(t) == vstd::utf8::encode_scalar(a) + vstd::utf8::encode_utf8(r));
    assert(vstd::utf8::encode_utf8(r) == vstd::utf8::encode_scalar(b) + vstd::utf8::encode_utf8(
        r.drop_first(),
    ));
}

/// The text of a `%session-renamed $<id> <name>` line names that session `<name>`.
proof fn lemma_session_renamed_text(id: Seq<char>, name: Seq<char>)
    requires
        forall|j: int| 0 <= j < id.len() ==> id[j] != ' ',
    ensures
        ({
            let t = "%session-renamed $"@ + id + " "@ + name;
            notification_spec(first_word(t), after_space_or(t, seq![]), t) == Some(
                ControlEventView::SessionRenamed { name },
            ) && first_word(t) != "%begin"@ && first_word(t) != "%exit"@
        }),
{
    reveal_strlit("%session-renamed $");
    reveal_strlit("%session-renamed");
    reveal_strlit(" ");
    reveal_strlit("%begin");
    reveal_strlit("%exit");
    reveal_strlit("%layout-change");
    reveal_strlit("%window-add");
    reveal_strlit("%window-close");
    reveal_strlit("%unlinked-window-close");
    reveal_strlit("%window-renamed");
    reveal_strlit("%window-pane-changed");
    reveal_strlit("%session-changed");
    let pre = "%session-renamed $"@;
    let t = pre + id + " "@ + name;
    assert(pre.len() == 18);
    let k = 16int;
    assert forall|j: int| 0 <= j < k implies t[j] != ' ' by {
        assert(t[j] == pre[j]);
    }
    assert(t[k] == ' ');
    lemma_index_of_at(t, ' ', k);
    assert(first_word(t) =~= "%session-renamed"@);
    let args = after_space_or(t, seq![]);
    assert(args =~= seq!['$'] + id + " "@ + name);
    let m: int = 1 + id.len() as int;
    assert forall|j: int| 0 <= j < m implies args[j] != ' ' by {
        if j > 0 {
            assert(args[j] == id[j - 1]);
        }
    }
    assert(args[m] == ' ');
    lemma_index_of_at(args, ' ', m);
    assert(after_space_or(args, args) =~= name);
    assert(first_word(t) != "%layout-change"@ && first_word(t) != "%window-add"@);
    assert(first_word(t) != "%window-close"@ && first_word(t) != "%unlinked-window-close"@);
    assert(first_word(t) != "%window-renamed"@ && first_word(t) != "%window-pane-changed"@);
    assert(first_word(t)[9] == 'r' && "%session-changed"@[9] == 'c');
    assert(first_word(t) != "%session-changed"@);
    assert(first_word(t) != "%begin"@ && first_word(t) != "%exit"@);
}

/// A `%session-renamed $<id> <name>` line from a fresh parser is one event
/// that renames the session to `<name>`: the session id is never part of the
/// name, whatever the name holds on its line.
#[verifier::spinoff_prover]
pub proof fn lemma_session_renamed(id: Seq<char>, name: Seq<char>)
    requires
        forall|j: int| 0 <= j < id.len() ==> id[j] != ' ' && id[j] != '\n' && id[j] != '\r',
        forall|j: int| 0 <= j < name.len() ==> name[j] != '\n' && name[j] != '\r',
    ensures
        feed_spec(
            ParserState { buf: seq![], block: None, exited: false },
            vstd::utf8::encode_utf8("%session-renamed $"@ + id + " "@ + name) + seq![10u8],
        ).events == seq![ControlEventView::SessionRenamed { name }],
{
    reveal_strlit("%session-renamed $");
    reveal_strlit(" ");
    reveal_strlit("%output ");
    reveal_strlit("%extended-output ");
    let pre = "%session-renamed $"@;
    let t = pre + id + " "@ + name;
    let n = t.len();
    assert(pre.len() == 18);
    assert(t[0] == '%' && t[1] == 's');
    assert forall|j: int| 0 <= j < n implies t[j] != '\n' && t[j] != '\r' by {
        if j < 18 {
            assert(t[j] == pre[j]);
        } else if j < 18 + id.len() {
            assert(t[j] == id[j - 18]);
        } else if j == 18 + id.len() {
        } else {
            assert(t[j] == name[j - 19 - id.len()]);
        }
    }
    // the bytes of the line
    let line = vstd::utf8::encode_utf8(t);
    lemma_encode_without(t, '\n');
    lemma_encode_without(t, '\r');
    lemma_encode_two_ascii(t);
    let data = line + seq![10u8];
    assert(data[line.len() as int] == 10u8);
    assert forall|i: int| 0 <= i < line.len() implies data[i] != 10u8 by {
        assert(data[i] == line[i]);
    }
    lemma_find_nl_at(data, line.len() as int, 0);
    assert(data.take(line.len() as int) =~= line);
    assert(line.len() > 0 && line.last() != 13u8);
    assert(line_bytes(line) == line);
    // not output lines
    let out_tag = bytes_of("%output "@);
    let ext_tag = bytes_of("%extended-output "@);
    lemma_encode_two_ascii("%output "@);
    lemma_encode_two_ascii("%extended-output "@);
    assert(!matches_at(line, 0, out_tag)) by {
        if out_tag.len() <= line.len() {
            assert(line.subrange(0, out_tag.len() as int)[1] != out_tag[1]);
        }
    }
    assert(!matches_at(line, 0, ext_tag)) by {
        if ext_tag.len() <= line.len() {
            assert(line.subrange(0, ext_tag.len() as int)[1] != ext_tag[1]);
        }
    }
    // the text of the line
    vstd::utf8::encode_utf8_valid_utf8(t);
    vstd::utf8::encode_utf8_decode_utf8(t);
    assert(lossy_text(line) == t);
    lemma_session_renamed_text(id, name);
    let r1 = parse_line_spec(None, false, line);
    assert(r1 == (None::<OpenBlockView>, false, Some(ControlEventView::SessionRenamed { name })));
    // nothing after the line
    assert(data.skip(line.len() as int + 1) =~= Seq::<u8>::empty());
    assert(run_lines(None, false, Seq::<u8>::empty()).events =~= Seq::<ControlEventView>::empty());
    assert(Seq::<u8>::empty() + data =~= data);
}

} // verus!
