//! tmux control-mode connections: the frames sent to the frontend, the
//! command lines sent to tmux, and the probing of versions and sessions.
//!
//! Frame format towards the frontend:
//! * `[1][pane: u32 LE][bytes…]` — pane output
//! * `[2][json…]` — everything else, one [`Frame::Notice`] each
use vstd::prelude::*;
use std::collections::VecDeque;
use crate::text::{
    chars_of, string_of, slice_chars, push_str, push_dec, push_hex2, dec, hex2, trim, trim_chars,
    is_digit, parse_uint, parse_uint_chars, split_char, split_on, lines, lines_of, utf8_lossy,
    utf8_lossy_chars, matches_at, starts_with_str, flatten,
};
use crate::tmux_parser::{
    ControlEvent, ControlEventView, ControlParser, DcsDetector, Detect, DetectView, ParserState,
    events_view, feed_spec, dcs_feed_spec, opt_bytes, uint_or_zero, dcs, dcs_run, lemma_dcs_reads,
    feed_run, lemma_feed_reads,
};

verus! {

broadcast use vstd::string::group_string_axioms;

pub const FRAME_OUTPUT: u8 = 1;

pub const FRAME_JSON: u8 = 2;

/// Bytes per `send-keys -H` command.
pub const SEND_KEYS_CHUNK: usize = 256;

// ---------------------------------------------------------------------------
// Output frames
// ---------------------------------------------------------------------------

/// The four little-endian bytes of `v`.
pub open spec fn le_bytes(v: u32) -> Seq<u8> {
    seq![
        (v % 256) as u8,
        ((v / 256) % 256) as u8,
        ((v / 65536) % 256) as u8,
        ((v / 16777216) % 256) as u8,
    ]
}

pub open spec fn output_frame_spec(pane: u32, data: Seq<u8>) -> Seq<u8> {
    seq![FRAME_OUTPUT] + le_bytes(pane) + data
}

/// The frame carrying output of `pane`.
pub fn output_frame(pane: u32, data: &[u8]) -> (r: Vec<u8>)
    ensures
        r@ == output_frame_spec(pane, data@),
{
    let mut f: Vec<u8> = Vec::new();
    f.push(FRAME_OUTPUT);
    f.push((pane % 256) as u8);
    f.push(((pane / 256) % 256) as u8);
    f.push(((pane / 65536) % 256) as u8);
    f.push(((pane / 16777216) % 256) as u8);
    let mut i: usize = 0;
    while i < data.len()
        invariant
            i <= data@.len(),
            f@ == seq![FRAME_OUTPUT] + le_bytes(pane) + data@.take(i as int),
        decreases data@.len() - i,
    {
        f.push(data[i]);
        i = i + 1;
        assert(f@ =~= seq![FRAME_OUTPUT] + le_bytes(pane) + data@.take(i as int));
    }
    assert(data@.take(i as int) =~= data@);
    f
}

/// An output frame tells its pane and its bytes back: the pane is the
/// little-endian number in bytes 1 to 4, the data follows from byte 5.
pub proof fn lemma_output_frame_decodes(pane: u32, data: Seq<u8>)
    ensures
        ({
            let f = output_frame_spec(pane, data);
            &&& f[0] == FRAME_OUTPUT
            &&& f[1] + 256 * f[2] + 65536 * f[3] + 16777216 * f[4] == pane
            &&& f.skip(5) == data
        }),
{
    let f = output_frame_spec(pane, data);
    assert(f.skip(5) =~= data);
    let p = pane as int;
    assert(p % 256 + 256 * ((p / 256) % 256) + 65536 * ((p / 65536) % 256) + 16777216 * ((p
        / 16777216) % 256) == p) by (nonlinear_arith)
        requires
            0 <= p < 4294967296,
    ;
}

// ---------------------------------------------------------------------------
// Versions
// ---------------------------------------------------------------------------

/// The text after the last space of `t` (`rsplit(' ').next()`).
pub open spec fn last_word(t: Seq<char>) -> Seq<char>
    decreases t.len(),
{
    if t.len() == 0 {
        t
    } else if t.last() == ' ' {
        seq![]
    } else {
        last_word(t.drop_last()).push(t.last())
    }
}

/// `s` without its leading characters that are not ASCII digits.
pub open spec fn skip_non_digits(s: Seq<char>) -> Seq<char>
    decreases s.len(),
{
    if s.len() > 0 && !is_digit(s[0]) {
        skip_non_digits(s.drop_first())
    } else {
        s
    }
}

/// The ASCII digits that `s` starts with.
pub open spec fn digit_prefix(s: Seq<char>) -> Seq<char>
    decreases s.len(),
{
    if s.len() > 0 && is_digit(s[0]) {
        seq![s[0]] + digit_prefix(s.drop_first())
    } else {
        seq![]
    }
}

/// `tmux 3.4` is (3, 4); `next-3.5` and `3.5a` are read too; a build
/// without a number (`master`) has none.
pub open spec fn parse_version_spec(v: Seq<char>) -> Option<(u32, u32)> {
    let num = skip_non_digits(last_word(trim(v)));
    let parts = split_char(num, '.');
    match parse_uint(parts[0], u32::MAX as nat) {
        None => None,
        Some(major) => {
            let minor = if parts.len() > 1 {
                uint_or_zero(digit_prefix(parts[1]), u32::MAX as nat)
            } else {
                0
            };
            Some((major as u32, minor as u32))
        },
    }
}

fn last_word_chars(t: &Vec<char>) -> (r: Vec<char>)
    ensures
        r@ == last_word(t@),
{
    let n = t.len();
    let mut j = n;
    assert(t@.take(n as int) =~= t@);
    while j > 0 && t[j - 1] != ' '
        invariant
            j <= n == t@.len(),
            last_word(t@) == last_word(t@.take(j as int)) + t@.subrange(j as int, n as int),
        decreases j,
    {
        assert(t@.take(j as int).drop_last() =~= t@.take(j - 1));
        assert(t@.subrange(j - 1, n as int) =~= seq![t@[j - 1]] + t@.subrange(j as int, n as int));
        j = j - 1;
    }
    slice_chars(t, j, n)
}

fn skip_non_digit_chars(s: &Vec<char>) -> (r: Vec<char>)
    ensures
        r@ == skip_non_digits(s@),
{
    let n = s.len();
    let mut i: usize = 0;
    assert(s@.subrange(0, n as int) =~= s@);
    while i < n && !('0' <= s[i] && s[i] <= '9')
        invariant
            i <= n == s@.len(),
            skip_non_digits(s@) == skip_non_digits(s@.subrange(i as int, n as int)),
        decreases n - i,
    {
        assert(s@.subrange(i as int, n as int).drop_first() =~= s@.subrange(i + 1, n as int));
        i = i + 1;
    }
    slice_chars(s, i, n)
}

fn digit_prefix_chars(s: &Vec<char>) -> (r: Vec<char>)
    ensures
        r@ == digit_prefix(s@),
{
    let n = s.len();
    let mut i: usize = 0;
    assert(s@.subrange(0, n as int) =~= s@);
    while i < n && '0' <= s[i] && s[i] <= '9'
        invariant
            i <= n == s@.len(),
            digit_prefix(s@) == s@.take(i as int) + digit_prefix(s@.subrange(i as int, n as int)),
        decreases n - i,
    {
        assert(s@.subrange(i as int, n as int).drop_first() =~= s@.subrange(i + 1, n as int));
        assert(s@.take(i + 1) =~= s@.take(i as int) + seq![s@[i as int]]);
        i = i + 1;
    }
    slice_chars(s, 0, i)
}

/// `3.4` gives (3, 4); `next-3.5` and `3.5a` are handled; `master` gives `None`.
pub fn parse_version(v: &str) -> (r: Option<(u32, u32)>)
    ensures
        r == parse_version_spec(v@),
{
    let t = trim_chars(&chars_of(v));
    let w = last_word_chars(&t);
    let num = skip_non_digit_chars(&w);
    let parts = split_on(&num, '.');
    assert(split_char(num@, '.').len() >= 1);
    let ghost pv = parts@.map_values(|l: Vec<char>| l@);
    assert(pv[0] == parts@[0]@);
    let major = match parse_uint_chars(&parts[0], 4294967295u64) {
        Some(m) => m,
        None => return None,
    };
    let mut minor: u64 = 0;
    if parts.len() > 1 {
        assert(pv[1] == parts@[1]@);
        let d = digit_prefix_chars(&parts[1]);
        minor = match parse_uint_chars(&d, 4294967295u64) {
            Some(m) => m,
            None => 0,
        };
    }
    Some((major as u32, minor as u32))
}

/// tmux 3.2 introduced pause-after flow control; builds without a number are accepted.
pub open spec fn version_supported_spec(v: Seq<char>) -> bool {
    match parse_version_spec(v) {
        None => true,
        Some((major, minor)) => major > 3 || (major == 3 && minor >= 2),
    }
}

pub fn version_supported(v: &str) -> (r: bool)
    ensures
        r == version_supported_spec(v@),
{
    match parse_version(v) {
        None => true,
        Some((major, minor)) => major > 3 || (major == 3 && minor >= 2),
    }
}

// ---------------------------------------------------------------------------
// Keystrokes
// ---------------------------------------------------------------------------

/// ` xx` for every byte, in lower-case hexadecimal.
pub open spec fn hex_bytes(b: Seq<u8>) -> Seq<char>
    decreases b.len(),
{
    if b.len() == 0 {
        seq![]
    } else {
        hex_bytes(b.drop_last()) + seq![' '] + hex2(b.last())
    }
}

pub open spec fn send_keys_line(pane: u32, chunk: Seq<u8>) -> Seq<char> {
    "send-keys -H -t %"@ + dec(pane as nat) + hex_bytes(chunk)
}

/// One `send-keys -H` command per chunk of at most `SEND_KEYS_CHUNK` bytes.
pub open spec fn send_keys_spec(pane: u32, data: Seq<u8>) -> Seq<Seq<char>>
    decreases data.len(),
{
    if data.len() == 0 {
        seq![]
    } else if data.len() <= SEND_KEYS_CHUNK {
        seq![send_keys_line(pane, data)]
    } else {
        seq![send_keys_line(pane, data.take(SEND_KEYS_CHUNK as int))] + send_keys_spec(
            pane,
            data.skip(SEND_KEYS_CHUNK as int),
        )
    }
}

pub open spec fn strings_of(v: Seq<String>) -> Seq<Seq<char>> {
    v.map_values(|s: String| s@)
}

fn send_keys_line_exec(pane: u32, data: &[u8], from: usize, to: usize) -> (r: String)
    requires
        from <= to <= data@.len(),
    ensures
        r@ == send_keys_line(pane, data@.subrange(from as int, to as int)),
{
    let mut out: Vec<char> = Vec::new();
    push_str(&mut out, "send-keys -H -t %");
    push_dec(&mut out, pane as u64);
    let ghost head = out@;
    let mut i = from;
    assert(data@.subrange(from as int, from as int) =~= Seq::<u8>::empty());
    while i < to
        invariant
            from <= i <= to <= data@.len(),
            out@ == head + hex_bytes(data@.subrange(from as int, i as int)),
        decreases to - i,
    {
        out.push(' ');
        push_hex2(&mut out, data[i]);
        assert(data@.subrange(from as int, i + 1).drop_last() =~= data@.subrange(from as int, i as int));
        i = i + 1;
        assert(out@ =~= head + hex_bytes(data@.subrange(from as int, i as int)));
    }
    string_of(&out)
}

/// The `send-keys -H` commands that type `data` into `pane`.
pub fn send_keys_commands(pane: u32, data: &[u8]) -> (r: Vec<String>)
    ensures
        strings_of(r@) == send_keys_spec(pane, data@),
{
    let n = data.len();
    let mut out: Vec<String> = Vec::new();
    let mut i: usize = 0;
    assert(data@.subrange(0, n as int) =~= data@);
    while i < n
        invariant
            i <= n == data@.len(),
            strings_of(out@) + send_keys_spec(pane, data@.subrange(i as int, n as int))
                == send_keys_spec(pane, data@),
        decreases n - i,
    {
        let ghost rest = data@.subrange(i as int, n as int);
        let end = if n - i <= SEND_KEYS_CHUNK {
            n
        } else {
            i + SEND_KEYS_CHUNK
        };
        let line = send_keys_line_exec(pane, data, i, end);
        out.push(line);
        if n - i > SEND_KEYS_CHUNK {
            assert(rest.take(SEND_KEYS_CHUNK as int) =~= data@.subrange(i as int, end as int));
            assert(rest.skip(SEND_KEYS_CHUNK as int) =~= data@.subrange(end as int, n as int));
        } else {
            assert(data@.subrange(end as int, n as int) =~= Seq::<u8>::empty());
        }
        i = end;
        assert(strings_of(out@) + send_keys_spec(pane, data@.subrange(i as int, n as int))
            =~= send_keys_spec(pane, data@));
    }
    assert(data@.subrange(n as int, n as int) =~= Seq::<u8>::empty());
    assert(strings_of(out@) =~= send_keys_spec(pane, data@));
    out
}

/// Terminal tabs that show a tmux window have ids `tmux-<conn>-<window>`.
pub fn is_tmux_session(session_id: &str) -> (r: bool)
    ensures
        r == matches_at(session_id@, 0, "tmux-"@),
{
    starts_with_str(&chars_of(session_id), "tmux-")
}

// ---------------------------------------------------------------------------
// Connections
// ---------------------------------------------------------------------------

/// One frame for the frontend: output of a pane, or an event with the tag
/// of the command it answers (0 where none).
#[derive(Debug, PartialEq, Eq)]
pub enum Frame {
    Output { pane: u32, data: Vec<u8> },
    Notice { event: ControlEvent, tag: u64 },
}

pub enum FrameView {
    Output { pane: u32, data: Seq<u8> },
    Notice { event: ControlEventView, tag: u64 },
}

impl View for Frame {
    type V = FrameView;

    open spec fn view(&self) -> FrameView {
        match self {
            Frame::Output { pane, data } => FrameView::Output { pane: *pane, data: data@ },
            Frame::Notice { event, tag } => FrameView::Notice { event: event@, tag: *tag },
        }
    }
}

pub open spec fn frames_view(s: Seq<Frame>) -> Seq<FrameView> {
    s.map_values(|f: Frame| f@)
}

/// What dispatching has built so far: the output run not yet framed, the
/// tags still awaiting replies, the frames and the lines to write to tmux.
pub struct DispatchState {
    pub run: Option<(u32, Seq<u8>)>,
    pub pending: Seq<u64>,
    pub frames: Seq<FrameView>,
    pub writes: Seq<Seq<char>>,
}

pub open spec fn run_frames(run: Option<(u32, Seq<u8>)>) -> Seq<FrameView> {
    match run {
        Some(r) => seq![FrameView::Output { pane: r.0, data: r.1 }],
        None => seq![],
    }
}

/// The command line that lets a paused pane continue.
pub open spec fn continue_line(pane: u32) -> Seq<char> {
    "refresh-client -A '%"@ + dec(pane as nat) + ":continue'\n"@
}

/// One event: output extends the run of its pane or starts a new one; any
/// other event closes the run, takes the next pending tag when it is a reply
/// to one of our commands, answers a pause with a continue command, and
/// becomes a notice, except replies without a tag and unmodelled lines.
pub open spec fn dispatch_step(st: DispatchState, ev: ControlEventView) -> DispatchState {
    match ev {
        ControlEventView::Output { pane, data } => match st.run {
            Some(r) => if r.0 == pane {
                DispatchState { run: Some((pane, r.1 + data)), ..st }
            } else {
                DispatchState { run: Some((pane, data)), frames: st.frames + run_frames(st.run), ..st }
            },
            None => DispatchState { run: Some((pane, data)), ..st },
        },
        _ => {
            let frames = st.frames + run_frames(st.run);
            let popped = ev is Reply && ev->from_client && st.pending.len() > 0;
            let tag: u64 = if popped {
                st.pending[0]
            } else {
                0
            };
            let pending1 = if popped {
                st.pending.drop_first()
            } else {
                st.pending
            };
            let (pending, writes) = match ev {
                ControlEventView::Pause { pane } => (pending1.push(0), st.writes.push(continue_line(pane))),
                _ => (pending1, st.writes),
            };
            let kept = !(ev is Other) && !(ev is Reply && tag == 0);
            DispatchState {
                run: None,
                pending,
                frames: if kept {
                    frames.push(FrameView::Notice { event: ev, tag })
                } else {
                    frames
                },
                writes,
            }
        },
    }
}

pub open spec fn dispatch_run(st: DispatchState, evs: Seq<ControlEventView>) -> DispatchState
    decreases evs.len(),
{
    if evs.len() == 0 {
        st
    } else {
        dispatch_step(dispatch_run(st, evs.drop_last()), evs.last())
    }
}

/// Dispatching a batch of events with `pending` tags outstanding: the frames
/// (the last output run included), the tags left and the lines to write.
pub open spec fn dispatch_spec(pending: Seq<u64>, evs: Seq<ControlEventView>) -> DispatchState {
    let st = dispatch_run(
        DispatchState { run: None, pending, frames: seq![], writes: seq![] },
        evs,
    );
    DispatchState { run: None, pending: st.pending, frames: st.frames + run_frames(st.run), writes: st.writes }
}

/// The state of one connection that the frontend sees: tags of the commands
/// it sent, frames held until it subscribes, and whether it has.
pub struct ConnView {
    pub pending: Seq<u64>,
    pub backlog: Seq<FrameView>,
    pub subscribed: bool,
    pub origin: Option<Seq<char>>,
    pub session: Option<Seq<char>>,
}

pub open spec fn opt_text(o: Option<String>) -> Option<Seq<char>> {
    match o {
        Some(s) => Some(s@),
        None => None,
    }
}

fn copy_opt(o: &Option<String>) -> (r: Option<String>)
    ensures
        opt_text(r) == opt_text(*o),
{
    match o {
        Some(s) => Some(string_of(&chars_of(s.as_str()))),
        None => None,
    }
}

/// Where a connection came from, as told to a subscribing frontend.
pub struct SubscribeInfo {
    pub origin: Option<String>,
    pub session: Option<String>,
}

/// One control-mode connection, apart from its transport.
pub struct Conn {
    pending: VecDeque<u64>,
    backlog: Vec<Frame>,
    subscribed: bool,
    origin: Option<String>,
    session: Option<String>,
}

impl View for Conn {
    type V = ConnView;

    closed spec fn view(&self) -> ConnView {
        ConnView {
            pending: self.pending@,
            backlog: frames_view(self.backlog@),
            subscribed: self.subscribed,
            origin: opt_text(self.origin),
            session: opt_text(self.session),
        }
    }
}

/// What a batch of events produces: frames to send now, and command lines to write to tmux.
pub struct Delivery {
    pub send: Vec<Frame>,
    pub writes: Vec<String>,
}

/// `s` holds a line break.
pub open spec fn has_line_break(s: Seq<char>) -> bool {
    exists|i: int| 0 <= i < s.len() && (s[i] == '\n' || s[i] == '\r')
}

/// The commands joined by ` ; `.
pub open spec fn join_commands(cs: Seq<Seq<char>>) -> Seq<char>
    decreases cs.len(),
{
    if cs.len() == 0 {
        seq![]
    } else if cs.len() == 1 {
        cs[0]
    } else {
        join_commands(cs.drop_last()) + " ; "@ + cs.last()
    }
}

/// The tag of each of `n` commands: the given one, or 0 where none is given.
pub open spec fn tags_for(n: nat, tags: Seq<u64>) -> Seq<u64> {
    Seq::new(n, |i: int| if i < tags.len() { tags[i] } else { 0 })
}

fn has_line_break_exec(s: &String) -> (r: bool)
    ensures
        r == has_line_break(s@),
{
    let c = chars_of(s.as_str());
    let mut i: usize = 0;
    while i < c.len()
        invariant
            i <= c@.len(),
            c@ == s@,
            forall|j: int| 0 <= j < i ==> !(c@[j] == '\n' || c@[j] == '\r'),
        decreases c@.len() - i,
    {
        if c[i] == '\n' || c[i] == '\r' {
            return true;
        }
        i = i + 1;
    }
    false
}

fn continue_line_exec(pane: u32) -> (r: String)
    ensures
        r@ == continue_line(pane),
{
    let mut out: Vec<char> = Vec::new();
    push_str(&mut out, "refresh-client -A '%");
    push_dec(&mut out, pane as u64);
    push_str(&mut out, ":continue'\n");
    string_of(&out)
}

impl Conn {
    pub fn new(origin: Option<String>, session: Option<String>) -> (c: Self)
        ensures
            c@ == (ConnView {
                pending: seq![],
                backlog: seq![],
                subscribed: false,
                origin: opt_text(origin),
                session: opt_text(session),
            }),
    {
        let c = Conn { pending: VecDeque::new(), backlog: Vec::new(), subscribed: false, origin, session };
        assert(frames_view(c.backlog@) =~= Seq::<FrameView>::empty());
        c
    }

    /// The tags still waiting for replies, oldest first.
    pub fn pending_tags(&self) -> (r: Vec<u64>)
        ensures
            r@ == self@.pending,
    {
        let mut r: Vec<u64> = Vec::new();
        let mut i: usize = 0;
        while i < self.pending.len()
            invariant
                i <= self.pending@.len(),
                r@ == self.pending@.take(i as int),
            decreases self.pending@.len() - i,
        {
            r.push(self.pending[i]);
            i = i + 1;
            assert(r@ =~= self.pending@.take(i as int));
        }
        assert(self.pending@.take(i as int) =~= self.pending@);
        r
    }

    /// Where the connection came from.
    pub fn subscribe_info(&self) -> (r: SubscribeInfo)
        ensures
            opt_text(r.origin) == self@.origin,
            opt_text(r.session) == self@.session,
    {
        SubscribeInfo { origin: copy_opt(&self.origin), session: copy_opt(&self.session) }
    }

    /// The frames held until the frontend subscribes.
    pub fn backlog(&self) -> (r: &Vec<Frame>)
        ensures
            frames_view(r@) == self@.backlog,
    {
        &self.backlog
    }

    /// The command line (with its final `\n`) that sends `commands`, each
    /// getting the tag at its position (0 where `tags` is shorter); `None`
    /// when there is nothing to send, an error for a command holding a line break.
    pub fn write_commands(&mut self, commands: &[String], tags: &[u64]) -> (r: Result<
        Option<String>,
        String,
    >)
        ensures
            commands@.len() == 0 ==> r == Ok::<Option<String>, String>(None) && final(self)@ == old(self)@,
            commands@.len() > 0 && (exists|i: int|
                0 <= i < commands@.len() && has_line_break(#[trigger] commands@[i]@)) ==> (r matches Err(
                e) && e@ == "tmux commands must be single-line"@ && final(self)@ == old(self)@),
            commands@.len() > 0 && (forall|i: int|
                0 <= i < commands@.len() ==> !has_line_break(#[trigger] commands@[i]@)) ==> (r matches Ok(
                Some(line)) && line@ == join_commands(strings_of(commands@)) + "\n"@ && final(self)@ == (
            ConnView {
                pending: old(self)@.pending + tags_for(commands@.len(), tags@),
                ..old(self)@
            })),
    {
        if commands.len() == 0 {
            return Ok(None);
        }
        let mut i: usize = 0;
        while i < commands.len()
            invariant
                i <= commands@.len(),
                forall|j: int| 0 <= j < i ==> !has_line_break(#[trigger] commands@[j]@),
            decreases commands@.len() - i,
        {
            if has_line_break_exec(&commands[i]) {
                return Err(string_of(&chars_of("tmux commands must be single-line")));
            }
            i = i + 1;
        }
        let ghost p0 = self.pending@;
        let mut line: Vec<char> = Vec::new();
        let mut k: usize = 0;
        while k < commands.len()
            invariant
                k <= commands@.len(),
                commands@.len() > 0,
                self.pending@ == p0 + tags_for(k as nat, tags@),
                self.backlog == old(self).backlog,
                self.subscribed == old(self).subscribed,
                self.origin == old(self).origin,
                self.session == old(self).session,
                k > 0 ==> line@ == join_commands(strings_of(commands@.take(k as int))),
                k == 0 ==> line@.len() == 0,
            decreases commands@.len() - k,
        {
            let t: u64 = if k < tags.len() {
                tags[k]
            } else {
                0
            };
            self.pending.push_back(t);
            assert(self.pending@ =~= p0 + tags_for((k + 1) as nat, tags@));
            if k > 0 {
                push_str(&mut line, " ; ");
            }
            push_str(&mut line, commands[k].as_str());
            proof {
                let cs = strings_of(commands@.take(k + 1));
                assert(cs.drop_last() =~= strings_of(commands@.take(k as int)));
                if k == 0 {
                    assert(cs.len() == 1);
                    assert(line@ =~= cs[0]);
                }
            }
            k = k + 1;
        }
        assert(commands@.take(k as int) =~= commands@);
        push_str(&mut line, "\n");
        Ok(Some(string_of(&line)))
    }

    /// Drains the held frames and marks the frontend as subscribed.
    pub fn subscribe(&mut self) -> (r: Vec<Frame>)
        ensures
            frames_view(r@) == old(self)@.backlog,
            final(self)@ == (ConnView { backlog: seq![], subscribed: true, ..old(self)@ }),
    {
        let mut held: Vec<Frame> = Vec::new();
        std::mem::swap(&mut held, &mut self.backlog);
        self.subscribed = true;
        assert(frames_view(self.backlog@) =~= Seq::<FrameView>::empty());
        held
    }
}


pub open spec fn run_view(run: Option<(u32, Vec<u8>)>) -> Option<(u32, Seq<u8>)> {
    match run {
        Some(r) => Some((r.0, r.1@)),
        None => None,
    }
}

fn flush_run(run: Option<(u32, Vec<u8>)>, frames: &mut Vec<Frame>)
    ensures
        frames_view(final(frames)@) == frames_view(old(frames)@) + run_frames(run_view(run)),
{
    match run {
        Some((p, buf)) => {
            let ghost before = frames@;
            frames.push(Frame::Output { pane: p, data: buf });
            assert(frames_view(frames@) =~= frames_view(before) + run_frames(run_view(Some((p, buf)))));
        },
        None => {
            assert(frames_view(frames@) =~= frames_view(frames@) + run_frames(run_view(run)));
        },
    }
}

impl Conn {
    /// Turns parsed events into frames: consecutive output of one pane is
    /// merged, replies to our commands get their tags, pauses are answered.
    /// Frames go out at once when the frontend has subscribed, and are held
    /// back otherwise.
    pub fn dispatch(&mut self, events: Vec<ControlEvent>) -> (r: Delivery)
        ensures
            ({
                let d = dispatch_spec(old(self)@.pending, events_view(events@));
                &&& final(self)@.pending == d.pending
                &&& strings_of(r.writes@) == d.writes
                &&& final(self)@.subscribed == old(self)@.subscribed
                &&& final(self)@.origin == old(self)@.origin
                &&& final(self)@.session == old(self)@.session
                &&& old(self)@.subscribed ==> frames_view(r.send@) == d.frames
                    && final(self)@.backlog == old(self)@.backlog
                &&& !old(self)@.subscribed ==> r.send@.len() == 0 && final(self)@.backlog
                    == old(self)@.backlog + d.frames
            }),
    {
        let ghost evs = events_view(events@);
        let ghost p0 = self.pending@;
        let ghost init = DispatchState { run: None, pending: p0, frames: seq![], writes: seq![] };
        let n = events.len();
        let mut rest = events;
        let mut rev: Vec<ControlEvent> = Vec::new();
        while rest.len() > 0
            invariant
                rest@.len() + rev@.len() == n,
                n == evs.len(),
                events_view(rest@) == evs.take(rest@.len() as int),
                forall|j: int| 0 <= j < rev@.len() ==> rev@[j]@ == evs[n - 1 - j],
            decreases rest@.len(),
        {
            let ghost before = rest@;
            let e = rest.pop().unwrap();
            assert(events_view(before)[before.len() - 1] == e@);
            assert(events_view(rest@) =~= evs.take(rest@.len() as int));
            rev.push(e);
        }
        let mut run: Option<(u32, Vec<u8>)> = None;
        let mut frames: Vec<Frame> = Vec::new();
        let mut writes: Vec<String> = Vec::new();
        let mut i: usize = 0;
        assert(evs.take(0) =~= Seq::<ControlEventView>::empty());
        assert(frames_view(frames@) =~= Seq::<FrameView>::empty());
        assert(strings_of(writes@) =~= Seq::<Seq<char>>::empty());
        while i < n
            invariant
                i <= n == evs.len(),
                rev@.len() == n - i,
                forall|j: int| 0 <= j < rev@.len() ==> rev@[j]@ == evs[n - 1 - j],
                self.backlog == old(self).backlog,
                self.subscribed == old(self).subscribed,
                self.origin == old(self).origin,
                self.session == old(self).session,
                dispatch_run(init, evs.take(i as int)) == (DispatchState {
                    run: run_view(run),
                    pending: self.pending@,
                    frames: frames_view(frames@),
                    writes: strings_of(writes@),
                }),
            decreases n - i,
        {
            let ev = rev.pop().unwrap();
            assert(ev@ == evs[i as int]);
            assert(evs.take(i + 1).drop_last() =~= evs.take(i as int));
            let ghost st = DispatchState {
                run: run_view(run),
                pending: self.pending@,
                frames: frames_view(frames@),
                writes: strings_of(writes@),
            };
            let ghost next = dispatch_step(st, ev@);
            match ev {
                ControlEvent::Output { pane, data } => {
                    let mut data = data;
                    let cur = run.take();
                    match cur {
                        Some((p, buf)) => {
                            if p == pane {
                                let mut buf = buf;
                                buf.append(&mut data);
                                run = Some((p, buf));
                            } else {
                                flush_run(Some((p, buf)), &mut frames);
                                run = Some((pane, data));
                            }
                        },
                        None => {
                            run = Some((pane, data));
                        },
                    }
                },
                other => {
                    let cur = run.take();
                    flush_run(cur, &mut frames);
                    let from_client = match &other {
                        ControlEvent::Reply { from_client, .. } => *from_client,
                        _ => false,
                    };
                    let is_reply = match &other {
                        ControlEvent::Reply { .. } => true,
                        _ => false,
                    };
                    let is_other = match &other {
                        ControlEvent::Other { .. } => true,
                        _ => false,
                    };
                    let mut tag: u64 = 0;
                    if from_client {
                        match self.pending.pop_front() {
                            Some(t) => {
                                tag = t;
                            },
                            None => {},
                        }
                    }
                    match &other {
                        ControlEvent::Pause { pane } => {
                            self.pending.push_back(0);
                            writes.push(continue_line_exec(*pane));
                        },
                        _ => {},
                    }
                    if !is_other && !(is_reply && tag == 0) {
                        frames.push(Frame::Notice { event: other, tag });
                    }
                },
            }
            assert(frames_view(frames@) =~= next.frames);
            assert(strings_of(writes@) =~= next.writes);
            assert(self.pending@ =~= next.pending);
            i = i + 1;
        }
        assert(evs.take(n as int) =~= evs);
        let cur = run.take();
        flush_run(cur, &mut frames);
        if self.subscribed {
            Delivery { send: frames, writes }
        } else {
            let ghost b0 = self.backlog@;
            let ghost f0 = frames@;
            self.backlog.append(&mut frames);
            assert(frames_view(self.backlog@) =~= frames_view(b0) + frames_view(f0));
            Delivery { send: Vec::new(), writes }
        }
    }
}

// ---------------------------------------------------------------------------
// Laws of dispatching
// ---------------------------------------------------------------------------

/// The bytes of output events, each with its pane, in order.
pub open spec fn tagged_bytes(pane: u32, data: Seq<u8>) -> Seq<(u32, u8)> {
    data.map_values(|b: u8| (pane, b))
}

pub open spec fn event_output(evs: Seq<ControlEventView>) -> Seq<(u32, u8)>
    decreases evs.len(),
{
    if evs.len() == 0 {
        seq![]
    } else {
        event_output(evs.drop_last()) + match evs.last() {
            ControlEventView::Output { pane, data } => tagged_bytes(pane, data),
            _ => seq![],
        }
    }
}

pub open spec fn frame_output(fs: Seq<FrameView>) -> Seq<(u32, u8)>
    decreases fs.len(),
{
    if fs.len() == 0 {
        seq![]
    } else {
        frame_output(fs.drop_last()) + match fs.last() {
            FrameView::Output { pane, data } => tagged_bytes(pane, data),
            _ => seq![],
        }
    }
}

pub open spec fn run_output(run: Option<(u32, Seq<u8>)>) -> Seq<(u32, u8)> {
    match run {
        Some(r) => tagged_bytes(r.0, r.1),
        None => seq![],
    }
}

proof fn lemma_run_frames_output(run: Option<(u32, Seq<u8>)>)
    ensures
        frame_output(run_frames(run)) == run_output(run),
{
    match run {
        Some(r) => {
            let f = run_frames(run);
            assert(f.drop_last() =~= Seq::<FrameView>::empty());
            assert(frame_output(f.drop_last()) == Seq::<(u32, u8)>::empty());
            assert(frame_output(f) =~= tagged_bytes(r.0, r.1));
        },
        None => {
            assert(frame_output(run_frames(run)) =~= Seq::<(u32, u8)>::empty());
        },
    }
}

proof fn lemma_frame_output_append(a: Seq<FrameView>, b: Seq<FrameView>)
    ensures
        frame_output(a + b) == frame_output(a) + frame_output(b),
    decreases b.len(),
{
    if b.len() == 0 {
        assert(a + b =~= a);
    } else {
        assert((a + b).drop_last() =~= a + b.drop_last());
        lemma_frame_output_append(a, b.drop_last());
    }
}

proof fn lemma_dispatch_run_output(pending: Seq<u64>, evs: Seq<ControlEventView>)
    ensures
        ({
            let st = dispatch_run(
                DispatchState { run: None, pending, frames: seq![], writes: seq![] },
                evs,
            );
            frame_output(st.frames) + run_output(st.run) == event_output(evs)
        }),
    decreases evs.len(),
{
    let init = DispatchState { run: None, pending, frames: seq![], writes: seq![] };
    if evs.len() == 0 {
        assert(frame_output(Seq::<FrameView>::empty()) =~= Seq::<(u32, u8)>::empty());
    } else {
        lemma_dispatch_run_output(pending, evs.drop_last());
        let st = dispatch_run(init, evs.drop_last());
        let ev = evs.last();
        lemma_frame_output_append(st.frames, run_frames(st.run));
        lemma_run_frames_output(st.run);
        match ev {
            ControlEventView::Output { pane, data } => {
                match st.run {
                    Some(r) => {
                        if r.0 == pane {
                            assert(tagged_bytes(pane, r.1 + data) =~= tagged_bytes(pane, r.1)
                                + tagged_bytes(pane, data));
                        }
                    },
                    None => {},
                }
            },
            _ => {
                let next = dispatch_step(st, ev);
                let frames = st.frames + run_frames(st.run);
                if next.frames != frames {
                    let n = next.frames;
                    assert(n.drop_last() =~= frames);
                }
            },
        }
    }
}

/// Dispatching loses, duplicates and reorders no output: the bytes of the
/// output frames, each with its pane, are the bytes of the output events.
pub proof fn lemma_dispatch_keeps_output(pending: Seq<u64>, evs: Seq<ControlEventView>)
    ensures
        frame_output(dispatch_spec(pending, evs).frames) == event_output(evs),
{
    lemma_dispatch_run_output(pending, evs);
    let st = dispatch_run(DispatchState { run: None, pending, frames: seq![], writes: seq![] }, evs);
    lemma_frame_output_append(st.frames, run_frames(st.run));
    lemma_run_frames_output(st.run);
    assert(run_output(None) =~= Seq::<(u32, u8)>::empty());
}

// ---------------------------------------------------------------------------
// Control mode inside a terminal
// ---------------------------------------------------------------------------

/// What one step over a chunk of terminal output yields.
#[derive(Debug, PartialEq, Eq)]
pub enum InbandStep {
    /// No control mode: the bytes belong to the terminal.
    Terminal(Vec<u8>),
    /// Control mode starts: `before` belongs to the terminal; a connection is
    /// to be opened (then `attach`) and `after` stepped again, or, where none
    /// can be opened, `after` belongs to the terminal too.
    Start { before: Vec<u8>, after: Vec<u8> },
    /// Events of the connection `conn`; with `rest`, control mode has ended,
    /// the connection is finished and `rest` is to be stepped again.
    Control { conn: u32, events: Vec<ControlEvent>, rest: Option<Vec<u8>> },
}

pub enum InbandStepView {
    Terminal(Seq<u8>),
    Start { before: Seq<u8>, after: Seq<u8> },
    Control { conn: u32, events: Seq<ControlEventView>, rest: Option<Seq<u8>> },
}

impl View for InbandStep {
    type V = InbandStepView;

    open spec fn view(&self) -> InbandStepView {
        match self {
            InbandStep::Terminal(b) => InbandStepView::Terminal(b@),
            InbandStep::Start { before, after } => InbandStepView::Start { before: before@, after: after@ },
            InbandStep::Control { conn, events, rest } => InbandStepView::Control {
                conn: *conn,
                events: events_view(events@),
                rest: opt_bytes(*rest),
            },
        }
    }
}

pub struct InbandView {
    pub held: Seq<u8>,
    pub active: Option<(u32, ParserState)>,
}

/// Watches a terminal's output for the start of control mode and parses it
/// while it lasts.
pub struct InbandTracker {
    detector: DcsDetector,
    active: Option<(u32, ControlParser)>,
}

impl View for InbandTracker {
    type V = InbandView;

    closed spec fn view(&self) -> InbandView {
        InbandView {
            held: self.detector@,
            active: match self.active {
                Some(a) => Some((a.0, a.1@)),
                None => None,
            },
        }
    }
}

/// One step over `input`: in control mode the parser consumes it, and its
/// end closes the connection; otherwise the detector looks for the start.
pub open spec fn inband_step_spec(st: InbandView, input: Seq<u8>) -> (InbandView, InbandStepView) {
    match st.active {
        Some(a) => {
            let f = feed_spec(a.1, input);
            (
                InbandView {
                    held: st.held,
                    active: if f.trailing is Some {
                        None
                    } else {
                        Some((a.0, f.state))
                    },
                },
                InbandStepView::Control { conn: a.0, events: f.events, rest: f.trailing },
            )
        },
        None => {
            let (d, h) = dcs_feed_spec(st.held, input);
            (
                InbandView { held: h, active: None },
                match d {
                    DetectView::Passthrough(b) => InbandStepView::Terminal(b),
                    DetectView::Started { before, after } => InbandStepView::Start { before, after },
                },
            )
        },
    }
}

impl InbandTracker {
    pub fn new() -> (t: Self)
        ensures
            t@ == (InbandView { held: seq![], active: None }),
    {
        InbandTracker { detector: DcsDetector::new(), active: None }
    }

    /// The connection in control mode, if any.
    pub fn active_conn(&self) -> (r: Option<u32>)
        ensures
            r == (match self@.active {
                Some(a) => Some(a.0),
                None => None::<u32>,
            }),
    {
        match &self.active {
            Some(a) => Some(a.0),
            None => None,
        }
    }

    pub fn step(&mut self, input: &[u8]) -> (r: InbandStep)
        ensures
            (final(self)@, r@) == inband_step_spec(old(self)@, input@),
    {
        let cur = self.active.take();
        match cur {
            Some((id, parser)) => {
                let mut parser = parser;
                let f = parser.feed(input);
                match f.trailing {
                    Some(rest) => InbandStep::Control { conn: id, events: f.events, rest: Some(rest) },
                    None => {
                        self.active = Some((id, parser));
                        InbandStep::Control { conn: id, events: f.events, rest: None }
                    },
                }
            },
            None => match self.detector.feed(input) {
                Detect::Passthrough(b) => InbandStep::Terminal(b),
                Detect::Started { before, after } => InbandStep::Start { before, after },
            },
        }
    }

    /// Enters control mode on the connection `conn`.
    pub fn attach(&mut self, conn: u32)
        requires
            old(self)@.active is None,
        ensures
            final(self)@ == (InbandView {
                held: old(self)@.held,
                active: Some((conn, ParserState { buf: seq![], block: None, exited: false })),
            }),
    {
        self.active = Some((conn, ControlParser::new()));
    }

    /// Leaves control mode when the terminal closes: the connection that was
    /// active and whether it had seen `%exit`.
    pub fn close(&mut self) -> (r: Option<(u32, bool)>)
        ensures
            r == (match old(self)@.active {
                Some(a) => Some((a.0, a.1.exited)),
                None => None::<(u32, bool)>,
            }),
            final(self)@ == (InbandView { held: old(self)@.held, active: None }),
    {
        match self.active.take() {
            Some((id, parser)) => Some((id, parser.exited())),
            None => None,
        }
    }
}

/// A step after which control mode has started or ended.
pub open spec fn switches_mode(o: InbandStepView) -> bool {
    match o {
        InbandStepView::Terminal(_) => false,
        InbandStepView::Start { .. } => true,
        InbandStepView::Control { rest, .. } => rest is Some,
    }
}

/// Stepping the tracker over the reads `xs` in turn until control mode
/// starts or ends: the outcomes, the state, and the reads left over.
pub open spec fn step_run(st: InbandView, xs: Seq<Seq<u8>>) -> (Seq<InbandStepView>, InbandView, Seq<
    Seq<u8>,
>)
    decreases xs.len(),
{
    if xs.len() == 0 {
        (seq![], st, seq![])
    } else {
        let (s1, o) = inband_step_spec(st, xs[0]);
        if switches_mode(o) {
            (seq![o], s1, xs.drop_first())
        } else {
            let (os, s, l) = step_run(s1, xs.drop_first());
            (seq![o] + os, s, l)
        }
    }
}

/// The bytes that the outcomes hand to the terminal.
pub open spec fn terminal_bytes(os: Seq<InbandStepView>) -> Seq<u8>
    decreases os.len(),
{
    if os.len() == 0 {
        seq![]
    } else {
        (match os[0] {
            InbandStepView::Terminal(b) => b,
            InbandStepView::Start { before, .. } => before,
            InbandStepView::Control { .. } => seq![],
        }) + terminal_bytes(os.drop_first())
    }
}

/// The events that the outcomes hand to connection `conn`; `false` when an
/// outcome is not one of that connection's.
pub open spec fn conn_events(os: Seq<InbandStepView>, conn: u32) -> Option<Seq<ControlEventView>>
    decreases os.len(),
{
    if os.len() == 0 {
        Some(seq![])
    } else {
        match os[0] {
            InbandStepView::Control { conn: c, events, .. } => if c == conn {
                match conn_events(os.drop_first(), conn) {
                    Some(e) => Some(events + e),
                    None => None,
                }
            } else {
                None
            },
            _ => None,
        }
    }
}

proof fn lemma_step_run_detect(st: InbandView, xs: Seq<Seq<u8>>)
    requires
        st.active is None,
    ensures
        ({
            let (os, s, l) = step_run(st, xs);
            let d = dcs_run(st.held, xs);
            &&& terminal_bytes(os) == d.passed
            &&& d.started is None ==> s == (InbandView { held: d.held, active: None })
                && forall|i: int| 0 <= i < os.len() ==> #[trigger] os[i] is Terminal
            &&& d.started matches Some(a) ==> os.len() > 0 && os.last() is Start && os.last()->after == a && l == d.left && s == (InbandView { held: seq![], active: None })
        }),
    decreases xs.len(),
{
    if xs.len() > 0 {
        let (r, h) = dcs_feed_spec(st.held, xs[0]);
        let (s1, o) = inband_step_spec(st, xs[0]);
        match r {
            DetectView::Passthrough(p) => {
                lemma_step_run_detect(s1, xs.drop_first());
                let (os, s, l) = step_run(s1, xs.drop_first());
                let all = seq![o] + os;
                assert(all[0] == o);
                assert(all.drop_first() =~= os);
                assert forall|i: int| 0 < i < all.len() implies all[i] == os[i - 1] by {}
                if os.len() > 0 {
                    assert(all.last() == os.last());
                }
            },
            DetectView::Started { before, after } => {
                let all = seq![o];
                assert(all.drop_first() =~= Seq::<InbandStepView>::empty());
                assert(terminal_bytes(all) == before + terminal_bytes(all.drop_first()));
                assert(before + Seq::<u8>::empty() =~= before);
            },
        }
    }
}

proof fn lemma_step_run_control(st: InbandView, xs: Seq<Seq<u8>>)
    requires
        st.active is Some,
        xs.len() > 0,
    ensures
        ({
            let (os, s, l) = step_run(st, xs);
            let (id, ps) = st.active->0;
            let r = feed_run(ps, xs);
            &&& terminal_bytes(os) == Seq::<u8>::empty()
            &&& conn_events(os, id) == Some(r.events)
            &&& r.trailing is None ==> s == (InbandView { held: st.held, active: Some((id, r.state)) })
            &&& r.trailing matches Some(t) ==> os.last() is Control && os.last()->rest == Some(t) && l == r.left && s == (InbandView { held: st.held, active: None })
        }),
    decreases xs.len(),
{
    let (id, ps) = st.active->0;
    let f = feed_spec(ps, xs[0]);
    let (s1, o) = inband_step_spec(st, xs[0]);
    let rest_xs = xs.drop_first();
    if f.trailing is Some {
        let all = seq![o];
        assert(all.drop_first() =~= Seq::<InbandStepView>::empty());
        assert(terminal_bytes(all) == Seq::<u8>::empty() + terminal_bytes(all.drop_first()));
        assert(conn_events(all.drop_first(), id) == Some(Seq::<ControlEventView>::empty()));
        assert(f.events + Seq::<ControlEventView>::empty() =~= f.events);
    } else if rest_xs.len() == 0 {
        let all = seq![o];
        assert(all.drop_first() =~= Seq::<InbandStepView>::empty());
        assert(terminal_bytes(all) == Seq::<u8>::empty() + terminal_bytes(all.drop_first()));
        assert(conn_events(all.drop_first(), id) == Some(Seq::<ControlEventView>::empty()));
        assert(f.events + Seq::<ControlEventView>::empty() =~= f.events);
        assert(feed_run(f.state, rest_xs).events =~= Seq::<ControlEventView>::empty());
    } else {
        lemma_step_run_control(s1, rest_xs);
        let (os, s, l) = step_run(s1, rest_xs);
        let all = seq![o] + os;
        assert(all[0] == o);
        assert(all.drop_first() =~= os);
        assert(Seq::<u8>::empty() + terminal_bytes(os) =~= Seq::<u8>::empty());
        if os.len() > 0 {
            assert(all.last() == os.last());
        }
    }
}

/// However a terminal's output is cut into reads, the tracker does what it
/// would do with one read, phase by phase. Outside control mode, the reads
/// reach the terminal in order but for the held-back prefix of the control
/// sequence, and when the sequence comes, everything before it has reached
/// the terminal and what follows it is handed over. In control mode,
/// nothing reaches the terminal, the connection gets the events of the
/// whole stream, and when control mode ends, what follows it is handed back.
pub proof fn lemma_inband_reads(st: InbandView, xs: Seq<Seq<u8>>)
    requires
        st.held.len() <= 6,
        st.held == dcs().take(st.held.len() as int),
        xs.len() > 0,
    ensures
        ({
            let (os, s, l) = step_run(st, xs);
            &&& st.active is None ==> ({
                let (r, h) = dcs_feed_spec(st.held, flatten(xs));
                &&& r matches DetectView::Passthrough(p) ==> terminal_bytes(os) == p && s == (
                InbandView { held: h, active: None })
                &&& r matches DetectView::Started { before, after } ==> terminal_bytes(os)
                    == before && os.last() is Start && os.last()->after + flatten(l) == after
            })
            &&& st.active matches Some(act) ==> ({
                let f = feed_spec(act.1, flatten(xs));
                &&& terminal_bytes(os) == Seq::<u8>::empty()
                &&& conn_events(os, act.0) == Some(f.events)
                &&& f.trailing is None ==> s == (InbandView {
                    held: st.held,
                    active: Some((act.0, f.state)),
                })
                &&& f.trailing matches Some(t) ==> os.last() is Control && os.last()->rest is Some
                    && os.last()->rest->0 + flatten(l) == t && s == (InbandView { held: st.held, active: None })
            })
        }),
{
    if st.active is None {
        lemma_step_run_detect(st, xs);
        lemma_dcs_reads(st.held, xs);
    } else {
        let act = st.active->0;
        lemma_step_run_control(st, xs);
        lemma_feed_reads(act.1, xs);
    }
}

// ---------------------------------------------------------------------------
// Probing tmux
// ---------------------------------------------------------------------------

#[derive(Debug, Clone, PartialEq, Eq)]
pub struct SessionInfo {
    pub name: String,
    pub windows: u32,
    pub attached: u32,
    pub activity: u64,
}

pub struct SessionView {
    pub name: Seq<char>,
    pub windows: u32,
    pub attached: u32,
    pub activity: u64,
}

impl View for SessionInfo {
    type V = SessionView;

    open spec fn view(&self) -> SessionView {
        SessionView {
            name: self.name@,
            windows: self.windows,
            attached: self.attached,
            activity: self.activity,
        }
    }
}

pub open spec fn sessions_view(v: Seq<SessionInfo>) -> Seq<SessionView> {
    v.map_values(|s: SessionInfo| s@)
}

/// A `list-sessions` line: name, windows, attached clients and activity
/// separated by tabs; numbers that do not parse count as 0.
pub open spec fn session_of_line(line: Seq<char>) -> Option<SessionView> {
    let f = split_char(line, '\t');
    if f.len() < 4 {
        None
    } else {
        Some(
            SessionView {
                name: f[0],
                windows: uint_or_zero(f[1], u32::MAX as nat) as u32,
                attached: uint_or_zero(f[2], u32::MAX as nat) as u32,
                activity: uint_or_zero(f[3], u64::MAX as nat) as u64,
            },
        )
    }
}

pub open spec fn sessions_of_lines(ls: Seq<Seq<char>>) -> Seq<SessionView>
    decreases ls.len(),
{
    if ls.len() == 0 {
        seq![]
    } else {
        sessions_of_lines(ls.drop_last()) + match session_of_line(ls.last()) {
            Some(s) => seq![s],
            None => seq![],
        }
    }
}

/// `s` placed into `sorted` (most recent activity first) after every
/// session at least as recent.
pub open spec fn insert_by_activity(sorted: Seq<SessionView>, s: SessionView) -> Seq<SessionView>
    decreases sorted.len(),
{
    if sorted.len() == 0 {
        seq![s]
    } else if sorted.last().activity >= s.activity {
        sorted.push(s)
    } else {
        insert_by_activity(sorted.drop_last(), s).push(sorted.last())
    }
}

/// The sessions by activity, most recent first, ties in their listed order.
pub open spec fn sort_by_activity(ss: Seq<SessionView>) -> Seq<SessionView>
    decreases ss.len(),
{
    if ss.len() == 0 {
        seq![]
    } else {
        insert_by_activity(sort_by_activity(ss.drop_last()), ss.last())
    }
}

/// The sessions that `tmux list-sessions` printed on `stdout`.
pub open spec fn sessions_spec(stdout: Seq<u8>) -> Seq<SessionView> {
    sort_by_activity(sessions_of_lines(lines(utf8_lossy(stdout))))
}

fn session_of_line_exec(line: &Vec<char>) -> (r: Option<SessionInfo>)
    ensures
        match r {
            Some(s) => session_of_line(line@) == Some(s@),
            None => session_of_line(line@) is None,
        },
{
    let f = split_on(line, '\t');
    let ghost fv = f@.map_values(|l: Vec<char>| l@);
    if f.len() < 4 {
        return None;
    }
    assert(fv[0] == f@[0]@ && fv[1] == f@[1]@ && fv[2] == f@[2]@ && fv[3] == f@[3]@);
    let windows: u64 = match parse_uint_chars(&f[1], 4294967295u64) {
        Some(v) => v,
        None => 0,
    };
    let attached: u64 = match parse_uint_chars(&f[2], 4294967295u64) {
        Some(v) => v,
        None => 0,
    };
    let activity: u64 = match parse_uint_chars(&f[3], 18446744073709551615u64) {
        Some(v) => v,
        None => 0,
    };
    Some(
        SessionInfo {
            name: string_of(&f[0]),
            windows: windows as u32,
            attached: attached as u32,
            activity,
        },
    )
}

fn insert_session(sorted: &mut Vec<SessionInfo>, s: SessionInfo)
    ensures
        sessions_view(final(sorted)@) == insert_by_activity(sessions_view(old(sorted)@), s@),
{
    let ghost sv = sessions_view(sorted@);
    let mut j = sorted.len();
    assert(sv.take(j as int) =~= sv);
    assert(sv.skip(j as int) =~= Seq::<SessionView>::empty());
    while j > 0 && sorted[j - 1].activity < s.activity
        invariant
            j <= sorted@.len(),
            sv == sessions_view(sorted@),
            insert_by_activity(sv, s@) == insert_by_activity(sv.take(j as int), s@) + sv.skip(
                j as int,
            ),
        decreases j,
    {
        assert(sv.take(j as int).drop_last() =~= sv.take(j - 1));
        assert(sv.take(j as int).last() == sv[j - 1]);
        assert(sv.skip(j - 1) =~= seq![sv[j - 1]] + sv.skip(j as int));
        j = j - 1;
    }
    sorted.insert(j, s);
    assert(sessions_view(sorted@) =~= sv.take(j as int).push(s@) + sv.skip(j as int));
}

/// The sessions listed on `stdout`, most recent activity first.
pub fn parse_sessions(stdout: &[u8]) -> (r: Vec<SessionInfo>)
    ensures
        sessions_view(r@) == sessions_spec(stdout@),
{
    let text = utf8_lossy_chars(stdout);
    let ls = lines_of(&text);
    let ghost lv = ls@.map_values(|l: Vec<char>| l@);
    let mut found: Vec<SessionInfo> = Vec::new();
    let mut i: usize = 0;
    while i < ls.len()
        invariant
            i <= ls@.len(),
            lv == ls@.map_values(|l: Vec<char>| l@),
            sessions_view(found@) == sessions_of_lines(lv.take(i as int)),
        decreases ls@.len() - i,
    {
        assert(lv.take(i + 1).drop_last() =~= lv.take(i as int));
        assert(lv.take(i + 1).last() == ls@[i as int]@);
        let ghost before = sessions_view(found@);
        match session_of_line_exec(&ls[i]) {
            Some(s) => {
                found.push(s);
            },
            None => {},
        }
        assert(sessions_view(found@) =~= sessions_of_lines(lv.take(i + 1)));
        i = i + 1;
    }
    assert(lv.take(i as int) =~= lv);
    let ghost all = sessions_view(found@);
    let mut sorted: Vec<SessionInfo> = Vec::new();
    let mut k: usize = 0;
    let n = found.len();
    let mut rest = found;
    let mut rev: Vec<SessionInfo> = Vec::new();
    while rest.len() > 0
        invariant
            rest@.len() + rev@.len() == n,
            n == all.len(),
            sessions_view(rest@) == all.take(rest@.len() as int),
            forall|j: int| 0 <= j < rev@.len() ==> rev@[j]@ == all[n - 1 - j],
        decreases rest@.len(),
    {
        let ghost before = rest@;
        let e = rest.pop().unwrap();
        assert(sessions_view(before)[before.len() - 1] == e@);
        assert(sessions_view(rest@) =~= all.take(rest@.len() as int));
        rev.push(e);
    }
    assert(all.take(0) =~= Seq::<SessionView>::empty());
    while k < n
        invariant
            k <= n == all.len(),
            rev@.len() == n - k,
            forall|j: int| 0 <= j < rev@.len() ==> rev@[j]@ == all[n - 1 - j],
            sessions_view(sorted@) == sort_by_activity(all.take(k as int)),
        decreases n - k,
    {
        let s = rev.pop().unwrap();
        assert(all.take(k + 1).drop_last() =~= all.take(k as int));
        insert_session(&mut sorted, s);
        k = k + 1;
    }
    assert(all.take(n as int) =~= all);
    sorted
}

/// What the frontend learns about tmux.
pub struct TmuxInfo {
    pub installed: bool,
    pub version: Option<String>,
    pub supported: bool,
    pub sessions: Vec<SessionInfo>,
    pub integration: String,
    pub session: String,
}

/// The probe's outcome: `version_stdout` is what `tmux -V` printed (`None`
/// where it could not run or failed), `sessions_stdout` what `list-sessions`
/// printed (`None` where it was not asked or failed); `integration` defaults
/// to `ask`, `session` to the empty name.
pub fn tmux_detect(
    version_stdout: Option<&[u8]>,
    sessions_stdout: Option<&[u8]>,
    integration: Option<String>,
    session: Option<String>,
) -> (r: TmuxInfo)
    ensures
        r.integration@ == (match integration {
            Some(s) => s@,
            None => "ask"@,
        }),
        r.session@ == (match session {
            Some(s) => s@,
            None => Seq::<char>::empty(),
        }),
        version_stdout is None ==> !r.installed && r.version is None && !r.supported
            && r.sessions@.len() == 0,
        version_stdout matches Some(out) ==> ({
            let v = trim(utf8_lossy(out@));
            &&& r.installed
            &&& opt_text(r.version) == Some(v)
            &&& r.supported == version_supported_spec(v)
            &&& sessions_view(r.sessions@) == match sessions_stdout {
                Some(s) => sessions_spec(s@),
                None => Seq::<SessionView>::empty(),
            }
        }),
{
    let integration = match integration {
        Some(s) => s,
        None => string_of(&chars_of("ask")),
    };
    let session = match session {
        Some(s) => s,
        None => String::new(),
    };
    match version_stdout {
        None => TmuxInfo {
            installed: false,
            version: None,
            supported: false,
            sessions: Vec::new(),
            integration,
            session,
        },
        Some(out) => {
            let v = string_of(&trim_chars(&utf8_lossy_chars(out)));
            let supported = version_supported(v.as_str());
            let sessions = match sessions_stdout {
                Some(s) => parse_sessions(s),
                None => Vec::new(),
            };
            assert(sessions_view(Seq::<SessionInfo>::empty()) =~= Seq::<SessionView>::empty());
            TmuxInfo { installed: true, version: Some(v), supported, sessions, integration, session }
        },
    }
}

/// The session name to attach to: absent when blank.
pub open spec fn attach_session(session: Option<Seq<char>>) -> Option<Seq<char>> {
    match session {
        Some(s) => if trim(s).len() == 0 {
            None
        } else {
            Some(s)
        },
        None => None,
    }
}

/// The arguments of `tmux` for a control-mode client of `session`, created
/// first when `create` says so.
pub open spec fn attach_args_spec(session: Option<Seq<char>>, create: bool) -> Seq<Seq<char>> {
    seq!["-C"@] + match attach_session(session) {
        Some(name) => if create {
            seq!["new-session"@, "-A"@, "-s"@, name]
        } else {
            seq!["attach-session"@, "-t"@, name]
        },
        None => if create {
            seq!["new-session"@]
        } else {
            seq!["attach-session"@]
        },
    }
}

fn text(s: &str) -> (r: String)
    ensures
        r@ == s@,
{
    string_of(&chars_of(s))
}

/// The `tmux` arguments for attaching, and the session name kept.
pub fn tmux_attach_args(session: Option<String>, create: Option<bool>) -> (r: (Vec<String>, Option<
    String,
>))
    ensures
        strings_of(r.0@) == attach_args_spec(opt_text(session), create == Some(true)),
        opt_text(r.1) == attach_session(opt_text(session)),
{
    let create = match create {
        Some(c) => c,
        None => false,
    };
    let kept = match session {
        Some(s) => if trim_chars(&chars_of(s.as_str())).len() == 0 {
            None
        } else {
            Some(s)
        },
        None => None,
    };
    let mut args: Vec<String> = Vec::new();
    args.push(text("-C"));
    match &kept {
        Some(name) => if create {
            args.push(text("new-session"));
            args.push(text("-A"));
            args.push(text("-s"));
            args.push(text(name.as_str()));
        } else {
            args.push(text("attach-session"));
            args.push(text("-t"));
            args.push(text(name.as_str()));
        },
        None => if create {
            args.push(text("new-session"));
        } else {
            args.push(text("attach-session"));
        },
    }
    assert(strings_of(args@) =~= attach_args_spec(opt_text(session), create));
    (args, kept)
}

/// `n` zero tags.
pub open spec fn zeros(n: nat) -> Seq<u64> {
    Seq::new(n, |i: int| 0u64)
}

/// The tags that are not 0, in order.
pub open spec fn nonzero(s: Seq<u64>) -> Seq<u64>
    decreases s.len(),
{
    if s.len() == 0 {
        seq![]
    } else {
        nonzero(s.drop_last()) + if s.last() != 0 {
            seq![s.last()]
        } else {
            seq![]
        }
    }
}

/// How many of the events are replies to commands of this client.
pub open spec fn client_replies(evs: Seq<ControlEventView>) -> nat
    decreases evs.len(),
{
    if evs.len() == 0 {
        0
    } else {
        client_replies(evs.drop_last()) + if evs.last() is Reply && evs.last()->from_client {
            1nat
        } else {
            0nat
        }
    }
}

/// The tags of the reply notices among the frames, in order.
pub open spec fn reply_tags(fs: Seq<FrameView>) -> Seq<u64>
    decreases fs.len(),
{
    if fs.len() == 0 {
        seq![]
    } else {
        reply_tags(fs.drop_last()) + match fs.last() {
            FrameView::Notice { event, tag } => if event is Reply {
                seq![tag]
            } else {
                seq![]
            },
            _ => seq![],
        }
    }
}

pub open spec fn min_nat(a: nat, b: nat) -> nat {
    if a < b {
        a
    } else {
        b
    }
}

proof fn lemma_reply_tags_append(a: Seq<FrameView>, b: Seq<FrameView>)
    ensures
        reply_tags(a + b) == reply_tags(a) + reply_tags(b),
    decreases b.len(),
{
    if b.len() == 0 {
        assert(a + b =~= a);
    } else {
        assert((a + b).drop_last() =~= a + b.drop_last());
        lemma_reply_tags_append(a, b.drop_last());
    }
}

proof fn lemma_run_frames_no_replies(run: Option<(u32, Seq<u8>)>)
    ensures
        reply_tags(run_frames(run)) == Seq::<u64>::empty(),
{
    match run {
        Some(r) => {
            let f = run_frames(run);
            assert(f.drop_last() =~= Seq::<FrameView>::empty());
            assert(reply_tags(Seq::<FrameView>::empty()) == Seq::<u64>::empty());
            assert(reply_tags(f) =~= Seq::<u64>::empty());
        },
        None => {
            assert(reply_tags(run_frames(run)) =~= Seq::<u64>::empty());
        },
    }
}

proof fn lemma_dispatch_run_tags(p: Seq<u64>, evs: Seq<ControlEventView>)
    ensures
        ({
            let st = dispatch_run(DispatchState { run: None, pending: p, frames: seq![], writes: seq![] }, evs);
            let j = min_nat(client_replies(evs), p.len());
            &&& exists|z: nat| st.pending == p.skip(j as int) + zeros(z)
            &&& reply_tags(st.frames) == nonzero(p.take(j as int))
        }),
    decreases evs.len(),
{
    let init = DispatchState { run: None, pending: p, frames: seq![], writes: seq![] };
    if evs.len() == 0 {
        assert(p.skip(0) + zeros(0) =~= p);
        assert(p.take(0) =~= Seq::<u64>::empty());
        assert(reply_tags(Seq::<FrameView>::empty()) =~= Seq::<u64>::empty());
    } else {
        lemma_dispatch_run_tags(p, evs.drop_last());
        let st = dispatch_run(init, evs.drop_last());
        let ev = evs.last();
        let j0 = min_nat(client_replies(evs.drop_last()), p.len());
        let z0 = choose|z: nat| st.pending == p.skip(j0 as int) + zeros(z);
        let next = dispatch_step(st, ev);
        let j = min_nat(client_replies(evs), p.len());
        let frames0 = st.frames + run_frames(st.run);
        match ev {
            ControlEventView::Output { .. } => {
                assert(next.pending == p.skip(j as int) + zeros(z0));
                assert(next.frames == st.frames || next.frames == frames0);
                lemma_reply_tags_append(st.frames, run_frames(st.run));
                lemma_run_frames_no_replies(st.run);
                assert(reply_tags(frames0) =~= reply_tags(st.frames));
            },
            _ => {
                lemma_reply_tags_append(st.frames, run_frames(st.run));
                lemma_run_frames_no_replies(st.run);
                assert(reply_tags(frames0) =~= reply_tags(st.frames));
                let client = ev is Reply && ev->from_client;
                let popped = client && st.pending.len() > 0;
                let tag: u64 = if popped {
                    st.pending[0]
                } else {
                    0
                };
                let pending1 = if popped {
                    st.pending.drop_first()
                } else {
                    st.pending
                };
                let mut z1: nat = z0;
                if client {
                    if j0 < p.len() {
                        assert(j == j0 + 1);
                        assert(st.pending[0] == p[j0 as int]);
                        assert(pending1 =~= p.skip(j as int) + zeros(z0));
                        assert(p.take(j as int).drop_last() =~= p.take(j0 as int));
                        assert(p.take(j as int).last() == p[j0 as int]);
                    } else {
                        assert(j == j0);
                        assert(p.skip(j0 as int) =~= Seq::<u64>::empty());
                        if z0 > 0 {
                            assert(st.pending[0] == 0);
                            z1 = (z0 - 1) as nat;
                            assert(pending1 =~= p.skip(j as int) + zeros(z1));
                        } else {
                            assert(st.pending.len() == 0);
                        }
                    }
                } else {
                    assert(j == j0);
                }
                assert(pending1 == p.skip(j as int) + zeros(z1));
                let kept = !(ev is Other) && !(ev is Reply && tag == 0);
                if kept {
                    let f = frames0.push(FrameView::Notice { event: ev, tag });
                    assert(f.drop_last() =~= frames0);
                    assert(reply_tags(f) == reply_tags(frames0) + if ev is Reply {
                        seq![tag]
                    } else {
                        Seq::<u64>::empty()
                    });
                }
                match ev {
                    ControlEventView::Pause { pane } => {
                        assert(pending1.push(0) =~= p.skip(j as int) + zeros(z1 + 1));
                        assert(next.pending == p.skip(j as int) + zeros(z1 + 1));
                    },
                    _ => {
                        assert(next.pending == p.skip(j as int) + zeros(z1));
                    },
                }
                assert(reply_tags(next.frames) =~= nonzero(p.take(j as int)));
            },
        }
    }
}

/// Replies reach the frontend with the tags of the commands they answer:
/// the tags on reply notices are, in order, the non-zero tags among as many
/// of the oldest pending tags as there were replies to our commands.
/// Replies of others and replies to untagged commands are not forwarded.
pub proof fn lemma_dispatch_tags_replies(pending: Seq<u64>, evs: Seq<ControlEventView>)
    ensures
        reply_tags(dispatch_spec(pending, evs).frames) == nonzero(
            pending.take(min_nat(client_replies(evs), pending.len()) as int),
        ),
{
    lemma_dispatch_run_tags(pending, evs);
    let st = dispatch_run(DispatchState { run: None, pending, frames: seq![], writes: seq![] }, evs);
    lemma_reply_tags_append(st.frames, run_frames(st.run));
    lemma_run_frames_no_replies(st.run);
    assert(st.frames + run_frames(st.run) == dispatch_spec(pending, evs).frames);
    assert(reply_tags(st.frames) + Seq::<u64>::empty() =~= reply_tags(st.frames));
}

} // verus!
