use mdterm::tmux::{
    output_frame, parse_sessions, parse_version, send_keys_commands, tmux_attach_args, tmux_detect,
    version_supported, Conn, Frame, InbandStep, InbandTracker, SessionInfo, SEND_KEYS_CHUNK,
};
use mdterm::tmux_parser::{ControlEvent, ControlParser};

#[test]
fn versions() {
    assert_eq!(parse_version("tmux 3.4"), Some((3, 4)));
    assert_eq!(parse_version("tmux 3.5a"), Some((3, 5)));
    assert_eq!(parse_version("tmux next-3.6"), Some((3, 6)));
    assert_eq!(parse_version("tmux master"), None);
    assert!(version_supported("tmux 3.2a"));
    assert!(!version_supported("tmux 2.9"));
    assert!(version_supported("tmux master"));
}

#[test]
fn send_keys_is_hex_and_chunked() {
    assert_eq!(send_keys_commands(3, b"hi\r"), vec!["send-keys -H -t %3 68 69 0d"]);
    let big = vec![b'a'; SEND_KEYS_CHUNK * 2 + 1];
    assert_eq!(send_keys_commands(1, &big).len(), 3);
}

#[test]
fn dispatch_merges_output_and_tags_replies() {
    let mut conn = Conn::new(None, None);
    let line = conn
        .write_commands(&["display -p x".to_string(), "capture-pane -p".to_string()], &[7, 8])
        .unwrap();
    assert_eq!(line.as_deref(), Some("display -p x ; capture-pane -p\n"));

    let mut p = ControlParser::new();
    let evs = p
        .feed(b"%begin 1 1 0\n%end 1 1 0\n%output %1 a\n%output %1 b\n%output %2 c\n%begin 1 2 1\nx\n%end 1 2 1\n%begin 1 3 1\n%error 1 3 1\n%pause %2\n")
        .events;
    let d = conn.dispatch(evs);
    assert!(d.send.is_empty());
    let frames = conn.backlog();
    assert_eq!(frames[0], Frame::Output { pane: 1, data: b"ab".to_vec() });
    assert_eq!(frames[1], Frame::Output { pane: 2, data: b"c".to_vec() });
    assert_eq!(
        frames[2],
        Frame::Notice {
            event: ControlEvent::Reply { number: 2, from_client: true, ok: true, lines: vec!["x".to_string()] },
            tag: 7,
        }
    );
    match &frames[3] {
        Frame::Notice { event: ControlEvent::Reply { ok, .. }, tag } => {
            assert_eq!(*tag, 8);
            assert!(!*ok);
        }
        other => panic!("unexpected frame {:?}", other),
    }
    assert!(d.writes.last().unwrap().ends_with("refresh-client -A '%2:continue'\n"));
    assert_eq!(conn.pending_tags().first(), Some(&0));
}

#[test]
fn output_frame_is_pane_little_endian_then_bytes() {
    assert_eq!(output_frame(0x01020304, b"xy"), vec![1, 4, 3, 2, 1, b'x', b'y']);
    assert_eq!(output_frame(7, b""), vec![1, 7, 0, 0, 0]);
}

#[test]
fn dispatch_keeps_every_output_byte_in_order() {
    let mut conn = Conn::new(None, None);
    let evs = vec![
        ControlEvent::Output { pane: 1, data: b"ab".to_vec() },
        ControlEvent::Output { pane: 1, data: b"c".to_vec() },
        ControlEvent::Output { pane: 2, data: b"d".to_vec() },
        ControlEvent::SessionsChanged,
        ControlEvent::Output { pane: 2, data: b"e".to_vec() },
    ];
    let subscribed = conn.subscribe();
    assert!(subscribed.is_empty());
    let d = conn.dispatch(evs);
    let mut bytes = Vec::new();
    for f in &d.send {
        if let Frame::Output { pane, data } = f {
            for b in data {
                bytes.push((*pane, *b));
            }
        }
    }
    assert_eq!(bytes, vec![(1, b'a'), (1, b'b'), (1, b'c'), (2, b'd'), (2, b'e')]);
    assert_eq!(d.send.len(), 4);
    assert!(conn.backlog().is_empty());
}

#[test]
fn untracked_and_unmatched_replies_are_dropped() {
    let mut conn = Conn::new(None, None);
    conn.write_commands(&["a".to_string()], &[0]).unwrap();
    let evs = vec![
        ControlEvent::Reply { number: 1, from_client: true, ok: true, lines: vec![] },
        ControlEvent::Reply { number: 2, from_client: true, ok: true, lines: vec![] },
        ControlEvent::Other { line: "%unknown".to_string() },
        ControlEvent::ClientDetached,
    ];
    let d = conn.dispatch(evs);
    assert!(d.writes.is_empty());
    assert_eq!(conn.backlog().len(), 1);
    assert_eq!(conn.backlog()[0], Frame::Notice { event: ControlEvent::ClientDetached, tag: 0 });
    assert!(conn.pending_tags().is_empty());
}

#[test]
fn commands_with_line_breaks_are_refused() {
    let mut conn = Conn::new(Some("7".to_string()), None);
    assert_eq!(
        conn.write_commands(&["ok".to_string(), "bad\rline".to_string()], &[1, 2]),
        Err("tmux commands must be single-line".to_string())
    );
    assert!(conn.pending_tags().is_empty());
    assert_eq!(conn.write_commands(&[], &[]), Ok(None));
    assert_eq!(conn.write_commands(&["x".to_string(), "y".to_string()], &[5]), Ok(Some("x ; y\n".to_string())));
    assert_eq!(conn.pending_tags(), vec![5, 0]);
    let info = conn.subscribe_info();
    assert_eq!(info.origin.as_deref(), Some("7"));
    assert_eq!(info.session, None);
}

#[test]
fn sessions_are_listed_by_recent_activity() {
    let out = b"work\t3\t1\t100\nold\t1\t0\t5\nbroken line\nnew\tx\t2\t900\ntie\t2\t0\t100\n";
    let s = parse_sessions(out);
    let names: Vec<&str> = s.iter().map(|x| x.name.as_str()).collect();
    assert_eq!(names, vec!["new", "work", "tie", "old"]);
    assert_eq!(s[0], SessionInfo { name: "new".to_string(), windows: 0, attached: 2, activity: 900 });
}

#[test]
fn sessions_read_invalid_utf8_lossily() {
    let out = b"caf\xff\t1\t0\t1\n";
    let s = parse_sessions(out);
    assert_eq!(s.len(), 1);
    assert_eq!(s[0].name, "caf\u{FFFD}");
}

#[test]
fn detect_reports_versions_and_sessions() {
    let info = tmux_detect(Some(b"tmux 3.4\n"), Some(b"a\t1\t0\t2\n"), None, None);
    assert!(info.installed);
    assert_eq!(info.version.as_deref(), Some("tmux 3.4"));
    assert!(info.supported);
    assert_eq!(info.sessions.len(), 1);
    assert_eq!(info.integration, "ask");
    assert_eq!(info.session, "");
    let none = tmux_detect(None, None, Some("never".to_string()), Some("s".to_string()));
    assert!(!none.installed && none.version.is_none() && !none.supported);
    assert_eq!(none.integration, "never");
}

#[test]
fn attach_arguments() {
    let (args, kept) = tmux_attach_args(Some("main".to_string()), Some(true));
    assert_eq!(args, vec!["-C", "new-session", "-A", "-s", "main"]);
    assert_eq!(kept.as_deref(), Some("main"));
    let (args, kept) = tmux_attach_args(Some("  ".to_string()), None);
    assert_eq!(args, vec!["-C", "attach-session"]);
    assert_eq!(kept, None);
    let (args, _) = tmux_attach_args(None, Some(true));
    assert_eq!(args, vec!["-C", "new-session"]);
    let (args, _) = tmux_attach_args(Some("w".to_string()), Some(false));
    assert_eq!(args, vec!["-C", "attach-session", "-t", "w"]);
}

#[test]
fn inband_tracker_enters_and_leaves_control_mode() {
    let mut t = InbandTracker::new();
    assert_eq!(t.step(b"hello \x1bP10"), InbandStep::Terminal(b"hello ".to_vec()));
    match t.step(b"00p%begin 1 1 0\n") {
        InbandStep::Start { before, after } => {
            assert!(before.is_empty());
            assert_eq!(after, b"%begin 1 1 0\n".to_vec());
        }
        other => panic!("unexpected {:?}", other),
    }
    t.attach(4);
    assert_eq!(t.active_conn(), Some(4));
    match t.step(b"%output %1 x\n%exit\r\n\x1b\\$ ") {
        InbandStep::Control { conn, events, rest } => {
            assert_eq!(conn, 4);
            assert_eq!(events[0], ControlEvent::Output { pane: 1, data: b"x".to_vec() });
            assert_eq!(rest, Some(b"$ ".to_vec()));
        }
        other => panic!("unexpected {:?}", other),
    }
    assert_eq!(t.active_conn(), None);
    assert_eq!(t.close(), None);
    t.attach(5);
    assert_eq!(t.close(), Some((5, false)));
}

#[test]
fn tmux_tab_ids() {
    assert!(mdterm::tmux::is_tmux_session("tmux-1-@2"));
    assert!(!mdterm::tmux::is_tmux_session("term-1"));
    assert!(!mdterm::tmux::is_tmux_session("tmux"));
}

/// Runs the tracker over reads as the PTY session does: a start attaches a
/// new connection and the rest of the read is stepped again; so is what
/// follows the end of control mode.
fn run_tracker(reads: &[&[u8]]) -> (Vec<u8>, Vec<ControlEvent>, u32) {
    let mut t = InbandTracker::new();
    let mut terminal = Vec::new();
    let mut events = Vec::new();
    let mut opened = 0u32;
    for r in reads {
        let mut input = r.to_vec();
        loop {
            match t.step(&input) {
                InbandStep::Terminal(b) => {
                    terminal.extend(b);
                    break;
                }
                InbandStep::Start { before, after } => {
                    terminal.extend(before);
                    opened += 1;
                    t.attach(opened);
                    input = after;
                }
                InbandStep::Control { events: e, rest, .. } => {
                    events.extend(e);
                    match rest {
                        Some(rest) => input = rest,
                        None => break,
                    }
                }
            }
        }
    }
    (terminal, events, opened)
}

#[test]
fn inband_stream_is_read_alike_in_any_chunking() {
    let stream: &[u8] = b"$ tmux -CC\r\n\x1bP1000p%begin 1 1 0\n%end 1 1 0\n%output %1 hi\n%exit\r\n\x1b\\$ done";
    let whole = run_tracker(&[stream]);
    assert_eq!(whole.0, b"$ tmux -CC\r\n$ done".to_vec());
    assert_eq!(whole.2, 1);
    let bytes: Vec<&[u8]> = stream.chunks(1).collect();
    assert_eq!(run_tracker(&bytes), whole);
    let threes: Vec<&[u8]> = stream.chunks(3).collect();
    assert_eq!(run_tracker(&threes), whole);
}
