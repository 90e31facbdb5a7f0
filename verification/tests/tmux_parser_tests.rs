use mdterm::tmux_parser::{decode_octal, ControlParser, DcsDetector, Detect, ControlEvent};

fn feed_all(p: &mut ControlParser, s: &[u8]) -> Vec<ControlEvent> {
    p.feed(s).events
}

#[test]
fn decodes_octal_escapes() {
    assert_eq!(decode_octal(br"a\033[1mb\134c\015\012"), b"a\x1b[1mb\\c\r\n");
    // UTF-8 passes through raw.
    assert_eq!(decode_octal("─ok".as_bytes()), "─ok".as_bytes());
    // A lone backslash without a valid triplet is kept verbatim.
    assert_eq!(decode_octal(br"x\9"), br"x\9");
}

#[test]
fn parses_output_and_extended_output() {
    let mut p = ControlParser::new();
    let evs = feed_all(
        &mut p,
        b"%output %3 hi\\015\\012\n%extended-output %4 12 : x\\033y\n",
    );
    assert_eq!(
        evs,
        vec![
            ControlEvent::Output { pane: 3, data: b"hi\r\n".to_vec() },
            ControlEvent::Output { pane: 4, data: b"x\x1by".to_vec() },
        ]
    );
}

#[test]
fn collects_reply_blocks_and_flags() {
    let mut p = ControlParser::new();
    let evs = feed_all(
        &mut p,
        b"%begin 1 277 0\n%end 1 277 0\n%begin 1 282 1\nA 2\n%output %1 not-a-notification\n%end 1 282 1\n%begin 1 283 1\nparse error\n%error 1 283 1\n",
    );
    assert_eq!(
        evs,
        vec![
            ControlEvent::Reply { number: 277, from_client: false, ok: true, lines: vec![] },
            ControlEvent::Reply {
                number: 282,
                from_client: true,
                ok: true,
                lines: vec!["A 2".into(), "%output %1 not-a-notification".into()],
            },
            ControlEvent::Reply {
                number: 283,
                from_client: true,
                ok: false,
                lines: vec!["parse error".into()],
            },
        ]
    );
}

#[test]
fn handles_crlf_and_split_reads() {
    let mut p = ControlParser::new();
    let mut evs = feed_all(&mut p, b"%layout-change @0 8205,80x24,0,0{40x24,0,0,0,39x24,41");
    assert!(evs.is_empty());
    evs = feed_all(&mut p, b",0,1} 8205,80x24,0,0{40x24,0,0,0,39x24,41,0,1} *\r\n%window-renamed @0 my shell\r\n");
    assert_eq!(
        evs,
        vec![
            ControlEvent::LayoutChange {
                window: 0,
                layout: "8205,80x24,0,0{40x24,0,0,0,39x24,41,0,1}".into(),
                visible_layout: "8205,80x24,0,0{40x24,0,0,0,39x24,41,0,1}".into(),
                flags: "*".into(),
            },
            ControlEvent::WindowRenamed { window: 0, name: "my shell".into() },
        ]
    );
}

#[test]
fn parses_structural_notifications() {
    let mut p = ControlParser::new();
    let evs = feed_all(
        &mut p,
        b"%window-add @2\n%window-close @2\n%unlinked-window-close @3\n%window-pane-changed @0 %1\n%session-changed $0 probe\n%session-window-changed $0 @1\n%sessions-changed\n%pane-mode-changed %1\n%pause %1\n%continue %1\n%unknown thing\n",
    );
    assert_eq!(
        evs,
        vec![
            ControlEvent::WindowAdd { window: 2 },
            ControlEvent::WindowClose { window: 2 },
            ControlEvent::WindowClose { window: 3 },
            ControlEvent::WindowPaneChanged { window: 0, pane: 1 },
            ControlEvent::SessionChanged { session: 0, name: "probe".into() },
            ControlEvent::SessionWindowChanged { session: 0, window: 1 },
            ControlEvent::SessionsChanged,
            ControlEvent::PaneModeChanged { pane: 1 },
            ControlEvent::Pause { pane: 1 },
            ControlEvent::Continue { pane: 1 },
            ControlEvent::Other { line: "%unknown thing".into() },
        ]
    );
}

#[test]
fn exit_returns_trailing_terminal_bytes() {
    let mut p = ControlParser::new();
    let r = p.feed(b"%exit\r\n\x1b\\$ prompt");
    assert_eq!(r.events, vec![ControlEvent::Exit { reason: None }]);
    assert_eq!(r.trailing.as_deref(), Some(&b"$ prompt"[..]));
    assert!(p.exited());
}

#[test]
fn exit_waits_for_string_terminator() {
    let mut p = ControlParser::new();
    let r = p.feed(b"%exit detached\r\n\x1b");
    assert_eq!(r.events, vec![ControlEvent::Exit { reason: Some("detached".into()) }]);
    assert!(r.trailing.is_none());
    let r = p.feed(b"\\");
    assert_eq!(r.trailing.as_deref(), Some(&b""[..]));
}

#[test]
fn dcs_detector_finds_split_sequence() {
    let mut d = DcsDetector::default();
    match d.feed(b"hello \x1bP10") {
        Detect::Passthrough(b) => assert_eq!(b, b"hello "),
        _ => panic!("unexpected start"),
    }
    match d.feed(b"00p%begin") {
        Detect::Started { before, after } => {
            assert!(before.is_empty());
            assert_eq!(after, b"%begin");
        }
        _ => panic!("missed start"),
    }
}

#[test]
fn dcs_detector_releases_non_matching_hold() {
    let mut d = DcsDetector::default();
    match d.feed(b"abc\x1b") {
        Detect::Passthrough(b) => assert_eq!(b, b"abc"),
        _ => panic!(),
    }
    match d.feed(b"[1m") {
        Detect::Passthrough(b) => assert_eq!(b, b"\x1b[1m"),
        _ => panic!(),
    }
}

#[test]
fn byte_by_byte_reads_match_one_read() {
    let s: &[u8] = b"%begin 1 7 1\r\nline one\n%end 1 7 1\n%output %1 hi\\012\n%window-add @3\n%exit\r\n\x1b\\tail";
    let mut whole = ControlParser::new();
    let w = whole.feed(s);
    let mut split = ControlParser::new();
    let mut events = Vec::new();
    let mut trailing = None;
    for (i, b) in s.iter().enumerate() {
        let r = split.feed(&[*b]);
        events.extend(r.events);
        if let Some(t) = r.trailing {
            let mut t = t;
            t.extend_from_slice(&s[i + 1..]);
            trailing = Some(t);
            break;
        }
    }
    assert_eq!(events, w.events);
    assert_eq!(trailing, w.trailing);
}

#[test]
fn crlf_and_lf_line_ends_give_the_same_events() {
    let lf: &[u8] = b"%begin 1 2 1\nok\n%end 1 2 1\n%session-changed $1 main\n";
    let crlf: &[u8] = b"%begin 1 2 1\r\nok\r\n%end 1 2 1\r\n%session-changed $1 main\r\n";
    assert_eq!(ControlParser::new().feed(lf).events, ControlParser::new().feed(crlf).events);
}

#[test]
fn detector_over_many_reads_matches_one_read() {
    let stream: &[u8] = b"ab\x1bP1\x1bP1000p%begin";
    let mut d = DcsDetector::default();
    let mut passed = Vec::new();
    let mut after = None;
    for (i, b) in stream.iter().enumerate() {
        match d.feed(&[*b]) {
            Detect::Passthrough(p) => passed.extend(p),
            Detect::Started { before, after: a } => {
                passed.extend(before);
                let mut a = a;
                a.extend_from_slice(&stream[i + 1..]);
                after = Some(a);
                break;
            }
        }
    }
    assert_eq!(passed, b"ab\x1bP1");
    assert_eq!(after.as_deref(), Some(&b"%begin"[..]));
}
