use mdterm::term_rec::{
    parse_args, parse_pane_line, recorder_env, recording_stop, resize_due, strip_tmux_styles,
    trim_line_ends, ArgError, PaneGeometry, RecStop,
};

fn args(v: &[&str]) -> Vec<String> {
    v.iter().map(|s| s.to_string()).collect()
}

#[test]
fn strips_tmux_style_directives() {
    assert_eq!(strip_tmux_styles("#[fg=red]0:bash#[default]*  "), "0:bash*");
    assert_eq!(strip_tmux_styles("<a#[x]b>"), "ab");
    assert_eq!(strip_tmux_styles("#x [y]"), "#x [y]");
    assert_eq!(strip_tmux_styles("#[unclosed"), "");
}

#[test]
fn trims_line_ends() {
    assert_eq!(trim_line_ends("status\r\n\n"), "status");
    assert_eq!(trim_line_ends("a\nb"), "a\nb");
}

#[test]
fn reads_pane_lines() {
    assert_eq!(
        parse_pane_line("%1 0 0 80 23"),
        Some(PaneGeometry { id: "%1".to_string(), left: 0, top: 0, width: 80, height: 23 })
    );
    assert_eq!(
        parse_pane_line("  %2\t41 x 39 99999 extra"),
        Some(PaneGeometry { id: "%2".to_string(), left: 41, top: 0, width: 39, height: 0 })
    );
    assert_eq!(parse_pane_line("%3 1 2 3"), None);
}

#[test]
fn parses_command_lines() {
    let a = parse_args(&args(&["term-rec", "--cols", "100", "--tmux", "--out", "o", "--resize", "90x30", "--", "sh", "-c", "ls"])).unwrap();
    assert_eq!(a.cols, 100);
    assert_eq!(a.rows, 24);
    assert!(a.tmux);
    assert_eq!(a.out_dir.as_deref(), Some("o"));
    assert_eq!(a.resize, Some((90, 30)));
    assert_eq!(a.quiet_ms, 500);
    assert_eq!(a.timeout_ms, 10000);
    assert_eq!(a.command, args(&["sh", "-c", "ls"]));
    let b = parse_args(&args(&["term-rec", "--out", "o", "vim", "--cols", "5"])).unwrap();
    assert_eq!(b.command, args(&["vim", "--cols", "5"]));
    assert_eq!(b.cols, 80);
}

#[test]
fn refuses_bad_command_lines() {
    assert_eq!(parse_args(&args(&["r", "--cols"])), Err(ArgError::MissingValue("--cols".to_string())));
    assert_eq!(parse_args(&args(&["r", "--rows", "x1"])), Err(ArgError::BadNumber("x1".to_string())));
    assert_eq!(parse_args(&args(&["r", "--resize", "80"])), Err(ArgError::BadResize("80".to_string())));
    assert_eq!(parse_args(&args(&["r", "--resize", "80xq"])), Err(ArgError::BadNumber("q".to_string())));
    assert_eq!(parse_args(&args(&["r", "--bogus"])), Err(ArgError::Unknown("--bogus".to_string())));
    assert_eq!(parse_args(&args(&["r", "sh"])), Err(ArgError::MissingOut));
    assert_eq!(parse_args(&args(&["r", "--out", "o", "--"])), Err(ArgError::MissingCommand));
}

#[test]
fn recorder_environment() {
    let env = recorder_env("/bin", "/root", Some("/w"));
    assert_eq!(env[4], ("LANG".to_string(), "C.UTF-8".to_string()));
    assert_eq!(env[5].1, "/w/bin:/root/.local/bin:/bin");
    let env = recorder_env("", "", None);
    assert_eq!(env[5].1, "::");
}

#[test]
fn stopping_and_resizing() {
    assert_eq!(recording_stop(600, 700, 500, 10000, false), RecStop::Quiet);
    assert_eq!(recording_stop(600, 700, 500, 10000, true), RecStop::Continue);
    assert_eq!(recording_stop(10, 10000, 500, 10000, true), RecStop::Timeout);
    assert_eq!(resize_due(100, Some(50), Some((90, 30)), false), Some((90, 30)));
    assert_eq!(resize_due(100, Some(50), Some((90, 30)), true), None);
    assert_eq!(resize_due(10, Some(50), Some((90, 30)), false), None);
    assert_eq!(resize_due(100, None, Some((90, 30)), false), None);
}
