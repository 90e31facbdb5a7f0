//! The terminal recorder's own logic: its command line, when a recording
//! stops, and reading tmux's pane list and status line.
use vstd::prelude::*;
use crate::text::{
    chars_of, string_of, push_str, push_all, slice_chars, trim, trim_chars, parse_uint,
    parse_uint_chars, eq_str, words, words_of, index_of, index_of_from, lemma_index_of,
};
use crate::config::{join_path, join_path_exec};
use crate::tmux::strings_of;

verus! {

broadcast use vstd::string::group_string_axioms;

// ---------------------------------------------------------------------------
// tmux status text
// ---------------------------------------------------------------------------

/// `s` with tmux style directives `#[…]` removed: from `#[` up to and
/// including the next `]`.
pub open spec fn unstyled(s: Seq<char>, inside: bool) -> Seq<char>
    decreases s.len(),
{
    if s.len() == 0 {
        seq![]
    } else if !inside && s[0] == '#' && s.len() > 1 && s[1] == '[' {
        unstyled(s.skip(2), true)
    } else if inside {
        unstyled(s.drop_first(), s[0] != ']')
    } else {
        seq![s[0]] + unstyled(s.drop_first(), false)
    }
}

/// `s` without `<` and `>`.
pub open spec fn without_angles(s: Seq<char>) -> Seq<char>
    decreases s.len(),
{
    if s.len() == 0 {
        seq![]
    } else {
        without_angles(s.drop_last()) + if s.last() == '<' || s.last() == '>' {
            seq![]
        } else {
            seq![s.last()]
        }
    }
}

/// A status line with its style directives and window-list overflow
/// markers removed, trimmed.
pub open spec fn strip_tmux_styles_spec(s: Seq<char>) -> Seq<char> {
    trim(without_angles(unstyled(s, false)))
}

pub fn strip_tmux_styles(s: &str) -> (r: String)
    ensures
        r@ == strip_tmux_styles_spec(s@),
{
    let chars = chars_of(s);
    let n = chars.len();
    let mut result: Vec<char> = Vec::new();
    let mut inside = false;
    let mut i: usize = 0;
    assert(chars@.subrange(0, n as int) =~= chars@);
    while i < n
        invariant
            i <= n == chars@.len(),
            result@ + unstyled(chars@.subrange(i as int, n as int), inside) == unstyled(chars@, false),
        decreases n - i,
    {
        let ghost rest = chars@.subrange(i as int, n as int);
        if !inside && chars[i] == '#' && i + 1 < n && chars[i + 1] == '[' {
            assert(rest.skip(2) =~= chars@.subrange(i + 2, n as int));
            inside = true;
            i = i + 2;
        } else if inside {
            assert(rest.drop_first() =~= chars@.subrange(i + 1, n as int));
            if chars[i] == ']' {
                inside = false;
            }
            i = i + 1;
        } else {
            assert(rest.drop_first() =~= chars@.subrange(i + 1, n as int));
            let ghost before = result@;
            result.push(chars[i]);
            assert(result@ =~= before + seq![rest[0]]);
            i = i + 1;
        }
    }
    assert(unstyled(chars@.subrange(n as int, n as int), inside) =~= Seq::<char>::empty());
    let mut kept: Vec<char> = Vec::new();
    let mut j: usize = 0;
    assert(result@.take(0) =~= Seq::<char>::empty());
    while j < result.len()
        invariant
            j <= result@.len(),
            kept@ == without_angles(result@.take(j as int)),
        decreases result@.len() - j,
    {
        assert(result@.take(j + 1).drop_last() =~= result@.take(j as int));
        let c = result[j];
        if c != '<' && c != '>' {
            kept.push(c);
        }
        j = j + 1;
        assert(kept@ =~= without_angles(result@.take(j as int)));
    }
    assert(result@.take(j as int) =~= result@);
    string_of(&trim_chars(&kept))
}

/// `s` without trailing `\r` and `\n`.
pub open spec fn trim_line_ends_spec(s: Seq<char>) -> Seq<char>
    decreases s.len(),
{
    if s.len() > 0 && (s.last() == '\r' || s.last() == '\n') {
        trim_line_ends_spec(s.drop_last())
    } else {
        s
    }
}

pub fn trim_line_ends(s: &str) -> (r: String)
    ensures
        r@ == trim_line_ends_spec(s@),
{
    let c = chars_of(s);
    let mut n = c.len();
    assert(c@.take(n as int) =~= c@);
    while n > 0 && (c[n - 1] == '\r' || c[n - 1] == '\n')
        invariant
            n <= c@.len(),
            trim_line_ends_spec(c@) == trim_line_ends_spec(c@.take(n as int)),
        decreases n,
    {
        assert(c@.take(n as int).drop_last() =~= c@.take(n - 1));
        n = n - 1;
    }
    string_of(&slice_chars(&c, 0, n))
}

// ---------------------------------------------------------------------------
// Pane geometry
// ---------------------------------------------------------------------------

#[derive(Debug, Clone, PartialEq, Eq)]
pub struct PaneGeometry {
    pub id: String,
    pub left: u16,
    pub top: u16,
    pub width: u16,
    pub height: u16,
}

pub struct PaneGeometryView {
    pub id: Seq<char>,
    pub left: u16,
    pub top: u16,
    pub width: u16,
    pub height: u16,
}

impl View for PaneGeometry {
    type V = PaneGeometryView;

    open spec fn view(&self) -> PaneGeometryView {
        PaneGeometryView { id: self.id@, left: self.left, top: self.top, width: self.width, height: self.height }
    }
}

/// A number of the pane list, 0 where it does not read as one.
pub open spec fn u16_or_zero(t: Seq<char>) -> u16 {
    match parse_uint(t, u16::MAX as nat) {
        Some(v) => v as u16,
        None => 0,
    }
}

/// A `list-panes` line `id left top width height`; lines with fewer words are skipped.
pub open spec fn pane_of_line(line: Seq<char>) -> Option<PaneGeometryView> {
    let w = words(line);
    if w.len() < 5 {
        None
    } else {
        Some(
            PaneGeometryView {
                id: w[0],
                left: u16_or_zero(w[1]),
                top: u16_or_zero(w[2]),
                width: u16_or_zero(w[3]),
                height: u16_or_zero(w[4]),
            },
        )
    }
}

fn u16_or_zero_exec(t: &Vec<char>) -> (r: u16)
    ensures
        r == u16_or_zero(t@),
{
    match parse_uint_chars(t, 65535u64) {
        Some(v) => v as u16,
        None => 0,
    }
}

pub fn parse_pane_line(line: &str) -> (r: Option<PaneGeometry>)
    ensures
        match r {
            Some(p) => pane_of_line(line@) == Some(p@),
            None => pane_of_line(line@) is None,
        },
{
    let w = words_of(&chars_of(line));
    let ghost wv = w@.map_values(|x: Vec<char>| x@);
    if w.len() < 5 {
        return None;
    }
    assert(wv[0] == w@[0]@ && wv[1] == w@[1]@ && wv[2] == w@[2]@ && wv[3] == w@[3]@ && wv[4] == w@[4]@);
    Some(
        PaneGeometry {
            id: string_of(&w[0]),
            left: u16_or_zero_exec(&w[1]),
            top: u16_or_zero_exec(&w[2]),
            width: u16_or_zero_exec(&w[3]),
            height: u16_or_zero_exec(&w[4]),
        },
    )
}

// ---------------------------------------------------------------------------
// Recording environment and stopping
// ---------------------------------------------------------------------------

/// The recorder's shell variables: like the terminal's, with `C.UTF-8`
/// always and `$HOME/.local/bin` spelled out.
pub open spec fn recorder_env_spec(existing_path: Seq<char>, home: Seq<char>, current_dir: Option<Seq<char>>) -> Seq<
    (Seq<char>, Seq<char>),
> {
    let home_bin = if home.len() > 0 {
        home + "/.local/bin"@
    } else {
        seq![]
    };
    let repo_bin = match current_dir {
        Some(d) => join_path(d, "bin"@),
        None => seq![],
    };
    seq![
        ("TERM"@, "xterm-256color"@),
        ("COLORTERM"@, "truecolor"@),
        ("MDTERM"@, "1"@),
        ("TERM_PROGRAM"@, "mdterm"@),
        ("LANG"@, "C.UTF-8"@),
        ("PATH"@, repo_bin + seq![':'] + home_bin + seq![':'] + existing_path),
    ]
}

fn kv(k: &str, v: &str) -> (r: (String, String))
    ensures
        r.0@ == k@,
        r.1@ == v@,
{
    (string_of(&chars_of(k)), string_of(&chars_of(v)))
}

/// The recorder's shell variables, given the current `PATH` and `HOME`
/// (empty where unset) and the working directory.
pub fn recorder_env(existing_path: &str, home: &str, current_dir: Option<&str>) -> (r: Vec<(String, String)>)
    ensures
        crate::pty::pairs_view(r@) == recorder_env_spec(
            existing_path@,
            home@,
            match current_dir {
                Some(d) => Some(d@),
                None => None,
            },
        ),
{
    let ghost dv = match current_dir {
        Some(d) => Some(d@),
        None => None,
    };
    let ghost home_bin = if home@.len() > 0 {
        home@ + "/.local/bin"@
    } else {
        Seq::<char>::empty()
    };
    let ghost repo_bin = match dv {
        Some(d) => join_path(d, "bin"@),
        None => Seq::<char>::empty(),
    };
    let mut path: Vec<char> = match current_dir {
        Some(d) => chars_of(join_path_exec(d, "bin").as_str()),
        None => Vec::new(),
    };
    assert(path@ =~= repo_bin);
    path.push(':');
    let h = chars_of(home);
    if h.len() > 0 {
        push_str(&mut path, home);
        push_str(&mut path, "/.local/bin");
    }
    assert(path@ =~= repo_bin + seq![':'] + home_bin);
    path.push(':');
    push_str(&mut path, existing_path);
    let ghost pv = repo_bin + seq![':'] + home_bin + seq![':'] + existing_path@;
    assert(path@ =~= pv);
    let mut env: Vec<(String, String)> = Vec::new();
    env.push(kv("TERM", "xterm-256color"));
    env.push(kv("COLORTERM", "truecolor"));
    env.push(kv("MDTERM", "1"));
    env.push(kv("TERM_PROGRAM", "mdterm"));
    env.push(kv("LANG", "C.UTF-8"));
    env.push((string_of(&chars_of("PATH")), string_of(&path)));
    assert(crate::pty::pairs_view(env@) =~= recorder_env_spec(existing_path@, home@, dv));
    env
}

/// Whether a recording goes on.
#[derive(Debug, Clone, Copy, PartialEq, Eq)]
pub enum RecStop {
    Continue,
    /// The output has been quiet long enough (and no resize is still due).
    Quiet,
    /// The time limit is reached.
    Timeout,
}

/// Stop when quiet for `quiet_ms` with no resize pending, or after `timeout_ms` in all.
pub fn recording_stop(quiet_for_ms: u64, total_ms: u64, quiet_ms: u64, timeout_ms: u64, resize_pending: bool) -> (r: RecStop)
    ensures
        r == (if !resize_pending && quiet_for_ms >= quiet_ms {
            RecStop::Quiet
        } else if total_ms >= timeout_ms {
            RecStop::Timeout
        } else {
            RecStop::Continue
        }),
{
    if !resize_pending && quiet_for_ms >= quiet_ms {
        RecStop::Quiet
    } else if total_ms >= timeout_ms {
        RecStop::Timeout
    } else {
        RecStop::Continue
    }
}

/// The size to resize to now: the requested one, once its time has come,
/// when not done yet.
pub fn resize_due(elapsed_ms: u64, resize_after_ms: Option<u64>, resize: Option<(u16, u16)>, resized: bool) -> (r: Option<(u16, u16)>)
    ensures
        r == (match (resize_after_ms, resize) {
            (Some(after), Some(dims)) => if !resized && elapsed_ms >= after {
                Some(dims)
            } else {
                None
            },
            _ => None,
        }),
{
    match (resize_after_ms, resize) {
        (Some(after), Some(dims)) => if !resized && elapsed_ms >= after {
            Some(dims)
        } else {
            None
        },
        _ => None,
    }
}

// ---------------------------------------------------------------------------
// Command line
// ---------------------------------------------------------------------------

/// What the recorder was asked to do.
#[derive(Debug, Clone, PartialEq, Eq)]
pub struct RecArgs {
    pub cols: u16,
    pub rows: u16,
    pub out_dir: Option<String>,
    pub tmux: bool,
    pub quiet_ms: u64,
    pub timeout_ms: u64,
    pub resize_after_ms: Option<u64>,
    pub resize: Option<(u16, u16)>,
    pub command: Vec<String>,
}

pub struct RecArgsView {
    pub cols: u16,
    pub rows: u16,
    pub out_dir: Option<Seq<char>>,
    pub tmux: bool,
    pub quiet_ms: u64,
    pub timeout_ms: u64,
    pub resize_after_ms: Option<u64>,
    pub resize: Option<(u16, u16)>,
    pub command: Seq<Seq<char>>,
}

impl View for RecArgs {
    type V = RecArgsView;

    open spec fn view(&self) -> RecArgsView {
        RecArgsView {
            cols: self.cols,
            rows: self.rows,
            out_dir: match self.out_dir {
                Some(d) => Some(d@),
                None => None,
            },
            tmux: self.tmux,
            quiet_ms: self.quiet_ms,
            timeout_ms: self.timeout_ms,
            resize_after_ms: self.resize_after_ms,
            resize: self.resize,
            command: strings_of(self.command@),
        }
    }
}

/// Why a command line is refused.
#[derive(Debug, Clone, PartialEq, Eq)]
pub enum ArgError {
    /// An option that takes a value came last.
    MissingValue(String),
    /// A value that should be a number is not one.
    BadNumber(String),
    /// A `--resize` value without `x`.
    BadResize(String),
    Unknown(String),
    MissingOut,
    MissingCommand,
}

pub enum ArgErrorView {
    MissingValue(Seq<char>),
    BadNumber(Seq<char>),
    BadResize(Seq<char>),
    Unknown(Seq<char>),
    MissingOut,
    MissingCommand,
}

impl View for ArgError {
    type V = ArgErrorView;

    open spec fn view(&self) -> ArgErrorView {
        match self {
            ArgError::MissingValue(s) => ArgErrorView::MissingValue(s@),
            ArgError::BadNumber(s) => ArgErrorView::BadNumber(s@),
            ArgError::BadResize(s) => ArgErrorView::BadResize(s@),
            ArgError::Unknown(s) => ArgErrorView::Unknown(s@),
            ArgError::MissingOut => ArgErrorView::MissingOut,
            ArgError::MissingCommand => ArgErrorView::MissingCommand,
        }
    }
}

pub open spec fn rec_defaults() -> RecArgsView {
    RecArgsView {
        cols: 80,
        rows: 24,
        out_dir: None,
        tmux: false,
        quiet_ms: 500,
        timeout_ms: 10000,
        resize_after_ms: None,
        resize: None,
        command: seq![],
    }
}

pub open spec fn takes_value(a: Seq<char>) -> bool {
    a == "--cols"@ || a == "--rows"@ || a == "--out"@ || a == "--quiet-ms"@ || a == "--timeout-ms"@
        || a == "--resize-after-ms"@ || a == "--resize"@
}

/// The option `flag` with the value `v` applied to `acc`.
pub open spec fn with_value(flag: Seq<char>, v: Seq<char>, acc: RecArgsView) -> Result<RecArgsView, ArgErrorView> {
    if flag == "--cols"@ {
        match parse_uint(v, u16::MAX as nat) {
            Some(n) => Ok(RecArgsView { cols: n as u16, ..acc }),
            None => Err(ArgErrorView::BadNumber(v)),
        }
    } else if flag == "--rows"@ {
        match parse_uint(v, u16::MAX as nat) {
            Some(n) => Ok(RecArgsView { rows: n as u16, ..acc }),
            None => Err(ArgErrorView::BadNumber(v)),
        }
    } else if flag == "--out"@ {
        Ok(RecArgsView { out_dir: Some(v), ..acc })
    } else if flag == "--quiet-ms"@ {
        match parse_uint(v, u64::MAX as nat) {
            Some(n) => Ok(RecArgsView { quiet_ms: n as u64, ..acc }),
            None => Err(ArgErrorView::BadNumber(v)),
        }
    } else if flag == "--timeout-ms"@ {
        match parse_uint(v, u64::MAX as nat) {
            Some(n) => Ok(RecArgsView { timeout_ms: n as u64, ..acc }),
            None => Err(ArgErrorView::BadNumber(v)),
        }
    } else if flag == "--resize-after-ms"@ {
        match parse_uint(v, u64::MAX as nat) {
            Some(n) => Ok(RecArgsView { resize_after_ms: Some(n as u64), ..acc }),
            None => Err(ArgErrorView::BadNumber(v)),
        }
    } else {
        match index_of(v, 'x') {
            None => Err(ArgErrorView::BadResize(v)),
            Some(k) => {
                let w = v.take(k);
                let h = v.skip(k + 1);
                match parse_uint(w, u16::MAX as nat) {
                    None => Err(ArgErrorView::BadNumber(w)),
                    Some(wn) => match parse_uint(h, u16::MAX as nat) {
                        None => Err(ArgErrorView::BadNumber(h)),
                        Some(hn) => Ok(RecArgsView { resize: Some((wn as u16, hn as u16)), ..acc }),
                    },
                }
            },
        }
    }
}

/// The options from `args[i]` on: `--` or the first word not starting with
/// `-` begins the command, which takes all that follows.
pub open spec fn scan_args(args: Seq<Seq<char>>, i: int, acc: RecArgsView) -> Result<RecArgsView, ArgErrorView>
    decreases args.len() - i,
{
    if i < 0 || i >= args.len() {
        Ok(acc)
    } else {
        let a = args[i];
        if a == "--tmux"@ {
            scan_args(args, i + 1, RecArgsView { tmux: true, ..acc })
        } else if a == "--"@ {
            Ok(RecArgsView { command: args.skip(i + 1), ..acc })
        } else if takes_value(a) {
            if i + 1 >= args.len() {
                Err(ArgErrorView::MissingValue(a))
            } else {
                match with_value(a, args[i + 1], acc) {
                    Ok(next) => scan_args(args, i + 2, next),
                    Err(e) => Err(e),
                }
            }
        } else if !(a.len() > 0 && a[0] == '-') {
            Ok(RecArgsView { command: args.skip(i), ..acc })
        } else {
            Err(ArgErrorView::Unknown(a))
        }
    }
}

/// The recorder's command line, `args[0]` being the program's name.
pub open spec fn parse_args_spec(args: Seq<Seq<char>>) -> Result<RecArgsView, ArgErrorView> {
    match scan_args(args, 1, rec_defaults()) {
        Err(e) => Err(e),
        Ok(a) => if a.out_dir is None {
            Err(ArgErrorView::MissingOut)
        } else if a.command.len() == 0 {
            Err(ArgErrorView::MissingCommand)
        } else {
            Ok(a)
        },
    }
}

fn copy_string(s: &String) -> (r: String)
    ensures
        r@ == s@,
{
    string_of(&chars_of(s.as_str()))
}

fn copy_strings(args: &[String], from: usize) -> (r: Vec<String>)
    requires
        from <= args@.len(),
    ensures
        strings_of(r@) == strings_of(args@).skip(from as int),
{
    let mut r: Vec<String> = Vec::new();
    let mut i = from;
    while i < args.len()
        invariant
            from <= i <= args@.len(),
            strings_of(r@) == strings_of(args@).subrange(from as int, i as int),
        decreases args@.len() - i,
    {
        let ghost before = strings_of(r@);
        let c = copy_string(&args[i]);
        r.push(c);
        assert(strings_of(r@) =~= before.push(args@[i as int]@));
        assert(strings_of(args@)[i as int] == args@[i as int]@);
        i = i + 1;
        assert(strings_of(r@) =~= strings_of(args@).subrange(from as int, i as int));
    }
    assert(strings_of(args@).subrange(from as int, i as int) =~= strings_of(args@).skip(from as int));
    r
}

fn bad_number(v: &Vec<char>) -> (r: ArgError)
    ensures
        r@ == ArgErrorView::BadNumber(v@),
{
    ArgError::BadNumber(string_of(v))
}

fn apply_value(flag: &Vec<char>, v: &Vec<char>, acc: &mut RecArgs) -> (r: Result<(), ArgError>)
    requires
        takes_value(flag@),
    ensures
        match with_value(flag@, v@, old(acc)@) {
            Ok(next) => r is Ok && final(acc)@ == next,
            Err(e) => r matches Err(x) && x@ == e,
        },
{
    if eq_str(flag, "--cols") {
        match parse_uint_chars(v, 65535u64) {
            Some(n) => {
                acc.cols = n as u16;
                Ok(())
            },
            None => Err(bad_number(v)),
        }
    } else if eq_str(flag, "--rows") {
        match parse_uint_chars(v, 65535u64) {
            Some(n) => {
                acc.rows = n as u16;
                Ok(())
            },
            None => Err(bad_number(v)),
        }
    } else if eq_str(flag, "--out") {
        acc.out_dir = Some(string_of(v));
        Ok(())
    } else if eq_str(flag, "--quiet-ms") {
        match parse_uint_chars(v, 18446744073709551615u64) {
            Some(n) => {
                acc.quiet_ms = n;
                Ok(())
            },
            None => Err(bad_number(v)),
        }
    } else if eq_str(flag, "--timeout-ms") {
        match parse_uint_chars(v, 18446744073709551615u64) {
            Some(n) => {
                acc.timeout_ms = n;
                Ok(())
            },
            None => Err(bad_number(v)),
        }
    } else if eq_str(flag, "--resize-after-ms") {
        match parse_uint_chars(v, 18446744073709551615u64) {
            Some(n) => {
                acc.resize_after_ms = Some(n);
                Ok(())
            },
            None => Err(bad_number(v)),
        }
    } else {
        proof {
            lemma_index_of(v@, 'x');
        }
        match index_of_from(v, 'x', 0) {
            None => {
                assert(v@.skip(0) =~= v@);
                Err(ArgError::BadResize(string_of(v)))
            },
            Some(k) => {
                assert(v@.skip(0) =~= v@);
                let w = slice_chars(v, 0, k);
                let h = slice_chars(v, k + 1, v.len());
                assert(w@ =~= v@.take(k as int));
                assert(h@ =~= v@.skip(k + 1));
                match parse_uint_chars(&w, 65535u64) {
                    None => Err(bad_number(&w)),
                    Some(wn) => match parse_uint_chars(&h, 65535u64) {
                        None => Err(bad_number(&h)),
                        Some(hn) => {
                            acc.resize = Some((wn as u16, hn as u16));
                            Ok(())
                        },
                    },
                }
            },
        }
    }
}

/// Reads the recorder's command line, `args[0]` being the program's name.
pub fn parse_args(args: &[String]) -> (r: Result<RecArgs, ArgError>)
    ensures
        match parse_args_spec(strings_of(args@)) {
            Ok(a) => r matches Ok(x) && x@ == a,
            Err(e) => r matches Err(x) && x@ == e,
        },
{
    let ghost av = strings_of(args@);
    let mut acc = RecArgs {
        cols: 80,
        rows: 24,
        out_dir: None,
        tmux: false,
        quiet_ms: 500,
        timeout_ms: 10000,
        resize_after_ms: None,
        resize: None,
        command: Vec::new(),
    };
    assert(strings_of(acc.command@) =~= Seq::<Seq<char>>::empty());
    assert(acc@ == rec_defaults());
    let mut i: usize = 1;
    let mut done: Option<Result<(), ArgError>> = None;
    while i < args.len()
        invariant_except_break
            1 <= i,
            scan_args(av, 1, rec_defaults()) == scan_args(av, i as int, acc@),
            done is None,
        invariant
            av == strings_of(args@),
        ensures
            match done {
                None => scan_args(av, 1, rec_defaults()) == Ok::<RecArgsView, ArgErrorView>(acc@),
                Some(Ok(())) => scan_args(av, 1, rec_defaults()) == Ok::<RecArgsView, ArgErrorView>(acc@),
                Some(Err(e)) => scan_args(av, 1, rec_defaults()) == Err::<RecArgsView, ArgErrorView>(e@),
            },
        decreases args@.len() - i,
    {
        assert(av[i as int] == args@[i as int]@);
        let a = chars_of(args[i].as_str());
        if eq_str(&a, "--tmux") {
            acc.tmux = true;
            i = i + 1;
        } else if eq_str(&a, "--") {
            acc.command = copy_strings(args, i + 1);
            done = Some(Ok(()));
            break;
        } else if eq_str(&a, "--cols") || eq_str(&a, "--rows") || eq_str(&a, "--out") || eq_str(
            &a,
            "--quiet-ms",
        ) || eq_str(&a, "--timeout-ms") || eq_str(&a, "--resize-after-ms") || eq_str(&a, "--resize") {
            if i + 1 >= args.len() {
                done = Some(Err(ArgError::MissingValue(string_of(&a))));
                break;
            }
            assert(av[i + 1] == args@[i + 1]@);
            let v = chars_of(args[i + 1].as_str());
            match apply_value(&a, &v, &mut acc) {
                Ok(()) => {
                    i = i + 2;
                },
                Err(e) => {
                    done = Some(Err(e));
                    break;
                },
            }
        } else if !(a.len() > 0 && a[0] == '-') {
            acc.command = copy_strings(args, i);
            done = Some(Ok(()));
            break;
        } else {
            done = Some(Err(ArgError::Unknown(string_of(&a))));
            break;
        }
    }
    match done {
        Some(Err(e)) => Err(e),
        _ => {
            if acc.out_dir.is_none() {
                Err(ArgError::MissingOut)
            } else if acc.command.len() == 0 {
                Err(ArgError::MissingCommand)
            } else {
                Ok(acc)
            }
        },
    }
}

} // verus!
