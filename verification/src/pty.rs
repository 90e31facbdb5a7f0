//! The terminal's shell environment, the batching of its output, and the
//! names and records of a session recording.
use vstd::prelude::*;
use crate::text::{chars_of, string_of, push_str, push_dec, dec, slice_bytes, flatten, lemma_flatten_append};
use crate::config::{join_path, join_path_exec};

verus! {

broadcast use vstd::string::group_string_axioms;

// ---------------------------------------------------------------------------
// Shell environment
// ---------------------------------------------------------------------------

pub open spec fn pairs_view(v: Seq<(String, String)>) -> Seq<(Seq<char>, Seq<char>)> {
    v.map_values(|p: (String, String)| (p.0@, p.1@))
}

/// `dir` joined with `name`, or nothing where `dir` is unknown.
pub open spec fn bin_dir(dir: Option<Seq<char>>, name: Seq<char>) -> Seq<char> {
    match dir {
        Some(d) => join_path(d, name),
        None => seq![],
    }
}

/// The variables set for shells: the terminal's identity, a UTF-8 locale
/// where `LANG` is unset, and `bin` of the working directory and
/// `.local/bin` of the home directory ahead of the existing `PATH`.
pub open spec fn shell_env_spec(
    lang_set: bool,
    existing_path: Seq<char>,
    home: Option<Seq<char>>,
    current_dir: Option<Seq<char>>,
) -> Seq<(Seq<char>, Seq<char>)> {
    seq![
        ("TERM"@, "xterm-256color"@),
        ("COLORTERM"@, "truecolor"@),
        ("MDTERM"@, "1"@),
        ("TERM_PROGRAM"@, "mdterm"@),
    ] + (if lang_set {
        seq![]
    } else {
        seq![("LANG"@, "en_US.UTF-8"@)]
    }) + seq![
        (
            "PATH"@,
            bin_dir(current_dir, "bin"@) + seq![':'] + bin_dir(home, ".local/bin"@) + seq![':']
                + existing_path,
        ),
    ]
}

fn pair(k: &str, v: &str) -> (r: (String, String))
    ensures
        r.0@ == k@,
        r.1@ == v@,
{
    (string_of(&chars_of(k)), string_of(&chars_of(v)))
}

fn bin_dir_exec(dir: Option<&str>, name: &str) -> (r: String)
    ensures
        r@ == bin_dir(
            match dir {
                Some(d) => Some(d@),
                None => None,
            },
            name@,
        ),
{
    match dir {
        Some(d) => join_path_exec(d, name),
        None => String::new(),
    }
}

/// The environment for a shell, given whether `LANG` is set, the current
/// `PATH` (empty where unset), the home directory and the working directory.
pub fn shell_env(lang_set: bool, existing_path: &str, home: Option<&str>, current_dir: Option<&str>) -> (r: Vec<
    (String, String),
>)
    ensures
        pairs_view(r@) == shell_env_spec(
            lang_set,
            existing_path@,
            match home {
                Some(h) => Some(h@),
                None => None,
            },
            match current_dir {
                Some(d) => Some(d@),
                None => None,
            },
        ),
{
    let ghost hv = match home {
        Some(h) => Some(h@),
        None => None,
    };
    let ghost dv = match current_dir {
        Some(d) => Some(d@),
        None => None,
    };
    let repo_bin = bin_dir_exec(current_dir, "bin");
    let home_bin = bin_dir_exec(home, ".local/bin");
    let mut path = chars_of(repo_bin.as_str());
    path.push(':');
    push_str(&mut path, home_bin.as_str());
    path.push(':');
    push_str(&mut path, existing_path);
    let ghost pv = bin_dir(dv, "bin"@) + seq![':'] + bin_dir(hv, ".local/bin"@) + seq![':'] + existing_path@;
    assert(path@ =~= pv);
    let mut env: Vec<(String, String)> = Vec::new();
    env.push(pair("TERM", "xterm-256color"));
    env.push(pair("COLORTERM", "truecolor"));
    env.push(pair("MDTERM", "1"));
    env.push(pair("TERM_PROGRAM", "mdterm"));
    let ghost head = seq![
        ("TERM"@, "xterm-256color"@),
        ("COLORTERM"@, "truecolor"@),
        ("MDTERM"@, "1"@),
        ("TERM_PROGRAM"@, "mdterm"@),
    ];
    assert(pairs_view(env@) =~= head);
    if !lang_set {
        env.push(pair("LANG", "en_US.UTF-8"));
        assert(pairs_view(env@) =~= head + seq![("LANG"@, "en_US.UTF-8"@)]);
    } else {
        assert(pairs_view(env@) =~= head + Seq::<(Seq<char>, Seq<char>)>::empty());
    }
    let ghost mid = pairs_view(env@);
    env.push((string_of(&chars_of("PATH")), string_of(&path)));
    assert(pairs_view(env@) =~= mid + seq![("PATH"@, pv)]);
    env
}

// ---------------------------------------------------------------------------
// Batching output
// ---------------------------------------------------------------------------

/// The batch limit in effect: `max_batch`, or 64 KiB for 0.
pub open spec fn effective_max_batch(max_batch: usize) -> usize {
    if max_batch == 0 {
        65536
    } else {
        max_batch
    }
}

/// The full chunks of `max` bytes that `b` starts with.
pub open spec fn full_chunks(b: Seq<u8>, max: nat) -> Seq<Seq<u8>>
    decreases b.len(),
{
    if max == 0 || b.len() < max {
        seq![]
    } else {
        seq![b.take(max as int)] + full_chunks(b.skip(max as int), max)
    }
}

/// What is left of `b` after its full chunks of `max` bytes.
pub open spec fn chunk_rest(b: Seq<u8>, max: nat) -> Seq<u8>
    decreases b.len(),
{
    if max == 0 || b.len() < max {
        b
    } else {
        chunk_rest(b.skip(max as int), max)
    }
}

pub open spec fn bytes_view(v: Seq<Vec<u8>>) -> Seq<Seq<u8>> {
    v.map_values(|c: Vec<u8>| c@)
}

/// Collects terminal output into batches of at most a given size.
pub struct Batcher {
    max_batch: usize,
    batch: Vec<u8>,
}

pub struct BatcherView {
    pub max: nat,
    pub batch: Seq<u8>,
}

impl View for Batcher {
    type V = BatcherView;

    closed spec fn view(&self) -> BatcherView {
        BatcherView { max: self.max_batch as nat, batch: self.batch@ }
    }
}

impl Batcher {
    pub fn new(max_batch: usize) -> (b: Self)
        ensures
            b@ == (BatcherView { max: effective_max_batch(max_batch) as nat, batch: seq![] }),
    {
        let m = if max_batch == 0 {
            65536
        } else {
            max_batch
        };
        Batcher { max_batch: m, batch: Vec::new() }
    }

    /// The bytes collected and not yet handed out.
    pub fn len(&self) -> (r: usize)
        ensures
            r == self@.batch.len(),
    {
        self.batch.len()
    }

    /// The batch has reached its limit.
    pub fn is_full(&self) -> (r: bool)
        ensures
            r == (self@.batch.len() >= self@.max),
    {
        self.batch.len() >= self.max_batch
    }

    /// Adds a chunk read from the terminal.
    pub fn push(&mut self, chunk: &[u8])
        ensures
            final(self)@ == (BatcherView { max: old(self)@.max, batch: old(self)@.batch + chunk@ }),
    {
        let mut i: usize = 0;
        let ghost b0 = self.batch@;
        while i < chunk.len()
            invariant
                i <= chunk@.len(),
                self.batch@ == b0 + chunk@.take(i as int),
                self.max_batch == old(self).max_batch,
            decreases chunk@.len() - i,
        {
            self.batch.push(chunk[i]);
            i = i + 1;
            assert(self.batch@ =~= b0 + chunk@.take(i as int));
        }
        assert(chunk@.take(i as int) =~= chunk@);
    }

    /// Hands out every full batch, in order, keeping the rest.
    pub fn take_full(&mut self) -> (r: Vec<Vec<u8>>)
        ensures
            bytes_view(r@) == full_chunks(old(self)@.batch, old(self)@.max),
            final(self)@ == (BatcherView {
                max: old(self)@.max,
                batch: chunk_rest(old(self)@.batch, old(self)@.max),
            }),
    {
        let m = self.max_batch;
        if m == 0 {
            return Vec::new();
        }
        let n = self.batch.len();
        let ghost b = self.batch@;
        let mut out: Vec<Vec<u8>> = Vec::new();
        let mut i: usize = 0;
        assert(b.skip(0) =~= b);
        while n - i >= m
            invariant
                i <= n == b.len(),
                m > 0,
                m == self.max_batch,
                self.batch@ == b,
                bytes_view(out@) + full_chunks(b.skip(i as int), m as nat) == full_chunks(b, m as nat),
                chunk_rest(b.skip(i as int), m as nat) == chunk_rest(b, m as nat),
            decreases n - i,
        {
            let c = slice_bytes(self.batch.as_slice(), i, i + m);
            let ghost before = bytes_view(out@);
            out.push(c);
            assert(b.skip(i as int).take(m as int) =~= c@);
            assert(b.skip(i as int).skip(m as int) =~= b.skip(i + m));
            assert(bytes_view(out@) =~= before.push(c@));
            i = i + m;
            assert(bytes_view(out@) + full_chunks(b.skip(i as int), m as nat) =~= full_chunks(b, m as nat));
        }
        let rest = slice_bytes(self.batch.as_slice(), i, n);
        assert(rest@ =~= b.skip(i as int));
        assert(full_chunks(b.skip(i as int), m as nat) =~= Seq::<Seq<u8>>::empty());
        assert(bytes_view(out@) =~= full_chunks(b, m as nat));
        self.batch = rest;
        out
    }

    /// Hands out whatever is collected, if anything.
    pub fn flush(&mut self) -> (r: Option<Vec<u8>>)
        ensures
            match r {
                Some(c) => old(self)@.batch.len() > 0 && c@ == old(self)@.batch,
                None => old(self)@.batch.len() == 0,
            },
            final(self)@ == (BatcherView { max: old(self)@.max, batch: seq![] }),
    {
        if self.batch.len() == 0 {
            assert(self.batch@ =~= Seq::<u8>::empty());
            None
        } else {
            let mut out: Vec<u8> = Vec::new();
            std::mem::swap(&mut out, &mut self.batch);
            Some(out)
        }
    }

    /// Hands out every full batch and, with `flush`, whatever is left after them.
    pub fn drain(&mut self, flush: bool) -> (r: Vec<Vec<u8>>)
        ensures
            (bytes_view(r@), final(self)@.batch) == drain_spec(old(self)@.batch, old(self)@.max, flush),
            final(self)@.max == old(self)@.max,
    {
        let mut out = self.take_full();
        if flush {
            let ghost before = bytes_view(out@);
            match self.flush() {
                Some(rest) => {
                    out.push(rest);
                    assert(bytes_view(out@) =~= before.push(rest@));
                },
                None => {},
            }
        }
        out
    }
}

/// Batching loses and reorders nothing, and respects its limit: the full
/// chunks followed by the rest are the bytes, every chunk holds exactly
/// `max` bytes, and fewer than `max` bytes are left.
pub proof fn lemma_batches_keep_bytes(b: Seq<u8>, max: nat)
    requires
        max > 0,
    ensures
        flatten(full_chunks(b, max)) + chunk_rest(b, max) == b,
        forall|i: int| 0 <= i < full_chunks(b, max).len() ==> #[trigger] full_chunks(b, max)[i].len() == max,
        chunk_rest(b, max).len() < max,
    decreases b.len(),
{
    if b.len() >= max {
        lemma_batches_keep_bytes(b.skip(max as int), max);
        let cs = full_chunks(b, max);
        assert(cs.drop_first() =~= full_chunks(b.skip(max as int), max));
        assert(b.take(max as int) + b.skip(max as int) =~= b);
        assert forall|i: int| 0 <= i < cs.len() implies #[trigger] cs[i].len() == max by {
            if i > 0 {
                assert(cs[i] == full_chunks(b.skip(max as int), max)[i - 1]);
            }
        }
    } else {
        assert(flatten(full_chunks(b, max)) + b =~= b);
    }
}

/// What one drain hands out and keeps: the full batches, then, with
/// `flush`, the non-empty rest.
pub open spec fn drain_spec(batch: Seq<u8>, max: nat, flush: bool) -> (Seq<Seq<u8>>, Seq<u8>) {
    let full = full_chunks(batch, max);
    let rest = chunk_rest(batch, max);
    if !flush {
        (full, rest)
    } else if rest.len() > 0 {
        (full.push(rest), seq![])
    } else {
        (full, seq![])
    }
}

/// One thing the output pump does with its batcher.
pub enum PumpOp {
    /// A read's bytes arrive.
    Push(Seq<u8>),
    /// Batches are handed out; `true` when the coalescing window has closed
    /// or the reader is gone, so that the rest goes too.
    Drain(bool),
}

/// The bytes of all the reads among `ops`, in order.
pub open spec fn pushed(ops: Seq<PumpOp>) -> Seq<u8>
    decreases ops.len(),
{
    if ops.len() == 0 {
        seq![]
    } else {
        match ops[0] {
            PumpOp::Push(c) => c + pushed(ops.drop_first()),
            PumpOp::Drain(_) => pushed(ops.drop_first()),
        }
    }
}

/// The batches handed out over `ops`, from `batch` collected, and what is
/// collected at the end.
pub open spec fn pump_run(max: nat, batch: Seq<u8>, ops: Seq<PumpOp>) -> (Seq<Seq<u8>>, Seq<u8>)
    decreases ops.len(),
{
    if ops.len() == 0 {
        (seq![], batch)
    } else {
        match ops[0] {
            PumpOp::Push(c) => pump_run(max, batch + c, ops.drop_first()),
            PumpOp::Drain(f) => {
                let (out, b) = drain_spec(batch, max, f);
                let (more, end) = pump_run(max, b, ops.drop_first());
                (out + more, end)
            },
        }
    }
}

proof fn lemma_drain(batch: Seq<u8>, max: nat, flush: bool)
    requires
        max > 0,
    ensures
        ({
            let (out, b) = drain_spec(batch, max, flush);
            &&& flatten(out) + b == batch
            &&& forall|i: int| 0 <= i < out.len() ==> 0 < #[trigger] out[i].len() <= max
            &&& flush ==> b.len() == 0
        }),
{
    lemma_batches_keep_bytes(batch, max);
    let full = full_chunks(batch, max);
    let rest = chunk_rest(batch, max);
    if flush && rest.len() > 0 {
        lemma_flatten_append(full, seq![rest]);
        assert(full.push(rest) =~= full + seq![rest]);
        assert(flatten(seq![rest]) =~= rest) by {
            let one = seq![rest];
            assert(one.drop_first() =~= Seq::<Seq<u8>>::empty());
            assert(flatten(one.drop_first()) =~= Seq::<u8>::empty());
            assert(flatten(one) == one[0] + flatten(one.drop_first()));
        }
        assert(flatten(full.push(rest)) + Seq::<u8>::empty() =~= flatten(full) + rest);
    } else if flush {
        assert(flatten(full) + Seq::<u8>::empty() =~= flatten(full) + rest);
    }
}

/// The pump loses, repeats and reorders nothing: whatever it does with its
/// batcher, the batches it hands out followed by what is still collected
/// are the bytes read, in order; every batch holds between one byte and the
/// limit; and once it has drained with the rest included, everything read
/// has been handed out.
pub proof fn lemma_pump_keeps_bytes(max: nat, batch: Seq<u8>, ops: Seq<PumpOp>)
    requires
        max > 0,
    ensures
        ({
            let (out, end) = pump_run(max, batch, ops);
            &&& flatten(out) + end == batch + pushed(ops)
            &&& forall|i: int| 0 <= i < out.len() ==> 0 < #[trigger] out[i].len() <= max
            &&& ops.len() > 0 && ops.last() == PumpOp::Drain(true) ==> end.len() == 0
        }),
    decreases ops.len(),
{
    if ops.len() == 0 {
        assert(batch + pushed(ops) =~= batch);
        assert(flatten(Seq::<Seq<u8>>::empty()) + batch =~= batch);
    } else {
        let rest_ops = ops.drop_first();
        if rest_ops.len() > 0 {
            assert(rest_ops.last() == ops.last());
        }
        match ops[0] {
            PumpOp::Push(c) => {
                lemma_pump_keeps_bytes(max, batch + c, rest_ops);
                assert((batch + c) + pushed(rest_ops) =~= batch + (c + pushed(rest_ops)));
                if rest_ops.len() == 0 {
                    assert(ops.last() == ops[0]);
                }
            },
            PumpOp::Drain(f) => {
                let (o1, b1) = drain_spec(batch, max, f);
                lemma_drain(batch, max, f);
                lemma_pump_keeps_bytes(max, b1, rest_ops);
                let (o2, e2) = pump_run(max, b1, rest_ops);
                lemma_flatten_append(o1, o2);
                assert(flatten(o1 + o2) + e2 =~= flatten(o1) + (flatten(o2) + e2));
                assert(batch + pushed(ops) =~= (flatten(o1) + b1) + pushed(rest_ops));
                assert forall|i: int| 0 <= i < (o1 + o2).len() implies 0 < #[trigger] (o1
                    + o2)[i].len() <= max by {
                    if i < o1.len() {
                        assert((o1 + o2)[i] == o1[i]);
                    } else {
                        assert((o1 + o2)[i] == o2[i - o1.len()]);
                    }
                }
                if rest_ops.len() == 0 {
                    assert(ops.last() == ops[0]);
                    assert(pump_run(max, b1, rest_ops).1 == b1);
                }
            },
        }
    }
}

// ---------------------------------------------------------------------------
// Recording
// ---------------------------------------------------------------------------

/// The recording directory from the variable's value: set when not empty.
pub fn record_dir(value: Option<String>) -> (r: Option<String>)
    ensures
        match value {
            Some(v) => if v@.len() > 0 {
                r == Some(v)
            } else {
                r is None
            },
            None => r is None,
        },
{
    match value {
        Some(v) => if v.as_str().unicode_len() > 0 {
            Some(v)
        } else {
            None
        },
        None => None,
    }
}

pub open spec fn recording_name(session_id: Seq<char>, unix_ts: u64, ext: Seq<char>) -> Seq<char> {
    session_id + seq!['-'] + dec(unix_ts as nat) + ext
}

fn recording_name_exec(session_id: &str, unix_ts: u64, ext: &str) -> (r: String)
    ensures
        r@ == recording_name(session_id@, unix_ts, ext@),
{
    let mut out = chars_of(session_id);
    out.push('-');
    push_dec(&mut out, unix_ts);
    push_str(&mut out, ext);
    string_of(&out)
}

/// The names of the raw output file and of the events file of a recording.
pub fn recording_file_names(session_id: &str, unix_ts: u64) -> (r: (String, String))
    ensures
        r.0@ == recording_name(session_id@, unix_ts, ".bin"@),
        r.1@ == recording_name(session_id@, unix_ts, ".events.jsonl"@),
{
    (recording_name_exec(session_id, unix_ts, ".bin"), recording_name_exec(session_id, unix_ts, ".events.jsonl"))
}

pub open spec fn resize_line_spec(ms: u64, offset: u64, cols: u16, rows: u16) -> Seq<char> {
    "{\"t\":"@ + dec(ms as nat) + ",\"type\":\"resize\",\"offset\":"@ + dec(offset as nat) + ",\"cols\":"@
        + dec(cols as nat) + ",\"rows\":"@ + dec(rows as nat) + "}\n"@
}

/// The events-file line of a resize after `ms` milliseconds, taking effect
/// at byte `offset` of the raw output.
pub fn resize_event_line(ms: u64, offset: u64, cols: u16, rows: u16) -> (r: String)
    ensures
        r@ == resize_line_spec(ms, offset, cols, rows),
{
    let mut out: Vec<char> = Vec::new();
    push_str(&mut out, "{\"t\":");
    push_dec(&mut out, ms);
    push_str(&mut out, ",\"type\":\"resize\",\"offset\":");
    push_dec(&mut out, offset);
    push_str(&mut out, ",\"cols\":");
    push_dec(&mut out, cols as u64);
    push_str(&mut out, ",\"rows\":");
    push_dec(&mut out, rows as u64);
    push_str(&mut out, "}\n");
    string_of(&out)
}

} // verus!
