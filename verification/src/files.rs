//! Listing a directory for the file browser: which entries show, and in
//! which order.
use vstd::prelude::*;
use crate::text::{chars_of, eq_str, text_lower, to_lowercase_chars};
use crate::state::FileEntry;

verus! {

broadcast use vstd::string::group_string_axioms;

pub struct FileEntryView {
    pub name: Seq<char>,
    pub path: Seq<char>,
    pub is_dir: bool,
    pub size: u64,
}

impl View for FileEntry {
    type V = FileEntryView;

    open spec fn view(&self) -> FileEntryView {
        FileEntryView { name: self.name@, path: self.path@, is_dir: self.is_dir, size: self.size }
    }
}

pub open spec fn entries_view(v: Seq<FileEntry>) -> Seq<FileEntryView> {
    v.map_values(|e: FileEntry| e@)
}

/// Hidden files (but `.md`) and build and dependency folders are not shown.
pub open spec fn is_listed(name: Seq<char>) -> bool {
    &&& !(name.len() > 0 && name[0] == '.' && name != ".md"@)
    &&& name != "target"@
    &&& name != "node_modules"@
    &&& name != "dist"@
}

pub fn is_listed_name(name: &str) -> (r: bool)
    ensures
        r == is_listed(name@),
{
    let n = chars_of(name);
    if n.len() > 0 && n[0] == '.' && !eq_str(&n, ".md") {
        return false;
    }
    !(eq_str(&n, "target") || eq_str(&n, "node_modules") || eq_str(&n, "dist"))
}

/// `a` comes before `b` in code point order (the order of `String`s).
pub open spec fn chars_lt(a: Seq<char>, b: Seq<char>) -> bool
    decreases a.len(),
{
    if a.len() == 0 {
        b.len() > 0
    } else if b.len() == 0 {
        false
    } else if a[0] != b[0] {
        (a[0] as u32) < (b[0] as u32)
    } else {
        chars_lt(a.drop_first(), b.drop_first())
    }
}

/// Folders before files, then by lower-cased name.
pub open spec fn entry_before(a: FileEntryView, b: FileEntryView) -> bool {
    (a.is_dir && !b.is_dir) || (a.is_dir == b.is_dir && chars_lt(text_lower(a.name), text_lower(b.name)))
}

/// `x` placed into `sorted` after every entry it does not come before.
pub open spec fn insert_entry(sorted: Seq<FileEntryView>, x: FileEntryView) -> Seq<FileEntryView>
    decreases sorted.len(),
{
    if sorted.len() == 0 {
        seq![x]
    } else if entry_before(x, sorted.last()) {
        insert_entry(sorted.drop_last(), x).push(sorted.last())
    } else {
        sorted.push(x)
    }
}

/// The entries in listing order (a stable sort).
pub open spec fn sort_entries(s: Seq<FileEntryView>) -> Seq<FileEntryView>
    decreases s.len(),
{
    if s.len() == 0 {
        seq![]
    } else {
        insert_entry(sort_entries(s.drop_last()), s.last())
    }
}

pub open spec fn listed(s: Seq<FileEntryView>) -> Seq<FileEntryView>
    decreases s.len(),
{
    if s.len() == 0 {
        seq![]
    } else {
        listed(s.drop_last()) + if is_listed(s.last().name) {
            seq![s.last()]
        } else {
            seq![]
        }
    }
}

fn chars_lt_exec(a: &Vec<char>, b: &Vec<char>) -> (r: bool)
    ensures
        r == chars_lt(a@, b@),
{
    let mut i: usize = 0;
    assert(a@.skip(0) =~= a@);
    assert(b@.skip(0) =~= b@);
    while i < a.len() && i < b.len() && a[i] == b[i]
        invariant
            i <= a@.len(),
            i <= b@.len(),
            chars_lt(a@, b@) == chars_lt(a@.skip(i as int), b@.skip(i as int)),
        decreases a@.len() - i,
    {
        assert(a@.skip(i as int).drop_first() =~= a@.skip(i + 1));
        assert(b@.skip(i as int).drop_first() =~= b@.skip(i + 1));
        i = i + 1;
    }
    if i == a.len() {
        i < b.len()
    } else if i == b.len() {
        false
    } else {
        (a[i] as u32) < (b[i] as u32)
    }
}

/// The entries shown for a directory, in listing order.
pub fn list_entries(entries: Vec<FileEntry>) -> (r: Vec<FileEntry>)
    ensures
        entries_view(r@) == sort_entries(listed(entries_view(entries@))),
{
    let ghost all = entries_view(entries@);
    let n = entries.len();
    let mut rest = entries;
    let mut rev: Vec<FileEntry> = Vec::new();
    while rest.len() > 0
        invariant
            rest@.len() + rev@.len() == n,
            n == all.len(),
            entries_view(rest@) == all.take(rest@.len() as int),
            forall|j: int| 0 <= j < rev@.len() ==> rev@[j]@ == all[n - 1 - j],
        decreases rest@.len(),
    {
        let ghost before = rest@;
        let e = rest.pop().unwrap();
        assert(entries_view(before)[before.len() - 1] == e@);
        assert(entries_view(rest@) =~= all.take(rest@.len() as int));
        rev.push(e);
    }
    let mut sorted: Vec<FileEntry> = Vec::new();
    let mut keys: Vec<Vec<char>> = Vec::new();
    let mut i: usize = 0;
    assert(all.take(0) =~= Seq::<FileEntryView>::empty());
    assert(entries_view(sorted@) =~= Seq::<FileEntryView>::empty());
    while i < n
        invariant
            i <= n == all.len(),
            rev@.len() == n - i,
            forall|j: int| 0 <= j < rev@.len() ==> rev@[j]@ == all[n - 1 - j],
            keys@.len() == sorted@.len(),
            forall|j: int| 0 <= j < sorted@.len() ==> keys@[j]@ == text_lower(#[trigger] sorted@[j].name@),
            entries_view(sorted@) == sort_entries(listed(all.take(i as int))),
        decreases n - i,
    {
        let e = rev.pop().unwrap();
        assert(all.take(i + 1).drop_last() =~= all.take(i as int));
        assert(all.take(i + 1).last() == e@);
        if is_listed_name(e.name.as_str()) {
            let key = to_lowercase_chars(e.name.as_str());
            let ghost sv = entries_view(sorted@);
            let mut j = sorted.len();
            assert(sv.take(j as int) =~= sv);
            assert(sv.skip(j as int) =~= Seq::<FileEntryView>::empty());
            while j > 0 && ((e.is_dir && !sorted[j - 1].is_dir) || (e.is_dir == sorted[j - 1].is_dir
                && chars_lt_exec(&key, &keys[j - 1])))
                invariant
                    j <= sorted@.len(),
                    keys@.len() == sorted@.len(),
                    forall|k: int| 0 <= k < sorted@.len() ==> keys@[k]@ == text_lower(#[trigger] sorted@[k].name@),
                    key@ == text_lower(e.name@),
                    sv == entries_view(sorted@),
                    insert_entry(sv, e@) == insert_entry(sv.take(j as int), e@) + sv.skip(j as int),
                decreases j,
            {
                assert(sv.take(j as int).drop_last() =~= sv.take(j - 1));
                assert(sv.take(j as int).last() == sv[j - 1]);
                assert(sv.skip(j - 1) =~= seq![sv[j - 1]] + sv.skip(j as int));
                j = j - 1;
            }
            let ghost ev = e@;
            let ghost os = sorted@;
            let ghost ok = keys@;
            sorted.insert(j, e);
            keys.insert(j, key);
            assert(entries_view(sorted@) =~= sv.take(j as int).push(ev) + sv.skip(j as int));
            assert forall|k: int| 0 <= k < sorted@.len() implies keys@[k]@ == text_lower(
                #[trigger] sorted@[k].name@,
            ) by {
                if k < j {
                    assert(sorted@[k] == os[k] && keys@[k] == ok[k]);
                } else if k > j {
                    assert(sorted@[k] == os[k - 1] && keys@[k] == ok[k - 1]);
                }
            }
            assert(listed(all.take(i + 1)) =~= listed(all.take(i as int)).push(ev));
            assert(listed(all.take(i as int)).push(ev).drop_last() =~= listed(all.take(i as int)));
            assert(entries_view(sorted@) == insert_entry(sv, ev));
        } else {
            assert(listed(all.take(i + 1)) =~= listed(all.take(i as int)));
        }
        i = i + 1;
    }
    assert(all.take(n as int) =~= all);
    sorted
}

} // verus!
