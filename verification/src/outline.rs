//! Document outlines of Markdown text and heading anchors.
use vstd::prelude::*;
use crate::text::{
    chars_of, string_of, slice_chars, lower, lower_char, trim, trim_chars, lines, lines_of,
    matches_at, starts_with_str, index_of, lemma_index_of, lemma_lines_split, strip_cr,
};
use crate::state::{OutlineItem, OutlineItemView, outline_view};

verus! {

/// What `char::is_alphanumeric` says of a non-ASCII character (Unicode
/// `Alphabetic` or `Numeric`).
pub uninterp spec fn unicode_alnum(c: char) -> bool;

/// `char::is_alphanumeric`: ASCII letters and digits among the ASCII
/// characters, the Unicode tables beyond them.
pub open spec fn is_alnum(c: char) -> bool {
    if (c as u32) < 128 {
        ('a' <= c && c <= 'z') || ('A' <= c && c <= 'Z') || ('0' <= c && c <= '9')
    } else {
        unicode_alnum(c)
    }
}

/// `char::is_alphanumeric`.
/// Calls `char::is_alphanumeric`; claims that among ASCII characters exactly
/// the letters and digits are alphanumeric, and that for any other character
/// the answer is a function of the character.
#[verifier::external_body]
fn is_alphanumeric(c: char) -> (r: bool)
    ensures
        (c as u32) < 128 ==> (r <==> (('a' <= c && c <= 'z') || ('A' <= c && c <= 'Z') || ('0'
            <= c && c <= '9'))),
        (c as u32) >= 128 ==> r == unicode_alnum(c),
{
    c.is_alphanumeric()
}

/// The slug built from `s[i..]` onto `acc`: alphanumerics lower-cased, runs
/// of spaces, `-` and `_` after some text collapsed into a single `-`.
pub open spec fn slug_scan(s: Seq<char>, i: int, acc: Seq<char>, last_dash: bool) -> Seq<char>
    decreases s.len() - i,
{
    if i < 0 || i >= s.len() {
        acc
    } else {
        let c = s[i];
        if is_alnum(c) {
            slug_scan(s, i + 1, acc.push(lower(c)), false)
        } else if (c == ' ' || c == '-' || c == '_') && !last_dash && acc.len() > 0 {
            slug_scan(s, i + 1, acc.push('-'), true)
        } else {
            slug_scan(s, i + 1, acc, last_dash)
        }
    }
}

/// The anchor id of a heading text: its slug without a trailing `-`, or
/// `section` when nothing is left.
pub open spec fn slugify_spec(text: Seq<char>) -> Seq<char> {
    let a = slug_scan(text, 0, seq![], false);
    let b = if a.len() > 0 && a.last() == '-' {
        a.drop_last()
    } else {
        a
    };
    if b.len() == 0 {
        "section"@
    } else {
        b
    }
}

pub fn slugify(text: &str) -> (r: String)
    ensures
        r@ == slugify_spec(text@),
        is_anchor(r@),
{
    let s = chars_of(text);
    let mut slug: Vec<char> = Vec::new();
    let mut last_was_dash = false;
    let mut i: usize = 0;
    while i < s.len()
        invariant
            i <= s.len(),
            s@ == text@,
            slug_scan(s@, 0, seq![], false) == slug_scan(s@, i as int, slug@, last_was_dash),
            slug_shape(slug@, last_was_dash),
        decreases s.len() - i,
    {
        let c = s[i];
        let ghost before = slug@;
        if is_alphanumeric(c) {
            let l = lower_char(c);
            slug.push(l);
            last_was_dash = false;
            assert(l != '-');
            assert(slug@ == before.push(l));
        } else if (c == ' ' || c == '-' || c == '_') && !last_was_dash && slug.len() > 0 {
            slug.push('-');
            last_was_dash = true;
            assert(slug@ == before.push('-'));
        }
        i = i + 1;
    }
    let ghost full = slug@;
    if slug.len() > 0 && slug[slug.len() - 1] == '-' {
        slug.pop();
        assert(slug@ =~= full.drop_last());
        if slug.len() > 0 {
            assert(full[slug.len() as int] == '-');
        }
    }
    if slug.len() == 0 {
        proof {
            reveal_strlit("section");
        }
        string_of(&chars_of("section"))
    } else {
        string_of(&slug)
    }
}

/// Shape of a slug under construction: no leading `-`, no two `-` in a row,
/// and the dash flag tells whether it ends in `-`.
pub open spec fn slug_shape(acc: Seq<char>, last_dash: bool) -> bool {
    &&& (acc.len() > 0 ==> acc[0] != '-')
    &&& (forall|j: int| 1 <= j < acc.len() ==> !(acc[j - 1] == '-' && #[trigger] acc[j] == '-'))
    &&& (last_dash <==> (acc.len() > 0 && acc.last() == '-'))
}

/// A well-formed anchor: non-empty, neither starting nor ending with `-`,
/// and without two `-` in a row.
pub open spec fn is_anchor(r: Seq<char>) -> bool {
    &&& r.len() > 0
    &&& r[0] != '-'
    &&& r.last() != '-'
    &&& forall|j: int| 1 <= j < r.len() ==> !(r[j - 1] == '-' && #[trigger] r[j] == '-')
}


/// A character that may stand in a slug: `-`, or an alphanumeric character
/// that is not an ASCII capital.
pub open spec fn is_slug_char(c: char) -> bool {
    c == '-' || (is_alnum(c) && !('A' <= c && c <= 'Z'))
}

/// No leading `-`, no two `-` in a row, only slug characters.
pub open spec fn slug_form(r: Seq<char>) -> bool {
    &&& (r.len() > 0 ==> r[0] != '-')
    &&& (forall|j: int| 1 <= j < r.len() ==> !(r[j - 1] == '-' && #[trigger] r[j] == '-'))
    &&& (forall|j: int| 0 <= j < r.len() ==> is_slug_char(#[trigger] r[j]))
}

proof fn lemma_lower_slug_char(c: char)
    requires
        is_alnum(c),
    ensures
        is_slug_char(lower(c)),
{
    if 'A' <= c && c <= 'Z' {
        assert(((c as u32) + 32) as char as u32 == (c as u32) + 32);
    }
}

proof fn lemma_slug_scan_form(s: Seq<char>, i: int, acc: Seq<char>, last_dash: bool)
    requires
        slug_form(acc),
        last_dash <==> (acc.len() > 0 && acc.last() == '-'),
    ensures
        slug_form(slug_scan(s, i, acc, last_dash)),
    decreases s.len() - i,
{
    if i < 0 || i >= s.len() {
    } else {
        let c = s[i];
        if is_alnum(c) {
            lemma_lower_slug_char(c);
            let n = acc.push(lower(c));
            assert(lower(c) != '-');
            assert forall|j: int| 0 <= j < n.len() implies is_slug_char(#[trigger] n[j]) by {
                if j < acc.len() {
                    assert(n[j] == acc[j]);
                }
            }
            assert forall|j: int| 1 <= j < n.len() implies !(n[j - 1] == '-' && #[trigger] n[j]
                == '-') by {
                if j < acc.len() {
                    assert(n[j] == acc[j] && n[j - 1] == acc[j - 1]);
                }
            }
            lemma_slug_scan_form(s, i + 1, n, false);
        } else if (c == ' ' || c == '-' || c == '_') && !last_dash && acc.len() > 0 {
            let n = acc.push('-');
            assert forall|j: int| 0 <= j < n.len() implies is_slug_char(#[trigger] n[j]) by {
                if j < acc.len() {
                    assert(n[j] == acc[j]);
                }
            }
            assert forall|j: int| 1 <= j < n.len() implies !(n[j - 1] == '-' && #[trigger] n[j]
                == '-') by {
                if j < acc.len() {
                    assert(n[j] == acc[j] && n[j - 1] == acc[j - 1]);
                } else {
                    assert(n[j - 1] == acc.last());
                }
            }
            lemma_slug_scan_form(s, i + 1, n, true);
        } else {
            lemma_slug_scan_form(s, i + 1, acc, last_dash);
        }
    }
}

/// Every slug is a well-formed anchor made of `-` and alphanumeric
/// characters that are not ASCII capitals.
pub proof fn lemma_slug_chars(text: Seq<char>)
    ensures
        is_anchor(slugify_spec(text)),
        forall|j: int|
            0 <= j < slugify_spec(text).len() ==> is_slug_char(#[trigger] slugify_spec(text)[j]),
{
    let a = slug_scan(text, 0, seq![], false);
    lemma_slug_scan_form(text, 0, seq![], false);
    let b = if a.len() > 0 && a.last() == '-' {
        a.drop_last()
    } else {
        a
    };
    assert(slug_form(b)) by {
        assert forall|j: int| 1 <= j < b.len() implies !(b[j - 1] == '-' && #[trigger] b[j]
            == '-') by {
            assert(b[j] == a[j] && b[j - 1] == a[j - 1]);
        }
        assert forall|j: int| 0 <= j < b.len() implies is_slug_char(#[trigger] b[j]) by {
            assert(b[j] == a[j]);
        }
    }
    if b.len() == 0 {
        reveal_strlit("section");
        let r = "section"@;
        assert forall|j: int| 0 <= j < r.len() implies is_slug_char(#[trigger] r[j]) by {
            assert(r[j] as u32 >= 97 && r[j] as u32 <= 122);
        }
    } else {
        if a.len() > 0 && a.last() == '-' {
            assert(b.len() >= 2 ==> a[b.len() - 1] != '-');
            assert(b.last() == a[b.len() - 1]);
        }
    }
}

/// A slug followed from position `i` with what precedes it already built
/// comes out unchanged.
proof fn lemma_scan_of_slug(s: Seq<char>, i: int)
    requires
        slug_form(s),
        0 <= i <= s.len(),
    ensures
        slug_scan(s, i, s.take(i), i > 0 && s[i - 1] == '-') == s,
    decreases s.len() - i,
{
    if i == s.len() {
        assert(s.take(i) =~= s);
    } else {
        let c = s[i];
        assert(is_slug_char(c));
        assert(s.take(i + 1) =~= s.take(i).push(c));
        if c == '-' {
            assert(i > 0);
            assert(s[i - 1] != '-');
        } else {
            assert(lower(c) == c);
        }
        lemma_scan_of_slug(s, i + 1);
    }
}

/// Slugifying a slug gives it back.
pub proof fn lemma_slugify_idempotent(text: Seq<char>)
    ensures
        slugify_spec(slugify_spec(text)) == slugify_spec(text),
{
    let s = slugify_spec(text);
    lemma_slug_chars(text);
    assert(slug_form(s));
    lemma_scan_of_slug(s, 0);
    assert(s.take(0) =~= Seq::<char>::empty());
}

/// The number of `#` characters `t` starts with.
pub open spec fn hash_run(t: Seq<char>) -> nat
    decreases t.len(),
{
    if t.len() > 0 && t[0] == '#' {
        1 + hash_run(t.drop_first())
    } else {
        0
    }
}

/// `t` without leading spaces and tabs.
pub open spec fn trim_spaces_tabs(t: Seq<char>) -> Seq<char>
    decreases t.len(),
{
    if t.len() > 0 && (t[0] == ' ' || t[0] == '\t') {
        trim_spaces_tabs(t.drop_first())
    } else {
        t
    }
}

/// The outline item of one trimmed line outside code fences, if it is an
/// ATX heading (`#` to `######` followed by text).
pub open spec fn heading_item(t: Seq<char>) -> Option<OutlineItemView> {
    if t.len() > 0 && t[0] == '#' {
        let level = hash_run(t);
        if 1 <= level <= 6 {
            let rest = trim(t.skip(level as int));
            if rest.len() > 0 {
                let clean = trim_spaces_tabs(rest);
                Some(OutlineItemView { level, text: clean, id: slugify_spec(clean) })
            } else {
                None
            }
        } else {
            None
        }
    } else {
        None
    }
}

/// The headings of the given lines; lines starting with three backticks
/// toggle fenced code, inside which nothing counts.
pub open spec fn outline_of_lines(ls: Seq<Seq<char>>, in_code: bool) -> Seq<OutlineItemView>
    decreases ls.len(),
{
    if ls.len() == 0 {
        seq![]
    } else {
        let t = trim(ls[0]);
        let rest = ls.drop_first();
        if matches_at(t, 0, "```"@) {
            outline_of_lines(rest, !in_code)
        } else if in_code {
            outline_of_lines(rest, in_code)
        } else {
            match heading_item(t) {
                Some(item) => seq![item] + outline_of_lines(rest, in_code),
                None => outline_of_lines(rest, in_code),
            }
        }
    }
}

pub open spec fn extract_outline_spec(markdown: Seq<char>) -> Seq<OutlineItemView> {
    outline_of_lines(lines(markdown), false)
}

fn heading_of(t: &Vec<char>) -> (r: Option<OutlineItem>)
    ensures
        match r {
            Some(item) => heading_item(t@) == Some(item@),
            None => heading_item(t@) is None,
        },
{
    if t.len() == 0 || t[0] != '#' {
        return None;
    }
    let mut level: usize = 0;
    assert(t@.skip(0) =~= t@);
    while level < t.len() && t[level] == '#'
        invariant
            level <= t.len(),
            hash_run(t@) == level + hash_run(t@.skip(level as int)),
        decreases t.len() - level,
    {
        assert(t@.skip(level as int).drop_first() =~= t@.skip(level + 1));
        level = level + 1;
    }
    assert(t@.skip(0) =~= t@);
    if level < 1 || level > 6 {
        return None;
    }
    let after = slice_chars(t, level, t.len());
    assert(after@ =~= t@.skip(level as int));
    let rest = trim_chars(&after);
    if rest.len() == 0 {
        return None;
    }
    let mut k: usize = 0;
    assert(rest@.skip(0) =~= rest@);
    while k < rest.len() && (rest[k] == ' ' || rest[k] == '\t')
        invariant
            k <= rest.len(),
            trim_spaces_tabs(rest@) == trim_spaces_tabs(rest@.skip(k as int)),
        decreases rest.len() - k,
    {
        assert(rest@.skip(k as int).drop_first() =~= rest@.skip(k + 1));
        k = k + 1;
    }
    let clean = slice_chars(&rest, k, rest.len());
    assert(clean@ =~= rest@.skip(k as int));
    let text = string_of(&clean);
    let id = slugify(text.as_str());
    Some(OutlineItem { level, text, id })
}

#[verifier::rlimit(30)]
pub fn extract_outline(markdown: &str) -> (r: Vec<OutlineItem>)
    ensures
        outline_view(r@) == extract_outline_spec(markdown@),
{
    let md = chars_of(markdown);
    let ls = lines_of(&md);
    let ghost lv = ls@.map_values(|l: Vec<char>| l@);
    let mut items: Vec<OutlineItem> = Vec::new();
    let mut in_code_block = false;
    let mut i: usize = 0;
    assert(lv.skip(0) =~= lv);
    while i < ls.len()
        invariant
            i <= ls.len(),
            lv == ls@.map_values(|l: Vec<char>| l@),
            lv == lines(markdown@),
            outline_view(items@) + outline_of_lines(lv.skip(i as int), in_code_block)
                == outline_of_lines(lv, false),
        decreases ls.len() - i,
    {
        let ghost old_items = items@;
        let t = trim_chars(&ls[i]);
        assert(lv[i as int] == ls@[i as int]@);
        assert(lv.skip(i as int).drop_first() =~= lv.skip(i + 1));
        if starts_with_str(&t, "```") {
            in_code_block = !in_code_block;
        } else if !in_code_block {
            match heading_of(&t) {
                Some(item) => {
                    items.push(item);
                    assert(outline_view(items@) =~= outline_view(old_items).push(item@));
                    assert(outline_view(items@) + outline_of_lines(lv.skip(i + 1), in_code_block)
                        =~= outline_view(old_items) + (seq![item@] + outline_of_lines(
                        lv.skip(i + 1),
                        in_code_block,
                    )));
                },
                None => {},
            }
        }
        i = i + 1;
    }
    assert(lv.skip(i as int) =~= Seq::<Seq<char>>::empty());
    assert(outline_view(items@) + Seq::<OutlineItemView>::empty() =~= outline_view(items@));
    items
}

/// A line that opens or closes fenced code: three backticks after trimming.
pub open spec fn is_fence(line: Seq<char>) -> bool {
    matches_at(trim(line), 0, "```"@)
}

/// Inside fenced code, lines that are not fences count for nothing.
proof fn lemma_code_lines_skipped(c: Seq<char>, r: Seq<char>)
    requires
        forall|j: int| 0 <= j < lines(c + seq!['\n']).len() ==> !is_fence(#[trigger] lines(c + seq!['\n'])[j]),
    ensures
        outline_of_lines(lines(c + seq!['\n'] + r), true) == outline_of_lines(lines(r), true),
    decreases c.len(),
{
    lemma_index_of(c, '\n');
    match index_of(c, '\n') {
        None => {
            lemma_lines_split(c, r);
            lemma_lines_split(c, seq![]);
            assert(c + seq!['\n'] + Seq::<char>::empty() =~= c + seq!['\n']);
            assert(lines(c + seq!['\n'])[0] == strip_cr(c));
            let ls = seq![strip_cr(c)] + lines(r);
            assert(ls[0] == strip_cr(c));
            assert(ls.drop_first() =~= lines(r));
        },
        Some(k) => {
            let c1 = c.take(k);
            let c2 = c.skip(k + 1);
            assert forall|j: int| 0 <= j < c1.len() implies c1[j] != '\n' by {
                assert(c1[j] == c[j]);
            }
            assert(c + seq!['\n'] + r =~= c1 + seq!['\n'] + (c2 + seq!['\n'] + r));
            assert(c + seq!['\n'] =~= c1 + seq!['\n'] + (c2 + seq!['\n']));
            lemma_lines_split(c1, c2 + seq!['\n'] + r);
            lemma_lines_split(c1, c2 + seq!['\n']);
            let all = lines(c + seq!['\n']);
            assert(all == seq![strip_cr(c1)] + lines(c2 + seq!['\n']));
            assert(all[0] == strip_cr(c1));
            assert forall|j: int| 0 <= j < lines(c2 + seq!['\n']).len() implies !is_fence(
                #[trigger] lines(c2 + seq!['\n'])[j],
            ) by {
                assert(all[j + 1] == lines(c2 + seq!['\n'])[j]);
            }
            lemma_code_lines_skipped(c2, r);
            let ls = seq![strip_cr(c1)] + lines(c2 + seq!['\n'] + r);
            assert(ls[0] == strip_cr(c1));
            assert(ls.drop_first() =~= lines(c2 + seq!['\n'] + r));
        },
    }
}

/// Headings inside fenced code are not part of the outline: a fenced block
/// whose lines hold no fence adds nothing to the outline of what follows it.
pub proof fn lemma_fenced_code_ignored(c: Seq<char>, m: Seq<char>)
    requires
        forall|j: int| 0 <= j < lines(c + seq!['\n']).len() ==> !is_fence(#[trigger] lines(c + seq!['\n'])[j]),
    ensures
        extract_outline_spec("```"@ + seq!['\n'] + c + seq!['\n'] + "```"@ + seq!['\n'] + m)
            == extract_outline_spec(m),
{
    let f = "```"@;
    reveal_strlit("```");
    assert(f.len() == 3 && f[0] == '`' && f[1] == '`' && f[2] == '`');
    assert forall|j: int| 0 <= j < f.len() implies f[j] != '\n' by {}
    assert(strip_cr(f) == f);
    assert(crate::text::trim_start(f) == f);
    assert(crate::text::trim_end(f) == f);
    assert(trim(f) == f);
    assert(f.subrange(0, 3) =~= f);
    assert(is_fence(f));
    let tail = f + seq!['\n'] + m;
    let s = f + seq!['\n'] + c + seq!['\n'] + f + seq!['\n'] + m;
    assert(s =~= f + seq!['\n'] + (c + seq!['\n'] + tail));
    lemma_lines_split(f, c + seq!['\n'] + tail);
    let ls = seq![f] + lines(c + seq!['\n'] + tail);
    assert(ls[0] == f);
    assert(ls.drop_first() =~= lines(c + seq!['\n'] + tail));
    lemma_code_lines_skipped(c, tail);
    lemma_lines_split(f, m);
    let ls2 = seq![f] + lines(m);
    assert(ls2[0] == f);
    assert(ls2.drop_first() =~= lines(m));
}

} // verus!
