//! Counting a document: characters, words, lines and paragraphs.
use vstd::prelude::*;
use crate::text::{
    chars_of, find, find_from, find_str_from, trim, trim_chars, is_ws, is_ws_char, lines, lines_of,
    words, words_of, slice_chars, lemma_find_from_skip,
};
use crate::html::{strip_html_tags, strip_spec};

verus! {

broadcast use vstd::string::group_string_axioms;

/// The pieces of `s` between non-overlapping occurrences of `pat`, left to
/// right (`str::split` with a non-empty string pattern).
pub open spec fn split_pat(s: Seq<char>, pat: Seq<char>) -> Seq<Seq<char>>
    decreases s.len(),
{
    if pat.len() == 0 {
        seq![s]
    } else {
        match find(s, pat) {
            Some(k) => if 0 <= k && k + pat.len() <= s.len() {
                seq![s.take(k)] + split_pat(s.skip(k + pat.len()), pat)
            } else {
                seq![s]
            },
            None => seq![s],
        }
    }
}

/// How many of the pieces hold something besides whitespace.
pub open spec fn count_nonblank(ps: Seq<Seq<char>>) -> nat
    decreases ps.len(),
{
    if ps.len() == 0 {
        0
    } else {
        count_nonblank(ps.drop_last()) + if trim(ps.last()).len() > 0 {
            1nat
        } else {
            0nat
        }
    }
}

/// How many characters are not whitespace.
pub open spec fn count_non_ws(s: Seq<char>) -> nat
    decreases s.len(),
{
    if s.len() == 0 {
        0
    } else {
        count_non_ws(s.drop_last()) + if is_ws(s.last()) {
            0nat
        } else {
            1nat
        }
    }
}

pub open spec fn at_least_one(n: nat) -> nat {
    if n == 0 {
        1
    } else {
        n
    }
}

/// The counts of a document's text.
#[derive(Debug, Clone, Copy, PartialEq, Eq)]
pub struct DocumentCounts {
    pub words: usize,
    pub chars: usize,
    pub chars_no_spaces: usize,
    pub lines: usize,
    pub paragraphs: usize,
}

/// The text that is counted: HTML without its tags, Markdown as it is.
pub open spec fn counted_text(text: Seq<char>, is_html: bool) -> Seq<char> {
    if is_html {
        strip_spec(text)
    } else {
        text
    }
}

pub open spec fn counts_spec(text: Seq<char>, is_html: bool) -> DocumentCounts {
    let t = counted_text(text, is_html);
    DocumentCounts {
        words: words(t).len() as usize,
        chars: t.len() as usize,
        chars_no_spaces: count_non_ws(t) as usize,
        lines: at_least_one(lines(t).len()) as usize,
        paragraphs: at_least_one(count_nonblank(split_pat(t, seq!['\n', '\n']))) as usize,
    }
}

fn count_non_ws_exec(s: &Vec<char>) -> (r: usize)
    ensures
        r == count_non_ws(s@),
{
    let mut n: usize = 0;
    let mut i: usize = 0;
    while i < s.len()
        invariant
            i <= s@.len(),
            n == count_non_ws(s@.take(i as int)),
            n <= i,
        decreases s@.len() - i,
    {
        assert(s@.take(i + 1).drop_last() =~= s@.take(i as int));
        if !is_ws_char(s[i]) {
            n = n + 1;
        }
        i = i + 1;
    }
    assert(s@.take(i as int) =~= s@);
    n
}

proof fn lemma_count_nonblank_append(a: Seq<Seq<char>>, b: Seq<Seq<char>>)
    ensures
        count_nonblank(a + b) == count_nonblank(a) + count_nonblank(b),
    decreases b.len(),
{
    if b.len() == 0 {
        assert(a + b =~= a);
    } else {
        assert((a + b).drop_last() =~= a + b.drop_last());
        lemma_count_nonblank_append(a, b.drop_last());
    }
}

proof fn lemma_count_nonblank_one(x: Seq<char>)
    ensures
        count_nonblank(seq![x]) == (if trim(x).len() > 0 {
            1nat
        } else {
            0nat
        }),
{
    let s = seq![x];
    assert(s.len() == 1);
    assert(s.drop_last() =~= Seq::<Seq<char>>::empty());
    assert(s.last() == x);
    assert(count_nonblank(s.drop_last()) == 0);
}

proof fn lemma_count_nonblank_bound(ps: Seq<Seq<char>>)
    ensures
        count_nonblank(ps) <= ps.len(),
    decreases ps.len(),
{
    if ps.len() > 0 {
        lemma_count_nonblank_bound(ps.drop_last());
    }
}

proof fn lemma_split_pat_len(s: Seq<char>, pat: Seq<char>)
    requires
        pat.len() > 0,
    ensures
        split_pat(s, pat).len() <= s.len() + 1,
    decreases s.len(),
{
    match find(s, pat) {
        Some(k) => if 0 <= k && k + pat.len() <= s.len() {
            lemma_split_pat_len(s.skip(k + pat.len()), pat);
        },
        None => {},
    }
}

/// The number of paragraphs: pieces between blank-line separators `\n\n`
/// that hold text.
fn count_paragraphs(t: &Vec<char>) -> (r: usize)
    ensures
        r == count_nonblank(split_pat(t@, seq!['\n', '\n'])),
{
    let ghost pat = seq!['\n', '\n'];
    proof {
        reveal_strlit("\n\n");
        assert("\n\n"@ =~= pat);
        lemma_split_pat_len(t@, pat);
        lemma_count_nonblank_bound(split_pat(t@, pat));
    }
    let n = t.len();
    let mut count: usize = 0;
    let mut i: usize = 0;
    assert(t@.skip(0) =~= t@);
    loop
        invariant_except_break
            i <= n,
            count <= i,
            count + count_nonblank(split_pat(t@.skip(i as int), pat)) == count_nonblank(split_pat(t@, pat)),
        invariant
            n == t@.len(),
            pat == seq!['\n', '\n'],
            "\n\n"@ == pat,
            count_nonblank(split_pat(t@, pat)) <= n + 1,
        ensures
            count == count_nonblank(split_pat(t@, pat)),
        decreases n - i,
    {
        let ghost rest = t@.skip(i as int);
        proof {
            lemma_find_from_skip(t@, pat, i as int, 0);
            lemma_count_nonblank_bound(split_pat(rest, pat));
        }
        match find_str_from(t, "\n\n", i) {
            Some(k) => {
                assert(i <= k && k + 2 <= n);
                let piece = slice_chars(t, i, k);
                assert(piece@ =~= rest.take(k - i));
                assert(rest.skip(k - i + 2) =~= t@.skip(k + 2));
                let ghost tail = split_pat(t@.skip(k + 2), pat);
                assert(split_pat(rest, pat) =~= seq![piece@] + tail);
                proof {
                    lemma_count_nonblank_append(seq![piece@], tail);
                    lemma_count_nonblank_one(piece@);
                }
                let tp = trim_chars(&piece);
                if tp.len() > 0 {
                    count = count + 1;
                }
                i = k + 2;
                assert(t@.skip(i as int) == t@.skip(k + 2));
            },
            None => {
                let piece = slice_chars(t, i, n);
                assert(piece@ =~= rest);
                assert(split_pat(rest, pat) =~= seq![rest]);
                proof {
                    lemma_count_nonblank_one(rest);
                }
                let tp = trim_chars(&piece);
                if tp.len() > 0 {
                    count = count + 1;
                }
                break;
            },
        }
    }
    count
}

impl DocumentCounts {
    /// Counts the text of a document (`is_html` for an HTML document, whose
    /// tags are not counted).
    pub fn compute(text: &str, is_html: bool) -> (r: Self)
        ensures
            r == counts_spec(text@, is_html),
    {
        let clean = if is_html {
            chars_of(strip_html_tags(text).as_str())
        } else {
            chars_of(text)
        };
        let chars = clean.len();
        let chars_no_spaces = count_non_ws_exec(&clean);
        let ls = lines_of(&clean);
        assert(ls@.map_values(|l: Vec<char>| l@).len() == ls@.len());
        let lines = if ls.len() == 0 {
            1
        } else {
            ls.len()
        };
        let ws = words_of(&clean);
        assert(ws@.map_values(|w: Vec<char>| w@).len() == ws@.len());
        let p = count_paragraphs(&clean);
        let paragraphs = if p == 0 {
            1
        } else {
            p
        };
        DocumentCounts { words: ws.len(), chars, chars_no_spaces, lines, paragraphs }
    }
}

/// The counts of an empty document: no words or characters, one line, one
/// paragraph.
pub open spec fn empty_counts() -> DocumentCounts {
    DocumentCounts { words: 0, chars: 0, chars_no_spaces: 0, lines: 1, paragraphs: 1 }
}

impl Default for DocumentCounts {
    fn default() -> (r: Self)
        ensures
            r == empty_counts(),
    {
        DocumentCounts { words: 0, chars: 0, chars_no_spaces: 0, lines: 1, paragraphs: 1 }
    }
}

/// The default counts are those that counting an empty Markdown or HTML
/// document gives.
pub proof fn lemma_default_counts_empty_text(is_html: bool)
    ensures
        counts_spec(Seq::<char>::empty(), is_html) == empty_counts(),
{
    let e = Seq::<char>::empty();
    if is_html {
        assert(trim(e) =~= e);
    }
    let t = counted_text(e, is_html);
    assert(t =~= e);
    assert(words(t).len() == 0);
    assert(lines(t).len() == 0);
    assert(count_non_ws(t) == 0);
    assert(split_pat(t, seq!['\n', '\n']) =~= seq![t]);
    assert(seq![t].drop_last() =~= Seq::<Seq<char>>::empty());
    assert(trim(t) =~= e);
    let ps = seq![t];
    assert(ps.last() == t);
    assert(count_nonblank(ps.drop_last()) == 0);
    assert(count_nonblank(ps) == 0);
    assert(count_nonblank(split_pat(t, seq!['\n', '\n'])) == 0);
    let c = counts_spec(e, is_html);
    assert(c.words == 0 && c.chars == 0 && c.chars_no_spaces == 0);
    assert(c.lines == 1 && c.paragraphs == 1);
}

/// An HTML document is counted as its readable text: its counts are those of
/// the tag-stripped text read as plain text, and its characters are exactly
/// the characters of that text (markup adds nothing); a plain text has as
/// many characters as it is long.
pub proof fn lemma_html_counted_as_stripped_text(text: Seq<char>)
    ensures
        counts_spec(text, true) == counts_spec(strip_spec(text), false),
        counts_spec(text, true).chars == strip_spec(text).len() as usize,
        counts_spec(text, false).chars == text.len() as usize,
{
}

} // verus!
