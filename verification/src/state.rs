//! Editor state models: modes, themes, tabs, outline items and file entries.
use vstd::prelude::*;
use crate::text::{chars_of, string_of, trim, trim_chars, matches_at, starts_with_str, eq_str, slice_chars, text_lower, to_lowercase_chars};

verus! {

#[derive(Clone, Copy, PartialEq, Eq, Debug, Structural)]
pub enum EditorMode {
    Wysiwyg,
    Split,
    Source,
}

impl EditorMode {
    pub open spec fn label_spec(self) -> Seq<char> {
        match self {
            EditorMode::Wysiwyg => "WYSIWYG"@,
            EditorMode::Split => "Split"@,
            EditorMode::Source => "Source"@,
        }
    }

    pub fn label(&self) -> (r: &'static str)
        ensures
            r@ == self.label_spec(),
    {
        match self {
            EditorMode::Wysiwyg => "WYSIWYG",
            EditorMode::Split => "Split",
            EditorMode::Source => "Source",
        }
    }
}

#[derive(Clone, Copy, PartialEq, Eq, Debug, Structural)]
pub enum Theme {
    Dark,
    Light,
    Nord,
    Monokai,
}

impl Theme {
    pub open spec fn class_name_spec(self) -> Seq<char> {
        match self {
            Theme::Dark => "theme-dark"@,
            Theme::Light => "theme-light"@,
            Theme::Nord => "theme-nord"@,
            Theme::Monokai => "theme-monokai"@,
        }
    }

    pub open spec fn label_spec(self) -> Seq<char> {
        match self {
            Theme::Dark => "Dark"@,
            Theme::Light => "Light"@,
            Theme::Nord => "Nord"@,
            Theme::Monokai => "Monokai"@,
        }
    }

    /// The theme named by a bare (lower-case) theme name.
    pub open spec fn from_bare_name(name: Seq<char>) -> Option<Theme> {
        if name == "dark"@ {
            Some(Theme::Dark)
        } else if name == "light"@ {
            Some(Theme::Light)
        } else if name == "nord"@ {
            Some(Theme::Nord)
        } else if name == "monokai"@ {
            Some(Theme::Monokai)
        } else {
            None
        }
    }

    pub open spec fn from_class_name_spec(class_name: Seq<char>) -> Option<Theme> {
        if class_name == "theme-dark"@ {
            Some(Theme::Dark)
        } else if class_name == "theme-light"@ {
            Some(Theme::Light)
        } else if class_name == "theme-nord"@ {
            Some(Theme::Nord)
        } else if class_name == "theme-monokai"@ {
            Some(Theme::Monokai)
        } else {
            None
        }
    }

    /// A lower-cased theme name or class name: the trimmed text without a
    /// `theme-` prefix; when there is no such prefix the text as given
    /// (untrimmed) is looked up.
    pub open spec fn from_lowered_spec(low: Seq<char>) -> Option<Theme> {
        let t = trim(low);
        let clean = if matches_at(t, 0, "theme-"@) {
            t.skip(6)
        } else {
            low
        };
        Theme::from_bare_name(clean)
    }

    /// A theme name or class name, case-insensitively.
    pub open spec fn from_name_or_class_spec(name: Seq<char>) -> Option<Theme> {
        Theme::from_lowered_spec(text_lower(name))
    }

    pub open spec fn next_spec(self) -> Theme {
        match self {
            Theme::Dark => Theme::Light,
            Theme::Light => Theme::Nord,
            Theme::Nord => Theme::Monokai,
            Theme::Monokai => Theme::Dark,
        }
    }

    pub fn from_class_name(class_name: &str) -> (r: Option<Self>)
        ensures
            r == Theme::from_class_name_spec(class_name@),
    {
        let c = chars_of(class_name);
        if eq_str(&c, "theme-dark") {
            Some(Theme::Dark)
        } else if eq_str(&c, "theme-light") {
            Some(Theme::Light)
        } else if eq_str(&c, "theme-nord") {
            Some(Theme::Nord)
        } else if eq_str(&c, "theme-monokai") {
            Some(Theme::Monokai)
        } else {
            None
        }
    }

    pub fn class_name(&self) -> (r: &'static str)
        ensures
            r@ == self.class_name_spec(),
    {
        match self {
            Theme::Dark => "theme-dark",
            Theme::Light => "theme-light",
            Theme::Nord => "theme-nord",
            Theme::Monokai => "theme-monokai",
        }
    }

    pub fn label(&self) -> (r: &'static str)
        ensures
            r@ == self.label_spec(),
    {
        match self {
            Theme::Dark => "Dark",
            Theme::Light => "Light",
            Theme::Nord => "Nord",
            Theme::Monokai => "Monokai",
        }
    }

    /// The theme of a lower-cased theme name or class name.
    pub fn from_lowered_name(lowered: &str) -> (r: Option<Self>)
        ensures
            r == Theme::from_lowered_spec(lowered@),
    {
        let low = chars_of(lowered);
        let t = trim_chars(&low);
        let clean = if starts_with_str(&t, "theme-") {
            proof {
                reveal_strlit("theme-");
            }
            slice_chars(&t, 6, t.len())
        } else {
            low
        };
        assert(clean@ =~= (if matches_at(t@, 0, "theme-"@) {
            t@.skip(6)
        } else {
            lowered@
        }));
        if eq_str(&clean, "dark") {
            Some(Theme::Dark)
        } else if eq_str(&clean, "light") {
            Some(Theme::Light)
        } else if eq_str(&clean, "nord") {
            Some(Theme::Nord)
        } else if eq_str(&clean, "monokai") {
            Some(Theme::Monokai)
        } else {
            None
        }
    }

    pub fn from_name_or_class(name: &str) -> (r: Option<Self>)
        ensures
            r == Theme::from_name_or_class_spec(name@),
    {
        let low = string_of(&to_lowercase_chars(name));
        Theme::from_lowered_name(low.as_str())
    }

    pub fn next(&self) -> (r: Theme)
        ensures
            r == self.next_spec(),
    {
        match self {
            Theme::Dark => Theme::Light,
            Theme::Light => Theme::Nord,
            Theme::Nord => Theme::Monokai,
            Theme::Monokai => Theme::Dark,
        }
    }
}

/// A theme's class name names that theme and no other.
pub proof fn lemma_theme_class_round_trip(t: Theme)
    ensures
        Theme::from_class_name_spec(t.class_name_spec()) == Some(t),
{
    reveal_strlit("theme-dark");
    reveal_strlit("theme-light");
    reveal_strlit("theme-nord");
    reveal_strlit("theme-monokai");
    let d = "theme-dark"@;
    let l = "theme-light"@;
    let n = "theme-nord"@;
    let m = "theme-monokai"@;
    assert(l.len() != d.len());
    assert(n[6] != d[6]);
    assert(n.len() != l.len());
    assert(m.len() != d.len() && m.len() != l.len() && m.len() != n.len());
}

/// Cycling through themes returns to the start after four steps and visits
/// every theme on the way.
pub proof fn lemma_theme_cycle(t: Theme)
    ensures
        t.next_spec().next_spec().next_spec().next_spec() == t,
        t.next_spec() != t,
        t.next_spec().next_spec() != t,
        t.next_spec().next_spec().next_spec() != t,
{
}

#[derive(Clone, Copy, PartialEq, Eq, Debug, Structural)]
pub enum EditorPosition {
    Left,
    Right,
}

#[derive(Clone, Copy, PartialEq, Eq, Debug, Structural)]
pub enum SidebarTab {
    Files,
    Outline,
    Stats,
}

#[derive(Clone, Debug, PartialEq, Eq)]
pub struct DocumentTab {
    pub id: String,
    pub title: String,
    pub path: Option<String>,
    pub content: String,
    pub is_dirty: bool,
}

#[derive(Clone, Debug, PartialEq, Eq)]
pub struct OutlineItem {
    pub level: usize,
    pub text: String,
    pub id: String,
}

/// The mathematical value of an [`OutlineItem`].
pub struct OutlineItemView {
    pub level: nat,
    pub text: Seq<char>,
    pub id: Seq<char>,
}

impl View for OutlineItem {
    type V = OutlineItemView;

    open spec fn view(&self) -> OutlineItemView {
        OutlineItemView { level: self.level as nat, text: self.text@, id: self.id@ }
    }
}

pub open spec fn outline_view(v: Seq<OutlineItem>) -> Seq<OutlineItemView> {
    v.map_values(|o: OutlineItem| o@)
}

#[derive(Clone, Debug, PartialEq, Eq)]
pub struct FileEntry {
    pub name: String,
    pub path: String,
    pub is_dir: bool,
    pub size: u64,
}

#[derive(Clone, Debug, PartialEq, Eq, Structural)]
pub enum ActiveModal {
    /// No modal is open.
    Closed,
    InsertLink,
    InsertImage,
    InsertTable,
    Export,
    Help,
    NewFile,
    OpenFile,
}

#[derive(Clone, Debug, PartialEq)]
pub struct FindReplaceState {
    pub is_open: bool,
    pub search_query: String,
    pub replace_query: String,
    pub match_case: bool,
    pub whole_word: bool,
    pub current_match: usize,
    pub total_matches: usize,
}

impl Default for FindReplaceState {
    fn default() -> (r: Self)
        ensures
            !r.is_open && r.search_query@ == Seq::<char>::empty() && r.replace_query@
                == Seq::<char>::empty() && !r.match_case && !r.whole_word && r.current_match == 0
                && r.total_matches == 0,
    {
        FindReplaceState {
            is_open: false,
            search_query: String::new(),
            replace_query: String::new(),
            match_case: false,
            whole_word: false,
            current_match: 0,
            total_matches: 0,
        }
    }
}

} // verus!
