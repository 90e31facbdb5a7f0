//! Terminal configuration: where the file lives, how loose number settings
//! read, and which of the file's settings win.
//!
//! The settings are generic over the theme value `T` and the number type `N`
//! the reader of the file uses.
use vstd::prelude::*;
use crate::text::{chars_of, string_of, push_str, push_all, slice_chars, trim, trim_chars, matches_at};

verus! {

broadcast use vstd::string::group_string_axioms;

/// `dir` joined with the relative path `name` (`Path::join` on Unix).
pub open spec fn join_path(dir: Seq<char>, name: Seq<char>) -> Seq<char> {
    if dir.len() == 0 {
        name
    } else if dir.last() == '/' {
        dir + name
    } else {
        dir + seq!['/'] + name
    }
}

/// `dir` joined with the relative path `name`.
pub fn join_path_exec(dir: &str, name: &str) -> (r: String)
    ensures
        r@ == join_path(dir@, name@),
{
    let d = chars_of(dir);
    let mut out = slice_chars(&d, 0, d.len());
    assert(out@ =~= d@);
    if d.len() > 0 && d[d.len() - 1] != '/' {
        out.push('/');
    }
    push_str(&mut out, name);
    string_of(&out)
}

pub open spec fn config_dir_spec(home: Seq<char>) -> Seq<char> {
    join_path(join_path(home, ".config"@), "mdterm"@)
}

/// The configuration directory under the home directory `home`.
pub fn get_config_dir(home: &str) -> (r: String)
    ensures
        r@ == config_dir_spec(home@),
{
    let c = join_path_exec(home, ".config");
    join_path_exec(c.as_str(), "mdterm")
}

/// The two file names a configuration may have, in the order they are looked for.
pub fn config_file_paths(dir: &str) -> (r: (String, String))
    ensures
        r.0@ == join_path(dir@, "config.yml"@),
        r.1@ == join_path(dir@, "config.yaml"@),
{
    (join_path_exec(dir, "config.yml"), join_path_exec(dir, "config.yaml"))
}

pub open spec fn config_path_spec(dir: Seq<char>, yml_exists: bool, yaml_exists: bool) -> Seq<char> {
    if yml_exists {
        join_path(dir, "config.yml"@)
    } else if yaml_exists {
        join_path(dir, "config.yaml"@)
    } else {
        join_path(dir, "config.yml"@)
    }
}

/// The configuration file in `dir`: `config.yml` where it exists, else
/// `config.yaml` where that exists, else `config.yml`.
pub fn get_config_path(dir: &str, yml_exists: bool, yaml_exists: bool) -> (r: String)
    ensures
        r@ == config_path_spec(dir@, yml_exists, yaml_exists),
{
    let (yml, yaml) = config_file_paths(dir);
    if yml_exists {
        yml
    } else if yaml_exists {
        yaml
    } else {
        yml
    }
}

/// The file written when no configuration exists yet.
pub const DEFAULT_CONFIG_TEMPLATE: &'static str = "# mdterm terminal configuration\n# Location: ~/.config/mdterm/config.yml\n\n# Terminal theme: \"dark\", \"light\", \"nord\", \"monokai\"\n# You can also provide custom colors:\n# theme:\n#   background: \"#0f141c\"\n#   foreground: \"#e2e8f0\"\n#   cursor: \"#38bdf8\"\ntheme: \"dark\"\n\n# Terminal font family\nfont_family: 'JetBrains Mono, Menlo, Monaco, Consolas, \"Courier New\", monospace'\n\n# Terminal font size in points/pixels\nfont_size: 13\n\n# Terminal character height (line height multiplier, e.g. 1.0, 1.25, 1.5)\ncharacter_height: 1.0\n";

pub const DEFAULT_THEME_NAME: &'static str = "dark";

pub const DEFAULT_FONT_FAMILY: &'static str = "JetBrains Mono, Menlo, Monaco, Consolas, \"Courier New\", monospace";

// ---------------------------------------------------------------------------
// Loose numbers
// ---------------------------------------------------------------------------

/// `s` without any number of trailing `px`.
pub open spec fn strip_px(s: Seq<char>) -> Seq<char>
    decreases s.len(),
{
    if s.len() >= 2 && s[s.len() - 2] == 'p' && s[s.len() - 1] == 'x' {
        strip_px(s.take(s.len() - 2))
    } else {
        s
    }
}

/// The text of a number setting given as a string (`"16px"`, `" 1.5 "`):
/// trimmed, without trailing `px`, trimmed again; `None` when nothing is left.
pub open spec fn number_text_spec(s: Seq<char>) -> Option<Seq<char>> {
    let t = trim(strip_px(trim(s)));
    if t.len() == 0 {
        None
    } else {
        Some(t)
    }
}

pub fn number_text(s: &str) -> (r: Option<String>)
    ensures
        match r {
            Some(t) => number_text_spec(s@) == Some(t@),
            None => number_text_spec(s@) is None,
        },
{
    let a = trim_chars(&chars_of(s));
    let mut n = a.len();
    assert(a@.take(n as int) =~= a@);
    while n >= 2 && a[n - 2] == 'p' && a[n - 1] == 'x'
        invariant
            n <= a@.len(),
            strip_px(a@) == strip_px(a@.take(n as int)),
        decreases n,
    {
        assert(a@.take(n as int).take(n - 2) =~= a@.take(n - 2));
        n = n - 2;
    }
    let b = slice_chars(&a, 0, n);
    assert(b@ =~= a@.take(n as int));
    let c = trim_chars(&b);
    if c.len() == 0 {
        None
    } else {
        Some(string_of(&c))
    }
}

// ---------------------------------------------------------------------------
// Which setting wins
// ---------------------------------------------------------------------------

/// A `font:` section.
pub struct RawFontSection<N> {
    pub family: Option<String>,
    pub size: Option<N>,
    pub character_height: Option<N>,
}

/// A `terminal:` section.
pub struct RawTerminalSection<T, N> {
    pub theme: Option<T>,
    pub font_family: Option<String>,
    pub font_size: Option<N>,
    pub character_height: Option<N>,
    pub font: Option<RawFontSection<N>>,
}

/// A configuration file as written.
pub struct RawConfigFile<T, N> {
    pub theme: Option<T>,
    pub font_family: Option<String>,
    pub font_size: Option<N>,
    pub character_height: Option<N>,
    pub terminal: Option<RawTerminalSection<T, N>>,
    pub font: Option<RawFontSection<N>>,
}

/// The settings in effect.
pub struct TerminalConfig<T, N> {
    pub theme: Option<T>,
    pub font_family: Option<String>,
    pub font_size: Option<N>,
    pub character_height: Option<N>,
}

/// The first of two options that is set.
pub open spec fn or_else<X>(a: Option<X>, b: Option<X>) -> Option<X> {
    if a is Some {
        a
    } else {
        b
    }
}

pub open spec fn term_theme<T, N>(t: Option<RawTerminalSection<T, N>>) -> Option<T> {
    match t {
        Some(s) => s.theme,
        None => None,
    }
}

pub open spec fn term_family<T, N>(t: Option<RawTerminalSection<T, N>>) -> Option<String> {
    match t {
        Some(s) => s.font_family,
        None => None,
    }
}

pub open spec fn term_size<T, N>(t: Option<RawTerminalSection<T, N>>) -> Option<N> {
    match t {
        Some(s) => s.font_size,
        None => None,
    }
}

pub open spec fn term_height<T, N>(t: Option<RawTerminalSection<T, N>>) -> Option<N> {
    match t {
        Some(s) => s.character_height,
        None => None,
    }
}

pub open spec fn term_font<T, N>(t: Option<RawTerminalSection<T, N>>) -> Option<RawFontSection<N>> {
    match t {
        Some(s) => s.font,
        None => None,
    }
}

pub open spec fn font_family_of<N>(f: Option<RawFontSection<N>>) -> Option<String> {
    match f {
        Some(s) => s.family,
        None => None,
    }
}

pub open spec fn font_size_of<N>(f: Option<RawFontSection<N>>) -> Option<N> {
    match f {
        Some(s) => s.size,
        None => None,
    }
}

pub open spec fn font_height_of<N>(f: Option<RawFontSection<N>>) -> Option<N> {
    match f {
        Some(s) => s.character_height,
        None => None,
    }
}

/// Each setting from the first place that has it: the `terminal:` section,
/// its `font:` section, the top-level `font:` section, the top level, and
/// finally `defaults` (the theme has no `font:` places).
pub open spec fn merged_config<T, N>(raw: RawConfigFile<T, N>, defaults: TerminalConfig<T, N>) -> TerminalConfig<T, N> {
    TerminalConfig {
        theme: or_else(term_theme(raw.terminal), or_else(raw.theme, defaults.theme)),
        font_family: or_else(
            term_family(raw.terminal),
            or_else(
                font_family_of(term_font(raw.terminal)),
                or_else(font_family_of(raw.font), or_else(raw.font_family, defaults.font_family)),
            ),
        ),
        font_size: or_else(
            term_size(raw.terminal),
            or_else(
                font_size_of(term_font(raw.terminal)),
                or_else(font_size_of(raw.font), or_else(raw.font_size, defaults.font_size)),
            ),
        ),
        character_height: or_else(
            term_height(raw.terminal),
            or_else(
                font_height_of(term_font(raw.terminal)),
                or_else(font_height_of(raw.font), or_else(raw.character_height, defaults.character_height)),
            ),
        ),
    }
}

fn first<X>(a: Option<X>, b: Option<X>) -> (r: Option<X>)
    ensures
        r == or_else(a, b),
{
    match a {
        Some(x) => Some(x),
        None => b,
    }
}

impl<T, N> RawConfigFile<T, N> {
    /// The settings in effect, `defaults` filling what the file leaves out.
    pub fn into_terminal_config(self, defaults: TerminalConfig<T, N>) -> (r: TerminalConfig<T, N>)
        ensures
            r == merged_config(self, defaults),
    {
        let ghost raw = self;
        let (t_theme, t_family, t_size, t_height, t_font) = match self.terminal {
            Some(t) => (t.theme, t.font_family, t.font_size, t.character_height, t.font),
            None => (None, None, None, None, None),
        };
        let (tf_family, tf_size, tf_height) = match t_font {
            Some(f) => (f.family, f.size, f.character_height),
            None => (None, None, None),
        };
        let (f_family, f_size, f_height) = match self.font {
            Some(f) => (f.family, f.size, f.character_height),
            None => (None, None, None),
        };
        TerminalConfig {
            theme: first(t_theme, first(self.theme, defaults.theme)),
            font_family: first(
                t_family,
                first(tf_family, first(f_family, first(self.font_family, defaults.font_family))),
            ),
            font_size: first(
                t_size,
                first(tf_size, first(f_size, first(self.font_size, defaults.font_size))),
            ),
            character_height: first(
                t_height,
                first(tf_height, first(f_height, first(self.character_height, defaults.character_height))),
            ),
        }
    }
}

/// A file that sets nothing leaves every setting at its default.
pub proof fn lemma_empty_config_gives_defaults<T, N>(defaults: TerminalConfig<T, N>)
    ensures
        merged_config(
            RawConfigFile::<T, N> {
                theme: None,
                font_family: None,
                font_size: None,
                character_height: None,
                terminal: None,
                font: None,
            },
            defaults,
        ) == defaults,
{
}

/// A setting of the `terminal:` section wins over every other place.
pub proof fn lemma_terminal_section_wins<T, N>(
    raw: RawConfigFile<T, N>,
    defaults: TerminalConfig<T, N>,
    section: RawTerminalSection<T, N>,
)
    requires
        raw.terminal == Some(section),
    ensures
        section.theme is Some ==> merged_config(raw, defaults).theme == section.theme,
        section.font_family is Some ==> merged_config(raw, defaults).font_family == section.font_family,
        section.font_size is Some ==> merged_config(raw, defaults).font_size == section.font_size,
        section.character_height is Some ==> merged_config(raw, defaults).character_height
            == section.character_height,
{
}

} // verus!
