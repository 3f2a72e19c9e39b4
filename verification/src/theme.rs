//! The config file and the desktop theme: what `config.toml` and the theme's
//! `colors.toml` set, read through the `toml` crate's parser.

use vstd::prelude::*;
use toml::Value;
use toml::Value::{Array, Integer, Table};
use crate::theme::TomlItem::{Int, Nested, Other, Str};
use crate::theme::TomlLeaf::{List, Text, Unread};
use crate::paths::{default_notes_dir, default_notes_dir_in, expand_home_in, home_dir, join, join_spec, or_empty};
use crate::text::concat_chars;
use crate::text::{chars_of, has_prefix, same_chars, string_of, trim, trim_chars};

verus! {

broadcast use vstd::string::group_string_axioms;

/// A value nested in a table of a TOML document, as far as Slip reads it: a string, an
/// array (each element a string or not), or something else.
#[derive(Clone, Debug)]
pub enum TomlLeaf {
    Text(String),
    List(Vec<Option<String>>),
    Unread,
}

/// A top-level value of a TOML document, as far as Slip reads it: a string, an integer, a
/// table (each value taken as a `TomlLeaf`), or something else.
#[derive(Clone, Debug)]
pub enum TomlItem {
    Str(String),
    Int(i64),
    Nested(Vec<(String, TomlLeaf)>),
    Other,
}

pub enum LeafView {
    Text(Seq<char>),
    List(Seq<Option<Seq<char>>>),
    Unread,
}

pub enum ItemView {
    Str(Seq<char>),
    Int(i64),
    Nested(Seq<(Seq<char>, LeafView)>),
    Other,
}

pub open spec fn opt_text(o: Option<String>) -> Option<Seq<char>> {
    match o {
        Some(s) => Some(s@),
        None => None,
    }
}

pub open spec fn opt_texts(v: Seq<Option<String>>) -> Seq<Option<Seq<char>>> {
    v.map_values(|o: Option<String>| opt_text(o))
}

pub open spec fn leaf_view(l: TomlLeaf) -> LeafView {
    match l {
        TomlLeaf::Text(s) => LeafView::Text(s@),
        TomlLeaf::List(a) => LeafView::List(opt_texts(a@)),
        TomlLeaf::Unread => LeafView::Unread,
    }
}

pub open spec fn item_view(i: TomlItem) -> ItemView {
    match i {
        TomlItem::Str(s) => ItemView::Str(s@),
        TomlItem::Int(n) => ItemView::Int(n),
        TomlItem::Nested(t) => ItemView::Nested(
            t@.map_values(|e: (String, TomlLeaf)| (e.0@, leaf_view(e.1))),
        ),
        TomlItem::Other => ItemView::Other,
    }
}

pub open spec fn doc_view(d: Seq<(String, TomlItem)>) -> Seq<(Seq<char>, ItemView)> {
    d.map_values(|e: (String, TomlItem)| (e.0@, item_view(e.1)))
}

/// The top-level entries of the TOML document `text`, as `str::parse::<toml::Table>` reads
/// them; none when it is no valid TOML.
pub uninterp spec fn toml_table(text: Seq<char>) -> Option<Seq<(Seq<char>, ItemView)>>;

/// `text.parse::<toml::Table>()`, each entry taken as far as Slip reads it. Its result is named.
#[verifier::external_body]
pub(crate) fn parse_table(text: &str) -> (r: Option<Vec<(String, TomlItem)>>)
    ensures
        match r {
            Some(d) => toml_table(text@) == Some(doc_view(d@)),
            None => toml_table(text@) is None,
        },
{
    let scalar = |v| match v { Value::String(s) => Some(s), _ => None };
    let leaf = |v| match v { Value::String(s) => Text(s), Array(a) => List(a.into_iter().map(scalar).collect()), _ => Unread };
    Some(text.parse::<toml::Table>().ok()?.into_iter().map(|(k, v)| (k, match v {
        Value::String(s) => Str(s),
        Integer(i) => Int(i),
        Table(t) => Nested(t.into_iter().map(|(k, v)| (k, leaf(v))).collect()),
        _ => Other,
    })).collect())
}

// ---------- lookups ----------

/// The value of the first entry of `d` under `key`.
pub open spec fn lookup(d: Seq<(Seq<char>, ItemView)>, key: Seq<char>) -> Option<ItemView>
    decreases d.len(),
{
    if d.len() == 0 {
        None
    } else if d[0].0 == key {
        Some(d[0].1)
    } else {
        lookup(d.drop_first(), key)
    }
}

/// The index of the first entry of `d` under `key`.
fn find_key(d: &Vec<(String, TomlItem)>, key: &str) -> (r: Option<usize>)
    ensures
        match r {
            Some(i) => i < d@.len() && lookup(doc_view(d@), key@) == Some(item_view(d@[i as int].1)),
            None => lookup(doc_view(d@), key@) is None,
        },
{
    let ghost dv = doc_view(d@);
    let k = chars_of(key);
    let mut i: usize = 0;
    assert(dv.skip(0) =~= dv);
    while i < d.len()
        invariant
            i <= d.len(),
            k@ == key@,
            dv == doc_view(d@),
            lookup(dv, key@) == lookup(dv.skip(i as int), key@),
        decreases d.len() - i,
    {
        assert(dv.skip(i as int)[0] == (d@[i as int].0@, item_view(d@[i as int].1)));
        if same_chars(&chars_of(d[i].0.as_str()), &k) {
            return Some(i);
        }
        assert(dv.skip(i as int).drop_first() =~= dv.skip(i + 1));
        i += 1;
    }
    assert(dv.skip(i as int).len() == 0);
    None
}

// ---------- key chords ----------

/// The trimmed, non-empty strings of `l`, in order.
pub open spec fn filled_trimmed(l: Seq<Seq<char>>) -> Seq<Seq<char>>
    decreases l.len(),
{
    if l.len() == 0 {
        Seq::empty()
    } else {
        let r = filled_trimmed(l.drop_last());
        if trim(l.last()).len() > 0 {
            r.push(trim(l.last()))
        } else {
            r
        }
    }
}

/// The strings among `a`, in order.
pub open spec fn strings_in(a: Seq<Option<Seq<char>>>) -> Seq<Seq<char>>
    decreases a.len(),
{
    if a.len() == 0 {
        Seq::empty()
    } else {
        let r = strings_in(a.drop_last());
        match a.last() {
            Some(s) => r.push(s),
            None => r,
        }
    }
}

/// A chord setting is a string or an array of strings (anything else in the array is
/// skipped); each chord is trimmed, empty ones dropped. None for any other value, or when
/// no chord is left.
pub open spec fn chords_spec(v: LeafView) -> Option<Seq<Seq<char>>> {
    let list = match v {
        LeafView::Text(s) => Some(seq![s]),
        LeafView::List(a) => Some(strings_in(a)),
        LeafView::Unread => None,
    };
    match list {
        Some(l) => if filled_trimmed(l).len() > 0 {
            Some(filled_trimmed(l))
        } else {
            None
        },
        None => None,
    }
}

pub open spec fn strs_view(v: Seq<String>) -> Seq<Seq<char>> {
    v.map_values(|s: String| s@)
}

fn filled_trimmed_of(l: &Vec<String>) -> (r: Vec<String>)
    ensures
        strs_view(r@) == filled_trimmed(strs_view(l@)),
{
    let ghost lv = strs_view(l@);
    let mut r: Vec<String> = Vec::new();
    for i in 0..l.len()
        invariant
            lv == strs_view(l@),
            strs_view(r@) == filled_trimmed(lv.take(i as int)),
    {
        assert(lv.take(i + 1).drop_last() =~= lv.take(i as int));
        assert(lv.take(i + 1).last() == l@[i as int]@);
        let t = trim_chars(&chars_of(l[i].as_str()));
        if t.len() > 0 {
            let ghost before = strs_view(r@);
            r.push(string_of(&t));
            assert(strs_view(r@) =~= before.push(t@));
        }
    }
    assert(lv.take(l.len() as int) =~= lv);
    r
}

fn strings_of(a: &Vec<Option<String>>) -> (r: Vec<String>)
    ensures
        strs_view(r@) == strings_in(opt_texts(a@)),
{
    let ghost av = opt_texts(a@);
    let mut r: Vec<String> = Vec::new();
    for i in 0..a.len()
        invariant
            av == opt_texts(a@),
            strs_view(r@) == strings_in(av.take(i as int)),
    {
        assert(av.take(i + 1).drop_last() =~= av.take(i as int));
        assert(av.take(i + 1).last() == opt_text(a@[i as int]));
        match &a[i] {
            Some(s) => {
                let ghost before = strs_view(r@);
                r.push(s.clone());
                assert(strs_view(r@) =~= before.push(s@));
            },
            None => {},
        }
    }
    assert(av.take(a.len() as int) =~= av);
    r
}

pub open spec fn opt_strs_view(o: Option<Vec<String>>) -> Option<Seq<Seq<char>>> {
    match o {
        Some(v) => Some(strs_view(v@)),
        None => None,
    }
}

/// The chords a `[keys]` entry sets (see `chords_spec`).
pub fn chords_of(v: &TomlLeaf) -> (r: Option<Vec<String>>)
    ensures
        opt_strs_view(r) == chords_spec(leaf_view(*v)),
{
    let list: Vec<String> = match v {
        TomlLeaf::Text(s) => {
            let mut l = Vec::new();
            l.push(s.clone());
            assert(strs_view(l@) =~= seq![s@]);
            l
        },
        TomlLeaf::List(a) => strings_of(a),
        TomlLeaf::Unread => {
            return None;
        },
    };
    let l = filled_trimmed_of(&list);
    if l.len() > 0 {
        Some(l)
    } else {
        None
    }
}

/// The chord settings of a `[keys]` table: each action with its chords, where it has any.
pub open spec fn keys_spec(t: Seq<(Seq<char>, LeafView)>) -> Seq<(Seq<char>, Seq<Seq<char>>)>
    decreases t.len(),
{
    if t.len() == 0 {
        Seq::empty()
    } else {
        let r = keys_spec(t.drop_last());
        match chords_spec(t.last().1) {
            Some(c) => r.push((t.last().0, c)),
            None => r,
        }
    }
}

pub open spec fn keys_view(k: Seq<(String, Vec<String>)>) -> Seq<(Seq<char>, Seq<Seq<char>>)> {
    k.map_values(|e: (String, Vec<String>)| (e.0@, strs_view(e.1@)))
}

fn keys_of(t: &Vec<(String, TomlLeaf)>) -> (r: Vec<(String, Vec<String>)>)
    ensures
        keys_view(r@) == keys_spec(t@.map_values(|e: (String, TomlLeaf)| (e.0@, leaf_view(e.1)))),
{
    let ghost tv = t@.map_values(|e: (String, TomlLeaf)| (e.0@, leaf_view(e.1)));
    let mut r: Vec<(String, Vec<String>)> = Vec::new();
    for i in 0..t.len()
        invariant
            tv == t@.map_values(|e: (String, TomlLeaf)| (e.0@, leaf_view(e.1))),
            keys_view(r@) == keys_spec(tv.take(i as int)),
    {
        assert(tv.take(i + 1).drop_last() =~= tv.take(i as int));
        assert(tv.take(i + 1).last() == (t@[i as int].0@, leaf_view(t@[i as int].1)));
        match chords_of(&t[i].1) {
            Some(c) => {
                let ghost before = keys_view(r@);
                let ghost cv = strs_view(c@);
                r.push((t[i].0.clone(), c));
                assert(keys_view(r@) =~= before.push((t@[i as int].0@, cv)));
            },
            None => {},
        }
    }
    assert(tv.take(t.len() as int) =~= tv);
    r
}

// ---------- the config file ----------

/// The optional `config.toml`: notes folder, font, font size and `[keys]` chords.
#[derive(Clone, Debug)]
pub struct Config {
    pub notes_dir: Option<String>,
    pub font: Option<String>,
    pub font_size: Option<u32>,
    /// `[keys]`: action name to one or more chords ("Ctrl+Shift+Backspace").
    pub keys: Vec<(String, Vec<String>)>,
}

/// What a config document `d` sets, with `~/` in `notes_dir` taken to the home folder `home`:
/// a string `notes_dir` and `font`, an integer `font_size` (as `u32`, wrapping as `as` does),
/// and the chords of a `[keys]` table. Anything else is ignored.
pub open spec fn config_spec(d: Seq<(Seq<char>, ItemView)>, home: Seq<char>, c: Config) -> bool {
    &&& opt_text(c.notes_dir) == match lookup(d, "notes_dir"@) {
        Some(ItemView::Str(p)) => Some(
            if has_prefix(p, seq!['~', '/']) {
                join_spec(home, p.skip(2))
            } else {
                p
            },
        ),
        _ => None,
    }
    &&& opt_text(c.font) == match lookup(d, "font"@) {
        Some(ItemView::Str(f)) => Some(f),
        _ => None,
    }
    &&& c.font_size == match lookup(d, "font_size"@) {
        Some(ItemView::Int(n)) => Some(n as u32),
        _ => None,
    }
    &&& keys_view(c.keys@) == match lookup(d, "keys"@) {
        Some(ItemView::Nested(t)) => keys_spec(t),
        _ => Seq::empty(),
    }
}

/// Nothing set.
pub open spec fn config_empty(c: Config) -> bool {
    c.notes_dir is None && c.font is None && c.font_size is None && c.keys@.len() == 0
}

impl Config {
    /// Nothing set.
    pub fn empty() -> (c: Config)
        ensures
            config_empty(c),
    {
        Config { notes_dir: None, font: None, font_size: None, keys: Vec::new() }
    }
}

/// What the config file's text `text` sets, with `~/` taken to the home folder `home`; a
/// text that is no valid TOML sets nothing.
pub fn config_from_text_in(text: &str, home: &str) -> (c: Config)
    ensures
        match toml_table(text@) {
            Some(d) => config_spec(d, home@, c),
            None => config_empty(c),
        },
{
    let d = match parse_table(text) {
        Some(d) => d,
        None => {
            return Config::empty();
        },
    };
    let notes_dir = match find_key(&d, "notes_dir") {
        Some(i) => match &d[i].1 {
            TomlItem::Str(p) => Some(expand_home_in(p.as_str(), home)),
            _ => None,
        },
        None => None,
    };
    let font = match find_key(&d, "font") {
        Some(i) => match &d[i].1 {
            TomlItem::Str(f) => Some(f.clone()),
            _ => None,
        },
        None => None,
    };
    let font_size = match find_key(&d, "font_size") {
        Some(i) => match &d[i].1 {
            TomlItem::Int(n) => Some(*n as u32),
            _ => None,
        },
        None => None,
    };
    let keys = match find_key(&d, "keys") {
        Some(i) => match &d[i].1 {
            TomlItem::Nested(t) => keys_of(t),
            _ => Vec::new(),
        },
        None => Vec::new(),
    };
    let c = Config { notes_dir, font, font_size, keys };
    let ghost dv = doc_view(d@);
    assert(opt_text(c.notes_dir) == match lookup(dv, "notes_dir"@) {
        Some(ItemView::Str(p)) => Some(
            if has_prefix(p, seq!['~', '/']) {
                join_spec(home@, p.skip(2))
            } else {
                p
            },
        ),
        _ => None,
    });
    assert(opt_text(c.font) == match lookup(dv, "font"@) {
        Some(ItemView::Str(f)) => Some(f),
        _ => None,
    });
    assert(c.font_size == match lookup(dv, "font_size"@) {
        Some(ItemView::Int(n)) => Some(n as u32),
        _ => None,
    });
    assert(keys_view(c.keys@) == match lookup(dv, "keys"@) {
        Some(ItemView::Nested(t)) => keys_spec(t),
        _ => Seq::empty(),
    });
    c
}

/// What the config file's text `text` sets, with `~/` taken to the home folder.
pub fn config_from_text(text: &str) -> (c: Config)
    ensures
        toml_table(text@) is None ==> config_empty(c),
        toml_table(text@) matches Some(d) ==> exists|home: Seq<char>| config_spec(d, home, c),
{
    let home = or_empty(home_dir());
    config_from_text_in(text, home.as_str())
}

/// The notes folder: the one the config file sets, else the default under the home folder
/// `home`.
pub fn notes_dir_in(configured: Option<String>, home: &str) -> (r: String)
    ensures
        r@ == match configured {
            Some(d) => d@,
            None => join_spec(home@, "Documents/xavier-obsidian/floating_notes"@),
        },
{
    match configured {
        Some(d) => d,
        None => default_notes_dir_in(home),
    }
}

/// The notes folder: the one the config file sets, else the default.
pub fn notes_dir(configured: Option<String>) -> (r: String)
    ensures
        configured matches Some(d) ==> r@ == d@,
        configured is None ==> exists|home: Seq<char>|
            r@ == join_spec(home, "Documents/xavier-obsidian/floating_notes"@),
{
    match configured {
        Some(d) => d,
        None => default_notes_dir(),
    }
}

// ---------- the theme ----------

/// The active desktop theme as the editor paints it.
#[derive(Clone, Debug)]
pub struct Theme {
    pub name: String,
    pub mode: String,
    pub colors: Vec<(String, String)>,
    pub font: String,
    pub font_size: u32,
    /// `[keys]` from the config file: action name to one or more chords. The editor owns the
    /// defaults and the matching; only overrides travel here.
    pub keys: Vec<(String, Vec<String>)>,
}

/// The text of a small state file, trimmed; none when nothing is left.
pub fn trimmed_nonempty(text: &str) -> (r: Option<String>)
    ensures
        match r {
            Some(s) => trim(text@).len() > 0 && s@ == trim(text@),
            None => trim(text@).len() == 0,
        },
{
    let t = trim_chars(&chars_of(text));
    if t.len() > 0 {
        Some(string_of(&t))
    } else {
        None
    }
}

/// What a theme's `colors.toml` document `d` sets: the string entries, `mode` apart (the
/// last one wins) and every other one a color.
pub open spec fn colors_spec(d: Seq<(Seq<char>, ItemView)>) -> (Option<Seq<char>>, Seq<(Seq<char>, Seq<char>)>)
    decreases d.len(),
{
    if d.len() == 0 {
        (None, Seq::empty())
    } else {
        let r = colors_spec(d.drop_last());
        match d.last().1 {
            ItemView::Str(s) => if d.last().0 == "mode"@ {
                (Some(s), r.1)
            } else {
                (r.0, r.1.push((d.last().0, s)))
            },
            _ => r,
        }
    }
}

pub open spec fn pairs_view(v: Seq<(String, String)>) -> Seq<(Seq<char>, Seq<char>)> {
    v.map_values(|e: (String, String)| (e.0@, e.1@))
}

fn colors_of(d: &Vec<(String, TomlItem)>) -> (r: (Option<String>, Vec<(String, String)>))
    ensures
        (opt_text(r.0), pairs_view(r.1@)) == colors_spec(doc_view(d@)),
{
    let ghost dv = doc_view(d@);
    let mut mode: Option<String> = None;
    let mut colors: Vec<(String, String)> = Vec::new();
    let mode_key = chars_of("mode");
    for i in 0..d.len()
        invariant
            dv == doc_view(d@),
            mode_key@ == "mode"@,
            (opt_text(mode), pairs_view(colors@)) == colors_spec(dv.take(i as int)),
    {
        assert(dv.take(i + 1).drop_last() =~= dv.take(i as int));
        assert(dv.take(i + 1).last() == (d@[i as int].0@, item_view(d@[i as int].1)));
        match &d[i].1 {
            TomlItem::Str(v) => {
                if same_chars(&chars_of(d[i].0.as_str()), &mode_key) {
                    mode = Some(v.clone());
                } else {
                    let ghost before = pairs_view(colors@);
                    colors.push((d[i].0.clone(), v.clone()));
                    assert(pairs_view(colors@) =~= before.push((d@[i as int].0@, v@)));
                }
            },
            _ => {},
        }
    }
    assert(dv.take(d.len() as int) =~= dv);
    (mode, colors)
}

/// The theme's colors from the first candidate `colors.toml` that could be read (`Some`)
/// and parses; the mode is `dark` unless that file sets one. No colors without such a file.
pub open spec fn theme_colors_spec(texts: Seq<Option<Seq<char>>>) -> (Seq<char>, Seq<(Seq<char>, Seq<char>)>)
    decreases texts.len(),
{
    if texts.len() == 0 {
        ("dark"@, Seq::empty())
    } else {
        match texts[0] {
            Some(t) => match toml_table(t) {
                Some(d) => (
                    match colors_spec(d).0 {
                        Some(m) => m,
                        None => "dark"@,
                    },
                    colors_spec(d).1,
                ),
                None => theme_colors_spec(texts.drop_first()),
            },
            None => theme_colors_spec(texts.drop_first()),
        }
    }
}

pub fn theme_colors(texts: &Vec<Option<String>>) -> (r: (String, Vec<(String, String)>))
    ensures
        (r.0@, pairs_view(r.1@)) == theme_colors_spec(opt_texts(texts@)),
{
    let ghost tv = opt_texts(texts@);
    let mut i: usize = 0;
    assert(tv.skip(0) =~= tv);
    while i < texts.len()
        invariant
            i <= texts.len(),
            tv == opt_texts(texts@),
            theme_colors_spec(tv) == theme_colors_spec(tv.skip(i as int)),
        decreases texts.len() - i,
    {
        assert(tv.skip(i as int)[0] == opt_text(texts@[i as int]));
        match &texts[i] {
            Some(t) => match parse_table(t.as_str()) {
                Some(d) => {
                    let (mode, colors) = colors_of(&d);
                    let mode = match mode {
                        Some(m) => m,
                        None => "dark".to_string(),
                    };
                    return (mode, colors);
                },
                None => {},
            },
            None => {},
        }
        assert(tv.skip(i as int).drop_first() =~= tv.skip(i + 1));
        i += 1;
    }
    assert(tv.skip(i as int).len() == 0);
    ("dark".to_string(), Vec::new())
}

/// The font the editor uses: the config file's, else the desktop's `font.name`, else
/// `JetBrainsMono Nerd Font`.
pub open spec fn font_spec(config_font: Option<Seq<char>>, desktop_font: Option<Seq<char>>) -> Seq<char> {
    match config_font {
        Some(f) => f,
        None => match desktop_font {
            Some(f) => f,
            None => "JetBrainsMono Nerd Font"@,
        },
    }
}

/// The `colors.toml` files a theme named `name` is read from, in order: the current theme's
/// under the desktop's state folder `state`, the user's under the home folder `home`, and
/// the system's.
pub fn theme_candidates(state: &str, home: &str, name: &str) -> (r: Vec<String>)
    ensures
        r@.len() == 3,
        r@[0]@ == join_spec(state@, "theme/colors.toml"@),
        r@[1]@ == join_spec(home@, ".config/omarchy/themes/"@ + name@ + "/colors.toml"@),
        r@[2]@ == "/usr/share/omarchy/themes/"@ + name@ + "/colors.toml"@,
{
    let user = concat_chars(&concat_chars(&chars_of(".config/omarchy/themes/"), &chars_of(name)), &chars_of("/colors.toml"));
    let system = concat_chars(&concat_chars(&chars_of("/usr/share/omarchy/themes/"), &chars_of(name)), &chars_of("/colors.toml"));
    let mut r: Vec<String> = Vec::new();
    r.push(join(state, "theme/colors.toml"));
    r.push(join(home, string_of(&user).as_str()));
    r.push(string_of(&system));
    r
}

/// The theme from what the desktop's state files say: the theme's name (`theme.name`,
/// trimmed), the candidate `colors.toml` texts in order, the config file, and the desktop
/// font (`font.name`, trimmed). The font size is the config file's, else 16.
pub fn assemble_theme(
    name: Option<String>,
    color_texts: &Vec<Option<String>>,
    config: Config,
    desktop_font: Option<String>,
) -> (t: Theme)
    ensures
        t.name@ == match name {
            Some(n) => n@,
            None => Seq::empty(),
        },
        (t.mode@, pairs_view(t.colors@)) == theme_colors_spec(opt_texts(color_texts@)),
        t.font@ == font_spec(opt_text(config.font), opt_text(desktop_font)),
        t.font_size == match config.font_size {
            Some(n) => n,
            None => 16,
        },
        t.keys == config.keys,
{
    let (mode, colors) = theme_colors(color_texts);
    let font = match config.font {
        Some(f) => f,
        None => match desktop_font {
            Some(f) => f,
            None => "JetBrainsMono Nerd Font".to_string(),
        },
    };
    let font_size = match config.font_size {
        Some(n) => n,
        None => 16,
    };
    Theme { name: or_empty(name), mode, colors, font, font_size, keys: config.keys }
}

} // verus!
