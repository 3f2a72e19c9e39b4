//! Path arithmetic on the notes folder and the desktop's state folders, with
//! the home and state folders that the `dirs` crate finds.

use vstd::prelude::*;
use std::path::{Component, Path};
use crate::text::has_prefix;

verus! {

broadcast use vstd::string::group_string_axioms;

/// `Path::join` on Unix: an absolute `rel` replaces `base`; otherwise `rel` follows `base`,
/// with a `/` between them unless `base` is empty or already ends in one.
pub open spec fn join_spec(base: Seq<char>, rel: Seq<char>) -> Seq<char> {
    if rel.len() > 0 && rel[0] == '/' {
        rel
    } else if base.len() == 0 || base.last() == '/' {
        base + rel
    } else {
        base + seq!['/'] + rel
    }
}

/// `base` joined with `rel` as `Path::join` does it on Unix (see `join_spec`).
pub fn join(base: &str, rel: &str) -> (r: String)
    ensures
        r@ == join_spec(base@, rel@),
{
    let b = crate::text::chars_of(base);
    let r = crate::text::chars_of(rel);
    if r.len() > 0 && r[0] == '/' {
        return crate::text::string_of(&r);
    }
    let mut out = b;
    if out.len() > 0 && out[out.len() - 1] != '/' {
        out.push('/');
    }
    let joined = crate::text::concat_chars(&out, &r);
    assert(joined@ =~= join_spec(base@, rel@));
    crate::text::string_of(&joined)
}

/// Whether `n` is one plain path component: not empty, no `/`, and neither `.` nor `..`.
pub open spec fn plain_name(n: Seq<char>) -> bool {
    &&& n.len() > 0
    &&& forall|i: int| 0 <= i < n.len() ==> n[i] != '/'
    &&& n != seq!['.']
    &&& n != seq!['.', '.']
}

/// The index of the last `.` in `n`; -1 where there is none.
pub open spec fn last_dot(n: Seq<char>) -> int
    decreases n.len(),
{
    if n.len() == 0 {
        -1
    } else if n.last() == '.' {
        n.len() - 1
    } else {
        last_dot(n.drop_last())
    }
}

pub open spec fn opt_seq(o: Option<String>) -> Option<Seq<char>> {
    match o {
        Some(s) => Some(s@),
        None => None,
    }
}

/// The parent of the path `p`, as `Path::parent` gives it.
pub uninterp spec fn parent_of(p: Seq<char>) -> Option<Seq<char>>;

/// The extension of the path `p`, as `Path::extension` gives it.
pub uninterp spec fn extension_of(p: Seq<char>) -> Option<Seq<char>>;

/// The last component of the path `p`, as `Path::file_name` gives it.
pub uninterp spec fn file_name_of(p: Seq<char>) -> Option<Seq<char>>;

/// The last component of the path `p` without its extension, as `Path::file_stem` gives it.
pub uninterp spec fn file_stem_of(p: Seq<char>) -> Option<Seq<char>>;

/// Whether the paths `a` and `b` have the same components (`Path`'s `==`).
pub uninterp spec fn same_path_spec(a: Seq<char>, b: Seq<char>) -> bool;

/// One component of a path, as `Path::components` yields it.
#[derive(Clone, Debug)]
pub enum PathPart {
    Prefix,
    Root,
    Current,
    Parent,
    Name(String),
}

pub enum PartView {
    Prefix,
    Root,
    Current,
    Parent,
    Name(Seq<char>),
}

pub open spec fn part_view(p: PathPart) -> PartView {
    match p {
        PathPart::Prefix => PartView::Prefix,
        PathPart::Root => PartView::Root,
        PathPart::Current => PartView::Current,
        PathPart::Parent => PartView::Parent,
        PathPart::Name(n) => PartView::Name(n@),
    }
}

/// The components of the path `p`, as `Path::components` gives them.
pub uninterp spec fn path_parts(p: Seq<char>) -> Seq<PartView>;

/// Whether the path `p` consists of plain names only: no root, no `.` or `..`.
pub open spec fn plain_relative(p: Seq<char>) -> bool {
    forall|i: int| 0 <= i < path_parts(p).len() ==> #[trigger] path_parts(p)[i] is Name
}

/// `Path::parent`, read back as a string. Its result is named. As documented, it is the
/// path without its final component: for `d` joined with one plain component, a path with
/// the components of `d`.
#[verifier::external_body]
pub(crate) fn parent(p: &str) -> (r: Option<String>)
    ensures
        r matches Some(s) ==> parent_of(p@) == Some(s@),
        r is None ==> parent_of(p@) is None,
        r is None ==> !exists|d: Seq<char>, n: Seq<char>| #[trigger] join_spec(d, n) == p@ && plain_name(n),
        r matches Some(q) ==> forall|d: Seq<char>, n: Seq<char>|
            #[trigger] join_spec(d, n) == p@ && plain_name(n) ==> same_path_spec(q@, d),
{
    Path::new(p).parent().map(|q| q.to_string_lossy().into_owned())
}

/// `Path::extension`, read back as a string. Its result is named. As documented, it is
/// what follows the file name's last `.`, and none without a file name, without a `.`, or
/// where the only `.` starts the name.
#[verifier::external_body]
pub(crate) fn extension(p: &str) -> (r: Option<String>)
    ensures
        r matches Some(s) ==> extension_of(p@) == Some(s@),
        r is None ==> extension_of(p@) is None,
        opt_seq(r) == match file_name_of(p@) {
            Some(n) => if last_dot(n) > 0 {
                Some(n.skip(last_dot(n) + 1))
            } else {
                None
            },
            None => None,
        },
{
    Path::new(p).extension().map(|e| e.to_string_lossy().into_owned())
}

/// `Path::file_name`, read back as a string. Its result is named. As documented, it is the
/// final component: for a path joined with one plain component, that component.
#[verifier::external_body]
pub(crate) fn file_name(p: &str) -> (r: Option<String>)
    ensures
        r matches Some(s) ==> file_name_of(p@) == Some(s@),
        r is None ==> file_name_of(p@) is None,
        r is None ==> !exists|d: Seq<char>, n: Seq<char>| #[trigger] join_spec(d, n) == p@ && plain_name(n),
        r matches Some(s) ==> forall|d: Seq<char>, n: Seq<char>|
            #[trigger] join_spec(d, n) == p@ && plain_name(n) ==> s@ == n,
{
    Path::new(p).file_name().map(|n| n.to_string_lossy().into_owned())
}

/// `Path::file_stem`, read back as a string. Its result is named. As documented, it is the
/// file name up to its last `.`, or the whole name where it has no `.` or its only `.`
/// starts it; none without a file name.
#[verifier::external_body]
pub(crate) fn file_stem(p: &str) -> (r: Option<String>)
    ensures
        r matches Some(s) ==> file_stem_of(p@) == Some(s@),
        r is None ==> file_stem_of(p@) is None,
        opt_seq(r) == match file_name_of(p@) {
            Some(n) => Some(
                if last_dot(n) > 0 {
                    n.take(last_dot(n))
                } else {
                    n
                },
            ),
            None => None,
        },
{
    Path::new(p).file_stem().map(|n| n.to_string_lossy().into_owned())
}

/// `Path`'s `==`: component-wise equality. Its result is named.
#[verifier::external_body]
pub(crate) fn same_path(a: &str, b: &str) -> (r: bool)
    ensures
        r == same_path_spec(a@, b@),
{
    Path::new(a) == Path::new(b)
}

/// `Path::components`, each component taken as a `PathPart`. Its result is named.
#[verifier::external_body]
fn parts(p: &str) -> (r: Vec<PathPart>)
    ensures
        r@.map_values(|x: PathPart| part_view(x)) == path_parts(p@),
{
    Path::new(p).components().map(|c| match c {
        Component::Prefix(_) => PathPart::Prefix,
        Component::RootDir => PathPart::Root,
        Component::CurDir => PathPart::Current,
        Component::ParentDir => PathPart::Parent,
        Component::Normal(n) => PathPart::Name(n.to_string_lossy().into_owned()),
    }).collect()
}

/// Whether every component of `p` is a plain name (see `plain_relative`).
pub fn is_plain_relative(p: &str) -> (r: bool)
    ensures
        r == plain_relative(p@),
{
    let ps = parts(p);
    let ghost pv = ps@.map_values(|x: PathPart| part_view(x));
    for i in 0..ps.len()
        invariant
            pv == ps@.map_values(|x: PathPart| part_view(x)),
            pv == path_parts(p@),
            forall|k: int| 0 <= k < i ==> #[trigger] pv[k] is Name,
    {
        assert(pv[i as int] == part_view(ps@[i as int]));
        match &ps[i] {
            PathPart::Name(_) => {},
            _ => {
                return false;
            },
        }
    }
    true
}

// ---------- desktop folders ----------

/// `dirs::home_dir`, read back as a string. It depends on the environment; nothing is
/// stated of it.
#[verifier::external_body]
pub(crate) fn home_dir() -> Option<String> {
    dirs::home_dir().map(|p| p.to_string_lossy().into_owned())
}

/// `dirs::config_dir`, read back as a string. It depends on the environment; nothing is
/// stated of it.
#[verifier::external_body]
pub(crate) fn config_dir() -> Option<String> {
    dirs::config_dir().map(|p| p.to_string_lossy().into_owned())
}

/// `dirs::state_dir`, read back as a string. It depends on the environment; nothing is
/// stated of it.
#[verifier::external_body]
pub(crate) fn state_dir_base() -> Option<String> {
    dirs::state_dir().map(|p| p.to_string_lossy().into_owned())
}

/// `o`, or the empty string.
pub fn or_empty(o: Option<String>) -> (r: String)
    ensures
        r@ == match o {
            Some(s) => s@,
            None => Seq::<char>::empty(),
        },
{
    match o {
        Some(s) => s,
        None => String::new(),
    }
}

/// The desktop's current-theme folder under the home folder `home`.
pub fn state_dir_in(home: &str) -> (r: String)
    ensures
        r@ == join_spec(home@, ".local/state/omarchy/current"@),
{
    join(home, ".local/state/omarchy/current")
}

/// The desktop's current-theme folder: `~/.local/state/omarchy/current`.
pub fn state_dir() -> (r: String)
    ensures
        exists|home: Seq<char>| r@ == join_spec(home, ".local/state/omarchy/current"@),
{
    let home = or_empty(home_dir());
    state_dir_in(home.as_str())
}

/// The default notes folder under the home folder `home`.
pub fn default_notes_dir_in(home: &str) -> (r: String)
    ensures
        r@ == join_spec(home@, "Documents/xavier-obsidian/floating_notes"@),
{
    join(home, "Documents/xavier-obsidian/floating_notes")
}

/// The default notes folder: `~/Documents/xavier-obsidian/floating_notes`.
pub fn default_notes_dir() -> (r: String)
    ensures
        exists|home: Seq<char>| r@ == join_spec(home, "Documents/xavier-obsidian/floating_notes"@),
{
    let home = or_empty(home_dir());
    default_notes_dir_in(home.as_str())
}

/// The config file under the config folder `config`.
pub fn config_path_in(config: &str) -> (r: String)
    ensures
        r@ == join_spec(config@, "slip/config.toml"@),
{
    join(config, "slip/config.toml")
}

/// The config file: `~/.config/slip/config.toml` where the config folder is the usual one.
pub fn config_path() -> (r: String)
    ensures
        exists|config: Seq<char>| r@ == join_spec(config, "slip/config.toml"@),
{
    let config = or_empty(config_dir());
    config_path_in(config.as_str())
}

/// The file that remembers the last open note, under the state folder `state` (or, without
/// one, under `.local/state` of the home folder `home`).
pub fn last_note_path_in(state: Option<String>, home: &str) -> (r: String)
    ensures
        r@ == join_spec(
            match state {
                Some(s) => s@,
                None => join_spec(home@, ".local/state"@),
            },
            "slip/last-note"@,
        ),
{
    let base = match state {
        Some(s) => s,
        None => join(home, ".local/state"),
    };
    join(base.as_str(), "slip/last-note")
}

pub fn last_note_path() -> (r: String)
    ensures
        exists|base: Seq<char>| r@ == join_spec(base, "slip/last-note"@),
{
    let home = or_empty(home_dir());
    last_note_path_in(state_dir_base(), home.as_str())
}

/// The file that remembers the main window's box: `window.json` beside the last-note file.
pub fn geometry_path_beside(last_note: &str) -> (r: String)
    ensures
        r@ == match parent_of(last_note@) {
            Some(p) => join_spec(p, "window.json"@),
            None => "window.json"@,
        },
{
    match parent(last_note) {
        Some(p) => join(p.as_str(), "window.json"),
        None => "window.json".to_string(),
    }
}

pub fn geometry_path() -> (r: String)
    ensures
        exists|base: Seq<char>| r@ == match #[trigger] parent_of(join_spec(base, "slip/last-note"@)) {
            Some(p) => join_spec(p, "window.json"@),
            None => "window.json"@,
        },
{
    let last = last_note_path();
    geometry_path_beside(last.as_str())
}

/// `p` with a leading `~/` replaced by the home folder `home`.
pub fn expand_home_in(p: &str, home: &str) -> (r: String)
    ensures
        r@ == if has_prefix(p@, seq!['~', '/']) {
            join_spec(home@, p@.skip(2))
        } else {
            p@
        },
{
    let cs = crate::text::chars_of(p);
    let tilde = vec!['~', '/'];
    assert(tilde@ =~= seq!['~', '/']);
    if crate::text::starts_with(&cs, &tilde) {
        let rest = crate::text::slice_chars(&cs, 2, cs.len());
        let rest = crate::text::string_of(&rest);
        join(home, rest.as_str())
    } else {
        p.to_string()
    }
}

/// `p` with a leading `~/` replaced by the home folder.
pub fn expand_home(p: &str) -> (r: String)
    ensures
        has_prefix(p@, seq!['~', '/']) ==> exists|home: Seq<char>| r@ == join_spec(home, p@.skip(2)),
        !has_prefix(p@, seq!['~', '/']) ==> r@ == p@,
{
    let home = or_empty(home_dir());
    expand_home_in(p, home.as_str())
}

} // verus!
