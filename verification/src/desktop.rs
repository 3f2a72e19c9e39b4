//! The desktop side of Slip: window titles and labels, the launch and
//! Super+N decisions, which compositor client is the main note, image types,
//! and the command lines and URLs Slip hands to the compositor and webview.

use vstd::prelude::*;
use crate::geom::{toggle_action, toggle_spec, ToggleAction, WindowGeometry};
use crate::notes::{slug, slug_spec};
use crate::paths::{join, join_spec};
use crate::json::{
    bool_field, bool_of, doc_view, field, int_field, int_of, ints_field, ints_of, json_doc, object_view,
    opt_ints, parse_json, text_field, text_of, DocView, ItemView, JsonDoc, JsonItem,
};
use crate::paths::{extension, extension_of, file_name, file_name_of, same_path, same_path_spec,
    is_plain_relative, plain_relative};
use crate::text::{
    chars_of, concat_chars, has_prefix, push_char, push_signed, push_decimal, decimal,
    signed_decimal, same_chars, starts_with, string_of, strip_start, strip_start_chars, str_lines,
    str_lines_of, trim, trim_chars, views_of, is_ascii_alnum, CharSet,
};

verus! {

broadcast use vstd::string::group_string_axioms;

pub const WINDOW_CLASS: &'static str = "slip";

pub const TITLE_MAIN: &'static str = "Slip";

pub const TITLE_SEARCH: &'static str = "Slip Search";

pub const TITLE_TILED: &'static str = "Slip Tiled";

pub const WELCOME_ID: &'static str = "welcome-to-slip";

/// Whether `s` holds the same chars as the literal `lit`.
pub fn is_text(s: &str, lit: &str) -> (r: bool)
    ensures
        r == (s@ == lit@),
{
    let a = chars_of(s);
    let b = chars_of(lit);
    same_chars(&a, &b)
}

fn join3(a: &str, b: &str, c: &str) -> (r: String)
    ensures
        r@ == a@ + b@ + c@,
{
    let x = concat_chars(&chars_of(a), &chars_of(b));
    let y = concat_chars(&x, &chars_of(c));
    string_of(&y)
}

// ---------- titles ----------

/// The title of an editor window: the main window is always `Slip`; another window shows
/// `Slip - <note title>` once its note has a title.
pub open spec fn editor_title_spec(is_main: bool, note_title: Option<Seq<char>>) -> Seq<char> {
    if !is_main && note_title is Some && note_title.unwrap().len() > 0 {
        "Slip"@ + " - "@ + note_title.unwrap()
    } else {
        "Slip"@
    }
}

pub open spec fn opt_view(o: Option<&str>) -> Option<Seq<char>> {
    match o {
        Some(s) => Some(s@),
        None => None,
    }
}

pub fn editor_title(is_main: bool, note_title: Option<&str>) -> (r: String)
    ensures
        r@ == editor_title_spec(is_main, opt_view(note_title)),
{
    match note_title {
        Some(t) => {
            if !is_main && !t.is_empty() {
                return join3("Slip", " - ", t);
            }
        },
        None => {},
    }
    "Slip".to_string()
}

// ---------- image types ----------

/// The file extension of an image mime type that a note can hold.
pub open spec fn image_ext(mime: Seq<char>) -> Option<Seq<char>> {
    if mime == "image/png"@ {
        Some("png"@)
    } else if mime == "image/jpeg"@ {
        Some("jpg"@)
    } else if mime == "image/gif"@ {
        Some("gif"@)
    } else if mime == "image/webp"@ {
        Some("webp"@)
    } else if mime == "image/svg+xml"@ {
        Some("svg"@)
    } else if mime == "image/bmp"@ {
        Some("bmp"@)
    } else if mime == "image/avif"@ {
        Some("avif"@)
    } else {
        None
    }
}

/// The mime type of an image file extension that a note can hold.
pub open spec fn image_mime(ext: Seq<char>) -> Option<Seq<char>> {
    if ext == "png"@ {
        Some("image/png"@)
    } else if ext == "jpg"@ {
        Some("image/jpeg"@)
    } else if ext == "gif"@ {
        Some("image/gif"@)
    } else if ext == "webp"@ {
        Some("image/webp"@)
    } else if ext == "svg"@ {
        Some("image/svg+xml"@)
    } else if ext == "bmp"@ {
        Some("image/bmp"@)
    } else if ext == "avif"@ {
        Some("image/avif"@)
    } else {
        None
    }
}

pub open spec fn opt_static(o: Option<&'static str>) -> Option<Seq<char>> {
    match o {
        Some(s) => Some(s@),
        None => None,
    }
}

/// The file extension for an image mime type.
pub fn ext_of(mime: &str) -> (r: Option<&'static str>)
    ensures
        opt_static(r) == image_ext(mime@),
{
    if is_text(mime, "image/png") {
        Some("png")
    } else if is_text(mime, "image/jpeg") {
        Some("jpg")
    } else if is_text(mime, "image/gif") {
        Some("gif")
    } else if is_text(mime, "image/webp") {
        Some("webp")
    } else if is_text(mime, "image/svg+xml") {
        Some("svg")
    } else if is_text(mime, "image/bmp") {
        Some("bmp")
    } else if is_text(mime, "image/avif") {
        Some("avif")
    } else {
        None
    }
}

fn mime_of_ext(ext: &str) -> (r: Option<&'static str>)
    ensures
        opt_static(r) == image_mime(ext@),
{
    if is_text(ext, "png") {
        Some("image/png")
    } else if is_text(ext, "jpg") {
        Some("image/jpeg")
    } else if is_text(ext, "gif") {
        Some("image/gif")
    } else if is_text(ext, "webp") {
        Some("image/webp")
    } else if is_text(ext, "svg") {
        Some("image/svg+xml")
    } else if is_text(ext, "bmp") {
        Some("image/bmp")
    } else if is_text(ext, "avif") {
        Some("image/avif")
    } else {
        None
    }
}

/// The mime type a file is served with: that of its image extension (`jpeg` read as `jpg`),
/// else `application/octet-stream`.
pub open spec fn mime_spec(path: Seq<char>) -> Seq<char> {
    let ext = match extension_of(path) {
        Some(e) => if e == "jpeg"@ {
            "jpg"@
        } else {
            e
        },
        None => Seq::empty(),
    };
    match image_mime(ext) {
        Some(m) => m,
        None => "application/octet-stream"@,
    }
}

pub fn mime_of(path: &str) -> (r: &'static str)
    ensures
        r@ == mime_spec(path@),
{
    let ext = match extension(path) {
        Some(e) => if is_text(e.as_str(), "jpeg") {
            "jpg".to_string()
        } else {
            e
        },
        None => String::new(),
    };
    match mime_of_ext(ext.as_str()) {
        Some(m) => m,
        None => "application/octet-stream",
    }
}

// ---------- URLs ----------

/// Whether `c` goes into a URL as it is.
pub open spec fn url_safe(c: char) -> bool {
    is_ascii_alnum(c) || c == '-' || c == '_' || c == '.'
}

/// The upper-case hexadecimal digit for `d < 16`.
pub open spec fn hex_digit(d: nat) -> char {
    if d < 10 {
        crate::text::digit_char(d)
    } else if d == 10 {
        'A'
    } else if d == 11 {
        'B'
    } else if d == 12 {
        'C'
    } else if d == 13 {
        'D'
    } else if d == 14 {
        'E'
    } else {
        'F'
    }
}

/// `%XX` escapes for each byte of `bs`.
pub open spec fn percent_bytes(bs: Seq<u8>) -> Seq<char>
    decreases bs.len(),
{
    if bs.len() == 0 {
        Seq::empty()
    } else {
        percent_bytes(bs.drop_last()) + seq![
            '%',
            hex_digit((bs.last() / 16) as nat),
            hex_digit((bs.last() % 16) as nat),
        ]
    }
}

/// A char in a URL: itself when safe, else its UTF-8 bytes percent-escaped.
pub open spec fn url_char(c: char) -> Seq<char> {
    if url_safe(c) {
        seq![c]
    } else {
        percent_bytes(vstd::utf8::encode_utf8(seq![c]))
    }
}

pub open spec fn urlencode_spec(s: Seq<char>) -> Seq<char>
    decreases s.len(),
{
    if s.len() == 0 {
        Seq::empty()
    } else {
        urlencode_spec(s.drop_last()) + url_char(s.last())
    }
}

fn hex(d: u8) -> (c: char)
    requires
        d < 16,
    ensures
        c == hex_digit(d as nat),
{
    if d < 10 {
        let v: Vec<char> = Vec::new();
        let mut v = v;
        push_decimal(&mut v, d as u64);
        assert(v@ =~= seq![crate::text::digit_char(d as nat)]);
        v[0]
    } else if d == 10 {
        'A'
    } else if d == 11 {
        'B'
    } else if d == 12 {
        'C'
    } else if d == 13 {
        'D'
    } else if d == 14 {
        'E'
    } else {
        'F'
    }
}

/// `s` percent-encoded for a URL query: ASCII letters, digits, `-`, `_` and `.` stay, every
/// other char becomes the `%XX` escapes of its UTF-8 bytes.
pub fn urlencode(s: &str) -> (r: String)
    ensures
        r@ == urlencode_spec(s@),
{
    let cs = chars_of(s);
    let mut out: Vec<char> = Vec::new();
    for i in 0..cs.len()
        invariant
            out@ == urlencode_spec(cs@.take(i as int)),
    {
        let c = cs[i];
        assert(cs@.take(i + 1).drop_last() =~= cs@.take(i as int));
        let u = c as u32;
        if (0x30 <= u && u <= 0x39) || (0x41 <= u && u <= 0x5a) || (0x61 <= u && u <= 0x7a) || c
            == '-' || c == '_' || c == '.' {
            out.push(c);
        } else {
            let mut one = String::new();
            push_char(&mut one, c);
            let bytes = one.as_str().as_bytes();
            assert(bytes@ == vstd::utf8::encode_utf8(seq![c]));
            let ghost start = out@;
            for j in 0..bytes.len()
                invariant
                    bytes@ == vstd::utf8::encode_utf8(seq![c]),
                    out@ == start + percent_bytes(bytes@.take(j as int)),
            {
                let b = bytes[j];
                out.push('%');
                out.push(hex(b / 16));
                out.push(hex(b % 16));
                assert(bytes@.take(j + 1).drop_last() =~= bytes@.take(j as int));
                assert(out@ =~= start + percent_bytes(bytes@.take(j + 1)));
            }
            assert(bytes@.take(bytes@.len() as int) =~= bytes@);
        }
        assert(out@ =~= urlencode_spec(cs@.take(i + 1)));
    }
    assert(cs@.take(cs@.len() as int) =~= cs@);
    string_of(&out)
}

/// The webview page of a note window.
pub fn note_url(id: &str) -> (r: String)
    ensures
        r@ == "index.html?note="@ + urlencode_spec(id@),
{
    let pre = chars_of("index.html?note=");
    let enc = chars_of(urlencode(id).as_str());
    string_of(&concat_chars(&pre, &enc))
}

/// The page a fresh main window opens: `note`, or a new note.
pub fn main_url(note: Option<&str>) -> (r: String)
    ensures
        r@ == match note {
            Some(id) => "index.html?note="@ + urlencode_spec(id@),
            None => "index.html?new=1"@,
        },
{
    match note {
        Some(id) => note_url(id),
        None => "index.html?new=1".to_string(),
    }
}

/// The label of the window a note opens in on its own: `note-<slug of its id>`.
pub fn note_window_label(id: &str) -> (r: String)
    ensures
        r@ == "note-"@ + slug_spec(id@),
{
    let pre = chars_of("note-");
    let s = chars_of(slug(id).as_str());
    string_of(&concat_chars(&pre, &s))
}

fn numbered(prefix: &str, n: u32) -> (r: String)
    ensures
        r@ == prefix@ + decimal(n as nat),
{
    let mut v = chars_of(prefix);
    push_decimal(&mut v, n as u64);
    string_of(&v)
}

/// The label of the `n`-th main window that took over the main role: `main-<n>`.
pub fn main_window_label(n: u32) -> (r: String)
    ensures
        r@ == "main-"@ + decimal(n as nat),
{
    numbered("main-", n)
}

/// The label of the `n`-th window opened on a draft: `note-new-<n>`.
pub fn draft_window_label(n: u32) -> (r: String)
    ensures
        r@ == "note-new-"@ + decimal(n as nat),
{
    numbered("note-new-", n)
}

/// The debug dump file for `name`: `slip-debug-<slug of name>.txt`.
pub fn debug_dump_name(name: &str) -> (r: String)
    ensures
        r@ == "slip-debug-"@ + slug_spec(name@) + ".txt"@,
{
    join3("slip-debug-", slug(name).as_str(), ".txt")
}

// ---------- launch and actions ----------

/// What the command line asks of Slip.
#[derive(Clone, Copy, Debug, PartialEq, Eq, Structural)]
pub enum Action {
    Show,
    Toggle,
    Hide,
    Search,
    New,
    Start,
}

/// The action a word names; any other word shows the main note.
pub open spec fn action_spec(word: Seq<char>) -> Action {
    if word == "toggle"@ {
        Action::Toggle
    } else if word == "hide"@ {
        Action::Hide
    } else if word == "search"@ {
        Action::Search
    } else if word == "new"@ {
        Action::New
    } else if word == "start"@ {
        Action::Start
    } else {
        Action::Show
    }
}

pub fn parse_action(word: &str) -> (a: Action)
    ensures
        a == action_spec(word@),
{
    if is_text(word, "toggle") {
        Action::Toggle
    } else if is_text(word, "hide") {
        Action::Hide
    } else if is_text(word, "search") {
        Action::Search
    } else if is_text(word, "new") {
        Action::New
    } else if is_text(word, "start") {
        Action::Start
    } else {
        Action::Show
    }
}

/// The first argument of `args` that is not an option (does not start with `-`).
pub open spec fn first_plain(args: Seq<Seq<char>>) -> Option<Seq<char>>
    decreases args.len(),
{
    if args.len() == 0 {
        None
    } else if !has_prefix(args[0], seq!['-']) {
        Some(args[0])
    } else {
        first_plain(args.drop_first())
    }
}

pub open spec fn strs_view(v: Seq<String>) -> Seq<Seq<char>> {
    v.map_values(|s: String| s@)
}

/// The launch action: the first argument after the program name that is not an option,
/// else `show`.
pub fn action_from_args(args: &Vec<String>) -> (r: String)
    ensures
        r@ == match first_plain(if args@.len() > 0 {
            strs_view(args@).drop_first()
        } else {
            Seq::empty()
        }) {
            Some(a) => a,
            None => "show"@,
        },
{
    let ghost all = if args@.len() > 0 {
        strs_view(args@).drop_first()
    } else {
        Seq::empty()
    };
    let dash = vec!['-'];
    assert(dash@ =~= seq!['-']);
    let mut i: usize = 1;
    if args.len() > 0 {
        assert(all.skip(0) =~= all);
        assert(strs_view(args@).skip(1) =~= all);
    }
    while i < args.len()
        invariant
            1 <= i,
            args@.len() > 0 ==> i <= args@.len(),
            dash@ == seq!['-'],
            all == if args@.len() > 0 {
                strs_view(args@).drop_first()
            } else {
                Seq::empty()
            },
            args@.len() > 0 ==> first_plain(all) == first_plain(strs_view(args@).skip(i as int)),
        decreases args.len() - i,
    {
        let a = chars_of(args[i].as_str());
        assert(strs_view(args@).skip(i as int)[0] == args@[i as int]@);
        if !starts_with(&a, &dash) {
            return args[i].clone();
        }
        assert(strs_view(args@).skip(i as int).drop_first() =~= strs_view(args@).skip(i + 1));
        i += 1;
    }
    if args.len() > 0 {
        assert(strs_view(args@).skip(i as int).len() == 0);
    } else {
        assert(all.len() == 0);
    }
    "show".to_string()
}

/// What a window does on its first paint, or on a later one.
#[derive(Clone, Copy, Debug, PartialEq, Eq, Structural)]
pub enum ReadyPlan {
    /// Show this window (a repeated paint of the main window).
    ShowWindow,
    /// Hide this window (launched hidden).
    HideWindow,
    /// Show the main note where it belongs.
    ShowMain,
    /// Show the main note and start a new note in it.
    ShowMainNewNote,
    /// Open the switcher.
    OpenSwitcher,
    /// Nothing to do.
    Nothing,
}

/// On the first paint of each window the launch action is applied, once: the main window
/// hides for `start`, `hide` and `search`, starts a new note for `new`, and shows otherwise;
/// the switcher opens for `search` and hides otherwise. A later paint of the main window
/// shows it; a later paint of the switcher, or any paint of another window, does nothing.
/// The flags say whether each window has had its first paint.
pub open spec fn ready_spec(label: Seq<char>, main_ready: bool, switcher_ready: bool, initial: Seq<
    char,
>) -> (ReadyPlan, bool, bool) {
    if label == "main"@ {
        if main_ready {
            (ReadyPlan::ShowWindow, true, switcher_ready)
        } else if initial == "start"@ || initial == "hide"@ || initial == "search"@ {
            (ReadyPlan::HideWindow, true, switcher_ready)
        } else if initial == "new"@ {
            (ReadyPlan::ShowMainNewNote, true, switcher_ready)
        } else {
            (ReadyPlan::ShowMain, true, switcher_ready)
        }
    } else if label == "switcher"@ {
        if switcher_ready {
            (ReadyPlan::Nothing, main_ready, true)
        } else if initial == "search"@ {
            (ReadyPlan::OpenSwitcher, main_ready, true)
        } else {
            (ReadyPlan::HideWindow, main_ready, true)
        }
    } else {
        (ReadyPlan::Nothing, main_ready, switcher_ready)
    }
}

pub fn ready_plan(label: &str, main_ready: bool, switcher_ready: bool, initial: &str) -> (r: (
    ReadyPlan,
    bool,
    bool,
))
    ensures
        r == ready_spec(label@, main_ready, switcher_ready, initial@),
{
    if is_text(label, "main") {
        if main_ready {
            (ReadyPlan::ShowWindow, true, switcher_ready)
        } else if is_text(initial, "start") || is_text(initial, "hide") || is_text(
            initial,
            "search",
        ) {
            (ReadyPlan::HideWindow, true, switcher_ready)
        } else if is_text(initial, "new") {
            (ReadyPlan::ShowMainNewNote, true, switcher_ready)
        } else {
            (ReadyPlan::ShowMain, true, switcher_ready)
        }
    } else if is_text(label, "switcher") {
        if switcher_ready {
            (ReadyPlan::Nothing, main_ready, true)
        } else if is_text(initial, "search") {
            (ReadyPlan::OpenSwitcher, main_ready, true)
        } else {
            (ReadyPlan::HideWindow, main_ready, true)
        }
    } else {
        (ReadyPlan::Nothing, main_ready, switcher_ready)
    }
}

// ---------- the main note on the compositor ----------

/// The main note as the compositor lists it.
#[derive(Clone, Debug)]
pub struct SlipBox {
    pub address: String,
    pub geometry: WindowGeometry,
    pub mapped: bool,
    pub hidden: bool,
}

/// One client of the compositor's client list, as far as Slip reads it: each field is the
/// JSON value of that name where it has the expected JSON type, else `None`; `at` and
/// `size` hold each array element as an integer where it is one.
#[derive(Clone, Debug)]
pub struct HyprClient {
    pub class: Option<String>,
    pub title: Option<String>,
    pub address: Option<String>,
    pub at: Option<Vec<Option<i64>>>,
    pub size: Option<Vec<Option<i64>>>,
    pub mapped: Option<bool>,
    pub hidden: Option<bool>,
    pub floating: Option<bool>,
}

pub open spec fn text_is(o: Option<String>, lit: Seq<char>) -> bool {
    match o {
        Some(s) => s@ == lit,
        None => false,
    }
}

/// Whether a client is Slip's main note: class `slip`, title exactly `Slip`.
pub open spec fn is_main_client(c: HyprClient) -> bool {
    text_is(c.class, "slip"@) && text_is(c.title, "Slip"@)
}

/// The first client of `cs` that is the main note.
pub open spec fn first_main(cs: Seq<HyprClient>) -> Option<HyprClient>
    decreases cs.len(),
{
    if cs.len() == 0 {
        None
    } else if is_main_client(cs[0]) {
        Some(cs[0])
    } else {
        first_main(cs.drop_first())
    }
}

/// The `i`-th integer of an optional JSON array, where both are there.
pub open spec fn nth_int(a: Option<Vec<Option<i64>>>, i: int) -> Option<i64> {
    match a {
        Some(v) => if 0 <= i < v@.len() {
            v@[i]
        } else {
            None
        },
        None => None,
    }
}

/// The box of the main client `c`: None when its address, position or size is missing.
/// Coordinates are taken as `i32`, wrapping as `as` does; `mapped` defaults to true and
/// `hidden` to false.
pub open spec fn box_spec(c: HyprClient) -> Option<(Seq<char>, WindowGeometry, bool, bool)> {
    if c.address is Some && nth_int(c.at, 0) is Some && nth_int(c.at, 1) is Some && nth_int(
        c.size,
        0,
    ) is Some && nth_int(c.size, 1) is Some {
        Some(
            (
                c.address.unwrap()@,
                WindowGeometry {
                    x: nth_int(c.at, 0).unwrap() as i32,
                    y: nth_int(c.at, 1).unwrap() as i32,
                    width: nth_int(c.size, 0).unwrap() as i32,
                    height: nth_int(c.size, 1).unwrap() as i32,
                },
                match c.mapped {
                    Some(b) => b,
                    None => true,
                },
                match c.hidden {
                    Some(b) => b,
                    None => false,
                },
            ),
        )
    } else {
        None
    }
}

pub open spec fn box_view(b: SlipBox) -> (Seq<char>, WindowGeometry, bool, bool) {
    (b.address@, b.geometry, b.mapped, b.hidden)
}

fn nth_int_of(a: &Option<Vec<Option<i64>>>, i: usize) -> (r: Option<i64>)
    ensures
        r == nth_int(*a, i as int),
{
    match a {
        Some(v) => if i < v.len() {
            v[i]
        } else {
            None
        },
        None => None,
    }
}

fn text_is_exec(o: &Option<String>, lit: &str) -> (r: bool)
    ensures
        r == text_is(*o, lit@),
{
    match o {
        Some(s) => is_text(s.as_str(), lit),
        None => false,
    }
}

/// The main note's box in the compositor's client list: the first client with class
/// `slip` and title `Slip`; None when there is none or its box is incomplete.
pub fn main_slip_box(clients: &Vec<HyprClient>) -> (r: Option<SlipBox>)
    ensures
        match first_main(clients@) {
            Some(c) => match r {
                Some(b) => box_spec(c) == Some(box_view(b)),
                None => box_spec(c) is None,
            },
            None => r is None,
        },
{
    let mut i: usize = 0;
    assert(clients@.skip(0) =~= clients@);
    while i < clients.len()
        invariant
            i <= clients.len(),
            first_main(clients@) == first_main(clients@.skip(i as int)),
        decreases clients.len() - i,
    {
        let c = &clients[i];
        assert(clients@.skip(i as int)[0] == *c);
        if text_is_exec(&c.class, "slip") && text_is_exec(&c.title, "Slip") {
            let address = match &c.address {
                Some(a) => a.clone(),
                None => {
                    return None;
                },
            };
            let x = match nth_int_of(&c.at, 0) {
                Some(v) => v,
                None => {
                    return None;
                },
            };
            let y = match nth_int_of(&c.at, 1) {
                Some(v) => v,
                None => {
                    return None;
                },
            };
            let width = match nth_int_of(&c.size, 0) {
                Some(v) => v,
                None => {
                    return None;
                },
            };
            let height = match nth_int_of(&c.size, 1) {
                Some(v) => v,
                None => {
                    return None;
                },
            };
            let mapped = match c.mapped {
                Some(b) => b,
                None => true,
            };
            let hidden = match c.hidden {
                Some(b) => b,
                None => false,
            };
            let geometry = WindowGeometry {
                x: x as i32,
                y: y as i32,
                width: width as i32,
                height: height as i32,
            };
            return Some(SlipBox { address, geometry, mapped, hidden });
        }
        assert(clients@.skip(i as int).drop_first() =~= clients@.skip(i + 1));
        i += 1;
    }
    assert(clients@.skip(i as int).len() == 0);
    None
}

pub open spec fn opt_text(o: Option<String>) -> Option<Seq<char>> {
    match o {
        Some(s) => Some(s@),
        None => None,
    }
}

/// What Super+N does, from what the compositor says of the main note (`client`, and the
/// address of the focused window `active`) and, where it says nothing, what the window
/// itself reports: the note counts as visible when mapped and not hidden, and as focused
/// when it is the focused client.
pub open spec fn toggle_decision_spec(
    client: Option<SlipBox>,
    window_visible: bool,
    window_focused: bool,
    active: Option<Seq<char>>,
) -> ToggleAction {
    let visible = match client {
        Some(c) => c.mapped && !c.hidden,
        None => window_visible,
    };
    let focused = match (client, active) {
        (Some(c), Some(a)) => c.address@ == a,
        _ => window_focused,
    };
    toggle_spec(visible, focused)
}

pub fn toggle_decision(
    client: &Option<SlipBox>,
    window_visible: bool,
    window_focused: bool,
    active: &Option<String>,
) -> (r: ToggleAction)
    ensures
        r == toggle_decision_spec(*client, window_visible, window_focused, opt_text(*active)),
{
    let visible = match client {
        Some(c) => c.mapped && !c.hidden,
        None => window_visible,
    };
    let focused = match (client, active) {
        (Some(c), Some(a)) => {
            let x = chars_of(c.address.as_str());
            let y = chars_of(a.as_str());
            same_chars(&x, &y)
        },
        _ => window_focused,
    };
    toggle_action(visible, focused)
}

// ---------- the compositor's JSON ----------

/// `c` holds what the client object `o` says: each field where it has the expected JSON type.
pub open spec fn client_from(o: Seq<(Seq<char>, ItemView)>, c: HyprClient) -> bool {
    &&& opt_text(c.class) == text_of(field(o, "class"@))
    &&& opt_text(c.title) == text_of(field(o, "title"@))
    &&& opt_text(c.address) == text_of(field(o, "address"@))
    &&& opt_ints(c.at) == ints_of(field(o, "at"@))
    &&& opt_ints(c.size) == ints_of(field(o, "size"@))
    &&& c.mapped == bool_of(field(o, "mapped"@))
    &&& c.hidden == bool_of(field(o, "hidden"@))
    &&& c.floating == bool_of(field(o, "floating"@))
}

/// `m` holds what the monitor object `o` says.
pub open spec fn monitor_from(o: Seq<(Seq<char>, ItemView)>, m: MonitorInfo) -> bool {
    &&& opt_text(m.name) == text_of(field(o, "name"@))
    &&& m.focused == bool_of(field(o, "focused"@))
    &&& m.x == int_of(field(o, "x"@))
    &&& m.y == int_of(field(o, "y"@))
    &&& m.width == int_of(field(o, "width"@))
    &&& m.height == int_of(field(o, "height"@))
}

/// An element of a list that is no object reads as an empty one.
pub open spec fn object_or_empty(o: Option<Seq<(Seq<char>, ItemView)>>) -> Seq<(Seq<char>, ItemView)> {
    match o {
        Some(x) => x,
        None => Seq::empty(),
    }
}

/// The clients of the compositor's client list `d` (a list; none otherwise).
pub open spec fn clients_spec(d: DocView, r: Option<Vec<HyprClient>>) -> bool {
    match d {
        DocView::List(a) => r matches Some(v) && v@.len() == a.len() && forall|i: int|
            0 <= i < a.len() ==> client_from(object_or_empty(a[i]), #[trigger] v@[i]),
        _ => r is None,
    }
}

/// The monitors of the compositor's monitor list `d` (a list; none otherwise).
pub open spec fn monitors_spec(d: DocView, r: Option<Vec<MonitorInfo>>) -> bool {
    match d {
        DocView::List(a) => r matches Some(v) && v@.len() == a.len() && forall|i: int|
            0 <= i < a.len() ==> monitor_from(object_or_empty(a[i]), #[trigger] v@[i]),
        _ => r is None,
    }
}

/// The active window `d` (an object; none otherwise).
pub open spec fn active_spec(d: DocView, r: Option<HyprClient>) -> bool {
    match d {
        DocView::Single(o) => r matches Some(c) && client_from(o, c),
        _ => r is None,
    }
}

fn client_of(o: &Vec<(String, JsonItem)>) -> (c: HyprClient)
    ensures
        client_from(object_view(o@), c),
{
    HyprClient {
        class: text_field(o, "class"),
        title: text_field(o, "title"),
        address: text_field(o, "address"),
        at: ints_field(o, "at"),
        size: ints_field(o, "size"),
        mapped: bool_field(o, "mapped"),
        hidden: bool_field(o, "hidden"),
        floating: bool_field(o, "floating"),
    }
}

fn monitor_of(o: &Vec<(String, JsonItem)>) -> (m: MonitorInfo)
    ensures
        monitor_from(object_view(o@), m),
{
    MonitorInfo {
        name: text_field(o, "name"),
        focused: bool_field(o, "focused"),
        x: int_field(o, "x"),
        y: int_field(o, "y"),
        width: int_field(o, "width"),
        height: int_field(o, "height"),
    }
}

/// The clients of a parsed client list.
pub fn clients_of(d: &JsonDoc) -> (r: Option<Vec<HyprClient>>)
    ensures
        clients_spec(doc_view(*d), r),
{
    match d {
        JsonDoc::List(a) => {
            let ghost av = match doc_view(*d) {
                DocView::List(x) => x,
                _ => Seq::empty(),
            };
            let empty: Vec<(String, JsonItem)> = Vec::new();
            let mut v: Vec<HyprClient> = Vec::new();
            for i in 0..a.len()
                invariant
                    av.len() == a@.len(),
                    forall|k: int| 0 <= k < a@.len() ==> av[k] == match #[trigger] a@[k] {
                        Some(o) => Some(object_view(o@)),
                        None => None::<Seq<(Seq<char>, ItemView)>>,
                    },
                    empty@.len() == 0,
                    v@.len() == i,
                    forall|k: int| 0 <= k < i ==> client_from(object_or_empty(av[k]), #[trigger] v@[k]),
            {
                let c = match &a[i] {
                    Some(o) => client_of(o),
                    None => {
                        assert(object_view(empty@) =~= Seq::<(Seq<char>, ItemView)>::empty());
                        client_of(&empty)
                    },
                };
                v.push(c);
            }
            Some(v)
        },
        _ => None,
    }
}

/// The monitors of a parsed monitor list.
pub fn monitors_of(d: &JsonDoc) -> (r: Option<Vec<MonitorInfo>>)
    ensures
        monitors_spec(doc_view(*d), r),
{
    match d {
        JsonDoc::List(a) => {
            let ghost av = match doc_view(*d) {
                DocView::List(x) => x,
                _ => Seq::empty(),
            };
            let empty: Vec<(String, JsonItem)> = Vec::new();
            let mut v: Vec<MonitorInfo> = Vec::new();
            for i in 0..a.len()
                invariant
                    av.len() == a@.len(),
                    forall|k: int| 0 <= k < a@.len() ==> av[k] == match #[trigger] a@[k] {
                        Some(o) => Some(object_view(o@)),
                        None => None::<Seq<(Seq<char>, ItemView)>>,
                    },
                    empty@.len() == 0,
                    v@.len() == i,
                    forall|k: int| 0 <= k < i ==> monitor_from(object_or_empty(av[k]), #[trigger] v@[k]),
            {
                let m = match &a[i] {
                    Some(o) => monitor_of(o),
                    None => {
                        assert(object_view(empty@) =~= Seq::<(Seq<char>, ItemView)>::empty());
                        monitor_of(&empty)
                    },
                };
                v.push(m);
            }
            Some(v)
        },
        _ => None,
    }
}

/// The compositor's client list, from what `hyprctl clients -j` printed: none when that is
/// no JSON list.
pub fn hypr_clients(output: &Vec<u8>) -> (r: Option<Vec<HyprClient>>)
    ensures
        match json_doc(output@) {
            Some(d) => clients_spec(d, r),
            None => r is None,
        },
{
    match parse_json(output) {
        Some(d) => clients_of(&d),
        None => None,
    }
}

/// The compositor's monitor list, from what `hyprctl monitors -j` printed: none when that
/// is no JSON list.
pub fn hypr_monitors(output: &Vec<u8>) -> (r: Option<Vec<MonitorInfo>>)
    ensures
        match json_doc(output@) {
            Some(d) => monitors_spec(d, r),
            None => r is None,
        },
{
    match parse_json(output) {
        Some(d) => monitors_of(&d),
        None => None,
    }
}

/// The focused window, from what `hyprctl activewindow -j` printed: none when that is no
/// JSON object.
pub fn hypr_active(output: &Vec<u8>) -> (r: Option<HyprClient>)
    ensures
        match json_doc(output@) {
            Some(d) => active_spec(d, r),
            None => r is None,
        },
{
    match parse_json(output) {
        Some(JsonDoc::Single(o)) => Some(client_of(&o)),
        Some(_) => None,
        None => None,
    }
}

/// Whether a client is a tiled window of Slip: class `slip` and not floating.
pub open spec fn tiled_slip(c: HyprClient) -> bool {
    text_is(c.class, "slip"@) && c.floating == Some(false)
}

/// Whether the compositor has the main note tiled: some client is the main note (class
/// `slip`, title `Slip`) and does not float. A client that does not say counts as floating.
pub fn main_is_tiled_in(clients: &Vec<HyprClient>) -> (r: bool)
    ensures
        r == exists|i: int|
            0 <= i < clients@.len() && is_main_client(#[trigger] clients@[i]) && clients@[i].floating
                == Some(false),
{
    for i in 0..clients.len()
        invariant
            forall|k: int|
                0 <= k < i ==> !(is_main_client(#[trigger] clients@[k]) && clients@[k].floating == Some(
                    false,
                )),
    {
        let c = &clients[i];
        if text_is_exec(&c.class, "slip") && text_is_exec(&c.title, "Slip") && c.floating == Some(
            false,
        ) {
            return true;
        }
    }
    false
}

/// Whether the focused window is a tiled Slip window.
pub fn active_is_tiled(c: &HyprClient) -> (r: bool)
    ensures
        r == tiled_slip(*c),
{
    text_is_exec(&c.class, "slip") && c.floating == Some(false)
}

// ---------- placing the main note ----------

/// What to do next while waiting for the compositor to list the shown main note.
#[derive(Clone, Copy, Debug, PartialEq, Eq, Structural)]
pub enum SettleAction {
    /// Put the note in its place now.
    Place,
    /// Look again shortly.
    Wait,
    /// Stop looking.
    GiveUp,
}

/// Whether the compositor has the client on screen: mapped and not hidden.
pub open spec fn on_screen_spec(c: SlipBox) -> bool {
    c.mapped && !c.hidden
}

pub fn on_screen(c: &SlipBox) -> (r: bool)
    ensures
        r == on_screen_spec(*c),
{
    c.mapped && !c.hidden
}

/// Up to 60 looks, the note is placed as soon as the compositor lists it on screen.
pub open spec fn settle_spec(attempt: u32, client: Option<SlipBox>) -> SettleAction {
    if attempt >= 60 {
        SettleAction::GiveUp
    } else {
        match client {
            Some(c) => if on_screen_spec(c) {
                SettleAction::Place
            } else {
                SettleAction::Wait
            },
            None => SettleAction::Wait,
        }
    }
}

/// The step of the placement loop after `attempt` earlier looks, given what the compositor
/// lists now.
pub fn settle_step(attempt: u32, client: &Option<SlipBox>) -> (r: SettleAction)
    ensures
        r == settle_spec(attempt, *client),
{
    if attempt >= 60 {
        return SettleAction::GiveUp;
    }
    match client {
        Some(c) => if on_screen(c) {
            SettleAction::Place
        } else {
            SettleAction::Wait
        },
        None => SettleAction::Wait,
    }
}

/// Whether a placed note that settled at `settled` must be moved once more to reach `g`:
/// its corner is elsewhere (a second resize would shift it again, so only a move is sent).
pub fn needs_second_move(settled: &SlipBox, g: &WindowGeometry) -> (r: bool)
    ensures
        r == (settled.geometry.x != g.x || settled.geometry.y != g.y),
{
    settled.geometry.x != g.x || settled.geometry.y != g.y
}

// ---------- watching files ----------

/// What a change the file watcher reports leads to.
#[derive(Clone, Copy, Debug, PartialEq, Eq, Structural)]
pub enum WatchAction {
    /// Not a change (a read or an access): nothing.
    Ignore,
    /// The config or the theme changed: tell the editor, and restart the quiet period.
    ThemeChanged,
    /// The config or the theme changed within 300 ms of the last report: nothing more.
    ThemeQuiet,
    /// Any other file: re-read it into the index.
    ReloadNote,
}

/// Only real changes count (re-reading after a read would itself be an event); a change
/// to the config or the theme is reported at most once per 300 ms; any other change
/// re-reads the file.
pub open spec fn watch_spec(changed: bool, theme_file: bool, nanos_since_report: u64) -> WatchAction {
    if !changed {
        WatchAction::Ignore
    } else if theme_file {
        if nanos_since_report > 300_000_000 {
            WatchAction::ThemeChanged
        } else {
            WatchAction::ThemeQuiet
        }
    } else {
        WatchAction::ReloadNote
    }
}

/// The watcher's step for a change of kind `changed` (a modification, creation or
/// removal) to `path`, `nanos_since_report` after the theme was last reported.
pub fn watch_step(changed: bool, path: &str, config_path: &str, nanos_since_report: u64) -> (r:
    WatchAction)
    ensures
        r == watch_spec(
            changed,
            same_path_spec(path@, config_path@) || match file_name_of(path@) {
                Some(n) => n == "theme.name"@ || n == "font.name"@,
                None => false,
            },
            nanos_since_report,
        ),
{
    if !changed {
        return WatchAction::Ignore;
    }
    if is_theme_file(path, config_path) {
        if nanos_since_report > 300_000_000 {
            WatchAction::ThemeChanged
        } else {
            WatchAction::ThemeQuiet
        }
    } else {
        WatchAction::ReloadNote
    }
}

/// Whether a box is large enough to remember and to restore: at least 80 pixels each way.
pub open spec fn usable_spec(g: WindowGeometry) -> bool {
    g.width >= 80 && g.height >= 80
}

pub fn usable_geometry(g: &WindowGeometry) -> (r: bool)
    ensures
        r == usable_spec(*g),
{
    g.width >= 80 && g.height >= 80
}

/// Whether the main note's box, as the compositor now lists it, is a change worth saving:
/// the note is on screen, at least 80 pixels wide, and not where it was last saved.
pub open spec fn remember_spec(c: SlipBox, last: Option<WindowGeometry>) -> bool {
    c.mapped && !c.hidden && c.geometry.width >= 80 && last != Some(c.geometry)
}

pub fn should_remember(c: &SlipBox, last: &Option<WindowGeometry>) -> (r: bool)
    ensures
        r == remember_spec(*c, *last),
{
    c.mapped && !c.hidden && c.geometry.width >= 80 && match last {
        Some(g) => !(g.x == c.geometry.x && g.y == c.geometry.y && g.width == c.geometry.width
            && g.height == c.geometry.height),
        None => true,
    }
}

/// One monitor of the compositor's monitor list, as far as Slip reads it.
#[derive(Clone, Debug)]
pub struct MonitorInfo {
    pub name: Option<String>,
    pub focused: Option<bool>,
    pub x: Option<i64>,
    pub y: Option<i64>,
    pub width: Option<i64>,
    pub height: Option<i64>,
}

pub open spec fn is_builtin(m: MonitorInfo) -> bool {
    match m.name {
        Some(n) => has_prefix(n@, "eDP"@),
        None => has_prefix(Seq::empty(), "eDP"@),
    }
}

/// The first built-in monitor of `ms` from index `i` on.
pub open spec fn first_builtin(ms: Seq<MonitorInfo>, i: int) -> Option<nat>
    decreases ms.len() - i,
{
    if i < 0 || i >= ms.len() {
        None
    } else if is_builtin(ms[i]) {
        Some(i as nat)
    } else {
        first_builtin(ms, i + 1)
    }
}

/// The first focused monitor of `ms` from index `i` on.
pub open spec fn first_focused(ms: Seq<MonitorInfo>, i: int) -> Option<nat>
    decreases ms.len() - i,
{
    if i < 0 || i >= ms.len() {
        None
    } else if ms[i].focused == Some(true) {
        Some(i as nat)
    } else {
        first_focused(ms, i + 1)
    }
}

/// The monitor the default box is measured on: the built-in panel (named `eDP...`), else
/// the focused monitor, else the first.
pub open spec fn monitor_spec(ms: Seq<MonitorInfo>) -> Option<nat> {
    match first_builtin(ms, 0) {
        Some(i) => Some(i),
        None => match first_focused(ms, 0) {
            Some(i) => Some(i),
            None => if ms.len() > 0 {
                Some(0)
            } else {
                None
            },
        },
    }
}

fn builtin(m: &MonitorInfo) -> (r: bool)
    ensures
        r == is_builtin(*m),
{
    let pre = chars_of("eDP");
    match &m.name {
        Some(n) => starts_with(&chars_of(n.as_str()), &pre),
        None => starts_with(&Vec::new(), &pre),
    }
}

pub fn pick_monitor(ms: &Vec<MonitorInfo>) -> (r: Option<usize>)
    ensures
        match r {
            Some(i) => monitor_spec(ms@) == Some(i as nat),
            None => monitor_spec(ms@) is None,
        },
{
    let mut i: usize = 0;
    while i < ms.len()
        invariant
            i <= ms.len(),
            first_builtin(ms@, 0) == first_builtin(ms@, i as int),
        decreases ms.len() - i,
    {
        if builtin(&ms[i]) {
            return Some(i);
        }
        i += 1;
    }
    let mut j: usize = 0;
    while j < ms.len()
        invariant
            j <= ms.len(),
            first_builtin(ms@, 0) is None,
            first_focused(ms@, 0) == first_focused(ms@, j as int),
        decreases ms.len() - j,
    {
        let focused = match ms[j].focused {
            Some(b) => b,
            None => false,
        };
        if focused {
            return Some(j);
        }
        j += 1;
    }
    if ms.len() > 0 {
        Some(0)
    } else {
        None
    }
}

// ---------- clipboard and assets ----------

/// What a clipboard paste brings in, from the list of types the clipboard offers.
#[derive(Clone, Debug)]
pub enum ClipboardPlan {
    /// Save the clipboard's data of this image type as a file with this extension.
    Image { mime: String, ext: &'static str },
    /// Paste the clipboard's text.
    Text,
    /// Nothing to paste.
    Empty,
}

/// The first offered type that is an image type a note can hold.
pub open spec fn first_image(types: Seq<Seq<char>>) -> Option<(Seq<char>, Seq<char>)>
    decreases types.len(),
{
    if types.len() == 0 {
        None
    } else if image_ext(types[0]) is Some {
        Some((types[0], image_ext(types[0]).unwrap()))
    } else {
        first_image(types.drop_first())
    }
}

/// A paste takes the first image type the clipboard offers (one per line of `types`); with
/// none, text when some type starts with `text/`; else nothing.
pub open spec fn clipboard_spec(types: Seq<char>) -> Option<(Seq<char>, Seq<char>)> {
    first_image(str_lines(types))
}

pub open spec fn offers_text(types: Seq<char>) -> bool {
    exists|i: int|
        0 <= i < str_lines(types).len() && has_prefix(#[trigger] str_lines(types)[i], "text/"@)
}

pub fn clipboard_plan(types: &str) -> (r: ClipboardPlan)
    ensures
        match r {
            ClipboardPlan::Image { mime, ext } => clipboard_spec(types@) == Some((mime@, ext@)),
            ClipboardPlan::Text => clipboard_spec(types@) is None && offers_text(types@),
            ClipboardPlan::Empty => clipboard_spec(types@) is None && !offers_text(types@),
        },
{
    let cs = chars_of(types);
    let ls = str_lines_of(&cs);
    let ghost lv = views_of(ls@);
    let mut i: usize = 0;
    assert(lv.skip(0) =~= lv);
    while i < ls.len()
        invariant
            i <= ls.len(),
            lv == views_of(ls@),
            lv == str_lines(types@),
            first_image(lv) == first_image(lv.skip(i as int)),
        decreases ls.len() - i,
    {
        assert(lv.skip(i as int)[0] == ls@[i as int]@);
        let t = string_of(&ls[i]);
        match ext_of(t.as_str()) {
            Some(ext) => {
                return ClipboardPlan::Image { mime: t, ext };
            },
            None => {},
        }
        assert(lv.skip(i as int).drop_first() =~= lv.skip(i + 1));
        i += 1;
    }
    assert(lv.skip(i as int).len() == 0);
    let pre = chars_of("text/");
    for j in 0..ls.len()
        invariant
            lv == views_of(ls@),
            lv == str_lines(types@),
            pre@ == "text/"@,
            first_image(lv) is None,
            forall|k: int| 0 <= k < j ==> !has_prefix(#[trigger] lv[k], "text/"@),
    {
        assert(lv[j as int] == ls@[j as int]@);
        if starts_with(&ls[j], &pre) {
            return ClipboardPlan::Text;
        }
    }
    ClipboardPlan::Empty
}

/// `s` with every `%XX` escape decoded, and bytes that are no UTF-8 replaced, as
/// `percent_decode_str(..).decode_utf8_lossy()` gives it.
pub uninterp spec fn percent_decoded(s: Seq<char>) -> Seq<char>;

/// `percent_encoding::percent_decode_str` followed by `decode_utf8_lossy`. Its result is
/// named; a string without `%` comes back unchanged.
#[verifier::external_body]
pub(crate) fn percent_decode(s: &str) -> (r: String)
    ensures
        r@ == percent_decoded(s@),
        (forall|i: int| 0 <= i < s@.len() ==> s@[i] != '%') ==> r@ == s@,
{
    percent_encoding::percent_decode_str(s).decode_utf8_lossy().into_owned()
}

/// The file a `note-asset://` request asks for, relative to the notes folder: the request
/// path without leading slashes, percent-decoded. None unless it is plain names only (no
/// root, no `.` or `..`), so that nothing outside the notes folder is served.
pub fn asset_path(uri_path: &str) -> (r: Option<String>)
    ensures
        match r {
            Some(p) => p@ == percent_decoded(strip_start(uri_path@, CharSet::Slash)) && plain_relative(p@),
            None => !plain_relative(percent_decoded(strip_start(uri_path@, CharSet::Slash))),
        },
{
    let cs = chars_of(uri_path);
    let rel = strip_start_chars(&cs, CharSet::Slash);
    let rel = percent_decode(string_of(&rel).as_str());
    if is_plain_relative(rel.as_str()) {
        Some(rel)
    } else {
        None
    }
}

// ---------- notes from the switcher ----------

/// A titled note from the switcher: `# <title>` and a blank line, with the title trimmed;
/// refused without a title.
pub fn titled_note(title: &str) -> (r: Result<String, String>)
    ensures
        match r {
            Ok(c) => trim(title@).len() > 0 && c@ == "# "@ + trim(title@) + "\n\n"@,
            Err(e) => trim(title@).len() == 0 && e@ == "a new note needs a title"@,
        },
{
    let t = trim_chars(&chars_of(title));
    if t.len() == 0 {
        return Err("a new note needs a title".to_string());
    }
    Ok(join3("# ", string_of(&t).as_str(), "\n\n"))
}

/// The id a saved note moved away from, if it moved.
pub fn renamed_from(old_id: Option<&str>, new_id: &str) -> (r: Option<String>)
    ensures
        match old_id {
            Some(o) => if o@ != new_id@ {
                r matches Some(f) && f@ == o@
            } else {
                r is None
            },
            None => r is None,
        },
{
    match old_id {
        Some(o) => if is_text(o, new_id) {
            None
        } else {
            Some(o.to_string())
        },
        None => None,
    }
}

/// The body of the toast that offers to undo a delete.
pub fn undo_toast_body(title: &str) -> (r: String)
    ensures
        r@ == title@ + " · click to undo"@,
{
    let a = chars_of(title);
    let b = chars_of(" · click to undo");
    string_of(&concat_chars(&a, &b))
}

/// Whether the notification tool reported the undo action: its output, trimmed, is `default`.
pub fn undo_chosen(output: &str) -> (r: bool)
    ensures
        r == (trim(output@) == "default"@),
{
    let t = trim_chars(&chars_of(output));
    same_chars(&t, &chars_of("default"))
}

/// The action a message on the control socket asks for: the message, trimmed.
pub fn socket_action(message: &str) -> (r: String)
    ensures
        r@ == trim(message@),
{
    string_of(&trim_chars(&chars_of(message)))
}

/// Whether a changed file is the config file or the desktop's theme or font name, which
/// re-apply the theme rather than reload a note.
pub fn is_theme_file(path: &str, config_path: &str) -> (r: bool)
    ensures
        r == (same_path_spec(path@, config_path@) || match file_name_of(path@) {
            Some(n) => n == "theme.name"@ || n == "font.name"@,
            None => false,
        }),
{
    if same_path(path, config_path) {
        return true;
    }
    match file_name(path) {
        Some(n) => is_text(n.as_str(), "theme.name") || is_text(n.as_str(), "font.name"),
        None => false,
    }
}

// ---------- compositor commands ----------

fn address_ref(address: &str) -> (r: Vec<char>)
    ensures
        r@ == "window = \"address:"@ + address@ + "\" })"@,
{
    let a = concat_chars(&chars_of("window = \"address:"), &chars_of(address));
    concat_chars(&a, &chars_of("\" })"))
}

fn positioned(verb: &str, x: i32, y: i32, address: &str) -> (r: String)
    ensures
        r@ == verb@ + "({ x = "@ + signed_decimal(x as int) + ", y = "@ + signed_decimal(y as int)
            + ", relative = false, "@ + "window = \"address:"@ + address@ + "\" })"@,
{
    let mut v = concat_chars(&chars_of(verb), &chars_of("({ x = "));
    push_signed(&mut v, x as i64);
    v = concat_chars(&v, &chars_of(", y = "));
    push_signed(&mut v, y as i64);
    v = concat_chars(&v, &chars_of(", relative = false, "));
    v = concat_chars(&v, &address_ref(address));
    assert(v@ =~= verb@ + "({ x = "@ + signed_decimal(x as int) + ", y = "@ + signed_decimal(
        y as int,
    ) + ", relative = false, "@ + ("window = \"address:"@ + address@ + "\" })"@));
    string_of(&v)
}

/// The compositor command that sizes the window at `address` to `width` by `height`.
pub fn resize_command(address: &str, width: i32, height: i32) -> (r: String)
    ensures
        r@ == "hl.dsp.window.resize"@ + "({ x = "@ + signed_decimal(width as int) + ", y = "@
            + signed_decimal(height as int) + ", relative = false, "@ + "window = \"address:"@
            + address@ + "\" })"@,
{
    positioned("hl.dsp.window.resize", width, height, address)
}

/// The compositor command that moves the window at `address` to (`x`, `y`).
pub fn move_command(address: &str, x: i32, y: i32) -> (r: String)
    ensures
        r@ == "hl.dsp.window.move"@ + "({ x = "@ + signed_decimal(x as int) + ", y = "@
            + signed_decimal(y as int) + ", relative = false, "@ + "window = \"address:"@
            + address@ + "\" })"@,
{
    positioned("hl.dsp.window.move", x, y, address)
}

/// The compositor commands that raise the window at `address` and focus it.
pub fn focus_commands(address: &str) -> (r: (String, String))
    ensures
        r.0@ == "hl.dsp.window.alter_zorder({ mode = \"top\", "@ + "window = \"address:"@
            + address@ + "\" })"@,
        r.1@ == "hl.dsp.focus({ "@ + "window = \"address:"@ + address@ + "\" })"@,
{
    let a = concat_chars(&chars_of("hl.dsp.window.alter_zorder({ mode = \"top\", "), &address_ref(address));
    let b = concat_chars(&chars_of("hl.dsp.focus({ "), &address_ref(address));
    assert(a@ =~= "hl.dsp.window.alter_zorder({ mode = \"top\", "@ + ("window = \"address:"@
        + address@ + "\" })"@));
    assert(b@ =~= "hl.dsp.focus({ "@ + ("window = \"address:"@ + address@ + "\" })"@));
    (string_of(&a), string_of(&b))
}

/// The control socket: `slip.sock` in the runtime folder `runtime`, else in the temporary
/// folder `temp`.
pub fn socket_path_in(runtime: Option<String>, temp: &str) -> (r: String)
    ensures
        r@ == join_spec(
            match runtime {
                Some(d) => d@,
                None => temp@,
            },
            "slip.sock"@,
        ),
{
    match runtime {
        Some(d) => join(d.as_str(), "slip.sock"),
        None => join(temp, "slip.sock"),
    }
}

/// The memory cap of the scope Slip runs in: `SLIP_MEMORY_MAX` where it is set, else 1500M.
pub fn memory_cap(setting: Option<String>) -> (r: String)
    ensures
        r@ == match setting {
            Some(c) => c@,
            None => "1500M"@,
        },
{
    match setting {
        Some(c) => c,
        None => "1500M".to_string(),
    }
}

/// The arguments that re-run Slip in a transient systemd user scope capped at `cap` bytes
/// of memory and no swap, marked so that it does not scope itself again; the program and
/// its own arguments follow them.
pub fn scope_args(cap: &str) -> (r: Vec<String>)
    ensures
        r@.len() == 10,
        r@[0]@ == "--user"@,
        r@[1]@ == "--scope"@,
        r@[2]@ == "--quiet"@,
        r@[3]@ == "--collect"@,
        r@[4]@ == "--slice=app-graphical.slice"@,
        r@[5]@ == "--description=slip"@,
        r@[6]@ == "-pMemoryMax="@ + cap@,
        r@[7]@ == "-pMemorySwapMax=0"@,
        r@[8]@ == "--setenv=SLIP_SCOPED=1"@,
        r@[9]@ == "--"@,
{
    let mut r: Vec<String> = Vec::new();
    r.push("--user".to_string());
    r.push("--scope".to_string());
    r.push("--quiet".to_string());
    r.push("--collect".to_string());
    r.push("--slice=app-graphical.slice".to_string());
    r.push("--description=slip".to_string());
    r.push(string_of(&concat_chars(&chars_of("-pMemoryMax="), &chars_of(cap))));
    r.push("-pMemorySwapMax=0".to_string());
    r.push("--setenv=SLIP_SCOPED=1".to_string());
    r.push("--".to_string());
    r
}

} // verus!
