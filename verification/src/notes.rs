//! The rules a note's text is read by: its title, its preview line, whether it
//! is blank, and the file-name slug its title gives.

use vstd::prelude::*;
use crate::text::{
    ascii_lower, char_lowercase, char_to_lowercase, concat_chars, is_alphanumeric, is_ascii_alnum,
    is_ascii_char, strip_end, strip_end_chars, unicode_alphanumeric, chars_of, has_prefix, lines, lines_of, skip_set, slice_chars, starts_with, string_of, strip_start,
    strip_start_chars, trim, trim_chars, views_of, in_set, CharSet,
};

verus! {

broadcast use vstd::string::group_string_axioms;

// ---------- title ----------

/// The first line of `ls` that is not blank, trimmed; empty when there is none.
pub open spec fn first_filled(ls: Seq<Seq<char>>) -> Seq<char>
    decreases ls.len(),
{
    if ls.len() == 0 {
        Seq::empty()
    } else if trim(ls[0]).len() > 0 {
        trim(ls[0])
    } else {
        first_filled(ls.drop_first())
    }
}

/// A note's title: its first non-blank line, without leading `#` heading markers and
/// surrounding whitespace; `Untitled` when that leaves nothing.
pub open spec fn title_spec(content: Seq<char>) -> Seq<char> {
    let t = trim(strip_start(first_filled(lines(content)), CharSet::Hash));
    if t.len() == 0 {
        "Untitled"@
    } else {
        t
    }
}

fn first_filled_line(ls: &Vec<Vec<char>>) -> (r: Vec<char>)
    ensures
        r@ == first_filled(views_of(ls@)),
{
    let ghost all = views_of(ls@);
    let mut i: usize = 0;
    assert(all.skip(0) =~= all);
    while i < ls.len()
        invariant
            i <= ls.len(),
            all == views_of(ls@),
            first_filled(all.skip(i as int)) == first_filled(all),
        decreases ls.len() - i,
    {
        let t = trim_chars(&ls[i]);
        assert(all.skip(i as int)[0] == ls@[i as int]@);
        if t.len() > 0 {
            return t;
        }
        assert(all.skip(i as int).drop_first() =~= all.skip(i + 1));
        i += 1;
    }
    assert(all.skip(i as int).len() == 0);
    Vec::new()
}

pub fn title_of(content: &str) -> (t: String)
    ensures
        t@ == title_spec(content@),
{
    let cs = chars_of(content);
    let ls = lines_of(&cs);
    let line = first_filled_line(&ls);
    let unmarked = strip_start_chars(&line, CharSet::Hash);
    let t = trim_chars(&unmarked);
    if t.len() == 0 {
        "Untitled".to_string()
    } else {
        string_of(&t)
    }
}

// ---------- blank notes ----------

/// No title and no body: every char is a heading marker or whitespace.
pub open spec fn blank_spec(content: Seq<char>) -> bool {
    forall|i: int| 0 <= i < content.len() ==> in_set(CharSet::HashOrWhitespace, #[trigger] content[i])
}

/// No title and no body: only heading markers and whitespace.
pub fn is_blank(content: &str) -> (b: bool)
    ensures
        b == blank_spec(content@),
{
    let cs = chars_of(content);
    let k = skip_set(&cs, 0, cs.len(), CharSet::HashOrWhitespace);
    k == cs.len()
}

// ---------- preview ----------

/// Whether a line is an image link (`![](...)`), which says nothing about the note.
pub open spec fn is_image_line(l: Seq<char>) -> bool {
    has_prefix(l, seq!['!', '['])
}

/// The trimmed lines of `ls` that are neither blank nor image links, in order.
pub open spec fn text_lines(ls: Seq<Seq<char>>) -> Seq<Seq<char>>
    decreases ls.len(),
{
    if ls.len() == 0 {
        Seq::empty()
    } else {
        let t = trim(ls[0]);
        let rest = text_lines(ls.drop_first());
        if t.len() > 0 && !is_image_line(t) {
            seq![t] + rest
        } else {
            rest
        }
    }
}

/// At most `max` chars of `s`; a cut string ends in an ellipsis.
pub open spec fn truncate_spec(s: Seq<char>, max: nat) -> Seq<char> {
    if s.len() <= max {
        s
    } else {
        s.take(max as int).push('…')
    }
}

/// The line under a note's title in a list: the second text line, without leading
/// markdown markers, cut to 120 chars.
pub open spec fn preview_spec(content: Seq<char>) -> Seq<char> {
    let ls = text_lines(lines(content));
    let body = if ls.len() >= 2 {
        ls[1]
    } else {
        Seq::empty()
    };
    truncate_spec(strip_start(body, CharSet::PreviewMarks), 120)
}

fn text_lines_of(ls: &Vec<Vec<char>>) -> (r: Vec<Vec<char>>)
    ensures
        views_of(r@) == text_lines(views_of(ls@)),
{
    let ghost all = views_of(ls@);
    let mut kept: Vec<Vec<char>> = Vec::new();
    let image = vec!['!', '['];
    assert(image@ =~= seq!['!', '[']);
    assert(all.skip(0) =~= all);
    assert(views_of(kept@) + text_lines(all) =~= text_lines(all));
    for i in 0..ls.len()
        invariant
            all == views_of(ls@),
            image@ == seq!['!', '['],
            views_of(kept@) + text_lines(all.skip(i as int)) == text_lines(all),
    {
        assert(all.skip(i as int)[0] == ls@[i as int]@);
        assert(all.skip(i as int).drop_first() =~= all.skip(i + 1));
        let t = trim_chars(&ls[i]);
        if t.len() > 0 && !starts_with(&t, &image) {
            let ghost tv = t@;
            let ghost before = views_of(kept@);
            kept.push(t);
            assert(views_of(kept@) =~= before.push(tv)) by {
                assert(views_of(kept@).last() == tv);
            };
            assert(views_of(kept@) + text_lines(all.skip(i + 1)) =~= before + (seq![
                tv,
            ] + text_lines(all.skip(i + 1))));
        }
    }
    assert(all.skip(ls.len() as int) =~= Seq::<Seq<char>>::empty());
    assert(views_of(kept@) =~= views_of(kept@) + text_lines(all.skip(ls.len() as int)));
    kept
}

fn truncate_chars(v: &Vec<char>, max: usize) -> (r: Vec<char>)
    ensures
        r@ == truncate_spec(v@, max as nat),
{
    if v.len() <= max {
        slice_chars(v, 0, v.len())
    } else {
        let mut r = slice_chars(v, 0, max);
        r.push('…');
        r
    }
}

/// At most `max` chars of `s`, with an ellipsis where it was cut.
pub fn truncate(s: &str, max: usize) -> (r: String)
    ensures
        r@ == truncate_spec(s@, max as nat),
{
    let cs = chars_of(s);
    let cut = truncate_chars(&cs, max);
    string_of(&cut)
}

pub fn preview_of(content: &str) -> (p: String)
    ensures
        p@ == preview_spec(content@),
{
    let cs = chars_of(content);
    let ls = lines_of(&cs);
    let kept = text_lines_of(&ls);
    let ghost kv = views_of(kept@);
    let body = if kept.len() >= 2 {
        assert(kv[1] == kept@[1]@);
        assert(kept@[1]@.subrange(0, kept@[1]@.len() as int) =~= kept@[1]@);
        slice_chars(&kept[1], 0, kept[1].len())
    } else {
        Vec::new()
    };
    let unmarked = strip_start_chars(&body, CharSet::PreviewMarks);
    let cut = truncate_chars(&unmarked, 120);
    string_of(&cut)
}

// ---------- slugs ----------

/// The longest slug, in chars.
pub const SLUG_MAX: usize = 60;

/// The lowercase mapping of `c`: `to_ascii_lowercase` for an ASCII char, Unicode's mapping
/// otherwise.
pub open spec fn lower_of(c: char) -> Seq<char> {
    if is_ascii_char(c) {
        seq![ascii_lower(c)]
    } else {
        char_lowercase(c)
    }
}

/// Whether `c` is alphanumeric: an ASCII letter or digit, or for any other char the
/// Unicode `Alphabetic` or `Numeric` property.
pub open spec fn alnum(c: char) -> bool {
    if is_ascii_char(c) {
        is_ascii_alnum(c)
    } else {
        unicode_alphanumeric(c)
    }
}

/// `s` lowercased char by char (each char to its lowercase mapping).
pub open spec fn lowered(s: Seq<char>) -> Seq<char>
    decreases s.len(),
{
    if s.len() == 0 {
        Seq::empty()
    } else {
        lowered(s.drop_last()) + lower_of(s.last())
    }
}

/// One char of the slug scan over `(slug so far, whether it ends in a dash)`: an
/// alphanumeric char is kept, any other char becomes one dash between words, and a full
/// slug takes nothing more.
pub open spec fn slug_step(st: (Seq<char>, bool), c: char) -> (Seq<char>, bool) {
    if st.0.len() >= SLUG_MAX {
        st
    } else if alnum(c) {
        (st.0.push(c), false)
    } else if !st.1 && st.0.len() > 0 {
        (st.0.push('-'), true)
    } else {
        st
    }
}

pub open spec fn slug_scan(cs: Seq<char>) -> (Seq<char>, bool)
    decreases cs.len(),
{
    if cs.len() == 0 {
        (Seq::empty(), false)
    } else {
        slug_step(slug_scan(cs.drop_last()), cs.last())
    }
}

/// The file-name slug of a title: its lowercased words joined by single dashes, at most
/// 60 chars, without dashes at either end; `untitled` when no word is left.
pub open spec fn slug_spec(s: Seq<char>) -> Seq<char> {
    let t = strip_end(strip_start(slug_scan(lowered(s)).0, CharSet::Dash), CharSet::Dash);
    if t.len() == 0 {
        "untitled"@
    } else {
        t
    }
}

/// Only alphanumeric chars and single dashes between them, at most `SLUG_MAX` chars.
pub open spec fn slug_shaped(t: Seq<char>) -> bool {
    &&& 0 < t.len() <= SLUG_MAX
    &&& forall|i: int| 0 <= i < t.len() ==> alnum(#[trigger] t[i]) || t[i] == '-'
    &&& t[0] != '-'
    &&& t.last() != '-'
    &&& forall|i: int| 0 <= i < t.len() - 1 ==> !(#[trigger] t[i] == '-' && t[i + 1] == '-')
}

fn lowered_chars(cs: &Vec<char>) -> (r: Vec<char>)
    ensures
        r@ == lowered(cs@),
{
    let mut low: Vec<char> = Vec::new();
    for i in 0..cs.len()
        invariant
            low@ == lowered(cs@.take(i as int)),
    {
        let l = char_to_lowercase(cs[i]);
        low = concat_chars(&low, &l);
        assert(cs@.take(i + 1).drop_last() =~= cs@.take(i as int));
    }
    assert(cs@.take(cs.len() as int) =~= cs@);
    low
}

pub fn slug(s: &str) -> (r: String)
    ensures
        r@ == slug_spec(s@),
        r@ == "untitled"@ || slug_shaped(r@),
{
    let cs = chars_of(s);
    let low = lowered_chars(&cs);
    let mut out: Vec<char> = Vec::new();
    let mut dash = false;
    for i in 0..low.len()
        invariant
            (out@, dash) == slug_scan(low@.take(i as int)),
            out@.len() <= SLUG_MAX,
            forall|j: int| 0 <= j < out@.len() ==> alnum(#[trigger] out@[j]) || out@[j] == '-',
            out@.len() > 0 ==> out@[0] != '-',
            forall|j: int| 0 <= j < out@.len() - 1 ==> !(#[trigger] out@[j] == '-' && out@[j + 1] == '-'),
            dash == (out@.len() > 0 && out@.last() == '-'),
    {
        let c = low[i];
        assert(low@.take(i + 1).drop_last() =~= low@.take(i as int));
        if out.len() >= SLUG_MAX {
        } else if is_alphanumeric(c) {
            out.push(c);
            dash = false;
        } else if !dash && out.len() > 0 {
            out.push('-');
            dash = true;
        }
    }
    assert(low@.take(low.len() as int) =~= low@);
    let front = strip_start_chars(&out, CharSet::Dash);
    assert(front@ =~= out@) by {
        if out@.len() > 0 {
            assert(!in_set(CharSet::Dash, out@[0]));
        }
    };
    let t = strip_end_chars(&front, CharSet::Dash);
    if t.len() == 0 {
        "untitled".to_string()
    } else {
        assert forall|j: int| 0 <= j < t@.len() implies t@[j] == out@[j] by {
            assert(t@[j] == front@[j]);
        };
        assert(!in_set(CharSet::Dash, t@.last()));
        string_of(&t)
    }
}

} // verus!
