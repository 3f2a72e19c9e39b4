//! Search over the note index: a fuzzy match on titles (the matcher crate
//! scores it), whole-word matches in the text, the score that ranks a hit,
//! and the window of text a hit shows.

use vstd::prelude::*;
use vstd::multiset::Multiset;
use nucleo_matcher::pattern::{CaseMatching, Normalization, Pattern};
use nucleo_matcher::{Config, Matcher, Utf32Str};
use crate::text::{
    char_lowercase, char_to_lowercase, chars_of, concat_chars, in_set, is_ws, lines, lines_of, slice_chars, string_of, str_lowercase,
    strip_start, strip_start_chars, to_lowercase, trim, trim_chars, views_of, words, words_of,
    nonempty_pieces, split_on, lemma_split_on_len, CharSet,
};
use crate::notes::{preview_of, preview_spec};
use crate::store::{
    list_sorted, listing, meta_of, metas_view, Hit, MetaView, Note, NoteMeta, Store,
};

verus! {

broadcast use vstd::string::group_string_axioms;

// ---------- the title matcher ----------

/// The fuzzy-match score of `haystack` against the search pattern `pattern`, or none
/// when it does not match.
pub uninterp spec fn fuzzy_score(pattern: Seq<char>, haystack: Seq<char>) -> Option<u32>;

/// `nucleo_matcher::pattern::Pattern::score`, with the pattern parsed from `pattern`
/// ignoring case and with smart normalisation, matched against `title` by a matcher of the
/// default configuration. Its result is named.
#[verifier::external_body]
fn title_score(pattern: &str, title: &str) -> (r: Option<u32>)
    ensures
        r == fuzzy_score(pattern@, title@),
{
    let mut matcher = Matcher::new(Config::DEFAULT);
    let mut buf = Vec::new();
    Pattern::parse(pattern, CaseMatching::Ignore, Normalization::Smart).score(
        Utf32Str::new(title, &mut buf),
        &mut matcher,
    )
}

// ---------- substrings ----------

pub open spec fn occurs_at(hay: Seq<char>, needle: Seq<char>, i: int) -> bool {
    0 <= i && i + needle.len() <= hay.len() && hay.subrange(i, i + needle.len()) == needle
}

/// The first place at or after `i` where `needle` occurs in `hay`.
pub open spec fn find_from(hay: Seq<char>, needle: Seq<char>, i: int) -> Option<nat>
    decreases hay.len() + 1 - i,
{
    if i < 0 || i + needle.len() > hay.len() {
        None
    } else if occurs_at(hay, needle, i) {
        Some(i as nat)
    } else {
        find_from(hay, needle, i + 1)
    }
}

/// `str::contains`.
pub open spec fn contains(hay: Seq<char>, needle: Seq<char>) -> bool {
    find_from(hay, needle, 0) is Some
}

/// The number of non-overlapping occurrences of a non-empty `needle` at or after `i`,
/// taken from the left.
pub open spec fn count_from(hay: Seq<char>, needle: Seq<char>, i: int) -> nat
    decreases hay.len() + 1 - i,
{
    if i < 0 || needle.len() == 0 || i + needle.len() > hay.len() {
        0
    } else if occurs_at(hay, needle, i) {
        1 + count_from(hay, needle, i + needle.len())
    } else {
        count_from(hay, needle, i + 1)
    }
}

/// `str::matches(..).count()`: non-overlapping occurrences from the left; an empty needle
/// matches at every char boundary.
pub open spec fn count_matches(hay: Seq<char>, needle: Seq<char>) -> nat {
    if needle.len() == 0 {
        hay.len() + 1
    } else {
        count_from(hay, needle, 0)
    }
}

fn occurs_at_exec(hay: &Vec<char>, needle: &Vec<char>, i: usize) -> (r: bool)
    requires
        i + needle.len() <= hay.len(),
    ensures
        r == occurs_at(hay@, needle@, i as int),
{
    for j in 0..needle.len()
        invariant
            i + needle.len() <= hay.len(),
            forall|k: int| 0 <= k < j ==> hay@[i + k] == needle@[k],
    {
        if hay[i + j] != needle[j] {
            assert(hay@.subrange(i as int, i + needle.len())[j as int] != needle@[j as int]);
            return false;
        }
    }
    assert(hay@.subrange(i as int, i + needle.len()) =~= needle@);
    true
}

/// The first place where `needle` occurs in `hay`.
pub fn find_chars(hay: &Vec<char>, needle: &Vec<char>) -> (r: Option<usize>)
    ensures
        match r {
            Some(k) => find_from(hay@, needle@, 0) == Some(k as nat) && k + needle@.len() <= hay@.len(),
            None => find_from(hay@, needle@, 0) is None,
        },
{
    if needle.len() > hay.len() {
        return None;
    }
    let last = hay.len() - needle.len();
    let mut i: usize = 0;
    loop
        invariant
            needle.len() <= hay.len(),
            last == hay.len() - needle.len(),
            i <= last,
            find_from(hay@, needle@, 0) == find_from(hay@, needle@, i as int),
        decreases last - i,
    {
        if occurs_at_exec(hay, needle, i) {
            return Some(i);
        }
        if i == last {
            return None;
        }
        i += 1;
    }
}

pub fn contains_chars(hay: &Vec<char>, needle: &Vec<char>) -> (r: bool)
    ensures
        r == contains(hay@, needle@),
{
    find_chars(hay, needle).is_some()
}

pub fn count_chars(hay: &Vec<char>, needle: &Vec<char>) -> (r: usize)
    requires
        needle.len() > 0 || hay.len() < usize::MAX,
    ensures
        r == count_matches(hay@, needle@),
{
    if needle.len() == 0 {
        return hay.len() + 1;
    }
    let mut i: usize = 0;
    let mut n: usize = 0;
    while needle.len() <= hay.len() - i
        invariant
            needle.len() > 0,
            i <= hay.len(),
            n <= i,
            n + count_from(hay@, needle@, i as int) == count_from(hay@, needle@, 0),
        decreases hay.len() - i,
    {
        if occurs_at_exec(hay, needle, i) {
            n += 1;
            i += needle.len();
        } else {
            i += 1;
        }
    }
    n
}

// ---------- snippets ----------

/// The trimmed lines of `ls` that are not blank, in order.
pub open spec fn filled(ls: Seq<Seq<char>>) -> Seq<Seq<char>>
    decreases ls.len(),
{
    if ls.len() == 0 {
        Seq::empty()
    } else {
        let t = trim(ls[0]);
        let rest = filled(ls.drop_first());
        if t.len() > 0 {
            seq![t] + rest
        } else {
            rest
        }
    }
}

/// The first line of `ls` whose lowercase form contains `term`.
pub open spec fn first_containing(ls: Seq<Seq<char>>, term: Seq<char>) -> Option<Seq<char>>
    decreases ls.len(),
{
    if ls.len() == 0 {
        None
    } else if contains(str_lowercase(ls[0]), term) {
        Some(ls[0])
    } else {
        first_containing(ls.drop_first(), term)
    }
}

/// The line a hit on `term` is found in: the first body line that contains it, else the
/// title line if that does, else nothing.
pub open spec fn matching_line(content: Seq<char>, term: Seq<char>) -> Seq<char> {
    let ls = filled(lines(content));
    if ls.len() == 0 {
        Seq::empty()
    } else {
        match first_containing(ls.drop_first(), term) {
            Some(l) => l,
            None => if contains(str_lowercase(ls[0]), term) {
                ls[0]
            } else {
                Seq::empty()
            },
        }
    }
}

/// The line a hit on `term` shows: its matching line without leading markdown markers.
pub open spec fn snippet_line(content: Seq<char>, term: Seq<char>) -> Seq<char> {
    strip_start(matching_line(content, term), CharSet::SnippetMarks)
}

/// The line `s` lowercased char by char: each char's Unicode lowercase mapping, in order.
pub open spec fn lowered_by_char(s: Seq<char>) -> Seq<char>
    decreases s.len(),
{
    if s.len() == 0 {
        Seq::empty()
    } else {
        lowered_by_char(s.drop_last()) + char_lowercase(s.last())
    }
}

/// The index in `s` of the char whose lowercase mapping holds position `k` of
/// `lowered_by_char(s)`; `s.len()` for a position past its end.
pub open spec fn source_char(s: Seq<char>, k: int) -> nat
    decreases s.len(),
{
    if s.len() == 0 {
        0
    } else if k < lowered_by_char(s.drop_last()).len() {
        source_char(s.drop_last(), k)
    } else if k < lowered_by_char(s).len() {
        (s.len() - 1) as nat
    } else {
        s.len()
    }
}

/// Where the snippet window is centred: the char of the snippet line at which the first
/// case-insensitive match of `term` starts (0 without a match).
pub open spec fn snippet_anchor(content: Seq<char>, term: Seq<char>) -> nat {
    let line = snippet_line(content, term);
    match find_from(lowered_by_char(line), term, 0) {
        Some(k) => source_char(line, k as int),
        None => 0,
    }
}

proof fn lemma_source_char_bound(s: Seq<char>, k: int)
    ensures
        source_char(s, k) <= s.len(),
    decreases s.len(),
{
    if s.len() > 0 {
        lemma_source_char_bound(s.drop_last(), k);
    }
}

/// About 110 chars of the snippet line around its first match of `term`: from 40 chars
/// ahead of the anchor, with an ellipsis at either end where the line goes on.
pub open spec fn snippet_spec(content: Seq<char>, term: Seq<char>) -> Seq<char> {
    let line = snippet_line(content, term);
    let c = snippet_anchor(content, term) as int;
    let start = if c >= 40 {
        c - 40
    } else {
        0
    };
    let end = if start + 110 <= line.len() {
        start + 110
    } else {
        line.len() as int
    };
    let mid = line.subrange(start, end);
    let front = if start > 0 {
        seq!['…'] + mid
    } else {
        mid
    };
    if end < line.len() {
        front.push('…')
    } else {
        front
    }
}

/// `lowered_by_char(line)`, with the index in `line` of the char each lowered char comes from.
fn lower_by_char(line: &Vec<char>) -> (r: (Vec<char>, Vec<usize>))
    ensures
        r.0@ == lowered_by_char(line@),
        r.1@.len() == r.0@.len(),
        forall|k: int| 0 <= k < r.1@.len() ==> r.1@[k] == source_char(line@, k) && r.1@[k] < line@.len(),
{
    let mut low: Vec<char> = Vec::new();
    let mut owner: Vec<usize> = Vec::new();
    assert(line@.take(0) =~= Seq::<char>::empty());
    for i in 0..line.len()
        invariant
            low@ == lowered_by_char(line@.take(i as int)),
            owner@.len() == low@.len(),
            forall|k: int| 0 <= k < owner@.len() ==> owner@[k] == source_char(line@.take(i as int), k)
                && owner@[k] < i,
    {
        let ghost p = line@.take(i as int);
        let ghost q = line@.take(i + 1);
        assert(q.drop_last() =~= p);
        assert(q.last() == line@[i as int]);
        let ghost before = low@;
        let ghost owned = owner@;
        let m = char_to_lowercase(line[i]);
        for j in 0..m.len()
            invariant
                low@ == before + m@.take(j as int),
                owner@.len() == low@.len(),
                before == lowered_by_char(p),
                owned.len() == before.len(),
                forall|k: int| 0 <= k < owned.len() ==> owner@[k] == owned[k],
                forall|k: int| owned.len() <= k < owner@.len() ==> owner@[k] == i,
        {
            low.push(m[j]);
            owner.push(i);
            assert(m@.take(j + 1) =~= m@.take(j as int).push(m@[j as int]));
        }
        assert(m@.take(m@.len() as int) =~= m@);
        assert(low@ =~= lowered_by_char(q));
        assert(lowered_by_char(q) == lowered_by_char(p) + m@);
        assert forall|k: int| 0 <= k < owner@.len() implies owner@[k] == source_char(q, k)
            && owner@[k] < i + 1 by {
            if k < owned.len() {
                assert(owner@[k] == owned[k]);
                assert(k < lowered_by_char(q.drop_last()).len());
                assert(source_char(q, k) == source_char(p, k));
            } else {
                assert(owner@[k] == i);
                assert(!(k < lowered_by_char(q.drop_last()).len()));
                assert(k < lowered_by_char(q).len());
                assert(source_char(q, k) == (q.len() - 1) as nat);
            }
        };
    }
    assert(line@.take(line.len() as int) =~= line@);
    (low, owner)
}

/// The snippet a hit on `term` shows (see `snippet_spec`).
pub fn snippet_for(content: &str, term: &Vec<char>) -> (r: String)
    ensures
        r@ == snippet_spec(content@, term@),
{
    let cs = chars_of(content);
    let ls = lines_of(&cs);
    let fl = filled_of(&ls);
    let ghost fv = views_of(fl@);
    assert(fv == filled(lines(content@)));
    let line: Vec<char> = if fl.len() == 0 {
        let e: Vec<char> = Vec::new();
        assert(e@ =~= matching_line(content@, term@));
        e
    } else {
        assert(fv.skip(1) =~= fv.drop_first());
        assert(fv[0] == fl@[0]@);
        match first_containing_of(&fl, 1, term) {
            Some(k) => {
                let l = slice_chars(&fl[k], 0, fl[k].len());
                assert(l@ =~= fl@[k as int]@);
                l
            },
            None => {
                let low = chars_of(to_lowercase(string_of(&fl[0]).as_str()).as_str());
                if contains_chars(&low, term) {
                    let l = slice_chars(&fl[0], 0, fl[0].len());
                    assert(l@ =~= fl@[0]@);
                    l
                } else {
                    let e: Vec<char> = Vec::new();
                    assert(e@ =~= matching_line(content@, term@));
                    e
                }
            },
        }
    };
    assert(line@ == matching_line(content@, term@));
    let line = strip_start_chars(&line, CharSet::SnippetMarks);
    assert(line@ == snippet_line(content@, term@));
    let (low, owner) = lower_by_char(&line);
    let anchor: usize = match find_chars(&low, term) {
        Some(k) => if k < owner.len() {
            owner[k]
        } else {
            proof {
                if line@.len() > 0 {
                    assert(line@.take(line@.len() as int) =~= line@);
                }
            }
            line.len()
        },
        None => 0,
    };
    proof {
        lemma_source_char_bound(line@, 0);
    }
    assert(anchor as nat == snippet_anchor(content@, term@));
    let start: usize = if anchor >= 40 {
        anchor - 40
    } else {
        0
    };
    let end: usize = if line.len() >= 110 && start <= line.len() - 110 {
        start + 110
    } else {
        line.len()
    };
    let mid = slice_chars(&line, start, end);
    let mut out = if start > 0 {
        concat_chars(&vec!['…'], &mid)
    } else {
        mid
    };
    if end < line.len() {
        out.push('…');
    }
    assert(out@ =~= snippet_spec(content@, term@));
    string_of(&out)
}

fn filled_of(ls: &Vec<Vec<char>>) -> (r: Vec<Vec<char>>)
    ensures
        views_of(r@) == filled(views_of(ls@)),
{
    let ghost all = views_of(ls@);
    let mut kept: Vec<Vec<char>> = Vec::new();
    assert(all.skip(0) =~= all);
    assert(views_of(kept@) + filled(all) =~= filled(all));
    for i in 0..ls.len()
        invariant
            all == views_of(ls@),
            views_of(kept@) + filled(all.skip(i as int)) == filled(all),
    {
        assert(all.skip(i as int)[0] == ls@[i as int]@);
        assert(all.skip(i as int).drop_first() =~= all.skip(i + 1));
        let t = trim_chars(&ls[i]);
        if t.len() > 0 {
            let ghost tv = t@;
            let ghost before = views_of(kept@);
            kept.push(t);
            assert(views_of(kept@) =~= before.push(tv));
            assert(views_of(kept@) + filled(all.skip(i + 1)) =~= before + (seq![tv] + filled(
                all.skip(i + 1),
            )));
        }
    }
    assert(all.skip(ls.len() as int) =~= Seq::<Seq<char>>::empty());
    assert(views_of(kept@) =~= views_of(kept@) + filled(all.skip(ls.len() as int)));
    kept
}

/// The index of the first line of `ls[from..]` whose lowercase form contains `term`.
fn first_containing_of(ls: &Vec<Vec<char>>, from: usize, term: &Vec<char>) -> (r: Option<usize>)
    requires
        from <= ls.len(),
    ensures
        match r {
            Some(k) => from <= k < ls.len() && first_containing(views_of(ls@).skip(from as int), term@)
                == Some(ls@[k as int]@),
            None => first_containing(views_of(ls@).skip(from as int), term@) is None,
        },
{
    let ghost all = views_of(ls@);
    let mut i = from;
    while i < ls.len()
        invariant
            from <= i <= ls.len(),
            all == views_of(ls@),
            first_containing(all.skip(from as int), term@) == first_containing(all.skip(i as int), term@),
        decreases ls.len() - i,
    {
        assert(all.skip(i as int)[0] == ls@[i as int]@);
        let low = chars_of(to_lowercase(string_of(&ls[i]).as_str()).as_str());
        if contains_chars(&low, term) {
            return Some(i);
        }
        assert(all.skip(i as int).drop_first() =~= all.skip(i + 1));
        i += 1;
    }
    assert(all.skip(i as int).len() == 0);
    None
}

// ---------- ranking ----------

/// The search terms of a trimmed query: its words, each lowercased.
pub open spec fn query_terms(q: Seq<char>) -> Seq<Seq<char>> {
    words(q).map_values(|w: Seq<char>| str_lowercase(w))
}

/// Whether the lowercase text of a note holds every search term.
pub open spec fn content_hit(content: Seq<char>, terms: Seq<Seq<char>>) -> bool {
    forall|i: int| 0 <= i < terms.len() ==> contains(str_lowercase(content), #[trigger] terms[i])
}

/// A hit as plain values: its score and (id, title, snippet, modification time).
pub type RankedView = (int, MetaView);

pub open spec fn min_int(a: int, b: int) -> int {
    if a <= b {
        a
    } else {
        b
    }
}

/// How a note fares against the trimmed query `q`: no hit when neither its title matches
/// fuzzily nor its text holds every term; else four times the title score (if any), plus
/// 100 and three per occurrence of the first term (up to 20) when the text holds every
/// term. A text hit shows a snippet around the first term, a title-only hit the preview.
pub open spec fn ranked_hit(n: Note, q: Seq<char>) -> Option<RankedView> {
    let terms = query_terms(q);
    let ts = fuzzy_score(q, n.title@);
    let hit = content_hit(n.content@, terms);
    if ts is None && !hit {
        None
    } else {
        let title_part: int = match ts {
            Some(s) => 4 * s,
            None => 0,
        };
        let text_part: int = if hit {
            100 + 3 * min_int(count_matches(str_lowercase(n.content@), terms[0]) as int, 20)
        } else {
            0
        };
        let snippet = if hit {
            snippet_spec(n.content@, terms[0])
        } else {
            preview_spec(n.content@)
        };
        Some((title_part + text_part, (n.id@, n.title@, snippet, n.modified)))
    }
}

/// The hits among `s`, in the order of `s`.
pub open spec fn ranked_hits(s: Seq<Note>, q: Seq<char>) -> Seq<RankedView>
    decreases s.len(),
{
    if s.len() == 0 {
        Seq::empty()
    } else {
        let r = ranked_hits(s.drop_last(), q);
        match ranked_hit(s.last(), q) {
            Some(h) => r.push(h),
            None => r,
        }
    }
}

/// Rank order: higher score first, newer first among equal scores.
pub open spec fn ranked_no_later(a: RankedView, b: RankedView) -> bool {
    a.0 > b.0 || (a.0 == b.0 && a.1.3 >= b.1.3)
}

pub open spec fn ranked_sorted(s: Seq<RankedView>) -> bool {
    forall|i: int, j: int| 0 <= i < j < s.len() ==> ranked_no_later(#[trigger] s[i], #[trigger] s[j])
}

pub open spec fn hit_view(h: Hit) -> MetaView {
    (h.id@, h.title@, h.snippet@, h.modified)
}

pub open spec fn hits_view(v: Seq<Hit>) -> Seq<MetaView> {
    v.map_values(|h: Hit| hit_view(h))
}

pub open spec fn scored_view(v: Seq<(i64, Hit)>) -> Seq<RankedView> {
    v.map_values(|p: (i64, Hit)| (p.0 as int, hit_view(p.1)))
}

pub proof fn lemma_words_nonempty(s: Seq<char>, i: int)
    requires
        0 <= i < s.len(),
        !is_ws(s[i]),
    ensures
        words(s).len() >= 1,
    decreases s.len(),
{
    let p = split_on(s, CharSet::Whitespace);
    lemma_split_on_len(s.drop_last(), CharSet::Whitespace);
    if !is_ws(s.last()) {
        assert(p.last().len() > 0);
        assert(nonempty_pieces(p) == nonempty_pieces(p.drop_last()).push(p.last()));
    } else {
        let r = split_on(s.drop_last(), CharSet::Whitespace);
        assert(p == r.push(Seq::empty()));
        assert(p.drop_last() =~= r);
        assert(nonempty_pieces(p) == nonempty_pieces(r));
        assert(i < s.len() - 1);
        assert(s.drop_last()[i] == s[i]);
        lemma_words_nonempty(s.drop_last(), i);
    }
}

fn term_list(q: &Vec<char>) -> (terms: Vec<Vec<char>>)
    ensures
        views_of(terms@) == query_terms(q@),
        q@.len() > 0 && !is_ws(q@[0]) ==> terms@.len() >= 1,
        forall|i: int| 0 <= i < terms@.len() ==> (#[trigger] terms@[i])@.len() > 0,
{
    let ws = words_of(q);
    let ghost wv = views_of(ws@);
    proof {
        if q@.len() > 0 && !is_ws(q@[0]) {
            lemma_words_nonempty(q@, 0);
        }
        lemma_words_nonempty_pieces(split_on(q@, CharSet::Whitespace));
    }
    let mut terms: Vec<Vec<char>> = Vec::new();
    for i in 0..ws.len()
        invariant
            wv == views_of(ws@),
            wv == words(q@),
            forall|j: int| 0 <= j < wv.len() ==> (#[trigger] wv[j]).len() > 0,
            views_of(terms@) == wv.take(i as int).map_values(|w: Seq<char>| str_lowercase(w)),
            forall|j: int| 0 <= j < terms@.len() ==> (#[trigger] terms@[j])@.len() > 0,
    {
        assert(wv[i as int] == ws@[i as int]@);
        let low = to_lowercase(string_of(&ws[i]).as_str());
        let t = chars_of(low.as_str());
        let ghost before = views_of(terms@);
        terms.push(t);
        assert(views_of(terms@) =~= before.push(str_lowercase(wv[i as int])));
        assert(wv.take(i + 1).map_values(|w: Seq<char>| str_lowercase(w)) =~= wv.take(
            i as int,
        ).map_values(|w: Seq<char>| str_lowercase(w)).push(str_lowercase(wv[i as int])));
    }
    assert(wv.take(ws.len() as int) =~= wv);
    terms
}

proof fn lemma_words_nonempty_pieces(ps: Seq<Seq<char>>)
    ensures
        forall|j: int| 0 <= j < nonempty_pieces(ps).len() ==> (#[trigger] nonempty_pieces(ps)[j]).len() > 0,
    decreases ps.len(),
{
    if ps.len() > 0 {
        lemma_words_nonempty_pieces(ps.drop_last());
        let r = nonempty_pieces(ps.drop_last());
        if ps.last().len() > 0 {
            assert forall|j: int| 0 <= j < r.push(ps.last()).len() implies (#[trigger] r.push(
                ps.last(),
            )[j]).len() > 0 by {
                if j < r.len() {
                    assert(r.push(ps.last())[j] == r[j]);
                }
            };
        }
    }
}

/// How one note fares against the query (see `ranked_hit`): `None` when the text search
/// hits it but its snippet window is undefined, else its hit, if any.
fn rank_note(n: &Note, qs: &String, terms: &Vec<Vec<char>>) -> (r: Option<(i64, Hit)>)
    requires
        views_of(terms@) == query_terms(qs@),
        terms@.len() >= 1,
        forall|i: int| 0 <= i < terms@.len() ==> (#[trigger] terms@[i])@.len() > 0,
    ensures
        match r {
            None => ranked_hit(*n, qs@) is None,
            Some(p) => ranked_hit(*n, qs@) == Some((p.0 as int, hit_view(p.1))),
        },
{
    let ghost tv = query_terms(qs@);
    let ts = title_score(qs.as_str(), n.title.as_str());
    let lower = chars_of(to_lowercase(n.content.as_str()).as_str());
    let mut hit = true;
    for i in 0..terms.len()
        invariant
            tv == views_of(terms@),
            hit == forall|j: int| 0 <= j < i ==> contains(lower@, #[trigger] tv[j]),
    {
        assert(tv[i as int] == terms@[i as int]@);
        if !contains_chars(&lower, &terms[i]) {
            hit = false;
        }
    }
    assert(hit == content_hit(n.content@, tv));
    if ts.is_none() && !hit {
        return None;
    }
    let title_part: i64 = match ts {
        Some(s) => 4 * (s as i64),
        None => 0,
    };
    assert(tv[0] == terms@[0]@);
    let (text_part, snippet) = if hit {
        let count = count_chars(&lower, &terms[0]);
        let capped: i64 = if count <= 20 {
            count as i64
        } else {
            20
        };
        (100 + 3 * capped, snippet_for(n.content.as_str(), &terms[0]))
    } else {
        (0, preview_of(n.content.as_str()))
    };
    let h = Hit {
        id: n.id.clone(),
        title: n.title.clone(),
        snippet,
        modified: n.modified,
    };
    Some((title_part + text_part, h))
}

fn first_ranked(v: &Vec<(i64, Hit)>) -> (b: usize)
    requires
        v.len() > 0,
    ensures
        b < v.len(),
        forall|j: int| 0 <= j < v.len() ==> ranked_no_later(scored_view(v@)[b as int], #[trigger] scored_view(v@)[j]),
{
    let ghost sv = scored_view(v@);
    let mut b: usize = 0;
    for k in 1..v.len()
        invariant
            sv == scored_view(v@),
            b < v.len(),
            b < k,
            forall|j: int| 0 <= j < k ==> ranked_no_later(sv[b as int], #[trigger] sv[j]),
    {
        assert(sv[k as int] == (v@[k as int].0 as int, hit_view(v@[k as int].1)));
        assert(sv[b as int] == (v@[b as int].0 as int, hit_view(v@[b as int].1)));
        if v[k].0 > v[b].0 || (v[k].0 == v[b].0 && v[k].1.modified > v[b].1.modified) {
            b = k;
        }
    }
    b
}

/// `v` in rank order.
fn sort_ranked(v: Vec<(i64, Hit)>) -> (r: Vec<(i64, Hit)>)
    ensures
        scored_view(r@).to_multiset() == scored_view(v@).to_multiset(),
        ranked_sorted(scored_view(r@)),
{
    broadcast use vstd::seq_lib::group_to_multiset_ensures;

    let ghost all = scored_view(v@);
    let mut pending = v;
    let mut out: Vec<(i64, Hit)> = Vec::new();
    assert(scored_view(out@).to_multiset() =~= Multiset::<RankedView>::empty());
    assert(scored_view(out@).to_multiset().add(scored_view(pending@).to_multiset())
        =~= all.to_multiset());
    while pending.len() > 0
        invariant
            scored_view(out@).to_multiset().add(scored_view(pending@).to_multiset())
                == all.to_multiset(),
            ranked_sorted(scored_view(out@)),
            forall|i: int, j: int|
                0 <= i < out@.len() && 0 <= j < pending@.len() ==> ranked_no_later(
                    #[trigger] scored_view(out@)[i],
                    #[trigger] scored_view(pending@)[j],
                ),
        decreases pending.len(),
    {
        let b = first_ranked(&pending);
        let ghost before_p = scored_view(pending@);
        let ghost before_o = scored_view(out@);
        let m = pending.remove(b);
        let ghost x = (m.0 as int, hit_view(m.1));
        assert(scored_view(pending@) =~= before_p.remove(b as int));
        assert(before_p[b as int] == x);
        out.push(m);
        assert(scored_view(out@) =~= before_o.push(x));
        proof {
            let mp = before_p.to_multiset();
            let mo = before_o.to_multiset();
            vstd::seq_lib::to_multiset_remove(before_p, b as int);
            vstd::seq_lib::to_multiset_build(before_o, x);
            before_p.to_multiset_ensures();
            assert(before_p.contains(x));
            assert(mp.count(x) > 0);
            assert(mo.insert(x).add(mp.remove(x)) =~= mo.add(mp));
        }
        assert forall|i: int, j: int|
            0 <= i < out@.len() && 0 <= j < pending@.len() implies ranked_no_later(
            #[trigger] scored_view(out@)[i],
            #[trigger] scored_view(pending@)[j],
        ) by {
            let j2 = if j < b { j } else { j + 1 };
            assert(scored_view(pending@)[j] == before_p[j2]);
            if i < before_o.len() {
                assert(scored_view(out@)[i] == before_o[i]);
            }
        };
        assert forall|i: int, j: int| 0 <= i < j < scored_view(out@).len() implies ranked_no_later(
            #[trigger] scored_view(out@)[i],
            #[trigger] scored_view(out@)[j],
        ) by {
            assert(scored_view(out@)[i] == before_o[i] || i == before_o.len());
            if j == before_o.len() {
                assert(scored_view(out@)[i] == before_o[i]);
            } else {
                assert(scored_view(out@)[j] == before_o[j]);
            }
        };
    }
    assert(scored_view(pending@).to_multiset() =~= Multiset::<RankedView>::empty());
    assert(scored_view(out@).to_multiset().add(Multiset::<RankedView>::empty())
        =~= scored_view(out@).to_multiset());
    out
}

/// What a search of a trimmed, non-empty query `q` over `notes` returns: the first `limit`
/// hits in rank order.
pub open spec fn ranked_result(notes: Seq<Note>, q: Seq<char>, limit: nat, r: Seq<MetaView>) -> bool {
    exists|p: Seq<RankedView>|
        p.to_multiset() == ranked_hits(notes, q).to_multiset() && ranked_sorted(p) && r == p.take(
            min_int(limit as int, p.len() as int),
        ).map_values(|h: RankedView| h.1)
}

/// What a search with an empty query over `notes` returns: the first `limit` entries of the
/// list, in list order, each showing its preview.
pub open spec fn listed_result(notes: Seq<Note>, limit: nat, r: Seq<MetaView>) -> bool {
    let p = listing(notes.map_values(|n: Note| meta_of(n)));
    r == p.take(min_int(limit as int, p.len() as int))
}

/// The result of searching `notes` for `query`, up to `limit` hits.
pub open spec fn search_result(notes: Seq<Note>, query: Seq<char>, limit: nat, r: Seq<MetaView>) -> bool {
    let q = trim(query);
    if q.len() == 0 {
        listed_result(notes, limit, r)
    } else {
        ranked_result(notes, q, limit, r)
    }
}

impl Store {
    /// Up to `limit` notes for `query`. A blank query lists the newest notes with their
    /// previews; otherwise a note is a hit when its title matches the query fuzzily or its
    /// text holds every word of the query (case-insensitively), ranked by `ranked_hit`.
    pub fn search(&self, query: &str, limit: usize) -> (r: Vec<Hit>)
        requires
            self.wf(),
        ensures
            search_result(self.entries(), query@, limit as nat, hits_view(r@)),
    {
        let qc = trim_chars(&chars_of(query));
        if qc.len() == 0 {
            let metas = self.list();
            let n = if limit < metas.len() {
                limit
            } else {
                metas.len()
            };
            let mut hits: Vec<Hit> = Vec::new();
            for i in 0..n
                invariant
                    n <= metas.len(),
                    hits_view(hits@) == metas_view(metas@).take(i as int),
            {
                let m = &metas[i];
                let h = Hit {
                    id: m.id.clone(),
                    title: m.title.clone(),
                    snippet: m.preview.clone(),
                    modified: m.modified,
                };
                let ghost before = hits_view(hits@);
                hits.push(h);
                assert(hits_view(hits@) =~= before.push(hit_view(h)));
                assert(metas_view(metas@).take(i + 1) =~= metas_view(metas@).take(i as int).push(
                    metas_view(metas@)[i as int],
                ));
            }
            assert(listed_result(self.entries(), limit as nat, hits_view(hits@)));
            return hits;
        }
        let qs = string_of(&qc);
        let ghost q = qc@;
        let terms = term_list(&qc);
        let mut scored: Vec<(i64, Hit)> = Vec::new();
        let count = self.notes_len();
        for i in 0..count
            invariant
                count == self.entries().len(),
                qs@ == q,
                q == trim(query@),
                q.len() > 0,
                views_of(terms@) == query_terms(q),
                terms@.len() >= 1,
                forall|j: int| 0 <= j < terms@.len() ==> (#[trigger] terms@[j])@.len() > 0,
                self.wf(),
                scored_view(scored@) == ranked_hits(self.entries().take(i as int), q),
        {
            let n = self.note_at(i);
            assert(self.entries().take(i + 1).drop_last() =~= self.entries().take(i as int));
            match rank_note(n, &qs, &terms) {
                None => {},
                Some(p) => {
                    let ghost before = scored_view(scored@);
                    scored.push(p);
                    assert(scored_view(scored@) =~= before.push((p.0 as int, hit_view(p.1))));
                },
            }
        }
        assert(self.entries().take(self.entries().len() as int) =~= self.entries());
        let sorted = sort_ranked(scored);
        let n = if limit < sorted.len() {
            limit
        } else {
            sorted.len()
        };
        let mut hits: Vec<Hit> = Vec::new();
        for i in 0..n
            invariant
                n <= sorted.len(),
                hits_view(hits@) == scored_view(sorted@).take(i as int).map_values(
                    |h: RankedView| h.1,
                ),
        {
            let p = &sorted[i];
            let h = Hit {
                id: p.1.id.clone(),
                title: p.1.title.clone(),
                snippet: p.1.snippet.clone(),
                modified: p.1.modified,
            };
            let ghost before = hits_view(hits@);
            hits.push(h);
            assert(hits_view(hits@) =~= before.push(hit_view(h)));
            assert(scored_view(sorted@).take(i + 1).map_values(|h: RankedView| h.1)
                =~= scored_view(sorted@).take(i as int).map_values(|h: RankedView| h.1).push(
                hit_view(sorted@[i as int].1),
            ));
        }
        assert(ranked_result(self.entries(), q, limit as nat, hits_view(hits@)));
        hits
    }
}

} // verus!
