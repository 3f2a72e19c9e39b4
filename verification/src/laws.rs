//! Properties of the library as a whole, proved over the specifications its
//! functions are stated in.

use vstd::prelude::*;
use crate::geom::{
    default_height, default_width, default_x, default_y, toggle_spec, ToggleAction,
};
use crate::desktop::{action_spec, hex_digit, image_ext, image_mime, percent_bytes, ready_spec, url_char, url_safe, urlencode_spec, Action, ReadyPlan};
use crate::notes::title_spec;
use crate::search::{content_hit, find_from, fuzzy_score, occurs_at, query_terms, ranked_hit, ranked_hits, search_result, RankedView};
use crate::store::{candidate, first_free, id_matches_spec, lemma_notes_by_id_at, meta_of, titled, MetaView, Note, Store};
use crate::text::{
    decimal, digit_char, in_set, is_ascii_digit, is_ws, strip_end, strip_start, trim, CharSet,
    lemma_decimal_len,
};

verus! {

broadcast use vstd::string::group_string_axioms;

/// Super+N shows a hidden note whatever has focus; pressed again on the note it just
/// showed and focused, it hides it; on a note without focus it only focuses it.
pub proof fn toggle_round_trip(focused: bool)
    ensures
        toggle_spec(false, focused) == ToggleAction::Show,
        toggle_spec(true, true) == ToggleAction::Hide,
        toggle_spec(true, false) == ToggleAction::Focus,
{
}

/// The default box of the main note lies within the monitor it is placed on.
pub proof fn default_box_inside_monitor(origin_x: int, origin_y: int, monitor_w: int, monitor_h: int)
    requires
        monitor_w >= 1,
        monitor_h >= 1,
    ensures
        origin_x <= default_x(origin_x, monitor_w),
        default_x(origin_x, monitor_w) + default_width(monitor_w) <= origin_x + monitor_w,
        origin_y <= default_y(origin_y, monitor_h),
        default_y(origin_y, monitor_h) + default_height(monitor_h) <= origin_y + monitor_h,
        1 <= default_width(monitor_w) <= 460,
        1 <= default_height(monitor_h) <= 420,
{
}

/// On a monitor with room for it, the default box is 460 by 420, 4 pixels from the right
/// edge and 34 from the top.
pub proof fn default_box_top_right(origin_x: int, origin_y: int, monitor_w: int, monitor_h: int)
    requires
        monitor_w >= 464,
        monitor_h >= 454,
    ensures
        default_width(monitor_w) == 460,
        default_height(monitor_h) == 420,
        default_x(origin_x, monitor_w) + 460 + 4 == origin_x + monitor_w,
        default_y(origin_y, monitor_h) == origin_y + 34,
{
}

proof fn lemma_decimal_digits(n: nat)
    ensures
        forall|i: int| 0 <= i < decimal(n).len() ==> is_ascii_digit(#[trigger] decimal(n)[i]),
    decreases n,
{
    lemma_decimal_len(n);
    if n >= 10 {
        lemma_decimal_digits(n / 10);
        assert forall|i: int| 0 <= i < decimal(n).len() implies is_ascii_digit(
            #[trigger] decimal(n)[i],
        ) by {
            if i < decimal(n).len() - 1 {
                assert(decimal(n)[i] == decimal(n / 10)[i]);
            }
        };
    }
}

/// Every id a note can be given for its slug `wanted` (`wanted`, `wanted-2`, ...) carries
/// that slug, so a note renamed to it is not renamed again while its title stays: saving
/// does not move a file back and forth.
pub proof fn candidates_carry_their_slug(wanted: Seq<char>, n: nat)
    requires
        n >= 1,
    ensures
        id_matches_spec(candidate(wanted, n), wanted),
{
    if n >= 2 {
        let id = candidate(wanted, n);
        lemma_decimal_digits(n);
        assert(id.take(wanted.len() as int) =~= wanted);
        assert forall|j: int| wanted.len() + 1 <= j < id.len() implies is_ascii_digit(
            #[trigger] id[j],
        ) by {
            assert(id[j] == decimal(n)[j - wanted.len() - 1]);
        };
    }
}

/// The id a save moves a note to carries its slug (see `candidates_carry_their_slug`).
pub proof fn saved_id_carries_slug(
    wanted: Seq<char>,
    suffix: Seq<char>,
    existing: Seq<Seq<char>>,
    keep: Option<Seq<char>>,
    id: Seq<char>,
)
    requires
        first_free(wanted, suffix, existing, keep, id),
    ensures
        id_matches_spec(id, wanted),
{
    let n = choose|n: nat|
        #![trigger candidate(wanted, n)]
        n >= 1 && id == candidate(wanted, n) && !crate::store::stem_taken(id, suffix, existing, keep)
            && forall|m: nat|
            1 <= m < n ==> crate::store::stem_taken(
                #[trigger] candidate(wanted, m),
                suffix,
                existing,
                keep,
            );
    candidates_carry_their_slug(wanted, n);
}

/// A new file (a note or a pasted image) never takes the name of a file already in its
/// folder.
pub proof fn new_files_never_overwrite(
    base: Seq<char>,
    suffix: Seq<char>,
    existing: Seq<Seq<char>>,
    stem: Seq<char>,
)
    requires
        first_free(base, suffix, existing, None, stem),
    ensures
        !existing.contains(stem + suffix),
{
}

/// Where the name a file starts from is free, it gets that name: a new note whose title's
/// slug is unused is named after it, and an undone delete puts a note back under its own id
/// when nothing has taken it since.
pub proof fn free_names_are_kept(
    base: Seq<char>,
    suffix: Seq<char>,
    existing: Seq<Seq<char>>,
    keep: Option<Seq<char>>,
    r: Seq<char>,
)
    requires
        first_free(base, suffix, existing, keep, r),
        !crate::store::stem_taken(base, suffix, existing, keep),
    ensures
        r == base,
{
    let n = choose|n: nat|
        #![trigger candidate(base, n)]
        n >= 1 && r == candidate(base, n) && !crate::store::stem_taken(r, suffix, existing, keep)
            && forall|m: nat|
            1 <= m < n ==> crate::store::stem_taken(
                #[trigger] candidate(base, m),
                suffix,
                existing,
                keep,
            );
    if n > 1 {
        assert(candidate(base, 1) == base);
        assert(crate::store::stem_taken(candidate(base, 1), suffix, existing, keep));
    }
}

/// Every note the index holds is held under its own id and carries the title of its
/// content.
pub proof fn held_notes_are_titled(s: Store, k: Seq<char>)
    requires
        s.wf(),
        s@.contains_key(k),
    ensures
        s@[k].id@ == k,
        titled(s@[k]),
{
    let i = choose|i: int| 0 <= i < s.entries().len() && s.entries()[i].id@ == k;
    lemma_notes_by_id_at(s.entries(), i);
}

/// Two images pasted in turn never share a name: once the first one's file is in the
/// folder, the second is named otherwise, whatever titles and times they come with.
pub proof fn attachments_never_share_a_name(
    base1: Seq<char>,
    base2: Seq<char>,
    suffix: Seq<char>,
    existing: Seq<Seq<char>>,
    first: Seq<char>,
    second: Seq<char>,
)
    requires
        first_free(base1, suffix, existing, None, first),
        first_free(base2, suffix, existing.push(first + suffix), None, second),
    ensures
        first != second,
{
    let n = choose|n: nat|
        #![trigger candidate(base2, n)]
        n >= 1 && second == candidate(base2, n) && !crate::store::stem_taken(
            second,
            suffix,
            existing.push(first + suffix),
            None,
        ) && forall|m: nat|
            1 <= m < n ==> crate::store::stem_taken(
                #[trigger] candidate(base2, m),
                suffix,
                existing.push(first + suffix),
                None,
            );
    assert(existing.push(first + suffix)[existing.len() as int] == first + suffix);
}

proof fn lemma_percent_bytes_safe(bs: Seq<u8>)
    ensures
        forall|i: int|
            0 <= i < percent_bytes(bs).len() ==> url_safe(#[trigger] percent_bytes(bs)[i])
                || percent_bytes(bs)[i] == '%',
    decreases bs.len(),
{
    if bs.len() > 0 {
        lemma_percent_bytes_safe(bs.drop_last());
        let hi = (bs.last() / 16) as nat;
        let lo = (bs.last() % 16) as nat;
        assert(url_safe(hex_digit(hi)));
        assert(url_safe(hex_digit(lo)));
        let p = percent_bytes(bs.drop_last());
        assert forall|i: int| 0 <= i < percent_bytes(bs).len() implies url_safe(
            #[trigger] percent_bytes(bs)[i],
        ) || percent_bytes(bs)[i] == '%' by {
            if i < p.len() {
                assert(percent_bytes(bs)[i] == p[i]);
            }
        };
    }
}

/// A URL-encoded note id holds only ASCII letters and digits, `-`, `_`, `.` and the `%`
/// of its escapes, so it can stand in a URL's query as it is.
pub proof fn urlencoded_text_is_url_safe(s: Seq<char>)
    ensures
        forall|i: int|
            0 <= i < urlencode_spec(s).len() ==> url_safe(#[trigger] urlencode_spec(s)[i])
                || urlencode_spec(s)[i] == '%',
    decreases s.len(),
{
    if s.len() > 0 {
        urlencoded_text_is_url_safe(s.drop_last());
        let c = s.last();
        if !url_safe(c) {
            lemma_percent_bytes_safe(vstd::utf8::encode_utf8(seq![c]));
        }
        let p = urlencode_spec(s.drop_last());
        let u = url_char(c);
        assert forall|i: int| 0 <= i < urlencode_spec(s).len() implies url_safe(
            #[trigger] urlencode_spec(s)[i],
        ) || urlencode_spec(s)[i] == '%' by {
            if i < p.len() {
                assert(urlencode_spec(s)[i] == p[i]);
            } else {
                assert(urlencode_spec(s)[i] == u[i - p.len()]);
            }
        };
    }
}

proof fn lemma_meta_in_entries(s: Store, r: Seq<MetaView>, i: int) -> (j: int)
    requires
        s.wf(),
        r.to_multiset() == s.entries().map_values(|n: Note| meta_of(n)).to_multiset(),
        0 <= i < r.len(),
    ensures
        0 <= j < s.entries().len(),
        meta_of(s.entries()[j]) == r[i],
{
    broadcast use vstd::seq_lib::group_to_multiset_ensures;
    let e = s.entries().map_values(|n: Note| meta_of(n));
    assert(r.contains(r[i]));
    assert(r.to_multiset().count(r[i]) > 0);
    assert(e.to_multiset().count(r[i]) > 0);
    assert(e.contains(r[i]));
    let j = choose|j: int| 0 <= j < e.len() && e[j] == r[i];
    j
}

/// The list holds one entry per note of the index: each entry is that of the note filed
/// under its id, no id is listed twice, and every note is listed.
pub proof fn list_entries_are_the_notes(s: Store, r: Seq<MetaView>)
    requires
        s.wf(),
        r.to_multiset() == s.entries().map_values(|n: Note| meta_of(n)).to_multiset(),
    ensures
        forall|i: int| 0 <= i < r.len() ==> s@.contains_key(#[trigger] r[i].0) && r[i] == meta_of(s@[r[i].0]),
        forall|i: int, j: int| 0 <= i < j < r.len() ==> #[trigger] r[i].0 != #[trigger] r[j].0,
        forall|k: Seq<char>| #[trigger] s@.contains_key(k) ==> r.contains(meta_of(s@[k])),
{
    broadcast use vstd::seq_lib::group_to_multiset_ensures;
    let es = s.entries();
    let e = es.map_values(|n: Note| meta_of(n));
    assert forall|i: int| 0 <= i < r.len() implies s@.contains_key(#[trigger] r[i].0) && r[i] == meta_of(
        s@[r[i].0],
    ) by {
        let j = lemma_meta_in_entries(s, r, i);
        lemma_notes_by_id_at(es, j);
    };
    assert forall|i: int, j: int| 0 <= i < j < r.len() implies #[trigger] r[i].0 != #[trigger] r[j].0 by {
        if r[i].0 == r[j].0 {
            let a = lemma_meta_in_entries(s, r, i);
            let b = lemma_meta_in_entries(s, r, j);
            assert(es[a].id@ == es[b].id@);
            assert(a == b);
            let x = r[i];
            assert(r[j] == x);
            assert(e[a] == x);
            assert(r.remove(i).to_multiset() =~= r.to_multiset().remove(x));
            assert(r.remove(i)[j - 1] == x);
            assert(r.remove(i).contains(x));
            assert(r.remove(i).to_multiset().count(x) > 0);
            assert(e.remove(a).to_multiset() =~= e.to_multiset().remove(x));
            assert(e.remove(a).to_multiset().count(x) > 0);
            assert(e.remove(a).contains(x));
            let k = choose|k: int| 0 <= k < e.remove(a).len() && e.remove(a)[k] == x;
            let k2 = if k < a { k } else { k + 1 };
            assert(e[k2] == x);
            assert(es[k2].id@ == es[a].id@);
        }
    };
    assert forall|k: Seq<char>| #[trigger] s@.contains_key(k) implies r.contains(meta_of(s@[k])) by {
        let j = choose|j: int| 0 <= j < es.len() && es[j].id@ == k;
        lemma_notes_by_id_at(es, j);
        assert(e[j] == meta_of(es[j]));
        assert(e.contains(meta_of(s@[k])));
        assert(e.to_multiset().count(meta_of(s@[k])) > 0);
        assert(r.to_multiset().count(meta_of(s@[k])) > 0);
    };
}

proof fn lemma_ranked_hits_from_notes(s: Seq<Note>, q: Seq<char>, x: RankedView)
    requires
        ranked_hits(s, q).contains(x),
    ensures
        exists|j: int| 0 <= j < s.len() && ranked_hit(#[trigger] s[j], q) == Some(x),
    decreases s.len(),
{
    if s.len() > 0 {
        let rest = ranked_hits(s.drop_last(), q);
        if ranked_hit(s.last(), q) == Some(x) {
            assert(ranked_hit(s[s.len() - 1], q) == Some(x));
        } else {
            let k = choose|k: int| 0 <= k < ranked_hits(s, q).len() && ranked_hits(s, q)[k] == x;
            match ranked_hit(s.last(), q) {
                Some(h) => {
                    assert(k < rest.len());
                    assert(rest[k] == x);
                },
                None => {},
            }
            assert(rest.contains(x));
            lemma_ranked_hits_from_notes(s.drop_last(), q, x);
            let j = choose|j: int| 0 <= j < s.drop_last().len() && ranked_hit(#[trigger] s.drop_last()[j], q) == Some(x);
            assert(s[j] == s.drop_last()[j]);
        }
    }
}

/// A search for a query with words returns at most `limit` hits, and each hit is a note
/// of the index that the query hits: its title matches the query fuzzily or its text holds
/// every word of the query; the hit shows that note's id, title and modification time.
pub proof fn search_hits_are_matching_notes(notes: Seq<Note>, query: Seq<char>, limit: nat, r: Seq<(Seq<char>, Seq<char>, Seq<char>, u64)>)
    requires
        trim(query).len() > 0,
        search_result(notes, query, limit, r),
    ensures
        r.len() <= limit,
        forall|i: int| 0 <= i < r.len() ==> exists|j: int| {
            &&& 0 <= j < notes.len()
            &&& #[trigger] r[i].0 == notes[j].id@
            &&& r[i].1 == notes[j].title@
            &&& r[i].3 == notes[j].modified
            &&& (fuzzy_score(trim(query), notes[j].title@) is Some || forall|k: int|
                0 <= k < crate::text::words(trim(query)).len() ==> occurs_in(
                    crate::text::str_lowercase(notes[j].content@),
                    crate::text::str_lowercase(#[trigger] crate::text::words(trim(query))[k]),
                ))
        },
{
    broadcast use vstd::seq_lib::group_to_multiset_ensures;
    let q = trim(query);
    let p = choose|p: Seq<RankedView>|
        p.to_multiset() == ranked_hits(notes, q).to_multiset() && crate::search::ranked_sorted(p)
            && r == p.take(crate::search::min_int(limit as int, p.len() as int)).map_values(
            |h: RankedView| h.1,
        );
    assert forall|i: int| 0 <= i < r.len() implies exists|j: int| {
        &&& 0 <= j < notes.len()
        &&& #[trigger] r[i].0 == notes[j].id@
        &&& r[i].1 == notes[j].title@
        &&& r[i].3 == notes[j].modified
        &&& (fuzzy_score(q, notes[j].title@) is Some || forall|k: int|
            0 <= k < crate::text::words(q).len() ==> occurs_in(
                crate::text::str_lowercase(notes[j].content@),
                crate::text::str_lowercase(#[trigger] crate::text::words(q)[k]),
            ))
    } by {
        let x = p[i];
        assert(r[i] == x.1);
        assert(p.contains(x));
        assert(p.to_multiset().count(x) > 0);
        assert(ranked_hits(notes, q).to_multiset().count(x) > 0);
        lemma_ranked_hits_from_notes(notes, q, x);
        let j = choose|j: int| 0 <= j < notes.len() && ranked_hit(#[trigger] notes[j], q) == Some(x);
        search_hits_need_the_title_or_every_word(notes[j], q);
        assert(r[i].0 == notes[j].id@);
    };
}

/// A search with a blank query gives the first `limit` entries of the list, in the list's
/// order: `r` is what `Store::search` returns for it and `listed` what `Store::list` returns
/// for the same index.
pub proof fn blank_search_is_the_head_of_the_list(
    notes: Seq<Note>,
    query: Seq<char>,
    limit: nat,
    r: Seq<MetaView>,
    listed: Seq<MetaView>,
)
    requires
        trim(query).len() == 0,
        search_result(notes, query, limit, r),
        listed == crate::store::listing(notes.map_values(|n: Note| meta_of(n))),
    ensures
        r == listed.take(if limit < listed.len() { limit as int } else { listed.len() as int }),
{
}

/// The launch action is applied once per window: after a window's first paint, a later
/// paint of the main window only shows it, and a later paint of any other window does
/// nothing.
pub proof fn launch_action_applied_once(
    label: Seq<char>,
    main_ready: bool,
    switcher_ready: bool,
    initial: Seq<char>,
    later: Seq<char>,
)
    ensures
        ({
            let (_, m, s) = ready_spec(label, main_ready, switcher_ready, initial);
            let again = ready_spec(label, m, s, later).0;
            again == ReadyPlan::ShowWindow || again == ReadyPlan::Nothing
        }),
{
}

proof fn lemma_strip_start_front(s: Seq<char>, set: CharSet)
    ensures
        strip_start(s, set).len() <= s.len(),
        strip_start(s, set).len() > 0 ==> !in_set(set, strip_start(s, set)[0]),
        strip_start(s, set).len() > 0 ==> strip_start(s, set).last() == s.last(),
    decreases s.len(),
{
    if s.len() > 0 && in_set(set, s[0]) {
        lemma_strip_start_front(s.drop_first(), set);
    }
}

proof fn lemma_strip_end_back(s: Seq<char>, set: CharSet)
    ensures
        strip_end(s, set).len() <= s.len(),
        strip_end(s, set).len() > 0 ==> !in_set(set, strip_end(s, set).last()),
        strip_end(s, set).len() > 0 ==> strip_end(s, set)[0] == s[0],
    decreases s.len(),
{
    if s.len() > 0 && in_set(set, s.last()) {
        lemma_strip_end_back(s.drop_last(), set);
        if strip_end(s.drop_last(), set).len() > 0 {
            assert(s.drop_last()[0] == s[0]);
        }
    }
}

/// A note's title is never empty and neither begins nor ends with whitespace.
pub proof fn titles_are_trimmed(content: Seq<char>)
    ensures
        title_spec(content).len() > 0,
        !is_ws(title_spec(content)[0]),
        !is_ws(title_spec(content).last()),
{
    let line = crate::notes::first_filled(crate::text::lines(content));
    let unmarked = strip_start(line, CharSet::Hash);
    let front = strip_start(unmarked, CharSet::Whitespace);
    lemma_strip_start_front(unmarked, CharSet::Whitespace);
    lemma_strip_end_back(front, CharSet::Whitespace);
    if trim(unmarked).len() == 0 {
        reveal_strlit("Untitled");
        assert("Untitled"@[0] == 'U');
        assert("Untitled"@.last() == 'd');
    }
}

/// Each image type a note can hold maps to an extension that maps back to it.
pub proof fn image_types_round_trip(mime: Seq<char>)
    ensures
        image_ext(mime) matches Some(ext) ==> image_mime(ext) == Some(mime),
{
    reveal_strlit("png");
    reveal_strlit("jpg");
    reveal_strlit("gif");
    reveal_strlit("webp");
    reveal_strlit("svg");
    reveal_strlit("bmp");
    reveal_strlit("avif");
    assert("jpg"@ != "png"@) by { assert("jpg"@[0] != "png"@[0]); };
    assert("gif"@ != "png"@) by { assert("gif"@[0] != "png"@[0]); };
    assert("gif"@ != "jpg"@) by { assert("gif"@[0] != "jpg"@[0]); };
    assert("webp"@ != "png"@) by { assert("webp"@.len() != "png"@.len()); };
    assert("webp"@ != "jpg"@) by { assert("webp"@.len() != "jpg"@.len()); };
    assert("webp"@ != "gif"@) by { assert("webp"@.len() != "gif"@.len()); };
    assert("svg"@ != "png"@) by { assert("svg"@[0] != "png"@[0]); };
    assert("svg"@ != "jpg"@) by { assert("svg"@[0] != "jpg"@[0]); };
    assert("svg"@ != "gif"@) by { assert("svg"@[0] != "gif"@[0]); };
    assert("svg"@ != "webp"@) by { assert("svg"@.len() != "webp"@.len()); };
    assert("bmp"@ != "png"@) by { assert("bmp"@[0] != "png"@[0]); };
    assert("bmp"@ != "jpg"@) by { assert("bmp"@[0] != "jpg"@[0]); };
    assert("bmp"@ != "gif"@) by { assert("bmp"@[0] != "gif"@[0]); };
    assert("bmp"@ != "webp"@) by { assert("bmp"@.len() != "webp"@.len()); };
    assert("bmp"@ != "svg"@) by { assert("bmp"@[0] != "svg"@[0]); };
    assert("avif"@ != "png"@) by { assert("avif"@.len() != "png"@.len()); };
    assert("avif"@ != "jpg"@) by { assert("avif"@.len() != "jpg"@.len()); };
    assert("avif"@ != "gif"@) by { assert("avif"@.len() != "gif"@.len()); };
    assert("avif"@ != "webp"@) by { assert("avif"@[0] != "webp"@[0]); };
    assert("avif"@ != "svg"@) by { assert("avif"@.len() != "svg"@.len()); };
    assert("avif"@ != "bmp"@) by { assert("avif"@.len() != "bmp"@.len()); };
}

/// Whether `e` is the file extension the image type `m` is saved under: the type's subtype,
/// except `jpg` for `image/jpeg` and `svg` for `image/svg+xml`.
pub open spec fn named_by_subtype(m: Seq<char>, e: Seq<char>) -> bool {
    ||| m == "image/"@ + e
    ||| (m == "image/jpeg"@ && e == "jpg"@)
    ||| (m == "image/svg+xml"@ && e == "svg"@)
}

proof fn lemma_image_literals()
    ensures
        "image/"@ + "png"@ == "image/png"@,
        "image/"@ + "gif"@ == "image/gif"@,
        "image/"@ + "webp"@ == "image/webp"@,
        "image/"@ + "bmp"@ == "image/bmp"@,
        "image/"@ + "avif"@ == "image/avif"@,
{
    reveal_strlit("image/");
    reveal_strlit("png");
    reveal_strlit("gif");
    reveal_strlit("webp");
    reveal_strlit("bmp");
    reveal_strlit("avif");
    reveal_strlit("image/png");
    reveal_strlit("image/gif");
    reveal_strlit("image/webp");
    reveal_strlit("image/bmp");
    reveal_strlit("image/avif");
    assert("image/"@ + "png"@ =~= "image/png"@);
    assert("image/"@ + "gif"@ =~= "image/gif"@);
    assert("image/"@ + "webp"@ =~= "image/webp"@);
    assert("image/"@ + "bmp"@ =~= "image/bmp"@);
    assert("image/"@ + "avif"@ =~= "image/avif"@);
}

/// A pasted image is saved under the extension its type names, and an attachment is served
/// with the type its extension names: `image/<x>` goes with `x` (`image/jpeg` with `jpg`,
/// `image/svg+xml` with `svg`), both ways.
pub proof fn image_types_are_named_by_their_subtype(m: Seq<char>, e: Seq<char>)
    ensures
        image_ext(m) == Some(e) ==> named_by_subtype(m, e),
        image_mime(e) == Some(m) ==> named_by_subtype(m, e),
{
    lemma_image_literals();
}

proof fn lemma_action_words_differ()
    ensures
        "toggle"@ != "hide"@,
        "toggle"@ != "search"@,
        "toggle"@ != "new"@,
        "toggle"@ != "start"@,
        "hide"@ != "search"@,
        "hide"@ != "new"@,
        "hide"@ != "start"@,
        "search"@ != "new"@,
        "search"@ != "start"@,
        "new"@ != "start"@,
{
    reveal_strlit("toggle");
    reveal_strlit("hide");
    reveal_strlit("search");
    reveal_strlit("new");
    reveal_strlit("start");
    assert("toggle"@[0] != "hide"@[0]);
    assert("toggle"@[0] != "search"@[0]);
    assert("toggle"@[0] != "new"@[0]);
    assert("toggle"@[0] != "start"@[0]);
    assert("hide"@[0] != "search"@[0]);
    assert("hide"@[0] != "new"@[0]);
    assert("hide"@[0] != "start"@[0]);
    assert("search"@[0] != "new"@[0]);
    assert("search"@.len() != "start"@.len());
    assert("new"@[0] != "start"@[0]);
}

/// On its first paint the main note does what the launch action asks: it stays hidden for
/// `hide`, `start` and `search`, shows with a new note for `new`, and shows for `show`,
/// `toggle` and any other word; whatever the switcher's state.
pub proof fn first_paint_of_the_main_note_follows_the_launch_action(switcher_ready: bool, w: Seq<char>)
    ensures
        ({
            let plan = ready_spec("main"@, false, switcher_ready, w).0;
            &&& plan == ReadyPlan::HideWindow <==> (action_spec(w) == Action::Hide || action_spec(w)
                == Action::Start || action_spec(w) == Action::Search)
            &&& plan == ReadyPlan::ShowMainNewNote <==> action_spec(w) == Action::New
            &&& plan == ReadyPlan::ShowMain <==> (action_spec(w) == Action::Show || action_spec(w)
                == Action::Toggle)
        }),
{
    lemma_action_words_differ();
}

proof fn lemma_trim_ends(s: Seq<char>)
    ensures
        trim(s).len() > 0 ==> !is_ws(trim(s)[0]) && !is_ws(trim(s).last()),
{
    let front = strip_start(s, CharSet::Whitespace);
    lemma_strip_start_front(s, CharSet::Whitespace);
    lemma_strip_end_back(front, CharSet::Whitespace);
}

proof fn lemma_first_filled_ends(ls: Seq<Seq<char>>)
    ensures
        crate::notes::first_filled(ls).len() > 0 ==> !is_ws(crate::notes::first_filled(ls)[0])
            && !is_ws(crate::notes::first_filled(ls).last()),
    decreases ls.len(),
{
    if ls.len() > 0 {
        lemma_trim_ends(ls[0]);
        lemma_first_filled_ends(ls.drop_first());
    }
}

/// Only `#` heading markers come off the front of a note's title: where the first
/// non-blank line of the text, trimmed, starts with any other char, that line is the title
/// as it stands.
pub proof fn titles_lose_only_heading_markers(content: Seq<char>)
    ensures
        ({
            let line = crate::notes::first_filled(crate::text::lines(content));
            line.len() > 0 && line[0] != '#' ==> title_spec(content) == line
        }),
{
    let line = crate::notes::first_filled(crate::text::lines(content));
    lemma_first_filled_ends(crate::text::lines(content));
    if line.len() > 0 && line[0] != '#' {
        assert(strip_start(line, CharSet::Hash) == line);
        assert(strip_start(line, CharSet::Whitespace) == line);
        assert(strip_end(line, CharSet::Whitespace) == line);
    }
}

/// Whether `t` occurs in `h` as a run of consecutive chars.
pub open spec fn occurs_in(h: Seq<char>, t: Seq<char>) -> bool {
    exists|i: int| 0 <= i && i + t.len() <= h.len() && #[trigger] h.subrange(i, i + t.len()) == t
}

proof fn lemma_find_from_some(h: Seq<char>, t: Seq<char>, i: int)
    requires
        i >= 0,
    ensures
        find_from(h, t, i) is Some <==> exists|j: int| j >= i && #[trigger] occurs_at(h, t, j),
    decreases h.len() + 1 - i,
{
    if i + t.len() > h.len() {
        assert forall|j: int| j >= i implies !#[trigger] occurs_at(h, t, j) by {};
    } else if !occurs_at(h, t, i) {
        lemma_find_from_some(h, t, i + 1);
        assert forall|j: int| j >= i && #[trigger] occurs_at(h, t, j) implies j >= i + 1 by {};
    }
}

proof fn lemma_contains_occurs(h: Seq<char>, t: Seq<char>)
    ensures
        crate::search::contains(h, t) <==> occurs_in(h, t),
{
    lemma_find_from_some(h, t, 0);
    if occurs_in(h, t) {
        let i = choose|i: int| 0 <= i && i + t.len() <= h.len() && #[trigger] h.subrange(i, i + t.len()) == t;
        assert(occurs_at(h, t, i));
    }
    if crate::search::contains(h, t) {
        let j = choose|j: int| j >= 0 && #[trigger] occurs_at(h, t, j);
        assert(h.subrange(j, j + t.len()) == t);
    }
}

/// A note is a hit of a search for the trimmed query `q` exactly when its title matches `q`
/// fuzzily or its lowercased text holds every lowercased word of `q`; a note that lacks one
/// word and whose title does not match is never a hit.
pub proof fn search_hits_need_the_title_or_every_word(n: Note, q: Seq<char>)
    ensures
        ranked_hit(n, q) is Some <==> (fuzzy_score(q, n.title@) is Some || forall|k: int|
            0 <= k < crate::text::words(q).len() ==> occurs_in(
                crate::text::str_lowercase(n.content@),
                crate::text::str_lowercase(#[trigger] crate::text::words(q)[k]),
            )),
{
    let lc = crate::text::str_lowercase(n.content@);
    let ws = crate::text::words(q);
    let ts = query_terms(q);
    assert forall|k: int| 0 <= k < ts.len() implies crate::search::contains(lc, #[trigger] ts[k])
        == occurs_in(lc, crate::text::str_lowercase(ws[k])) by {
        lemma_contains_occurs(lc, ts[k]);
    };
    if content_hit(n.content@, ts) {
        assert forall|k: int| 0 <= k < ws.len() implies occurs_in(
            lc,
            crate::text::str_lowercase(#[trigger] ws[k]),
        ) by {
            assert(crate::search::contains(lc, ts[k]));
        };
    }
    if forall|k: int| 0 <= k < ws.len() ==> occurs_in(lc, crate::text::str_lowercase(#[trigger] ws[k])) {
        assert forall|k: int| 0 <= k < ts.len() implies crate::search::contains(lc, #[trigger] ts[k]) by {
            assert(occurs_in(lc, crate::text::str_lowercase(ws[k])));
        };
    }
}

/// A title made of words of ASCII letters and digits, one space between words, at most
/// 60 chars.
pub open spec fn word_title(t: Seq<char>) -> bool {
    &&& 0 < t.len() <= 60
    &&& forall|i: int| 0 <= i < t.len() ==> crate::text::is_ascii_alnum(#[trigger] t[i]) || t[i] == ' '
    &&& t[0] != ' '
    &&& t.last() != ' '
    &&& forall|i: int| 0 <= i < t.len() - 1 ==> !(#[trigger] t[i] == ' ' && t[i + 1] == ' ')
}

/// `t` in lowercase with each space turned into a dash.
pub open spec fn dashed(t: Seq<char>) -> Seq<char> {
    t.map_values(|c: char| if c == ' ' { '-' } else { crate::text::ascii_lower(c) })
}

proof fn lemma_ascii_word_char(c: char)
    requires
        crate::text::is_ascii_alnum(c) || c == ' ',
    ensures
        crate::text::is_ascii_char(c),
        crate::notes::lower_of(c) == seq![crate::text::ascii_lower(c)],
        crate::notes::alnum(crate::text::ascii_lower(c)) == crate::text::is_ascii_alnum(c),
        crate::text::ascii_lower(c) != '-',
        c == ' ' ==> crate::text::ascii_lower(c) == ' ',
{
    let u = c as u32;
    if 0x41 <= u <= 0x5a {
        let l = (u + 32) as char;
        assert(l as u32 == u + 32);
    }
}

proof fn lemma_slug_scan_of_words(t: Seq<char>, k: int)
    requires
        word_title(t),
        0 <= k <= t.len(),
    ensures
        crate::notes::slug_scan(crate::notes::lowered(t.take(k))) == (dashed(t.take(k)), k > 0 && t[k - 1] == ' '),
    decreases k,
{
    if k == 0 {
        assert(t.take(0) =~= Seq::<char>::empty());
        assert(dashed(t.take(0)) =~= Seq::<char>::empty());
    } else {
        lemma_slug_scan_of_words(t, k - 1);
        let p = t.take(k - 1);
        let q = t.take(k);
        let c = t[k - 1];
        assert(q.drop_last() =~= p);
        assert(q.last() == c);
        lemma_ascii_word_char(c);
        let x = crate::text::ascii_lower(c);
        let lp = crate::notes::lowered(p);
        assert(crate::notes::lowered(q) == lp + seq![x]);
        assert((lp + seq![x]).drop_last() =~= lp);
        assert((lp + seq![x]).last() == x);
        assert(dashed(q) =~= dashed(p).push(if c == ' ' { '-' } else { x }));
        if c == ' ' {
            assert(k - 1 > 0);
            assert(t[k - 2] != ' ');
            assert(dashed(p).len() > 0);
        }
    }
}

/// A title of ASCII words with single spaces between them, at most 60 chars, gives as its
/// slug the title in lowercase with each space turned into a dash: every letter and digit
/// is kept, in order.
pub proof fn word_titles_slug_to_their_lowercased_words(t: Seq<char>)
    requires
        word_title(t),
    ensures
        crate::notes::slug_spec(t) == dashed(t),
{
    lemma_slug_scan_of_words(t, t.len() as int);
    assert(t.take(t.len() as int) =~= t);
    let d = dashed(t);
    lemma_ascii_word_char(t[0]);
    lemma_ascii_word_char(t.last());
    assert(d[0] == crate::text::ascii_lower(t[0]));
    assert(d.last() == crate::text::ascii_lower(t.last()));
    assert(strip_start(d, CharSet::Dash) == d);
    assert(strip_end(d, CharSet::Dash) == d);
}

} // verus!
