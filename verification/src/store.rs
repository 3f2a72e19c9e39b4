//! The in-memory note index: every note of the notes folder by id, the order
//! they are listed in, and the names new files get. Reading and writing the
//! files is the caller's; this module decides what they hold and are called.

use vstd::prelude::*;
use vstd::multiset::Multiset;
use vstd::set_lib::{lemma_int_range, lemma_len_subset, lemma_map_size, set_int_range};
use vstd::relations::injective_on;
use crate::text::{
    chars_of, concat_chars, decimal, is_ascii_alnum, is_ascii_digit, lemma_decimal_injective, lemma_decimal_len,
    push_decimal, same_chars, slice_chars, string_of, lex_lt, lex_less, lemma_lex_total,
    lemma_lex_transitive, views_of,
};
use crate::paths::{
    extension, extension_of, file_name, file_name_of, file_stem, file_stem_of, join, join_spec, parent,
    last_dot, parent_of, plain_name, same_path, same_path_spec,
};
use crate::desktop::{ext_of, image_ext, percent_decode, percent_decoded};
use crate::notes::{blank_spec, is_blank, preview_of, preview_spec, slug, slug_spec, title_of, title_spec};

verus! {

broadcast use vstd::string::group_string_axioms;

/// One note: a markdown file in the notes folder, named `<id>.md`.
#[derive(Clone, Debug)]
pub struct Note {
    pub id: String,
    pub title: String,
    pub content: String,
    /// Milliseconds since the Unix epoch.
    pub modified: u64,
    pub created: u64,
}

/// What a list of notes shows of one note.
#[derive(Clone, Debug)]
pub struct NoteMeta {
    pub id: String,
    pub title: String,
    pub preview: String,
    pub modified: u64,
}

/// One search result.
#[derive(Clone, Debug)]
pub struct Hit {
    pub id: String,
    pub title: String,
    pub snippet: String,
    pub modified: u64,
}

impl Note {
    /// A note read from the file `<id>.md`: its title is the title of its content.
    pub fn from_file(id: String, content: String, modified: u64, created: u64) -> (n: Note)
        ensures
            n.id == id,
            n.content == content,
            n.title@ == title_spec(content@),
            n.modified == modified,
            n.created == created,
    {
        let title = title_of(content.as_str());
        Note { id, title, content, modified, created }
    }

    /// A copy of this note.
    pub fn duplicate(&self) -> (n: Note)
        ensures
            n == *self,
    {
        Note {
            id: self.id.clone(),
            title: self.title.clone(),
            content: self.content.clone(),
            modified: self.modified,
            created: self.created,
        }
    }
}

// ---------- the index ----------

/// Whether no two notes of `s` share an id.
pub open spec fn ids_distinct(s: Seq<Note>) -> bool {
    forall|i: int, j: int| 0 <= i < s.len() && 0 <= j < s.len() && i != j ==> s[i].id@ != s[j].id@
}

/// Whether the note's title is the title of its content.
pub open spec fn titled(n: Note) -> bool {
    n.title@ == title_spec(n.content@)
}

/// Whether every note of `s` carries the title of its content.
pub open spec fn all_titled(s: Seq<Note>) -> bool {
    forall|i: int| 0 <= i < s.len() ==> titled(#[trigger] s[i])
}

pub open spec fn has_id(s: Seq<Note>, k: Seq<char>) -> bool {
    exists|i: int| 0 <= i < s.len() && s[i].id@ == k
}

pub open spec fn index_of_id(s: Seq<Note>, k: Seq<char>) -> int {
    choose|i: int| 0 <= i < s.len() && s[i].id@ == k
}

/// The notes of `s` by id.
pub open spec fn notes_by_id(s: Seq<Note>) -> Map<Seq<char>, Note> {
    Map::new(|k: Seq<char>| has_id(s, k), |k: Seq<char>| s[index_of_id(s, k)])
}

pub proof fn lemma_notes_by_id_at(s: Seq<Note>, i: int)
    requires
        ids_distinct(s),
        0 <= i < s.len(),
    ensures
        notes_by_id(s).contains_key(s[i].id@),
        notes_by_id(s)[s[i].id@] == s[i],
{
    assert(has_id(s, s[i].id@));
    let j = index_of_id(s, s[i].id@);
    assert(j == i);
}

/// The note store: the notes folder and the notes read from it.
pub struct Store {
    dir: String,
    notes: Vec<Note>,
}

impl View for Store {
    type V = Map<Seq<char>, Note>;

    open spec fn view(&self) -> Map<Seq<char>, Note> {
        notes_by_id(self.entries())
    }
}

impl Store {
    /// The notes, in the order they came into the index.
    pub closed spec fn entries(&self) -> Seq<Note> {
        self.notes@
    }

    /// The notes folder.
    pub closed spec fn folder(&self) -> String {
        self.dir
    }

    /// The notes folder.
    pub fn dir(&self) -> (r: &str)
        ensures
            r@ == self.folder()@,
    {
        self.dir.as_str()
    }

    /// No two notes share an id, and every note carries the title of its content.
    pub open spec fn wf(&self) -> bool {
        ids_distinct(self.entries()) && all_titled(self.entries())
    }

    /// How many notes the index holds.
    pub fn notes_len(&self) -> (n: usize)
        ensures
            n == self.entries().len(),
    {
        self.notes.len()
    }

    /// The `i`-th note in index order.
    pub fn note_at(&self, i: usize) -> (n: &Note)
        requires
            i < self.entries().len(),
        ensures
            *n == self.entries()[i as int],
    {
        &self.notes[i]
    }

    /// An empty index of the folder `dir`.
    pub fn new(dir: String) -> (s: Store)
        ensures
            s.folder() == dir,
            s.wf(),
            s.entries().len() == 0,
            s@ == Map::<Seq<char>, Note>::empty(),
    {
        let s = Store { dir, notes: Vec::new() };
        assert(s@ =~= Map::<Seq<char>, Note>::empty());
        s
    }

    fn position(&self, id: &Vec<char>) -> (r: Option<usize>)
        requires
            self.wf(),
        ensures
            match r {
                Some(i) => i < self.notes.len() && self.notes@[i as int].id@ == id@,
                None => !has_id(self.entries(), id@),
            },
    {
        for i in 0..self.notes.len()
            invariant
                forall|j: int| 0 <= j < i ==> self.notes@[j].id@ != id@,
        {
            let cs = chars_of(self.notes[i].id.as_str());
            if same_chars(&cs, id) {
                return Some(i);
            }
        }
        None
    }

    /// The note with this id.
    pub fn get(&self, id: &str) -> (r: Option<Note>)
        requires
            self.wf(),
        ensures
            r == if self@.contains_key(id@) {
                Some(self@[id@])
            } else {
                None::<Note>
            },
            r matches Some(n) ==> n.id@ == id@ && titled(n),
    {
        let key = chars_of(id);
        match self.position(&key) {
            Some(i) => {
                proof {
                    lemma_notes_by_id_at(self.entries(), i as int);
                }
                Some(self.notes[i].duplicate())
            },
            None => None,
        }
    }

    /// Whether a note has this id.
    pub fn contains(&self, id: &str) -> (r: bool)
        requires
            self.wf(),
        ensures
            r == self@.contains_key(id@),
    {
        let key = chars_of(id);
        self.position(&key).is_some()
    }

    /// Adds `note` under its id, in place of a note of the same id.
    pub fn insert(&mut self, note: Note)
        requires
            old(self).wf(),
            titled(note),
        ensures
            final(self).wf(),
            final(self).folder() == old(self).folder(),
            final(self)@ == old(self)@.insert(note.id@, note),
    {
        let key = chars_of(note.id.as_str());
        let ghost old_entries = self.entries();
        let ghost k = note.id@;
        match self.position(&key) {
            Some(i) => {
                self.notes.set(i, note);
                let ghost s = self.entries();
                assert(s == old_entries.update(i as int, note));
                assert forall|x: Seq<char>| #![auto]
                    self@.contains_key(x) == notes_by_id(old_entries).insert(k, note).contains_key(
                        x,
                    ) by {
                    if has_id(old_entries, x) {
                        let j = choose|j: int| 0 <= j < old_entries.len() && old_entries[j].id@ == x;
                        assert(s[j].id@ == x || j == i);
                    }
                    if x == k {
                        assert(s[i as int].id@ == x);
                    }
                };
                assert forall|x: Seq<char>| #[trigger] self@.contains_key(x) implies self@[x]
                    == notes_by_id(old_entries).insert(k, note)[x] by {
                    let j = choose|j: int| 0 <= j < s.len() && s[j].id@ == x;
                    lemma_notes_by_id_at(s, j);
                    if j != i {
                        lemma_notes_by_id_at(old_entries, j);
                    }
                };
                assert(self@ =~= old(self)@.insert(k, note));
            },
            None => {
                self.notes.push(note);
                let ghost s = self.entries();
                assert(s == old_entries.push(note));
                assert forall|x: Seq<char>| #![auto]
                    self@.contains_key(x) == notes_by_id(old_entries).insert(k, note).contains_key(
                        x,
                    ) by {
                    if has_id(old_entries, x) {
                        let j = choose|j: int| 0 <= j < old_entries.len() && old_entries[j].id@ == x;
                        assert(s[j].id@ == x);
                    }
                    if x == k {
                        assert(s[old_entries.len() as int].id@ == x);
                    }
                    if has_id(s, x) {
                        let j = choose|j: int| 0 <= j < s.len() && s[j].id@ == x;
                        if j < old_entries.len() {
                            assert(old_entries[j].id@ == x);
                        }
                    }
                };
                assert forall|x: Seq<char>| #[trigger] self@.contains_key(x) implies self@[x]
                    == notes_by_id(old_entries).insert(k, note)[x] by {
                    let j = choose|j: int| 0 <= j < s.len() && s[j].id@ == x;
                    lemma_notes_by_id_at(s, j);
                    if j < old_entries.len() {
                        lemma_notes_by_id_at(old_entries, j);
                    }
                };
                assert(self@ =~= old(self)@.insert(k, note));
            },
        }
    }

    /// Takes the note with this id out of the index.
    pub fn remove(&mut self, id: &str) -> (r: Option<Note>)
        requires
            old(self).wf(),
        ensures
            final(self).wf(),
            final(self).folder() == old(self).folder(),
            final(self)@ == old(self)@.remove(id@),
            r == if old(self)@.contains_key(id@) {
                Some(old(self)@[id@])
            } else {
                None::<Note>
            },
    {
        let key = chars_of(id);
        let ghost old_entries = self.entries();
        match self.position(&key) {
            Some(i) => {
                proof {
                    lemma_notes_by_id_at(old_entries, i as int);
                }
                let n = self.notes.remove(i);
                let ghost s = self.entries();
                assert(s == old_entries.remove(i as int));
                assert forall|a: int, b: int|
                    0 <= a < s.len() && 0 <= b < s.len() && a != b implies s[a].id@ != s[b].id@ by {
                    let a2 = if a < i { a } else { a + 1 };
                    let b2 = if b < i { b } else { b + 1 };
                    assert(s[a] == old_entries[a2]);
                    assert(s[b] == old_entries[b2]);
                };
                assert forall|a: int| 0 <= a < s.len() implies titled(#[trigger] s[a]) by {
                    let a2 = if a < i { a } else { a + 1 };
                    assert(s[a] == old_entries[a2]);
                };
                assert forall|x: Seq<char>| #![auto]
                    self@.contains_key(x) == notes_by_id(old_entries).remove(id@).contains_key(
                        x,
                    ) by {
                    if has_id(old_entries, x) && x != id@ {
                        let j = choose|j: int| 0 <= j < old_entries.len() && old_entries[j].id@ == x;
                        if j < i {
                            assert(s[j].id@ == x);
                        } else {
                            assert(s[j - 1].id@ == x);
                        }
                    }
                    if has_id(s, x) {
                        let j = choose|j: int| 0 <= j < s.len() && s[j].id@ == x;
                        let j2 = if j < i { j } else { j + 1 };
                        assert(old_entries[j2].id@ == x);
                    }
                };
                assert forall|x: Seq<char>| #[trigger] self@.contains_key(x) implies self@[x]
                    == notes_by_id(old_entries).remove(id@)[x] by {
                    let j = choose|j: int| 0 <= j < s.len() && s[j].id@ == x;
                    lemma_notes_by_id_at(s, j);
                    let j2 = if j < i { j } else { j + 1 };
                    lemma_notes_by_id_at(old_entries, j2);
                };
                assert(self@ =~= old(self)@.remove(id@));
                Some(n)
            },
            None => {
                assert(self@ =~= old(self)@.remove(id@));
                None
            },
        }
    }

    /// Empties the index.
    pub fn clear(&mut self)
        ensures
            final(self).wf(),
            final(self).folder() == old(self).folder(),
            final(self)@ == Map::<Seq<char>, Note>::empty(),
    {
        self.notes = Vec::new();
        assert(self@ =~= Map::<Seq<char>, Note>::empty());
    }
}

// ---------- ids and file names ----------

/// Whether the file id `id` already carries the slug `wanted`: it is `wanted`, or `wanted`
/// followed by a dash and digits only (the suffix a clash of names adds).
pub open spec fn id_matches_spec(id: Seq<char>, wanted: Seq<char>) -> bool {
    ||| id == wanted
    ||| {
        &&& id.len() > wanted.len()
        &&& id.take(wanted.len() as int) == wanted
        &&& id[wanted.len() as int] == '-'
        &&& forall|j: int| wanted.len() + 1 <= j < id.len() ==> is_ascii_digit(#[trigger] id[j])
    }
}

pub fn id_matches(id: &str, wanted: &str) -> (r: bool)
    ensures
        r == id_matches_spec(id@, wanted@),
{
    let a = chars_of(id);
    let b = chars_of(wanted);
    if same_chars(&a, &b) {
        return true;
    }
    if a.len() <= b.len() {
        return false;
    }
    let head = slice_chars(&a, 0, b.len());
    if !same_chars(&head, &b) || a[b.len()] != '-' {
        return false;
    }
    let mut j = b.len() + 1;
    while j < a.len()
        invariant
            a@ == id@,
            b@ == wanted@,
            a@ != b@,
            a@.len() > b@.len(),
            a@.take(b@.len() as int) == b@,
            a@[b@.len() as int] == '-',
            b.len() + 1 <= j <= a.len(),
            forall|k: int| b.len() + 1 <= k < j ==> is_ascii_digit(#[trigger] a@[k]),
        decreases a.len() - j,
    {
        let c = a[j];
        if !(0x30 <= (c as u32) && (c as u32) <= 0x39) {
            assert(!is_ascii_digit(a@[j as int]));
            return false;
        }
        j += 1;
    }
    true
}

/// The `n`-th name tried for a new file of stem `base`: `base` itself, then `base-2`,
/// `base-3` and so on.
pub open spec fn candidate(base: Seq<char>, n: nat) -> Seq<char> {
    if n <= 1 {
        base
    } else {
        base + seq!['-'] + decimal(n)
    }
}

/// Whether the stem `stem` is taken: a file `stem` + `suffix` is in the folder, and `stem`
/// is not the one a note may keep.
pub open spec fn stem_taken(
    stem: Seq<char>,
    suffix: Seq<char>,
    existing: Seq<Seq<char>>,
    keep: Option<Seq<char>>,
) -> bool {
    existing.contains(stem + suffix) && keep != Some(stem)
}

/// `r` is the first candidate stem of `base` that is not taken.
pub open spec fn first_free(
    base: Seq<char>,
    suffix: Seq<char>,
    existing: Seq<Seq<char>>,
    keep: Option<Seq<char>>,
    r: Seq<char>,
) -> bool {
    exists|n: nat|
        #![trigger candidate(base, n)]
        n >= 1 && r == candidate(base, n) && !stem_taken(r, suffix, existing, keep) && forall|
            m: nat,
        |
            1 <= m < n ==> stem_taken(#[trigger] candidate(base, m), suffix, existing, keep)
}

pub proof fn lemma_candidate_injective(base: Seq<char>, a: nat, b: nat)
    requires
        a >= 1,
        b >= 1,
        candidate(base, a) == candidate(base, b),
    ensures
        a == b,
{
    lemma_decimal_len(a);
    lemma_decimal_len(b);
    if a >= 2 && b >= 2 {
        assert(decimal(a) =~= candidate(base, a).skip(base.len() + 1int));
        assert(decimal(b) =~= candidate(base, b).skip(base.len() + 1int));
        lemma_decimal_injective(a, b);
    } else if a >= 2 || b >= 2 {
        assert(candidate(base, a).len() != candidate(base, b).len());
    }
}

/// When the first `n` candidates are all taken, the folder holds at least `n` names.
pub proof fn lemma_taken_candidates_bounded(
    base: Seq<char>,
    suffix: Seq<char>,
    existing: Seq<Seq<char>>,
    keep: Option<Seq<char>>,
    n: nat,
)
    requires
        forall|m: nat| 1 <= m <= n ==> stem_taken(#[trigger] candidate(base, m), suffix, existing, keep),
    ensures
        n <= existing.len(),
{
    let f = |m: int| candidate(base, m as nat) + suffix;
    let x = set_int_range(1, n + 1int);
    lemma_int_range(1, n + 1int);
    assert forall|a: int, b: int| x.contains(a) && x.contains(b) && #[trigger] f(a) == #[trigger] f(
        b,
    ) implies a == b by {
        assert(candidate(base, a as nat) =~= f(a).take(f(a).len() - suffix.len()));
        assert(candidate(base, b as nat) =~= f(b).take(f(b).len() - suffix.len()));
        lemma_candidate_injective(base, a as nat, b as nat);
    };
    assert(injective_on(f, x));
    lemma_map_size(x, x.map(f), f);
    assert forall|name: Seq<char>| x.map(f).contains(name) implies existing.to_set().contains(
        name,
    ) by {
        let m = choose|m: int| x.contains(m) && f(m) == name;
        assert(stem_taken(candidate(base, m as nat), suffix, existing, keep));
    };
    lemma_len_subset(x.map(f), existing.to_set());
    existing.lemma_cardinality_of_set();
}

fn holds_name(existing: &Vec<Vec<char>>, name: &Vec<char>) -> (r: bool)
    ensures
        r == views_of(existing@).contains(name@),
{
    for i in 0..existing.len()
        invariant
            forall|j: int| 0 <= j < i ==> existing@[j]@ != name@,
    {
        if same_chars(&existing[i], name) {
            assert(views_of(existing@)[i as int] == name@);
            return true;
        }
    }
    assert forall|j: int| 0 <= j < views_of(existing@).len() implies views_of(existing@)[j]
        != name@ by {
        assert(views_of(existing@)[j] == existing@[j]@);
    };
    false
}

fn candidate_chars(base: &Vec<char>, n: u64) -> (r: Vec<char>)
    requires
        n >= 1,
    ensures
        r@ == candidate(base@, n as nat),
{
    let mut r = slice_chars(base, 0, base.len());
    assert(base@.subrange(0, base@.len() as int) =~= base@);
    if n >= 2 {
        r.push('-');
        push_decimal(&mut r, n);
        assert(r@ =~= base@ + seq!['-'] + decimal(n as nat));
    }
    r
}

pub open spec fn strs_of(v: Seq<String>) -> Seq<Seq<char>> {
    v.map_values(|s: String| s@)
}

pub open spec fn opt_chars(o: Option<Vec<char>>) -> Option<Seq<char>> {
    match o {
        Some(v) => Some(v@),
        None => None,
    }
}

/// The first candidate stem of `base` whose file `stem + suffix` is not in the folder.
fn first_free_stem(
    base: &Vec<char>,
    suffix: &Vec<char>,
    existing: &Vec<Vec<char>>,
    keep: &Option<Vec<char>>,
) -> (r: Vec<char>)
    requires
        existing@.len() < usize::MAX,
    ensures
        first_free(base@, suffix@, views_of(existing@), opt_chars(*keep), r@),
{
    let ghost names = views_of(existing@);
    let mut n: u64 = 1;
    loop
        invariant
            names == views_of(existing@),
            existing@.len() < usize::MAX,
            1 <= n <= existing@.len() + 1,
            forall|m: nat| 1 <= m < n ==> stem_taken(#[trigger] candidate(base@, m), suffix@, names, opt_chars(*keep)),
        decreases existing@.len() + 1 - n,
    {
        let cand = candidate_chars(base, n);
        let file = concat_chars(&cand, suffix);
        let kept = match keep {
            Some(k) => same_chars(k, &cand),
            None => false,
        };
        if !holds_name(existing, &file) || kept {
            assert(!stem_taken(cand@, suffix@, names, opt_chars(*keep)));
            return cand;
        }
        proof {
            assert(stem_taken(candidate(base@, n as nat), suffix@, names, opt_chars(*keep)));
            lemma_taken_candidates_bounded(base@, suffix@, names, opt_chars(*keep), n as nat);
        }
        n += 1;
    }
}

fn chars_of_all(v: &Vec<String>) -> (r: Vec<Vec<char>>)
    ensures
        views_of(r@) == strs_of(v@),
        r@.len() == v@.len(),
{
    let mut r: Vec<Vec<char>> = Vec::new();
    for i in 0..v.len()
        invariant
            views_of(r@) == strs_of(v@.take(i as int)),
    {
        let ghost before = views_of(r@);
        r.push(chars_of(v[i].as_str()));
        assert(views_of(r@) =~= before.push(v@[i as int]@));
        assert(strs_of(v@.take(i + 1)) =~= strs_of(v@.take(i as int)).push(v@[i as int]@));
    }
    assert(v@.take(v.len() as int) =~= v@);
    r
}

pub open spec fn md_suffix() -> Seq<char> {
    seq!['.', 'm', 'd']
}

pub open spec fn opt_str(o: Option<&str>) -> Option<Seq<char>> {
    match o {
        Some(s) => Some(s@),
        None => None,
    }
}

/// The text of `s` as `Debug` writes it: quoted, with escapes.
pub uninterp spec fn debug_text(s: Seq<char>) -> Seq<char>;

/// `format!("{s:?}")`, the quoted and escaped form of `s`. Its result is named.
#[verifier::external_body]
fn debug_str(s: &str) -> (r: String)
    ensures
        r@ == debug_text(s@),
{
    format!("{s:?}")
}

/// Subfolder of the notes folder that pasted images go in.
pub const ASSETS_DIR: &'static str = "assets";

/// Whether `ext` can end an attachment's file name: one or more ASCII letters and digits.
pub open spec fn valid_extension(ext: Seq<char>) -> bool {
    ext.len() > 0 && forall|i: int| 0 <= i < ext.len() ==> is_ascii_alnum(#[trigger] ext[i])
}

/// The stem an attachment of a note titled `title`, saved at `secs` seconds past the Unix
/// epoch, starts from: the title's slug, a dash and the seconds.
pub open spec fn attachment_base(title: Seq<char>, secs: u64) -> Seq<char> {
    slug_spec(title) + seq!['-'] + decimal(secs as nat)
}

impl Store {
    /// The first free id for a note whose slug is `base`: `base`, `base-2`, ... where the
    /// folder's entries `existing` hold no `<id>.md`; `keep` counts as free (a note keeping
    /// its own name).
    pub fn unique_id(&self, base: &str, keep: Option<&str>, existing: &Vec<String>) -> (r: String)
        requires
            existing@.len() < usize::MAX,
        ensures
            first_free(base@, md_suffix(), strs_of(existing@), opt_str(keep), r@),
    {
        let b = chars_of(base);
        let k = match keep {
            Some(k) => Some(chars_of(k)),
            None => None,
        };
        assert(opt_chars(k) == opt_str(keep));
        let names = chars_of_all(existing);
        let suffix = vec!['.', 'm', 'd'];
        assert(suffix@ =~= md_suffix());
        let stem = first_free_stem(&b, &suffix, &names, &k);
        string_of(&stem)
    }

    /// The id a new note with this content is written under: the first free id for the
    /// slug of its title.
    pub fn new_note_id(&self, content: &str, existing: &Vec<String>) -> (r: String)
        requires
            existing@.len() < usize::MAX,
        ensures
            first_free(slug_spec(title_spec(content@)), md_suffix(), strs_of(existing@), None, r@),
    {
        let title = title_of(content);
        let wanted = slug(title.as_str());
        self.unique_id(wanted.as_str(), None, existing)
    }

    /// The id a deleted note is written back under: its own id, or the first free one after it.
    pub fn restore_id(&self, note: &Note, existing: &Vec<String>) -> (r: String)
        requires
            existing@.len() < usize::MAX,
        ensures
            first_free(note.id@, md_suffix(), strs_of(existing@), None, r@),
    {
        self.unique_id(note.id.as_str(), None, existing)
    }

    /// The id a note saved with this content moves to, if any: a note with a real title
    /// whose id no longer carries the title's slug moves to the first free id for that slug,
    /// keeping its own id if that is the one.
    pub fn rename_target(&self, id: &str, content: &str, existing: &Vec<String>) -> (r: Option<
        String,
    >)
        requires
            existing@.len() < usize::MAX,
        ensures
            ({
                let title = title_spec(content@);
                let wanted = slug_spec(title);
                match r {
                    Some(n) => {
                        &&& title != "Untitled"@
                        &&& !id_matches_spec(id@, wanted)
                        &&& first_free(wanted, md_suffix(), strs_of(existing@), Some(id@), n@)
                        &&& n@ != id@
                    },
                    None => {
                        ||| title == "Untitled"@
                        ||| id_matches_spec(id@, wanted)
                        ||| first_free(wanted, md_suffix(), strs_of(existing@), Some(id@), id@)
                    },
                }
            }),
    {
        let title = title_of(content);
        let wanted = slug(title.as_str());
        let untitled = chars_of("Untitled");
        let t = chars_of(title.as_str());
        if same_chars(&t, &untitled) || id_matches(id, wanted.as_str()) {
            return None;
        }
        let new_id = self.unique_id(wanted.as_str(), Some(id), existing);
        let a = chars_of(new_id.as_str());
        let b = chars_of(id);
        if same_chars(&a, &b) {
            None
        } else {
            Some(new_id)
        }
    }

    /// Where a pasted image of a note titled `title` is saved, relative to the notes folder:
    /// `assets/<title slug>-<secs>.<ext>`, or the first of `-2`, `-3`, ... appended to the
    /// stem that the assets folder's entries `existing` do not hold. Refused when the
    /// extension is empty or holds anything but ASCII letters and digits.
    pub fn attachment_path(&self, title: &str, ext: &str, secs: u64, existing: &Vec<String>) -> (r:
        Result<String, String>)
        requires
            existing@.len() < usize::MAX,
        ensures
            match r {
                Ok(p) => valid_extension(ext@) && exists|stem: Seq<char>|
                    first_free(
                        attachment_base(title@, secs),
                        seq!['.'] + ext@,
                        strs_of(existing@),
                        None,
                        stem,
                    ) && p@ == "assets/"@ + stem + seq!['.'] + ext@,
                Err(e) => !valid_extension(ext@) && e@ == "bad extension "@ + debug_text(ext@),
            },
    {
        let e = chars_of(ext);
        let mut ok = e.len() > 0;
        let mut i: usize = 0;
        while ok && i < e.len()
            invariant
                i <= e.len(),
                ok ==> e@.len() > 0 && forall|j: int| 0 <= j < i ==> is_ascii_alnum(#[trigger] e@[j]),
                !ok ==> !valid_extension(e@),
            decreases e.len() - i,
        {
            let c = e[i];
            let u = c as u32;
            if !((0x30 <= u && u <= 0x39) || (0x41 <= u && u <= 0x5a) || (0x61 <= u && u <= 0x7a)) {
                assert(!is_ascii_alnum(e@[i as int]));
                ok = false;
            }
            i += 1;
        }
        if !ok {
            let mut msg = chars_of("bad extension ");
            let q = chars_of(debug_str(ext).as_str());
            let full = concat_chars(&msg, &q);
            return Err(string_of(&full));
        }
        let s = slug(title);
        let mut base = chars_of(s.as_str());
        base.push('-');
        push_decimal(&mut base, secs);
        assert(base@ =~= attachment_base(title@, secs));
        let mut suffix = vec!['.'];
        suffix = concat_chars(&suffix, &e);
        assert(suffix@ =~= seq!['.'] + ext@);
        let names = chars_of_all(existing);
        let stem = first_free_stem(&base, &suffix, &names, &None);
        let dir = chars_of(ASSETS_DIR);
        let mut p = concat_chars(&dir, &vec!['/']);
        p = concat_chars(&p, &stem);
        p = concat_chars(&p, &suffix);
        assert(p@ =~= "assets/"@ + stem@ + seq!['.'] + ext@) by {
            reveal_strlit("assets");
            reveal_strlit("assets/");
        };
        Ok(string_of(&p))
    }

    /// Where a pasted image file is saved, from the request's headers: the note's title,
    /// percent-encoded, and the image's mime type. Refused for a type that is no image type
    /// a note can hold; otherwise as `attachment_path` with the decoded title and the type's
    /// extension.
    pub fn attachment_request(
        &self,
        title_header: &str,
        type_header: &str,
        secs: u64,
        existing: &Vec<String>,
    ) -> (r: Result<String, String>)
        requires
            existing@.len() < usize::MAX,
        ensures
            match image_ext(type_header@) {
                None => r matches Err(e) && e@ == "not an image type: "@ + type_header@,
                Some(ext) => match r {
                    Ok(p) => valid_extension(ext) && exists|stem: Seq<char>|
                        first_free(
                            attachment_base(percent_decoded(title_header@), secs),
                            seq!['.'] + ext,
                            strs_of(existing@),
                            None,
                            stem,
                        ) && p@ == "assets/"@ + stem + seq!['.'] + ext,
                    Err(e) => !valid_extension(ext) && e@ == "bad extension "@ + debug_text(ext),
                },
            },
    {
        match ext_of(type_header) {
            None => Err(string_of(&concat_chars(&chars_of("not an image type: "), &chars_of(type_header)))),
            Some(ext) => {
                let title = percent_decode(title_header);
                self.attachment_path(title.as_str(), ext, secs, existing)
            },
        }
    }
}

// ---------- listing ----------

/// What a list entry shows, as plain values: id, title, preview, modification time.
pub type MetaView = (Seq<char>, Seq<char>, Seq<char>, u64);

pub open spec fn meta_view(m: NoteMeta) -> MetaView {
    (m.id@, m.title@, m.preview@, m.modified)
}

/// The list entry of a note.
pub open spec fn meta_of(n: Note) -> MetaView {
    (n.id@, n.title@, preview_spec(n.content@), n.modified)
}

/// List order: newest first, and by title (code-point order) among equally new notes.
pub open spec fn listed_no_later(a: MetaView, b: MetaView) -> bool {
    a.3 > b.3 || (a.3 == b.3 && !lex_lt(b.1, a.1))
}

pub open spec fn list_sorted(s: Seq<MetaView>) -> bool {
    forall|i: int, j: int| 0 <= i < j < s.len() ==> listed_no_later(#[trigger] s[i], #[trigger] s[j])
}

proof fn lemma_listed_total(a: MetaView, b: MetaView)
    ensures
        listed_no_later(a, b) || listed_no_later(b, a),
{
    lemma_lex_total(a.1, b.1);
}

proof fn lemma_listed_transitive(a: MetaView, b: MetaView, c: MetaView)
    requires
        listed_no_later(a, b),
        listed_no_later(b, c),
    ensures
        listed_no_later(a, c),
{
    if a.3 == b.3 && b.3 == c.3 && lex_lt(c.1, a.1) {
        lemma_lex_total(c.1, b.1);
        lemma_lex_total(b.1, a.1);
        if lex_lt(b.1, c.1) {
            lemma_lex_transitive(b.1, c.1, a.1);
        }
    }
}

fn no_later(a: &NoteMeta, b: &NoteMeta) -> (r: bool)
    ensures
        r == listed_no_later(meta_view(*a), meta_view(*b)),
{
    if a.modified != b.modified {
        a.modified > b.modified
    } else {
        let ta = chars_of(a.title.as_str());
        let tb = chars_of(b.title.as_str());
        !lex_less(&tb, &ta)
    }
}

pub open spec fn metas_view(v: Seq<NoteMeta>) -> Seq<MetaView> {
    v.map_values(|m: NoteMeta| meta_view(m))
}

/// Whether `s[b]` is the first entry of `s` that no other entry comes before.
pub open spec fn is_first_listed(s: Seq<MetaView>, b: int) -> bool {
    &&& 0 <= b < s.len()
    &&& forall|j: int| 0 <= j < s.len() ==> listed_no_later(s[b], #[trigger] s[j])
    &&& forall|j: int| 0 <= j < b ==> !listed_no_later(#[trigger] s[j], s[b])
}

proof fn lemma_first_listed_unique(s: Seq<MetaView>, a: int, b: int)
    requires
        is_first_listed(s, a),
        is_first_listed(s, b),
    ensures
        a == b,
{
    if a < b {
        assert(listed_no_later(s[a], s[b]));
    } else if b < a {
        assert(listed_no_later(s[b], s[a]));
    }
}

/// `s` in list order: newest first, by title among equally new entries, and in the order
/// of `s` among entries equal in both.
pub open spec fn listing(s: Seq<MetaView>) -> Seq<MetaView>
    decreases s.len(),
{
    if s.len() == 0 {
        Seq::empty()
    } else {
        let b = choose|b: int| is_first_listed(s, b);
        if 0 <= b < s.len() {
            seq![s[b]] + listing(s.remove(b))
        } else {
            Seq::empty()
        }
    }
}

/// The index of the first entry of `v` that no other entry comes before.
fn first_listed(v: &Vec<NoteMeta>) -> (b: usize)
    requires
        v.len() > 0,
    ensures
        b < v.len(),
        forall|j: int| 0 <= j < v.len() ==> listed_no_later(meta_view(v@[b as int]), #[trigger] meta_view(v@[j])),
        is_first_listed(metas_view(v@), b as int),
{
    let mut b: usize = 0;
    proof {
        lemma_listed_total(meta_view(v@[0]), meta_view(v@[0]));
    }
    for k in 1..v.len()
        invariant
            b < v.len(),
            b < k,
            forall|j: int| 0 <= j < k ==> listed_no_later(meta_view(v@[b as int]), #[trigger] meta_view(v@[j])),
            forall|j: int| 0 <= j < b ==> !listed_no_later(#[trigger] meta_view(v@[j]), meta_view(v@[b as int])),
    {
        if !no_later(&v[b], &v[k]) {
            proof {
                lemma_listed_total(meta_view(v@[b as int]), meta_view(v@[k as int]));
                lemma_listed_total(meta_view(v@[k as int]), meta_view(v@[k as int]));
                assert forall|j: int| 0 <= j < k + 1 implies listed_no_later(
                    meta_view(v@[k as int]),
                    #[trigger] meta_view(v@[j]),
                ) by {
                    if j < k {
                        lemma_listed_transitive(
                            meta_view(v@[k as int]),
                            meta_view(v@[b as int]),
                            meta_view(v@[j]),
                        );
                    }
                };
                assert forall|j: int| 0 <= j < k implies !listed_no_later(
                    #[trigger] meta_view(v@[j]),
                    meta_view(v@[k as int]),
                ) by {
                    if listed_no_later(meta_view(v@[j]), meta_view(v@[k as int])) {
                        lemma_listed_transitive(
                            meta_view(v@[b as int]),
                            meta_view(v@[j]),
                            meta_view(v@[k as int]),
                        );
                    }
                };
            }
            b = k;
        }
    }
    assert forall|j: int| 0 <= j < v.len() implies listed_no_later(
        metas_view(v@)[b as int],
        #[trigger] metas_view(v@)[j],
    ) by {
        assert(listed_no_later(meta_view(v@[b as int]), meta_view(v@[j])));
    };
    assert forall|j: int| 0 <= j < b implies !listed_no_later(
        #[trigger] metas_view(v@)[j],
        metas_view(v@)[b as int],
    ) by {
        assert(!listed_no_later(meta_view(v@[j]), meta_view(v@[b as int])));
    };
    b
}

/// `v` in list order.
fn sort_listed(v: Vec<NoteMeta>) -> (r: Vec<NoteMeta>)
    ensures
        metas_view(r@).to_multiset() == metas_view(v@).to_multiset(),
        list_sorted(metas_view(r@)),
        metas_view(r@) == listing(metas_view(v@)),
{
    broadcast use vstd::seq_lib::group_to_multiset_ensures;

    let ghost all = metas_view(v@);
    let mut pending = v;
    let mut out: Vec<NoteMeta> = Vec::new();
    assert(metas_view(out@).to_multiset() =~= Multiset::<MetaView>::empty());
    assert(metas_view(out@).to_multiset().add(metas_view(pending@).to_multiset()) =~= all.to_multiset());
    assert(metas_view(out@) + listing(metas_view(pending@)) =~= listing(all));
    while pending.len() > 0
        invariant
            metas_view(out@) + listing(metas_view(pending@)) == listing(all),
            metas_view(out@).to_multiset().add(metas_view(pending@).to_multiset()) == all.to_multiset(),
            list_sorted(metas_view(out@)),
            forall|i: int, j: int|
                0 <= i < out@.len() && 0 <= j < pending@.len() ==> listed_no_later(
                    #[trigger] meta_view(out@[i]),
                    #[trigger] meta_view(pending@[j]),
                ),
        decreases pending.len(),
    {
        let b = first_listed(&pending);
        let ghost before_p = pending@;
        let ghost before_o = out@;
        let m = pending.remove(b);
        assert(metas_view(pending@) =~= metas_view(before_p).remove(b as int));
        assert(metas_view(before_p)[b as int] == meta_view(m));
        out.push(m);
        assert(metas_view(out@) =~= metas_view(before_o).push(meta_view(m)));
        proof {
            let pv = metas_view(before_p);
            let c = choose|c: int| is_first_listed(pv, c);
            lemma_first_listed_unique(pv, c, b as int);
            assert(listing(pv) == seq![pv[b as int]] + listing(pv.remove(b as int)));
            assert(metas_view(out@) + listing(metas_view(pending@)) =~= metas_view(before_o) + listing(pv));
        }
        proof {
            let x = meta_view(m);
            let mp = metas_view(before_p).to_multiset();
            let mo = metas_view(before_o).to_multiset();
            vstd::seq_lib::to_multiset_remove(metas_view(before_p), b as int);
            vstd::seq_lib::to_multiset_build(metas_view(before_o), x);
            assert(metas_view(before_p).contains(x)) by {
                assert(metas_view(before_p)[b as int] == x);
            };
            metas_view(before_p).to_multiset_ensures();
            assert(mp.count(x) > 0);
            assert(mo.insert(x).add(mp.remove(x)) =~= mo.add(mp));
        }
        assert forall|i: int, j: int|
            0 <= i < out@.len() && 0 <= j < pending@.len() implies listed_no_later(
            #[trigger] meta_view(out@[i]),
            #[trigger] meta_view(pending@[j]),
        ) by {
            let j2 = if j < b { j } else { j + 1 };
            assert(pending@[j] == before_p[j2]);
            if i < before_o.len() {
                assert(out@[i] == before_o[i]);
            }
        };
        assert forall|i: int, j: int| 0 <= i < j < metas_view(out@).len() implies listed_no_later(
            #[trigger] metas_view(out@)[i],
            #[trigger] metas_view(out@)[j],
        ) by {
            if j == before_o.len() {
                assert(out@[i] == before_o[i]);
                assert(listed_no_later(meta_view(before_o[i]), meta_view(before_p[b as int])));
            } else {
                assert(metas_view(out@)[i] == metas_view(before_o)[i]);
                assert(metas_view(out@)[j] == metas_view(before_o)[j]);
            }
        };
    }
    assert(metas_view(pending@).to_multiset() =~= Multiset::<MetaView>::empty());
    assert(metas_view(out@).to_multiset().add(Multiset::<MetaView>::empty()) =~= metas_view(out@).to_multiset());
    assert(metas_view(out@) =~= metas_view(out@) + listing(metas_view(pending@)));
    out
}

impl Store {
    /// Every note's list entry, newest first and by title among equally new notes.
    pub fn list(&self) -> (r: Vec<NoteMeta>)
        requires
            self.wf(),
        ensures
            metas_view(r@).to_multiset() == self.entries().map_values(|n: Note| meta_of(n)).to_multiset(),
            list_sorted(metas_view(r@)),
            metas_view(r@) == listing(self.entries().map_values(|n: Note| meta_of(n))),
    {
        let mut metas: Vec<NoteMeta> = Vec::new();
        for i in 0..self.notes.len()
            invariant
                metas_view(metas@) == self.entries().take(i as int).map_values(|n: Note| meta_of(n)),
        {
            let n = &self.notes[i];
            let m = NoteMeta {
                id: n.id.clone(),
                title: n.title.clone(),
                preview: preview_of(n.content.as_str()),
                modified: n.modified,
            };
            let ghost before = metas_view(metas@);
            metas.push(m);
            assert(metas_view(metas@) =~= before.push(meta_view(m)));
            assert(self.entries().take(i + 1).map_values(|n: Note| meta_of(n)) =~= self.entries().take(
                i as int,
            ).map_values(|n: Note| meta_of(n)).push(meta_of(self.entries()[i as int])));
        }
        assert(self.entries().take(self.notes.len() as int) =~= self.entries());
        sort_listed(metas)
    }
}

// ---------- files ----------

/// Whether `path` names a note file of the folder `dir`: directly in it, ending in `.md`,
/// and not hidden (its name does not start with a dot).
pub open spec fn note_path_spec(dir: Seq<char>, path: Seq<char>) -> bool {
    &&& match parent_of(path) {
        Some(p) => same_path_spec(p, dir),
        None => false,
    }
    &&& extension_of(path) == Some(seq!['m', 'd'])
    &&& match file_name_of(path) {
        Some(n) => !(n.len() > 0 && n[0] == '.'),
        None => false,
    }
}

/// The note read from the file at `path`: `content` with its modification time, and its
/// creation time where the file system keeps one (else the modification time). None when
/// the path has no file stem to be the note's id.
pub open spec fn note_from_file_spec(
    path: Seq<char>,
    content: Seq<char>,
    modified: u64,
    created: Option<u64>,
    n: Note,
) -> bool {
    &&& file_stem_of(path) == Some(n.id@)
    &&& n.content@ == content
    &&& n.title@ == title_spec(content)
    &&& n.modified == modified
    &&& n.created == match created {
        Some(c) => c,
        None => modified,
    }
}

/// The note read from the file at `path` (see `note_from_file_spec`).
pub fn note_from_file(path: &str, content: String, modified: u64, created: Option<u64>) -> (r:
    Option<Note>)
    ensures
        match r {
            Some(n) => note_from_file_spec(path@, content@, modified, created, n),
            None => file_stem_of(path@) is None,
        },
{
    let id = match file_stem(path) {
        Some(id) => id,
        None => {
            return None;
        },
    };
    let created = match created {
        Some(c) => c,
        None => modified,
    };
    Some(Note::from_file(id, content, modified, created))
}

/// Whether `id` can name a note file of its own: not empty, without `/`, and not starting
/// with `.` (a hidden file).
pub open spec fn plain_id(id: Seq<char>) -> bool {
    &&& id.len() > 0
    &&& id[0] != '.'
    &&& forall|i: int| 0 <= i < id.len() ==> id[i] != '/'
}

proof fn lemma_note_file_name(id: Seq<char>)
    requires
        plain_id(id),
    ensures
        plain_name(id + md_suffix()),
        last_dot(id + md_suffix()) == id.len(),
{
    let n = id + md_suffix();
    assert(n.drop_last() =~= id + seq!['.', 'm']);
    assert(n.drop_last().drop_last() =~= id + seq!['.']);
    assert(last_dot(id + seq!['.']) == id.len());
    assert(last_dot(id + seq!['.', 'm']) == id.len());
    assert(n.len() >= 4);
    assert(n != seq!['.']);
    assert(n != seq!['.', '.']);
    assert forall|i: int| 0 <= i < n.len() implies n[i] != '/' by {
        if i < id.len() {
            assert(n[i] == id[i]);
        }
    };
}

impl Store {
    /// The file of the note `id`: `<dir>/<id>.md`.
    pub fn path_of(&self, id: &str) -> (r: String)
        ensures
            r@ == join_spec(self.folder()@, id@ + md_suffix()),
    {
        let mut name = chars_of(id);
        name.push('.');
        name.push('m');
        name.push('d');
        assert(name@ =~= id@ + md_suffix());
        let name = string_of(&name);
        join(self.dir.as_str(), name.as_str())
    }

    /// Whether `path` is a note file of this folder (see `note_path_spec`).
    pub fn is_note_path(&self, path: &str) -> (r: bool)
        ensures
            r == note_path_spec(self.folder()@, path@),
            forall|id: Seq<char>|
                plain_id(id) && path@ == #[trigger] join_spec(self.folder()@, id + md_suffix()) ==> r
                    && file_name_of(path@) == Some(id + md_suffix()),
    {
        let pr = parent(path);
        let er = extension(path);
        let nr = file_name(path);
        let in_dir = match &pr {
            Some(p) => same_path(p.as_str(), self.dir.as_str()),
            None => false,
        };
        let md = match &er {
            Some(e) => {
                let ec = chars_of(e.as_str());
                let want = vec!['m', 'd'];
                assert(want@ =~= seq!['m', 'd']);
                same_chars(&ec, &want)
            },
            None => false,
        };
        let shown = match &nr {
            Some(n) => {
                let nc = chars_of(n.as_str());
                !(nc.len() > 0 && nc[0] == '.')
            },
            None => false,
        };
        proof {
            assert forall|id: Seq<char>|
                plain_id(id) && path@ == #[trigger] join_spec(self.folder()@, id + md_suffix()) implies
                in_dir && md && shown && file_name_of(path@) == Some(id + md_suffix()) by {
                let n = id + md_suffix();
                lemma_note_file_name(id);
                assert(join_spec(self.folder()@, n) == path@);
                assert(nr is Some);
                assert(pr is Some);
                assert(n.skip(id.len() as int + 1) =~= seq!['m', 'd']);
                assert(n[0] == id[0]);
            };
        }
        in_dir && md && shown
    }

    /// Takes in an outside change to the file at `path`: a note file that could be read
    /// (`read` holds its content and times) is indexed afresh under its id, one that could
    /// not is dropped. Returns the id touched; None for a path that is no note file.
    pub fn reload_one(&mut self, path: &str, read: Option<(String, u64, Option<u64>)>) -> (r:
        Option<String>)
        requires
            old(self).wf(),
        ensures
            final(self).wf(),
            final(self).folder() == old(self).folder(),
            !note_path_spec(old(self).folder()@, path@) || file_stem_of(path@) is None ==> r is None
                && final(self)@ == old(self)@,
            note_path_spec(old(self).folder()@, path@) && file_stem_of(path@) is Some ==> {
                &&& r matches Some(id) && file_stem_of(path@) == Some(id@)
                &&& match read {
                    Some(f) => exists|n: Note|
                        note_from_file_spec(path@, f.0@, f.1, f.2, n) && final(self)@ == old(
                            self,
                        )@.insert(n.id@, n),
                    None => final(self)@ == old(self)@.remove(file_stem_of(path@).unwrap()),
                }
            },
            forall|id: Seq<char>|
                plain_id(id) && path@ == #[trigger] join_spec(old(self).folder()@, id + md_suffix())
                    ==> (r matches Some(x) && x@ == id),
    {
        if !self.is_note_path(path) {
            return None;
        }
        let stem = file_stem(path);
        proof {
            assert forall|id: Seq<char>|
                plain_id(id) && path@ == #[trigger] join_spec(self.folder()@, id + md_suffix()) implies
                (stem matches Some(x) && x@ == id) by {
                lemma_note_file_name(id);
                assert((id + md_suffix()).take(id.len() as int) =~= id);
            };
        }
        let id = match stem {
            Some(id) => id,
            None => {
                return None;
            },
        };
        match read {
            Some((content, modified, created)) => {
                let created = match created {
                    Some(c) => c,
                    None => modified,
                };
                let note = Note::from_file(id.clone(), content, modified, created);
                let ghost n = note;
                assert(note_from_file_spec(path@, read.unwrap().0@, read.unwrap().1, read.unwrap().2, n));
                self.insert(note);
                assert(self@ == old(self)@.insert(n.id@, n));
            },
            None => {
                self.remove(id.as_str());
            },
        }
        Some(id)
    }
}

impl Store {
    /// Whether the note `id` is blank (see `blank_spec`) and can be dropped outright: it is
    /// indexed and has neither title nor body.
    pub fn discardable(&self, id: &str) -> (r: bool)
        requires
            self.wf(),
        ensures
            r == (self@.contains_key(id@) && blank_spec(self@[id@].content@)),
    {
        match self.get(id) {
            Some(n) => is_blank(n.content.as_str()),
            None => false,
        }
    }

    /// The note `id`, for a delete that can be undone; refused when no note has that id.
    pub fn note_for_delete(&self, id: &str) -> (r: Result<Note, String>)
        requires
            self.wf(),
        ensures
            match r {
                Ok(n) => self@.contains_key(id@) && n == self@[id@],
                Err(e) => !self@.contains_key(id@) && e@ == "no note "@ + id@,
            },
    {
        match self.get(id) {
            Some(n) => Ok(n),
            None => Err(string_of(&concat_chars(&chars_of("no note "), &chars_of(id)))),
        }
    }
}

} // verus!
