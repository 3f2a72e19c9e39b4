//! Text plumbing shared by the note store: conversion between strings and
//! char vectors, the Unicode character classes that std decides, and the
//! trimming and line splitting that the note rules are written in.

use vstd::prelude::*;

verus! {

broadcast use vstd::string::group_string_axioms;

// ---------- character classes ----------

/// The Unicode `White_Space` property, which `char::is_whitespace` tests.
pub open spec fn is_ws(c: char) -> bool {
    let u = c as u32;
    ||| 0x09 <= u <= 0x0d
    ||| u == 0x20
    ||| u == 0x85
    ||| u == 0xa0
    ||| u == 0x1680
    ||| 0x2000 <= u <= 0x200a
    ||| u == 0x2028
    ||| u == 0x2029
    ||| u == 0x202f
    ||| u == 0x205f
    ||| u == 0x3000
}

pub open spec fn is_ascii_char(c: char) -> bool {
    (c as u32) < 0x80
}

pub open spec fn is_ascii_digit(c: char) -> bool {
    0x30 <= (c as u32) <= 0x39
}

pub open spec fn is_ascii_alnum(c: char) -> bool {
    let u = c as u32;
    ||| 0x30 <= u <= 0x39
    ||| 0x41 <= u <= 0x5a
    ||| 0x61 <= u <= 0x7a
}

/// `char::to_ascii_lowercase`.
pub open spec fn ascii_lower(c: char) -> char {
    if 0x41 <= (c as u32) <= 0x5a {
        ((c as u32) + 32) as char
    } else {
        c
    }
}

/// Whether std counts `c` as alphanumeric (Unicode `Alphabetic` or `Numeric`).
pub uninterp spec fn unicode_alphanumeric(c: char) -> bool;

/// The chars of Unicode's lowercase mapping of `c`.
pub uninterp spec fn char_lowercase(c: char) -> Seq<char>;

/// Unicode's lowercase mapping of a whole string, as `str::to_lowercase` gives it.
pub uninterp spec fn str_lowercase(s: Seq<char>) -> Seq<char>;

/// Whether `c` has the Unicode `White_Space` property, as `char::is_whitespace` tests it.
pub fn is_whitespace(c: char) -> (r: bool)
    ensures
        r == is_ws(c),
{
    let u = c as u32;
    (0x09 <= u && u <= 0x0d) || u == 0x20 || u == 0x85 || u == 0xa0 || u == 0x1680 || (0x2000 <= u
        && u <= 0x200a) || u == 0x2028 || u == 0x2029 || u == 0x202f || u == 0x205f || u == 0x3000
}

/// `char::is_alphanumeric`. Its result is named; for an ASCII char it is the ASCII test.
#[verifier::external_body]
pub(crate) fn is_alphanumeric(c: char) -> (r: bool)
    ensures
        r == unicode_alphanumeric(c),
        is_ascii_char(c) ==> r == is_ascii_alnum(c),
{
    c.is_alphanumeric()
}

/// `char::to_lowercase`, collected. Its result is named; for an ASCII char it is the one
/// char `to_ascii_lowercase` gives.
#[verifier::external_body]
pub(crate) fn char_to_lowercase(c: char) -> (r: Vec<char>)
    ensures
        r@ == char_lowercase(c),
        is_ascii_char(c) ==> r@ == seq![ascii_lower(c)],
{
    c.to_lowercase().collect()
}

/// `str::to_lowercase`. Its result is named; an ASCII string is lowercased char by char, and
/// a non-empty string stays non-empty (every char has a lowercase mapping of one or more chars).
#[verifier::external_body]
pub(crate) fn to_lowercase(s: &str) -> (r: String)
    ensures
        r@ == str_lowercase(s@),
        s@.len() > 0 ==> r@.len() > 0,
        (forall|i: int| 0 <= i < s@.len() ==> is_ascii_char(#[trigger] s@[i])) ==> r@
            == s@.map_values(|c: char| ascii_lower(c)),
{
    s.to_lowercase()
}

// ---------- strings and char vectors ----------

/// The chars of `s`, in order.
pub fn chars_of(s: &str) -> (v: Vec<char>)
    ensures
        v@ == s@,
{
    let mut v: Vec<char> = Vec::new();
    for c in it: s.chars()
        invariant
            v@ == it.seq().take(it.index() as int),
            it.seq() == s@,
    {
        v.push(c);
    }
    v
}

/// `String::push` appends one char.
#[verifier::external_body]
pub(crate) fn push_char(s: &mut String, c: char)
    ensures
        final(s)@ == old(s)@.push(c),
{
    s.push(c);
}

/// A string holding the chars of `v`.
pub fn string_of(v: &Vec<char>) -> (s: String)
    ensures
        s@ == v@,
{
    let mut s = String::new();
    for i in 0..v.len()
        invariant
            s@ == v@.take(i as int),
    {
        push_char(&mut s, v[i]);
        assert(v@.take(i + 1) =~= v@.take(i as int).push(v@[i as int]));
    }
    assert(v@.take(v.len() as int) =~= v@);
    s
}

/// The chars `v[from..to]`.
pub fn slice_chars(v: &Vec<char>, from: usize, to: usize) -> (r: Vec<char>)
    requires
        from <= to <= v.len(),
    ensures
        r@ == v@.subrange(from as int, to as int),
{
    let mut r: Vec<char> = Vec::new();
    let mut i = from;
    while i < to
        invariant
            from <= i <= to <= v.len(),
            r@ == v@.subrange(from as int, i as int),
        decreases to - i,
    {
        r.push(v[i]);
        assert(v@.subrange(from as int, i + 1) =~= v@.subrange(from as int, i as int).push(
            v@[i as int],
        ));
        i += 1;
    }
    r
}

/// `v` followed by `w`.
pub fn concat_chars(v: &Vec<char>, w: &Vec<char>) -> (r: Vec<char>)
    ensures
        r@ == v@ + w@,
{
    let mut r = slice_chars(v, 0, v.len());
    for i in 0..w.len()
        invariant
            r@ == v@ + w@.take(i as int),
    {
        r.push(w[i]);
        assert(w@.take(i + 1) =~= w@.take(i as int).push(w@[i as int]));
    }
    assert(v@.subrange(0, v.len() as int) =~= v@);
    assert(w@.take(w.len() as int) =~= w@);
    r
}

/// Whether `a` and `b` hold the same chars.
pub fn same_chars(a: &Vec<char>, b: &Vec<char>) -> (r: bool)
    ensures
        r == (a@ == b@),
{
    if a.len() != b.len() {
        return false;
    }
    for i in 0..a.len()
        invariant
            a.len() == b.len(),
            forall|j: int| 0 <= j < i ==> a@[j] == b@[j],
    {
        if a[i] != b[i] {
            return false;
        }
    }
    assert(a@ =~= b@);
    true
}

/// Whether `s` begins with `prefix`.
pub open spec fn has_prefix(s: Seq<char>, prefix: Seq<char>) -> bool {
    prefix.len() <= s.len() && s.take(prefix.len() as int) == prefix
}

pub fn starts_with(v: &Vec<char>, prefix: &Vec<char>) -> (r: bool)
    ensures
        r == has_prefix(v@, prefix@),
{
    if prefix.len() > v.len() {
        return false;
    }
    for i in 0..prefix.len()
        invariant
            prefix.len() <= v.len(),
            forall|j: int| 0 <= j < i ==> v@[j] == prefix@[j],
    {
        if v[i] != prefix[i] {
            return false;
        }
    }
    assert(v@.take(prefix.len() as int) =~= prefix@);
    true
}

// ---------- trimming ----------

/// The sets of chars that the note rules strip from the ends of a line.
#[derive(Clone, Copy, Debug, PartialEq, Eq, Structural)]
pub enum CharSet {
    Newline,
    Whitespace,
    Hash,
    HashOrWhitespace,
    Dash,
    Slash,
    /// Markdown markers ahead of a preview: `#`, `-`, `*`, `>`, `[`, `]`, `x` and space.
    PreviewMarks,
    /// Markdown markers ahead of a snippet: `#`, `-`, `*`, `>` and space.
    SnippetMarks,
}

pub open spec fn in_set(set: CharSet, c: char) -> bool {
    match set {
        CharSet::Newline => c == '\n',
        CharSet::Whitespace => is_ws(c),
        CharSet::Hash => c == '#',
        CharSet::HashOrWhitespace => c == '#' || is_ws(c),
        CharSet::Dash => c == '-',
        CharSet::Slash => c == '/',
        CharSet::PreviewMarks => c == '#' || c == '-' || c == '*' || c == '>' || c == '['
            || c == ']' || c == 'x' || c == ' ',
        CharSet::SnippetMarks => c == '#' || c == '-' || c == '*' || c == '>' || c == ' ',
    }
}

pub fn member(set: CharSet, c: char) -> (r: bool)
    ensures
        r == in_set(set, c),
{
    match set {
        CharSet::Newline => c == '\n',
        CharSet::Whitespace => is_whitespace(c),
        CharSet::Hash => c == '#',
        CharSet::HashOrWhitespace => c == '#' || is_whitespace(c),
        CharSet::Dash => c == '-',
        CharSet::Slash => c == '/',
        CharSet::PreviewMarks => c == '#' || c == '-' || c == '*' || c == '>' || c == '[' || c
            == ']' || c == 'x' || c == ' ',
        CharSet::SnippetMarks => c == '#' || c == '-' || c == '*' || c == '>' || c == ' ',
    }
}

/// `s` with every leading char of `set` removed (`trim_start_matches`).
pub open spec fn strip_start(s: Seq<char>, set: CharSet) -> Seq<char>
    decreases s.len(),
{
    if s.len() > 0 && in_set(set, s[0]) {
        strip_start(s.drop_first(), set)
    } else {
        s
    }
}

/// `s` with every trailing char of `set` removed (`trim_end_matches`).
pub open spec fn strip_end(s: Seq<char>, set: CharSet) -> Seq<char>
    decreases s.len(),
{
    if s.len() > 0 && in_set(set, s.last()) {
        strip_end(s.drop_last(), set)
    } else {
        s
    }
}

/// `str::trim`: leading and trailing whitespace removed.
pub open spec fn trim(s: Seq<char>) -> Seq<char> {
    strip_end(strip_start(s, CharSet::Whitespace), CharSet::Whitespace)
}

pub proof fn lemma_strip_start_at(s: Seq<char>, set: CharSet, k: int)
    requires
        0 <= k <= s.len(),
        forall|j: int| 0 <= j < k ==> in_set(set, #[trigger] s[j]),
        k == s.len() || !in_set(set, s[k]),
    ensures
        strip_start(s, set) == s.skip(k),
    decreases k,
{
    if k == 0 {
        assert(s.skip(0) =~= s);
    } else {
        assert(in_set(set, s[0]));
        lemma_strip_start_at(s.drop_first(), set, k - 1);
        assert(s.drop_first().skip(k - 1) =~= s.skip(k));
    }
}

pub proof fn lemma_strip_end_at(s: Seq<char>, set: CharSet, k: int)
    requires
        0 <= k <= s.len(),
        forall|j: int| k <= j < s.len() ==> in_set(set, #[trigger] s[j]),
        k == 0 || !in_set(set, s[k - 1]),
    ensures
        strip_end(s, set) == s.take(k),
    decreases s.len() - k,
{
    if k == s.len() {
        assert(s.take(k) =~= s);
    } else {
        assert(in_set(set, s[s.len() - 1]));
        lemma_strip_end_at(s.drop_last(), set, k);
        assert(s.drop_last().take(k) =~= s.take(k));
    }
}

/// The index of the first char of `v[from..to]` outside `set`, or `to`.
pub fn skip_set(v: &Vec<char>, from: usize, to: usize, set: CharSet) -> (k: usize)
    requires
        from <= to <= v.len(),
    ensures
        from <= k <= to,
        forall|j: int| from <= j < k ==> in_set(set, #[trigger] v@[j]),
        k == to || !in_set(set, v@[k as int]),
{
    let mut k = from;
    while k < to && member(set, v[k])
        invariant
            from <= k <= to <= v.len(),
            forall|j: int| from <= j < k ==> in_set(set, #[trigger] v@[j]),
        decreases to - k,
    {
        k += 1;
    }
    k
}

/// The index just past the last char of `v[from..to]` outside `set`, or `from`.
pub fn skip_set_back(v: &Vec<char>, from: usize, to: usize, set: CharSet) -> (k: usize)
    requires
        from <= to <= v.len(),
    ensures
        from <= k <= to,
        forall|j: int| k <= j < to ==> in_set(set, #[trigger] v@[j]),
        k == from || !in_set(set, v@[k - 1]),
{
    let mut k = to;
    while k > from && member(set, v[k - 1])
        invariant
            from <= k <= to <= v.len(),
            forall|j: int| k <= j < to ==> in_set(set, #[trigger] v@[j]),
        decreases k - from,
    {
        k -= 1;
    }
    k
}

/// `trim_start_matches` with a set of chars.
pub fn strip_start_chars(v: &Vec<char>, set: CharSet) -> (r: Vec<char>)
    ensures
        r@ == strip_start(v@, set),
        r@.len() <= v@.len(),
        r@ == v@.skip(v@.len() - r@.len()),
        r@.len() > 0 ==> !in_set(set, r@[0]),
{
    let k = skip_set(v, 0, v.len(), set);
    proof {
        lemma_strip_start_at(v@, set, k as int);
    }
    slice_chars(v, k, v.len())
}

/// `trim_end_matches` with a set of chars.
pub fn strip_end_chars(v: &Vec<char>, set: CharSet) -> (r: Vec<char>)
    ensures
        r@ == strip_end(v@, set),
        r@.len() <= v@.len(),
        r@ == v@.take(r@.len() as int),
        r@.len() > 0 ==> !in_set(set, r@.last()),
{
    let k = skip_set_back(v, 0, v.len(), set);
    proof {
        lemma_strip_end_at(v@, set, k as int);
    }
    slice_chars(v, 0, k)
}

/// `str::trim` on chars.
pub fn trim_chars(v: &Vec<char>) -> (r: Vec<char>)
    ensures
        r@ == trim(v@),
        r@.len() > 0 ==> !is_ws(r@[0]) && !is_ws(r@.last()),
{
    let s = strip_start_chars(v, CharSet::Whitespace);
    let r = strip_end_chars(&s, CharSet::Whitespace);
    if r.len() > 0 {
        assert(r@[0] == s@[0]);
    }
    r
}

// ---------- lines ----------

/// The pieces of `s` between chars of `set`: one more piece than `s` has such chars.
pub open spec fn split_on(s: Seq<char>, set: CharSet) -> Seq<Seq<char>>
    decreases s.len(),
{
    if s.len() == 0 {
        seq![Seq::empty()]
    } else {
        let r = split_on(s.drop_last(), set);
        if in_set(set, s.last()) {
            r.push(Seq::empty())
        } else {
            r.update(r.len() - 1, r.last().push(s.last()))
        }
    }
}

/// The lines of `s` as `str::lines` yields them: split at each newline, with an empty piece
/// after a final newline (or of an empty `s`) dropped. `str::lines` also drops a carriage
/// return ahead of each newline; every rule below trims a line first, which removes it too.
pub open spec fn lines(s: Seq<char>) -> Seq<Seq<char>> {
    let p = split_on(s, CharSet::Newline);
    if p.last().len() == 0 {
        p.drop_last()
    } else {
        p
    }
}

/// The pieces of `ps` that are not empty, in order.
pub open spec fn nonempty_pieces(ps: Seq<Seq<char>>) -> Seq<Seq<char>>
    decreases ps.len(),
{
    if ps.len() == 0 {
        Seq::empty()
    } else {
        let r = nonempty_pieces(ps.drop_last());
        if ps.last().len() > 0 {
            r.push(ps.last())
        } else {
            r
        }
    }
}

/// The words of `s` as `str::split_whitespace` yields them: the non-empty pieces between
/// whitespace.
pub open spec fn words(s: Seq<char>) -> Seq<Seq<char>> {
    nonempty_pieces(split_on(s, CharSet::Whitespace))
}

pub proof fn lemma_split_on_len(s: Seq<char>, set: CharSet)
    ensures
        split_on(s, set).len() >= 1,
    decreases s.len(),
{
    if s.len() > 0 {
        lemma_split_on_len(s.drop_last(), set);
    }
}

pub open spec fn views_of(v: Seq<Vec<char>>) -> Seq<Seq<char>> {
    v.map_values(|l: Vec<char>| l@)
}

/// The pieces of `v` between chars of `set` (see `split_on`).
pub fn split_chars(v: &Vec<char>, set: CharSet) -> (r: Vec<Vec<char>>)
    ensures
        views_of(r@) == split_on(v@, set),
{
    let mut done: Vec<Vec<char>> = Vec::new();
    let mut cur: Vec<char> = Vec::new();
    assert(v@.take(0) =~= Seq::<char>::empty());
    assert(views_of(done@).push(cur@) =~= split_on(v@.take(0), set));
    for i in 0..v.len()
        invariant
            views_of(done@).push(cur@) == split_on(v@.take(i as int), set),
    {
        let ghost before = v@.take(i as int);
        proof {
            lemma_split_on_len(before, set);
        }
        assert(v@.take(i + 1).drop_last() =~= before);
        let c = v[i];
        if member(set, c) {
            let finished = cur;
            cur = Vec::new();
            done.push(finished);
            assert(views_of(done@).push(cur@) =~= split_on(before, set).push(Seq::empty()));
        } else {
            cur.push(c);
            assert(views_of(done@).push(cur@) =~= split_on(before, set).update(
                split_on(before, set).len() - 1,
                split_on(before, set).last().push(c),
            ));
        }
    }
    assert(v@.take(v.len() as int) =~= v@);
    done.push(cur);
    done
}

/// The lines of `v`, as `str::lines` yields them (see `lines`).
pub fn lines_of(v: &Vec<char>) -> (r: Vec<Vec<char>>)
    ensures
        views_of(r@) == lines(v@),
{
    let mut ps = split_chars(v, CharSet::Newline);
    proof {
        lemma_split_on_len(v@, CharSet::Newline);
    }
    let last = ps.len() - 1;
    if ps[last].len() == 0 {
        ps.pop();
        assert(views_of(ps@) =~= split_on(v@, CharSet::Newline).drop_last());
    }
    ps
}

/// The words of `v` (see `words`).
pub fn words_of(v: &Vec<char>) -> (r: Vec<Vec<char>>)
    ensures
        views_of(r@) == words(v@),
{
    let ps = split_chars(v, CharSet::Whitespace);
    let ghost pv = views_of(ps@);
    let mut r: Vec<Vec<char>> = Vec::new();
    for i in 0..ps.len()
        invariant
            pv == views_of(ps@),
            views_of(r@) == nonempty_pieces(pv.take(i as int)),
    {
        assert(pv.take(i + 1).drop_last() =~= pv.take(i as int));
        assert(pv.take(i + 1).last() == ps@[i as int]@);
        if ps[i].len() > 0 {
            let ghost before = views_of(r@);
            r.push(slice_chars(&ps[i], 0, ps[i].len()));
            assert(ps@[i as int]@.subrange(0, ps@[i as int]@.len() as int) =~= ps@[i as int]@);
            assert(views_of(r@) =~= before.push(ps@[i as int]@));
        }
    }
    assert(pv.take(ps.len() as int) =~= pv);
    r
}

// ---------- decimal numbers ----------

/// The ASCII digit for `d < 10`.
pub open spec fn digit_char(d: nat) -> char {
    if d == 0 {
        '0'
    } else if d == 1 {
        '1'
    } else if d == 2 {
        '2'
    } else if d == 3 {
        '3'
    } else if d == 4 {
        '4'
    } else if d == 5 {
        '5'
    } else if d == 6 {
        '6'
    } else if d == 7 {
        '7'
    } else if d == 8 {
        '8'
    } else {
        '9'
    }
}

/// `n` written in decimal, as `Display` writes an unsigned integer.
pub open spec fn decimal(n: nat) -> Seq<char>
    decreases n,
{
    if n < 10 {
        seq![digit_char(n)]
    } else {
        decimal(n / 10).push(digit_char(n % 10))
    }
}

/// `n` written in decimal, as `Display` writes a signed integer.
pub open spec fn signed_decimal(n: int) -> Seq<char> {
    if n < 0 {
        seq!['-'] + decimal((-n) as nat)
    } else {
        decimal(n as nat)
    }
}

pub proof fn lemma_decimal_len(n: nat)
    ensures
        decimal(n).len() >= 1,
        n >= 10 ==> decimal(n).len() >= 2,
        decimal(n).last() == digit_char(n % 10),
    decreases n,
{
    if n >= 10 {
        lemma_decimal_len(n / 10);
    }
}

/// Different numbers are written differently.
pub proof fn lemma_decimal_injective(a: nat, b: nat)
    requires
        decimal(a) == decimal(b),
    ensures
        a == b,
    decreases a,
{
    lemma_decimal_len(a);
    lemma_decimal_len(b);
    assert(digit_char(a % 10) == digit_char(b % 10));
    assert(a % 10 == b % 10);
    if a >= 10 && b >= 10 {
        assert(decimal(a / 10) =~= decimal(a).drop_last());
        assert(decimal(b / 10) =~= decimal(b).drop_last());
        lemma_decimal_injective(a / 10, b / 10);
    }
}

fn digit(d: u64) -> (c: char)
    requires
        d < 10,
    ensures
        c == digit_char(d as nat),
{
    if d == 0 {
        '0'
    } else if d == 1 {
        '1'
    } else if d == 2 {
        '2'
    } else if d == 3 {
        '3'
    } else if d == 4 {
        '4'
    } else if d == 5 {
        '5'
    } else if d == 6 {
        '6'
    } else if d == 7 {
        '7'
    } else if d == 8 {
        '8'
    } else {
        '9'
    }
}

/// Appends `n` in decimal.
pub fn push_decimal(out: &mut Vec<char>, n: u64)
    ensures
        final(out)@ == old(out)@ + decimal(n as nat),
    decreases n,
{
    if n >= 10 {
        push_decimal(out, n / 10);
    }
    out.push(digit(n % 10));
    assert(old(out)@ + decimal(n as nat) =~= if n >= 10 {
        (old(out)@ + decimal((n / 10) as nat)).push(digit_char((n % 10) as nat))
    } else {
        old(out)@.push(digit_char((n % 10) as nat))
    });
}

/// Appends `n` in decimal, with a minus sign when negative.
pub fn push_signed(out: &mut Vec<char>, n: i64)
    ensures
        final(out)@ == old(out)@ + signed_decimal(n as int),
{
    if n < 0 {
        out.push('-');
        let magnitude: u64 = if n == i64::MIN {
            9223372036854775808u64
        } else {
            (-n) as u64
        };
        push_decimal(out, magnitude);
        assert(old(out)@ + signed_decimal(n as int) =~= old(out)@.push('-') + decimal(
            magnitude as nat,
        ));
    } else {
        push_decimal(out, n as u64);
    }
}

// ---------- order ----------

/// Lexicographic order of char sequences by code point, which is the order `String`'s
/// `Ord` gives (UTF-8 keeps the order of code points).
pub open spec fn lex_lt(a: Seq<char>, b: Seq<char>) -> bool
    decreases a.len(),
{
    if a.len() == 0 {
        b.len() > 0
    } else if b.len() == 0 {
        false
    } else if (a[0] as u32) < (b[0] as u32) {
        true
    } else if a[0] == b[0] {
        lex_lt(a.drop_first(), b.drop_first())
    } else {
        false
    }
}

pub proof fn lemma_lex_transitive(a: Seq<char>, b: Seq<char>, c: Seq<char>)
    requires
        lex_lt(a, b),
        lex_lt(b, c),
    ensures
        lex_lt(a, c),
    decreases a.len(),
{
    if a.len() > 0 && b.len() > 0 && c.len() > 0 && a[0] == b[0] && b[0] == c[0] {
        lemma_lex_transitive(a.drop_first(), b.drop_first(), c.drop_first());
    }
}

pub proof fn lemma_lex_irreflexive(a: Seq<char>)
    ensures
        !lex_lt(a, a),
    decreases a.len(),
{
    if a.len() > 0 {
        lemma_lex_irreflexive(a.drop_first());
    }
}

pub proof fn lemma_lex_total(a: Seq<char>, b: Seq<char>)
    ensures
        a == b || lex_lt(a, b) || lex_lt(b, a),
        !(lex_lt(a, b) && lex_lt(b, a)),
    decreases a.len(),
{
    if a.len() > 0 && b.len() > 0 {
        lemma_lex_total(a.drop_first(), b.drop_first());
        if (a[0] as u32) == (b[0] as u32) {
            vstd::utf8::char_u32_cast(a[0], a[0] as u32);
            vstd::utf8::char_u32_cast(b[0], b[0] as u32);
        }
        if a[0] == b[0] && a.drop_first() == b.drop_first() {
            assert forall|i: int| 0 <= i < a.len() implies a[i] == b[i] by {
                if i > 0 {
                    assert(a[i] == a.drop_first()[i - 1]);
                    assert(b[i] == b.drop_first()[i - 1]);
                }
            };
            assert(a =~= b);
        }
    } else if a.len() == 0 && b.len() == 0 {
        assert(a =~= b);
    }
}

/// Whether `a` comes strictly before `b` in code-point order.
pub fn lex_less(a: &Vec<char>, b: &Vec<char>) -> (r: bool)
    ensures
        r == lex_lt(a@, b@),
{
    let mut i: usize = 0;
    assert(a@.skip(0) =~= a@ && b@.skip(0) =~= b@);
    while i < a.len() && i < b.len()
        invariant
            i <= a.len(),
            i <= b.len(),
            lex_lt(a@, b@) == lex_lt(a@.skip(i as int), b@.skip(i as int)),
        decreases a.len() - i,
    {
        let x = a[i];
        let y = b[i];
        assert(a@.skip(i as int)[0] == x && b@.skip(i as int)[0] == y);
        if (x as u32) < (y as u32) {
            return true;
        }
        if x != y {
            return false;
        }
        assert(a@.skip(i as int).drop_first() =~= a@.skip(i + 1));
        assert(b@.skip(i as int).drop_first() =~= b@.skip(i + 1));
        i += 1;
    }
    i < b.len()
}

// ---------- exact lines ----------

/// A line with one trailing carriage return removed.
pub open spec fn strip_cr(l: Seq<char>) -> Seq<char> {
    if l.len() > 0 && l.last() == '\r' {
        l.drop_last()
    } else {
        l
    }
}

/// The lines of `s` exactly as `str::lines` yields them: as `lines`, with the carriage
/// return dropped from the end of each line that a newline ends.
pub open spec fn str_lines(s: Seq<char>) -> Seq<Seq<char>> {
    let p = lines(s);
    Seq::new(
        p.len(),
        |i: int|
            if i < p.len() - 1 || (s.len() > 0 && s.last() == '\n') {
                strip_cr(p[i])
            } else {
                p[i]
            },
    )
}

pub fn str_lines_of(v: &Vec<char>) -> (r: Vec<Vec<char>>)
    ensures
        views_of(r@) == str_lines(v@),
{
    let ls = lines_of(v);
    let ends_nl = v.len() > 0 && v[v.len() - 1] == '\n';
    let mut r: Vec<Vec<char>> = Vec::new();
    for i in 0..ls.len()
        invariant
            ends_nl == (v@.len() > 0 && v@.last() == '\n'),
            views_of(ls@) == lines(v@),
            views_of(r@) == str_lines(v@).take(i as int),
    {
        assert(views_of(ls@)[i as int] == ls@[i as int]@);
        let l = &ls[i];
        let line = if (i + 1 < ls.len() || ends_nl) && l.len() > 0 && l[l.len() - 1] == '\r' {
            slice_chars(l, 0, l.len() - 1)
        } else {
            slice_chars(l, 0, l.len())
        };
        assert(l@.subrange(0, l@.len() as int) =~= l@);
        assert(l@.len() > 0 ==> l@.subrange(0, l@.len() - 1) =~= l@.drop_last());
        let ghost before = views_of(r@);
        r.push(line);
        assert(views_of(r@) =~= before.push(line@));
        assert(str_lines(v@).take(i + 1) =~= str_lines(v@).take(i as int).push(str_lines(v@)[i as int]));
    }
    assert(str_lines(v@).take(ls.len() as int) =~= str_lines(v@));
    r
}

} // verus!
