//! Character and string primitives shared by the rest of the library.
//!
//! Text is modelled as `Seq<char>` (the view of `str` and `String`); the
//! executable helpers work on `Vec<char>` so that indexing is constant time,
//! and convert at the edges with [`chars_of`] and [`string_of`].
use vstd::prelude::*;
use vstd::utf8::{char_is_scalar, encode_scalar, encode_utf8, has_width_1_encoding};
use vstd::relations::*;

verus! {

// ---------------------------------------------------------------------------
// Character classes
// ---------------------------------------------------------------------------

/// Unicode `White_Space`, the set that `char::is_whitespace` and `str::trim` use.
pub open spec fn is_ws(c: char) -> bool {
    ('\u{9}' <= c && c <= '\u{d}') || c == ' ' || c == '\u{85}' || c == '\u{a0}'
        || c == '\u{1680}' || ('\u{2000}' <= c && c <= '\u{200a}') || c == '\u{2028}'
        || c == '\u{2029}' || c == '\u{202f}' || c == '\u{205f}' || c == '\u{3000}'
}

pub open spec fn is_digit(c: char) -> bool {
    '0' <= c && c <= '9'
}

pub open spec fn is_upper(c: char) -> bool {
    'A' <= c && c <= 'Z'
}

pub open spec fn is_lower(c: char) -> bool {
    'a' <= c && c <= 'z'
}

pub open spec fn is_alpha(c: char) -> bool {
    is_upper(c) || is_lower(c)
}

pub open spec fn is_alnum(c: char) -> bool {
    is_alpha(c) || is_digit(c)
}

/// `char::to_ascii_lowercase`.
pub open spec fn lower(c: char) -> char {
    if is_upper(c) {
        ((c as u32) + 32) as char
    } else {
        c
    }
}

/// `str::to_ascii_lowercase`.
pub open spec fn lower_seq(s: Seq<char>) -> Seq<char> {
    s.map_values(|c: char| lower(c))
}

pub fn char_is_ws(c: char) -> (r: bool)
    ensures
        r == is_ws(c),
{
    ('\u{9}' <= c && c <= '\u{d}') || c == ' ' || c == '\u{85}' || c == '\u{a0}'
        || c == '\u{1680}' || ('\u{2000}' <= c && c <= '\u{200a}') || c == '\u{2028}'
        || c == '\u{2029}' || c == '\u{202f}' || c == '\u{205f}' || c == '\u{3000}'
}

pub fn char_is_digit(c: char) -> (r: bool)
    ensures
        r == is_digit(c),
{
    '0' <= c && c <= '9'
}

pub fn char_is_alpha(c: char) -> (r: bool)
    ensures
        r == is_alpha(c),
{
    ('A' <= c && c <= 'Z') || ('a' <= c && c <= 'z')
}

pub fn char_is_alnum(c: char) -> (r: bool)
    ensures
        r == is_alnum(c),
{
    char_is_alpha(c) || char_is_digit(c)
}

pub fn char_lower(c: char) -> (r: char)
    ensures
        r == lower(c),
{
    if 'A' <= c && c <= 'Z' {
        let u = (c as u32) + 32;
        assert(0x61 <= u <= 0x7a);
        let r = char_from_ascii(u);
        r
    } else {
        c
    }
}

/// The character with an ASCII code.
fn char_from_ascii(u: u32) -> (c: char)
    requires
        u < 0x80,
    ensures
        c == u as char,
{
    let b = u as u8;
    b as char
}

// ---------------------------------------------------------------------------
// Conversions between `str`, `String` and `Vec<char>`
// ---------------------------------------------------------------------------

/// `String::push`: the contract claims that it appends one character.
#[verifier::external_body]
pub(crate) fn push_char(s: &mut String, c: char)
    ensures
        final(s)@ == old(s)@.push(c),
{
    s.push(c);
}

pub fn chars_of(s: &str) -> (v: Vec<char>)
    ensures
        v@ == s@,
{
    let mut v: Vec<char> = Vec::new();
    for c in it: s.chars()
        invariant
            v@ == it.seq().take(it.index() as int),
            it.seq() == s@,
    {
        v.push(c);
    }
    v
}

pub fn string_of(v: &Vec<char>) -> (s: String)
    ensures
        s@ == v@,
{
    let mut s = String::new();
    let mut i: usize = 0;
    while i < v.len()
        invariant
            i <= v.len(),
            s@ == v@.take(i as int),
        decreases v.len() - i,
    {
        push_char(&mut s, v[i]);
        assert(v@.take(i + 1) == v@.take(i as int).push(v@[i as int]));
        i += 1;
    }
    assert(v@.take(v.len() as int) == v@);
    s
}

/// Appends `src` to `dst`.
pub fn append_chars(dst: &mut Vec<char>, src: &Vec<char>)
    ensures
        final(dst)@ == old(dst)@ + src@,
{
    let mut i: usize = 0;
    while i < src.len()
        invariant
            i <= src.len(),
            dst@ == old(dst)@ + src@.take(i as int),
        decreases src.len() - i,
    {
        dst.push(src[i]);
        assert(src@.take(i + 1) == src@.take(i as int).push(src@[i as int]));
        i += 1;
    }
    assert(src@.take(src.len() as int) == src@);
}

/// Appends the characters of `src` to `dst`.
pub fn append_str(dst: &mut Vec<char>, src: &str)
    ensures
        final(dst)@ == old(dst)@ + src@,
{
    let v = chars_of(src);
    append_chars(dst, &v);
}

/// The characters `v[start..end]`.
pub fn slice_chars(v: &Vec<char>, start: usize, end: usize) -> (r: Vec<char>)
    requires
        start <= end <= v.len(),
    ensures
        r@ == v@.subrange(start as int, end as int),
{
    let mut r: Vec<char> = Vec::new();
    let mut i = start;
    while i < end
        invariant
            start <= i <= end <= v.len(),
            r@ == v@.subrange(start as int, i as int),
        decreases end - i,
    {
        r.push(v[i]);
        assert(v@.subrange(start as int, i + 1) == v@.subrange(start as int, i as int).push(
            v@[i as int],
        ));
        i += 1;
    }
    r
}

pub fn chars_eq(a: &Vec<char>, b: &Vec<char>) -> (r: bool)
    ensures
        r == (a@ == b@),
{
    if a.len() != b.len() {
        return false;
    }
    let mut i: usize = 0;
    while i < a.len()
        invariant
            a.len() == b.len(),
            i <= a.len(),
            forall|j: int| 0 <= j < i ==> a@[j] == b@[j],
        decreases a.len() - i,
    {
        if a[i] != b[i] {
            return false;
        }
        i += 1;
    }
    assert(a@ =~= b@);
    true
}

pub fn lower_chars(v: &Vec<char>) -> (r: Vec<char>)
    ensures
        r@ == lower_seq(v@),
{
    let mut r: Vec<char> = Vec::new();
    let mut i: usize = 0;
    while i < v.len()
        invariant
            i <= v.len(),
            r@ == lower_seq(v@.take(i as int)),
        decreases v.len() - i,
    {
        r.push(char_lower(v[i]));
        assert(lower_seq(v@.take(i + 1)) =~= lower_seq(v@.take(i as int)).push(lower(v@[i as int])));
        i += 1;
    }
    assert(v@.take(v.len() as int) == v@);
    r
}

/// `str::to_ascii_lowercase`.
pub fn ascii_lowercase(s: &str) -> (r: String)
    ensures
        r@ == lower_seq(s@),
{
    let v = chars_of(s);
    let l = lower_chars(&v);
    string_of(&l)
}

// ---------------------------------------------------------------------------
// Prefixes, suffixes, searching
// ---------------------------------------------------------------------------

pub open spec fn starts_with(s: Seq<char>, p: Seq<char>) -> bool {
    p.len() <= s.len() && s.subrange(0, p.len() as int) == p
}

pub open spec fn ends_with(s: Seq<char>, p: Seq<char>) -> bool {
    p.len() <= s.len() && s.subrange(s.len() - p.len(), s.len() as int) == p
}

/// `p` occurs in `s` at index `i`.
pub open spec fn occurs_at(s: Seq<char>, p: Seq<char>, i: int) -> bool {
    0 <= i && i + p.len() <= s.len() && s.subrange(i, i + p.len()) == p
}

pub open spec fn contains(s: Seq<char>, p: Seq<char>) -> bool {
    exists|i: int| occurs_at(s, p, i)
}

/// `str::find`: the first index at which `p` occurs in `s`.
#[verifier::opaque]
pub open spec fn find(s: Seq<char>, p: Seq<char>) -> Option<int> {
    if contains(s, p) {
        Some(choose|i: int| occurs_at(s, p, i) && forall|j: int| 0 <= j < i ==> !occurs_at(s, p, j))
    } else {
        None
    }
}

/// If `p` occurs in `s`, then there is a first index at which it does.
pub proof fn lemma_first_occurrence(s: Seq<char>, p: Seq<char>, i: int)
    requires
        occurs_at(s, p, i),
    ensures
        exists|k: int| occurs_at(s, p, k) && forall|j: int| 0 <= j < k ==> !occurs_at(s, p, j),
    decreases i,
{
    if exists|j: int| 0 <= j < i && occurs_at(s, p, j) {
        let j = choose|j: int| 0 <= j < i && occurs_at(s, p, j);
        lemma_first_occurrence(s, p, j);
    }
}

/// `find` gives the first occurrence.
pub proof fn lemma_find(s: Seq<char>, p: Seq<char>)
    ensures
        find(s, p) matches Some(i) ==> occurs_at(s, p, i) && forall|j: int|
            0 <= j < i ==> !occurs_at(s, p, j),
        find(s, p) is None ==> forall|j: int| !occurs_at(s, p, j),
{
    reveal(find);
    if contains(s, p) {
        let i = choose|i: int| occurs_at(s, p, i);
        lemma_first_occurrence(s, p, i);
    }
}

/// The first occurrence is unique: any index with the defining property is `find`'s result.
pub proof fn lemma_find_is(s: Seq<char>, p: Seq<char>, i: int)
    requires
        occurs_at(s, p, i),
        forall|j: int| 0 <= j < i ==> !occurs_at(s, p, j),
    ensures
        find(s, p) == Some(i),
{
    lemma_find(s, p);
    let k = find(s, p)->Some_0;
    assert(!(k < i));
    assert(!(i < k));
}

pub fn occurs_at_exec(s: &Vec<char>, p: &Vec<char>, i: usize) -> (r: bool)
    ensures
        r == occurs_at(s@, p@, i as int),
{
    if i > s.len() || p.len() > s.len() - i {
        return false;
    }
    let mut k: usize = 0;
    while k < p.len()
        invariant
            i + p.len() <= s.len(),
            k <= p.len(),
            forall|j: int| 0 <= j < k ==> s@[i + j] == p@[j],
        decreases p.len() - k,
    {
        if s[i + k] != p[k] {
            assert(s@.subrange(i as int, i + p.len())[k as int] != p@[k as int]);
            return false;
        }
        k += 1;
    }
    assert(s@.subrange(i as int, i + p.len()) =~= p@);
    true
}

/// `str::find`, searching from index `from` on.
pub fn find_from(s: &Vec<char>, p: &Vec<char>, from: usize) -> (r: Option<usize>)
    requires
        from <= s.len(),
    ensures
        r matches Some(i) ==> from <= i && occurs_at(s@, p@, i as int) && forall|j: int|
            from <= j < i ==> !occurs_at(s@, p@, j),
        r is None ==> forall|j: int| from <= j ==> !occurs_at(s@, p@, j),
{
    let mut i = from;
    while i < s.len()
        invariant
            from <= i <= s.len(),
            forall|j: int| from <= j < i ==> !occurs_at(s@, p@, j),
        decreases s.len() - i,
    {
        if occurs_at_exec(s, p, i) {
            return Some(i);
        }
        i += 1;
    }
    if occurs_at_exec(s, p, i) {
        return Some(i);
    }
    None
}

pub fn find_chars(s: &Vec<char>, p: &Vec<char>) -> (r: Option<usize>)
    ensures
        r matches Some(i) ==> find(s@, p@) == Some(i as int),
        r is None ==> find(s@, p@) is None,
{
    let r = find_from(s, p, 0);
    proof {
        lemma_find(s@, p@);
        if let Some(i) = r {
            lemma_find_is(s@, p@, i as int);
        }
    }
    r
}

pub fn starts_with_chars(s: &Vec<char>, p: &Vec<char>) -> (r: bool)
    ensures
        r == starts_with(s@, p@),
{
    occurs_at_exec(s, p, 0)
}

pub fn ends_with_chars(s: &Vec<char>, p: &Vec<char>) -> (r: bool)
    ensures
        r == ends_with(s@, p@),
{
    if p.len() > s.len() {
        false
    } else {
        occurs_at_exec(s, p, s.len() - p.len())
    }
}

pub fn contains_chars(s: &Vec<char>, p: &Vec<char>) -> (r: bool)
    ensures
        r == contains(s@, p@),
{
    let r = find_from(s, p, 0);
    match r {
        Some(i) => {
            assert(occurs_at(s@, p@, i as int));
            true
        },
        None => false,
    }
}

/// Whether `s` starts with the characters of `p`.
pub fn starts_with_str(s: &Vec<char>, p: &str) -> (r: bool)
    ensures
        r == starts_with(s@, p@),
{
    let pv = chars_of(p);
    starts_with_chars(s, &pv)
}

pub fn ends_with_str(s: &Vec<char>, p: &str) -> (r: bool)
    ensures
        r == ends_with(s@, p@),
{
    let pv = chars_of(p);
    ends_with_chars(s, &pv)
}

pub fn contains_str(s: &Vec<char>, p: &str) -> (r: bool)
    ensures
        r == contains(s@, p@),
{
    let pv = chars_of(p);
    contains_chars(s, &pv)
}

pub fn eq_str(s: &Vec<char>, p: &str) -> (r: bool)
    ensures
        r == (s@ == p@),
{
    let pv = chars_of(p);
    chars_eq(s, &pv)
}

pub fn contains_char(s: &Vec<char>, c: char) -> (r: bool)
    ensures
        r == s@.contains(c),
{
    let mut i: usize = 0;
    while i < s.len()
        invariant
            i <= s.len(),
            forall|j: int| 0 <= j < i ==> s@[j] != c,
        decreases s.len() - i,
    {
        if s[i] == c {
            assert(s@[i as int] == c);
            return true;
        }
        i += 1;
    }
    false
}

// ---------------------------------------------------------------------------
// Trimming
// ---------------------------------------------------------------------------

/// A set of characters that a trim removes.
#[derive(Clone, Copy)]
pub enum CharSet {
    /// Unicode white space (`str::trim`).
    Whitespace,
    /// One character (`str::trim_matches(c)`).
    One(char),
}

pub open spec fn in_set(cs: CharSet, c: char) -> bool {
    match cs {
        CharSet::Whitespace => is_ws(c),
        CharSet::One(x) => c == x,
    }
}

pub fn in_set_exec(cs: CharSet, c: char) -> (r: bool)
    ensures
        r == in_set(cs, c),
{
    match cs {
        CharSet::Whitespace => char_is_ws(c),
        CharSet::One(x) => c == x,
    }
}

/// `str::trim_start_matches` with a character set.
pub open spec fn trim_start_set(s: Seq<char>, cs: CharSet) -> Seq<char>
    decreases s.len(),
{
    if s.len() > 0 && in_set(cs, s[0]) {
        trim_start_set(s.drop_first(), cs)
    } else {
        s
    }
}

/// `str::trim_end_matches` with a character set.
pub open spec fn trim_end_set(s: Seq<char>, cs: CharSet) -> Seq<char>
    decreases s.len(),
{
    if s.len() > 0 && in_set(cs, s.last()) {
        trim_end_set(s.drop_last(), cs)
    } else {
        s
    }
}

pub open spec fn trim_set(s: Seq<char>, cs: CharSet) -> Seq<char> {
    trim_end_set(trim_start_set(s, cs), cs)
}

/// `str::trim`.
pub open spec fn trim(s: Seq<char>) -> Seq<char> {
    trim_set(s, CharSet::Whitespace)
}

pub open spec fn trim_start(s: Seq<char>) -> Seq<char> {
    trim_start_set(s, CharSet::Whitespace)
}

pub open spec fn trim_end(s: Seq<char>) -> Seq<char> {
    trim_end_set(s, CharSet::Whitespace)
}

pub fn trim_start_chars(v: &Vec<char>, cs: CharSet) -> (r: Vec<char>)
    ensures
        r@ == trim_start_set(v@, cs),
{
    let mut i: usize = 0;
    assert(v@.skip(0) == v@);
    while i < v.len() && in_set_exec(cs, v[i])
        invariant
            i <= v.len(),
            trim_start_set(v@, cs) == trim_start_set(v@.skip(i as int), cs),
        decreases v.len() - i,
    {
        assert(v@.skip(i as int).drop_first() == v@.skip(i + 1));
        i += 1;
    }
    slice_chars(v, i, v.len())
}

pub fn trim_end_chars(v: &Vec<char>, cs: CharSet) -> (r: Vec<char>)
    ensures
        r@ == trim_end_set(v@, cs),
{
    let mut j: usize = v.len();
    assert(v@.take(j as int) == v@);
    while j > 0 && in_set_exec(cs, v[j - 1])
        invariant
            j <= v.len(),
            trim_end_set(v@, cs) == trim_end_set(v@.take(j as int), cs),
        decreases j,
    {
        assert(v@.take(j as int).drop_last() == v@.take(j - 1));
        j -= 1;
    }
    slice_chars(v, 0, j)
}

pub fn trim_chars_set(v: &Vec<char>, cs: CharSet) -> (r: Vec<char>)
    ensures
        r@ == trim_set(v@, cs),
{
    let a = trim_start_chars(v, cs);
    trim_end_chars(&a, cs)
}

pub fn trim_chars(v: &Vec<char>) -> (r: Vec<char>)
    ensures
        r@ == trim(v@),
{
    trim_chars_set(v, CharSet::Whitespace)
}

/// `str::trim` on a string slice.
pub fn trim_str(s: &str) -> (r: Vec<char>)
    ensures
        r@ == trim(s@),
{
    let v = chars_of(s);
    trim_chars(&v)
}

/// `str::trim_end_matches` with a non-empty string pattern: removes the
/// pattern from the end as often as it is there.
pub open spec fn trim_end_pat(s: Seq<char>, p: Seq<char>) -> Seq<char>
    decreases s.len(),
{
    if p.len() > 0 && ends_with(s, p) {
        trim_end_pat(s.subrange(0, s.len() - p.len()), p)
    } else {
        s
    }
}

/// `str::trim_start_matches` with a non-empty string pattern: removes the
/// pattern from the start as often as it is there.
pub open spec fn trim_start_pat(s: Seq<char>, p: Seq<char>) -> Seq<char>
    decreases s.len(),
{
    if p.len() > 0 && starts_with(s, p) {
        trim_start_pat(s.skip(p.len() as int), p)
    } else {
        s
    }
}

pub fn trim_start_pat_chars(v: &Vec<char>, p: &Vec<char>) -> (r: Vec<char>)
    ensures
        r@ == trim_start_pat(v@, p@),
{
    let mut cur = slice_chars(v, 0, v.len());
    assert(v@.subrange(0, v@.len() as int) == v@);
    while p.len() > 0 && starts_with_chars(&cur, p)
        invariant
            trim_start_pat(v@, p@) == trim_start_pat(cur@, p@),
        decreases cur.len(),
    {
        let next = slice_chars(&cur, p.len(), cur.len());
        assert(next@ == cur@.skip(p.len() as int));
        cur = next;
    }
    cur
}

pub fn trim_end_pat_chars(v: &Vec<char>, p: &Vec<char>) -> (r: Vec<char>)
    ensures
        r@ == trim_end_pat(v@, p@),
{
    let mut cur = slice_chars(v, 0, v.len());
    assert(v@.subrange(0, v@.len() as int) == v@);
    while p.len() > 0 && ends_with_chars(&cur, p)
        invariant
            trim_end_pat(v@, p@) == trim_end_pat(cur@, p@),
        decreases cur.len(),
    {
        cur = slice_chars(&cur, 0, cur.len() - p.len());
    }
    cur
}

/// `str::strip_prefix`.
pub open spec fn strip_prefix(s: Seq<char>, p: Seq<char>) -> Option<Seq<char>> {
    if starts_with(s, p) {
        Some(s.skip(p.len() as int))
    } else {
        None
    }
}

/// `str::strip_suffix`.
pub open spec fn strip_suffix(s: Seq<char>, p: Seq<char>) -> Option<Seq<char>> {
    if ends_with(s, p) {
        Some(s.take(s.len() - p.len()))
    } else {
        None
    }
}

pub fn strip_prefix_chars(s: &Vec<char>, p: &Vec<char>) -> (r: Option<Vec<char>>)
    ensures
        r matches Some(x) ==> strip_prefix(s@, p@) == Some(x@),
        r is None ==> strip_prefix(s@, p@) is None,
{
    if starts_with_chars(s, p) {
        Some(slice_chars(s, p.len(), s.len()))
    } else {
        None
    }
}

pub fn strip_prefix_str(s: &Vec<char>, p: &str) -> (r: Option<Vec<char>>)
    ensures
        r matches Some(x) ==> strip_prefix(s@, p@) == Some(x@),
        r is None ==> strip_prefix(s@, p@) is None,
{
    let pv = chars_of(p);
    strip_prefix_chars(s, &pv)
}

pub fn strip_suffix_str(s: &Vec<char>, p: &str) -> (r: Option<Vec<char>>)
    ensures
        r matches Some(x) ==> strip_suffix(s@, p@) == Some(x@),
        r is None ==> strip_suffix(s@, p@) is None,
{
    let pv = chars_of(p);
    if ends_with_chars(s, &pv) {
        Some(slice_chars(s, 0, s.len() - pv.len()))
    } else {
        None
    }
}

// ---------------------------------------------------------------------------
// Lines and joining
// ---------------------------------------------------------------------------

/// Drops one `'\r'` at the end.
pub open spec fn strip_cr(t: Seq<char>) -> Seq<char> {
    if t.len() > 0 && t.last() == '\r' {
        t.drop_last()
    } else {
        t
    }
}

/// `str::lines`: split at `'\n'`, drop a `'\r'` just before each `'\n'`; a
/// final line ending produces no extra empty line.
pub open spec fn lines(s: Seq<char>) -> Seq<Seq<char>>
    decreases s.len(),
{
    if s.len() == 0 {
        Seq::empty()
    } else {
        match find(s, seq!['\n']) {
            Some(i) => if 0 <= i < s.len() {
                seq![strip_cr(s.take(i))] + lines(s.skip(i + 1))
            } else {
                Seq::empty()
            },
            None => seq![s],
        }
    }
}

/// Each line followed by `'\n'` (what the many `push_str(line); push('\n')` loops build).
pub open spec fn unlines(ls: Seq<Seq<char>>) -> Seq<char>
    decreases ls.len(),
{
    if ls.len() == 0 {
        Seq::empty()
    } else {
        unlines(ls.drop_last()) + ls.last() + seq!['\n']
    }
}

/// `[T]::join` for strings.
pub open spec fn join_seq(parts: Seq<Seq<char>>, sep: Seq<char>) -> Seq<char>
    decreases parts.len(),
{
    if parts.len() == 0 {
        Seq::empty()
    } else if parts.len() == 1 {
        parts[0]
    } else {
        join_seq(parts.drop_last(), sep) + sep + parts.last()
    }
}

pub open spec fn views(v: Seq<Vec<char>>) -> Seq<Seq<char>> {
    v.map_values(|x: Vec<char>| x@)
}

pub proof fn lemma_occurs_single(s: Seq<char>, c: char, j: int)
    ensures
        occurs_at(s, seq![c], j) <==> (0 <= j < s.len() && s[j] == c),
{
    if 0 <= j < s.len() && s[j] == c {
        assert(s.subrange(j, j + 1) =~= seq![c]);
    }
    if occurs_at(s, seq![c], j) {
        assert(s.subrange(j, j + 1)[0] == c);
    }
}

/// One step of `lines`: the first `'\n'` is at `k`.
pub proof fn lemma_lines_step(rest: Seq<char>, k: int)
    requires
        0 <= k < rest.len(),
        rest[k] == '\n',
        forall|j: int| 0 <= j < k ==> rest[j] != '\n',
    ensures
        lines(rest) == seq![strip_cr(rest.take(k))] + lines(rest.skip(k + 1)),
{
    lemma_occurs_single(rest, '\n', k);
    assert forall|j: int| 0 <= j < k implies !occurs_at(rest, seq!['\n'], j) by {
        lemma_occurs_single(rest, '\n', j);
    }
    lemma_find_is(rest, seq!['\n'], k);
}

/// The last line: no `'\n'` is left.
pub proof fn lemma_lines_last(rest: Seq<char>)
    requires
        rest.len() > 0,
        forall|j: int| 0 <= j < rest.len() ==> rest[j] != '\n',
    ensures
        lines(rest) == seq![rest],
{
    assert forall|j: int| !occurs_at(rest, seq!['\n'], j) by {
        lemma_occurs_single(rest, '\n', j);
    }
    lemma_find(rest, seq!['\n']);
}

pub fn strip_cr_chars(t: Vec<char>) -> (r: Vec<char>)
    ensures
        r@ == strip_cr(t@),
{
    if t.len() > 0 && t[t.len() - 1] == '\r' {
        slice_chars(&t, 0, t.len() - 1)
    } else {
        t
    }
}

/// `str::lines`.
pub fn split_lines(v: &Vec<char>) -> (r: Vec<Vec<char>>)
    ensures
        views(r@) == lines(v@),
{
    let mut r: Vec<Vec<char>> = Vec::new();
    let mut st: usize = 0;
    let mut i: usize = 0;
    assert(v@.skip(0) == v@);
    while i < v.len()
        invariant
            st <= i <= v.len(),
            forall|k: int| st <= k < i ==> v@[k] != '\n',
            lines(v@) == views(r@) + lines(v@.skip(st as int)),
        decreases v.len() - i,
    {
        if v[i] == '\n' {
            let ghost rest = v@.skip(st as int);
            proof {
                lemma_lines_step(rest, i - st);
                assert(rest.take(i - st) == v@.subrange(st as int, i as int));
                assert(rest.skip(i - st + 1) == v@.skip(i + 1));
            }
            let line = slice_chars(v, st, i);
            let line = strip_cr_chars(line);
            let ghost old_r = r@;
            r.push(line);
            assert(views(r@) == views(old_r).push(strip_cr(v@.subrange(st as int, i as int))));
            assert(views(r@) + lines(v@.skip(i + 1)) == views(old_r) + lines(rest));
            st = i + 1;
        }
        i += 1;
    }
    if st < v.len() {
        let ghost rest = v@.skip(st as int);
        proof {
            lemma_lines_last(rest);
        }
        let line = slice_chars(v, st, v.len());
        let ghost old_r = r@;
        r.push(line);
        assert(views(r@) == views(old_r).push(rest));
        assert(views(r@) =~= views(old_r) + seq![rest]);
    } else {
        assert(v@.skip(st as int).len() == 0);
        assert(views(r@) + Seq::<Seq<char>>::empty() == views(r@));
    }
    r
}

/// `str::lines` on a string slice.
pub fn lines_of(s: &str) -> (r: Vec<Vec<char>>)
    ensures
        views(r@) == lines(s@),
{
    let v = chars_of(s);
    split_lines(&v)
}

/// Appends each line followed by `'\n'`.
pub fn push_line(out: &mut Vec<char>, line: &Vec<char>)
    ensures
        final(out)@ == old(out)@ + line@ + seq!['\n'],
{
    append_chars(out, line);
    out.push('\n');
}

/// `[String]::join(sep)`.
pub fn join_chars(parts: &Vec<Vec<char>>, sep: &Vec<char>) -> (r: Vec<char>)
    ensures
        r@ == join_seq(views(parts@), sep@),
{
    let mut r: Vec<char> = Vec::new();
    let mut i: usize = 0;
    while i < parts.len()
        invariant
            i <= parts.len(),
            r@ == join_seq(views(parts@).take(i as int), sep@),
        decreases parts.len() - i,
    {
        let ghost before = views(parts@).take(i as int);
        let ghost after = views(parts@).take(i + 1);
        assert(after.drop_last() == before);
        assert(after.last() == parts@[i as int]@);
        if i > 0 {
            append_chars(&mut r, sep);
        }
        append_chars(&mut r, &parts[i]);
        i += 1;
    }
    assert(views(parts@).take(parts.len() as int) == views(parts@));
    r
}

// ---------------------------------------------------------------------------
// Replacing
// ---------------------------------------------------------------------------

/// `str::replace` with a non-empty pattern: every non-overlapping occurrence,
/// left to right, is replaced.
pub open spec fn replace_all(s: Seq<char>, from: Seq<char>, to: Seq<char>) -> Seq<char>
    decreases s.len(),
{
    if from.len() == 0 {
        s
    } else {
        match find(s, from) {
            Some(i) => if 0 <= i && i + from.len() <= s.len() {
                s.take(i) + to + replace_all(s.skip(i + from.len()), from, to)
            } else {
                s
            },
            None => s,
        }
    }
}

pub proof fn lemma_occurs_skip(s: Seq<char>, p: Seq<char>, pos: int, k: int)
    requires
        0 <= pos <= s.len(),
    ensures
        occurs_at(s.skip(pos), p, k) <==> (k >= 0 && occurs_at(s, p, pos + k)),
{
    if k >= 0 && pos + k + p.len() <= s.len() {
        assert(s.skip(pos).subrange(k, k + p.len()) =~= s.subrange(pos + k, pos + k + p.len()));
    }
}

/// One step of `replace_all` on `s.skip(pos)`: the first occurrence at or after `pos` is at `i`.
pub proof fn lemma_replace_step(s: Seq<char>, from: Seq<char>, to: Seq<char>, pos: int, i: int)
    requires
        from.len() > 0,
        0 <= pos <= i,
        occurs_at(s, from, i),
        forall|j: int| pos <= j < i ==> !occurs_at(s, from, j),
    ensures
        replace_all(s.skip(pos), from, to) == s.subrange(pos, i) + to + replace_all(
            s.skip(i + from.len()),
            from,
            to,
        ),
{
    let rest = s.skip(pos);
    lemma_occurs_skip(s, from, pos, i - pos);
    assert forall|j: int| 0 <= j < i - pos implies !occurs_at(rest, from, j) by {
        lemma_occurs_skip(s, from, pos, j);
    }
    lemma_find_is(rest, from, i - pos);
    assert(rest.take(i - pos) == s.subrange(pos, i));
    assert(rest.skip(i - pos + from.len()) == s.skip(i + from.len()));
}

/// The tail of `replace_all` when no occurrence is left.
pub proof fn lemma_replace_none(s: Seq<char>, from: Seq<char>, to: Seq<char>, pos: int)
    requires
        from.len() > 0,
        0 <= pos <= s.len(),
        forall|j: int| pos <= j ==> !occurs_at(s, from, j),
    ensures
        replace_all(s.skip(pos), from, to) == s.skip(pos),
{
    let rest = s.skip(pos);
    assert forall|j: int| !occurs_at(rest, from, j) by {
        lemma_occurs_skip(s, from, pos, j);
    }
    lemma_find(rest, from);
}

/// `str::replace(from, to)` with a non-empty `from`.
pub fn replace_chars(s: &Vec<char>, from: &Vec<char>, to: &Vec<char>) -> (r: Vec<char>)
    requires
        from.len() > 0,
    ensures
        r@ == replace_all(s@, from@, to@),
{
    let mut out: Vec<char> = Vec::new();
    let mut pos: usize = 0;
    assert(s@.skip(0) == s@);
    loop
        invariant
            from.len() > 0,
            pos <= s.len(),
            replace_all(s@, from@, to@) == out@ + replace_all(s@.skip(pos as int), from@, to@),
        decreases s.len() - pos,
    {
        match find_from(s, from, pos) {
            Some(i) => {
                proof {
                    lemma_replace_step(s@, from@, to@, pos as int, i as int);
                }
                let piece = slice_chars(s, pos, i);
                append_chars(&mut out, &piece);
                append_chars(&mut out, to);
                pos = i + from.len();
            },
            None => {
                proof {
                    lemma_replace_none(s@, from@, to@, pos as int);
                }
                let piece = slice_chars(s, pos, s.len());
                append_chars(&mut out, &piece);
                return out;
            },
        }
    }
}

/// `str::replace(from, to)` on string slices, with a non-empty `from`.
pub fn replace_str(s: &Vec<char>, from: &str, to: &str) -> (r: Vec<char>)
    requires
        from@.len() > 0,
    ensures
        r@ == replace_all(s@, from@, to@),
{
    let f = chars_of(from);
    let t = chars_of(to);
    replace_chars(s, &f, &t)
}

/// Replaces every occurrence of one character by another.
pub open spec fn replace_char(s: Seq<char>, a: char, b: char) -> Seq<char> {
    s.map_values(|c: char| if c == a { b } else { c })
}

pub fn replace_char_chars(v: &Vec<char>, a: char, b: char) -> (r: Vec<char>)
    ensures
        r@ == replace_char(v@, a, b),
{
    let mut r: Vec<char> = Vec::new();
    let mut i: usize = 0;
    while i < v.len()
        invariant
            i <= v.len(),
            r@ == replace_char(v@.take(i as int), a, b),
        decreases v.len() - i,
    {
        let c = v[i];
        r.push(if c == a { b } else { c });
        assert(replace_char(v@.take(i + 1), a, b) =~= replace_char(v@.take(i as int), a, b).push(
            if c == a { b } else { c },
        ));
        i += 1;
    }
    assert(v@.take(v.len() as int) == v@);
    r
}

// ---------------------------------------------------------------------------
// Splitting at separator characters
// ---------------------------------------------------------------------------

/// The separator characters of a split.
#[derive(Clone, Copy)]
pub enum Sep {
    /// `'/'` and `'\\'`.
    Slashes,
    /// Every character that is not an ASCII digit.
    NonDigit,
    /// Unicode white space.
    Whitespace,
    /// One character.
    Char(char),
}

pub open spec fn is_sep(sp: Sep, c: char) -> bool {
    match sp {
        Sep::Slashes => c == '/' || c == '\\',
        Sep::NonDigit => !is_digit(c),
        Sep::Whitespace => is_ws(c),
        Sep::Char(x) => c == x,
    }
}

pub fn is_sep_exec(sp: Sep, c: char) -> (r: bool)
    ensures
        r == is_sep(sp, c),
{
    match sp {
        Sep::Slashes => c == '/' || c == '\\',
        Sep::NonDigit => !char_is_digit(c),
        Sep::Whitespace => char_is_ws(c),
        Sep::Char(x) => c == x,
    }
}

/// The index of the first separator character.
pub open spec fn first_sep(s: Seq<char>, sp: Sep) -> Option<int>
    decreases s.len(),
{
    if s.len() == 0 {
        None
    } else if is_sep(sp, s[0]) {
        Some(0)
    } else {
        match first_sep(s.drop_first(), sp) {
            Some(i) => Some(i + 1),
            None => None,
        }
    }
}

pub proof fn lemma_first_sep(s: Seq<char>, sp: Sep)
    ensures
        first_sep(s, sp) matches Some(k) ==> 0 <= k < s.len() && is_sep(sp, s[k]) && forall|j: int|
            0 <= j < k ==> !is_sep(sp, s[j]),
        first_sep(s, sp) is None ==> forall|j: int| 0 <= j < s.len() ==> !is_sep(sp, s[j]),
    decreases s.len(),
{
    if s.len() > 0 && !is_sep(sp, s[0]) {
        lemma_first_sep(s.drop_first(), sp);
        assert forall|j: int| 1 <= j < s.len() implies s[j] == s.drop_first()[j - 1] by {}
    }
}

/// `str::split(pred)`: the pieces between separator characters, empty ones included.
pub open spec fn split(s: Seq<char>, sp: Sep) -> Seq<Seq<char>>
    decreases s.len(),
{
    match first_sep(s, sp) {
        Some(i) => if 0 <= i < s.len() {
            seq![s.take(i)] + split(s.skip(i + 1), sp)
        } else {
            Seq::empty()
        },
        None => seq![s],
    }
}

/// `str::split_whitespace`: the non-empty pieces between white space.
pub open spec fn words(s: Seq<char>) -> Seq<Seq<char>> {
    split(s, Sep::Whitespace).filter(|w: Seq<char>| w.len() > 0)
}

pub proof fn lemma_first_sep_is(s: Seq<char>, sp: Sep, k: int)
    requires
        0 <= k <= s.len(),
        k < s.len() ==> is_sep(sp, s[k]),
        forall|j: int| 0 <= j < k ==> !is_sep(sp, s[j]),
    ensures
        k < s.len() ==> first_sep(s, sp) == Some(k),
        k == s.len() ==> first_sep(s, sp) is None,
{
    lemma_first_sep(s, sp);
}

/// A split always has at least one piece.
pub proof fn lemma_split_nonempty(s: Seq<char>, sp: Sep)
    ensures
        split(s, sp).len() >= 1,
{
    lemma_first_sep(s, sp);
}

/// Every piece of a split is free of separators.
pub proof fn lemma_split_pieces(s: Seq<char>, sp: Sep)
    ensures
        forall|i: int, j: int|
            0 <= i < split(s, sp).len() && 0 <= j < split(s, sp)[i].len() ==> !is_sep(
                sp,
                #[trigger] split(s, sp)[i][j],
            ),
    decreases s.len(),
{
    lemma_first_sep(s, sp);
    match first_sep(s, sp) {
        Some(k) => {
            lemma_split_pieces(s.skip(k + 1), sp);
            let r = split(s, sp);
            assert forall|i: int, j: int| 0 <= i < r.len() && 0 <= j < r[i].len() implies !is_sep(
                sp,
                #[trigger] r[i][j],
            ) by {
                if i > 0 {
                    assert(r[i] == split(s.skip(k + 1), sp)[i - 1]);
                } else {
                    assert(r[i][j] == s[j]);
                }
            }
        },
        None => {},
    }
}

/// What a filter keeps comes from the filtered sequence.
pub proof fn lemma_filter_in(s: Seq<Seq<char>>, pred: spec_fn(Seq<char>) -> bool, i: int)
    requires
        0 <= i < s.filter(pred).len(),
    ensures
        s.contains(s.filter(pred)[i]),
    decreases s.len(),
{
    reveal(Seq::filter);
    let f = s.drop_last().filter(pred);
    if i < f.len() {
        lemma_filter_in(s.drop_last(), pred, i);
        let k = choose|k: int| 0 <= k < s.drop_last().len() && s.drop_last()[k] == f[i];
        assert(s[k] == s.filter(pred)[i]);
    } else {
        assert(s.filter(pred)[i] == s.last());
        assert(s[s.len() - 1] == s.last());
    }
}

pub fn split_chars(v: &Vec<char>, sp: Sep) -> (r: Vec<Vec<char>>)
    ensures
        views(r@) == split(v@, sp),
{
    let mut r: Vec<Vec<char>> = Vec::new();
    let mut st: usize = 0;
    let mut i: usize = 0;
    assert(v@.skip(0) == v@);
    while i < v.len()
        invariant
            st <= i <= v.len(),
            forall|k: int| st <= k < i ==> !is_sep(sp, v@[k]),
            split(v@, sp) == views(r@) + split(v@.skip(st as int), sp),
        decreases v.len() - i,
    {
        if is_sep_exec(sp, v[i]) {
            let ghost rest = v@.skip(st as int);
            proof {
                lemma_first_sep_is(rest, sp, i - st);
                assert(rest.take(i - st) == v@.subrange(st as int, i as int));
                assert(rest.skip(i - st + 1) == v@.skip(i + 1));
            }
            let piece = slice_chars(v, st, i);
            let ghost old_r = r@;
            r.push(piece);
            assert(views(r@) == views(old_r).push(v@.subrange(st as int, i as int)));
            assert(views(r@) + split(v@.skip(i + 1), sp) == views(old_r) + split(rest, sp));
            st = i + 1;
        }
        i += 1;
    }
    let ghost rest = v@.skip(st as int);
    proof {
        lemma_first_sep_is(rest, sp, rest.len() as int);
    }
    let piece = slice_chars(v, st, v.len());
    let ghost old_r = r@;
    r.push(piece);
    assert(views(r@) == views(old_r).push(rest));
    assert(views(r@) =~= views(old_r) + seq![rest]);
    r
}

/// Keeps the non-empty pieces.
pub fn non_empty(v: Vec<Vec<char>>) -> (r: Vec<Vec<char>>)
    ensures
        views(r@) == views(v@).filter(|w: Seq<char>| w.len() > 0),
{
    let mut r: Vec<Vec<char>> = Vec::new();
    let mut i: usize = 0;
    while i < v.len()
        invariant
            i <= v.len(),
            views(r@) == views(v@).take(i as int).filter(|w: Seq<char>| w.len() > 0),
        decreases v.len() - i,
    {
        proof {
            assert(views(v@).take(i + 1).drop_last() == views(v@).take(i as int));
            reveal(Seq::filter);
        }
        if v[i].len() > 0 {
            let ghost old_r = r@;
            let w = slice_chars(&v[i], 0, v[i].len());
            assert(w@ == v@[i as int]@);
            r.push(w);
            assert(views(r@) == views(old_r).push(v@[i as int]@));
        }
        i += 1;
    }
    assert(views(v@).take(v.len() as int) == views(v@));
    r
}

/// `str::split_whitespace`.
pub fn words_chars(v: &Vec<char>) -> (r: Vec<Vec<char>>)
    ensures
        views(r@) == words(v@),
{
    let parts = split_chars(v, Sep::Whitespace);
    non_empty(parts)
}

// ---------------------------------------------------------------------------
// Order of strings
// ---------------------------------------------------------------------------

/// `String`'s `<=`: lexicographic by code point (which is the order of their
/// UTF-8 bytes).
pub open spec fn lex_le(a: Seq<char>, b: Seq<char>) -> bool
    decreases a.len(),
{
    if a.len() == 0 {
        true
    } else if b.len() == 0 {
        false
    } else if a[0] != b[0] {
        a[0] < b[0]
    } else {
        lex_le(a.drop_first(), b.drop_first())
    }
}

pub proof fn lemma_lex_reflexive(a: Seq<char>)
    ensures
        lex_le(a, a),
    decreases a.len(),
{
    if a.len() > 0 {
        lemma_lex_reflexive(a.drop_first());
    }
}

pub proof fn lemma_lex_antisymmetric(a: Seq<char>, b: Seq<char>)
    requires
        lex_le(a, b),
        lex_le(b, a),
    ensures
        a == b,
    decreases a.len(),
{
    if a.len() > 0 && b.len() > 0 {
        lemma_lex_antisymmetric(a.drop_first(), b.drop_first());
        assert(a =~= seq![a[0]] + a.drop_first());
        assert(b =~= seq![b[0]] + b.drop_first());
    }
}

pub proof fn lemma_lex_transitive(a: Seq<char>, b: Seq<char>, c: Seq<char>)
    requires
        lex_le(a, b),
        lex_le(b, c),
    ensures
        lex_le(a, c),
    decreases a.len(),
{
    if a.len() > 0 && b.len() > 0 && c.len() > 0 {
        if a[0] == b[0] && b[0] == c[0] {
            lemma_lex_transitive(a.drop_first(), b.drop_first(), c.drop_first());
        }
    }
}

pub proof fn lemma_lex_total(a: Seq<char>, b: Seq<char>)
    ensures
        lex_le(a, b) || lex_le(b, a),
    decreases a.len(),
{
    if a.len() > 0 && b.len() > 0 && a[0] == b[0] {
        lemma_lex_total(a.drop_first(), b.drop_first());
    }
}

pub proof fn lemma_lex_total_ordering()
    ensures
        total_ordering(|a: Seq<char>, b: Seq<char>| lex_le(a, b)),
{
    assert forall|a: Seq<char>| #[trigger] lex_le(a, a) by {
        lemma_lex_reflexive(a);
    }
    assert forall|a: Seq<char>, b: Seq<char>| #[trigger]
        lex_le(a, b) && #[trigger] lex_le(b, a) implies a == b by {
        lemma_lex_antisymmetric(a, b);
    }
    assert forall|a: Seq<char>, b: Seq<char>, c: Seq<char>| #[trigger]
        lex_le(a, b) && #[trigger] lex_le(b, c) implies lex_le(a, c) by {
        lemma_lex_transitive(a, b, c);
    }
    assert forall|a: Seq<char>, b: Seq<char>| #[trigger] lex_le(a, b) || #[trigger] lex_le(b, a) by {
        lemma_lex_total(a, b);
    }
}

pub fn lex_le_chars(a: &Vec<char>, b: &Vec<char>) -> (r: bool)
    ensures
        r == lex_le(a@, b@),
{
    let mut i: usize = 0;
    assert(a@.skip(0) == a@ && b@.skip(0) == b@);
    while i < a.len() && i < b.len() && a[i] == b[i]
        invariant
            i <= a.len(),
            i <= b.len(),
            lex_le(a@, b@) == lex_le(a@.skip(i as int), b@.skip(i as int)),
        decreases a.len() - i,
    {
        assert(a@.skip(i as int).drop_first() == a@.skip(i + 1));
        assert(b@.skip(i as int).drop_first() == b@.skip(i + 1));
        i += 1;
    }
    if i == a.len() {
        true
    } else if i == b.len() {
        false
    } else {
        a[i] < b[i]
    }
}

pub open spec fn lex_order() -> spec_fn(Seq<char>, Seq<char>) -> bool {
    |a: Seq<char>, b: Seq<char>| lex_le(a, b)
}

/// Sorts strings as `slice::sort` does for `String`s.
// ---------------------------------------------------------------------------
// Insertion sort, as a function
// ---------------------------------------------------------------------------

/// `x` placed before the first element greater than it.
pub open spec fn insert_sorted(s: Seq<Seq<char>>, x: Seq<char>) -> Seq<Seq<char>>
    decreases s.len(),
{
    if s.len() == 0 {
        seq![x]
    } else if !lex_le(s[0], x) {
        seq![x] + s
    } else {
        seq![s[0]] + insert_sorted(s.drop_first(), x)
    }
}

/// The stable sort of `s`: each element in turn placed after the ones not
/// greater than it.
pub open spec fn isort(s: Seq<Seq<char>>) -> Seq<Seq<char>>
    decreases s.len(),
{
    if s.len() == 0 {
        s
    } else {
        insert_sorted(isort(s.drop_last()), s.last())
    }
}

pub proof fn lemma_insert_sorted_at(s: Seq<Seq<char>>, x: Seq<char>, k: int)
    requires
        0 <= k <= s.len(),
        forall|j: int| 0 <= j < k ==> lex_le(s[j], x),
        k < s.len() ==> !lex_le(s[k], x),
    ensures
        insert_sorted(s, x) == s.insert(k, x),
    decreases s.len(),
{
    if s.len() > 0 && k > 0 {
        lemma_insert_sorted_at(s.drop_first(), x, k - 1);
        assert(s.insert(k, x) =~= seq![s[0]] + s.drop_first().insert(k - 1, x));
    } else if s.len() > 0 {
        assert(s.insert(0, x) =~= seq![x] + s);
    } else {
        assert(s.insert(0, x) =~= seq![x]);
    }
}

/// `x` placed before the first element whose key is greater than its own.
pub open spec fn insert_keyed<T>(s: Seq<(Seq<char>, T)>, x: (Seq<char>, T)) -> Seq<(Seq<char>, T)>
    decreases s.len(),
{
    if s.len() == 0 {
        seq![x]
    } else if !lex_le(s[0].0, x.0) {
        seq![x] + s
    } else {
        seq![s[0]] + insert_keyed(s.drop_first(), x)
    }
}

/// The stable sort of `s` by key.
pub open spec fn isort_keyed<T>(s: Seq<(Seq<char>, T)>) -> Seq<(Seq<char>, T)>
    decreases s.len(),
{
    if s.len() == 0 {
        s
    } else {
        insert_keyed(isort_keyed(s.drop_last()), s.last())
    }
}

pub proof fn lemma_insert_keyed_at<T>(s: Seq<(Seq<char>, T)>, x: (Seq<char>, T), k: int)
    requires
        0 <= k <= s.len(),
        forall|j: int| 0 <= j < k ==> lex_le(s[j].0, x.0),
        k < s.len() ==> !lex_le(s[k].0, x.0),
    ensures
        insert_keyed(s, x) == s.insert(k, x),
    decreases s.len(),
{
    if s.len() > 0 && k > 0 {
        lemma_insert_keyed_at(s.drop_first(), x, k - 1);
        assert(s.insert(k, x) =~= seq![s[0]] + s.drop_first().insert(k - 1, x));
    } else if s.len() > 0 {
        assert(s.insert(0, x) =~= seq![x] + s);
    } else {
        assert(s.insert(0, x) =~= seq![x]);
    }
}

pub open spec fn keyed_views<T>(v: Seq<(Vec<char>, T)>) -> Seq<(Seq<char>, T)> {
    v.map_values(|p: (Vec<char>, T)| (p.0@, p.1))
}

/// Sorts by key, stably.
pub fn sort_keyed<T>(v: Vec<(Vec<char>, T)>) -> (r: Vec<(Vec<char>, T)>)
    ensures
        keyed_views(r@) == isort_keyed(keyed_views(v@)),
{
    let ghost orig = keyed_views(v@);
    let mut v = v;
    let mut r: Vec<(Vec<char>, T)> = Vec::new();
    let ghost mut done: int = 0;
    assert(orig.take(0) =~= Seq::<(Seq<char>, T)>::empty());
    while v.len() > 0
        invariant
            0 <= done <= orig.len(),
            done + v@.len() == orig.len(),
            keyed_views(v@) == orig.skip(done),
            keyed_views(r@) == isort_keyed(orig.take(done)),
        decreases v.len(),
    {
        let ghost old_v = v@;
        let x = v.remove(0);
        proof {
            assert(keyed_views(old_v)[0] == (x.0@, x.1));
            assert(orig.skip(done)[0] == orig[done]);
            assert(keyed_views(v@) =~= keyed_views(old_v).drop_first());
            assert(orig.skip(done).drop_first() =~= orig.skip(done + 1));
            assert(orig[done] == (x.0@, x.1));
        }
        let mut k: usize = 0;
        loop
            invariant
                k <= r.len(),
                forall|j: int| 0 <= j < k ==> lex_le(r@[j].0@, x.0@),
            ensures
                k <= r.len(),
                forall|j: int| 0 <= j < k ==> lex_le(r@[j].0@, x.0@),
                k < r.len() ==> !lex_le(r@[k as int].0@, x.0@),
            decreases r.len() - k,
        {
            if k == r.len() {
                break;
            }
            if !lex_le_chars(&r[k].0, &x.0) {
                break;
            }
            k += 1;
        }
        let ghost old_r = keyed_views(r@);
        proof {
            lemma_insert_keyed_at(old_r, (x.0@, x.1), k as int);
            assert(orig.take(done + 1).drop_last() =~= orig.take(done));
            assert(orig.take(done + 1).last() == (x.0@, x.1));
        }
        r.insert(k, x);
        proof {
            assert(keyed_views(r@) =~= old_r.insert(k as int, (x.0@, x.1)));
            done = done + 1;
        }
    }
    assert(orig.take(done) =~= orig);
    r
}

pub fn sort_chars(v: Vec<Vec<char>>) -> (r: Vec<Vec<char>>)
    ensures
        views(r@) == isort(views(v@)),
        sorted_by(views(r@), lex_order()),
        views(r@).to_multiset() == views(v@).to_multiset(),
{
    let mut r: Vec<Vec<char>> = Vec::new();
    let mut i: usize = 0;
    proof {
        lemma_lex_total_ordering();
        assert(views(r@) =~= views(v@).take(0));
    }
    while i < v.len()
        invariant
            i <= v.len(),
            total_ordering(lex_order()),
            sorted_by(views(r@), lex_order()),
            views(r@).to_multiset() == views(v@).take(i as int).to_multiset(),
            views(r@) == isort(views(v@).take(i as int)),
        decreases v.len() - i,
    {
        let x = slice_chars(&v[i], 0, v[i].len());
        assert(x@ == v@[i as int]@);
        let mut k: usize = 0;
        loop
            invariant
                k <= r.len(),
                forall|j: int| 0 <= j < k ==> lex_le(r@[j]@, x@),
            ensures
                k <= r.len(),
                forall|j: int| 0 <= j < k ==> lex_le(r@[j]@, x@),
                k < r.len() ==> !lex_le(r@[k as int]@, x@),
            decreases r.len() - k,
        {
            if k == r.len() {
                break;
            }
            if !lex_le_chars(&r[k], &x) {
                break;
            }
            k += 1;
        }
        let ghost old_r = views(r@);
        proof {
            if k < r.len() {
                lemma_lex_total(r@[k as int]@, x@);
                assert(lex_le(x@, old_r[k as int]));
            }
            lemma_insert_sorted_at(old_r, x@, k as int);
            assert(views(v@).take(i + 1).drop_last() =~= views(v@).take(i as int));
            assert(views(v@).take(i + 1).last() == x@);
        }
        r.insert(k, x);
        proof {
            assert(views(r@) =~= old_r.insert(k as int, x@));
            assert forall|j: int| k <= j < old_r.len() implies lex_le(x@, old_r[j]) by {
                if j > k {
                    assert(lex_order()(old_r[k as int], old_r[j]));
                    lemma_lex_transitive(x@, old_r[k as int], old_r[j]);
                }
            }
            assert forall|a: int, b: int| 0 <= a < b < views(r@).len() implies #[trigger] lex_order()(
                views(r@)[a],
                views(r@)[b],
            ) by {
                if a < k && b > k {
                    lemma_lex_transitive(old_r[a], x@, old_r[b - 1]);
                } else if a > k {
                    assert(lex_order()(old_r[a - 1], old_r[b - 1]));
                } else if b < k {
                    assert(lex_order()(old_r[a], old_r[b]));
                }
            }
            assert(views(v@).take(i + 1) =~= views(v@).take(i as int).push(x@));
            vstd::seq_lib::to_multiset_insert(old_r, k as int, x@);
            vstd::seq_lib::to_multiset_build(views(v@).take(i as int), x@);

        }
        i += 1;
    }
    assert(views(v@).take(v.len() as int) == views(v@));
    r
}

// ---------------------------------------------------------------------------
// Decimal numbers
// ---------------------------------------------------------------------------

pub open spec fn digit_char(d: nat) -> char {
    ((d + 48) as u32) as char
}

/// The decimal form of `n` (`Display` for unsigned integers).
pub open spec fn dec(n: nat) -> Seq<char>
    decreases n,
{
    if n < 10 {
        seq![digit_char(n)]
    } else {
        dec(n / 10).push(digit_char(n % 10))
    }
}

fn digit_exec(d: u64) -> (c: char)
    requires
        d < 10,
    ensures
        c == digit_char(d as nat),
{
    char_from_ascii((d + 48) as u32)
}

pub fn dec_chars(n: u64, out: &mut Vec<char>)
    ensures
        final(out)@ == old(out)@ + dec(n as nat),
    decreases n,
{
    if n < 10 {
        out.push(digit_exec(n));
    } else {
        dec_chars(n / 10, out);
        out.push(digit_exec(n % 10));
    }
}

/// `u64::to_string`.
pub fn dec_string(n: u64) -> (s: String)
    ensures
        s@ == dec(n as nat),
{
    let mut v: Vec<char> = Vec::new();
    dec_chars(n, &mut v);
    assert(v@ =~= dec(n as nat));
    string_of(&v)
}

pub open spec fn all_digits(s: Seq<char>) -> bool {
    forall|i: int| 0 <= i < s.len() ==> is_digit(s[i])
}

pub open spec fn digits_value(s: Seq<char>) -> nat
    decreases s.len(),
{
    if s.len() == 0 {
        0
    } else {
        digits_value(s.drop_last()) * 10 + ((s.last() as u32) - 48) as nat
    }
}

/// `FromStr` for unsigned integers before the range check: an optional `'+'`
/// and at least one ASCII digit.
pub open spec fn parse_unsigned(s: Seq<char>) -> Option<nat> {
    let t = if s.len() > 0 && s[0] == '+' {
        s.drop_first()
    } else {
        s
    };
    if t.len() > 0 && all_digits(t) {
        Some(digits_value(t))
    } else {
        None
    }
}

/// `FromStr` for an unsigned type whose largest value is `max`.
pub open spec fn parse_bounded(s: Seq<char>, max: nat) -> Option<nat> {
    match parse_unsigned(s) {
        Some(n) => if n <= max {
            Some(n)
        } else {
            None
        },
        None => None,
    }
}

pub proof fn lemma_digits_value_grows(s: Seq<char>, k: int)
    requires
        0 <= k <= s.len(),
        all_digits(s),
    ensures
        digits_value(s.take(k)) <= digits_value(s),
    decreases s.len() - k,
{
    if k < s.len() {
        lemma_digits_value_grows(s, k + 1);
        assert(s.take(k + 1).drop_last() == s.take(k));
    } else {
        assert(s.take(k) == s);
    }
}

/// Parses `v` as an unsigned number no larger than `max` (`u16`/`u32`/`u64` `FromStr`).
pub fn parse_uint(v: &Vec<char>, max: u64) -> (r: Option<u64>)
    ensures
        r matches Some(n) ==> parse_bounded(v@, max as nat) == Some(n as nat),
        r is None ==> parse_bounded(v@, max as nat) is None,
{
    let start: usize = if v.len() > 0 && v[0] == '+' { 1 } else { 0 };
    let ghost t = if v@.len() > 0 && v@[0] == '+' { v@.drop_first() } else { v@ };
    assert(t == v@.skip(start as int));
    if start >= v.len() {
        return None;
    }
    let mut acc: u64 = 0;
    let mut i = start;
    assert(t.take(0) == Seq::<char>::empty());
    while i < v.len()
        invariant
            start <= i <= v.len(),
            t == v@.skip(start as int),
            t == (if v@.len() > 0 && v@[0] == '+' { v@.drop_first() } else { v@ }),
            acc as nat == digits_value(t.take(i - start)),
            acc <= max,
            all_digits(t.take(i - start)),
        decreases v.len() - i,
    {
        let c = v[i];
        if !char_is_digit(c) {
            assert(t[i - start] == c);
            assert(!is_digit(t[i - start]));
            assert(!all_digits(t));
            assert(parse_unsigned(v@) is None);
            return None;
        }
        let d = (c as u32 - 48) as u64;
        proof {
            assert(t.take(i - start + 1).drop_last() == t.take(i - start));
            assert(t.take(i - start + 1).last() == c);
        }
        let nv: u128 = (acc as u128) * 10 + (d as u128);
        assert(digits_value(t.take(i - start + 1)) == nv);
        if nv > max as u128 {
            proof {
                if all_digits(t) {
                    lemma_digits_value_grows(t, i - start + 1);
                    assert(parse_unsigned(v@) == Some(digits_value(t)));
                }
            }
            return None;
        }
        acc = nv as u64;
        i += 1;
    }
    assert(t.take(i - start) == t);
    Some(acc)
}

// ---------------------------------------------------------------------------
// Laws of lines
// ---------------------------------------------------------------------------

pub open spec fn no_newline(s: Seq<char>) -> bool {
    forall|i: int| 0 <= i < s.len() ==> s[i] != '\n'
}

/// `unlines` seen from the front.
pub proof fn lemma_unlines_front(ls: Seq<Seq<char>>)
    requires
        ls.len() > 0,
    ensures
        unlines(ls) == ls[0] + seq!['\n'] + unlines(ls.drop_first()),
    decreases ls.len(),
{
    if ls.len() == 1 {
        assert(ls.drop_last() =~= Seq::<Seq<char>>::empty());
        assert(ls.drop_first() =~= Seq::<Seq<char>>::empty());
    } else {
        lemma_unlines_front(ls.drop_last());
        assert(ls.drop_last().drop_first() == ls.drop_first().drop_last());
        assert(ls.drop_first().last() == ls.last());
    }
}

/// Splitting joined lines gives them back, less a `'\r'` at their ends.
pub proof fn lemma_lines_unlines(ls: Seq<Seq<char>>)
    requires
        forall|i: int| 0 <= i < ls.len() ==> no_newline(#[trigger] ls[i]),
    ensures
        lines(unlines(ls)) == ls.map_values(|l: Seq<char>| strip_cr(l)),
    decreases ls.len(),
{
    if ls.len() == 0 {
        assert(ls.map_values(|l: Seq<char>| strip_cr(l)) =~= Seq::<Seq<char>>::empty());
    } else {
        lemma_unlines_front(ls);
        let first = ls[0];
        let rest = unlines(ls.drop_first());
        let s = first + seq!['\n'] + rest;
        assert(no_newline(ls[0]));
        lemma_lines_step(s, first.len() as int);
        assert(s.take(first.len() as int) =~= first);
        assert(s.skip(first.len() as int + 1) =~= rest);
        assert forall|i: int| 0 <= i < ls.drop_first().len() implies no_newline(#[trigger] ls.drop_first()[i]) by {
            assert(no_newline(ls[i + 1]));
        }
        lemma_lines_unlines(ls.drop_first());
        assert(ls.map_values(|l: Seq<char>| strip_cr(l)) =~= seq![strip_cr(first)] + ls.drop_first().map_values(
            |l: Seq<char>| strip_cr(l),
        ));
    }
}

/// No line that `lines` gives holds a `'\n'`.
pub proof fn lemma_lines_no_newline(s: Seq<char>)
    ensures
        forall|i: int| 0 <= i < lines(s).len() ==> no_newline(#[trigger] lines(s)[i]),
    decreases s.len(),
{
    if s.len() > 0 {
        lemma_find(s, seq!['\n']);
        match find(s, seq!['\n']) {
            Some(i) => {
                assert(0 <= i < s.len()) by {
                    assert(occurs_at(s, seq!['\n'], i));
                }
                lemma_lines_no_newline(s.skip(i + 1));
                let l = strip_cr(s.take(i));
                assert forall|j: int| 0 <= j < l.len() implies l[j] != '\n' by {
                    lemma_occurs_single(s, '\n', j);
                }
                assert forall|k: int| 0 <= k < lines(s).len() implies no_newline(#[trigger] lines(s)[k]) by {
                    if k > 0 {
                        assert(lines(s)[k] == lines(s.skip(i + 1))[k - 1]);
                    }
                }
            },
            None => {
                assert forall|j: int| 0 <= j < s.len() implies s[j] != '\n' by {
                    lemma_occurs_single(s, '\n', j);
                }
            },
        }
    }
}

proof fn lemma_trim_start_drop_last(s: Seq<char>)
    requires
        s.len() > 0,
        is_ws(s.last()),
    ensures
        trim_end(trim_start(s.drop_last())) == trim_end(trim_start(s)),
    decreases s.len(),
{
    if is_ws(s[0]) {
        if s.len() == 1 {
            assert(trim_start(s.drop_first()) =~= Seq::<char>::empty());
            assert(s.drop_last() =~= Seq::<char>::empty());
        } else {
            lemma_trim_start_drop_last(s.drop_first());
            assert(s.drop_first().drop_last() == s.drop_last().drop_first());
        }
    } else {
        assert(trim_start(s) == s);
        assert(trim_start(s.drop_last()) == s.drop_last());
    }
}

/// A `'\r'` at the end does not change the trimmed text.
pub proof fn lemma_trim_strip_cr(l: Seq<char>)
    ensures
        trim(strip_cr(l)) == trim(l),
{
    if l.len() > 0 && l.last() == '\r' {
        lemma_trim_start_drop_last(l);
    }
}

/// Trailing white space taken off at the end does not change the trimmed text.
pub proof fn lemma_trim_trim_end(l: Seq<char>)
    ensures
        trim(trim_end(l)) == trim(l),
    decreases l.len(),
{
    if l.len() > 0 && is_ws(l.last()) {
        lemma_trim_trim_end(l.drop_last());
        lemma_trim_start_drop_last(l);
    }
}

/// `trim_end` of a concatenation: the second part trimmed, or, when nothing
/// but white space is left of it, the first part trimmed.
pub proof fn lemma_trim_end_concat(a: Seq<char>, b: Seq<char>)
    ensures
        trim_end(a + b) == if trim_end(b).len() == 0 {
            trim_end(a)
        } else {
            a + trim_end(b)
        },
    decreases b.len(),
{
    if b.len() == 0 {
        assert(a + b =~= a);
    } else if is_ws(b.last()) {
        assert((a + b).drop_last() =~= a + b.drop_last());
        lemma_trim_end_concat(a, b.drop_last());
    } else {
        assert((a + b).last() == b.last());
    }
}

/// The lines of a text that ends a line, followed by more text.
pub proof fn lemma_lines_concat(x: Seq<char>, y: Seq<char>)
    requires
        x.len() > 0,
        x.last() == '\n',
    ensures
        lines(x + y) == lines(x) + lines(y),
    decreases x.len(),
{
    let nl = seq!['\n'];
    let s = x + y;
    lemma_occurs_single(x, '\n', x.len() - 1);
    lemma_find(x, nl);
    let k = find(x, nl)->Some_0;
    assert(0 <= k < x.len()) by {
        lemma_occurs_single(x, '\n', k);
    }
    assert(x[k] == '\n') by {
        lemma_occurs_single(x, '\n', k);
    }
    assert forall|j: int| 0 <= j < k implies x[j] != '\n' by {
        lemma_occurs_single(x, '\n', j);
    }
    assert(s[k] == '\n');
    assert forall|j: int| 0 <= j < k implies s[j] != '\n' by {
        assert(s[j] == x[j]);
    }
    lemma_lines_step(s, k);
    lemma_lines_step(x, k);
    assert(s.take(k) =~= x.take(k));
    if k + 1 == x.len() {
        assert(s.skip(k + 1) =~= y);
        assert(x.skip(k + 1) =~= Seq::<char>::empty());
        assert(lines(x.skip(k + 1)) =~= Seq::<Seq<char>>::empty());
    } else {
        let x2 = x.skip(k + 1);
        assert(s.skip(k + 1) =~= x2 + y);
        assert(x2.last() == x.last());
        lemma_lines_concat(x2, y);
    }
}

// ---------------------------------------------------------------------------
// Byte lengths
// ---------------------------------------------------------------------------

/// The length of a text in UTF-8 bytes, which is what `str::len` counts.
pub open spec fn byte_len(s: Seq<char>) -> nat {
    encode_utf8(s).len()
}

/// Swapping one one-byte character for another keeps the UTF-8 length.
pub proof fn lemma_replace_ascii_byte_len(s: Seq<char>, a: char, b: char)
    requires
        has_width_1_encoding(a as u32),
        has_width_1_encoding(b as u32),
    ensures
        byte_len(replace_char(s, a, b)) == byte_len(s),
    decreases s.len(),
{
    if s.len() > 0 {
        let r = replace_char(s, a, b);
        assert(r.drop_first() =~= replace_char(s.drop_first(), a, b));
        lemma_replace_ascii_byte_len(s.drop_first(), a, b);
        assert(encode_scalar(r[0] as u32).len() == encode_scalar(s[0] as u32).len());
    }
}

pub proof fn lemma_byte_len_push(s: Seq<char>, c: char)
    ensures
        byte_len(s.push(c)) == byte_len(s) + encode_scalar(c as u32).len(),
    decreases s.len(),
{
    if s.len() > 0 {
        assert(s.push(c).drop_first() =~= s.drop_first().push(c));
        assert(s.push(c)[0] == s[0]);
        lemma_byte_len_push(s.drop_first(), c);
    } else {
        assert(s.push(c).drop_first() =~= Seq::<char>::empty());
        assert(s.push(c)[0] == c);
        assert(encode_utf8(Seq::<char>::empty()) =~= Seq::<u8>::empty());
        assert(encode_utf8(s) =~= Seq::<u8>::empty());
    }
}

pub proof fn lemma_byte_len_bound(s: Seq<char>)
    ensures
        byte_len(s) <= 4 * s.len(),
    decreases s.len(),
{
    if s.len() > 0 {
        lemma_byte_len_bound(s.drop_first());
    }
}

/// The UTF-8 length of a text, or `cap` if that is smaller.
pub fn byte_len_capped(v: &Vec<char>, cap: usize) -> (r: usize)
    requires
        cap <= usize::MAX - 4,
    ensures
        r == if byte_len(v@) < cap { byte_len(v@) } else { cap as nat },
{
    if cap == 0 {
        return 0;
    }
    let mut acc: usize = 0;
    let mut i: usize = 0;
    assert(v@.take(0) =~= Seq::<char>::empty());
    assert(encode_utf8(Seq::<char>::empty()) =~= Seq::<u8>::empty());
    while i < v.len()
        invariant
            i <= v.len(),
            cap <= usize::MAX - 4,
            acc == byte_len(v@.take(i as int)),
            acc < cap,
        decreases v.len() - i,
    {
        let c = v[i];
        let u = c as u32;
        let w: usize = if u <= 0x7F {
            1
        } else if u <= 0x7FF {
            2
        } else if u <= 0xFFFF {
            3
        } else {
            4
        };
        proof {
            char_is_scalar(c);
            assert(encode_scalar(u).len() == w);
            lemma_byte_len_push(v@.take(i as int), c);
            assert(v@.take(i + 1) == v@.take(i as int).push(c));
        }
        acc = acc + w;
        i += 1;
        if acc >= cap {
            proof {
                let k = i as int;
                assert(v@ == v@.take(k) + v@.skip(k));
                lemma_byte_len_concat(v@.take(k), v@.skip(k));
            }
            return cap;
        }
    }
    assert(v@.take(v.len() as int) == v@);
    acc
}

pub proof fn lemma_byte_len_concat(a: Seq<char>, b: Seq<char>)
    ensures
        byte_len(a + b) == byte_len(a) + byte_len(b),
    decreases a.len(),
{
    if a.len() > 0 {
        assert((a + b).drop_first() =~= a.drop_first() + b);
        lemma_byte_len_concat(a.drop_first(), b);
    } else {
        assert(a + b =~= b);
    }
}

/// What `trim_start_set` leaves is a suffix of its argument that does not
/// start with a character of the set.
pub proof fn lemma_trim_start_set_suffix(s: Seq<char>, cs: CharSet) -> (k: int)
    ensures
        0 <= k <= s.len(),
        trim_start_set(s, cs) == s.skip(k),
        trim_start_set(s, cs).len() > 0 ==> !in_set(cs, trim_start_set(s, cs)[0]),
    decreases s.len(),
{
    if s.len() > 0 && in_set(cs, s[0]) {
        let k1 = lemma_trim_start_set_suffix(s.drop_first(), cs);
        assert(s.drop_first().skip(k1) =~= s.skip(k1 + 1));
        k1 + 1
    } else {
        assert(s.skip(0) =~= s);
        0
    }
}

/// What `trim_end_set` leaves is a prefix of its argument that does not end
/// with a character of the set.
pub proof fn lemma_trim_end_set_prefix(s: Seq<char>, cs: CharSet) -> (n: int)
    ensures
        0 <= n <= s.len(),
        trim_end_set(s, cs) == s.take(n),
        trim_end_set(s, cs).len() > 0 ==> !in_set(cs, trim_end_set(s, cs).last()),
    decreases s.len(),
{
    if s.len() > 0 && in_set(cs, s.last()) {
        let n1 = lemma_trim_end_set_prefix(s.drop_last(), cs);
        assert(s.drop_last().take(n1) =~= s.take(n1));
        n1
    } else {
        assert(s.take(s.len() as int) =~= s);
        s.len() as int
    }
}

/// `trim_set` leaves a slice of its argument that neither starts nor ends
/// with a character of the set.
pub proof fn lemma_trim_set_slice(s: Seq<char>, cs: CharSet) -> (ab: (int, int))
    ensures
        0 <= ab.0 <= ab.1 <= s.len(),
        trim_set(s, cs) == s.subrange(ab.0, ab.1),
        trim_set(s, cs).len() > 0 ==> !in_set(cs, trim_set(s, cs)[0]) && !in_set(
            cs,
            trim_set(s, cs).last(),
        ),
{
    let k = lemma_trim_start_set_suffix(s, cs);
    let t = s.skip(k);
    let n = lemma_trim_end_set_prefix(t, cs);
    assert(t.take(n) =~= s.subrange(k, k + n));
    if trim_set(s, cs).len() > 0 {
        assert(trim_set(s, cs)[0] == trim_start_set(s, cs)[0]);
    }
    (k, k + n)
}

/// Keys in order: each element's key is at most every later one's.
pub open spec fn keys_sorted<T>(s: Seq<(Seq<char>, T)>) -> bool {
    forall|i: int, j: int| 0 <= i < j < s.len() ==> lex_le(#[trigger] s[i].0, #[trigger] s[j].0)
}

/// An element whose key is `k`.
pub open spec fn key_is<T>(k: Seq<char>) -> spec_fn((Seq<char>, T)) -> bool {
    |x: (Seq<char>, T)| x.0 == k
}

/// The elements of `s` with key `k`, in their order.
pub open spec fn with_key<T>(s: Seq<(Seq<char>, T)>, k: Seq<char>) -> Seq<(Seq<char>, T)> {
    s.filter(key_is(k))
}

proof fn lemma_with_key_add<T>(a: Seq<(Seq<char>, T)>, b: Seq<(Seq<char>, T)>, k: Seq<char>)
    ensures
        with_key(a + b, k) == with_key(a, k) + with_key(b, k),
{
    Seq::filter_distributes_over_add(a, b, key_is(k));
}

proof fn lemma_with_key_one<T>(x: (Seq<char>, T), k: Seq<char>)
    ensures
        with_key(seq![x], k) == if x.0 == k {
            seq![x]
        } else {
            Seq::<(Seq<char>, T)>::empty()
        },
{
    reveal_with_fuel(Seq::filter, 2);
    let e = Seq::<(Seq<char>, T)>::empty();
    assert(seq![x].drop_last() =~= e);
    assert(e.filter(key_is(k)) =~= e);
    assert(seq![x].last() == x);
}

proof fn lemma_with_key_none<T>(s: Seq<(Seq<char>, T)>, k: Seq<char>)
    requires
        forall|i: int| 0 <= i < s.len() ==> #[trigger] s[i].0 != k,
    ensures
        with_key(s, k) == Seq::<(Seq<char>, T)>::empty(),
{
    let f = with_key(s, k);
    if f.len() > 0 {
        s.filter_lemma(key_is(k));
        assert(f.contains(f[0]));
        s.lemma_filter_contains_rev(key_is(k), f[0]);
        assert(key_is::<T>(k)(f[0]));
    }
}

proof fn lemma_insert_keyed_props<T>(s: Seq<(Seq<char>, T)>, x: (Seq<char>, T))
    requires
        keys_sorted(s),
    ensures
        keys_sorted(insert_keyed(s, x)),
        insert_keyed(s, x).to_multiset() == s.to_multiset().insert(x),
        forall|k: Seq<char>| #[trigger] with_key(insert_keyed(s, x), k) == if x.0 == k {
            with_key(s, k).push(x)
        } else {
            with_key(s, k)
        },
        forall|b: Seq<char>|
            lex_le(b, x.0) && (forall|j: int| 0 <= j < s.len() ==> lex_le(b, #[trigger] s[j].0))
                ==> forall|i: int| 0 <= i < insert_keyed(s, x).len() ==> lex_le(b, #[trigger] insert_keyed(s, x)[i].0),
    decreases s.len(),
{
    broadcast use vstd::seq_lib::lemma_multiset_commutative;
    broadcast use vstd::seq_lib::to_multiset_build;
    let r = insert_keyed(s, x);
    if s.len() == 0 {
        assert(seq![x] =~= Seq::<(Seq<char>, T)>::empty().push(x));
        assert(s =~= Seq::<(Seq<char>, T)>::empty());
        assert(s.to_multiset() =~= vstd::multiset::Multiset::empty()) by {
            broadcast use vstd::seq_lib::group_to_multiset_ensures;
        }
        assert forall|k: Seq<char>| #[trigger] with_key(r, k) == if x.0 == k {
            with_key(s, k).push(x)
        } else {
            with_key(s, k)
        } by {
            lemma_with_key_one(x, k);
            assert(s =~= Seq::<(Seq<char>, T)>::empty());
            lemma_with_key_none(s, k);
        }
    } else if !lex_le(s[0].0, x.0) {
        lemma_lex_total(s[0].0, x.0);
        assert forall|j: int| 0 <= j < s.len() implies lex_le(x.0, #[trigger] s[j].0) by {
            if j > 0 {
                lemma_lex_transitive(x.0, s[0].0, s[j].0);
            }
        }
        assert(keys_sorted(r)) by {
            assert forall|i: int, j: int| 0 <= i < j < r.len() implies lex_le(#[trigger] r[i].0, #[trigger] r[j].0) by {
                if i == 0 {
                    assert(r[j] == s[j - 1]);
                } else {
                    assert(r[i] == s[i - 1] && r[j] == s[j - 1]);
                }
            }
        }
        assert(r.to_multiset() == s.to_multiset().insert(x)) by {
            assert(seq![x] =~= Seq::<(Seq<char>, T)>::empty().push(x));
            assert(Seq::<(Seq<char>, T)>::empty().to_multiset() =~= vstd::multiset::Multiset::empty()) by {
                broadcast use vstd::seq_lib::group_to_multiset_ensures;
            }
            assert(seq![x].to_multiset() =~= vstd::multiset::Multiset::empty().insert(x));
            assert(s.to_multiset().insert(x) =~= vstd::multiset::Multiset::empty().insert(x).add(s.to_multiset()));
        }
        assert forall|k: Seq<char>| #[trigger] with_key(r, k) == if x.0 == k {
            with_key(s, k).push(x)
        } else {
            with_key(s, k)
        } by {
            lemma_with_key_add(seq![x], s, k);
            lemma_with_key_one(x, k);
            if x.0 == k {
                assert forall|i: int| 0 <= i < s.len() implies #[trigger] s[i].0 != k by {
                    if s[i].0 == k {
                        if i > 0 {
                            lemma_lex_transitive(s[0].0, s[i].0, x.0);
                        }
                    }
                }
                lemma_with_key_none(s, k);
                assert(with_key(s, k).push(x) =~= seq![x]);
            } else {
                assert(with_key(r, k) =~= with_key(s, k));
            }
        }
        assert forall|b: Seq<char>|
            lex_le(b, x.0) && (forall|j: int| 0 <= j < s.len() ==> lex_le(b, #[trigger] s[j].0))
                implies forall|i: int| 0 <= i < r.len() ==> lex_le(b, #[trigger] r[i].0) by {
            assert forall|i: int| 0 <= i < r.len() implies lex_le(b, #[trigger] r[i].0) by {
                if i > 0 {
                    assert(r[i] == s[i - 1]);
                }
            }
        }
    } else {
        let rest = s.drop_first();
        assert(keys_sorted(rest)) by {
            assert forall|i: int, j: int| 0 <= i < j < rest.len() implies lex_le(#[trigger] rest[i].0, #[trigger] rest[j].0) by {
                assert(rest[i] == s[i + 1] && rest[j] == s[j + 1]);
            }
        }
        lemma_insert_keyed_props(rest, x);
        let r1 = insert_keyed(rest, x);
        assert(r == seq![s[0]] + r1);
        assert(forall|j: int| 0 <= j < rest.len() ==> lex_le(s[0].0, #[trigger] rest[j].0)) by {
            assert forall|j: int| 0 <= j < rest.len() implies lex_le(s[0].0, #[trigger] rest[j].0) by {
                assert(rest[j] == s[j + 1]);
            }
        }
        assert(forall|i: int| 0 <= i < r1.len() ==> lex_le(s[0].0, #[trigger] r1[i].0));
        assert(keys_sorted(r)) by {
            assert forall|i: int, j: int| 0 <= i < j < r.len() implies lex_le(#[trigger] r[i].0, #[trigger] r[j].0) by {
                if i == 0 {
                    assert(r[j] == r1[j - 1]);
                } else {
                    assert(r[i] == r1[i - 1] && r[j] == r1[j - 1]);
                }
            }
        }
        assert(s =~= seq![s[0]] + rest);
        assert(r.to_multiset() == s.to_multiset().insert(x)) by {
            assert(seq![s[0]].to_multiset().add(rest.to_multiset().insert(x)) =~= seq![s[0]].to_multiset().add(
                rest.to_multiset(),
            ).insert(x));
        }
        assert forall|k: Seq<char>| #[trigger] with_key(r, k) == if x.0 == k {
            with_key(s, k).push(x)
        } else {
            with_key(s, k)
        } by {
            lemma_with_key_add(seq![s[0]], r1, k);
            lemma_with_key_add(seq![s[0]], rest, k);
            if x.0 == k {
                assert(with_key(seq![s[0]], k) + with_key(rest, k).push(x) =~= (with_key(seq![s[0]], k)
                    + with_key(rest, k)).push(x));
            }
        }
        assert forall|b: Seq<char>|
            lex_le(b, x.0) && (forall|j: int| 0 <= j < s.len() ==> lex_le(b, #[trigger] s[j].0))
                implies forall|i: int| 0 <= i < r.len() ==> lex_le(b, #[trigger] r[i].0) by {
            assert(forall|j: int| 0 <= j < rest.len() ==> lex_le(b, #[trigger] rest[j].0)) by {
                assert forall|j: int| 0 <= j < rest.len() implies lex_le(b, #[trigger] rest[j].0) by {
                    assert(rest[j] == s[j + 1]);
                }
            }
            assert forall|i: int| 0 <= i < r.len() implies lex_le(b, #[trigger] r[i].0) by {
                if i > 0 {
                    assert(r[i] == r1[i - 1]);
                }
            }
        }
    }
}

/// The stable sort by key: its keys are in order, it holds the same
/// elements, and the elements of each key keep their original order.
pub proof fn lemma_isort_keyed_stable<T>(s: Seq<(Seq<char>, T)>)
    ensures
        keys_sorted(isort_keyed(s)),
        isort_keyed(s).to_multiset() == s.to_multiset(),
        forall|k: Seq<char>| #[trigger] with_key(isort_keyed(s), k) == with_key(s, k),
    decreases s.len(),
{
    broadcast use vstd::seq_lib::to_multiset_build;
    if s.len() > 0 {
        let init = s.drop_last();
        lemma_isort_keyed_stable(init);
        lemma_insert_keyed_props(isort_keyed(init), s.last());
        assert(s =~= init.push(s.last()));
        assert forall|k: Seq<char>| #[trigger] with_key(isort_keyed(s), k) == with_key(s, k) by {
            assert(init.push(s.last()) =~= init + seq![s.last()]);
            lemma_with_key_add(init, seq![s.last()], k);
            lemma_with_key_one(s.last(), k);
            if s.last().0 == k {
                assert(with_key(init, k).push(s.last()) =~= with_key(init, k) + seq![s.last()]);
            } else {
                assert(with_key(init, k) + Seq::<(Seq<char>, T)>::empty() =~= with_key(init, k));
            }
        }
    }
}

} // verus!
