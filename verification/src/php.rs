//! PHP: which extensions `php.ini` loads, switching one on or off, and the
//! files that route requests to PHP (FastCGI for Apache, an upstream for Nginx).
use vstd::prelude::*;
use crate::config::{LaxConfig, Paths};
use crate::error::{LaxError, LaxResult, err_msg};
use crate::hosts::{stripped};
use crate::paths::{FileWrite, join, join_path, join_unix_spec, unix, unix_spec, writes_view};
use crate::text::{CharSet, Sep, append_chars, append_str, chars_eq, chars_of, contains, contains_char, contains_str, dec, dec_chars, ends_with, ends_with_str, eq_str, find, first_sep, is_digit, is_lower, is_sep, is_sep_exec, lemma_find, lemma_find_is, lemma_first_sep, lemma_first_sep_is, lemma_lex_antisymmetric, lemma_lex_reflexive, lemma_lex_total, lemma_lex_transitive, lemma_lines_no_newline, lemma_lines_unlines, lemma_trim_strip_cr, lex_le, lex_le_chars, lines, lines_of, lower, lower_chars, lower_seq, no_newline, occurs_at, push_line, replace_all, replace_str, slice_chars, split, starts_with, starts_with_chars, starts_with_str, string_of, strip_cr, strip_prefix, strip_prefix_str, strip_suffix, strip_suffix_str, trim, trim_chars, trim_chars_set, trim_set, trim_start, trim_start_chars, trim_str, unlines, views};

verus! {

// ---------------------------------------------------------------------------
// Extension lines of php.ini
// ---------------------------------------------------------------------------

/// The piece of `s` after its last `/` or `\` (`rsplit(['/', '\\']).next()`).
pub open spec fn file_part(s: Seq<char>) -> Seq<char> {
    split(s, Sep::Slashes).last()
}

/// `s` up to its first `;`, trimmed; `s` itself when it has none.
pub open spec fn cut_comment(s: Seq<char>) -> Seq<char> {
    match first_sep(s, Sep::Char(';')) {
        Some(i) => trim(s.take(i)),
        None => s,
    }
}

/// `name` without one `.dll` and then without one `.so` at its end.
pub open spec fn strip_lib_suffixes(name: Seq<char>) -> Seq<char> {
    let a = match strip_suffix(name, ".dll"@) {
        Some(x) => x,
        None => name,
    };
    match strip_suffix(a, ".so"@) {
        Some(x) => x,
        None => a,
    }
}

/// The extension name that a value such as `"php_mysqli.dll"` or
/// `ext/opcache.so ; comment` stands for: quotes, comment, directory,
/// `php_` prefix and library suffix removed, lower-cased; none when that
/// leaves nothing or something with a space in it.
pub open spec fn ext_name_of(value: Seq<char>) -> Option<Seq<char>> {
    let v0 = trim_set(trim_set(trim(value), CharSet::One('"')), CharSet::One('\''));
    let v = cut_comment(v0);
    if v.len() == 0 {
        None
    } else {
        let file = file_part(v);
        let base = match strip_prefix(file, "php_"@) {
            Some(x) => x,
            None => file,
        };
        let name = strip_lib_suffixes(base);
        if name.len() == 0 || name.contains(' ') {
            None
        } else {
            Some(lower_seq(name))
        }
    }
}

/// The state and the text after the `;` of a line, when it is a directive
/// or a commented-out one (documentation samples, with blanks after the `;`,
/// are not).
pub open spec fn ext_line_body(line: Seq<char>) -> Option<(bool, Seq<char>)> {
    let raw = trim(line);
    if raw.len() == 0 {
        None
    } else if raw[0] == ';' {
        let stripped = raw.drop_first();
        let rest = trim(stripped);
        if !(starts_with(rest, "extension"@) || starts_with(rest, "zend_extension"@)) {
            None
        } else if stripped.len() > 0 && (stripped[0] == ' ' || stripped[0] == '\t') {
            None
        } else {
            Some((false, rest))
        }
    } else {
        Some((true, raw))
    }
}

/// The kind (`zend` or `extension`), name and state that a line of
/// `php.ini` declares, if it declares an extension.
pub open spec fn ext_line(line: Seq<char>) -> Option<(Seq<char>, Seq<char>, bool)> {
    match ext_line_body(line) {
        None => None,
        Some((enabled, rest)) => {
            let kv: Option<(Seq<char>, Seq<char>)> = if starts_with(rest, "zend_extension"@) {
                Some(("zend"@, rest.skip("zend_extension"@.len() as int)))
            } else if starts_with(rest, "extension"@) {
                Some(("extension"@, rest.skip("extension"@.len() as int)))
            } else {
                None
            };
            match kv {
                None => None,
                Some((kind, value)) => {
                    let t = trim(value);
                    if t.len() == 0 || t[0] != '=' {
                        None
                    } else {
                        let val = trim(t.drop_first());
                        if val.len() == 0 {
                            None
                        } else {
                            match ext_name_of(val) {
                                None => None,
                                Some(name) => if name == "modulename"@ {
                                    None
                                } else {
                                    Some((kind, name, enabled))
                                },
                            }
                        }
                    }
                },
            }
        },
    }
}

/// The line that declares an extension in the given state.
pub open spec fn ext_directive(kind: Seq<char>, name: Seq<char>, enabled: bool) -> Seq<char> {
    (if enabled { Seq::empty() } else { ";"@ }) + (if kind == "zend"@ {
        "zend_extension="@
    } else {
        "extension="@
    }) + name
}

/// The index of the last `/` or `\` in `v`, if any.
fn last_slash(v: &Vec<char>) -> (r: Option<usize>)
    ensures
        r matches Some(i) ==> i < v.len() && is_sep(Sep::Slashes, v@[i as int]) && forall|j: int|
            i < j < v.len() ==> !is_sep(Sep::Slashes, v@[j]),
        r is None ==> forall|j: int| 0 <= j < v.len() ==> !is_sep(Sep::Slashes, v@[j]),
{
    let mut i = v.len();
    while i > 0
        invariant
            i <= v.len(),
            forall|j: int| i <= j < v.len() ==> !is_sep(Sep::Slashes, v@[j]),
        decreases i,
    {
        if is_sep_exec(Sep::Slashes, v[i - 1]) {
            return Some(i - 1);
        }
        i -= 1;
    }
    None
}

/// The last piece of a split is what follows the last separator.
proof fn lemma_split_last(s: Seq<char>, sp: Sep, i: Option<int>)
    requires
        i matches Some(k) ==> 0 <= k < s.len() && is_sep(sp, s[k]) && forall|j: int|
            k < j < s.len() ==> !is_sep(sp, s[j]),
        i is None ==> forall|j: int| 0 <= j < s.len() ==> !is_sep(sp, s[j]),
    ensures
        split(s, sp).len() > 0,
        split(s, sp).last() == match i {
            Some(k) => s.skip(k + 1),
            None => s,
        },
    decreases s.len(),
{
    lemma_first_sep(s, sp);
    match first_sep(s, sp) {
        Some(f) => {
            let t = s.skip(f + 1);
            let ti: Option<int> = match i {
                Some(k) => if k > f {
                    Some(k - f - 1)
                } else {
                    None
                },
                None => None,
            };
            if let Some(k) = i {
                assert(k >= f);
            }
            lemma_split_last(t, sp, ti);
            if let Some(k) = i {
                if k > f {
                    assert(t.skip(k - f) == s.skip(k + 1));
                } else {
                    assert(k == f);
                }
            }
        },
        None => {},
    }
}

fn file_part_chars(v: &Vec<char>) -> (r: Vec<char>)
    ensures
        r@ == file_part(v@),
{
    let i = last_slash(v);
    proof {
        lemma_split_last(v@, Sep::Slashes, match i { Some(k) => Some(k as int), None => None });
    }
    match i {
        Some(k) => slice_chars(v, k + 1, v.len()),
        None => slice_chars(v, 0, v.len()),
    }
}

fn first_char_index(v: &Vec<char>, c: char) -> (r: Option<usize>)
    ensures
        r matches Some(i) ==> i < v.len() && first_sep(v@, Sep::Char(c)) == Some(i as int),
        r is None ==> first_sep(v@, Sep::Char(c)) is None,
{
    let mut i: usize = 0;
    while i < v.len()
        invariant
            i <= v.len(),
            forall|j: int| 0 <= j < i ==> v@[j] != c,
        decreases v.len() - i,
    {
        if v[i] == c {
            proof {
                lemma_first_sep_is(v@, Sep::Char(c), i as int);
            }
            return Some(i);
        }
        i += 1;
    }
    proof {
        lemma_first_sep_is(v@, Sep::Char(c), v.len() as int);
    }
    None
}

fn ext_name_chars(value: &Vec<char>) -> (r: Option<Vec<char>>)
    ensures
        r matches Some(x) ==> ext_name_of(value@) == Some(x@),
        r is None ==> ext_name_of(value@) is None,
{
    let a = trim_chars(value);
    let b = trim_chars_set(&a, CharSet::One('"'));
    let v0 = trim_chars_set(&b, CharSet::One('\''));
    let v = match first_char_index(&v0, ';') {
        Some(i) => {
            let head = slice_chars(&v0, 0, i);
            trim_chars(&head)
        },
        None => v0,
    };
    if v.len() == 0 {
        return None;
    }
    let file = file_part_chars(&v);
    let base = match strip_prefix_str(&file, "php_") {
        Some(x) => x,
        None => file,
    };
    let n1 = match strip_suffix_str(&base, ".dll") {
        Some(x) => x,
        None => base,
    };
    let name = match strip_suffix_str(&n1, ".so") {
        Some(x) => x,
        None => n1,
    };
    if name.len() == 0 || contains_char(&name, ' ') {
        None
    } else {
        Some(lower_chars(&name))
    }
}

/// The extension name a value stands for (see [`ext_name_of`]).
pub fn normalize_ext_name(value: &str) -> (r: Option<String>)
    ensures
        r matches Some(x) ==> ext_name_of(value@) == Some(x@),
        r is None ==> ext_name_of(value@) is None,
{
    let v = chars_of(value);
    match ext_name_chars(&v) {
        Some(x) => Some(string_of(&x)),
        None => None,
    }
}

/// The view of a parsed extension line.
pub open spec fn ext_view(r: Option<(Vec<char>, Vec<char>, bool)>) -> Option<(Seq<char>, Seq<char>, bool)> {
    match r {
        Some((k, n, e)) => Some((k@, n@, e)),
        None => None,
    }
}

fn ext_line_chars(line: &Vec<char>) -> (r: Option<(Vec<char>, Vec<char>, bool)>)
    ensures
        ext_view(r) == ext_line(line@),
{
    let raw = trim_chars(line);
    if raw.len() == 0 {
        return None;
    }
    let enabled: bool;
    let rest: Vec<char>;
    if raw[0] == ';' {
        let stripped = slice_chars(&raw, 1, raw.len());
        assert(stripped@ == raw@.drop_first());
        let r = trim_chars(&stripped);
        if !(starts_with_str(&r, "extension") || starts_with_str(&r, "zend_extension")) {
            return None;
        }
        if stripped.len() > 0 && (stripped[0] == ' ' || stripped[0] == '\t') {
            return None;
        }
        enabled = false;
        rest = r;
    } else {
        enabled = true;
        rest = raw;
    }
    assert(ext_line_body(line@) == Some((enabled, rest@)));
    let kind: Vec<char>;
    let value: Vec<char>;
    if starts_with_str(&rest, "zend_extension") {
        proof {
            reveal_strlit("zend_extension");
        }
        kind = chars_of("zend");
        value = slice_chars(&rest, 14, rest.len());
    } else if starts_with_str(&rest, "extension") {
        proof {
            reveal_strlit("extension");
        }
        kind = chars_of("extension");
        value = slice_chars(&rest, 9, rest.len());
    } else {
        return None;
    }
    let t = trim_chars(&value);
    if t.len() == 0 || t[0] != '=' {
        return None;
    }
    let t1 = slice_chars(&t, 1, t.len());
    assert(t1@ == t@.drop_first());
    let val = trim_chars(&t1);
    if val.len() == 0 {
        return None;
    }
    match ext_name_chars(&val) {
        None => None,
        Some(name) => {
            if eq_str(&name, "modulename") {
                None
            } else {
                Some((kind, name, enabled))
            }
        },
    }
}

/// The kind, name and state a line of `php.ini` declares (see [`ext_line`]).
pub fn parse_ext_line(line: &str) -> (r: Option<(String, String, bool)>)
    ensures
        r matches Some((k, n, e)) ==> ext_line(line@) == Some((k@, n@, e)),
        r is None ==> ext_line(line@) is None,
{
    let v = chars_of(line);
    match ext_line_chars(&v) {
        Some((k, n, e)) => Some((string_of(&k), string_of(&n), e)),
        None => None,
    }
}

/// The extension a library file in `ext/` provides: files ending in `.dll`
/// or `.so` (any ASCII case) give their normalized name.
pub open spec fn dll_name_of(fname: Seq<char>) -> Option<Seq<char>> {
    let lower = lower_seq(fname);
    if !(ends_with(lower, ".dll"@) || ends_with(lower, ".so"@)) {
        None
    } else {
        ext_name_of(lower)
    }
}

pub fn dll_to_name(fname: &str) -> (r: Option<String>)
    ensures
        r matches Some(x) ==> dll_name_of(fname@) == Some(x@),
        r is None ==> dll_name_of(fname@) is None,
{
    let v = chars_of(fname);
    let lower = lower_chars(&v);
    if !(ends_with_str(&lower, ".dll") || ends_with_str(&lower, ".so")) {
        return None;
    }
    match ext_name_chars(&lower) {
        Some(x) => Some(string_of(&x)),
        None => None,
    }
}

fn ext_directive_chars(kind: &Vec<char>, name: &Vec<char>, enabled: bool) -> (r: Vec<char>)
    ensures
        r@ == ext_directive(kind@, name@, enabled),
{
    let mut r: Vec<char> = Vec::new();
    if !enabled {
        r.push(';');
    }
    if eq_str(kind, "zend") {
        append_str(&mut r, "zend_extension=");
    } else {
        append_str(&mut r, "extension=");
    }
    append_chars(&mut r, name);
    proof {
        reveal_strlit(";");
    }
    assert(r@ =~= ext_directive(kind@, name@, enabled));
    r
}

/// The line that declares extension `name` of `kind` in the given state.
pub fn format_ext_line(kind: &str, name: &str, enabled: bool) -> (r: String)
    ensures
        r@ == ext_directive(kind@, name@, enabled),
{
    let k = chars_of(kind);
    let n = chars_of(name);
    let r = ext_directive_chars(&k, &n, enabled);
    string_of(&r)
}

// ---------------------------------------------------------------------------
// Switching an extension on or off
// ---------------------------------------------------------------------------

/// The name an extension is asked for by: trimmed, ASCII lower case.
pub open spec fn target_of(name: Seq<char>) -> Seq<char> {
    lower_seq(trim(name))
}

/// The line declares the extension `target` (names compared ignoring ASCII case).
pub open spec fn declares(line: Seq<char>, target: Seq<char>) -> bool {
    ext_line(line) matches Some((k, n, e)) && lower_seq(n) == lower_seq(target)
}

/// The line after switching `target` to `enabled`: a line that declares it
/// is written anew, keeping its kind; any other line stays.
pub open spec fn switched_line(line: Seq<char>, target: Seq<char>, enabled: bool) -> Seq<char> {
    match ext_line(line) {
        Some((k, n, e)) => if lower_seq(n) == lower_seq(target) {
            ext_directive(k, n, enabled)
        } else {
            line
        },
        None => line,
    }
}

/// `php.ini` after switching extension `name` to `enabled`: every line that
/// declares it is rewritten; when none does, `extension=<name>` is appended.
/// Every line ends with `'\n'`.
pub open spec fn switched_ini(text: Seq<char>, name: Seq<char>, enabled: bool) -> Seq<char> {
    let t = target_of(name);
    let ls = lines(text);
    unlines(ls.map_values(|l: Seq<char>| switched_line(l, t, enabled))) + if exists|i: int|
        0 <= i < ls.len() && #[trigger] declares(ls[i], t) {
        Seq::empty()
    } else {
        ext_directive("extension"@, t, enabled) + seq!['\n']
    }
}

/// The new text of `php.ini` (given as `ini`, `None` when the file is
/// missing) with extension `name` switched to `enabled`.
pub fn set_extension(ini: Option<&str>, name: &str, enabled: bool) -> (r: LaxResult<String>)
    ensures
        ini is None ==> err_msg(r, "php.ini not found"@),
        ini matches Some(text) ==> r matches Ok(out) && out@ == switched_ini(text@, name@, enabled),
{
    let text = match ini {
        None => return Err(LaxError::msg("php.ini not found".to_string())),
        Some(t) => t,
    };
    let tn = trim_str(name);
    let target = lower_chars(&tn);
    let ls = lines_of(text);
    let ghost t = target_of(name@);
    let ghost lsv = lines(text@);
    let ghost mapped = lsv.map_values(|l: Seq<char>| switched_line(l, t, enabled));
    let mut found = false;
    let mut out: Vec<char> = Vec::new();
    let mut i: usize = 0;
    while i < ls.len()
        invariant
            i <= ls.len(),
            views(ls@) == lsv,
            target@ == t,
            mapped == lsv.map_values(|l: Seq<char>| switched_line(l, t, enabled)),
            out@ == unlines(mapped.take(i as int)),
            found <==> exists|j: int| 0 <= j < i && #[trigger] declares(lsv[j], t),
        decreases ls.len() - i,
    {
        let line = &ls[i];
        assert(line@ == lsv[i as int]);
        assert(mapped.take(i + 1).drop_last() == mapped.take(i as int));
        let parsed = ext_line_chars(line);
        let mut replaced = false;
        if let Some((k, n, _e)) = parsed {
            let ln = lower_chars(&n);
            let lt = lower_chars(&target);
            if chars_eq(&ln, &lt) {
                let d = ext_directive_chars(&k, &n, enabled);
                push_line(&mut out, &d);
                replaced = true;
                found = true;
            }
        }
        if !replaced {
            push_line(&mut out, line);
        }
        assert(replaced == declares(lsv[i as int], t));
        i += 1;
    }
    assert(mapped.take(ls.len() as int) == mapped);
    if !found {
        let k = chars_of("extension");
        let d = ext_directive_chars(&k, &target, enabled);
        push_line(&mut out, &d);
    }
    Ok(string_of(&out))
}

// ---------------------------------------------------------------------------
// Listing extensions
// ---------------------------------------------------------------------------

/// An extension as the PHP screen shows it.
#[derive(Clone, Debug)]
pub struct PhpExtension {
    pub name: String,
    pub enabled: bool,
    pub kind: String,
}

pub open spec fn ext_key(kind: Seq<char>, name: Seq<char>) -> Seq<char> {
    kind + ":"@ + name
}

pub type ExtEntry = (Seq<char>, Seq<char>, bool);

/// The extensions `php.ini` declares, by `kind:name`; a later line for the
/// same extension wins.
pub open spec fn ini_table(ls: Seq<Seq<char>>) -> Map<Seq<char>, ExtEntry>
    decreases ls.len(),
{
    if ls.len() == 0 {
        Map::empty()
    } else {
        let m = ini_table(ls.drop_last());
        match ext_line(ls.last()) {
            Some((k, n, e)) => m.insert(ext_key(k, n), (k, n, e)),
            None => m,
        }
    }
}

/// The table with the library files of `ext/` added as disabled extensions
/// where `php.ini` does not mention them.
pub open spec fn with_files(m: Map<Seq<char>, ExtEntry>, files: Seq<Seq<char>>) -> Map<Seq<char>, ExtEntry>
    decreases files.len(),
{
    if files.len() == 0 {
        m
    } else {
        let m2 = with_files(m, files.drop_last());
        match dll_name_of(files.last()) {
            Some(n) => if m2.contains_key(ext_key("extension"@, n)) {
                m2
            } else {
                m2.insert(ext_key("extension"@, n), ("extension"@, n, false))
            },
            None => m2,
        }
    }
}

/// All extensions known from `php.ini` (text `ini`) and the files of `ext/`.
pub open spec fn ext_table(ini: Seq<char>, files: Seq<Seq<char>>) -> Map<Seq<char>, ExtEntry> {
    with_files(ini_table(lines(ini)), files)
}

pub open spec fn ext_entry(x: PhpExtension) -> ExtEntry {
    (x.kind@, x.name@, x.enabled)
}

pub open spec fn key_of(x: PhpExtension) -> Seq<char> {
    ext_key(x.kind@, x.name@)
}

pub open spec fn lex_lt(a: Seq<char>, b: Seq<char>) -> bool {
    lex_le(a, b) && a != b
}

/// `v` lists exactly the entries of `m`, in increasing order of key.
pub open spec fn lists(v: Seq<PhpExtension>, m: Map<Seq<char>, ExtEntry>) -> bool {
    &&& forall|i: int, j: int| 0 <= i < j < v.len() ==> lex_lt(key_of(v[i]), key_of(v[j]))
    &&& forall|i: int| 0 <= i < v.len() ==> #[trigger] m.contains_key(key_of(v[i])) && m[key_of(v[i])] == ext_entry(v[i])
    &&& forall|k: Seq<char>| #[trigger] m.contains_key(k) ==> exists|i: int| 0 <= i < v.len() && key_of(v[i]) == k
    &&& forall|k: Seq<char>| #[trigger] m.contains_key(k) ==> k == ext_key(m[k].0, m[k].1)
}

fn key_chars(x: &PhpExtension) -> (r: Vec<char>)
    ensures
        r@ == key_of(*x),
{
    let mut r = chars_of(x.kind.as_str());
    r.push(':');
    append_str(&mut r, x.name.as_str());
    proof {
        reveal_strlit(":");
    }
    assert(r@ =~= key_of(*x));
    r
}

proof fn lemma_lex_lt_transitive(a: Seq<char>, b: Seq<char>, c: Seq<char>)
    requires
        lex_le(a, b),
        lex_lt(b, c) || (lex_lt(a, b) && lex_le(b, c)),
    ensures
        lex_le(a, c),
        lex_lt(a, b) || lex_lt(b, c) ==> a != c,
{
    lemma_lex_transitive(a, b, c);
    if a == c {
        lemma_lex_antisymmetric(a, b);
    }
}

/// Adds entry `x` to the list `v` of table `m`; an entry already there is
/// replaced only when `replace` holds.
fn put_ext(v: &mut Vec<PhpExtension>, x: PhpExtension, replace: bool, Ghost(m): Ghost<Map<Seq<char>, ExtEntry>>)
    requires
        lists(old(v)@, m),
    ensures
        lists(
            final(v)@,
            if replace || !m.contains_key(key_of(x)) {
                m.insert(key_of(x), ext_entry(x))
            } else {
                m
            },
        ),
{
    let kx = key_chars(&x);
    let mut i: usize = 0;
    loop
        invariant
            i <= v.len(),
            kx@ == key_of(x),
            lists(v@, m),
            forall|j: int| 0 <= j < i ==> lex_lt(key_of(v@[j]), kx@),
        ensures
            i <= v.len(),
            forall|j: int| 0 <= j < i ==> lex_lt(key_of(v@[j]), kx@),
            i < v.len() ==> lex_le(kx@, key_of(v@[i as int])),
        decreases v.len() - i,
    {
        if i == v.len() {
            break;
        }
        let ki = key_chars(&v[i]);
        if !(lex_le_chars(&ki, &kx) && !chars_eq(&ki, &kx)) {
            proof {
                lemma_lex_total(ki@, kx@);
                if ki@ == kx@ {
                    lemma_lex_reflexive(kx@);
                }
            }
            break;
        }
        i += 1;
    }
    let ghost old_v = v@;
    let ghost m2 = if replace || !m.contains_key(key_of(x)) {
        m.insert(key_of(x), ext_entry(x))
    } else {
        m
    };
    let same = i < v.len() && {
        let ki = key_chars(&v[i]);
        chars_eq(&ki, &kx)
    };
    if same {
        proof {
            assert(m.contains_key(key_of(x)));
        }
        if replace {
            v.set(i, x);
            proof {
                assert forall|a: int, b: int| 0 <= a < b < v@.len() implies lex_lt(key_of(v@[a]), key_of(v@[b])) by {
                    assert(lex_lt(key_of(old_v[a]), key_of(old_v[b])));
                }
                assert forall|k: Seq<char>| #[trigger] m2.contains_key(k) implies exists|j: int| 0 <= j < v@.len() && key_of(v@[j]) == k by {
                    if k != key_of(x) {
                        let j = choose|j: int| 0 <= j < old_v.len() && key_of(old_v[j]) == k;
                        assert(key_of(v@[j]) == k);
                    } else {
                        assert(key_of(v@[i as int]) == k);
                    }
                }
                assert forall|j: int| 0 <= j < v@.len() implies #[trigger] m2.contains_key(key_of(v@[j])) && m2[key_of(v@[j])] == ext_entry(v@[j]) by {
                    if j != i {
                        assert(m.contains_key(key_of(old_v[j])));
                        if key_of(old_v[j]) == key_of(x) {
                            if j < i {
                                assert(lex_lt(key_of(old_v[j]), kx@));
                            } else {
                                assert(lex_lt(key_of(old_v[i as int]), key_of(old_v[j])));
                            }
                        }
                    }
                }
            }
        }
    } else {
        proof {
            if m.contains_key(key_of(x)) {
                let j = choose|j: int| 0 <= j < old_v.len() && key_of(old_v[j]) == key_of(x);
                if j < i {
                    assert(lex_lt(key_of(old_v[j]), kx@));
                } else if j > i {
                    assert(lex_lt(key_of(old_v[i as int]), key_of(old_v[j])));
                    lemma_lex_antisymmetric(kx@, key_of(old_v[i as int]));
                }
            }
        }
        v.insert(i, x);
        proof {
            assert(v@ == old_v.insert(i as int, x));
            assert forall|a: int, b: int| 0 <= a < b < v@.len() implies lex_lt(key_of(v@[a]), key_of(v@[b])) by {
                if a < i && b == i {
                } else if a < i && b > i {
                    if b - 1 > i {
                        assert(lex_lt(key_of(old_v[i as int]), key_of(old_v[b - 1])));
                        lemma_lex_transitive(kx@, key_of(old_v[i as int]), key_of(old_v[b - 1]));
                    }
                    lemma_lex_lt_transitive(key_of(old_v[a]), kx@, key_of(old_v[b - 1]));
                } else if a == i && b > i {
                    if b - 1 > i {
                        assert(lex_lt(key_of(old_v[i as int]), key_of(old_v[b - 1])));
                        lemma_lex_lt_transitive(kx@, key_of(old_v[i as int]), key_of(old_v[b - 1]));
                    }
                } else if a > i {
                    assert(lex_lt(key_of(old_v[a - 1]), key_of(old_v[b - 1])));
                } else {
                    assert(lex_lt(key_of(old_v[a]), key_of(old_v[b])));
                }
            }
            assert forall|k: Seq<char>| #[trigger] m2.contains_key(k) implies exists|j: int| 0 <= j < v@.len() && key_of(v@[j]) == k by {
                if k != key_of(x) {
                    let j = choose|j: int| 0 <= j < old_v.len() && key_of(old_v[j]) == k;
                    if j < i {
                        assert(key_of(v@[j]) == k);
                    } else {
                        assert(key_of(v@[j + 1]) == k);
                    }
                } else {
                    assert(key_of(v@[i as int]) == k);
                }
            }
            assert forall|j: int| 0 <= j < v@.len() implies #[trigger] m2.contains_key(key_of(v@[j])) && m2[key_of(v@[j])] == ext_entry(v@[j]) by {
                if j < i {
                    assert(m.contains_key(key_of(old_v[j])));
                    assert(lex_lt(key_of(old_v[j]), kx@));
                } else if j > i {
                    assert(m.contains_key(key_of(old_v[j - 1])));
                    if key_of(old_v[j - 1]) == kx@ {
                        if j - 1 > i {
                            assert(lex_lt(key_of(old_v[i as int]), key_of(old_v[j - 1])));
                            lemma_lex_antisymmetric(kx@, key_of(old_v[i as int]));
                        }
                    }
                }
            }
        }
    }
}

/// The extensions known from `php.ini` (its text `ini`) and the library
/// files `files` of `ext/`, in order of `kind:name`.
pub fn list_extensions(ini: &str, files: &Vec<String>) -> (r: Vec<PhpExtension>)
    ensures
        lists(r@, ext_table(ini@, files@.map_values(|f: String| f@))),
{
    let ls = lines_of(ini);
    let ghost lsv = lines(ini@);
    let mut v: Vec<PhpExtension> = Vec::new();
    let mut i: usize = 0;
    assert(lsv.take(0) =~= Seq::<Seq<char>>::empty());
    while i < ls.len()
        invariant
            i <= ls.len(),
            views(ls@) == lsv,
            lists(v@, ini_table(lsv.take(i as int))),
        decreases ls.len() - i,
    {
        assert(lsv.take(i + 1).drop_last() == lsv.take(i as int));
        assert(lsv.take(i + 1).last() == ls@[i as int]@);
        if let Some((k, n, e)) = ext_line_chars(&ls[i]) {
            let x = PhpExtension { name: string_of(&n), enabled: e, kind: string_of(&k) };
            put_ext(&mut v, x, true, Ghost(ini_table(lsv.take(i as int))));
        }
        i += 1;
    }
    assert(lsv.take(ls.len() as int) == lsv);
    let ghost fv = files@.map_values(|f: String| f@);
    let mut j: usize = 0;
    assert(fv.take(0) =~= Seq::<Seq<char>>::empty());
    while j < files.len()
        invariant
            j <= files.len(),
            fv == files@.map_values(|f: String| f@),
            lists(v@, with_files(ini_table(lsv), fv.take(j as int))),
        decreases files.len() - j,
    {
        assert(fv.take(j + 1).drop_last() == fv.take(j as int));
        assert(fv.take(j + 1).last() == files@[j as int]@);
        if let Some(n) = dll_to_name(files[j].as_str()) {
            let x = PhpExtension { name: n, enabled: false, kind: "extension".to_string() };
            put_ext(&mut v, x, false, Ghost(with_files(ini_table(lsv), fv.take(j as int))));
        }
        j += 1;
    }
    assert(fv.take(files.len() as int) == fv);
    v
}

// ---------------------------------------------------------------------------
// Laws of extension lines
// ---------------------------------------------------------------------------

/// A plain extension name: lower-case ASCII letters, digits, `_` and `-`,
/// not starting with `php_`, and not the placeholder `modulename`.
pub open spec fn plain_ext_name(n: Seq<char>) -> bool {
    &&& n.len() > 0
    &&& forall|i: int| 0 <= i < n.len() ==> #[trigger] is_lower(n[i]) || is_digit(n[i]) || n[i] == '_' || n[i] == '-'
    &&& !starts_with(n, "php_"@)
    &&& n != "modulename"@
}

proof fn lemma_plain_trims(n: Seq<char>, cs: CharSet)
    requires
        plain_ext_name(n),
        cs == CharSet::Whitespace || cs == CharSet::One('"') || cs == CharSet::One('\''),
    ensures
        trim_set(n, cs) == n,
{
    assert(is_lower(n[0]) || is_digit(n[0]) || n[0] == '_' || n[0] == '-');
    assert(is_lower(n.last()) || is_digit(n.last()) || n.last() == '_' || n.last() == '-');
}

proof fn lemma_plain_name(n: Seq<char>)
    requires
        plain_ext_name(n),
    ensures
        ext_name_of(n) == Some(n),
{
    lemma_plain_trims(n, CharSet::Whitespace);
    lemma_plain_trims(n, CharSet::One('"'));
    lemma_plain_trims(n, CharSet::One('\''));
    assert forall|j: int| 0 <= j < n.len() implies !is_sep(Sep::Char(';'), n[j]) by {
        assert(is_lower(n[j]) || is_digit(n[j]) || n[j] == '_' || n[j] == '-');
    }
    lemma_first_sep_is(n, Sep::Char(';'), n.len() as int);
    assert forall|j: int| 0 <= j < n.len() implies !is_sep(Sep::Slashes, n[j]) by {
        assert(is_lower(n[j]) || is_digit(n[j]) || n[j] == '_' || n[j] == '-');
    }
    lemma_split_last(n, Sep::Slashes, None);
    reveal_strlit(".dll");
    reveal_strlit(".so");
    if ends_with(n, ".dll"@) {
        assert(n.subrange(n.len() - 4, n.len() as int)[0] == '.');
        assert(is_lower(n[n.len() - 4]) || is_digit(n[n.len() - 4]) || n[n.len() - 4] == '_' || n[n.len() - 4] == '-');
    }
    if ends_with(n, ".so"@) {
        assert(n.subrange(n.len() - 3, n.len() as int)[0] == '.');
        assert(is_lower(n[n.len() - 3]) || is_digit(n[n.len() - 3]) || n[n.len() - 3] == '_' || n[n.len() - 3] == '-');
    }
    assert(strip_lib_suffixes(n) == n);
    if n.contains(' ') {
        let j = choose|j: int| 0 <= j < n.len() && n[j] == ' ';
        assert(is_lower(n[j]) || is_digit(n[j]) || n[j] == '_' || n[j] == '-');
    }
    assert forall|i: int| 0 <= i < n.len() implies lower_seq(n)[i] == n[i] by {
        assert(is_lower(n[i]) || is_digit(n[i]) || n[i] == '_' || n[i] == '-');
    }
    assert(lower_seq(n) =~= n);
}

/// Reading back a written directive: the line written for a plain name
/// declares exactly that extension, kind and state.
pub proof fn lemma_ext_directive_roundtrip(kind: Seq<char>, name: Seq<char>, enabled: bool)
    requires
        kind == "zend"@ || kind == "extension"@,
        plain_ext_name(name),
    ensures
        ext_line(ext_directive(kind, name, enabled)) == Some((kind, name, enabled)),
{
    reveal_strlit("zend");
    reveal_strlit("extension");
    reveal_strlit("zend_extension");
    reveal_strlit("zend_extension=");
    reveal_strlit("extension=");
    reveal_strlit(";");
    let pre: Seq<char> = if kind == "zend"@ { "zend_extension="@ } else { "extension="@ };
    let body = pre + name;
    let d = ext_directive(kind, name, enabled);
    assert(is_lower(name.last()) || is_digit(name.last()) || name.last() == '_' || name.last() == '-');
    assert(body.last() == name.last());
    assert(trim(body) == body);
    assert(trim(d) == d);
    if kind == "zend"@ {
        assert(body.subrange(0, 14) =~= "zend_extension"@);
        assert(body[0] == 'z');
    } else {
        assert(body.subrange(0, 9) =~= "extension"@);
        assert(body[0] == 'e');
    }
    if !enabled {
        assert(d.drop_first() =~= body);
    } else {
        assert(d =~= body);
    }
    assert(ext_line_body(d) == Some((enabled, body)));
    let value = "="@ + name;
    reveal_strlit("=");
    if kind == "zend"@ {
        assert(body.skip(14) =~= value);
    } else {
        assert(!starts_with(body, "zend_extension"@)) by {
            assert(body[0] == 'e');
            if starts_with(body, "zend_extension"@) {
                assert(body.subrange(0, 14)[0] == 'z');
            }
        }
        assert(starts_with(body, "extension"@));
        assert(body.skip(9) =~= value);
    }
    assert(trim(value) == value);
    assert(value.drop_first() =~= name);
    lemma_plain_trims(name, CharSet::Whitespace);
    lemma_plain_name(name);
}

proof fn lemma_lower_idempotent(s: Seq<char>)
    ensures
        lower_seq(lower_seq(s)) == lower_seq(s),
{
    assert(lower_seq(lower_seq(s)) =~= lower_seq(s));
}

/// What `ext_line` gives depends on the trimmed line only.
proof fn lemma_ext_line_trim(a: Seq<char>, b: Seq<char>)
    requires
        trim(a) == trim(b),
    ensures
        ext_line(a) == ext_line(b),
{
}

/// The names `ext_line` gives are in lower case and its kinds are `zend` or `extension`.
proof fn lemma_ext_line_shape(line: Seq<char>)
    ensures
        ext_line(line) matches Some((k, n, e)) ==> lower_seq(n) == n && (k == "zend"@ || k == "extension"@),
{
    if let Some((k, n, e)) = ext_line(line) {
        let x = choose|x: Seq<char>| lower_seq(x) == n;
        assert(exists|x: Seq<char>| lower_seq(x) == n) by {
            let body = ext_line_body(line)->Some_0.1;
            let value: Seq<char> = if starts_with(body, "zend_extension"@) {
                body.skip("zend_extension"@.len() as int)
            } else {
                body.skip("extension"@.len() as int)
            };
            let val = trim(trim(value).drop_first());
            let v0 = trim_set(trim_set(trim(val), CharSet::One('"')), CharSet::One('\''));
            let v = cut_comment(v0);
            let file = file_part(v);
            let base = match strip_prefix(file, "php_"@) {
                Some(y) => y,
                None => file,
            };
            assert(lower_seq(strip_lib_suffixes(base)) == n);
        }
        lemma_lower_idempotent(x);
    }
}

proof fn lemma_directive_no_newline(kind: Seq<char>, name: Seq<char>, enabled: bool)
    requires
        plain_ext_name(name),
    ensures
        no_newline(ext_directive(kind, name, enabled)),
{
    reveal_strlit(";");
    reveal_strlit("zend_extension=");
    reveal_strlit("extension=");
    let d = ext_directive(kind, name, enabled);
    let pre: Seq<char> = (if enabled { Seq::empty() } else { ";"@ }) + (if kind == "zend"@ {
        "zend_extension="@
    } else {
        "extension="@
    });
    assert(d == pre + name);
    assert forall|i: int| 0 <= i < d.len() implies d[i] != '\n' by {
        if i >= pre.len() {
            assert(is_lower(name[i - pre.len()]) || is_digit(name[i - pre.len()]) || name[i - pre.len()] == '_' || name[i - pre.len()] == '-');
        }
    }
}

/// Every entry of `ini_table(ls)` comes from one of the lines, under its own key,
/// and every declared extension has an entry.
proof fn lemma_ini_table_facts(ls: Seq<Seq<char>>)
    ensures
        forall|key: Seq<char>| #[trigger] ini_table(ls).contains_key(key) ==> key == ext_key(
            ini_table(ls)[key].0,
            ini_table(ls)[key].1,
        ) && exists|i: int| 0 <= i < ls.len() && ext_line(ls[i]) == Some(ini_table(ls)[key]),
        forall|i: int| 0 <= i < ls.len() && #[trigger] ext_line(ls[i]) is Some ==> ini_table(ls).contains_key(
            ext_key(ext_line(ls[i])->Some_0.0, ext_line(ls[i])->Some_0.1),
        ),
    decreases ls.len(),
{
    if ls.len() > 0 {
        let prev = ls.drop_last();
        lemma_ini_table_facts(prev);
        let m = ini_table(prev);
        assert forall|key: Seq<char>| #[trigger] ini_table(ls).contains_key(key) implies key == ext_key(
            ini_table(ls)[key].0,
            ini_table(ls)[key].1,
        ) && exists|i: int| 0 <= i < ls.len() && ext_line(ls[i]) == Some(ini_table(ls)[key]) by {
            match ext_line(ls.last()) {
                Some((k, n, e)) => {
                    if key == ext_key(k, n) {
                        assert(ext_line(ls[ls.len() - 1]) == Some(ini_table(ls)[key]));
                    } else {
                        let i = choose|i: int| 0 <= i < prev.len() && ext_line(prev[i]) == Some(m[key]);
                        assert(ls[i] == prev[i]);
                    }
                },
                None => {
                    let i = choose|i: int| 0 <= i < prev.len() && ext_line(prev[i]) == Some(m[key]);
                    assert(ls[i] == prev[i]);
                },
            }
        }
        assert forall|i: int| 0 <= i < ls.len() && #[trigger] ext_line(ls[i]) is Some implies ini_table(ls).contains_key(
            ext_key(ext_line(ls[i])->Some_0.0, ext_line(ls[i])->Some_0.1),
        ) by {
            if i < prev.len() {
                assert(ls[i] == prev[i]);
                assert(ext_line(prev[i]) is Some);
            }
        }
    }
}

proof fn lemma_ext_key_injective(k1: Seq<char>, n1: Seq<char>, k2: Seq<char>, n2: Seq<char>)
    requires
        k1 == "zend"@ || k1 == "extension"@,
        k2 == "zend"@ || k2 == "extension"@,
        ext_key(k1, n1) == ext_key(k2, n2),
    ensures
        k1 == k2,
        n1 == n2,
{
    reveal_strlit("zend");
    reveal_strlit("extension");
    reveal_strlit(":");
    let a = ext_key(k1, n1);
    assert(a[0] == k1[0]);
    assert(a[0] == k2[0]);
    assert(k1 == k2);
    assert(n1 =~= a.skip(k1.len() as int + 1));
    assert(n2 =~= a.skip(k2.len() as int + 1));
}

/// Switching a plain extension and reading `php.ini` back: the extension is
/// declared, and every declaration of it has the requested state.
pub proof fn lemma_set_extension_effect(text: Seq<char>, name: Seq<char>, enabled: bool)
    requires
        plain_ext_name(target_of(name)),
    ensures
        ({
            let t = target_of(name);
            let table = ini_table(lines(switched_ini(text, name, enabled)));
            &&& forall|key: Seq<char>| #[trigger] table.contains_key(key) && table[key].1 == t ==> table[key].2 == enabled
            &&& exists|key: Seq<char>| #[trigger] table.contains_key(key) && table[key].1 == t
        }),
{
    let t = target_of(name);
    let ls = lines(text);
    let mapped = ls.map_values(|l: Seq<char>| switched_line(l, t, enabled));
    let found = exists|i: int| 0 <= i < ls.len() && #[trigger] declares(ls[i], t);
    let d = ext_directive("extension"@, t, enabled);
    let all = if found { mapped } else { mapped.push(d) };
    assert(switched_ini(text, name, enabled) == unlines(all)) by {
        if !found {
            assert(all.drop_last() == mapped);
        }
        assert(unlines(mapped) + Seq::<char>::empty() == unlines(mapped));
    }
    lemma_lower_idempotent(trim(name));
    lemma_lines_no_newline(text);
    reveal_strlit("extension");
    assert forall|i: int| 0 <= i < all.len() implies no_newline(#[trigger] all[i]) && (ext_line(all[i]) matches Some((k, n, e)) ==> (n == t ==> e == enabled)) by {
        if i < mapped.len() {
            let l = ls[i];
            lemma_ext_line_shape(l);
            assert(no_newline(lines(text)[i]));
            if let Some((k, n, e)) = ext_line(l) {
                if lower_seq(n) == lower_seq(t) {
                    lemma_ext_directive_roundtrip(k, t, enabled);
                    lemma_directive_no_newline(k, t, enabled);
                }
            }
        } else {
            lemma_ext_directive_roundtrip("extension"@, t, enabled);
            lemma_directive_no_newline("extension"@, t, enabled);
        }
    }
    lemma_lines_unlines(all);
    let out_lines = all.map_values(|l: Seq<char>| strip_cr(l));
    assert forall|i: int| 0 <= i < out_lines.len() implies ext_line(#[trigger] out_lines[i]) == ext_line(all[i]) by {
        lemma_trim_strip_cr(all[i]);
        lemma_ext_line_trim(strip_cr(all[i]), all[i]);
    }
    lemma_ini_table_facts(out_lines);
    let table = ini_table(out_lines);
    assert forall|key: Seq<char>| #[trigger] table.contains_key(key) && table[key].1 == t implies table[key].2 == enabled by {
        let i = choose|i: int| 0 <= i < out_lines.len() && ext_line(out_lines[i]) == Some(table[key]);
        assert(ext_line(all[i]) == Some(table[key]));
    }
    // a line that declares the extension
    let j: int = if found {
        choose|i: int| 0 <= i < ls.len() && #[trigger] declares(ls[i], t)
    } else {
        mapped.len() as int
    };
    assert(ext_line(all[j]) matches Some((k, n, e)) && n == t) by {
        if found {
            lemma_ext_line_shape(ls[j]);
            let (k, n, e) = ext_line(ls[j])->Some_0;
            lemma_ext_directive_roundtrip(k, t, enabled);
        } else {
            lemma_ext_directive_roundtrip("extension"@, t, enabled);
        }
    }
    assert(ext_line(out_lines[j]) is Some);
    let (k, n, e) = ext_line(out_lines[j])->Some_0;
    let key = ext_key(k, n);
    assert(table.contains_key(key));
    lemma_ext_line_shape(all[j]);
    let i = choose|i: int| 0 <= i < out_lines.len() && ext_line(out_lines[i]) == Some(table[key]);
    lemma_ext_line_shape(all[i]);
    lemma_ext_key_injective(table[key].0, table[key].1, k, n);
}

/// Switching an extension to a state a second time changes nothing, for a
/// plain name and a `php.ini` none of whose lines ends with `'\r'`.
pub proof fn lemma_set_extension_idempotent(text: Seq<char>, name: Seq<char>, enabled: bool)
    requires
        plain_ext_name(target_of(name)),
        forall|i: int| 0 <= i < lines(text).len() ==> !(#[trigger] lines(text)[i].len() > 0 && lines(text)[i].last()
            == '\r'),
    ensures
        switched_ini(switched_ini(text, name, enabled), name, enabled) == switched_ini(text, name, enabled),
{
    let t = target_of(name);
    lemma_lower_idempotent(trim(name));
    let ls = lines(text);
    let mapped = ls.map_values(|l: Seq<char>| switched_line(l, t, enabled));
    let found = exists|i: int| 0 <= i < ls.len() && #[trigger] declares(ls[i], t);
    let d = ext_directive("extension"@, t, enabled);
    let all = if found { mapped } else { mapped.push(d) };
    let out = switched_ini(text, name, enabled);
    assert(out == unlines(all)) by {
        if !found {
            assert(all.drop_last() == mapped);
        }
        assert(unlines(mapped) + Seq::<char>::empty() == unlines(mapped));
    }
    lemma_lines_no_newline(text);
    reveal_strlit("extension");
    assert(t.len() > 0);
    let c = t.last();
    assert(is_lower(c) || is_digit(c) || c == '_' || c == '-');
    assert forall|i: int| 0 <= i < all.len() implies no_newline(#[trigger] all[i]) && !(all[i].len() > 0
        && all[i].last() == '\r') && switched_line(all[i], t, enabled) == all[i] by {
        if i < mapped.len() {
            let l = ls[i];
            lemma_ext_line_shape(l);
            assert(no_newline(lines(text)[i]));
            if declares(l, t) {
                let (k, n, e) = ext_line(l)->Some_0;
                assert(n == t);
                lemma_ext_directive_roundtrip(k, t, enabled);
                lemma_directive_no_newline(k, t, enabled);
                assert(all[i] == ext_directive(k, t, enabled));
                assert(all[i].last() == c);
            } else {
                assert(all[i] == l);
            }
        } else {
            lemma_ext_directive_roundtrip("extension"@, t, enabled);
            lemma_directive_no_newline("extension"@, t, enabled);
            assert(all[i] == d);
            assert(d.last() == c);
        }
    }
    lemma_lines_unlines(all);
    assert(all.map_values(|l: Seq<char>| strip_cr(l)) =~= all);
    assert(lines(out) == all);
    assert(all.map_values(|l: Seq<char>| switched_line(l, t, enabled)) =~= all);
    let j: int = if found {
        choose|i: int| 0 <= i < ls.len() && #[trigger] declares(ls[i], t)
    } else {
        mapped.len() as int
    };
    assert(declares(all[j], t)) by {
        if found {
            lemma_ext_line_shape(ls[j]);
            let (k, n, e) = ext_line(ls[j])->Some_0;
            lemma_ext_directive_roundtrip(k, t, enabled);
        } else {
            lemma_ext_directive_roundtrip("extension"@, t, enabled);
        }
    }
    assert(target_of(name) == t);
    assert(unlines(all) + Seq::<char>::empty() == unlines(all));
}

// ---------------------------------------------------------------------------
// Files that route requests to PHP
// ---------------------------------------------------------------------------

/// `php.ini` of the active PHP.
pub fn php_ini_path(paths: &Paths, cfg: &LaxConfig) -> (r: String)
    ensures
        r@ == join_path(
            join_path(
                join_path(join_path(paths.root@, "bin"@, paths.platform), "php"@, paths.platform),
                cfg.php_version@,
                paths.platform,
            ),
            "php.ini"@,
            paths.platform,
        ),
{
    let d = paths.php_dir(cfg);
    join(d.as_str(), "php.ini", paths.platform)
}

pub open spec fn default_fcgid_text() -> Seq<char> {
    "LoadModule fcgid_module \"<<ROOT>>/etc/apache2/modules/mod_fcgid-2.3.9-win64-VC14.so\"
<IfModule fcgid_module>
FcgidInitialEnv PATH \"<<PHP_DIR>>;C:/Windows/system32;C:/Windows;\"
FcgidInitialEnv PHPRC \"<<PHP_DIR>>\"
FcgidWrapper \"<<PHP_DIR>>/php-cgi.exe\" .php
<Files ~ \"\\.php$\">
AddHandler fcgid-script .php
Options +ExecCGI
FcgidWrapper \"<<PHP_DIR>>/php-cgi.exe\" .php
</Files>
</IfModule>
"@
}

/// The FastCGI configuration used when `usr/tpl/fcgid.conf.tpl` is missing.
pub fn default_fcgid() -> (r: String)
    ensures
        r@ == default_fcgid_text(),
{
    "LoadModule fcgid_module \"<<ROOT>>/etc/apache2/modules/mod_fcgid-2.3.9-win64-VC14.so\"
<IfModule fcgid_module>
FcgidInitialEnv PATH \"<<PHP_DIR>>;C:/Windows/system32;C:/Windows;\"
FcgidInitialEnv PHPRC \"<<PHP_DIR>>\"
FcgidWrapper \"<<PHP_DIR>>/php-cgi.exe\" .php
<Files ~ \"\\.php$\">
AddHandler fcgid-script .php
Options +ExecCGI
FcgidWrapper \"<<PHP_DIR>>/php-cgi.exe\" .php
</Files>
</IfModule>
".to_string()
}

/// The index of the first line whose text, blanks at the start ignored, starts with `key`.
pub open spec fn first_directive(ls: Seq<Seq<char>>, key: Seq<char>) -> Option<int>
    decreases ls.len(),
{
    if ls.len() == 0 {
        None
    } else if starts_with(trim_start(ls[0]), key) {
        Some(0)
    } else {
        match first_directive(ls.drop_first(), key) {
            Some(i) => Some(i + 1),
            None => None,
        }
    }
}

/// The first line that starts with `key` (after blanks) becomes `key value`;
/// every line ends with `'\n'`.
pub open spec fn replaced_directive(src: Seq<char>, key: Seq<char>, value: Seq<char>) -> Seq<char> {
    let ls = lines(src);
    match first_directive(ls, key) {
        Some(i) => unlines(ls.update(i, key + seq![' '] + value)),
        None => unlines(ls),
    }
}

proof fn lemma_first_directive(ls: Seq<Seq<char>>, key: Seq<char>, k: int)
    requires
        0 <= k <= ls.len(),
        k < ls.len() ==> starts_with(trim_start(ls[k]), key),
        forall|j: int| 0 <= j < k ==> !starts_with(trim_start(#[trigger] ls[j]), key),
    ensures
        k < ls.len() ==> first_directive(ls, key) == Some(k),
        k == ls.len() ==> first_directive(ls, key) is None,
    decreases k,
{
    if ls.len() > 0 && k > 0 {
        assert forall|j: int| 0 <= j < k - 1 implies !starts_with(trim_start(#[trigger] ls.drop_first()[j]), key) by {
            assert(ls.drop_first()[j] == ls[j + 1]);
        }
        lemma_first_directive(ls.drop_first(), key, k - 1);
    }
}

pub fn replace_directive(src: &str, key: &str, value: &str) -> (r: String)
    ensures
        r@ == replaced_directive(src@, key@, value@),
{
    let ls = lines_of(src);
    let kv = chars_of(key);
    let ghost lsv = lines(src@);
    let mut newline = chars_of(key);
    newline.push(' ');
    append_str(&mut newline, value);
    let mut out: Vec<char> = Vec::new();
    let mut done: Option<usize> = None;
    let mut i: usize = 0;
    while i < ls.len()
        invariant
            i <= ls.len(),
            views(ls@) == lsv,
            kv@ == key@,
            newline@ == key@ + seq![' '] + value@,
            done matches Some(d) ==> d < i && starts_with(trim_start(lsv[d as int]), key@) && forall|j: int| 0 <= j < d ==> !starts_with(trim_start(#[trigger] lsv[j]), key@),
            done is None ==> forall|j: int| 0 <= j < i ==> !starts_with(trim_start(#[trigger] lsv[j]), key@),
            out@ == unlines(
                match done {
                    Some(d) => lsv.update(d as int, newline@),
                    None => lsv,
                }.take(i as int),
            ),
        decreases ls.len() - i,
    {
        let ghost before = done;
        let t = trim_start_chars(&ls[i], CharSet::Whitespace);
        if done.is_none() && starts_with_chars(&t, &kv) {
            push_line(&mut out, &newline);
            done = Some(i);
            proof {
                assert(lsv.update(i as int, newline@).take(i as int) == lsv.take(i as int));
                assert(lsv.update(i as int, newline@).take(i + 1).drop_last() == lsv.take(i as int));
            }
        } else {
            push_line(&mut out, &ls[i]);
            proof {
                let cur = match done {
                    Some(d) => lsv.update(d as int, newline@),
                    None => lsv,
                };
                assert(cur.take(i + 1).drop_last() == cur.take(i as int));
                assert(cur[i as int] == ls@[i as int]@);
            }
        }
        i += 1;
    }
    proof {
        let cur = match done {
            Some(d) => lsv.update(d as int, newline@),
            None => lsv,
        };
        assert(cur.take(ls.len() as int) == cur);
        match done {
            Some(d) => lemma_first_directive(lsv, key@, d as int),
            None => lemma_first_directive(lsv, key@, lsv.len() as int),
        }
    }
    string_of(&out)
}

/// One `server` line of the PHP upstream.
pub open spec fn upstream_server(port: u16) -> Seq<char> {
    "\tserver 127.0.0.1:"@ + dec(port as nat) + " weight=1 max_fails=1 fail_timeout=1;\n"@
}

pub open spec fn upstream_servers(ports: Seq<u16>) -> Seq<char>
    decreases ports.len(),
{
    if ports.len() == 0 {
        Seq::empty()
    } else {
        upstream_servers(ports.drop_last()) + upstream_server(ports.last())
    }
}

/// The ports PHP-CGI listens on: the configured ones, 9003 and 9004 when none are.
pub open spec fn cgi_ports(ports: Seq<u16>) -> Seq<u16> {
    if ports.len() == 0 {
        seq![9003u16, 9004u16]
    } else {
        ports
    }
}

/// `etc/nginx/php_upstream.conf`.
pub open spec fn upstream_conf(ports: Seq<u16>) -> Seq<char> {
    "upstream php_upstream {\n"@ + upstream_servers(cgi_ports(ports)) + "}\n"@
}

/// The server lines of the PHP upstream are the ports one by one, in
/// order: none for no port, one line for one port, and the lines of two
/// lists of ports joined are the two lists' lines joined.
pub proof fn lemma_upstream_servers_in_order(a: Seq<u16>, b: Seq<u16>, p: u16)
    ensures
        upstream_servers(Seq::<u16>::empty()) == Seq::<char>::empty(),
        upstream_servers(seq![p]) == "\tserver 127.0.0.1:"@ + dec(p as nat)
            + " weight=1 max_fails=1 fail_timeout=1;\n"@,
        upstream_servers(a + b) == upstream_servers(a) + upstream_servers(b),
    decreases b.len(),
{
    assert(seq![p].drop_last() =~= Seq::<u16>::empty());
    assert(seq![p].last() == p);
    assert(upstream_servers(Seq::<u16>::empty()) == Seq::<char>::empty());
    assert(Seq::<char>::empty() + upstream_server(p) =~= upstream_server(p));
    assert(upstream_servers(seq![p]) == upstream_server(p));
    if b.len() == 0 {
        assert(a + b =~= a);
        assert(upstream_servers(a) + Seq::<char>::empty() =~= upstream_servers(a));
    } else {
        lemma_upstream_servers_in_order(a, b.drop_last(), p);
        assert((a + b).drop_last() =~= a + b.drop_last());
        assert((a + b).last() == b.last());
    }
}

/// The Nginx upstream for PHP holds one server line for every configured
/// PHP-CGI port, in the configured order, and for 9003 and 9004 when none
/// is configured.
pub proof fn lemma_upstream_conf_ports(ports: Seq<u16>)
    ensures
        ports.len() > 0 ==> upstream_conf(ports) == "upstream php_upstream {\n"@ + upstream_servers(ports)
            + "}\n"@,
        ports.len() == 0 ==> upstream_conf(ports) == "upstream php_upstream {\n"@ + upstream_servers(
            seq![9003u16],
        ) + upstream_servers(seq![9004u16]) + "}\n"@,
{
    if ports.len() == 0 {
        lemma_upstream_servers_in_order(seq![9003u16], seq![9004u16], 9003);
        assert(seq![9003u16] + seq![9004u16] =~= seq![9003u16, 9004u16]);
    }
}

fn upstream_conf_chars(ports: &Vec<u16>) -> (r: Vec<char>)
    ensures
        r@ == upstream_conf(ports@),
{
    let mut ps: Vec<u16> = Vec::new();
    if ports.len() == 0 {
        ps.push(9003);
        ps.push(9004);
        assert(ps@ =~= seq![9003u16, 9004u16]);
    } else {
        let mut k: usize = 0;
        while k < ports.len()
            invariant
                k <= ports.len(),
                ps@ == ports@.take(k as int),
            decreases ports.len() - k,
        {
            ps.push(ports[k]);
            assert(ports@.take(k + 1) == ports@.take(k as int).push(ports@[k as int]));
            k += 1;
        }
        assert(ports@.take(ports.len() as int) == ports@);
    }
    let mut r = chars_of("upstream php_upstream {\n");
    let ghost head = r@;
    let mut i: usize = 0;
    while i < ps.len()
        invariant
            i <= ps.len(),
            ps@ == cgi_ports(ports@),
            head == "upstream php_upstream {\n"@,
            r@ == head + upstream_servers(ps@.take(i as int)),
        decreases ps.len() - i,
    {
        assert(ps@.take(i + 1).drop_last() == ps@.take(i as int));
        append_str(&mut r, "\tserver 127.0.0.1:");
        dec_chars(ps[i] as u64, &mut r);
        append_str(&mut r, " weight=1 max_fails=1 fail_timeout=1;\n");
        assert(r@ =~= head + upstream_servers(ps@.take(i + 1)));
        i += 1;
    }
    assert(ps@.take(ps.len() as int) == ps@);
    append_str(&mut r, "}\n");
    r
}

/// The `Include` line of Apache's configuration that loads the FastCGI setup.
pub open spec fn fcgid_include(root: Seq<char>) -> Seq<char> {
    "Include \""@ + root + "/etc/apache2/fcgid.conf\""@
}

/// `httpd.conf` with the FastCGI setup included (added at the end when no
/// line mentions `fcgid.conf`) and `DocumentRoot` set to `www`.
pub open spec fn patched_httpd(body: Seq<char>, root: Seq<char>, www: Seq<char>) -> Seq<char> {
    let b = if !contains(body, "fcgid.conf"@) {
        body + "\n"@ + fcgid_include(root) + "\n"@
    } else {
        body
    };
    replaced_directive(b, "DocumentRoot"@, "\""@ + www + "\""@)
}

pub fn patch_httpd_includes(body: &str, root: &str, www: &str) -> (r: String)
    ensures
        r@ == patched_httpd(body@, root@, www@),
{
    let mut b = chars_of(body);
    if !contains_str(&b, "fcgid.conf") {
        append_str(&mut b, "\n");
        append_str(&mut b, "Include \"");
        append_str(&mut b, root);
        append_str(&mut b, "/etc/apache2/fcgid.conf\"");
        append_str(&mut b, "\n");
    }
    assert(b@ =~= (if !contains(body@, "fcgid.conf"@) {
        body@ + "\n"@ + fcgid_include(root@) + "\n"@
    } else {
        body@
    }));
    let mut v = chars_of("\"");
    append_str(&mut v, www);
    append_str(&mut v, "\"");
    let bs = string_of(&b);
    let vs = string_of(&v);
    replace_directive(bs.as_str(), "DocumentRoot", vs.as_str())
}

/// `etc/apache2/fcgid.conf`: the template with `<<ROOT>>` and `<<PHP_DIR>>` filled in.
pub open spec fn fcgid_conf(tpl: Seq<char>, root: Seq<char>, php_dir: Seq<char>) -> Seq<char> {
    replace_all(replace_all(tpl, "<<ROOT>>"@, root), "<<PHP_DIR>>"@, php_dir)
}

// ---------------------------------------------------------------------------
// Placeholders of the FastCGI template
// ---------------------------------------------------------------------------

/// Text with no `<` right after another `<` and no `<` at its end.
pub open spec fn no_double_lt(a: Seq<char>) -> bool {
    &&& forall|j: int| #![trigger a[j]] 0 <= j && j + 1 < a.len() ==> !(a[j] == '<' && a[j + 1] == '<')
    &&& (a.len() > 0 ==> a.last() != '<')
}

/// Text without `<`.
pub open spec fn no_lt(a: Seq<char>) -> bool {
    forall|j: int| 0 <= j < a.len() ==> #[trigger] a[j] != '<'
}

/// A placeholder: `<<`, then at least one more character, none of them `<`.
pub open spec fn marker(m: Seq<char>) -> bool {
    &&& m.len() >= 3
    &&& m[0] == '<'
    &&& m[1] == '<'
    &&& forall|j: int| 2 <= j < m.len() ==> #[trigger] m[j] != '<'
}

/// A hole of a template, as the replacement of `from` meets it: `from`
/// itself, text without `<`, or another placeholder that differs from
/// `from` in its third character.
pub open spec fn hole_ok(h: Seq<char>, from: Seq<char>) -> bool {
    h == from || no_lt(h) || (marker(h) && h[2] != from[2])
}

/// A template: the piece `first`, then for each pair a hole and the piece
/// after it.
pub open spec fn weave(first: Seq<char>, rest: Seq<(Seq<char>, Seq<char>)>) -> Seq<char>
    decreases rest.len(),
{
    if rest.len() == 0 {
        first
    } else {
        first + rest[0].0 + weave(rest[0].1, rest.drop_first())
    }
}

/// The holes equal to `from` filled with `to`.
pub open spec fn fill_hole(rest: Seq<(Seq<char>, Seq<char>)>, from: Seq<char>, to: Seq<char>) -> Seq<
    (Seq<char>, Seq<char>),
> {
    rest.map_values(
        |hp: (Seq<char>, Seq<char>)|
            (
                if hp.0 == from {
                    to
                } else {
                    hp.0
                },
                hp.1,
            ),
    )
}

proof fn lemma_occurs_chars(s: Seq<char>, from: Seq<char>, k: int, j: int)
    requires
        occurs_at(s, from, k),
        0 <= j < from.len(),
    ensures
        s[k + j] == from[j],
{
    assert(s.subrange(k, k + from.len())[j] == s[k + j]);
}

/// `replace_all` leaves a front part alone where no occurrence starts.
proof fn lemma_replace_all_after(x: Seq<char>, t: Seq<char>, from: Seq<char>, to: Seq<char>)
    requires
        from.len() > 0,
        forall|k: int| 0 <= k < x.len() ==> !occurs_at(x + t, from, k),
    ensures
        replace_all(x + t, from, to) == x + replace_all(t, from, to),
{
    let s = x + t;
    let n = x.len() as int;
    lemma_find(s, from);
    lemma_find(t, from);
    assert forall|j: int| n <= j && occurs_at(s, from, j) implies occurs_at(t, from, j - n) by {
        assert(t.subrange(j - n, j - n + from.len()) =~= s.subrange(j, j + from.len()));
    }
    match find(t, from) {
        Some(i) => {
            assert(occurs_at(s, from, n + i)) by {
                assert(s.subrange(n + i, n + i + from.len()) =~= t.subrange(i, i + from.len()));
            }
            lemma_find_is(s, from, n + i);
            assert(s.take(n + i) =~= x + t.take(i));
            assert(s.skip(n + i + from.len()) =~= t.skip(i + from.len()));
            assert(x + (t.take(i) + to + replace_all(t.skip(i + from.len()), from, to)) =~= x + t.take(i)
                + to + replace_all(t.skip(i + from.len()), from, to));
        },
        None => {
            match find(s, from) {
                Some(k) => {
                    assert(false);
                },
                None => {},
            }
        },
    }
}

proof fn lemma_no_start_in(first: Seq<char>, t: Seq<char>, from: Seq<char>)
    requires
        marker(from),
        no_double_lt(first),
    ensures
        forall|k: int| 0 <= k < first.len() ==> !occurs_at(first + t, from, k),
{
    let s = first + t;
    assert forall|k: int| 0 <= k < first.len() implies !occurs_at(s, from, k) by {
        if occurs_at(s, from, k) {
            lemma_occurs_chars(s, from, k, 0);
            lemma_occurs_chars(s, from, k, 1);
            if k + 1 < first.len() {
                assert(first[k] == '<' && first[k + 1] == '<');
            } else {
                assert(first.last() == first[k]);
            }
        }
    }
}

proof fn lemma_no_start_hole(first: Seq<char>, h: Seq<char>, t: Seq<char>, from: Seq<char>)
    requires
        marker(from),
        no_double_lt(first),
        hole_ok(h, from),
        h != from,
    ensures
        forall|k: int| 0 <= k < first.len() + h.len() ==> !occurs_at(first + h + t, from, k),
{
    let s = first + h + t;
    assert(s =~= first + (h + t));
    lemma_no_start_in(first, h + t, from);
    assert forall|k: int| first.len() <= k < first.len() + h.len() implies !occurs_at(s, from, k) by {
        if occurs_at(s, from, k) {
            let m = k - first.len();
            lemma_occurs_chars(s, from, k, 0);
            lemma_occurs_chars(s, from, k, 1);
            lemma_occurs_chars(s, from, k, 2);
            assert(s[k] == h[m]);
            if !no_lt(h) {
                if m == 0 {
                    assert(s[k + 2] == h[2]);
                } else if m == 1 {
                    assert(s[k + 1] == h[2]);
                }
            }
        }
    }
}

/// `from` at the front is replaced by `to`.
proof fn lemma_replace_front(t: Seq<char>, from: Seq<char>, to: Seq<char>)
    requires
        from.len() > 0,
    ensures
        replace_all(from + t, from, to) == to + replace_all(t, from, to),
{
    let s = from + t;
    assert(s.subrange(0, from.len() as int) =~= from);
    lemma_find_is(s, from, 0);
    assert(s.take(0) =~= Seq::<char>::empty());
    assert(s.skip(from.len() as int) =~= t);
    assert(Seq::<char>::empty() + to =~= to);
}

proof fn lemma_replace_all_empty(from: Seq<char>, to: Seq<char>)
    requires
        from.len() > 0,
    ensures
        replace_all(Seq::<char>::empty(), from, to) == Seq::<char>::empty(),
{
    lemma_find(Seq::<char>::empty(), from);
}

/// One pass of `replace_all` over a template fills the holes equal to `from`.
proof fn lemma_replace_weave(first: Seq<char>, rest: Seq<(Seq<char>, Seq<char>)>, from: Seq<char>, to: Seq<char>)
    requires
        marker(from),
        no_double_lt(first),
        forall|i: int| 0 <= i < rest.len() ==> no_double_lt(#[trigger] rest[i].1),
        forall|i: int| 0 <= i < rest.len() ==> hole_ok(#[trigger] rest[i].0, from),
    ensures
        replace_all(weave(first, rest), from, to) == weave(first, fill_hole(rest, from, to)),
    decreases rest.len(),
{
    let e = Seq::<char>::empty();
    if rest.len() == 0 {
        assert(first + e =~= first);
        lemma_no_start_in(first, e, from);
        lemma_replace_all_after(first, e, from, to);
        lemma_replace_all_empty(from, to);
    } else {
        let h = rest[0].0;
        let p = rest[0].1;
        let rest1 = rest.drop_first();
        assert forall|i: int| 0 <= i < rest1.len() implies no_double_lt(#[trigger] rest1[i].1) && hole_ok(
            rest1[i].0,
            from,
        ) by {
            assert(rest1[i] == rest[i + 1]);
        }
        lemma_replace_weave(p, rest1, from, to);
        let tail = weave(p, rest1);
        let f = fill_hole(rest, from, to);
        assert(f.drop_first() =~= fill_hole(rest1, from, to));
        assert(weave(first, rest) == first + h + tail);
        assert(weave(first, f) == first + f[0].0 + weave(p, f.drop_first()));
        if h == from {
            assert(first + h + tail =~= first + (h + tail));
            lemma_no_start_in(first, h + tail, from);
            lemma_replace_all_after(first, h + tail, from, to);
            lemma_replace_front(tail, from, to);
            assert(first + (to + replace_all(tail, from, to)) =~= first + to + replace_all(tail, from, to));
        } else {
            lemma_no_start_hole(first, h, tail, from);
            lemma_replace_all_after(first + h, tail, from, to);
        }
    }
}

proof fn lemma_no_double_lt_concat(x: Seq<char>, y: Seq<char>)
    requires
        no_double_lt(x),
        no_double_lt(y),
    ensures
        no_double_lt(x + y),
{
    let s = x + y;
    assert forall|j: int| #![trigger s[j]] 0 <= j && j + 1 < s.len() implies !(s[j] == '<' && s[j + 1] == '<') by {
        if j + 1 < x.len() {
            assert(s[j] == x[j] && s[j + 1] == x[j + 1]);
        } else if j + 1 == x.len() {
            assert(s[j] == x.last());
        } else {
            assert(s[j] == y[j - x.len()] && s[j + 1] == y[j + 1 - x.len()]);
        }
    }
    if y.len() == 0 {
        assert(s =~= x);
    } else {
        assert(s.last() == y.last());
    }
}

proof fn lemma_weave_no_double_lt(first: Seq<char>, rest: Seq<(Seq<char>, Seq<char>)>)
    requires
        no_double_lt(first),
        forall|i: int| 0 <= i < rest.len() ==> no_double_lt(#[trigger] rest[i].1),
        forall|i: int| 0 <= i < rest.len() ==> no_lt(#[trigger] rest[i].0),
    ensures
        no_double_lt(weave(first, rest)),
    decreases rest.len(),
{
    if rest.len() > 0 {
        let rest1 = rest.drop_first();
        assert forall|i: int| 0 <= i < rest1.len() implies no_double_lt(#[trigger] rest1[i].1) && no_lt(
            rest1[i].0,
        ) by {
            assert(rest1[i] == rest[i + 1]);
        }
        lemma_weave_no_double_lt(rest[0].1, rest1);
        let h = rest[0].0;
        assert(no_lt(h));
        assert(no_double_lt(h)) by {
            if h.len() > 0 {
                assert(h.last() == h[h.len() - 1]);
            }
        }
        lemma_no_double_lt_concat(first, h);
        lemma_no_double_lt_concat(first + h, weave(rest[0].1, rest1));
    }
}

/// `etc/apache2/fcgid.conf` holds no placeholder once filled, for any
/// template whose pieces between the placeholders hold no `<<` (and end in
/// no `<`), when the root and the PHP folder hold no `<`.
pub proof fn lemma_fcgid_conf_no_placeholder(
    first: Seq<char>,
    rest: Seq<(Seq<char>, Seq<char>)>,
    root: Seq<char>,
    php_dir: Seq<char>,
)
    requires
        no_double_lt(first),
        forall|i: int| 0 <= i < rest.len() ==> no_double_lt(#[trigger] rest[i].1),
        forall|i: int| 0 <= i < rest.len() ==> #[trigger] rest[i].0 == "<<ROOT>>"@ || rest[i].0 == "<<PHP_DIR>>"@,
        no_lt(root),
        no_lt(php_dir),
    ensures
        !contains(fcgid_conf(weave(first, rest), root, php_dir), "<<ROOT>>"@),
        !contains(fcgid_conf(weave(first, rest), root, php_dir), "<<PHP_DIR>>"@),
{
    let r = "<<ROOT>>"@;
    let d = "<<PHP_DIR>>"@;
    reveal_strlit("<<ROOT>>");
    reveal_strlit("<<PHP_DIR>>");
    assert(marker(r));
    assert(marker(d));
    assert(forall|i: int| 0 <= i < rest.len() ==> hole_ok(#[trigger] rest[i].0, r));
    lemma_replace_weave(first, rest, r, root);
    let rest1 = fill_hole(rest, r, root);
    assert forall|i: int| 0 <= i < rest1.len() implies no_double_lt(#[trigger] rest1[i].1) && hole_ok(
        rest1[i].0,
        d,
    ) && (rest1[i].0 == root || rest1[i].0 == d) by {
        assert(rest1[i].1 == rest[i].1);
    }
    lemma_replace_weave(first, rest1, d, php_dir);
    let rest2 = fill_hole(rest1, d, php_dir);
    assert forall|i: int| 0 <= i < rest2.len() implies no_double_lt(#[trigger] rest2[i].1) && no_lt(
        rest2[i].0,
    ) by {
        assert(rest2[i].1 == rest1[i].1);
        assert(rest1[i].0 == root || rest1[i].0 == d);
        if rest1[i].0 == root {
            assert(root != d) by {
                if root == d {
                    assert(root[0] == '<');
                }
            }
        }
    }
    lemma_weave_no_double_lt(first, rest2);
    let s = weave(first, rest2);
    assert(s == fcgid_conf(weave(first, rest), root, php_dir));
    assert forall|k: int| !occurs_at(s, r, k) && !occurs_at(s, d, k) by {
        if occurs_at(s, r, k) {
            lemma_occurs_chars(s, r, k, 0);
            lemma_occurs_chars(s, r, k, 1);
        }
        if occurs_at(s, d, k) {
            lemma_occurs_chars(s, d, k, 0);
            lemma_occurs_chars(s, d, k, 1);
        }
    }
}

/// `etc/apache2/mod_php.conf`.
pub open spec fn mod_php_conf(version: Seq<char>) -> Seq<char> {
    "# PHP is served via FastCGI (fcgid.conf). Active version: "@ + version + "\n"@
}

/// The files that route requests to the active PHP.
pub open spec fn php_writes(paths: Paths, cfg: LaxConfig, tpl: Option<Seq<char>>, httpd: Option<Seq<char>>) -> Seq<(Seq<char>, Seq<char>)> {
    let p = paths.platform;
    let root = unix_spec(paths.root@);
    let php_dir = unix_spec(
        join_path(join_path(join_path(paths.root@, "bin"@, p), "php"@, p), cfg.php_version@, p),
    );
    let t = match tpl {
        Some(x) => x,
        None => default_fcgid_text(),
    };
    let base = seq![
        (join_path(paths.root@, "etc/apache2/fcgid.conf"@, p), fcgid_conf(t, root, php_dir)),
        (join_path(paths.root@, "etc/apache2/mod_php.conf"@, p), mod_php_conf(cfg.php_version@)),
        (join_path(paths.root@, "etc/nginx/php_upstream.conf"@, p), upstream_conf(cfg.php_cgi_ports@)),
    ];
    match httpd {
        Some(body) => base.push(
            (
                join_path(
                    join_path(
                        join_path(
                            join_path(join_path(paths.root@, "bin"@, p), "apache"@, p),
                            cfg.apache_version@,
                            p,
                        ),
                        "conf"@,
                        p,
                    ),
                    "httpd.conf"@,
                    p,
                ),
                patched_httpd(body, root, unix_spec(join_unix_spec(paths.root@, cfg.document_root@, p))),
            ),
        ),
        None => base,
    }
}

/// Applying a PHP version writes the Nginx upstream with one server line per
/// configured PHP-CGI port of `cfg`, in order, or for 9003 and 9004 when
/// none is configured.
pub proof fn lemma_apply_php_upstream(paths: Paths, cfg: LaxConfig, tpl: Option<Seq<char>>, httpd: Option<Seq<char>>)
    ensures
        php_writes(paths, cfg, tpl, httpd).len() >= 3,
        php_writes(paths, cfg, tpl, httpd)[2].0 == join_path(paths.root@, "etc/nginx/php_upstream.conf"@, paths.platform),
        cfg.php_cgi_ports@.len() > 0 ==> php_writes(paths, cfg, tpl, httpd)[2].1 == "upstream php_upstream {\n"@
            + upstream_servers(cfg.php_cgi_ports@) + "}\n"@,
        cfg.php_cgi_ports@.len() == 0 ==> php_writes(paths, cfg, tpl, httpd)[2].1 == "upstream php_upstream {\n"@
            + upstream_servers(seq![9003u16]) + upstream_servers(seq![9004u16]) + "}\n"@,
{
    lemma_upstream_conf_ports(cfg.php_cgi_ports@);
}

/// What `apply_php` writes, in order, given the FastCGI template
/// (`None` when it cannot be read) and Apache's `httpd.conf` (`None` when
/// it does not exist).
pub fn apply_php(paths: &Paths, cfg: &LaxConfig, tpl: Option<&str>, httpd: Option<&str>) -> (r: Vec<FileWrite>)
    ensures
        writes_view(r@) == php_writes(
            *paths,
            *cfg,
            match tpl {
                Some(t) => Some(t@),
                None => None,
            },
            match httpd {
                Some(h) => Some(h@),
                None => None,
            },
        ),
{
    let php_dir_path = paths.php_dir(cfg);
    let php_dir = unix(php_dir_path.as_str());
    let root = unix(paths.root.as_str());
    let t = match tpl {
        Some(x) => x.to_string(),
        None => default_fcgid(),
    };
    let tv = chars_of(t.as_str());
    proof {
        reveal_strlit("<<ROOT>>");
        reveal_strlit("<<PHP_DIR>>");
    }
    let a = replace_str(&tv, "<<ROOT>>", root.as_str());
    let b = replace_str(&a, "<<PHP_DIR>>", php_dir.as_str());
    let mut r: Vec<FileWrite> = Vec::new();
    r.push(FileWrite { path: paths.at("etc/apache2/fcgid.conf"), body: string_of(&b) });
    let mut m = chars_of("# PHP is served via FastCGI (fcgid.conf). Active version: ");
    append_str(&mut m, cfg.php_version.as_str());
    append_str(&mut m, "\n");
    r.push(FileWrite { path: paths.at("etc/apache2/mod_php.conf"), body: string_of(&m) });
    let u = upstream_conf_chars(&cfg.php_cgi_ports);
    r.push(FileWrite { path: paths.at("etc/nginx/php_upstream.conf"), body: string_of(&u) });
    if let Some(h) = httpd {
        let ad = paths.apache_dir(cfg);
        let conf = join(ad.as_str(), "conf", paths.platform);
        let hp = join(conf.as_str(), "httpd.conf", paths.platform);
        let www_path = paths.www(cfg);
        let www = unix(www_path.as_str());
        let body = patch_httpd_includes(h, root.as_str(), www.as_str());
        r.push(FileWrite { path: hp, body });
    }
    proof {
        reveal_strlit("<<ROOT>>");
        reveal_strlit("<<PHP_DIR>>");
    }
    assert(writes_view(r@) =~= php_writes(
        *paths,
        *cfg,
        match tpl {
            Some(t) => Some(t@),
            None => None,
        },
        match httpd {
            Some(h) => Some(h@),
            None => None,
        },
    ));
    r
}

} // verus!
