//! What the stack finds on disk and on the machine: installed versions, the
//! tools for a terminal's `PATH`, and who listens on a port.
use vstd::prelude::*;
use crate::paths::{join, join_path};
use crate::platform::{Platform, path_sep, path_sep_of, push_string};
use crate::text::{CharSet, Sep, char_is_digit, chars_of, contains, contains_str, dec, dec_chars, find, find_chars, is_digit, isort, join_chars, join_seq, lemma_find, lemma_split_nonempty, lines, lines_of, occurs_at, parse_bounded, parse_uint, slice_chars, sort_chars, split, split_chars, starts_with, starts_with_str, string_of, trim, trim_chars, trim_start_chars, trim_start_set, views, words, words_chars};

verus! {

/// `list_subdirs`: the names of the folders in a directory, sorted (the
/// caller reads the directory and keeps the folders).
pub fn list_subdirs(names: Vec<String>) -> (r: Vec<String>)
    ensures
        r@.map_values(|s: String| s@) == isort(names@.map_values(|s: String| s@)),
{
    let mut v: Vec<Vec<char>> = Vec::new();
    let mut i: usize = 0;
    while i < names.len()
        invariant
            i <= names@.len(),
            views(v@) == names@.map_values(|s: String| s@).take(i as int),
        decreases names.len() - i,
    {
        let ghost old_v = v@;
        v.push(chars_of(names[i].as_str()));
        assert(views(v@) =~= views(old_v).push(names@[i as int]@));
        assert(names@.map_values(|s: String| s@).take(i + 1) =~= names@.map_values(|s: String| s@).take(
            i as int,
        ).push(names@[i as int]@));
        i += 1;
    }
    assert(names@.map_values(|s: String| s@).take(names@.len() as int) =~= names@.map_values(
        |s: String| s@,
    ));
    let sorted = sort_chars(v);
    let mut r: Vec<String> = Vec::new();
    let mut j: usize = 0;
    while j < sorted.len()
        invariant
            j <= sorted.len(),
            r@.map_values(|s: String| s@) == views(sorted@).take(j as int),
        decreases sorted.len() - j,
    {
        push_string(&mut r, string_of(&sorted[j]));
        assert(views(sorted@).take(j + 1) =~= views(sorted@).take(j as int).push(sorted@[j as int]@));
        j += 1;
    }
    assert(views(sorted@).take(sorted.len() as int) =~= views(sorted@));
    r
}

/// The PHP versions: the folders of `bin/php` (sorted, as `list_subdirs`
/// gives them) that hold `php` or `php-cgi`, as `usable` says of each.
pub fn php_versions(subdirs: &Vec<String>, usable: &Vec<bool>) -> (r: Vec<String>)
    requires
        usable@.len() == subdirs@.len(),
    ensures
        r@.map_values(|s: String| s@) == Seq::new(subdirs@.len(), |i: int| i).filter(
            |i: int| usable@[i],
        ).map_values(|i: int| subdirs@[i]@),
{
    let ghost idx = Seq::new(subdirs@.len(), |i: int| i);
    let mut r: Vec<String> = Vec::new();
    let mut i: usize = 0;
    while i < subdirs.len()
        invariant
            i <= subdirs@.len(),
            usable@.len() == subdirs@.len(),
            idx == Seq::new(subdirs@.len(), |i: int| i),
            r@.map_values(|s: String| s@) == idx.take(i as int).filter(|i: int| usable@[i]).map_values(
                |i: int| subdirs@[i]@,
            ),
        decreases subdirs.len() - i,
    {
        proof {
            assert(idx.take(i + 1).drop_last() =~= idx.take(i as int));
            assert(idx.take(i + 1).last() == i as int);
            reveal(Seq::filter);
        }
        if usable[i] {
            let ghost f = idx.take(i as int).filter(|i: int| usable@[i]);
            push_string(&mut r, subdirs[i].clone());
            assert(f.push(i as int).map_values(|i: int| subdirs@[i]@) =~= f.map_values(
                |i: int| subdirs@[i]@,
            ).push(subdirs@[i as int]@));
        }
        i += 1;
    }
    assert(idx.take(subdirs@.len() as int) =~= idx);
    r
}

/// The MariaDB versions: the folders of `bin/mysql`, sorted.
pub fn mysql_versions(subdirs: Vec<String>) -> (r: Vec<String>)
    ensures
        r@.map_values(|s: String| s@) == isort(subdirs@.map_values(|s: String| s@)),
{
    list_subdirs(subdirs)
}

/// The Nginx versions: the folders of `bin/nginx`, sorted.
pub fn nginx_versions(subdirs: Vec<String>) -> (r: Vec<String>)
    ensures
        r@.map_values(|s: String| s@) == isort(subdirs@.map_values(|s: String| s@)),
{
    list_subdirs(subdirs)
}

/// The Apache versions: the folders of `bin/apache`, sorted.
pub fn apache_versions(subdirs: Vec<String>) -> (r: Vec<String>)
    ensures
        r@.map_values(|s: String| s@) == isort(subdirs@.map_values(|s: String| s@)),
{
    list_subdirs(subdirs)
}

/// Where the bundled Node may be, in the order searched: `bin/node`, then
/// `bin/nodejs` (each itself, then its sub-folders).
pub fn node_dirs(root: &str, platform: Platform) -> (r: Vec<String>)
    ensures
        r@.map_values(|s: String| s@) == seq![
            join_path(join_path(root@, "bin"@, platform), "node"@, platform),
            join_path(join_path(root@, "bin"@, platform), "nodejs"@, platform),
        ],
{
    let b = join(root, "bin", platform);
    let mut r: Vec<String> = Vec::new();
    push_string(&mut r, join(b.as_str(), "node", platform));
    push_string(&mut r, join(b.as_str(), "nodejs", platform));
    r
}

/// The `PATH` prefix for a terminal: the PHP folder (when it is a folder)
/// and the Node folder (when there is one), joined by the list separator.
pub open spec fn tools_path_prefix_spec(php_dir: Option<Seq<char>>, node_dir: Option<Seq<char>>, platform: Platform) -> Seq<
    char,
> {
    let parts = match php_dir {
        Some(p) => seq![p],
        None => Seq::empty(),
    } + match node_dir {
        Some(n) => seq![n],
        None => Seq::empty(),
    };
    join_seq(parts, seq![path_sep_of(platform)])
}

pub fn tools_path_prefix(php_dir: Option<&str>, node_dir: Option<&str>, platform: Platform) -> (r: String)
    ensures
        r@ == tools_path_prefix_spec(
            match php_dir {
                Some(p) => Some(p@),
                None => None,
            },
            match node_dir {
                Some(n) => Some(n@),
                None => None,
            },
            platform,
        ),
{
    let mut parts: Vec<Vec<char>> = Vec::new();
    if let Some(p) = php_dir {
        parts.push(chars_of(p));
    }
    if let Some(n) = node_dir {
        let ghost old_p = parts@;
        parts.push(chars_of(n));
        assert(views(parts@) =~= views(old_p).push(n@));
    }
    let mut sep: Vec<char> = Vec::new();
    sep.push(path_sep(platform));
    let j = join_chars(&parts, &sep);
    assert(views(parts@) =~= match php_dir {
        Some(p) => seq![p@],
        None => Seq::<Seq<char>>::empty(),
    } + match node_dir {
        Some(n) => seq![n@],
        None => Seq::<Seq<char>>::empty(),
    });
    assert(sep@ =~= seq![path_sep_of(platform)]);
    string_of(&j)
}

// ---------------------------------------------------------------------------
// Who listens on a port
// ---------------------------------------------------------------------------

/// The port part of a local address: what follows its last `:`.
pub open spec fn after_last_colon(s: Seq<char>) -> Option<Seq<char>>
    decreases s.len(),
{
    if s.len() == 0 {
        None
    } else if s.last() == ':' {
        Some(Seq::empty())
    } else {
        match after_last_colon(s.drop_last()) {
            Some(t) => Some(t.push(s.last())),
            None => None,
        }
    }
}

/// A `netstat -ano` line about a socket listening on `port`: it says
/// `LISTENING`, has at least five words, and the port of its local address
/// (the second word) reads as `port`.
pub open spec fn netstat_line_for(line: Seq<char>, port: u16) -> bool {
    let ws = words(line);
    contains(line, "LISTENING"@) && ws.len() >= 5 && match after_last_colon(ws[1]) {
        Some(p) => parse_bounded(p, 65535) == Some(port as nat),
        None => false,
    }
}

/// The index of the first line with `pred` true.
pub open spec fn first_netstat_line(ls: Seq<Seq<char>>, port: u16) -> Option<int>
    decreases ls.len(),
{
    if ls.len() == 0 {
        None
    } else if netstat_line_for(ls[0], port) {
        Some(0)
    } else {
        match first_netstat_line(ls.drop_first(), port) {
            Some(i) => Some(i + 1),
            None => None,
        }
    }
}

pub proof fn lemma_first_netstat_line(ls: Seq<Seq<char>>, port: u16)
    ensures
        first_netstat_line(ls, port) matches Some(k) ==> 0 <= k < ls.len() && netstat_line_for(
            ls[k],
            port,
        ) && forall|j: int| 0 <= j < k ==> !netstat_line_for(ls[j], port),
        first_netstat_line(ls, port) is None ==> forall|j: int|
            0 <= j < ls.len() ==> !netstat_line_for(ls[j], port),
    decreases ls.len(),
{
    if ls.len() > 0 && !netstat_line_for(ls[0], port) {
        lemma_first_netstat_line(ls.drop_first(), port);
        assert forall|j: int| 1 <= j < ls.len() implies ls[j] == ls.drop_first()[j - 1] by {}
    }
}

/// The process listening on `port`, from `netstat -ano -p tcp`: the last
/// word (the PID) of the first line about it; `None` when there is no such
/// line or its PID does not read as a number.
pub open spec fn netstat_pid_spec(out: Seq<char>, port: u16) -> Option<nat> {
    let ls = lines(out);
    match first_netstat_line(ls, port) {
        Some(i) => parse_bounded(words(ls[i]).last(), 4294967295),
        None => None,
    }
}

fn after_last_colon_exec(s: &Vec<char>) -> (r: Option<Vec<char>>)
    ensures
        match r {
            Some(t) => after_last_colon(s@) == Some(t@),
            None => after_last_colon(s@) is None,
        },
{
    let mut i: usize = s.len();
    proof {
        assert(s@.take(s.len() as int) =~= s@);
        match after_last_colon(s@) {
            Some(t) => {
                assert(t + s@.skip(s.len() as int) =~= t);
            },
            None => {},
        }
    }
    while i > 0
        invariant
            i <= s.len(),
            forall|j: int| i <= j < s.len() ==> s@[j] != ':',
            after_last_colon(s@) == match after_last_colon(s@.take(i as int)) {
                Some(t) => Some(t + s@.skip(i as int)),
                None => None,
            },
        decreases i,
    {
        if s[i - 1] == ':' {
            proof {
                assert(s@.take(i as int).last() == ':');
                assert(after_last_colon(s@.take(i as int)) == Some(Seq::<char>::empty()));
            }
            let t = slice_chars(s, i, s.len());
            assert(Seq::<char>::empty() + s@.skip(i as int) =~= t@);
            return Some(t);
        }
        proof {
            let ti = s@.take(i as int);
            assert(ti.drop_last() =~= s@.take(i - 1));
            assert(ti.last() == s@[i - 1]);
            match after_last_colon(s@.take(i - 1)) {
                Some(t) => {
                    assert(t.push(s@[i - 1]) + s@.skip(i as int) =~= t + s@.skip(i - 1));
                },
                None => {},
            }
        }
        i -= 1;
    }
    assert(s@.take(0) =~= Seq::<char>::empty());
    None
}

fn netstat_line_for_exec(line: &Vec<char>, port: u16) -> (r: bool)
    ensures
        r == netstat_line_for(line@, port),
{
    if !contains_str(line, "LISTENING") {
        return false;
    }
    let ws = words_chars(line);
    if ws.len() < 5 {
        return false;
    }
    match after_last_colon_exec(&ws[1]) {
        Some(p) => match parse_uint(&p, 65535) {
            Some(n) => n == port as u64,
            None => false,
        },
        None => false,
    }
}

/// The PID listening on `port`, from the output of `netstat -ano -p tcp`.
pub fn netstat_pid(out: &str, port: u16) -> (r: Option<u32>)
    ensures
        match r {
            Some(p) => netstat_pid_spec(out@, port) == Some(p as nat),
            None => netstat_pid_spec(out@, port) is None,
        },
{
    let ls = lines_of(out);
    let ghost lv = views(ls@);
    proof {
        lemma_first_netstat_line(lv, port);
    }
    let mut i: usize = 0;
    while i < ls.len()
        invariant
            i <= ls.len(),
            lv == views(ls@),
            lv == lines(out@),
            forall|j: int| 0 <= j < i ==> !netstat_line_for(lv[j], port),
            first_netstat_line(lv, port) matches Some(k) ==> 0 <= k < lv.len() && netstat_line_for(
                lv[k],
                port,
            ) && forall|j: int| 0 <= j < k ==> !netstat_line_for(lv[j], port),
            first_netstat_line(lv, port) is None ==> forall|j: int|
                0 <= j < lv.len() ==> !netstat_line_for(lv[j], port),
        decreases ls.len() - i,
    {
        if netstat_line_for_exec(&ls[i], port) {
            proof {
                assert(lv[i as int] == ls@[i as int]@);
                match first_netstat_line(lv, port) {
                    Some(k) => {
                        assert(!(k < i));
                        assert(!(k > i));
                    },
                    None => {},
                }
                assert(first_netstat_line(lv, port) == Some(i as int));
            }
            let ws = words_chars(&ls[i]);
            let last = &ws[ws.len() - 1];
            assert(views(ws@).last() == last@);
            return match parse_uint(last, 0xffff_ffffu64) {
                Some(n) => Some(n as u32),
                None => None,
            };
        }
        i += 1;
    }
    None
}

/// The image name in the first line of `tasklist /FO CSV /NH` output: the
/// line trimmed, `None` when empty or an `INFO:` message, else the text up
/// to the first `"` after leading `"`s, `None` when that is empty.
pub open spec fn tasklist_name_spec(out: Seq<char>) -> Option<Seq<char>> {
    let ls = lines(out);
    if ls.len() == 0 {
        None
    } else {
        let line = trim(ls[0]);
        if line.len() == 0 || starts_with(line, "INFO:"@) {
            None
        } else {
            let name = split(trim_start_set(line, CharSet::One('"')), Sep::Char('"'))[0];
            if name.len() == 0 {
                None
            } else {
                Some(name)
            }
        }
    }
}

pub fn tasklist_name(out: &str) -> (r: Option<String>)
    ensures
        match r {
            Some(n) => tasklist_name_spec(out@) == Some(n@),
            None => tasklist_name_spec(out@) is None,
        },
{
    let ls = lines_of(out);
    if ls.len() == 0 {
        return None;
    }
    let line = trim_chars(&ls[0]);
    if line.len() == 0 || starts_with_str(&line, "INFO:") {
        return None;
    }
    let t = trim_start_chars(&line, CharSet::One('"'));
    let parts = split_chars(&t, Sep::Char('"'));
    proof {
        lemma_split_nonempty(t@, Sep::Char('"'));
    }
    if parts[0].len() == 0 {
        return None;
    }
    Some(string_of(&parts[0]))
}

/// The leading ASCII digits of a text.
pub open spec fn digit_prefix(s: Seq<char>) -> Seq<char>
    decreases s.len(),
{
    if s.len() > 0 && is_digit(s[0]) {
        seq![s[0]] + digit_prefix(s.drop_first())
    } else {
        Seq::empty()
    }
}

/// The process listening, from `ss -ltnp` output: in the first line with
/// `pid=`, the digits after the first `pid=`; `None` when there is no such
/// line or they do not read as a `u32`.
pub open spec fn ss_pid_spec(out: Seq<char>) -> Option<nat> {
    let ls = lines(out);
    let k = first_with(ls, "pid="@);
    match k {
        Some(i) => match find(ls[i], "pid="@) {
            Some(p) => parse_bounded(digit_prefix(ls[i].skip(p + 4)), 4294967295),
            None => None,
        },
        None => None,
    }
}

/// The index of the first line that contains `p`.
pub open spec fn first_with(ls: Seq<Seq<char>>, p: Seq<char>) -> Option<int>
    decreases ls.len(),
{
    if ls.len() == 0 {
        None
    } else if contains(ls[0], p) {
        Some(0)
    } else {
        match first_with(ls.drop_first(), p) {
            Some(i) => Some(i + 1),
            None => None,
        }
    }
}

pub proof fn lemma_first_with(ls: Seq<Seq<char>>, p: Seq<char>)
    ensures
        first_with(ls, p) matches Some(k) ==> 0 <= k < ls.len() && contains(ls[k], p) && forall|j: int|
            0 <= j < k ==> !contains(ls[j], p),
        first_with(ls, p) is None ==> forall|j: int| 0 <= j < ls.len() ==> !contains(ls[j], p),
    decreases ls.len(),
{
    if ls.len() > 0 && !contains(ls[0], p) {
        lemma_first_with(ls.drop_first(), p);
        assert forall|j: int| 1 <= j < ls.len() implies ls[j] == ls.drop_first()[j - 1] by {}
    }
}

fn digit_prefix_exec(s: &Vec<char>, from: usize) -> (r: Vec<char>)
    requires
        from <= s.len(),
    ensures
        r@ == digit_prefix(s@.skip(from as int)),
{
    let mut i = from;
    while i < s.len() && char_is_digit(s[i])
        invariant
            from <= i <= s.len(),
            forall|j: int| from <= j < i ==> is_digit(s@[j]),
            digit_prefix(s@.skip(from as int)) == s@.subrange(from as int, i as int) + digit_prefix(
                s@.skip(i as int),
            ),
        decreases s.len() - i,
    {
        proof {
            let t = s@.skip(i as int);
            assert(t[0] == s@[i as int]);
            assert(t.drop_first() =~= s@.skip(i + 1));
            assert(s@.subrange(from as int, i as int) + seq![s@[i as int]] =~= s@.subrange(
                from as int,
                i + 1,
            ));
        }
        i += 1;
    }
    proof {
        let t = s@.skip(i as int);
        if i < s.len() {
            assert(t[0] == s@[i as int]);
        }
        assert(digit_prefix(t) =~= Seq::<char>::empty());
    }
    slice_chars(s, from, i)
}

/// The PID listening, from the output of `ss -ltnp`.
pub fn ss_pid(out: &str) -> (r: Option<u32>)
    ensures
        match r {
            Some(p) => ss_pid_spec(out@) == Some(p as nat),
            None => ss_pid_spec(out@) is None,
        },
{
    let ls = lines_of(out);
    let ghost lv = views(ls@);
    let pat = chars_of("pid=");
    proof {
        lemma_first_with(lv, pat@);
        reveal_strlit("pid=");
    }
    let mut i: usize = 0;
    while i < ls.len()
        invariant
            i <= ls.len(),
            lv == views(ls@),
            lv == lines(out@),
            pat@ == "pid="@,
            pat@.len() == 4,
            forall|j: int| 0 <= j < i ==> !contains(lv[j], pat@),
            first_with(lv, pat@) matches Some(k) ==> 0 <= k < lv.len() && contains(lv[k], pat@)
                && forall|j: int| 0 <= j < k ==> !contains(lv[j], pat@),
            first_with(lv, pat@) is None ==> forall|j: int|
                0 <= j < lv.len() ==> !contains(lv[j], pat@),
        decreases ls.len() - i,
    {
        match find_chars(&ls[i], &pat) {
            Some(p) => {
                proof {
                    lemma_find(lv[i as int], pat@);
                    assert(lv[i as int] == ls@[i as int]@);
                    assert(contains(lv[i as int], pat@));
                    match first_with(lv, pat@) {
                        Some(k) => {
                            assert(!(k < i));
                            assert(!(k > i));
                        },
                        None => {},
                    }
                    assert(first_with(lv, pat@) == Some(i as int));
                    assert(occurs_at(lv[i as int], pat@, p as int));
                    assert(p + 4 <= ls@[i as int]@.len());
                }
                let len_i = ls[i].len();
                assert(p + 4 <= len_i);
                let d = digit_prefix_exec(&ls[i], p + 4);
                return match parse_uint(&d, 0xffff_ffffu64) {
                    Some(n) => Some(n as u32),
                    None => None,
                };
            },
            None => {
                proof {
                    lemma_find(lv[i as int], pat@);
                    assert(lv[i as int] == ls@[i as int]@);
                }
            },
        }
        i += 1;
    }
    None
}

/// Whether a line starts with the character `c`.
pub open spec fn starts_with_char(l: Seq<char>, c: char) -> bool {
    l.len() > 0 && l[0] == c
}

/// The index of the first line that starts with `c`.
pub open spec fn first_starting(ls: Seq<Seq<char>>, c: char) -> Option<int>
    decreases ls.len(),
{
    if ls.len() == 0 {
        None
    } else if starts_with_char(ls[0], c) {
        Some(0)
    } else {
        match first_starting(ls.drop_first(), c) {
            Some(i) => Some(i + 1),
            None => None,
        }
    }
}

proof fn lemma_first_starting(ls: Seq<Seq<char>>, c: char)
    ensures
        first_starting(ls, c) matches Some(k) ==> 0 <= k < ls.len() && starts_with_char(ls[k], c)
            && forall|j: int| 0 <= j < k ==> !starts_with_char(#[trigger] ls[j], c),
        first_starting(ls, c) is None ==> forall|j: int| 0 <= j < ls.len() ==> !starts_with_char(#[trigger] ls[j], c),
    decreases ls.len(),
{
    if ls.len() > 0 && !starts_with_char(ls[0], c) {
        lemma_first_starting(ls.drop_first(), c);
        assert forall|j: int| 1 <= j < ls.len() implies ls[j] == ls.drop_first()[j - 1] by {}
    }
}

/// The process listening, from the output of
/// `lsof -nP -iTCP:<port> -sTCP:LISTEN -Fp`: the digits after the `p` that
/// starts the first line beginning with `p`; `None` when there is no such
/// line or they do not read as a `u32`.
pub open spec fn lsof_pid_spec(out: Seq<char>) -> Option<nat> {
    let ls = lines(out);
    match first_starting(ls, 'p') {
        Some(i) => parse_bounded(digit_prefix(ls[i].skip(1)), 4294967295),
        None => None,
    }
}

/// The PID listening, from the output of `lsof -Fp`.
pub fn lsof_pid(out: &str) -> (r: Option<u32>)
    ensures
        match r {
            Some(p) => lsof_pid_spec(out@) == Some(p as nat),
            None => lsof_pid_spec(out@) is None,
        },
{
    let ls = lines_of(out);
    let ghost lv = views(ls@);
    proof {
        lemma_first_starting(lv, 'p');
    }
    let mut i: usize = 0;
    while i < ls.len()
        invariant
            i <= ls.len(),
            lv == views(ls@),
            lv == lines(out@),
            forall|j: int| 0 <= j < i ==> !starts_with_char(#[trigger] lv[j], 'p'),
            first_starting(lv, 'p') matches Some(k) ==> 0 <= k < lv.len() && starts_with_char(lv[k], 'p')
                && forall|j: int| 0 <= j < k ==> !starts_with_char(#[trigger] lv[j], 'p'),
            first_starting(lv, 'p') is None ==> forall|j: int|
                0 <= j < lv.len() ==> !starts_with_char(#[trigger] lv[j], 'p'),
        decreases ls.len() - i,
    {
        assert(lv[i as int] == ls@[i as int]@);
        if ls[i].len() > 0 && ls[i][0] == 'p' {
            proof {
                assert(starts_with_char(lv[i as int], 'p'));
                match first_starting(lv, 'p') {
                    Some(k) => {
                        assert(!(k < i));
                        assert(!(k > i));
                    },
                    None => {},
                }
            }
            let d = digit_prefix_exec(&ls[i], 1);
            return match parse_uint(&d, 0xffff_ffffu64) {
                Some(n) => Some(n as u32),
                None => None,
            };
        }
        i += 1;
    }
    None
}

/// How a listener is named: on Windows its image name or `PID <pid>`; on
/// Unix `pid <pid>`.
pub fn listener_name(pid: u32, image: Option<String>, platform: Platform) -> (r: String)
    ensures
        r@ == match platform {
            Platform::Windows => match image {
                Some(n) => n@,
                None => "PID "@ + dec(pid as nat),
            },
            Platform::Unix => "pid "@ + dec(pid as nat),
        },
{
    match platform {
        Platform::Windows => match image {
            Some(n) => n,
            None => {
                let mut v = chars_of("PID ");
                dec_chars(pid as u64, &mut v);
                string_of(&v)
            },
        },
        Platform::Unix => {
            let mut v = chars_of("pid ");
            dec_chars(pid as u64, &mut v);
            string_of(&v)
        },
    }
}

} // verus!
