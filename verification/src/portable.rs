//! Moving the stack: when the whole folder was copied elsewhere, every
//! absolute path written into its config files is rewritten to the new root.
use vstd::prelude::*;
use crate::config::{LaxConfig, Paths};
use crate::paths::{FileWrite, join, join_lit, join_path, unix, unix_spec};
use crate::text::{append_chars, append_str, byte_len, byte_len_capped, chars_eq, chars_of, contains, dec, dec_chars, eq_str, find, find_from, lemma_byte_len_bound, lemma_find, lemma_find_is, lemma_occurs_skip, lower_chars, lower_seq, occurs_at, occurs_at_exec, replace_all, replace_char, replace_char_chars, slice_chars, starts_with, string_of, trim, trim_str};

verus! {

// ---------------------------------------------------------------------------
// Rewriting one root
// ---------------------------------------------------------------------------

/// One left-to-right pass: each occurrence of `old` becomes `new`, except
/// that where `new` itself already stands at the occurrence, it is kept and
/// the scan goes on after it (so a root that extends the old one is not
/// extended twice).
pub open spec fn rebased(t: Seq<char>, old: Seq<char>, new: Seq<char>) -> Seq<char>
    decreases t.len(),
{
    if old.len() == 0 || new.len() == 0 {
        t
    } else {
        match find(t, old) {
            Some(i) => if 0 <= i && i + old.len() <= t.len() {
                if starts_with(t.skip(i), new) {
                    t.take(i) + new + rebased(t.skip(i + new.len()), old, new)
                } else {
                    t.take(i) + new + rebased(t.skip(i + old.len()), old, new)
                }
            } else {
                t
            },
            None => t,
        }
    }
}

/// `replace_root`: nothing changes when `old` is empty or equal to `new`.
pub open spec fn replace_root_spec(t: Seq<char>, old: Seq<char>, new: Seq<char>) -> Seq<char> {
    if old.len() == 0 || old == new {
        t
    } else {
        rebased(t, old, new)
    }
}

/// Where the scan resumes after an occurrence of `old` at `i`.
pub open spec fn resume_at(t: Seq<char>, old: Seq<char>, new: Seq<char>, i: int) -> int {
    if occurs_at(t, new, i) {
        i + new.len()
    } else {
        i + old.len()
    }
}

/// One step of `rebased` on `t.skip(pos)`: the first occurrence at or after `pos` is at `i`.
pub proof fn lemma_rebased_step(t: Seq<char>, old: Seq<char>, new: Seq<char>, pos: int, i: int)
    requires
        old.len() > 0,
        new.len() > 0,
        0 <= pos <= i,
        occurs_at(t, old, i),
        forall|j: int| pos <= j < i ==> !occurs_at(t, old, j),
    ensures
        rebased(t.skip(pos), old, new) == t.subrange(pos, i) + new + rebased(
            t.skip(resume_at(t, old, new, i)),
            old,
            new,
        ),
        i < resume_at(t, old, new, i) <= t.len(),
{
    let rest = t.skip(pos);
    lemma_occurs_skip(t, old, pos, i - pos);
    assert forall|j: int| 0 <= j < i - pos implies !occurs_at(rest, old, j) by {
        lemma_occurs_skip(t, old, pos, j);
    }
    lemma_find_is(rest, old, i - pos);
    assert(rest.take(i - pos) == t.subrange(pos, i));
    let s = rest.skip(i - pos);
    assert(s == t.skip(i));
    if occurs_at(t, new, i) {
        assert(t.skip(i).subrange(0, new.len() as int) =~= t.subrange(i, i + new.len()));
        assert(starts_with(s, new));
        assert(rest.skip(i - pos + new.len()) == t.skip(i + new.len()));
    } else {
        if starts_with(s, new) {
            assert(t.skip(i).subrange(0, new.len() as int) =~= t.subrange(i, i + new.len()));
            assert(occurs_at(t, new, i));
        }
        assert(rest.skip(i - pos + old.len()) == t.skip(i + old.len()));
    }
}

proof fn lemma_rebased_twice(t: Seq<char>, old: Seq<char>, new: Seq<char>)
    requires
        old.len() > 0,
        starts_with(new, old),
    ensures
        rebased(rebased(t, old, new), old, new) == rebased(t, old, new),
    decreases t.len(),
{
    lemma_find(t, old);
    match find(t, old) {
        None => {},
        Some(i) => {
            let r = rebased(t, old, new);
            let t2 = if starts_with(t.skip(i), new) {
                t.skip(i + new.len())
            } else {
                t.skip(i + old.len())
            };
            let r2 = rebased(t2, old, new);
            assert(r == t.take(i) + new + r2);
            assert forall|q: int| 0 <= q < old.len() implies #[trigger] r[i + q] == old[q] && t[i + q] == old[q] by {
                assert(new.subrange(0, old.len() as int)[q] == old[q]);
                assert(t.subrange(i, i + old.len())[q] == old[q]);
            }
            assert(r.subrange(i, i + old.len()) =~= old);
            assert(occurs_at(r, old, i));
            assert forall|j: int| 0 <= j < i implies !occurs_at(r, old, j) by {
                if occurs_at(r, old, j) {
                    assert forall|m: int| 0 <= m < old.len() implies #[trigger] r.subrange(j, j + old.len())[m]
                        == t.subrange(j, j + old.len())[m] by {
                        if j + m >= i {
                            assert(r[i + (j + m - i)] == old[j + m - i]);
                        }
                    }
                    assert(r.subrange(j, j + old.len()) =~= t.subrange(j, j + old.len()));
                    assert(occurs_at(t, old, j));
                }
            }
            lemma_find_is(r, old, i);
            assert(r.skip(i) =~= new + r2);
            assert((new + r2).subrange(0, new.len() as int) =~= new);
            assert(starts_with(r.skip(i), new));
            assert(r.skip(i + new.len()) =~= r2);
            assert(r.take(i) =~= t.take(i));
            lemma_rebased_twice(t2, old, new);
        },
    }
}

/// Rewriting a root into one that extends it is stable: a second pass
/// changes nothing (a root already rewritten is not extended again).
pub proof fn lemma_replace_root_idempotent(t: Seq<char>, old: Seq<char>, new: Seq<char>)
    requires
        starts_with(new, old),
    ensures
        replace_root_spec(replace_root_spec(t, old, new), old, new) == replace_root_spec(t, old, new),
{
    if old.len() > 0 && old != new {
        lemma_rebased_twice(t, old, new);
    }
}

/// `rebased` is the plain left-to-right replacement when `new` never stands
/// where `old` does, that is when neither root extends the other.
proof fn lemma_rebased_plain(t: Seq<char>, old: Seq<char>, new: Seq<char>)
    requires
        old.len() > 0,
        !starts_with(old, new),
        !starts_with(new, old),
    ensures
        rebased(t, old, new) == replace_all(t, old, new),
    decreases t.len(),
{
    if new.len() == 0 {
        assert(old.subrange(0, 0) =~= new);
    }
    lemma_find(t, old);
    match find(t, old) {
        Some(i) => {
            if 0 <= i && i + old.len() <= t.len() {
                if starts_with(t.skip(i), new) {
                    let u = t.skip(i);
                    assert(u.subrange(0, old.len() as int) =~= t.subrange(i, i + old.len()));
                    if old.len() <= new.len() {
                        assert(new.subrange(0, old.len() as int) =~= u.subrange(0, old.len() as int));
                    } else {
                        assert(old.subrange(0, new.len() as int) =~= u.subrange(0, new.len() as int));
                    }
                } else {
                    lemma_rebased_plain(t.skip(i + old.len()), old, new);
                }
            }
        },
        None => {},
    }
}

/// When neither root extends the other, rewriting the root is the plain
/// replacement of every occurrence of `old` by `new` (`str::replace`).
pub proof fn lemma_replace_root_plain(t: Seq<char>, old: Seq<char>, new: Seq<char>)
    requires
        old.len() > 0,
        !starts_with(old, new),
        !starts_with(new, old),
    ensures
        replace_root_spec(t, old, new) == replace_all(t, old, new),
{
    assert(old.subrange(0, old.len() as int) =~= old);
    lemma_rebased_plain(t, old, new);
}

/// The tail of `rebased` when no occurrence is left.
pub proof fn lemma_rebased_none(t: Seq<char>, old: Seq<char>, new: Seq<char>, pos: int)
    requires
        old.len() > 0,
        0 <= pos <= t.len(),
        forall|j: int| pos <= j ==> !occurs_at(t, old, j),
    ensures
        rebased(t.skip(pos), old, new) == t.skip(pos),
{
    let rest = t.skip(pos);
    assert forall|j: int| !occurs_at(rest, old, j) by {
        lemma_occurs_skip(t, old, pos, j);
    }
    lemma_find(rest, old);
}

/// Rewrites every occurrence of the root `old` in `text` to `new`.
/// The scan never stops when `new` is empty while `old` occurs, so an empty
/// `new` is admitted only where `old` does not occur (the text then comes
/// back unchanged).
pub fn replace_root(text: &str, old: &str, new: &str) -> (r: String)
    requires
        old@.len() == 0 || old@ == new@ || new@.len() > 0 || !contains(text@, old@),
    ensures
        r@ == replace_root_spec(text@, old@, new@),
        new@.len() == 0 ==> r@ == text@,
{
    let t = chars_of(text);
    let o = chars_of(old);
    let n = chars_of(new);
    if o.len() == 0 || chars_eq(&o, &n) || n.len() == 0 {
        return string_of(&t);
    }
    let mut out: Vec<char> = Vec::new();
    let mut pos: usize = 0;
    assert(t@.skip(0) == t@);
    loop
        invariant
            o.len() > 0,
            n.len() > 0,
            t@ == text@,
            o@ == old@,
            n@ == new@,
            o@ != n@,
            pos <= t.len(),
            rebased(t@, o@, n@) == out@ + rebased(t@.skip(pos as int), o@, n@),
        decreases t.len() - pos,
    {
        match find_from(&t, &o, pos) {
            Some(i) => {
                proof {
                    lemma_rebased_step(t@, o@, n@, pos as int, i as int);
                }
                let piece = slice_chars(&t, pos, i);
                append_chars(&mut out, &piece);
                append_chars(&mut out, &n);
                if occurs_at_exec(&t, &n, i) {
                    pos = i + n.len();
                } else {
                    pos = i + o.len();
                }
            },
            None => {
                proof {
                    lemma_rebased_none(t@, o@, n@, pos as int);
                }
                let piece = slice_chars(&t, pos, t.len());
                assert(piece@ == t@.skip(pos as int));
                append_chars(&mut out, &piece);
                assert(out@ == rebased(t@, o@, n@));
                return string_of(&out);
            },
        }
    }
}

// ---------------------------------------------------------------------------
// The roots to rewrite
// ---------------------------------------------------------------------------

/// Adjacent equal entries collapsed into one (`Vec::dedup`).
pub open spec fn dedup_adj(s: Seq<Seq<char>>) -> Seq<Seq<char>>
    decreases s.len(),
{
    if s.len() <= 1 {
        s
    } else if s.last() == s[s.len() - 2] {
        dedup_adj(s.drop_last())
    } else {
        dedup_adj(s.drop_last()).push(s.last())
    }
}

pub proof fn lemma_dedup_last(s: Seq<Seq<char>>)
    requires
        s.len() > 0,
    ensures
        dedup_adj(s).len() > 0,
        dedup_adj(s).last() == s.last(),
    decreases s.len(),
{
    if s.len() > 1 {
        lemma_dedup_last(s.drop_last());
    }
}

/// The old default install root, with forward and with back slashes.
pub open spec fn legacy_roots() -> Seq<Seq<char>> {
    seq!["C:/Laragon/www/LaX"@, "C:\\Laragon\\www\\LaX"@]
}

/// The roots that config files may still name, longest first: the root
/// recorded at the last start (`prev`, the marker file's text, trimmed, in
/// both slash styles) and the old default root. The sort by byte length is
/// stable and the recorded root's two spellings have one length, so it comes
/// first unless it is shorter than the old default; adjacent duplicates are
/// then dropped.
pub open spec fn rebase_olds_spec(prev: Option<Seq<char>>) -> Seq<Seq<char>> {
    let base = legacy_roots();
    match prev {
        Some(p) => {
            let t = trim(p);
            if t.len() == 0 {
                base
            } else {
                let fwd = replace_char(t, '\\', '/');
                let back = replace_char(t, '/', '\\');
                if byte_len(fwd) >= byte_len(base[0]) {
                    dedup_adj(seq![fwd, back] + base)
                } else {
                    dedup_adj(base + seq![fwd, back])
                }
            }
        },
        None => base,
    }
}

/// Removes adjacent duplicates.
pub fn dedup_strings(v: Vec<Vec<char>>) -> (r: Vec<String>)
    ensures
        r@.map_values(|s: String| s@) == dedup_adj(v@.map_values(|x: Vec<char>| x@)),
{
    let ghost vs = v@.map_values(|x: Vec<char>| x@);
    let mut r: Vec<String> = Vec::new();
    let mut i: usize = 0;
    while i < v.len()
        invariant
            i <= v.len(),
            vs == v@.map_values(|x: Vec<char>| x@),
            r@.map_values(|s: String| s@) == dedup_adj(vs.take(i as int)),
        decreases v.len() - i,
    {
        let ghost pre = vs.take(i as int);
        let ghost cur = vs.take(i + 1);
        assert(cur.drop_last() == pre);
        assert(cur.last() == v@[i as int]@);
        let keep = if i == 0 {
            true
        } else {
            proof {
                lemma_dedup_last(pre);
            }
            !chars_eq(&v[i - 1], &v[i])
        };
        if keep {
            r.push(string_of(&v[i]));
        }
        assert(r@.map_values(|s: String| s@) =~= dedup_adj(cur));
        i += 1;
    }
    assert(vs.take(v.len() as int) == vs);
    r
}

/// The roots to rewrite, from the marker file's text (`None` when it could
/// not be read).
pub fn rebase_olds(prev: Option<&str>) -> (r: Vec<String>)
    ensures
        r@.map_values(|s: String| s@) == rebase_olds_spec(
            match prev {
                Some(p) => Some(p@),
                None => None,
            },
        ),
{
    let fwd_legacy = chars_of("C:/Laragon/www/LaX");
    let back_legacy = chars_of("C:\\Laragon\\www\\LaX");
    let mut cand: Vec<Vec<char>> = Vec::new();
    let ghost base = legacy_roots();
    match prev {
        Some(p) => {
            let t = trim_str(p);
            if t.len() == 0 {
                cand.push(fwd_legacy);
                cand.push(back_legacy);
                assert(cand@.map_values(|x: Vec<char>| x@) =~= base);
            } else {
                let fwd = replace_char_chars(&t, '\\', '/');
                let back = replace_char_chars(&t, '/', '\\');
                let legacy_len = byte_len_capped(&fwd_legacy, 1000);
                proof {
                    reveal_strlit("C:/Laragon/www/LaX");
                    lemma_byte_len_bound(fwd_legacy@);
                }
                let fwd_len = byte_len_capped(&fwd, legacy_len);
                if fwd_len >= legacy_len {
                    cand.push(fwd);
                    cand.push(back);
                    cand.push(fwd_legacy);
                    cand.push(back_legacy);
                    assert(cand@.map_values(|x: Vec<char>| x@) =~= seq![fwd@, back@] + base);
                } else {
                    cand.push(fwd_legacy);
                    cand.push(back_legacy);
                    cand.push(fwd);
                    cand.push(back);
                    assert(cand@.map_values(|x: Vec<char>| x@) =~= base + seq![fwd@, back@]);
                }
            }
        },
        None => {
            cand.push(fwd_legacy);
            cand.push(back_legacy);
            assert(cand@.map_values(|x: Vec<char>| x@) =~= base);
        },
    }
    let r = dedup_strings(cand);
    proof {
        let cv = cand@.map_values(|x: Vec<char>| x@);
        if cv.len() == 2 {
            assert(cv =~= base);
            assert(cv[1] != cv[0]) by {
                reveal_strlit("C:/Laragon/www/LaX");
                reveal_strlit("C:\\Laragon\\www\\LaX");
                assert(cv[0][2] != cv[1][2]);
            }
            assert(dedup_adj(cv) == dedup_adj(cv.drop_last()).push(cv.last()));
            assert(cv.drop_last().len() == 1);
            assert(dedup_adj(cv) =~= cv);
        }
    }
    assert(r@.map_values(|s: String| s@) =~= rebase_olds_spec(
        match prev {
            Some(p) => Some(p@),
            None => None,
        },
    ));
    r
}

// ---------------------------------------------------------------------------
// Rewriting a config file
// ---------------------------------------------------------------------------

/// The back-slash spelling of a path.
pub open spec fn backslashed(s: Seq<char>) -> Seq<char> {
    replace_char(s, '/', '\\')
}

/// One root rewritten in both slash styles.
pub open spec fn rebase_step(t: Seq<char>, old: Seq<char>, new: Seq<char>) -> Seq<char> {
    replace_root_spec(replace_root_spec(t, old, new), backslashed(old), backslashed(new))
}

/// Every root of `olds` rewritten in turn.
pub open spec fn rebase_all(t: Seq<char>, olds: Seq<Seq<char>>, new: Seq<char>) -> Seq<char>
    decreases olds.len(),
{
    if olds.len() == 0 {
        t
    } else {
        rebase_step(rebase_all(t, olds.drop_last(), new), olds.last(), new)
    }
}

/// An old root that the text holds, in either slash style.
pub open spec fn holds_root(t: Seq<char>, old: Seq<char>) -> bool {
    old.len() > 0 && (contains(t, old) || contains(t, backslashed(old)))
}

/// A config file's text with every old root rewritten to `new_root`
/// (forward slashes), in both slash styles. An empty `new_root` is admitted
/// only where the text holds none of the old roots (nothing changes then).
pub fn rebase_text(raw: &str, olds: &Vec<String>, new_root: &str) -> (r: String)
    requires
        new_root@.len() > 0 || forall|k: int| 0 <= k < olds@.len() ==> !holds_root(raw@, #[trigger] olds@[k]@),
    ensures
        r@ == rebase_all(raw@, olds@.map_values(|s: String| s@), new_root@),
{
    let ghost ov = olds@.map_values(|s: String| s@);
    let nv = chars_of(new_root);
    let new_back = string_of(&replace_char_chars(&nv, '/', '\\'));
    let mut next = raw.to_string();
    let mut i: usize = 0;
    assert(ov.take(0) =~= Seq::<Seq<char>>::empty());
    while i < olds.len()
        invariant
            i <= olds.len(),
            ov == olds@.map_values(|s: String| s@),
            new_root@.len() > 0 || forall|k: int| 0 <= k < olds@.len() ==> !holds_root(raw@, #[trigger] olds@[k]@),
            new_root@.len() == 0 ==> next@ == raw@,
            new_back@ == backslashed(new_root@),
            next@ == rebase_all(raw@, ov.take(i as int), new_root@),
        decreases olds.len() - i,
    {
        let old = &olds[i];
        let a = replace_root(next.as_str(), old.as_str(), new_root);
        let ov_chars = chars_of(old.as_str());
        let old_back = string_of(&replace_char_chars(&ov_chars, '/', '\\'));
        let b = replace_root(a.as_str(), old_back.as_str(), new_back.as_str());
        assert(ov.take(i + 1).drop_last() == ov.take(i as int));
        next = b;
        i += 1;
    }
    assert(ov.take(olds.len() as int) == ov);
    next
}

/// The MariaDB options file for the stack, with the root in forward slashes.
pub open spec fn mysql_ini_text(port: u16, root: Seq<char>) -> Seq<char> {
    "[client]\nport="@ + dec(port as nat) + "\nsocket=/tmp/mysql.sock\n\n[mysqld]\ndatadir=\""@ + root
        + "/data/mariadb\"\nport="@ + dec(port as nat)
        + "\nsocket=/tmp/mysql.sock\nskip-external-locking\ncharacter-set-server=utf8mb4\ncollation-server=utf8mb4_general_ci\nbind-address=127.0.0.1\ninnodb_buffer_pool_size=256M\nmax_allowed_packet=512M\nkey_buffer_size=32M\nskip-log-bin\ntmpdir=\""@
        + root + "/tmp\"\n\n[mysqldump]\nquick\nmax_allowed_packet=512M\n"@
}

/// `my.ini` in the MariaDB directory, written at each start.
pub fn mysql_ini(paths: &Paths, cfg: &LaxConfig) -> (w: FileWrite)
    ensures
        w.path@ == join_path(
            join_path(
                join_path(join_path(paths.root@, "bin"@, paths.platform), "mysql"@, paths.platform),
                cfg.mysql_version@,
                paths.platform,
            ),
            "my.ini"@,
            paths.platform,
        ),
        w.body@ == mysql_ini_text(cfg.mysql_port, unix_spec(paths.root@)),
{
    let root = unix(paths.root.as_str());
    let mut b = chars_of("[client]\nport=");
    dec_chars(cfg.mysql_port as u64, &mut b);
    append_str(&mut b, "\nsocket=/tmp/mysql.sock\n\n[mysqld]\ndatadir=\"");
    append_str(&mut b, root.as_str());
    append_str(&mut b, "/data/mariadb\"\nport=");
    dec_chars(cfg.mysql_port as u64, &mut b);
    append_str(
        &mut b,
        "\nsocket=/tmp/mysql.sock\nskip-external-locking\ncharacter-set-server=utf8mb4\ncollation-server=utf8mb4_general_ci\nbind-address=127.0.0.1\ninnodb_buffer_pool_size=256M\nmax_allowed_packet=512M\nkey_buffer_size=32M\nskip-log-bin\ntmpdir=\"",
    );
    append_str(&mut b, root.as_str());
    append_str(&mut b, "/tmp\"\n\n[mysqldump]\nquick\nmax_allowed_packet=512M\n");
    let dir = paths.mysql_dir(cfg);
    let path = join(dir.as_str(), "my.ini", paths.platform);
    FileWrite { path, body: string_of(&b) }
}

/// `usr/.install-root`, which records the root of the last start.
pub fn install_marker(paths: &Paths) -> (r: String)
    ensures
        r@ == join_path(join_path(paths.root@, "usr"@, paths.platform), ".install-root"@, paths.platform),
{
    let r = chars_of(paths.root.as_str());
    let u = join_lit(&r, "usr", paths.platform);
    let m = join_lit(&u, ".install-root", paths.platform);
    string_of(&m)
}

/// Files under `etc/` whose extension is one of these (any ASCII case) are
/// rewritten: `conf` and `ini`.
pub fn is_config_ext(ext: &str) -> (r: bool)
    ensures
        r == (lower_seq(ext@) == "conf"@ || lower_seq(ext@) == "ini"@),
{
    let e = chars_of(ext);
    let l = lower_chars(&e);
    eq_str(&l, "conf") || eq_str(&l, "ini")
}

} // verus!
