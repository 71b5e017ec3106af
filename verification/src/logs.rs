//! The log viewer: which file each log name means, and the end of a log.
use vstd::prelude::*;
use crate::config::{LaxConfig, Paths};
use crate::paths::{join, join_path};
use crate::text::{append_str, chars_of, eq_str, join_chars, join_seq, lines, lines_of, slice_chars, string_of, views};

verus! {

/// The log file shown for `which`: Apache's error or access log, Nginx's
/// error log, MariaDB's `mysql.err`, PHP's error log in `tmp`, Mailpit's and
/// LaX's own logs; Apache's error log for any other name.
pub open spec fn log_file_spec(paths: Paths, cfg: LaxConfig, which: Seq<char>) -> Seq<char> {
    let p = paths.platform;
    let apache_logs = join_path(
        join_path(join_path(join_path(paths.root@, "bin"@, p), "apache"@, p), cfg.apache_version@, p),
        "logs"@,
        p,
    );
    if which == "apache-access"@ {
        join_path(apache_logs, "access.log"@, p)
    } else if which == "nginx"@ {
        join_path(
            join_path(
                join_path(join_path(join_path(paths.root@, "bin"@, p), "nginx"@, p), cfg.nginx_version@, p),
                "logs"@,
                p,
            ),
            "error.log"@,
            p,
        )
    } else if which == "mysql"@ || which == "mariadb"@ {
        join_path(join_path(join_path(paths.root@, "data"@, p), "mariadb"@, p), "mysql.err"@, p)
    } else if which == "php"@ {
        join_path(join_path(paths.root@, "tmp"@, p), "php_errors.log"@, p)
    } else if which == "mailpit"@ {
        join_path(join_path(paths.root@, "logs"@, p), "mailpit.log"@, p)
    } else if which == "lax"@ {
        join_path(join_path(paths.root@, "logs"@, p), "lax.log"@, p)
    } else {
        join_path(apache_logs, "error.log"@, p)
    }
}

/// The file of the log `which`.
pub fn log_file(paths: &Paths, cfg: &LaxConfig, which: &str) -> (r: String)
    ensures
        r@ == log_file_spec(*paths, *cfg, which@),
{
    let p = paths.platform;
    let w = chars_of(which);
    if eq_str(&w, "apache-access") {
        let d = paths.apache_dir(cfg);
        let l = join(d.as_str(), "logs", p);
        join(l.as_str(), "access.log", p)
    } else if eq_str(&w, "nginx") {
        let d = paths.nginx_dir(cfg);
        let l = join(d.as_str(), "logs", p);
        join(l.as_str(), "error.log", p)
    } else if eq_str(&w, "mysql") || eq_str(&w, "mariadb") {
        let d = paths.datadir();
        join(d.as_str(), "mysql.err", p)
    } else if eq_str(&w, "php") {
        let t = paths.tmp();
        join(t.as_str(), "php_errors.log", p)
    } else if eq_str(&w, "mailpit") {
        let l = join(paths.root.as_str(), "logs", p);
        join(l.as_str(), "mailpit.log", p)
    } else if eq_str(&w, "lax") {
        let l = join(paths.root.as_str(), "logs", p);
        join(l.as_str(), "lax.log", p)
    } else {
        let d = paths.apache_dir(cfg);
        let l = join(d.as_str(), "logs", p);
        join(l.as_str(), "error.log", p)
    }
}

/// What the viewer shows for a log file that does not exist yet.
pub fn no_log_yet(path: &str) -> (r: String)
    ensures
        r@ == "(no log yet: "@ + path@ + ")"@,
{
    let mut v = chars_of("(no log yet: ");
    append_str(&mut v, path);
    append_str(&mut v, ")");
    string_of(&v)
}

/// Only the last 120 000 bytes of a log are read: the offset to start at.
pub fn tail_offset(len: u64) -> (r: u64)
    ensures
        r == (if len > 120000 { len - 120000 } else { 0 }),
{
    if len > 120000 {
        len - 120000
    } else {
        0
    }
}

/// The last `max` lines of the text read, joined by `'\n'`.
pub open spec fn tail_spec(text: Seq<char>, max: nat) -> Seq<char> {
    let ls = lines(text);
    let start = if ls.len() > max {
        ls.len() - max
    } else {
        0
    };
    join_seq(ls.skip(start), "\n"@)
}

pub fn tail_log(text: &str, max: usize) -> (r: String)
    ensures
        r@ == tail_spec(text@, max as nat),
{
    let ls = lines_of(text);
    let start = if ls.len() > max {
        ls.len() - max
    } else {
        0
    };
    let mut tail: Vec<Vec<char>> = Vec::new();
    let mut i = start;
    while i < ls.len()
        invariant
            start <= i <= ls.len(),
            views(tail@) == views(ls@).subrange(start as int, i as int),
        decreases ls.len() - i,
    {
        let ghost old_t = tail@;
        let piece = slice_chars(&ls[i], 0, ls[i].len());
        assert(piece@ == ls@[i as int]@);
        tail.push(piece);
        assert(views(tail@) =~= views(old_t).push(ls@[i as int]@));
        assert(views(ls@).subrange(start as int, i + 1) =~= views(ls@).subrange(start as int, i as int).push(
            ls@[i as int]@,
        ));
        i += 1;
    }
    assert(views(ls@).subrange(start as int, ls.len() as int) =~= views(ls@).skip(start as int));
    let nl = chars_of("\n");
    string_of(&join_chars(&tail, &nl))
}

} // verus!
