//! MariaDB from the overview screen: database names, the client's
//! arguments, reading the list of databases, creating one, importing a dump.
use vstd::prelude::*;
use crate::config::{LaxConfig, Paths};
use crate::error::{LaxError, LaxResult, err_msg};
use crate::paths::{join, join_path};
use crate::platform::{bin_name, bin_path, push_string};
use crate::text::{append_str, byte_len, byte_len_capped, char_is_alnum, char_is_alpha, chars_of, dec, dec_string, eq_str, is_alnum, is_alpha, lex_order, lines, lines_of, sort_chars, string_of, trim, trim_chars, trim_str, views};
use vstd::relations::sorted_by;

verus! {

/// The system schemas that the list leaves out.
pub open spec fn is_system_db(n: Seq<char>) -> bool {
    n == "information_schema"@ || n == "performance_schema"@ || n == "mysql"@ || n == "sys"@
}

/// The MariaDB client: `bin/mysql` in the MariaDB directory when it exists
/// (`has_mysql`), else `bin/mariadb`.
pub fn mysql_bin(paths: &Paths, cfg: &LaxConfig, has_mysql: bool) -> (r: String)
    ensures
        r@ == join_path(
            join_path(
                join_path(
                    join_path(join_path(paths.root@, "bin"@, paths.platform), "mysql"@, paths.platform),
                    cfg.mysql_version@,
                    paths.platform,
                ),
                "bin"@,
                paths.platform,
            ),
            bin_name(
                if has_mysql {
                    "mysql"@
                } else {
                    "mariadb"@
                },
                paths.platform,
            ),
            paths.platform,
        ),
{
    let d = paths.mysql_dir(cfg);
    let dir = join(d.as_str(), "bin", paths.platform);
    if has_mysql {
        bin_path(dir.as_str(), "mysql", paths.platform)
    } else {
        bin_path(dir.as_str(), "mariadb", paths.platform)
    }
}

/// How the client reaches the stack's server: as `root` without a password
/// on 127.0.0.1 at the configured port.
pub open spec fn mysql_args_spec(port: u16) -> Seq<Seq<char>> {
    seq!["-uroot"@, "--password="@, "-h"@, "127.0.0.1"@, "-P"@, dec(port as nat)]
}

pub fn mysql_args(cfg: &LaxConfig) -> (r: Vec<String>)
    ensures
        r@.map_values(|s: String| s@) == mysql_args_spec(cfg.mysql_port),
{
    let mut r: Vec<String> = Vec::new();
    push_string(&mut r, "-uroot".to_string());
    push_string(&mut r, "--password=".to_string());
    push_string(&mut r, "-h".to_string());
    push_string(&mut r, "127.0.0.1".to_string());
    push_string(&mut r, "-P".to_string());
    push_string(&mut r, dec_string(cfg.mysql_port as u64));
    r
}

pub open spec fn bad_name_msg() -> Seq<char> {
    "некорректное имя базы"@
}

pub open spec fn bad_start_msg() -> Seq<char> {
    "имя базы должно начинаться с буквы"@
}

pub open spec fn bad_chars_msg() -> Seq<char> {
    "в имени базы только латиница, цифры и _"@
}

/// A character allowed in a database name.
pub open spec fn db_char(c: char) -> bool {
    is_alnum(c) || c == '_'
}

/// A database name as given, trimmed, and checked: not empty and at most
/// 64 bytes, starting with an ASCII letter or `_`, made of ASCII letters,
/// digits and `_`.
pub open spec fn sanitize_db_spec(name: Seq<char>) -> Result<Seq<char>, Seq<char>> {
    let s = trim(name);
    if s.len() == 0 || byte_len(s) > 64 {
        Err(bad_name_msg())
    } else if !(is_alpha(s[0]) || s[0] == '_') {
        Err(bad_start_msg())
    } else if !(forall|i: int| 0 <= i < s.len() ==> db_char(#[trigger] s[i])) {
        Err(bad_chars_msg())
    } else {
        Ok(s)
    }
}

/// Which database names are accepted: exactly those whose trimmed text is 1
/// to 64 bytes long, starts with an ASCII letter of either case or `_`, and
/// holds only ASCII letters of either case, digits and `_`; an accepted
/// name comes back trimmed and otherwise unchanged. A bad first character
/// and a bad later character are told apart.
pub proof fn lemma_sanitize_db_accepts(name: Seq<char>)
    ensures
        ({
            let s = trim(name);
            &&& (sanitize_db_spec(name) is Ok <==> (s.len() > 0 && byte_len(s) <= 64 && (('A' <= s[0]
                && s[0] <= 'Z') || ('a' <= s[0] && s[0] <= 'z') || s[0] == '_') && forall|i: int|
                0 <= i < s.len() ==> ('A' <= #[trigger] s[i] && s[i] <= 'Z') || ('a' <= s[i] && s[i]
                <= 'z') || ('0' <= s[i] && s[i] <= '9') || s[i] == '_'))
            &&& (sanitize_db_spec(name) matches Ok(x) ==> x == s)
            &&& (s.len() > 0 && byte_len(s) <= 64 && !(('A' <= s[0] && s[0] <= 'Z') || ('a' <= s[0]
                && s[0] <= 'z') || s[0] == '_') ==> sanitize_db_spec(name) == Err::<Seq<char>, Seq<char>>(
                bad_start_msg(),
            ))
        }),
{
}

/// Checks a database name.
pub fn sanitize_db(name: &str) -> (r: LaxResult<String>)
    ensures
        match sanitize_db_spec(name@) {
            Ok(s) => r matches Ok(x) && x@ == s,
            Err(m) => err_msg(r, m),
        },
{
    let s = trim_str(name);
    if s.len() == 0 || byte_len_capped(&s, 65) > 64 {
        return Err(LaxError::msg("некорректное имя базы".to_string()));
    }
    let first = s[0];
    if !(char_is_alpha(first) || first == '_') {
        return Err(LaxError::msg("имя базы должно начинаться с буквы".to_string()));
    }
    let mut i: usize = 0;
    while i < s.len()
        invariant
            i <= s.len(),
            s@ == trim(name@),
            s.len() > 0,
            byte_len(s@) <= 64,
            is_alpha(s@[0]) || s@[0] == '_',
            forall|j: int| 0 <= j < i ==> db_char(#[trigger] s@[j]),
        decreases s.len() - i,
    {
        if !(char_is_alnum(s[i]) || s[i] == '_') {
            assert(!db_char(s@[i as int]));
            return Err(LaxError::msg("в имени базы только латиница, цифры и _".to_string()));
        }
        i += 1;
    }
    Ok(string_of(&s))
}

/// The client's arguments that list the databases.
pub fn list_databases_args(cfg: &LaxConfig) -> (r: Vec<String>)
    ensures
        r@.map_values(|s: String| s@) == mysql_args_spec(cfg.mysql_port) + seq![
            "-N"@,
            "-e"@,
            "SHOW DATABASES"@,
        ],
{
    let mut r = mysql_args(cfg);
    push_string(&mut r, "-N".to_string());
    push_string(&mut r, "-e".to_string());
    push_string(&mut r, "SHOW DATABASES".to_string());
    assert(r@.map_values(|s: String| s@) =~= mysql_args_spec(cfg.mysql_port) + seq![
        "-N"@,
        "-e"@,
        "SHOW DATABASES"@,
    ]);
    r
}

pub open spec fn list_failed_msg(out: Seq<char>) -> Seq<char> {
    "не удалось получить список баз (MariaDB запущена?)\n"@ + out
}

/// The user databases in the client's output: each line trimmed, empty lines
/// and system schemas left out.
pub open spec fn db_lines(out: Seq<char>) -> Seq<Seq<char>> {
    lines(out).map_values(|l: Seq<char>| trim(l)).filter(|l: Seq<char>| l.len() > 0 && !is_system_db(l))
}

/// The databases, from the client's exit code and output: sorted, or the
/// error when the client failed.
pub fn list_databases(code: i32, out: &str) -> (r: LaxResult<Vec<String>>)
    ensures
        code != 0 ==> err_msg(r, list_failed_msg(out@)),
        code == 0 ==> (r matches Ok(v) && {
            let names = v@.map_values(|s: String| s@);
            &&& names.to_multiset() == db_lines(out@).to_multiset()
            &&& sorted_by(names, lex_order())
        }),
{
    if code != 0 {
        let mut m = chars_of("не удалось получить список баз (MariaDB запущена?)\n");
        append_str(&mut m, out);
        return Err(LaxError::msg(string_of(&m)));
    }
    let ls = lines_of(out);
    let ghost tl = views(ls@).map_values(|l: Seq<char>| trim(l));
    let mut kept: Vec<Vec<char>> = Vec::new();
    let mut i: usize = 0;
    while i < ls.len()
        invariant
            i <= ls.len(),
            views(ls@) == lines(out@),
            tl == views(ls@).map_values(|l: Seq<char>| trim(l)),
            views(kept@) == tl.take(i as int).filter(|l: Seq<char>| l.len() > 0 && !is_system_db(l)),
        decreases ls.len() - i,
    {
        let t = trim_chars(&ls[i]);
        proof {
            assert(tl.take(i + 1).drop_last() == tl.take(i as int));
            assert(tl.take(i + 1).last() == t@);
            reveal(Seq::filter);
        }
        let sys = eq_str(&t, "information_schema") || eq_str(&t, "performance_schema") || eq_str(
            &t,
            "mysql",
        ) || eq_str(&t, "sys");
        if t.len() > 0 && !sys {
            let ghost old_k = kept@;
            kept.push(t);
            assert(views(kept@) == views(old_k).push(t@));
        }
        i += 1;
    }
    assert(tl.take(ls.len() as int) == tl);
    let sorted = sort_chars(kept);
    let mut r: Vec<String> = Vec::new();
    let mut j: usize = 0;
    while j < sorted.len()
        invariant
            j <= sorted.len(),
            r@.map_values(|s: String| s@) == views(sorted@).take(j as int),
        decreases sorted.len() - j,
    {
        push_string(&mut r, string_of(&sorted[j]));
        assert(views(sorted@).take(j + 1) == views(sorted@).take(j as int).push(sorted@[j as int]@));
        j += 1;
    }
    assert(views(sorted@).take(sorted.len() as int) == views(sorted@));
    Ok(r)
}

/// The statement that creates a database in UTF-8.
pub open spec fn create_sql(name: Seq<char>) -> Seq<char> {
    "CREATE DATABASE IF NOT EXISTS `"@ + name + "` CHARACTER SET utf8mb4 COLLATE utf8mb4_unicode_ci"@
}

/// The client's arguments that create the database `name` (checked first).
pub fn create_database(cfg: &LaxConfig, name: &str) -> (r: LaxResult<Vec<String>>)
    ensures
        match sanitize_db_spec(name@) {
            Ok(s) => r matches Ok(v) && v@.map_values(|x: String| x@) == mysql_args_spec(
                cfg.mysql_port,
            ) + seq!["-e"@, create_sql(s)],
            Err(m) => err_msg(r, m),
        },
{
    let n = sanitize_db(name)?;
    let mut sql = chars_of("CREATE DATABASE IF NOT EXISTS `");
    append_str(&mut sql, n.as_str());
    append_str(&mut sql, "` CHARACTER SET utf8mb4 COLLATE utf8mb4_unicode_ci");
    let mut r = mysql_args(cfg);
    push_string(&mut r, "-e".to_string());
    push_string(&mut r, string_of(&sql));
    assert(r@.map_values(|x: String| x@) =~= mysql_args_spec(cfg.mysql_port) + seq![
        "-e"@,
        create_sql(n@),
    ]);
    Ok(r)
}

pub open spec fn create_failed_msg(out: Seq<char>) -> Seq<char> {
    "не удалось создать базу:\n"@ + out
}

/// The answer to a create request, from the client's exit code and output.
pub fn create_database_result(code: i32, out: &str) -> (r: LaxResult<()>)
    ensures
        code == 0 <==> r is Ok,
        code != 0 ==> err_msg(r, create_failed_msg(out@)),
{
    if code != 0 {
        let mut m = chars_of("не удалось создать базу:\n");
        append_str(&mut m, out);
        return Err(LaxError::msg(string_of(&m)));
    }
    Ok(())
}

/// The largest dump imported through the GUI: 40 MiB.
pub open spec fn max_dump_bytes() -> nat {
    41943040
}

pub open spec fn dump_too_big_msg() -> Seq<char> {
    "дамп больше 40 МБ — импортируй через mysql CLI"@
}

/// Importing `sql` into the database `db`: the name is checked, the dump
/// may have at most 40 MiB; the client then reads it with these arguments.
pub open spec fn import_sql_spec(port: u16, db: Seq<char>, sql: Seq<char>) -> Result<Seq<Seq<char>>, Seq<char>> {
    match sanitize_db_spec(db) {
        Err(m) => Err(m),
        Ok(d) => if byte_len(sql) > max_dump_bytes() {
            Err(dump_too_big_msg())
        } else {
            Ok(mysql_args_spec(port) + seq!["--default-character-set=utf8mb4"@, d])
        },
    }
}

/// The client's arguments that import the dump `sql` into `db`.
pub fn import_sql(cfg: &LaxConfig, db: &str, sql: &str) -> (r: LaxResult<Vec<String>>)
    ensures
        match import_sql_spec(cfg.mysql_port, db@, sql@) {
            Ok(a) => r matches Ok(v) && v@.map_values(|x: String| x@) == a,
            Err(m) => err_msg(r, m),
        },
{
    let d = sanitize_db(db)?;
    let sv = chars_of(sql);
    if byte_len_capped(&sv, 41943041) > 41943040 {
        return Err(LaxError::msg("дамп больше 40 МБ — импортируй через mysql CLI".to_string()));
    }
    let mut r = mysql_args(cfg);
    push_string(&mut r, "--default-character-set=utf8mb4".to_string());
    push_string(&mut r, d);
    assert(r@.map_values(|x: String| x@) =~= mysql_args_spec(cfg.mysql_port) + seq![
        "--default-character-set=utf8mb4"@,
        d@,
    ]);
    Ok(r)
}

pub open spec fn import_failed_msg(out: Seq<char>) -> Seq<char> {
    "импорт не удался:\n"@ + out
}

/// The answer to an import, from whether the client succeeded and its output.
pub fn import_sql_result(success: bool, out: &str) -> (r: LaxResult<()>)
    ensures
        success <==> r is Ok,
        !success ==> err_msg(r, import_failed_msg(out@)),
{
    if !success {
        let mut m = chars_of("импорт не удался:\n");
        append_str(&mut m, out);
        return Err(LaxError::msg(string_of(&m)));
    }
    Ok(())
}

} // verus!
