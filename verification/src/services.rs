//! Starting and stopping the services of the stack: what each one runs, with
//! which arguments and environment, what its configuration files say, and
//! what is reported when it cannot start.
use vstd::prelude::*;
use crate::config::{LaxConfig, Paths};
use crate::error::{LaxError, LaxResult, err_msg, is_msg};
use crate::paths::{FileWrite, is_path_sep_exec, join, join_path, network_form, parent_dir, parent_of, unix, unix_spec};
use crate::platform::{Platform, bin, bin_name, bin_path, path_sep, path_sep_of, push_string, strings};
use crate::text::{append_chars, append_str, byte_len, byte_len_capped, chars_of, dec, dec_chars, dec_string, lemma_byte_len_concat, lemma_byte_len_push, slice_chars, string_of, trim, trim_str};
use vstd::utf8::{char_is_scalar, encode_scalar, encode_utf8};

verus! {

/// Mailpit's SMTP port.
pub const MAILPIT_SMTP: u16 = 1025;

/// Mailpit's web interface.
pub const MAILPIT_UI: u16 = 8025;

/// DbGate's web interface.
pub const DBGATE_UI: u16 = 8030;

/// A process to start under a name of the process table.
#[derive(Clone, Debug)]
pub struct Spawn {
    pub name: String,
    pub program: String,
    pub args: Vec<String>,
    pub cwd: String,
    pub env: Vec<(String, String)>,
    /// The file that receives its output, if any.
    pub log: Option<String>,
}

pub open spec fn strs(v: Seq<String>) -> Seq<Seq<char>> {
    v.map_values(|s: String| s@)
}

pub open spec fn pairs(v: Seq<(String, String)>) -> Seq<(Seq<char>, Seq<char>)> {
    v.map_values(|e: (String, String)| (e.0@, e.1@))
}

/// Appends the entry `(k, v)`.
pub fn push_pair(v: &mut Vec<(String, String)>, k: String, x: String)
    ensures
        pairs(final(v)@) == pairs(old(v)@).push((k@, x@)),
{
    let ghost o = v@;
    v.push((k, x));
    assert(pairs(v@) =~= pairs(o).push((k@, x@)));
}

/// The error for a port another program holds; `hint` says what to stop.
pub open spec fn port_busy_text(port: u16, hint: Seq<char>) -> Seq<char> {
    "port "@ + dec(port as nat) + " is already in use — "@ + hint
}

pub fn port_busy(port: u16, hint: &str) -> (e: LaxError)
    ensures
        is_msg(e, port_busy_text(port, hint@)),
{
    let mut v = chars_of("port ");
    dec_chars(port as u64, &mut v);
    append_str(&mut v, " is already in use — ");
    append_str(&mut v, hint);
    LaxError::msg(string_of(&v))
}

/// The error when a service does not open its port in time.
pub fn port_timeout(port: u16) -> (e: LaxError)
    ensures
        is_msg(e, "service did not open port "@ + dec(port as nat) + " in time"@),
{
    let mut v = chars_of("service did not open port ");
    dec_chars(port as u64, &mut v);
    append_str(&mut v, " in time");
    LaxError::msg(string_of(&v))
}

// ---------------------------------------------------------------------------
// Apache and Nginx
// ---------------------------------------------------------------------------

pub open spec fn apache_dir_spec(paths: Paths, cfg: LaxConfig) -> Seq<char> {
    join_path(
        join_path(join_path(paths.root@, "bin"@, paths.platform), "apache"@, paths.platform),
        cfg.apache_version@,
        paths.platform,
    )
}

pub open spec fn nginx_dir_spec(paths: Paths, cfg: LaxConfig) -> Seq<char> {
    join_path(
        join_path(join_path(paths.root@, "bin"@, paths.platform), "nginx"@, paths.platform),
        cfg.nginx_version@,
        paths.platform,
    )
}

/// `httpd` in Apache's `bin` folder.
pub fn apache_bin(paths: &Paths, cfg: &LaxConfig) -> (r: String)
    ensures
        r@ == join_path(
            join_path(apache_dir_spec(*paths, *cfg), "bin"@, paths.platform),
            bin_name("httpd"@, paths.platform),
            paths.platform,
        ),
{
    let d = paths.apache_dir(cfg);
    let b = join(d.as_str(), "bin", paths.platform);
    bin_path(b.as_str(), "httpd", paths.platform)
}

pub open spec fn apache_missing_text(httpd: Seq<char>, platform: Platform) -> Seq<char> {
    match platform {
        Platform::Unix => "Apache на Linux не входит в портативный стек (нет httpd). Включи Nginx — он уже в bin/nginx. Скрипт: scripts/fetch-linux-stack.sh"@,
        Platform::Windows => "binary not found: "@ + httpd,
    }
}

/// The error when Apache's executable `httpd` is missing.
pub fn apache_missing(httpd: &str, platform: Platform) -> (e: LaxError)
    ensures
        is_msg(e, apache_missing_text(httpd@, platform)),
{
    match platform {
        Platform::Unix => LaxError::msg(
            "Apache на Linux не входит в портативный стек (нет httpd). Включи Nginx — он уже в bin/nginx. Скрипт: scripts/fetch-linux-stack.sh".to_string(),
        ),
        Platform::Windows => {
            let mut v = chars_of("binary not found: ");
            append_str(&mut v, httpd);
            LaxError::msg(string_of(&v))
        },
    }
}

/// The answer to Apache's configuration test (`httpd -t`).
pub fn apache_config_checked(code: i32, out: &str) -> (r: LaxResult<()>)
    ensures
        code == 0 <==> r is Ok,
        code != 0 ==> err_msg(r, "Apache config test failed:\n"@ + out@),
{
    if code != 0 {
        let mut v = chars_of("Apache config test failed:\n");
        append_str(&mut v, out);
        return Err(LaxError::msg(string_of(&v)));
    }
    Ok(())
}

pub open spec fn spawn_view(s: Spawn) -> (
    Seq<char>,
    Seq<char>,
    Seq<Seq<char>>,
    Seq<char>,
    Seq<(Seq<char>, Seq<char>)>,
    Option<Seq<char>>,
) {
    (
        s.name@,
        s.program@,
        strs(s.args@),
        s.cwd@,
        pairs(s.env@),
        match s.log {
            Some(l) => Some(l@),
            None => None,
        },
    )
}

/// Apache runs as `apache`, `httpd` without arguments in its folder.
pub fn apache_spawn(paths: &Paths, cfg: &LaxConfig) -> (s: Spawn)
    ensures
        spawn_view(s) == (
            "apache"@,
            join_path(
                join_path(apache_dir_spec(*paths, *cfg), "bin"@, paths.platform),
                bin_name("httpd"@, paths.platform),
                paths.platform,
            ),
            Seq::<Seq<char>>::empty(),
            apache_dir_spec(*paths, *cfg),
            Seq::<(Seq<char>, Seq<char>)>::empty(),
            None::<Seq<char>>,
        ),
{
    let s = Spawn {
        name: "apache".to_string(),
        program: apache_bin(paths, cfg),
        args: Vec::new(),
        cwd: paths.apache_dir(cfg),
        env: Vec::new(),
        log: None,
    };
    assert(strs(s.args@) =~= Seq::<Seq<char>>::empty());
    assert(pairs(s.env@) =~= Seq::<(Seq<char>, Seq<char>)>::empty());
    s
}

/// `nginx` in Nginx's folder.
pub fn nginx_bin(paths: &Paths, cfg: &LaxConfig) -> (r: String)
    ensures
        r@ == join_path(nginx_dir_spec(*paths, *cfg), bin_name("nginx"@, paths.platform), paths.platform),
{
    let d = paths.nginx_dir(cfg);
    bin_path(d.as_str(), "nginx", paths.platform)
}

/// The error when Nginx's executable is missing.
pub fn nginx_missing(nginx: &str) -> (e: LaxError)
    ensures
        is_msg(e, "nginx не найден: "@ + nginx@ + ". На Linux: bash scripts/fetch-linux-stack.sh"@),
{
    let mut v = chars_of("nginx не найден: ");
    append_str(&mut v, nginx);
    append_str(&mut v, ". На Linux: bash scripts/fetch-linux-stack.sh");
    LaxError::msg(string_of(&v))
}

/// Nginx's arguments: on Unix it runs with its folder (forward slashes) as
/// prefix and `conf/nginx.conf`; on Windows without arguments. `stop` adds
/// `-s stop`.
pub open spec fn nginx_args_spec(dir: Seq<char>, platform: Platform, stop: bool) -> Seq<Seq<char>> {
    let base = match platform {
        Platform::Unix => seq!["-p"@, unix_spec(dir), "-c"@, "conf/nginx.conf"@],
        Platform::Windows => Seq::empty(),
    };
    if stop {
        base + seq!["-s"@, "stop"@]
    } else {
        base
    }
}

pub fn nginx_args(paths: &Paths, cfg: &LaxConfig, stop: bool) -> (r: Vec<String>)
    ensures
        strs(r@) == nginx_args_spec(nginx_dir_spec(*paths, *cfg), paths.platform, stop),
{
    let d = paths.nginx_dir(cfg);
    let mut r: Vec<String> = Vec::new();
    if paths.platform == Platform::Unix {
        let u = unix(d.as_str());
        push_string(&mut r, "-p".to_string());
        push_string(&mut r, u);
        push_string(&mut r, "-c".to_string());
        push_string(&mut r, "conf/nginx.conf".to_string());
    }
    if stop {
        push_string(&mut r, "-s".to_string());
        push_string(&mut r, "stop".to_string());
    }
    assert(strs(r@) =~= nginx_args_spec(nginx_dir_spec(*paths, *cfg), paths.platform, stop));
    r
}

/// Nginx runs as `nginx` in its folder.
pub fn nginx_spawn(paths: &Paths, cfg: &LaxConfig) -> (s: Spawn)
    ensures
        spawn_view(s) == (
            "nginx"@,
            join_path(nginx_dir_spec(*paths, *cfg), bin_name("nginx"@, paths.platform), paths.platform),
            nginx_args_spec(nginx_dir_spec(*paths, *cfg), paths.platform, false),
            nginx_dir_spec(*paths, *cfg),
            Seq::<(Seq<char>, Seq<char>)>::empty(),
            None::<Seq<char>>,
        ),
{
    let s = Spawn {
        name: "nginx".to_string(),
        program: nginx_bin(paths, cfg),
        args: nginx_args(paths, cfg, false),
        cwd: paths.nginx_dir(cfg),
        env: Vec::new(),
        log: None,
    };
    assert(pairs(s.env@) =~= Seq::<(Seq<char>, Seq<char>)>::empty());
    s
}

/// The `nginx.conf` of the Unix Nginx: one worker, its logs in its own
/// folder, the stack's MIME types, PHP upstream and sites.
pub open spec fn nginx_prefix_text(root: Seq<char>) -> Seq<char> {
    "worker_processes 1;\nerror_log logs/error.log warn;\npid logs/nginx.pid;\nevents {\n    worker_connections 1024;\n}\nhttp {\n    include "@
        + root
        + "/etc/nginx/mime.types;\n    default_type application/octet-stream;\n    sendfile on;\n    keepalive_timeout 65;\n    client_max_body_size 2000M;\n    access_log logs/access.log;\n    include "@
        + root + "/etc/nginx/php_upstream.conf;\n    include "@ + root
        + "/etc/nginx/sites-enabled/*.conf;\n}\n"@
}

/// `conf/nginx.conf` in Nginx's folder, for Unix.
pub fn nginx_prefix_conf(paths: &Paths, cfg: &LaxConfig) -> (w: FileWrite)
    ensures
        w.path@ == join_path(nginx_dir_spec(*paths, *cfg), "conf/nginx.conf"@, paths.platform),
        w.body@ == nginx_prefix_text(unix_spec(paths.root@)),
{
    let root = unix(paths.root.as_str());
    let mut v = chars_of(
        "worker_processes 1;\nerror_log logs/error.log warn;\npid logs/nginx.pid;\nevents {\n    worker_connections 1024;\n}\nhttp {\n    include ",
    );
    append_str(&mut v, root.as_str());
    append_str(
        &mut v,
        "/etc/nginx/mime.types;\n    default_type application/octet-stream;\n    sendfile on;\n    keepalive_timeout 65;\n    client_max_body_size 2000M;\n    access_log logs/access.log;\n    include ",
    );
    append_str(&mut v, root.as_str());
    append_str(&mut v, "/etc/nginx/php_upstream.conf;\n    include ");
    append_str(&mut v, root.as_str());
    append_str(&mut v, "/etc/nginx/sites-enabled/*.conf;\n}\n");
    let d = paths.nginx_dir(cfg);
    FileWrite { path: join(d.as_str(), "conf/nginx.conf", paths.platform), body: string_of(&v) }
}

// ---------------------------------------------------------------------------
// MariaDB
// ---------------------------------------------------------------------------

pub open spec fn mysql_dir_spec(paths: Paths, cfg: LaxConfig) -> Seq<char> {
    join_path(
        join_path(join_path(paths.root@, "bin"@, paths.platform), "mysql"@, paths.platform),
        cfg.mysql_version@,
        paths.platform,
    )
}

pub open spec fn mysql_bin_dir(paths: Paths, cfg: LaxConfig) -> Seq<char> {
    join_path(mysql_dir_spec(paths, cfg), "bin"@, paths.platform)
}

/// The MariaDB server: `bin/mariadbd` when it exists, else `bin/mysqld`.
pub fn mysql_server_bin(paths: &Paths, cfg: &LaxConfig, has_mariadbd: bool) -> (r: String)
    ensures
        r@ == join_path(
            mysql_bin_dir(*paths, *cfg),
            bin_name(
                if has_mariadbd {
                    "mariadbd"@
                } else {
                    "mysqld"@
                },
                paths.platform,
            ),
            paths.platform,
        ),
{
    let d = paths.mysql_dir(cfg);
    let b = join(d.as_str(), "bin", paths.platform);
    if has_mariadbd {
        bin_path(b.as_str(), "mariadbd", paths.platform)
    } else {
        bin_path(b.as_str(), "mysqld", paths.platform)
    }
}

/// The error when the MariaDB server is missing.
pub fn mariadb_missing(mysqld: &str) -> (e: LaxError)
    ensures
        is_msg(e, "MariaDB не найден: "@ + mysqld@ + ". На Linux: bash scripts/fetch-linux-stack.sh"@),
{
    let mut v = chars_of("MariaDB не найден: ");
    append_str(&mut v, mysqld);
    append_str(&mut v, ". На Linux: bash scripts/fetch-linux-stack.sh");
    LaxError::msg(string_of(&v))
}

/// The library folders of the MariaDB tarball on Unix.
pub fn mariadb_lib_dirs(paths: &Paths, cfg: &LaxConfig) -> (r: Vec<String>)
    ensures
        strs(r@) == seq![
            join_path(mysql_dir_spec(*paths, *cfg), "lib"@, paths.platform),
            join_path(mysql_dir_spec(*paths, *cfg), "lib/private"@, paths.platform),
        ],
{
    let d = paths.mysql_dir(cfg);
    let mut r: Vec<String> = Vec::new();
    push_string(&mut r, join(d.as_str(), "lib", paths.platform));
    push_string(&mut r, join(d.as_str(), "lib/private", paths.platform));
    r
}

/// The server's arguments: its options file (`my.cnf` when it exists, else
/// `my.ini`), and on Unix its base folder, in forward slashes.
pub open spec fn mariadb_args_spec(dir: Seq<char>, has_my_cnf: bool, platform: Platform) -> Seq<Seq<char>> {
    let ini = join_path(
        dir,
        if has_my_cnf {
            "my.cnf"@
        } else {
            "my.ini"@
        },
        platform,
    );
    let defaults = "--defaults-file="@ + unix_spec(ini);
    match platform {
        Platform::Unix => seq![defaults, "--basedir="@ + unix_spec(dir)],
        Platform::Windows => seq![defaults],
    }
}

fn concat_str(a: &str, b: &str) -> (r: String)
    ensures
        r@ == a@ + b@,
{
    let mut v = chars_of(a);
    append_str(&mut v, b);
    string_of(&v)
}

/// MariaDB runs as `mariadb` in its `bin` folder, with the library path
/// `lib_env` (see `unix_lib_env`).
pub fn mariadb_spawn(paths: &Paths, cfg: &LaxConfig, has_mariadbd: bool, has_my_cnf: bool, lib_env: Vec<(String, String)>) -> (s: Spawn)
    ensures
        s.name@ == "mariadb"@,
        s.program@ == join_path(
            mysql_bin_dir(*paths, *cfg),
            bin_name(
                if has_mariadbd {
                    "mariadbd"@
                } else {
                    "mysqld"@
                },
                paths.platform,
            ),
            paths.platform,
        ),
        strs(s.args@) == mariadb_args_spec(mysql_dir_spec(*paths, *cfg), has_my_cnf, paths.platform),
        s.cwd@ == mysql_bin_dir(*paths, *cfg),
        s.env@ == lib_env@,
        s.log is None,
{
    let d = paths.mysql_dir(cfg);
    let ini = if has_my_cnf {
        join(d.as_str(), "my.cnf", paths.platform)
    } else {
        join(d.as_str(), "my.ini", paths.platform)
    };
    let ui = unix(ini.as_str());
    let mut args: Vec<String> = Vec::new();
    push_string(&mut args, concat_str("--defaults-file=", ui.as_str()));
    if paths.platform == Platform::Unix {
        let ud = unix(d.as_str());
        push_string(&mut args, concat_str("--basedir=", ud.as_str()));
    }
    assert(strs(args@) =~= mariadb_args_spec(mysql_dir_spec(*paths, *cfg), has_my_cnf, paths.platform));
    Spawn {
        name: "mariadb".to_string(),
        program: mysql_server_bin(paths, cfg, has_mariadbd),
        args,
        cwd: join(d.as_str(), "bin", paths.platform),
        env: lib_env,
        log: None,
    }
}

/// The data folder is set up when it holds `ibdata1` or `mysql`.
pub fn datadir_ready(has_ibdata: bool, has_mysql: bool) -> (r: bool)
    ensures
        r == (has_ibdata || has_mysql),
{
    has_ibdata || has_mysql
}

/// A command that sets up the data folder; `is_init` marks the server's
/// own `--initialize-insecure`, the last resort.
#[derive(Clone, Debug)]
pub struct InitCommand {
    pub program: String,
    pub args: Vec<String>,
    pub is_init: bool,
}

/// What is on disk for one of the install-db tools: its executable in `bin`
/// and its script in `scripts`.
#[derive(Clone, Copy, Debug)]
pub struct InstallerFiles {
    pub exe: bool,
    pub script: bool,
}

/// The arguments of an install-db tool: the data folder (forward slashes),
/// then on Unix the base folder and normal root authentication, on Windows
/// an empty root password.
pub open spec fn installer_args_spec(data: Seq<char>, dir: Seq<char>, platform: Platform) -> Seq<Seq<char>> {
    let datadir = "--datadir="@ + unix_spec(data);
    match platform {
        Platform::Unix => seq![datadir, "--basedir="@ + unix_spec(dir), "--auth-root-authentication-method=normal"@],
        Platform::Windows => seq![datadir, "--password="@],
    }
}

/// The arguments of `--initialize-insecure`.
pub open spec fn init_args_spec(data: Seq<char>, dir: Seq<char>, platform: Platform) -> Seq<Seq<char>> {
    let datadir = "--datadir="@ + unix_spec(data);
    match platform {
        Platform::Unix => seq![datadir, "--basedir="@ + unix_spec(dir), "--initialize-insecure"@],
        Platform::Windows => seq![datadir, "--initialize-insecure"@],
    }
}

pub open spec fn init_command_view(c: InitCommand) -> (Seq<char>, Seq<Seq<char>>, bool) {
    (c.program@, strs(c.args@), c.is_init)
}

/// The install-db tool `k` as found: its executable, else its script.
pub open spec fn installer_path(paths: Paths, cfg: LaxConfig, name: Seq<char>, f: InstallerFiles) -> Option<Seq<char>> {
    if f.exe {
        Some(join_path(mysql_bin_dir(paths, cfg), bin_name(name, paths.platform), paths.platform))
    } else if f.script {
        Some(join_path(join_path(mysql_dir_spec(paths, cfg), "scripts"@, paths.platform), name, paths.platform))
    } else {
        None
    }
}

/// The commands tried, in order, to set up the data folder: each install-db
/// tool that is there, then the server's `--initialize-insecure`.
pub open spec fn datadir_commands_spec(
    paths: Paths,
    cfg: LaxConfig,
    tools: (InstallerFiles, InstallerFiles),
    has_mariadbd: bool,
) -> Seq<(Seq<char>, Seq<Seq<char>>, bool)> {
    let data = data_dir_spec(paths);
    let dir = mysql_dir_spec(paths, cfg);
    let ia = installer_args_spec(data, dir, paths.platform);
    let first = match installer_path(paths, cfg, "mariadb-install-db"@, tools.0) {
        Some(p) => seq![(p, ia, false)],
        None => Seq::empty(),
    };
    let second = match installer_path(paths, cfg, "mysql_install_db"@, tools.1) {
        Some(p) => seq![(p, ia, false)],
        None => Seq::empty(),
    };
    let server = join_path(
        mysql_bin_dir(paths, cfg),
        bin_name(
            if has_mariadbd {
                "mariadbd"@
            } else {
                "mysqld"@
            },
            paths.platform,
        ),
        paths.platform,
    );
    first + second + seq![(server, init_args_spec(data, dir, paths.platform), true)]
}

fn installer_exec(paths: &Paths, cfg: &LaxConfig, name: &str, f: InstallerFiles) -> (r: Option<String>)
    ensures
        match r {
            Some(p) => installer_path(*paths, *cfg, name@, f) == Some(p@),
            None => installer_path(*paths, *cfg, name@, f) is None,
        },
{
    let d = paths.mysql_dir(cfg);
    if f.exe {
        let b = join(d.as_str(), "bin", paths.platform);
        Some(bin_path(b.as_str(), name, paths.platform))
    } else if f.script {
        let sc = join(d.as_str(), "scripts", paths.platform);
        Some(join(sc.as_str(), name, paths.platform))
    } else {
        None
    }
}

pub open spec fn data_dir_spec(paths: Paths) -> Seq<char> {
    join_path(join_path(paths.root@, "data"@, paths.platform), "mariadb"@, paths.platform)
}

fn installer_args(paths: &Paths, cfg: &LaxConfig, init: bool) -> (r: Vec<String>)
    ensures
        strs(r@) == if init {
            init_args_spec(data_dir_spec(*paths), mysql_dir_spec(*paths, *cfg), paths.platform)
        } else {
            installer_args_spec(data_dir_spec(*paths), mysql_dir_spec(*paths, *cfg), paths.platform)
        },
{
    let data = paths.datadir();
    let d = paths.mysql_dir(cfg);
    let mut r: Vec<String> = Vec::new();
    push_string(&mut r, concat_str("--datadir=", unix(data.as_str()).as_str()));
    if paths.platform == Platform::Unix {
        push_string(&mut r, concat_str("--basedir=", unix(d.as_str()).as_str()));
    }
    if init {
        push_string(&mut r, "--initialize-insecure".to_string());
    } else if paths.platform == Platform::Unix {
        push_string(&mut r, "--auth-root-authentication-method=normal".to_string());
    } else {
        push_string(&mut r, "--password=".to_string());
    }
    assert(strs(r@) =~= if init {
        init_args_spec(data_dir_spec(*paths), mysql_dir_spec(*paths, *cfg), paths.platform)
    } else {
        installer_args_spec(data_dir_spec(*paths), mysql_dir_spec(*paths, *cfg), paths.platform)
    });
    r
}

fn push_init(v: &mut Vec<InitCommand>, c: InitCommand)
    ensures
        final(v)@.map_values(|c: InitCommand| init_command_view(c)) == old(v)@.map_values(
            |c: InitCommand| init_command_view(c),
        ).push(init_command_view(c)),
{
    let ghost o = v@;
    v.push(c);
    assert(v@.map_values(|c: InitCommand| init_command_view(c)) =~= o.map_values(
        |c: InitCommand| init_command_view(c),
    ).push(init_command_view(c)));
}

/// The commands that set up a new data folder, in the order tried.
pub fn datadir_commands(paths: &Paths, cfg: &LaxConfig, first: InstallerFiles, second: InstallerFiles, has_mariadbd: bool) -> (r: Vec<InitCommand>)
    ensures
        r@.map_values(|c: InitCommand| init_command_view(c)) == datadir_commands_spec(
            *paths,
            *cfg,
            (first, second),
            has_mariadbd,
        ),
{
    let ghost ia = installer_args_spec(data_dir_spec(*paths), mysql_dir_spec(*paths, *cfg), paths.platform);
    let ghost ini = init_args_spec(data_dir_spec(*paths), mysql_dir_spec(*paths, *cfg), paths.platform);
    let mut r: Vec<InitCommand> = Vec::new();
    proof {
        reveal_strlit("mariadb-install-db");
        reveal_strlit("mysql_install_db");
    }
    let ghost f0: Seq<(Seq<char>, Seq<Seq<char>>, bool)> = match installer_path(*paths, *cfg, "mariadb-install-db"@, first) {
        Some(p) => seq![(p, ia, false)],
        None => Seq::empty(),
    };
    let ghost f1: Seq<(Seq<char>, Seq<Seq<char>>, bool)> = match installer_path(*paths, *cfg, "mysql_install_db"@, second) {
        Some(p) => seq![(p, ia, false)],
        None => Seq::empty(),
    };
    if let Some(p) = installer_exec(paths, cfg, "mariadb-install-db", first) {
        let a = installer_args(paths, cfg, false);
        push_init(&mut r, InitCommand { program: p, args: a, is_init: false });
    }
    assert(r@.map_values(|c: InitCommand| init_command_view(c)) =~= f0);
    if let Some(p) = installer_exec(paths, cfg, "mysql_install_db", second) {
        let a = installer_args(paths, cfg, false);
        push_init(&mut r, InitCommand { program: p, args: a, is_init: false });
    }
    assert(r@.map_values(|c: InitCommand| init_command_view(c)) =~= f0 + f1);
    let server = mysql_server_bin(paths, cfg, has_mariadbd);
    let a = installer_args(paths, cfg, true);
    push_init(&mut r, InitCommand { program: server, args: a, is_init: true });
    r
}

/// What happens after a setup command ran.
#[derive(Clone, Debug)]
pub enum InitOutcome {
    /// The data folder is set up.
    Ready,
    /// Try the next command.
    Next,
    /// The last resort failed, with this message.
    Failed(String),
}

/// After an install-db tool: ready when it succeeded or `mysql` appeared,
/// else the next command. After `--initialize-insecure`: ready when it
/// succeeded or `mysql` or `ibdata1` appeared, else the failure with its
/// output.
pub fn datadir_outcome(is_init: bool, code: i32, out: &str, has_mysql: bool, has_ibdata: bool) -> (r: InitOutcome)
    ensures
        !is_init ==> (r matches InitOutcome::Ready <==> (code == 0 || has_mysql)),
        !is_init && !(code == 0 || has_mysql) ==> r is Next,
        is_init ==> (r matches InitOutcome::Ready <==> (code == 0 || has_mysql || has_ibdata)),
        is_init && !(code == 0 || has_mysql || has_ibdata) ==> (r matches InitOutcome::Failed(m) && m@
            == "failed to initialize MariaDB datadir:\n"@ + out@),
{
    if !is_init {
        if code == 0 || has_mysql {
            InitOutcome::Ready
        } else {
            InitOutcome::Next
        }
    } else if code == 0 || has_mysql || has_ibdata {
        InitOutcome::Ready
    } else {
        InitOutcome::Failed(concat_str("failed to initialize MariaDB datadir:\n", out))
    }
}

// ---------------------------------------------------------------------------
// PHP
// ---------------------------------------------------------------------------

pub open spec fn php_dir_spec(paths: Paths, cfg: LaxConfig) -> Seq<char> {
    join_path(
        join_path(join_path(paths.root@, "bin"@, paths.platform), "php"@, paths.platform),
        cfg.php_version@,
        paths.platform,
    )
}

/// The PHP-FPM pool for Nginx on Unix: one pool on `port`, logs under
/// `logs`, `PHPRC` pointing at the PHP folder.
pub open spec fn php_fpm_text(root: Seq<char>, php_dir: Seq<char>, port: u16) -> Seq<char> {
    "[global]\npid = "@ + root + "/tmp/php-fpm.pid\nerror_log = "@ + root
        + "/logs/php-fpm.log\ndaemonize = no\n\n[www]\nlisten = 127.0.0.1:"@ + dec(port as nat)
        + "\nlisten.allowed_clients = 127.0.0.1\npm = dynamic\npm.max_children = 8\npm.start_servers = 2\npm.min_spare_servers = 1\npm.max_spare_servers = 3\nchdir = /\nphp_admin_value[error_log] = "@
        + root + "/logs/php-fpm-www.log\nphp_admin_flag[log_errors] = on\nenv[PHPRC] = "@ + php_dir
        + "\n"@
}

/// `tmp/php-fpm.conf`.
pub fn php_fpm_conf(paths: &Paths, cfg: &LaxConfig, port: u16) -> (w: FileWrite)
    ensures
        w.path@ == join_path(join_path(paths.root@, "tmp"@, paths.platform), "php-fpm.conf"@, paths.platform),
        w.body@ == php_fpm_text(unix_spec(paths.root@), unix_spec(php_dir_spec(*paths, *cfg)), port),
{
    let root = unix(paths.root.as_str());
    let pd = paths.php_dir(cfg);
    let php_dir = unix(pd.as_str());
    let mut v = chars_of("[global]\npid = ");
    append_str(&mut v, root.as_str());
    append_str(&mut v, "/tmp/php-fpm.pid\nerror_log = ");
    append_str(&mut v, root.as_str());
    append_str(&mut v, "/logs/php-fpm.log\ndaemonize = no\n\n[www]\nlisten = 127.0.0.1:");
    dec_chars(port as u64, &mut v);
    append_str(
        &mut v,
        "\nlisten.allowed_clients = 127.0.0.1\npm = dynamic\npm.max_children = 8\npm.start_servers = 2\npm.min_spare_servers = 1\npm.max_spare_servers = 3\nchdir = /\nphp_admin_value[error_log] = ",
    );
    append_str(&mut v, root.as_str());
    append_str(&mut v, "/logs/php-fpm-www.log\nphp_admin_flag[log_errors] = on\nenv[PHPRC] = ");
    append_str(&mut v, php_dir.as_str());
    append_str(&mut v, "\n");
    let t = paths.tmp();
    FileWrite { path: join(t.as_str(), "php-fpm.conf", paths.platform), body: string_of(&v) }
}

/// The process name of the PHP worker on `port`.
pub open spec fn php_cgi_name(port: u16) -> Seq<char> {
    "php-cgi-"@ + dec(port as nat)
}

pub open spec fn php_env(paths: Paths, cfg: LaxConfig) -> Seq<(Seq<char>, Seq<char>)> {
    seq![("PHPRC"@, unix_spec(php_dir_spec(paths, cfg)))]
}

/// What starts PHP for Nginx: a `php-cgi` on each configured port when PHP
/// has `php-cgi`; else one PHP-FPM on the first port (9003 without one) with
/// its pool file; else the error that PHP is missing.
pub open spec fn php_cgi_plan_spec(paths: Paths, cfg: LaxConfig, has_cgi: bool, has_fpm: bool) -> Result<
    (
        Option<(Seq<char>, Seq<char>)>,
        Seq<(Seq<char>, Seq<char>, Seq<Seq<char>>, Seq<char>, Seq<(Seq<char>, Seq<char>)>, Option<Seq<char>>)>,
    ),
    Seq<char>,
> {
    let pd = php_dir_spec(paths, cfg);
    let p = paths.platform;
    if has_cgi {
        Ok(
            (
                None,
                cfg.php_cgi_ports@.map_values(
                    |port: u16|
                        (
                            php_cgi_name(port),
                            join_path(pd, bin_name("php-cgi"@, p), p),
                            seq!["-b"@, "127.0.0.1:"@ + dec(port as nat)],
                            pd,
                            php_env(paths, cfg),
                            None::<Seq<char>>,
                        ),
                ),
            ),
        )
    } else if has_fpm {
        let port: u16 = if cfg.php_cgi_ports@.len() > 0 {
            cfg.php_cgi_ports@[0]
        } else {
            9003
        };
        let conf = join_path(join_path(paths.root@, "tmp"@, p), "php-fpm.conf"@, p);
        Ok(
            (
                Some((conf, php_fpm_text(unix_spec(paths.root@), unix_spec(pd), port))),
                seq![
                    (
                        php_cgi_name(port),
                        join_path(pd, bin_name("php-fpm"@, p), p),
                        seq!["-F"@, "-y"@, unix_spec(conf)],
                        pd,
                        php_env(paths, cfg),
                        None::<Seq<char>>,
                    ),
                ],
            ),
        )
    } else {
        Err("PHP CGI/FPM не найден в "@ + pd + ". На Linux: bash scripts/fetch-linux-stack.sh"@)
    }
}

fn php_env_exec(paths: &Paths, cfg: &LaxConfig) -> (r: Vec<(String, String)>)
    ensures
        pairs(r@) == php_env(*paths, *cfg),
{
    let pd = paths.php_dir(cfg);
    let mut r: Vec<(String, String)> = Vec::new();
    push_pair(&mut r, "PHPRC".to_string(), unix(pd.as_str()));
    assert(pairs(r@) =~= php_env(*paths, *cfg));
    r
}

fn push_spawn(v: &mut Vec<Spawn>, s: Spawn)
    ensures
        final(v)@.map_values(|s: Spawn| spawn_view(s)) == old(v)@.map_values(|s: Spawn| spawn_view(s)).push(
            spawn_view(s),
        ),
{
    let ghost o = v@;
    v.push(s);
    assert(v@.map_values(|s: Spawn| spawn_view(s)) =~= o.map_values(|s: Spawn| spawn_view(s)).push(
        spawn_view(s),
    ));
}

/// How PHP is started for Nginx, given whether `php-cgi` and `php-fpm`
/// exist in the PHP folder.
pub fn php_cgi_plan(paths: &Paths, cfg: &LaxConfig, has_cgi: bool, has_fpm: bool) -> (r: LaxResult<(Option<FileWrite>, Vec<Spawn>)>)
    ensures
        match php_cgi_plan_spec(*paths, *cfg, has_cgi, has_fpm) {
            Ok((conf, spawns)) => r matches Ok((c, s)) && s@.map_values(|x: Spawn| spawn_view(x))
                == spawns && match c {
                Some(w) => conf == Some((w.path@, w.body@)),
                None => conf is None,
            },
            Err(m) => err_msg(r, m),
        },
{
    let pd = paths.php_dir(cfg);
    let p = paths.platform;
    if has_cgi {
        let cgi = bin_path(pd.as_str(), "php-cgi", p);
        let ghost want = cfg.php_cgi_ports@.map_values(
            |port: u16|
                (
                    php_cgi_name(port),
                    join_path(php_dir_spec(*paths, *cfg), bin_name("php-cgi"@, p), p),
                    seq!["-b"@, "127.0.0.1:"@ + dec(port as nat)],
                    php_dir_spec(*paths, *cfg),
                    php_env(*paths, *cfg),
                    None::<Seq<char>>,
                ),
        );
        let mut r: Vec<Spawn> = Vec::new();
        let mut i: usize = 0;
        while i < cfg.php_cgi_ports.len()
            invariant
                i <= cfg.php_cgi_ports@.len(),
                cgi@ == join_path(php_dir_spec(*paths, *cfg), bin_name("php-cgi"@, p), p),
                pd@ == php_dir_spec(*paths, *cfg),
                p == paths.platform,
                want == cfg.php_cgi_ports@.map_values(
                    |port: u16|
                        (
                            php_cgi_name(port),
                            join_path(php_dir_spec(*paths, *cfg), bin_name("php-cgi"@, p), p),
                            seq!["-b"@, "127.0.0.1:"@ + dec(port as nat)],
                            php_dir_spec(*paths, *cfg),
                            php_env(*paths, *cfg),
                            None::<Seq<char>>,
                        ),
                ),
                r@.map_values(|x: Spawn| spawn_view(x)) == want.take(i as int),
            decreases cfg.php_cgi_ports.len() - i,
        {
            let port = cfg.php_cgi_ports[i];
            let mut name = chars_of("php-cgi-");
            dec_chars(port as u64, &mut name);
            let mut bind = chars_of("127.0.0.1:");
            dec_chars(port as u64, &mut bind);
            let mut args: Vec<String> = Vec::new();
            push_string(&mut args, "-b".to_string());
            push_string(&mut args, string_of(&bind));
            assert(strs(args@) =~= seq!["-b"@, "127.0.0.1:"@ + dec(port as nat)]);
            let s = Spawn {
                name: string_of(&name),
                program: cgi.clone(),
                args,
                cwd: pd.clone(),
                env: php_env_exec(paths, cfg),
                log: None,
            };
            push_spawn(&mut r, s);
            assert(want.take(i + 1) =~= want.take(i as int).push(want[i as int]));
            i += 1;
        }
        assert(want.take(cfg.php_cgi_ports@.len() as int) =~= want);
        return Ok((None, r));
    }
    if has_fpm {
        let port: u16 = if cfg.php_cgi_ports.len() > 0 {
            cfg.php_cgi_ports[0]
        } else {
            9003
        };
        let conf = php_fpm_conf(paths, cfg, port);
        let fpm = bin_path(pd.as_str(), "php-fpm", p);
        let mut name = chars_of("php-cgi-");
        dec_chars(port as u64, &mut name);
        let mut args: Vec<String> = Vec::new();
        push_string(&mut args, "-F".to_string());
        push_string(&mut args, "-y".to_string());
        push_string(&mut args, unix(conf.path.as_str()));
        assert(strs(args@) =~= seq!["-F"@, "-y"@, unix_spec(conf.path@)]);
        let s = Spawn {
            name: string_of(&name),
            program: fpm,
            args,
            cwd: pd,
            env: php_env_exec(paths, cfg),
            log: None,
        };
        let mut r: Vec<Spawn> = Vec::new();
        push_spawn(&mut r, s);
        return Ok((Some(conf), r));
    }
    let mut m = chars_of("PHP CGI/FPM не найден в ");
    append_str(&mut m, pd.as_str());
    append_str(&mut m, ". На Linux: bash scripts/fetch-linux-stack.sh");
    Err(LaxError::msg(string_of(&m)))
}

// ---------------------------------------------------------------------------
// Mailpit
// ---------------------------------------------------------------------------

/// Where Mailpit may be, in order: `bin/mailpit/mailpit`, then `bin/mailpit`
/// (executable names of the platform).
pub fn mailpit_candidates(paths: &Paths) -> (r: Vec<String>)
    ensures
        strs(r@) == seq![
            join_path(
                join_path(join_path(paths.root@, "bin"@, paths.platform), "mailpit"@, paths.platform),
                bin_name("mailpit"@, paths.platform),
                paths.platform,
            ),
            join_path(join_path(paths.root@, "bin"@, paths.platform), bin_name("mailpit"@, paths.platform), paths.platform),
        ],
{
    let b = join(paths.root.as_str(), "bin", paths.platform);
    let m = join(b.as_str(), "mailpit", paths.platform);
    let mut r: Vec<String> = Vec::new();
    push_string(&mut r, bin_path(m.as_str(), "mailpit", paths.platform));
    push_string(&mut r, bin_path(b.as_str(), "mailpit", paths.platform));
    r
}

/// Mailpit: the first candidate that exists.
pub fn mailpit_bin(paths: &Paths, first_exists: bool, second_exists: bool) -> (r: Option<String>)
    ensures
        first_exists ==> (r matches Some(p) && p@ == join_path(
            join_path(join_path(paths.root@, "bin"@, paths.platform), "mailpit"@, paths.platform),
            bin_name("mailpit"@, paths.platform),
            paths.platform,
        )),
        !first_exists && second_exists ==> (r matches Some(p) && p@ == join_path(
            join_path(paths.root@, "bin"@, paths.platform),
            bin_name("mailpit"@, paths.platform),
            paths.platform,
        )),
        !first_exists && !second_exists ==> r is None,
{
    let b = join(paths.root.as_str(), "bin", paths.platform);
    if first_exists {
        let m = join(b.as_str(), "mailpit", paths.platform);
        Some(bin_path(m.as_str(), "mailpit", paths.platform))
    } else if second_exists {
        Some(bin_path(b.as_str(), "mailpit", paths.platform))
    } else {
        None
    }
}

/// Mailpit runs as `mailpit` in the root: SMTP on 1025 and the web UI on
/// 8025 on all addresses, any SMTP login accepted, its database and log in
/// `data` and `logs`.
pub fn mailpit_spawn(paths: &Paths, bin: &str) -> (s: Spawn)
    ensures
        spawn_view(s) == (
            "mailpit"@,
            bin@,
            seq![
                "--smtp"@,
                "0.0.0.0:1025"@,
                "--listen"@,
                "0.0.0.0:8025"@,
                "--smtp-auth-accept-any"@,
                "--database"@,
                join_path(join_path(paths.root@, "data"@, paths.platform), "mailpit.db"@, paths.platform),
                "--log-file"@,
                join_path(join_path(paths.root@, "logs"@, paths.platform), "mailpit.log"@, paths.platform),
            ],
            paths.root@,
            Seq::<(Seq<char>, Seq<char>)>::empty(),
            None::<Seq<char>>,
        ),
{
    let d = join(paths.root.as_str(), "data", paths.platform);
    let l = join(paths.root.as_str(), "logs", paths.platform);
    let mut args = strings(&["--smtp", "0.0.0.0:1025", "--listen", "0.0.0.0:8025", "--smtp-auth-accept-any", "--database"]);
    push_string(&mut args, join(d.as_str(), "mailpit.db", paths.platform));
    push_string(&mut args, "--log-file".to_string());
    push_string(&mut args, join(l.as_str(), "mailpit.log", paths.platform));
    let s = Spawn {
        name: "mailpit".to_string(),
        program: bin.to_string(),
        args,
        cwd: paths.root.clone(),
        env: Vec::new(),
        log: None,
    };
    assert(strs(s.args@) =~= seq![
        "--smtp"@,
        "0.0.0.0:1025"@,
        "--listen"@,
        "0.0.0.0:8025"@,
        "--smtp-auth-accept-any"@,
        "--database"@,
        join_path(join_path(paths.root@, "data"@, paths.platform), "mailpit.db"@, paths.platform),
        "--log-file"@,
        join_path(join_path(paths.root@, "logs"@, paths.platform), "mailpit.log"@, paths.platform),
    ]);
    assert(pairs(s.env@) =~= Seq::<(Seq<char>, Seq<char>)>::empty());
    s
}

// ---------------------------------------------------------------------------
// DbGate
// ---------------------------------------------------------------------------

/// DbGate's entry script, installed by npm under `usr/apps/dbgate`.
pub fn dbgate_script(paths: &Paths) -> (r: String)
    ensures
        r@ == join_path(
            paths.root@,
            "usr/apps/dbgate/node_modules/dbgate-serve/bin/dbgate-serve.js"@,
            paths.platform,
        ),
{
    paths.at("usr/apps/dbgate/node_modules/dbgate-serve/bin/dbgate-serve.js")
}

/// The `package.json` from which npm installs DbGate.
pub open spec fn dbgate_package_text() -> Seq<char> {
    "{\n  \"name\": \"lax-dbgate\",\n  \"private\": true,\n  \"dependencies\": {\n    \"dbgate-serve\": \"7.2.5\"\n  }\n}\n"@
}

pub fn dbgate_package_json() -> (r: String)
    ensures
        r@ == dbgate_package_text(),
{
    "{\n  \"name\": \"lax-dbgate\",\n  \"private\": true,\n  \"dependencies\": {\n    \"dbgate-serve\": \"7.2.5\"\n  }\n}\n".to_string()
}

/// `Path::parent` of a path, as text, on the platform the program was built
/// for. The contract claims what its documentation gives on every
/// platform: a parent is the path without its final component, so it is a
/// shorter prefix of the path, and the empty path has none. Which prefix it
/// is depends on the path syntax of that platform and is not stated.
#[verifier::external_body]
fn path_parent(p: &str) -> (r: Option<String>)
    ensures
        r matches Some(q) ==> q@.len() < p@.len() && q@ == p@.take(q@.len() as int),
        p@.len() == 0 ==> r is None,
{
    std::path::Path::new(p).parent().map(|q| q.to_string_lossy().into_owned())
}

/// Where npm's command-line script may be next to the bundled Node in
/// `node_dir`, in the order tried: in its `node_modules`, its
/// `lib/node_modules`, then in those of its parent folder (`parent`, or the
/// folder itself when it has none).
pub open spec fn npm_cli_candidates_spec(node_dir: Seq<char>, parent: Option<Seq<char>>, platform: Platform) -> Seq<
    Seq<char>,
> {
    let up = match parent {
        Some(p) => p,
        None => node_dir,
    };
    seq![
        join_path(node_dir, "node_modules/npm/bin/npm-cli.js"@, platform),
        join_path(node_dir, "lib/node_modules/npm/bin/npm-cli.js"@, platform),
        join_path(up, "lib/node_modules/npm/bin/npm-cli.js"@, platform),
        join_path(up, "node_modules/npm/bin/npm-cli.js"@, platform),
    ]
}

pub fn npm_cli_candidates(node_dir: &str, parent: Option<&str>, platform: Platform) -> (r: Vec<String>)
    ensures
        strs(r@) == npm_cli_candidates_spec(
            node_dir@,
            match parent {
                Some(p) => Some(p@),
                None => None,
            },
            platform,
        ),
{
    let up = match parent {
        Some(p) => p,
        None => node_dir,
    };
    let mut r: Vec<String> = Vec::new();
    push_string(&mut r, join(node_dir, "node_modules/npm/bin/npm-cli.js", platform));
    push_string(&mut r, join(node_dir, "lib/node_modules/npm/bin/npm-cli.js", platform));
    push_string(&mut r, join(up, "lib/node_modules/npm/bin/npm-cli.js", platform));
    push_string(&mut r, join(up, "node_modules/npm/bin/npm-cli.js", platform));
    r
}

/// Where npm's script may be, the parent folder being `Path::parent` of the
/// Node folder: computed by `parent_dir`, or, for a Windows network or
/// device path, taken from `Path::parent` itself (then only known to be a
/// shorter prefix of the Node folder).
pub fn npm_cli(node_dir: &str, platform: Platform) -> (r: Vec<String>)
    ensures
        !network_form(node_dir@, platform) ==> strs(r@) == npm_cli_candidates_spec(
            node_dir@,
            parent_of(node_dir@, platform),
            platform,
        ),
        network_form(node_dir@, platform) ==> exists|parent: Option<Seq<char>>|
            (parent matches Some(q) ==> q.len() < node_dir@.len() && q == node_dir@.take(q.len() as int))
                && strs(r@) == npm_cli_candidates_spec(node_dir@, parent, platform),
{
    let v = chars_of(node_dir);
    let network = platform == Platform::Windows && v.len() >= 2 && is_path_sep_exec(v[0], platform)
        && is_path_sep_exec(v[1], platform);
    let parent = if network {
        path_parent(node_dir)
    } else {
        parent_dir(node_dir, platform)
    };
    let r = match &parent {
        Some(p) => npm_cli_candidates(node_dir, Some(p.as_str()), platform),
        None => npm_cli_candidates(node_dir, None, platform),
    };
    r
}

/// `PATH` for npm and DbGate: the Node folder, then the inherited `PATH`
/// when there is one.
pub open spec fn node_path_spec(node_dir: Seq<char>, inherited: Option<Seq<char>>, platform: Platform) -> Seq<char> {
    match inherited {
        Some(rest) => node_dir.push(path_sep_of(platform)) + rest,
        None => node_dir,
    }
}

fn node_path(node_dir: &str, inherited: Option<&str>, platform: Platform) -> (r: String)
    ensures
        r@ == node_path_spec(
            node_dir@,
            match inherited {
                Some(x) => Some(x@),
                None => None,
            },
            platform,
        ),
{
    let mut v = chars_of(node_dir);
    if let Some(rest) = inherited {
        v.push(path_sep(platform));
        append_str(&mut v, rest);
    }
    string_of(&v)
}

/// The npm run that installs DbGate in `usr/apps/dbgate`: Node runs npm's
/// script `npm` with `install --omit=dev --no-fund --no-audit`, the cache in
/// `tmp/npm-cache`, update notices off. (The name is not used: the caller
/// waits for it to finish.)
pub fn dbgate_install_run(paths: &Paths, node_dir: &str, npm: &str, inherited: Option<&str>) -> (s: Spawn)
    ensures
        spawn_view(s) == (
            "npm"@,
            join_path(node_dir@, bin_name("node"@, paths.platform), paths.platform),
            seq![npm@, "install"@, "--omit=dev"@, "--no-fund"@, "--no-audit"@],
            join_path(paths.root@, "usr/apps/dbgate"@, paths.platform),
            seq![
                (
                    "PATH"@,
                    node_path_spec(
                        node_dir@,
                        match inherited {
                            Some(x) => Some(x@),
                            None => None,
                        },
                        paths.platform,
                    ),
                ),
                (
                    "npm_config_cache"@,
                    join_path(join_path(paths.root@, "tmp"@, paths.platform), "npm-cache"@, paths.platform),
                ),
                ("npm_config_update_notifier"@, "false"@),
            ],
            None::<Seq<char>>,
        ),
{
    let mut args: Vec<String> = Vec::new();
    push_string(&mut args, npm.to_string());
    push_string(&mut args, "install".to_string());
    push_string(&mut args, "--omit=dev".to_string());
    push_string(&mut args, "--no-fund".to_string());
    push_string(&mut args, "--no-audit".to_string());
    let mut env: Vec<(String, String)> = Vec::new();
    push_pair(&mut env, "PATH".to_string(), node_path(node_dir, inherited, paths.platform));
    let t = paths.tmp();
    push_pair(&mut env, "npm_config_cache".to_string(), join(t.as_str(), "npm-cache", paths.platform));
    push_pair(&mut env, "npm_config_update_notifier".to_string(), "false".to_string());
    let s = Spawn {
        name: "npm".to_string(),
        program: bin_path(node_dir, "node", paths.platform),
        args,
        cwd: paths.at("usr/apps/dbgate"),
        env,
        log: None,
    };
    assert(strs(s.args@) =~= seq![npm@, "install"@, "--omit=dev"@, "--no-fund"@, "--no-audit"@]);
    s
}

/// The `n` bytes at the end of a text exist as whole characters.
pub open spec fn has_byte_suffix(t: Seq<char>, n: nat) -> bool {
    exists|k: int| 0 <= k <= t.len() && byte_len(t.skip(k)) == n
}

/// The message when npm fails: its trimmed error output, at most its last
/// 800 bytes, or a fixed text when there is none.
pub open spec fn npm_failure_text(stderr: Seq<char>) -> Seq<char> {
    let t = trim(stderr);
    if t.len() == 0 {
        "npm install dbgate-serve не удался"@
    } else if byte_len(t) > 800 {
        "npm install DbGate:\n"@ + t.skip(choose|k: int| 0 <= k <= t.len() && byte_len(t.skip(k)) == 800)
    } else {
        "npm install DbGate:\n"@ + t
    }
}

proof fn lemma_byte_len_skip(t: Seq<char>, k: int)
    requires
        0 <= k < t.len(),
    ensures
        byte_len(t.skip(k)) == byte_len(t.skip(k + 1)) + encode_scalar(t[k] as u32).len(),
        encode_scalar(t[k] as u32).len() >= 1,
{
    assert(t.skip(k) =~= seq![t[k]] + t.skip(k + 1));
    lemma_byte_len_concat(seq![t[k]], t.skip(k + 1));
    lemma_byte_len_push(Seq::<char>::empty(), t[k]);
    assert(Seq::<char>::empty().push(t[k]) =~= seq![t[k]]);
    assert(encode_utf8(Seq::<char>::empty()) =~= Seq::<u8>::empty());
}

proof fn lemma_byte_len_skip_mono(t: Seq<char>, a: int, b: int)
    requires
        0 <= a <= b <= t.len(),
    ensures
        byte_len(t.skip(a)) >= byte_len(t.skip(b)) + (b - a),
    decreases b - a,
{
    if a < b {
        lemma_byte_len_skip(t, a);
        lemma_byte_len_skip_mono(t, a + 1, b);
    }
}

/// The message when npm fails, from its error output; the last 800 bytes
/// must end on whole characters (the cut is made in bytes).
pub fn npm_failure(stderr: &str) -> (r: String)
    requires
        byte_len(trim(stderr@)) <= 800 || has_byte_suffix(trim(stderr@), 800),
    ensures
        r@ == npm_failure_text(stderr@),
{
    let t = trim_str(stderr);
    if t.len() == 0 {
        return "npm install dbgate-serve не удался".to_string();
    }
    let total = byte_len_capped(&t, 801);
    let mut m = chars_of("npm install DbGate:\n");
    if total > 800 {
        let ghost k0 = choose|k: int| 0 <= k <= t@.len() && byte_len(t@.skip(k)) == 800;
        let mut k: usize = t.len();
        let mut acc: usize = 0;
        assert(t@.skip(t.len() as int) =~= Seq::<char>::empty());
        assert(encode_utf8(Seq::<char>::empty()) =~= Seq::<u8>::empty());
        while acc < 800
            invariant
                k <= t.len(),
                acc == byte_len(t@.skip(k as int)),
                0 <= k0 <= t@.len(),
                byte_len(t@.skip(k0)) == 800,
                k0 <= k,
            decreases k,
        {
            proof {
                if k == k0 {
                    assert(false);
                }
                lemma_byte_len_skip(t@, k - 1);
                lemma_byte_len_skip_mono(t@, k0, k as int);
            }
            let c = t[k - 1];
            let u = c as u32;
            let w: usize = if u <= 0x7F {
                1
            } else if u <= 0x7FF {
                2
            } else if u <= 0xFFFF {
                3
            } else {
                4
            };
            proof {
                char_is_scalar(c);
            }
            acc = acc + w;
            k = k - 1;
        }
        proof {
            if k > k0 {
                lemma_byte_len_skip_mono(t@, k0, k as int);
                lemma_byte_len_skip(t@, k0);
            }
            if k < k0 {
                lemma_byte_len_skip_mono(t@, k as int, k0);
            }
        }
        assert(k == k0);
        let tail = slice_chars(&t, k, t.len());
        assert(tail@ == t@.skip(k as int));
        append_chars(&mut m, &tail);
    } else {
        append_chars(&mut m, &t);
    }
    string_of(&m)
}

/// DbGate runs as `dbgate` under Node from `usr/apps/dbgate`, on port 8030
/// without login, with one connection to the stack's MariaDB as `root`
/// without password, its home in `data/dbgate`, its output in
/// `logs/dbgate.log`.
pub open spec fn dbgate_env_spec(paths: Paths, cfg: LaxConfig, node_dir: Seq<char>, inherited: Option<Seq<char>>) -> Seq<
    (Seq<char>, Seq<char>),
> {
    let home = join_path(paths.root@, "data/dbgate"@, paths.platform);
    seq![
        ("PORT"@, "8030"@),
        ("SKIP_ALL_AUTH"@, "1"@),
        ("LANGUAGE"@, "auto"@),
        ("CONNECTIONS"@, "mariadb"@),
        ("LABEL_mariadb"@, "MariaDB"@),
        ("SERVER_mariadb"@, "127.0.0.1"@),
        ("USER_mariadb"@, "root"@),
        ("PASSWORD_mariadb"@, ""@),
        ("PORT_mariadb"@, dec(cfg.mysql_port as nat)),
        ("ENGINE_mariadb"@, "mariadb@dbgate-plugin-mysql"@),
        ("HOME"@, home),
        ("USERPROFILE"@, home),
        ("PATH"@, node_path_spec(node_dir, inherited, paths.platform)),
    ]
}

pub fn dbgate_spawn(paths: &Paths, cfg: &LaxConfig, script: &str, node_dir: &str, inherited: Option<&str>) -> (s: Spawn)
    ensures
        spawn_view(s) == (
            "dbgate"@,
            join_path(node_dir@, bin_name("node"@, paths.platform), paths.platform),
            seq![script@],
            join_path(paths.root@, "usr/apps/dbgate"@, paths.platform),
            dbgate_env_spec(
                *paths,
                *cfg,
                node_dir@,
                match inherited {
                    Some(x) => Some(x@),
                    None => None,
                },
            ),
            Some(join_path(join_path(paths.root@, "logs"@, paths.platform), "dbgate.log"@, paths.platform)),
        ),
{
    let home = paths.at("data/dbgate");
    let mut env: Vec<(String, String)> = Vec::new();
    push_pair(&mut env, "PORT".to_string(), dec_string(8030));
    push_pair(&mut env, "SKIP_ALL_AUTH".to_string(), "1".to_string());
    push_pair(&mut env, "LANGUAGE".to_string(), "auto".to_string());
    push_pair(&mut env, "CONNECTIONS".to_string(), "mariadb".to_string());
    push_pair(&mut env, "LABEL_mariadb".to_string(), "MariaDB".to_string());
    push_pair(&mut env, "SERVER_mariadb".to_string(), "127.0.0.1".to_string());
    push_pair(&mut env, "USER_mariadb".to_string(), "root".to_string());
    push_pair(&mut env, "PASSWORD_mariadb".to_string(), "".to_string());
    push_pair(&mut env, "PORT_mariadb".to_string(), dec_string(cfg.mysql_port as u64));
    push_pair(&mut env, "ENGINE_mariadb".to_string(), "mariadb@dbgate-plugin-mysql".to_string());
    push_pair(&mut env, "HOME".to_string(), home.clone());
    push_pair(&mut env, "USERPROFILE".to_string(), home);
    push_pair(&mut env, "PATH".to_string(), node_path(node_dir, inherited, paths.platform));
    let mut args: Vec<String> = Vec::new();
    push_string(&mut args, script.to_string());
    let l = join(paths.root.as_str(), "logs", paths.platform);
    proof {
        reveal_strlit("8030");
        assert(dec(8030) =~= "8030"@) by {
            reveal_with_fuel(dec, 5);
        }
    }
    let s = Spawn {
        name: "dbgate".to_string(),
        program: bin_path(node_dir, "node", paths.platform),
        args,
        cwd: paths.at("usr/apps/dbgate"),
        env,
        log: Some(join(l.as_str(), "dbgate.log", paths.platform)),
    };
    assert(pairs(s.env@) =~= dbgate_env_spec(
        *paths,
        *cfg,
        node_dir@,
        match inherited {
            Some(x) => Some(x@),
            None => None,
        },
    ));
    s
}

pub open spec fn dbgate_no_node_msg() -> Seq<char> {
    "Node не найден в bin/node. Без него DbGate не ставится."@
}

pub open spec fn dbgate_node_missing_msg() -> Seq<char> {
    "node не найден рядом с bin/node"@
}

pub open spec fn dbgate_no_npm_msg() -> Seq<char> {
    "npm не найден рядом с портативным Node"@
}

pub open spec fn dbgate_not_installed_msg() -> Seq<char> {
    "DbGate не появился после npm install. Проверь сеть и логи."@
}

/// Why DbGate cannot be installed, checked in this order: no bundled Node
/// folder, no `node` in it, no npm next to it; `None` when the install can
/// run.
pub fn dbgate_install_check(has_node_dir: bool, has_node: bool, has_npm: bool) -> (r: Option<LaxError>)
    ensures
        !has_node_dir ==> (r matches Some(e) && is_msg(e, dbgate_no_node_msg())),
        has_node_dir && !has_node ==> (r matches Some(e) && is_msg(e, dbgate_node_missing_msg())),
        has_node_dir && has_node && !has_npm ==> (r matches Some(e) && is_msg(e, dbgate_no_npm_msg())),
        has_node_dir && has_node && has_npm ==> r is None,
{
    if !has_node_dir {
        return Some(LaxError::msg("Node не найден в bin/node. Без него DbGate не ставится.".to_string()));
    }
    if !has_node {
        return Some(LaxError::msg("node не найден рядом с bin/node".to_string()));
    }
    if !has_npm {
        return Some(LaxError::msg("npm не найден рядом с портативным Node".to_string()));
    }
    None
}

/// The end of an install: DbGate's script must exist now.
pub fn dbgate_installed(has_script: bool) -> (r: LaxResult<()>)
    ensures
        has_script <==> r is Ok,
        !has_script ==> err_msg(r, dbgate_not_installed_msg()),
{
    if !has_script {
        return Err(LaxError::msg("DbGate не появился после npm install. Проверь сеть и логи.".to_string()));
    }
    Ok(())
}

} // verus!
