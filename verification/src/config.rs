//! The stack's settings (`usr/lax.toml`) and the layout of the portable tree.
use vstd::prelude::*;
use crate::paths::{join, join_all, join_lit, join_path, join_unix, join_unix_spec, unix};
use crate::platform::{Platform};
use crate::text::{chars_of, eq_str, is_ws, lower_chars, lower_seq, string_of, trim, trim_start, trim_str};

verus! {

/// The settings of the stack.
#[derive(Clone, Debug)]
pub struct LaxConfig {
    pub document_root: String,
    pub tld: String,
    pub auto_vhost: bool,
    pub web_server: String,
    pub apache_port: u16,
    pub nginx_port: u16,
    pub mysql_port: u16,
    pub php_version: String,
    pub mysql_version: String,
    pub nginx_version: String,
    pub apache_version: String,
    pub php_cgi_ports: Vec<u16>,
    pub auto_start: bool,
    pub mysql_enabled: bool,
    pub theme: String,
    pub db_admin: String,
}

/// The database tool a configured id stands for: `dbgate` for `dbgate` or
/// `adminer` (trimmed, any ASCII case), `phpmyadmin` for everything else.
pub open spec fn db_admin_of(id: Seq<char>) -> Seq<char> {
    let k = lower_seq(trim(id));
    if k == "dbgate"@ || k == "adminer"@ {
        "dbgate"@
    } else {
        "phpmyadmin"@
    }
}

/// The database tool that the configured id `id` stands for.
pub fn normalize_db_admin(id: &str) -> (r: String)
    ensures
        r@ == db_admin_of(id@),
{
    let t = trim_str(id);
    let k = lower_chars(&t);
    if eq_str(&k, "dbgate") || eq_str(&k, "adminer") {
        "dbgate".to_string()
    } else {
        "phpmyadmin".to_string()
    }
}

/// A normalized id is left as it is.
pub proof fn lemma_db_admin_idempotent(id: Seq<char>)
    ensures
        db_admin_of(db_admin_of(id)) == db_admin_of(id),
{
    let d = db_admin_of(id);
    reveal_strlit("dbgate");
    reveal_strlit("phpmyadmin");
    reveal_strlit("adminer");
    assert(!is_ws(d[0]));
    assert(trim_start(d) == d);
    assert(!is_ws(d.last()));
    assert(trim(d) == d);
    assert(lower_seq(d) =~= d);
    if d == "phpmyadmin"@ {
        assert(d.len() != "dbgate"@.len());
        assert(d.len() != "adminer"@.len());
    }
}

/// The web server the stack runs by default.
pub open spec fn default_web_server(platform: Platform) -> Seq<char> {
    match platform {
        Platform::Windows => "apache"@,
        Platform::Unix => "nginx"@,
    }
}

pub open spec fn default_http_port(platform: Platform) -> u16 {
    match platform {
        Platform::Windows => 80,
        Platform::Unix => 8080,
    }
}

pub open spec fn default_php_version(platform: Platform) -> Seq<char> {
    match platform {
        Platform::Windows => "php-trash-8.2"@,
        Platform::Unix => "php-8.4"@,
    }
}

pub open spec fn default_mysql_version(platform: Platform) -> Seq<char> {
    match platform {
        Platform::Windows => "mariadb-10.11.13"@,
        Platform::Unix => "mariadb-11.4.12"@,
    }
}

pub open spec fn default_nginx_version(platform: Platform) -> Seq<char> {
    match platform {
        Platform::Windows => "nginx-1.14.0"@,
        Platform::Unix => "nginx-1.28.3"@,
    }
}

pub open spec fn default_php_cgi_ports(platform: Platform) -> Seq<u16> {
    match platform {
        Platform::Windows => seq![9003u16, 9004u16],
        Platform::Unix => seq![9003u16],
    }
}

/// The settings a fresh install starts with on `platform`.
pub open spec fn is_default_config(c: LaxConfig, platform: Platform) -> bool {
    &&& c.document_root@ == "www"@
    &&& c.tld@ == "localhost"@
    &&& !c.auto_vhost
    &&& c.web_server@ == default_web_server(platform)
    &&& c.apache_port == default_http_port(platform)
    &&& c.nginx_port == default_http_port(platform)
    &&& c.mysql_port == 3306
    &&& c.php_version@ == default_php_version(platform)
    &&& c.mysql_version@ == default_mysql_version(platform)
    &&& c.nginx_version@ == default_nginx_version(platform)
    &&& c.apache_version@ == "Apache24"@
    &&& c.php_cgi_ports@ == default_php_cgi_ports(platform)
    &&& !c.auto_start
    &&& c.mysql_enabled
    &&& c.theme@ == "noir"@
    &&& c.db_admin@ == "phpmyadmin"@
}

impl LaxConfig {
    /// The settings of a fresh install on `platform`.
    pub fn defaults(platform: Platform) -> (c: LaxConfig)
        ensures
            is_default_config(c, platform),
    {
        let unix = platform == Platform::Unix;
        let mut ports: Vec<u16> = Vec::new();
        ports.push(9003);
        if !unix {
            ports.push(9004);
        }
        proof {
            if unix {
                assert(ports@ =~= seq![9003u16]);
            } else {
                assert(ports@ =~= seq![9003u16, 9004u16]);
            }
        }
        LaxConfig {
            document_root: "www".to_string(),
            tld: "localhost".to_string(),
            auto_vhost: false,
            web_server: if unix { "nginx".to_string() } else { "apache".to_string() },
            apache_port: if unix { 8080 } else { 80 },
            nginx_port: if unix { 8080 } else { 80 },
            mysql_port: 3306,
            php_version: if unix { "php-8.4".to_string() } else { "php-trash-8.2".to_string() },
            mysql_version: if unix { "mariadb-11.4.12".to_string() } else { "mariadb-10.11.13".to_string() },
            nginx_version: if unix { "nginx-1.28.3".to_string() } else { "nginx-1.14.0".to_string() },
            apache_version: "Apache24".to_string(),
            php_cgi_ports: ports,
            auto_start: false,
            mysql_enabled: true,
            theme: "noir".to_string(),
            db_admin: "phpmyadmin".to_string(),
        }
    }
}

/// All fields but `db_admin` are the same.
pub open spec fn same_but_db_admin(a: LaxConfig, b: LaxConfig) -> bool {
    &&& a.document_root == b.document_root
    &&& a.tld == b.tld
    &&& a.auto_vhost == b.auto_vhost
    &&& a.web_server == b.web_server
    &&& a.apache_port == b.apache_port
    &&& a.nginx_port == b.nginx_port
    &&& a.mysql_port == b.mysql_port
    &&& a.php_version == b.php_version
    &&& a.mysql_version == b.mysql_version
    &&& a.nginx_version == b.nginx_version
    &&& a.apache_version == b.apache_version
    &&& a.php_cgi_ports == b.php_cgi_ports
    &&& a.auto_start == b.auto_start
    &&& a.mysql_enabled == b.mysql_enabled
    &&& a.theme == b.theme
}

/// The settings in force after reading `usr/lax.toml`: the parsed ones with
/// the database tool normalized, or the defaults when the file did not parse.
pub fn config_from_parsed(parsed: Option<LaxConfig>, platform: Platform) -> (c: LaxConfig)
    ensures
        parsed is None ==> is_default_config(c, platform),
        parsed matches Some(p) ==> same_but_db_admin(c, p) && c.db_admin@ == db_admin_of(p.db_admin@),
{
    match parsed {
        Some(mut cfg) => {
            let ghost before = cfg;
            cfg.db_admin = normalize_db_admin(cfg.db_admin.as_str());
            assert(same_but_db_admin(cfg, before));
            cfg
        },
        None => LaxConfig::defaults(platform),
    }
}

/// The root of the portable tree and its settings file.
#[derive(Clone, Debug)]
pub struct Paths {
    pub root: String,
    pub config_file: String,
    pub platform: Platform,
}

/// `root` joined with the literal parts in turn.
pub open spec fn under(root: Seq<char>, parts: Seq<Seq<char>>, platform: Platform) -> Seq<char> {
    join_all(root, parts, platform)
}

impl Paths {
    pub open spec fn root_v(&self) -> Seq<char> {
        self.root@
    }

    /// `root/usr/lax.toml`.
    pub fn new(root: String, platform: Platform) -> (p: Paths)
        ensures
            p.root == root,
            p.platform == platform,
            p.config_file@ == join_path(join_path(root@, "usr"@, platform), "lax.toml"@, platform),
    {
        let r = chars_of(root.as_str());
        let u = join_lit(&r, "usr", platform);
        let f = join_lit(&u, "lax.toml", platform);
        Paths { root, config_file: string_of(&f), platform }
    }

    /// The web root, `document_root` taken relative to the root.
    pub fn www(&self, cfg: &LaxConfig) -> (r: String)
        ensures
            r@ == join_unix_spec(self.root@, cfg.document_root@, self.platform),
    {
        join_unix(self.root.as_str(), cfg.document_root.as_str(), self.platform)
    }

    /// `root/bin/<kind>/<version>`.
    fn bin_dir(&self, kind: &str, version: &str) -> (r: String)
        ensures
            r@ == join_path(
                join_path(join_path(self.root@, "bin"@, self.platform), kind@, self.platform),
                version@,
                self.platform,
            ),
    {
        let r = chars_of(self.root.as_str());
        let b = join_lit(&r, "bin", self.platform);
        let k = join_lit(&b, kind, self.platform);
        let v = join_lit(&k, version, self.platform);
        string_of(&v)
    }

    /// `root/bin/php/<php_version>`.
    pub fn php_dir(&self, cfg: &LaxConfig) -> (r: String)
        ensures
            r@ == join_path(
                join_path(join_path(self.root@, "bin"@, self.platform), "php"@, self.platform),
                cfg.php_version@,
                self.platform,
            ),
    {
        self.bin_dir("php", cfg.php_version.as_str())
    }

    /// `root/bin/apache/<apache_version>`.
    pub fn apache_dir(&self, cfg: &LaxConfig) -> (r: String)
        ensures
            r@ == join_path(
                join_path(join_path(self.root@, "bin"@, self.platform), "apache"@, self.platform),
                cfg.apache_version@,
                self.platform,
            ),
    {
        self.bin_dir("apache", cfg.apache_version.as_str())
    }

    /// `root/bin/nginx/<nginx_version>`.
    pub fn nginx_dir(&self, cfg: &LaxConfig) -> (r: String)
        ensures
            r@ == join_path(
                join_path(join_path(self.root@, "bin"@, self.platform), "nginx"@, self.platform),
                cfg.nginx_version@,
                self.platform,
            ),
    {
        self.bin_dir("nginx", cfg.nginx_version.as_str())
    }

    /// `root/bin/mysql/<mysql_version>`.
    pub fn mysql_dir(&self, cfg: &LaxConfig) -> (r: String)
        ensures
            r@ == join_path(
                join_path(join_path(self.root@, "bin"@, self.platform), "mysql"@, self.platform),
                cfg.mysql_version@,
                self.platform,
            ),
    {
        self.bin_dir("mysql", cfg.mysql_version.as_str())
    }

    /// `root/data/mariadb`.
    pub fn datadir(&self) -> (r: String)
        ensures
            r@ == join_path(join_path(self.root@, "data"@, self.platform), "mariadb"@, self.platform),
    {
        let r = chars_of(self.root.as_str());
        let d = join_lit(&r, "data", self.platform);
        let m = join_lit(&d, "mariadb", self.platform);
        string_of(&m)
    }

    /// `root/tmp`.
    pub fn tmp(&self) -> (r: String)
        ensures
            r@ == join_path(self.root@, "tmp"@, self.platform),
    {
        join(self.root.as_str(), "tmp", self.platform)
    }

    /// `root/usr/tpl/<name>`.
    pub fn tpl(&self, name: &str) -> (r: String)
        ensures
            r@ == join_path(
                join_path(join_path(self.root@, "usr"@, self.platform), "tpl"@, self.platform),
                name@,
                self.platform,
            ),
    {
        let r = chars_of(self.root.as_str());
        let u = join_lit(&r, "usr", self.platform);
        let t = join_lit(&u, "tpl", self.platform);
        let n = join_lit(&t, name, self.platform);
        string_of(&n)
    }

    /// `root` joined with `rel` as one part.
    pub fn at(&self, rel: &str) -> (r: String)
        ensures
            r@ == join_path(self.root@, rel@, self.platform),
    {
        join(self.root.as_str(), rel, self.platform)
    }
}

/// The directories that must exist before the stack starts.
pub open spec fn runtime_dirs_spec(paths: Paths, cfg: LaxConfig, apache_dir: Seq<char>, nginx_dir: Seq<char>) -> Seq<Seq<char>> {
    let p = paths.platform;
    let r = paths.root@;
    seq![
        join_unix_spec(r, cfg.document_root@, p),
        join_path(r, "tmp"@, p),
        join_path(join_path(r, "data"@, p), "mariadb"@, p),
        join_path(r, "etc/apache2/sites-enabled"@, p),
        join_path(r, "etc/nginx/sites-enabled"@, p),
        join_path(r, "logs"@, p),
        join_path(r, "etc/apps/phpMyAdmin/tmp"@, p),
        join_path(r, "usr/apps/dbgate"@, p),
        join_path(r, "data/dbgate"@, p),
        join_path(apache_dir, "logs"@, p),
        join_path(nginx_dir, "logs"@, p),
    ]
}

/// The directories `ensure_runtime_dirs` creates, in order.
pub fn runtime_dirs(paths: &Paths, cfg: &LaxConfig) -> (r: Vec<String>)
    ensures
        r@.map_values(|s: String| s@) == runtime_dirs_spec(
            *paths,
            *cfg,
            join_path(
                join_path(join_path(paths.root@, "bin"@, paths.platform), "apache"@, paths.platform),
                cfg.apache_version@,
                paths.platform,
            ),
            join_path(
                join_path(join_path(paths.root@, "bin"@, paths.platform), "nginx"@, paths.platform),
                cfg.nginx_version@,
                paths.platform,
            ),
        ),
{
    let mut r: Vec<String> = Vec::new();
    r.push(paths.www(cfg));
    r.push(paths.tmp());
    r.push(paths.datadir());
    r.push(paths.at("etc/apache2/sites-enabled"));
    r.push(paths.at("etc/nginx/sites-enabled"));
    r.push(paths.at("logs"));
    r.push(paths.at("etc/apps/phpMyAdmin/tmp"));
    r.push(paths.at("usr/apps/dbgate"));
    r.push(paths.at("data/dbgate"));
    let a = paths.apache_dir(cfg);
    r.push(join(a.as_str(), "logs", paths.platform));
    let n = paths.nginx_dir(cfg);
    r.push(join(n.as_str(), "logs", paths.platform));
    assert(r@.map_values(|s: String| s@) =~= runtime_dirs_spec(*paths, *cfg, a@, n@));
    r
}

} // verus!
