//! Projects: the folders of the web root, what kind each one is, the name a
//! new project gets, and the files and commands that create one.
use vstd::prelude::*;
use crate::config::{LaxConfig, Paths};
use crate::error::{LaxError, LaxResult, err_msg, is_msg};
use crate::hosts::{stripped};
use crate::paths::{FileWrite, join, join_path, join_unix_spec};
use crate::platform::{Platform, push_string};
use crate::text::{CharSet, append_str, byte_len, byte_len_capped, char_is_alnum, char_is_alpha, chars_of, contains, contains_str, dec, dec_chars, eq_str, insert_keyed, is_alnum, is_alpha, is_digit, is_lower, is_upper, isort, isort_keyed, keyed_views, keys_sorted, lemma_isort_keyed_stable, lemma_trim_set_slice, lex_le, lower_chars, lower_seq, replace_char, replace_char_chars, sort_chars, sort_keyed, starts_with, starts_with_str, string_of, strip_prefix, strip_prefix_str, trim, trim_chars_set, trim_set, trim_start_chars, trim_start_set, trim_str, views, with_key};

verus! {

// ---------------------------------------------------------------------------
// Outside calls
// ---------------------------------------------------------------------------

/// `str::to_lowercase` (full Unicode case mapping).
pub uninterp spec fn unicode_lower(s: Seq<char>) -> Seq<char>;

/// Text made of ASCII characters only.
pub open spec fn all_ascii(s: Seq<char>) -> bool {
    forall|i: int| 0 <= i < s.len() ==> (#[trigger] s[i] as u32) < 128
}

/// `str::to_lowercase`. Its result is named `unicode_lower` of the argument;
/// the Unicode case tables are not written out here. Stated of it: the
/// lower-case mapping leaves no ASCII capital letter in the result, and on
/// ASCII text it is the ASCII lower-casing (`A`..`Z` to `a`..`z`, all else
/// kept), as the std documentation says of `to_lowercase` and of the Unicode
/// lower-case property.
#[verifier::external_body]
fn to_lowercase(s: &str) -> (r: String)
    ensures
        r@ == unicode_lower(s@),
        forall|i: int| 0 <= i < r@.len() ==> !is_upper(#[trigger] r@[i]),
        all_ascii(s@) ==> r@ == lower_seq(s@),
{
    s.to_lowercase()
}

/// What `package.json` says that matters here: the names of its `scripts`,
/// `dependencies` and `devDependencies` objects (`None` for a member that is
/// missing or not an object).
#[derive(Clone, Debug)]
pub struct PackageJson {
    pub scripts: Option<Vec<String>>,
    pub dependencies: Option<Vec<String>>,
    pub dev_dependencies: Option<Vec<String>>,
}

pub open spec fn opt_names(o: Option<Vec<String>>) -> Option<Seq<Seq<char>>> {
    match o {
        Some(v) => Some(v@.map_values(|s: String| s@)),
        None => None,
    }
}

pub open spec fn package_view(p: Option<PackageJson>) -> Option<
    (Option<Seq<Seq<char>>>, Option<Seq<Seq<char>>>, Option<Seq<Seq<char>>>),
> {
    match p {
        Some(j) => Some((opt_names(j.scripts), opt_names(j.dependencies), opt_names(j.dev_dependencies))),
        None => None,
    }
}

/// `serde_json::from_str::<Value>` on the text of a `package.json`, with the
/// member names of its three objects read out (`None` when the text is not
/// JSON).
pub uninterp spec fn package_json(raw: Seq<char>) -> Option<
    (Option<Seq<Seq<char>>>, Option<Seq<Seq<char>>>, Option<Seq<Seq<char>>>),
>;

/// `serde_json::from_str::<serde_json::Value>`, then `Value::get` and
/// `Value::as_object` for `scripts`, `dependencies`, `devDependencies`, and
/// the keys of each object. The result is named `package_json` of the text;
/// JSON parsing is not written out here.
#[verifier::external_body]
fn parse_package_json(raw: &str) -> (r: Option<PackageJson>)
    ensures
        package_view(r) == package_json(raw@),
{
    let v: serde_json::Value = serde_json::from_str(raw).ok()?;
    let names = |m: &serde_json::Map<String, serde_json::Value>| m.keys().cloned().collect();
    Some(PackageJson {
        scripts: v.get("scripts").and_then(serde_json::Value::as_object).map(names),
        dependencies: v.get("dependencies").and_then(serde_json::Value::as_object).map(names),
        dev_dependencies: v.get("devDependencies").and_then(serde_json::Value::as_object).map(names),
    })
}

// ---------------------------------------------------------------------------
// What a project is
// ---------------------------------------------------------------------------

/// The facts about a project folder that the list shows, as found on disk.
#[derive(Clone, Copy, Debug)]
pub struct ProjectFiles {
    /// `package.json` exists.
    pub has_package: bool,
    /// `composer.json` exists.
    pub has_composer: bool,
    /// `artisan` exists.
    pub has_artisan: bool,
    /// One of `vite.config.{ts,js,mts,mjs}` exists.
    pub has_vite_config: bool,
    /// `wp-config.php` or `wp-config-sample.php` exists.
    pub has_wp_config: bool,
    /// `node_modules` is a folder.
    pub has_node_modules: bool,
    /// `vendor` is a folder.
    pub has_vendor: bool,
    /// `public/index.php` or `public/index.html` exists.
    pub public_has_index: bool,
}

/// A project as the list shows it.
#[derive(Clone, Debug)]
pub struct ProjectInfo {
    pub name: String,
    pub path: String,
    pub url: String,
    pub localhost_url: String,
    pub has_public: bool,
    pub kind: String,
    pub scripts: Vec<String>,
    pub has_package: bool,
    pub has_composer: bool,
    pub has_node_modules: bool,
    pub has_vendor: bool,
}

pub open spec fn keys_or_empty(o: Option<Seq<Seq<char>>>) -> Seq<Seq<char>> {
    match o {
        Some(k) => k,
        None => Seq::empty(),
    }
}

/// The npm scripts a project offers, sorted.
pub open spec fn scripts_of(
    pj: Option<(Option<Seq<Seq<char>>>, Option<Seq<Seq<char>>>, Option<Seq<Seq<char>>>)>,
) -> Seq<Seq<char>> {
    match pj {
        Some(j) => isort(keys_or_empty(j.0)),
        None => Seq::empty(),
    }
}

/// `name` is a dependency or a development dependency.
pub open spec fn has_dep(
    pj: Option<(Option<Seq<Seq<char>>>, Option<Seq<Seq<char>>>, Option<Seq<Seq<char>>>)>,
    name: Seq<char>,
) -> bool {
    match pj {
        Some(j) => keys_or_empty(j.1).contains(name) || keys_or_empty(j.2).contains(name),
        None => false,
    }
}

pub open spec fn vite_dep(
    pj: Option<(Option<Seq<Seq<char>>>, Option<Seq<Seq<char>>>, Option<Seq<Seq<char>>>)>,
) -> bool {
    has_dep(pj, "vite"@) || has_dep(pj, "@vitejs/plugin-vue"@)
}

/// The kind of a project: Laravel (`artisan` and `composer.json`), Vite (a
/// Vite config or dependency), WordPress, Node (`package.json`), else PHP.
pub open spec fn kind_spec(f: ProjectFiles, vite: bool) -> Seq<char> {
    if f.has_artisan && f.has_composer {
        "laravel"@
    } else if f.has_vite_config || vite {
        "vite"@
    } else if f.has_wp_config {
        "wordpress"@
    } else if f.has_package {
        "node"@
    } else {
        "php"@
    }
}

/// The package facts, given the outcome of parsing `package.json`.
pub fn package_summary(pj: Option<PackageJson>) -> (r: (Vec<String>, bool))
    ensures
        r.0@.map_values(|s: String| s@) == scripts_of(package_view(pj)),
        r.1 == vite_dep(package_view(pj)),
{
    match pj {
        None => (Vec::new(), false),
        Some(j) => {
            let mut keys: Vec<Vec<char>> = Vec::new();
            if let Some(s) = &j.scripts {
                let mut i: usize = 0;
                while i < s.len()
                    invariant
                        i <= s@.len(),
                        views(keys@) == s@.map_values(|x: String| x@).take(i as int),
                    decreases s.len() - i,
                {
                    let ghost old_k = keys@;
                    keys.push(chars_of(s[i].as_str()));
                    assert(views(keys@) =~= views(old_k).push(s@[i as int]@));
                    assert(s@.map_values(|x: String| x@).take(i + 1) =~= s@.map_values(
                        |x: String| x@,
                    ).take(i as int).push(s@[i as int]@));
                    i += 1;
                }
                assert(s@.map_values(|x: String| x@).take(s@.len() as int) =~= s@.map_values(
                    |x: String| x@,
                ));
            } else {
                assert(views(keys@) =~= Seq::<Seq<char>>::empty());
            }
            let sorted = sort_chars(keys);
            let mut out: Vec<String> = Vec::new();
            let mut i: usize = 0;
            while i < sorted.len()
                invariant
                    i <= sorted.len(),
                    out@.map_values(|x: String| x@) == views(sorted@).take(i as int),
                decreases sorted.len() - i,
            {
                push_string(&mut out, string_of(&sorted[i]));
                assert(views(sorted@).take(i + 1) =~= views(sorted@).take(i as int).push(
                    sorted@[i as int]@,
                ));
                i += 1;
            }
            assert(views(sorted@).take(sorted.len() as int) =~= views(sorted@));
            let vite = names_contain(&j.dependencies, "vite") || names_contain(
                &j.dev_dependencies,
                "vite",
            ) || names_contain(&j.dependencies, "@vitejs/plugin-vue") || names_contain(
                &j.dev_dependencies,
                "@vitejs/plugin-vue",
            );
            (out, vite)
        },
    }
}

fn names_contain(o: &Option<Vec<String>>, name: &str) -> (r: bool)
    ensures
        r == keys_or_empty(opt_names(*o)).contains(name@),
{
    match o {
        None => false,
        Some(v) => {
            let ghost vs = v@.map_values(|x: String| x@);
            assert(keys_or_empty(opt_names(*o)) == vs);
            let mut i: usize = 0;
            while i < v.len()
                invariant
                    i <= v@.len(),
                    vs == v@.map_values(|x: String| x@),
                    keys_or_empty(opt_names(*o)) == vs,
                    forall|j: int| 0 <= j < i ==> vs[j] != name@,
                decreases v.len() - i,
            {
                let c = chars_of(v[i].as_str());
                if eq_str(&c, name) {
                    assert(vs[i as int] == name@);
                    assert(keys_or_empty(opt_names(*o)) == vs);
                    assert(vs.contains(name@));
                    return true;
                }
                i += 1;
            }
            assert(keys_or_empty(opt_names(*o)) == vs);
            false
        },
    }
}

/// The scripts and the Vite dependency of a project, from the text of its
/// `package.json` (`None` when it has none or it could not be read).
pub fn read_package(raw: Option<&str>) -> (r: (Vec<String>, bool))
    ensures
        ({
            let pj = match raw {
                Some(t) => package_json(t@),
                None => None,
            };
            &&& r.0@.map_values(|s: String| s@) == scripts_of(pj)
            &&& r.1 == vite_dep(pj)
        }),
{
    match raw {
        Some(t) => package_summary(parse_package_json(t)),
        None => package_summary(None),
    }
}

/// The port the web server listens on.
pub open spec fn web_port(cfg: LaxConfig) -> u16 {
    if cfg.web_server@ == "nginx"@ {
        cfg.nginx_port
    } else {
        cfg.apache_port
    }
}

/// The address of a project: `http://localhost[:port]/<name>/`, with
/// `public/` after it when the project serves from its `public` folder.
pub open spec fn project_url_spec(name: Seq<char>, has_public: bool, cfg: LaxConfig) -> Seq<char> {
    let port = web_port(cfg);
    let hostport = if port == 80 {
        ""@
    } else {
        ":"@ + dec(port as nat)
    };
    "http://localhost"@ + hostport + "/"@ + name + if has_public {
        "/public/"@
    } else {
        "/"@
    }
}

/// A project's address names the port of the configured web server: Nginx's
/// port when the server is `nginx`, Apache's otherwise; the port is left out
/// when it is 80.
pub proof fn lemma_project_url_port(name: Seq<char>, has_public: bool, cfg: LaxConfig)
    ensures
        ({
            let tail = if has_public {
                "/public/"@
            } else {
                "/"@
            };
            &&& (cfg.web_server@ == "nginx"@ && cfg.nginx_port != 80 ==> project_url_spec(name, has_public, cfg)
                == "http://localhost"@ + ":"@ + dec(cfg.nginx_port as nat) + "/"@ + name + tail)
            &&& (cfg.web_server@ != "nginx"@ && cfg.apache_port != 80 ==> project_url_spec(name, has_public, cfg)
                == "http://localhost"@ + ":"@ + dec(cfg.apache_port as nat) + "/"@ + name + tail)
            &&& (cfg.web_server@ == "nginx"@ && cfg.nginx_port == 80 ==> project_url_spec(name, has_public, cfg)
                == "http://localhost"@ + "/"@ + name + tail)
            &&& (cfg.web_server@ != "nginx"@ && cfg.apache_port == 80 ==> project_url_spec(name, has_public, cfg)
                == "http://localhost"@ + "/"@ + name + tail)
        }),
{
    let h = "http://localhost"@;
    assert(h + ":"@ + dec(cfg.nginx_port as nat) =~= h + (":"@ + dec(cfg.nginx_port as nat)));
    assert(h + ":"@ + dec(cfg.apache_port as nat) =~= h + (":"@ + dec(cfg.apache_port as nat)));
    assert(h + ""@ =~= h) by {
        reveal_strlit("");
    }
}

pub fn project_url(name: &str, has_public: bool, cfg: &LaxConfig) -> (r: String)
    ensures
        r@ == project_url_spec(name@, has_public, *cfg),
{
    let ws = chars_of(cfg.web_server.as_str());
    let port = if eq_str(&ws, "nginx") {
        cfg.nginx_port
    } else {
        cfg.apache_port
    };
    let mut v = chars_of("http://localhost");
    if port != 80 {
        v.push(':');
        dec_chars(port as u64, &mut v);
    }
    append_str(&mut v, "/");
    append_str(&mut v, name);
    if has_public {
        append_str(&mut v, "/public/");
    } else {
        append_str(&mut v, "/");
    }
    proof {
        reveal_strlit(":");
        reveal_strlit("");
    }
    assert(v@ =~= project_url_spec(name@, has_public, *cfg));
    string_of(&v)
}

/// The folder the web server serves for a project: its `public` folder when
/// that has an index page, else the project folder.
pub fn document_root_for(project: &str, public_has_index: bool, platform: Platform) -> (r: String)
    ensures
        r@ == if public_has_index {
            join_path(project@, "public"@, platform)
        } else {
            project@
        },
{
    if public_has_index {
        join(project, "public", platform)
    } else {
        project.to_string()
    }
}

pub open spec fn info_view(p: ProjectInfo) -> (
    (Seq<char>, Seq<char>, Seq<char>, Seq<char>),
    (bool, Seq<char>, Seq<Seq<char>>),
    (bool, bool, bool, bool),
) {
    (
        (p.name@, p.path@, p.url@, p.localhost_url@),
        (p.has_public, p.kind@, p.scripts@.map_values(|s: String| s@)),
        (p.has_package, p.has_composer, p.has_node_modules, p.has_vendor),
    )
}

/// The package text that counts: only when `package.json` exists.
pub open spec fn package_of(f: ProjectFiles, raw: Option<Seq<char>>) -> Option<
    (Option<Seq<Seq<char>>>, Option<Seq<Seq<char>>>, Option<Seq<Seq<char>>>),
> {
    if f.has_package {
        match raw {
            Some(t) => package_json(t),
            None => None,
        }
    } else {
        None
    }
}

/// A project as the list shows it.
pub open spec fn info_spec(
    name: Seq<char>,
    path: Seq<char>,
    f: ProjectFiles,
    raw: Option<Seq<char>>,
    cfg: LaxConfig,
) -> ((Seq<char>, Seq<char>, Seq<char>, Seq<char>), (bool, Seq<char>, Seq<Seq<char>>), (bool, bool, bool, bool)) {
    let url = project_url_spec(name, f.public_has_index, cfg);
    let pj = package_of(f, raw);
    (
        (name, path, url, url),
        (f.public_has_index, kind_spec(f, vite_dep(pj)), scripts_of(pj)),
        (f.has_package, f.has_composer, f.has_node_modules, f.has_vendor),
    )
}

/// A project as the list shows it, from its folder's facts and the text of
/// its `package.json`.
pub fn project_info(name: &str, path: &str, f: ProjectFiles, package_raw: Option<&str>, cfg: &LaxConfig) -> (r: ProjectInfo)
    ensures
        info_view(r) == info_spec(
            name@,
            path@,
            f,
            match package_raw {
                Some(t) => Some(t@),
                None => None,
            },
            *cfg,
        ),
{
    let raw = if f.has_package {
        package_raw
    } else {
        None
    };
    let (scripts, vite) = read_package(raw);
    let kind = if f.has_artisan && f.has_composer {
        "laravel"
    } else if f.has_vite_config || vite {
        "vite"
    } else if f.has_wp_config {
        "wordpress"
    } else if f.has_package {
        "node"
    } else {
        "php"
    };
    let url = project_url(name, f.public_has_index, cfg);
    ProjectInfo {
        name: name.to_string(),
        path: path.to_string(),
        url: url.clone(),
        localhost_url: url,
        has_public: f.public_has_index,
        kind: kind.to_string(),
        scripts,
        has_package: f.has_package,
        has_composer: f.has_composer,
        has_node_modules: f.has_node_modules,
        has_vendor: f.has_vendor,
    }
}

/// Folders of the web root that belong to the stack or to a site, not
/// projects (any ASCII case).
pub open spec fn is_stack_dir_spec(name: Seq<char>) -> bool {
    let n = lower_seq(name);
    n == "api"@ || n == "assets"@ || n == "data"@ || n == "vendor"@ || n == "node_modules"@ || n
        == "storage"@ || n == "tmp"@ || n == "cache"@ || n == "files"@ || n == "uploads"@ || n
        == "cgi-bin"@
}

pub fn is_stack_dir(name: &str) -> (r: bool)
    ensures
        r == is_stack_dir_spec(name@),
{
    let n = lower_chars(&chars_of(name));
    eq_str(&n, "api") || eq_str(&n, "assets") || eq_str(&n, "data") || eq_str(&n, "vendor")
        || eq_str(&n, "node_modules") || eq_str(&n, "storage") || eq_str(&n, "tmp") || eq_str(
        &n,
        "cache",
    ) || eq_str(&n, "files") || eq_str(&n, "uploads") || eq_str(&n, "cgi-bin")
}

/// The folders of the web root that belong to the stack or to a project's
/// own layout, never projects themselves, in any ASCII case: `api`,
/// `assets`, `data`, `vendor`, `node_modules`, `storage`, `tmp`, `cache`,
/// `files`, `uploads` and `cgi-bin`.
pub proof fn lemma_stack_dir_names(name: Seq<char>)
    ensures
        is_stack_dir_spec(name) <==> {
            let n = lower_seq(name);
            ||| n == "api"@
            ||| n == "assets"@
            ||| n == "data"@
            ||| n == "vendor"@
            ||| n == "node_modules"@
            ||| n == "storage"@
            ||| n == "tmp"@
            ||| n == "cache"@
            ||| n == "files"@
            ||| n == "uploads"@
            ||| n == "cgi-bin"@
        },
{
}

/// An entry of the web root, as found on disk.
#[derive(Clone, Debug)]
pub struct ProjectDir {
    pub name: String,
    pub path: String,
    pub is_dir: bool,
    pub files: ProjectFiles,
    /// The text of `package.json`, when it could be read.
    pub package_raw: Option<String>,
}

/// An entry the list shows: a folder whose name starts with no `.` and
/// is not a stack folder.
pub open spec fn listed_dir(d: ProjectDir) -> bool {
    d.is_dir && !starts_with(d.name@, "."@) && !is_stack_dir_spec(d.name@)
}

pub open spec fn dir_info(d: ProjectDir, cfg: LaxConfig) -> (
    (Seq<char>, Seq<char>, Seq<char>, Seq<char>),
    (bool, Seq<char>, Seq<Seq<char>>),
    (bool, bool, bool, bool),
) {
    info_spec(
        d.name@,
        d.path@,
        d.files,
        match d.package_raw {
            Some(t) => Some(t@),
            None => None,
        },
        cfg,
    )
}

/// The project list: the listed entries, sorted by their lower-cased names
/// (stably).
pub open spec fn list_projects_spec(dirs: Seq<ProjectDir>, cfg: LaxConfig) -> Seq<
    ((Seq<char>, Seq<char>, Seq<char>, Seq<char>), (bool, Seq<char>, Seq<Seq<char>>), (bool, bool, bool, bool)),
> {
    isort_keyed(
        dirs.filter(|d: ProjectDir| listed_dir(d)).map_values(
            |d: ProjectDir| (unicode_lower(d.name@), dir_info(d, cfg)),
        ),
    ).map_values(
        |p: (
            Seq<char>,
            ((Seq<char>, Seq<char>, Seq<char>, Seq<char>), (bool, Seq<char>, Seq<Seq<char>>), (bool, bool, bool, bool)),
        )| p.1,
    )
}

/// The folders the project list takes, in the order found.
pub open spec fn listed_dirs(dirs: Seq<ProjectDir>) -> Seq<ProjectDir> {
    dirs.filter(|d: ProjectDir| listed_dir(d))
}

/// The listed folders, each with its lower-cased name as its key.
pub open spec fn keyed_projects(dirs: Seq<ProjectDir>, cfg: LaxConfig) -> Seq<
    (Seq<char>, ((Seq<char>, Seq<char>, Seq<char>, Seq<char>), (bool, Seq<char>, Seq<Seq<char>>), (bool, bool, bool, bool))),
> {
    listed_dirs(dirs).map_values(|d: ProjectDir| (unicode_lower(d.name@), dir_info(d, cfg)))
}

/// The project list is ordered by lower-cased name, holds exactly the listed
/// folders, and keeps folders whose lower-cased names are equal in the order
/// they were found: it is the stable sort of the listed folders by that name.
pub proof fn lemma_list_projects_sorted(dirs: Seq<ProjectDir>, cfg: LaxConfig)
    ensures
        ({
            let sorted = isort_keyed(keyed_projects(dirs, cfg));
            &&& list_projects_spec(dirs, cfg) == sorted.map_values(
                |p: (Seq<char>, ((Seq<char>, Seq<char>, Seq<char>, Seq<char>), (bool, Seq<char>, Seq<Seq<char>>), (bool, bool, bool, bool)))| p.1,
            )
            &&& keys_sorted(sorted)
            &&& sorted.to_multiset() == keyed_projects(dirs, cfg).to_multiset()
            &&& forall|k: Seq<char>| #[trigger] with_key(sorted, k) == with_key(keyed_projects(dirs, cfg), k)
        }),
{
    lemma_isort_keyed_stable(keyed_projects(dirs, cfg));
}

/// Which folders the project list takes: directories whose names start with
/// no `.` and are none of the stack's own folders (`api`, `assets`, `data`,
/// `vendor`, `node_modules`, `storage`, `tmp`, `cache`, `files`, `uploads`,
/// `cgi-bin`, in any ASCII case); every entry of the list comes from such a
/// folder.
pub proof fn lemma_listed_folders(dirs: Seq<ProjectDir>, d: ProjectDir)
    ensures
        listed_dir(d) <==> d.is_dir && !starts_with(d.name@, "."@) && !{
            let n = lower_seq(d.name@);
            ||| n == "api"@
            ||| n == "assets"@
            ||| n == "data"@
            ||| n == "vendor"@
            ||| n == "node_modules"@
            ||| n == "storage"@
            ||| n == "tmp"@
            ||| n == "cache"@
            ||| n == "files"@
            ||| n == "uploads"@
            ||| n == "cgi-bin"@
        },
        forall|i: int|
            0 <= i < listed_dirs(dirs).len() ==> listed_dir(#[trigger] listed_dirs(dirs)[i]),
{
    lemma_stack_dir_names(d.name@);
    dirs.filter_lemma(|d: ProjectDir| listed_dir(d));
}

pub proof fn lemma_insert_keyed_map<T, U>(
    s: Seq<(Seq<char>, T)>,
    x: (Seq<char>, T),
    g: spec_fn((Seq<char>, T)) -> (Seq<char>, U),
)
    requires
        forall|p: (Seq<char>, T)| #[trigger] g(p).0 == p.0,
    ensures
        insert_keyed(s, x).map_values(g) == insert_keyed(s.map_values(g), g(x)),
    decreases s.len(),
{
    if s.len() > 0 {
        assert(g(s[0]).0 == s[0].0);
        assert(g(x).0 == x.0);
        assert(s.map_values(g)[0] == g(s[0]));
        if lex_le(s[0].0, x.0) {
            lemma_insert_keyed_map(s.drop_first(), x, g);
            assert(s.map_values(g).drop_first() =~= s.drop_first().map_values(g));
            assert(insert_keyed(s, x).map_values(g) =~= seq![g(s[0])] + insert_keyed(
                s.drop_first(),
                x,
            ).map_values(g));
        } else {
            assert(insert_keyed(s, x).map_values(g) =~= seq![g(x)] + s.map_values(g));
        }
    } else {
        assert(insert_keyed(s, x).map_values(g) =~= seq![g(x)]);
    }
}

/// Sorting by key commutes with changing what the keys carry.
pub proof fn lemma_isort_keyed_map<T, U>(s: Seq<(Seq<char>, T)>, g: spec_fn((Seq<char>, T)) -> (Seq<char>, U))
    requires
        forall|p: (Seq<char>, T)| #[trigger] g(p).0 == p.0,
    ensures
        isort_keyed(s).map_values(g) == isort_keyed(s.map_values(g)),
    decreases s.len(),
{
    if s.len() > 0 {
        lemma_isort_keyed_map(s.drop_last(), g);
        lemma_insert_keyed_map(isort_keyed(s.drop_last()), s.last(), g);
        assert(s.map_values(g).drop_last() =~= s.drop_last().map_values(g));
    } else {
        assert(s.map_values(g) =~= Seq::<(Seq<char>, U)>::empty());
    }
}

/// The project list from the entries of the web root.
pub fn list_projects(dirs: &Vec<ProjectDir>, cfg: &LaxConfig) -> (r: Vec<ProjectInfo>)
    ensures
        r@.map_values(|p: ProjectInfo| info_view(p)) == list_projects_spec(dirs@, *cfg),
{
    let ghost kept = dirs@.filter(|d: ProjectDir| listed_dir(d));
    let mut keyed: Vec<(Vec<char>, ProjectInfo)> = Vec::new();
    let ghost mut kd: Seq<ProjectDir> = Seq::empty();
    let mut i: usize = 0;
    while i < dirs.len()
        invariant
            i <= dirs@.len(),
            kd == dirs@.take(i as int).filter(|d: ProjectDir| listed_dir(d)),
            keyed_views(keyed@).map_values(
                |p: (Seq<char>, ProjectInfo)| (p.0, info_view(p.1)),
            ) == kd.map_values(|d: ProjectDir| (unicode_lower(d.name@), dir_info(d, *cfg))),
        decreases dirs.len() - i,
    {
        let d = &dirs[i];
        proof {
            assert(dirs@.take(i + 1).drop_last() =~= dirs@.take(i as int));
            assert(dirs@.take(i + 1).last() == *d);
            reveal(Seq::filter);
        }
        let nv = chars_of(d.name.as_str());
        if d.is_dir && !starts_with_str(&nv, ".") && !is_stack_dir(d.name.as_str()) {
            let info = match &d.package_raw {
                Some(t) => project_info(d.name.as_str(), d.path.as_str(), d.files, Some(t.as_str()), cfg),
                None => project_info(d.name.as_str(), d.path.as_str(), d.files, None, cfg),
            };
            let key = chars_of(to_lowercase(d.name.as_str()).as_str());
            let ghost old_k = keyed@;
            keyed.push((key, info));
            proof {
                kd = kd.push(*d);
                assert(keyed_views(keyed@) =~= keyed_views(old_k).push((key@, info)));
                assert(keyed_views(keyed@).map_values(
                    |p: (Seq<char>, ProjectInfo)| (p.0, info_view(p.1)),
                ) =~= keyed_views(old_k).map_values(
                    |p: (Seq<char>, ProjectInfo)| (p.0, info_view(p.1)),
                ).push((key@, info_view(info))));
                assert(kd.map_values(|d: ProjectDir| (unicode_lower(d.name@), dir_info(d, *cfg))) =~= kd.drop_last().map_values(
                    |d: ProjectDir| (unicode_lower(d.name@), dir_info(d, *cfg)),
                ).push((unicode_lower(d.name@), dir_info(*d, *cfg))));
            }
        }
        i += 1;
    }
    assert(dirs@.take(dirs@.len() as int) == dirs@);
    let ghost kv = keyed_views(keyed@);
    let sorted = sort_keyed(keyed);
    let ghost g = |p: (Seq<char>, ProjectInfo)| (p.0, info_view(p.1));
    proof {
        lemma_isort_keyed_map(kv, g);
    }
    let mut sv = sorted;
    let mut r: Vec<ProjectInfo> = Vec::new();
    let ghost sorted_v = keyed_views(sv@);
    let ghost mut n: int = 0;
    while sv.len() > 0
        invariant
            0 <= n <= sorted_v.len(),
            n + sv@.len() == sorted_v.len(),
            keyed_views(sv@) == sorted_v.skip(n),
            r@.map_values(|p: ProjectInfo| info_view(p)) == sorted_v.take(n).map_values(
                |p: (Seq<char>, ProjectInfo)| info_view(p.1),
            ),
        decreases sv.len(),
    {
        let ghost old_s = sv@;
        let (_, info) = sv.remove(0);
        proof {
            assert(keyed_views(old_s)[0].1 == info);
            assert(sorted_v.skip(n)[0] == sorted_v[n]);
            assert(keyed_views(sv@) =~= keyed_views(old_s).drop_first());
            assert(sorted_v.skip(n).drop_first() =~= sorted_v.skip(n + 1));
        }
        let ghost old_r = r@;
        r.push(info);
        proof {
            assert(r@.map_values(|p: ProjectInfo| info_view(p)) =~= old_r.map_values(
                |p: ProjectInfo| info_view(p),
            ).push(info_view(info)));
            assert(sorted_v.take(n + 1).map_values(|p: (Seq<char>, ProjectInfo)| info_view(p.1))
                =~= sorted_v.take(n).map_values(|p: (Seq<char>, ProjectInfo)| info_view(p.1)).push(
                info_view(info),
            ));
            n = n + 1;
        }
    }
    proof {
        assert(sorted_v.take(n) =~= sorted_v);
        let h = |p: (
            Seq<char>,
            ((Seq<char>, Seq<char>, Seq<char>, Seq<char>), (bool, Seq<char>, Seq<Seq<char>>), (bool, bool, bool, bool)),
        )| p.1;
        assert(sorted_v.map_values(|p: (Seq<char>, ProjectInfo)| info_view(p.1)) =~= sorted_v.map_values(g).map_values(h));
        assert(kd == kept);
        assert(sorted_v.map_values(g) == isort_keyed(kv.map_values(g)));
        assert(kv.map_values(g) == kept.map_values(
            |d: ProjectDir| (unicode_lower(d.name@), dir_info(d, *cfg)),
        ));
    }
    r
}

// ---------------------------------------------------------------------------
// New projects
// ---------------------------------------------------------------------------

/// A character kept in a folder name; every other one becomes `-`.
pub open spec fn slug_char(c: char) -> char {
    if is_alnum(c) || c == '-' || c == '_' {
        c
    } else {
        '-'
    }
}

/// The folder name made of an already lower-cased project name.
pub open spec fn slug_of_spec(lowered: Seq<char>) -> Seq<char> {
    trim_set(lowered.map_values(|c: char| slug_char(c)), CharSet::One('-'))
}

pub open spec fn empty_name_msg() -> Seq<char> {
    "empty project name"@
}

/// The folder name of a new project: the name trimmed, lower-cased, every
/// character other than ASCII letters, digits, `-` and `_` turned into `-`,
/// and `-` trimmed off both ends; an empty result is refused.
pub open spec fn sanitize_spec(name: Seq<char>) -> Result<Seq<char>, Seq<char>> {
    let s = slug_of_spec(unicode_lower(trim(name)));
    if s.len() == 0 {
        Err(empty_name_msg())
    } else {
        Ok(s)
    }
}

/// The folder name made of an already lower-cased name.
pub fn slug_of(lowered: &str) -> (r: LaxResult<String>)
    ensures
        slug_of_spec(lowered@).len() == 0 ==> err_msg(r, empty_name_msg()),
        slug_of_spec(lowered@).len() > 0 ==> (r matches Ok(x) && x@ == slug_of_spec(lowered@)),
{
    let v = chars_of(lowered);
    let mut m: Vec<char> = Vec::new();
    let mut i: usize = 0;
    while i < v.len()
        invariant
            i <= v.len(),
            m@ == v@.take(i as int).map_values(|c: char| slug_char(c)),
        decreases v.len() - i,
    {
        let c = v[i];
        let d = if char_is_alnum(c) || c == '-' || c == '_' {
            c
        } else {
            '-'
        };
        m.push(d);
        assert(v@.take(i + 1).map_values(|c: char| slug_char(c)) =~= v@.take(i as int).map_values(
            |c: char| slug_char(c),
        ).push(d));
        i += 1;
    }
    assert(v@.take(v.len() as int) =~= v@);
    let t = trim_chars_set(&m, CharSet::One('-'));
    if t.len() == 0 {
        return Err(LaxError::msg("empty project name".to_string()));
    }
    Ok(string_of(&t))
}

/// A folder name as `sanitize` makes it: not empty, only ASCII lower-case
/// letters, digits, `-` and `_`, and no `-` at either end.
pub open spec fn slug_ok(s: Seq<char>) -> bool {
    &&& s.len() > 0
    &&& forall|i: int|
        0 <= i < s.len() ==> is_lower(#[trigger] s[i]) || is_digit(s[i]) || s[i] == '-' || s[i]
            == '_'
    &&& s[0] != '-'
    &&& s.last() != '-'
}

/// `sanitize_spec` of a name whose trimmed text is ASCII: lower-casing is
/// then the ASCII one.
pub open spec fn ascii_sanitize_spec(name: Seq<char>) -> Result<Seq<char>, Seq<char>> {
    let s = slug_of_spec(lower_seq(trim(name)));
    if s.len() == 0 {
        Err(empty_name_msg())
    } else {
        Ok(s)
    }
}

/// The slug of a text without ASCII capitals is a well-formed folder name
/// when it is not empty.
proof fn lemma_slug_ok(l: Seq<char>)
    requires
        forall|i: int| 0 <= i < l.len() ==> !is_upper(#[trigger] l[i]),
        slug_of_spec(l).len() > 0,
    ensures
        slug_ok(slug_of_spec(l)),
{
    let m = l.map_values(|c: char| slug_char(c));
    let (a, b) = lemma_trim_set_slice(m, CharSet::One('-'));
    let s = slug_of_spec(l);
    assert forall|i: int| 0 <= i < s.len() implies is_lower(#[trigger] s[i]) || is_digit(s[i])
        || s[i] == '-' || s[i] == '_' by {
        assert(s[i] == m[a + i]);
        assert(!is_upper(l[a + i]));
    }
}

/// The folder name of a new project.
pub fn sanitize(name: &str) -> (r: LaxResult<String>)
    ensures
        match sanitize_spec(name@) {
            Ok(s) => r matches Ok(x) && x@ == s,
            Err(m) => err_msg(r, m),
        },
        sanitize_spec(name@) matches Ok(s) ==> slug_ok(s),
        all_ascii(trim(name@)) ==> sanitize_spec(name@) == ascii_sanitize_spec(name@),
{
    let t = string_of(&trim_str(name));
    let l = to_lowercase(t.as_str());
    let r = slug_of(l.as_str());
    proof {
        if slug_of_spec(l@).len() > 0 {
            lemma_slug_ok(l@);
        }
    }
    r
}

pub open spec fn taken_msg(slug: Seq<char>) -> Seq<char> {
    "проект '"@ + slug + "' уже есть"@
}

/// The error for a project folder that exists already.
pub fn slug_taken(slug: &str) -> (e: LaxError)
    ensures
        is_msg(e, taken_msg(slug@)),
{
    let mut m = chars_of("проект '");
    append_str(&mut m, slug);
    append_str(&mut m, "' уже есть");
    LaxError::msg(string_of(&m))
}

/// The folder of the project `slug` in the web root.
pub open spec fn project_dir(paths: Paths, cfg: LaxConfig, slug: Seq<char>) -> Seq<char> {
    join_path(join_unix_spec(paths.root@, cfg.document_root@, paths.platform), slug, paths.platform)
}

/// The folder name for a new project, refused when the name is empty or
/// when `dir_exists` reports that the folder exists already.
pub fn reserve_slug<F: Fn(&str) -> bool>(paths: &Paths, cfg: &LaxConfig, name: &str, dir_exists: F) -> (r: LaxResult<String>)
    requires
        forall|p: &str| dir_exists.requires((p,)),
    ensures
        match sanitize_spec(name@) {
            Err(m) => err_msg(r, m),
            Ok(s) => {
                ||| (r matches Ok(x) && x@ == s && exists|p: &str|
                    p@ == project_dir(*paths, *cfg, s) && dir_exists.ensures((p,), false))
                ||| (err_msg(r, taken_msg(s)) && exists|p: &str|
                    p@ == project_dir(*paths, *cfg, s) && dir_exists.ensures((p,), true))
            },
        },
        sanitize_spec(name@) matches Ok(s) ==> slug_ok(s),
        all_ascii(trim(name@)) ==> sanitize_spec(name@) == ascii_sanitize_spec(name@),
{
    let slug = sanitize(name)?;
    let www = paths.www(cfg);
    let dir = join(www.as_str(), slug.as_str(), paths.platform);
    let d = dir.as_str();
    if dir_exists(d) {
        return Err(slug_taken(slug.as_str()));
    }
    Ok(slug)
}

/// The start page of a new PHP project.
pub open spec fn php_index_text(slug: Seq<char>) -> Seq<char> {
    "<?php\n?><!doctype html>\n<html lang=\"ru\">\n<head>\n  <meta charset=\"utf-8\">\n  <title>"@
        + slug
        + "</title>\n  <style>\n    body { margin:0; min-height:100vh; display:grid; place-items:center;\n      font-family: Segoe UI, sans-serif; background:#07090f; color:#e8eef7; }\n    main { text-align:center; }\n    h1 { font-size:42px; margin:0 0 8px; }\n    p { color:#9aa8bd; }\n    code { color:#22d3ee; }\n  </style>\n</head>\n<body>\n  <main>\n    <h1>"@
        + slug + "</h1>\n    <p>PHP <?= PHP_VERSION ?> · <code>http://localhost/"@ + slug
        + "/</code></p>\n  </main>\n</body>\n</html>\n"@
}

/// `index.php` of a new PHP project.
pub fn php_index(slug: &str) -> (r: String)
    ensures
        r@ == php_index_text(slug@),
{
    let mut v = chars_of(
        "<?php\n?><!doctype html>\n<html lang=\"ru\">\n<head>\n  <meta charset=\"utf-8\">\n  <title>",
    );
    append_str(&mut v, slug);
    append_str(
        &mut v,
        "</title>\n  <style>\n    body { margin:0; min-height:100vh; display:grid; place-items:center;\n      font-family: Segoe UI, sans-serif; background:#07090f; color:#e8eef7; }\n    main { text-align:center; }\n    h1 { font-size:42px; margin:0 0 8px; }\n    p { color:#9aa8bd; }\n    code { color:#22d3ee; }\n  </style>\n</head>\n<body>\n  <main>\n    <h1>",
    );
    append_str(&mut v, slug);
    append_str(&mut v, "</h1>\n    <p>PHP <?= PHP_VERSION ?> · <code>http://localhost/");
    append_str(&mut v, slug);
    append_str(&mut v, "/</code></p>\n  </main>\n</body>\n</html>\n");
    string_of(&v)
}

pub open spec fn not_listed_msg() -> Seq<char> {
    "проект создан, но не попал в список"@
}

/// The first project of the list named `slug`.
pub fn listed(items: Vec<ProjectInfo>, slug: &str) -> (r: LaxResult<ProjectInfo>)
    ensures
        (exists|i: int| 0 <= i < items@.len() && items@[i].name@ == slug@) ==> (r matches Ok(p) && exists|
            i: int,
        |
            0 <= i < items@.len() && items@[i] == p && p.name@ == slug@ && forall|j: int|
                0 <= j < i ==> items@[j].name@ != slug@),
        !(exists|i: int| 0 <= i < items@.len() && items@[i].name@ == slug@) ==> err_msg(
            r,
            not_listed_msg(),
        ),
{
    let ghost l0 = items@;
    let mut list = items;
    let mut i: usize = 0;
    while i < list.len()
        invariant
            i <= list@.len(),
            list@ == l0,
            l0 == items@,
            forall|j: int| 0 <= j < i ==> l0[j].name@ != slug@,
        decreases list.len() - i,
    {
        let n = chars_of(list[i].name.as_str());
        if eq_str(&n, slug) {
            let ghost li = list@;
            let p = list.remove(i);
            assert(li[i as int] == p);
            assert(l0[i as int].name@ == slug@);
            assert(exists|k: int| 0 <= k < items@.len() && items@[k].name@ == slug@);
            assert(0 <= i < items@.len() && items@[i as int] == p && p.name@ == slug@ && forall|j: int|
                0 <= j < i ==> items@[j].name@ != slug@);
            return Ok(p);
        }
        i += 1;
    }
    Err(LaxError::msg("проект создан, но не попал в список".to_string()))
}

pub open spec fn no_node_msg() -> Seq<char> {
    "Node не найден в bin/node. Запусти npm run fetch-tools"@
}

/// The command line a terminal runs to scaffold a project of `kind`, and the
/// hint shown meanwhile: Laravel through Composer (`composer` is how Composer
/// is run), Vite + Vue through npm (which needs the bundled Node).
pub open spec fn cli_scaffold_spec(kind: Seq<char>, slug: Seq<char>, composer: Seq<char>, has_node: bool) -> Result<
    (Seq<char>, Seq<char>),
    Seq<char>,
> {
    if kind == "laravel"@ {
        Ok(
            (
                composer + " create-project --prefer-dist --no-interaction laravel/laravel "@ + slug,
                "Laravel: в терминале composer create-project → "@ + slug,
            ),
        )
    } else if kind == "vite"@ {
        if !has_node {
            Err(no_node_msg())
        } else {
            Ok(
                (
                    "npm create --yes vite@latest "@ + slug + " -- --template vue"@,
                    "Vite + Vue: в терминале npm create → "@ + slug,
                ),
            )
        }
    } else {
        Err("неизвестный шаблон: "@ + kind)
    }
}

pub fn cli_scaffold(kind: &str, slug: &str, composer: &str, has_node: bool) -> (r: LaxResult<(String, String)>)
    ensures
        match cli_scaffold_spec(kind@, slug@, composer@, has_node) {
            Ok((line, hint)) => r matches Ok((l, h)) && l@ == line && h@ == hint,
            Err(m) => err_msg(r, m),
        },
{
    let k = chars_of(kind);
    if eq_str(&k, "laravel") {
        let mut line = chars_of(composer);
        append_str(&mut line, " create-project --prefer-dist --no-interaction laravel/laravel ");
        append_str(&mut line, slug);
        let mut hint = chars_of("Laravel: в терминале composer create-project → ");
        append_str(&mut hint, slug);
        Ok((string_of(&line), string_of(&hint)))
    } else if eq_str(&k, "vite") {
        if !has_node {
            return Err(LaxError::msg("Node не найден в bin/node. Запусти npm run fetch-tools".to_string()));
        }
        let mut line = chars_of("npm create --yes vite@latest ");
        append_str(&mut line, slug);
        append_str(&mut line, " -- --template vue");
        let mut hint = chars_of("Vite + Vue: в терминале npm create → ");
        append_str(&mut hint, slug);
        Ok((string_of(&line), string_of(&hint)))
    } else {
        let mut m = chars_of("неизвестный шаблон: ");
        append_str(&mut m, kind);
        Err(LaxError::msg(string_of(&m)))
    }
}

/// Where a file of the WordPress archive goes inside the new project: its
/// name below `wordpress/`, leading slashes dropped; `None` for an empty
/// path, one containing `..`, or (on Windows) one that starts with a drive.
pub open spec fn wordpress_entry_spec(name: Seq<char>, platform: Platform) -> Option<Seq<char>> {
    let n = replace_char(name, '\\', '/');
    let rel = trim_start_set(
        match strip_prefix(n, "wordpress/"@) {
            Some(r) => r,
            None => n,
        },
        CharSet::One('/'),
    );
    if rel.len() == 0 || contains(rel, ".."@) || (platform == Platform::Windows && rel.len() >= 2
        && is_alpha(rel[0]) && rel[1] == ':') {
        None
    } else {
        Some(rel)
    }
}

pub fn wordpress_entry(name: &str, platform: Platform) -> (r: Option<String>)
    ensures
        match r {
            Some(x) => wordpress_entry_spec(name@, platform) == Some(x@),
            None => wordpress_entry_spec(name@, platform) is None,
        },
{
    let v = chars_of(name);
    let n = replace_char_chars(&v, '\\', '/');
    let stripped = match strip_prefix_str(&n, "wordpress/") {
        Some(r) => r,
        None => n,
    };
    let rel = trim_start_chars(&stripped, CharSet::One('/'));
    if rel.len() == 0 || contains_str(&rel, "..") || (platform == Platform::Windows && rel.len() >= 2
        && char_is_alpha(rel[0]) && rel[1] == ':') {
        return None;
    }
    Some(string_of(&rel))
}

/// A downloaded WordPress archive is reused when it is a file of more than
/// a million bytes.
pub fn wordpress_cached(is_file: bool, len: u64) -> (r: bool)
    ensures
        r == (is_file && len > 1000000),
{
    is_file && len > 1000000
}

pub open spec fn wordpress_empty_msg() -> Seq<char> {
    "архив WordPress пустой или неожиданный"@
}

/// The unpacked project must have `wp-config-sample.php` or `index.php`.
pub fn wordpress_check(has_sample: bool, has_index: bool) -> (r: LaxResult<()>)
    ensures
        (has_sample || has_index) <==> r is Ok,
        !(has_sample || has_index) ==> err_msg(r, wordpress_empty_msg()),
{
    if !has_sample && !has_index {
        return Err(LaxError::msg("архив WordPress пустой или неожиданный".to_string()));
    }
    Ok(())
}

/// npm script names that may be run from the project menu: not empty, at
/// most 64 bytes, made of ASCII letters, digits, `-`, `_`, `:` and `.`.
pub open spec fn is_safe_script_spec(name: Seq<char>) -> bool {
    name.len() > 0 && byte_len(name) <= 64 && forall|i: int|
        0 <= i < name.len() ==> #[trigger] script_char(name[i])
}

pub open spec fn script_char(c: char) -> bool {
    is_alnum(c) || c == '-' || c == '_' || c == ':' || c == '.'
}

pub fn is_safe_script(name: &str) -> (r: bool)
    ensures
        r == is_safe_script_spec(name@),
{
    let v = chars_of(name);
    if v.len() == 0 || byte_len_capped(&v, 65) > 64 {
        return false;
    }
    let mut i: usize = 0;
    while i < v.len()
        invariant
            i <= v.len(),
            v@ == name@,
            v.len() > 0,
            byte_len(v@) <= 64,
            forall|j: int| 0 <= j < i ==> script_char(#[trigger] v@[j]),
        decreases v.len() - i,
    {
        let c = v[i];
        if !(char_is_alnum(c) || c == '-' || c == '_' || c == ':' || c == '.') {
            assert(!script_char(v@[i as int]));
            return false;
        }
        i += 1;
    }
    true
}

/// A new PHP project: the folder name is reserved as `reserve_slug` does,
/// and the project gets its start page `index.php` in its folder.
pub fn create_project<F: Fn(&str) -> bool>(paths: &Paths, cfg: &LaxConfig, name: &str, dir_exists: F) -> (r: LaxResult<FileWrite>)
    requires
        forall|p: &str| dir_exists.requires((p,)),
    ensures
        match sanitize_spec(name@) {
            Err(m) => err_msg(r, m),
            Ok(s) => {
                ||| (r matches Ok(w) && w.path@ == join_path(project_dir(*paths, *cfg, s), "index.php"@, paths.platform)
                    && w.body@ == php_index_text(s) && exists|p: &str|
                    p@ == project_dir(*paths, *cfg, s) && dir_exists.ensures((p,), false))
                ||| (err_msg(r, taken_msg(s)) && exists|p: &str|
                    p@ == project_dir(*paths, *cfg, s) && dir_exists.ensures((p,), true))
            },
        },
        sanitize_spec(name@) matches Ok(s) ==> slug_ok(s),
        all_ascii(trim(name@)) ==> sanitize_spec(name@) == ascii_sanitize_spec(name@),
{
    let slug = reserve_slug(paths, cfg, name, dir_exists)?;
    let www = paths.www(cfg);
    let dir = join(www.as_str(), slug.as_str(), paths.platform);
    let path = join(dir.as_str(), "index.php", paths.platform);
    Ok(FileWrite { path, body: php_index(slug.as_str()) })
}

} // verus!
