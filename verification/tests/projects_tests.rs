use lax::config::{LaxConfig, Paths};
use lax::error::LaxError;
use lax::platform::Platform;
use lax::projects::{
    cli_scaffold, create_project, document_root_for, is_safe_script, is_stack_dir, list_projects,
    listed, package_summary, php_index, project_info, project_url, read_package, reserve_slug,
    sanitize, slug_of, slug_taken, wordpress_cached, wordpress_check, wordpress_entry, PackageJson,
    ProjectDir, ProjectFiles,
};

fn s(x: &str) -> String {
    x.to_string()
}

fn v(xs: &[&str]) -> Vec<String> {
    xs.iter().map(|x| x.to_string()).collect()
}

fn msg_of<T>(r: Result<T, LaxError>) -> String {
    match r {
        Err(LaxError::Msg(m)) => m,
        _ => panic!("expected a message"),
    }
}

fn no_files() -> ProjectFiles {
    ProjectFiles {
        has_package: false,
        has_composer: false,
        has_artisan: false,
        has_vite_config: false,
        has_wp_config: false,
        has_node_modules: false,
        has_vendor: false,
        public_has_index: false,
    }
}

fn dir(name: &str, files: ProjectFiles, package_raw: Option<&str>) -> ProjectDir {
    ProjectDir { name: s(name), path: format!("/w/{name}"), is_dir: true, files, package_raw: package_raw.map(s) }
}

#[test]
fn package_json_read_through_serde() {
    let raw = r#"{"scripts":{"dev":"vite","build":"vite build"},"devDependencies":{"vite":"^5"}}"#;
    let (scripts, vite) = read_package(Some(raw));
    assert_eq!(scripts, v(&["build", "dev"]));
    assert!(vite);
    let (scripts, vite) = read_package(Some(r#"{"dependencies":{"@vitejs/plugin-vue":"1"},"scripts":[]}"#));
    assert!(scripts.is_empty());
    assert!(vite);
    let (scripts, vite) = read_package(Some("not json"));
    assert!(scripts.is_empty());
    assert!(!vite);
    assert_eq!(read_package(None), (vec![], false));
}

#[test]
fn package_summary_sorts_scripts() {
    let pj = PackageJson { scripts: Some(v(&["z", "a", "m"])), dependencies: None, dev_dependencies: Some(v(&["vite"])) };
    assert_eq!(package_summary(Some(pj)), (v(&["a", "m", "z"]), true));
    assert_eq!(package_summary(None), (vec![], false));
}

#[test]
fn project_urls() {
    let mut cfg = LaxConfig::defaults(Platform::Windows);
    assert_eq!(project_url("blog", false, &cfg), "http://localhost/blog/");
    assert_eq!(project_url("app", true, &cfg), "http://localhost/app/public/");
    cfg.web_server = s("nginx");
    cfg.nginx_port = 8081;
    assert_eq!(project_url("blog", false, &cfg), "http://localhost:8081/blog/");
    assert_eq!(document_root_for("/w/app", true, Platform::Unix), "/w/app/public");
    assert_eq!(document_root_for("/w/app", false, Platform::Unix), "/w/app");
}

#[test]
fn project_kinds() {
    let cfg = LaxConfig::defaults(Platform::Windows);
    let mut f = no_files();
    assert_eq!(project_info("p", "/w/p", f, None, &cfg).kind, "php");
    f.has_package = true;
    assert_eq!(project_info("p", "/w/p", f, Some("{}"), &cfg).kind, "node");
    assert_eq!(project_info("p", "/w/p", f, Some(r#"{"devDependencies":{"vite":"5"}}"#), &cfg).kind, "vite");
    f.has_wp_config = true;
    assert_eq!(project_info("p", "/w/p", f, Some("{}"), &cfg).kind, "wordpress");
    f.has_artisan = true;
    f.has_composer = true;
    let i = project_info("p", "/w/p", f, Some(r#"{"scripts":{"dev":"x"}}"#), &cfg);
    assert_eq!(i.kind, "laravel");
    assert_eq!(i.scripts, v(&["dev"]));
    assert_eq!(i.url, i.localhost_url);
    let mut g = no_files();
    g.has_vite_config = true;
    g.public_has_index = true;
    let j = project_info("q", "/w/q", g, Some(r#"{"scripts":{"dev":"x"}}"#), &cfg);
    assert_eq!(j.kind, "vite");
    assert!(j.scripts.is_empty());
    assert!(j.has_public);
    assert_eq!(j.url, "http://localhost/q/public/");
}

#[test]
fn stack_folders() {
    assert!(is_stack_dir("vendor"));
    assert!(is_stack_dir("CGI-BIN"));
    assert!(is_stack_dir("Uploads"));
    assert!(!is_stack_dir("blog"));
}

#[test]
fn project_list_filtered_and_sorted() {
    let cfg = LaxConfig::defaults(Platform::Windows);
    let mut file = dir("readme.txt", no_files(), None);
    file.is_dir = false;
    let dirs = vec![
        dir("Zeta", no_files(), None),
        dir(".git", no_files(), None),
        dir("vendor", no_files(), None),
        file,
        dir("alpha", no_files(), None),
        dir("Äpfel", no_files(), None),
        dir("beta", no_files(), None),
    ];
    let names: Vec<String> = list_projects(&dirs, &cfg).into_iter().map(|p| p.name).collect();
    assert_eq!(names, v(&["alpha", "beta", "Zeta", "Äpfel"]));
}

#[test]
fn folder_names_for_new_projects() {
    assert_eq!(sanitize("  My Blog!  ").unwrap(), "my-blog");
    assert_eq!(sanitize("Über Shop").unwrap(), "ber-shop");
    assert_eq!(sanitize("ÄB").unwrap(), "b");
    assert_eq!(sanitize("a__b--c").unwrap(), "a__b--c");
    assert_eq!(msg_of(sanitize("   ")), "empty project name");
    assert_eq!(msg_of(sanitize("!!!")), "empty project name");
    assert_eq!(slug_of("hello world").unwrap(), "hello-world");
    assert_eq!(msg_of(slug_of("--")), "empty project name");
}

#[test]
fn reserving_names() {
    let p = Paths::new(s("/l"), Platform::Unix);
    let cfg = LaxConfig::defaults(Platform::Unix);
    assert_eq!(reserve_slug(&p, &cfg, "Blog", |d: &str| d == "/l/www/other").unwrap(), "blog");
    assert_eq!(msg_of(reserve_slug(&p, &cfg, "Blog", |d: &str| d == "/l/www/blog")), "проект 'blog' уже есть");
    assert_eq!(msg_of(reserve_slug(&p, &cfg, "", |_d: &str| false)), "empty project name");
    match slug_taken("x") {
        LaxError::Msg(m) => assert_eq!(m, "проект 'x' уже есть"),
        _ => panic!(),
    }
}

#[test]
fn creating_a_php_project() {
    let p = Paths::new(s("C:\\lax"), Platform::Windows);
    let cfg = LaxConfig::defaults(Platform::Windows);
    let w = create_project(&p, &cfg, "Demo", |_d: &str| false).unwrap();
    assert_eq!(w.path, "C:\\lax\\www\\demo\\index.php");
    assert_eq!(w.body, php_index("demo"));
    assert!(w.body.contains("<title>demo</title>"));
    assert!(w.body.contains("<code>http://localhost/demo/</code>"));
    assert_eq!(msg_of(create_project(&p, &cfg, "Demo", |_d: &str| true)), "проект 'demo' уже есть");
}

#[test]
fn finding_the_new_project_in_the_list() {
    let cfg = LaxConfig::defaults(Platform::Windows);
    let items = vec![
        project_info("a", "/w/a", no_files(), None, &cfg),
        project_info("b", "/w/b1", no_files(), None, &cfg),
        project_info("b", "/w/b2", no_files(), None, &cfg),
    ];
    assert_eq!(listed(items.clone(), "b").unwrap().path, "/w/b1");
    assert_eq!(msg_of(listed(items, "c")), "проект создан, но не попал в список");
}

#[test]
fn scaffold_command_lines() {
    let (l, h) = cli_scaffold("laravel", "shop", "\"/l/bin/composer/composer\"", false).unwrap();
    assert_eq!(l, "\"/l/bin/composer/composer\" create-project --prefer-dist --no-interaction laravel/laravel shop");
    assert_eq!(h, "Laravel: в терминале composer create-project → shop");
    let (l, _) = cli_scaffold("vite", "app", "composer", true).unwrap();
    assert_eq!(l, "npm create --yes vite@latest app -- --template vue");
    assert_eq!(msg_of(cli_scaffold("vite", "app", "composer", false)), "Node не найден в bin/node. Запусти npm run fetch-tools");
    assert_eq!(msg_of(cli_scaffold("rails", "app", "composer", true)), "неизвестный шаблон: rails");
}

#[test]
fn wordpress_archive() {
    assert_eq!(wordpress_entry("wordpress/wp-login.php", Platform::Unix), Some(s("wp-login.php")));
    assert_eq!(wordpress_entry("wordpress\\wp-admin\\x.php", Platform::Windows), Some(s("wp-admin/x.php")));
    assert_eq!(wordpress_entry("wordpress/", Platform::Unix), None);
    assert_eq!(wordpress_entry("wordpress/../../evil", Platform::Unix), None);
    assert_eq!(wordpress_entry("/abs/file", Platform::Unix), Some(s("abs/file")));
    assert_eq!(wordpress_entry("C:/x", Platform::Windows), None);
    assert!(wordpress_cached(true, 1000001));
    assert!(!wordpress_cached(true, 1000000));
    assert!(!wordpress_cached(false, 5000000));
    assert!(wordpress_check(true, false).is_ok());
    assert!(wordpress_check(false, true).is_ok());
    assert_eq!(msg_of(wordpress_check(false, false)), "архив WordPress пустой или неожиданный");
}

#[test]
fn npm_script_names() {
    assert!(is_safe_script("dev"));
    assert!(is_safe_script("build:prod.v2"));
    assert!(!is_safe_script(""));
    assert!(!is_safe_script("dev && rm -rf /"));
    assert!(!is_safe_script(&"a".repeat(65)));
    assert!(is_safe_script(&"a".repeat(64)));
}

#[test]
fn sanitize_makes_well_formed_folder_names() {
    assert_eq!(sanitize("  My Site! ").unwrap(), "my-site");
    assert_eq!(msg_of(sanitize("--")), "empty project name");
    assert_eq!(msg_of(sanitize("Привет")), "empty project name");
    for name in ["A_B c", "x.y.z", "-Lead-", "ÉCOLE 2024", "İstanbul", "KELVIN"] {
        let r = sanitize(name).unwrap();
        assert!(!r.is_empty());
        assert!(r.chars().all(|c| c.is_ascii_lowercase() || c.is_ascii_digit() || c == '-' || c == '_'));
        assert!(!r.starts_with('-') && !r.ends_with('-'));
    }
}

#[test]
fn project_list_keeps_order_of_equal_names() {
    let cfg = LaxConfig::defaults(Platform::Unix);
    let dirs = vec![
        dir("b", no_files(), None),
        dir("Site", no_files(), None),
        dir("a", no_files(), None),
        dir("site", no_files(), None),
        dir("SITE", no_files(), None),
    ];
    let names: Vec<String> = list_projects(&dirs, &cfg).into_iter().map(|p| p.name).collect();
    assert_eq!(names, v(&["a", "b", "Site", "site", "SITE"]));
}
