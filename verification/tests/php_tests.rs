use lax::config::{LaxConfig, Paths};
use lax::error::LaxError;
use lax::php::{
    apply_php, default_fcgid, dll_to_name, format_ext_line, list_extensions, normalize_ext_name,
    parse_ext_line, patch_httpd_includes, php_ini_path, replace_directive, set_extension,
};
use lax::platform::Platform;

fn s(x: &str) -> String {
    x.to_string()
}

#[test]
fn normalize_strips_quotes_path_prefix_and_suffix() {
    assert_eq!(normalize_ext_name("\"ext/php_curl.dll\""), Some(s("curl")));
    assert_eq!(normalize_ext_name("'C:\\php\\ext\\php_GD.dll'"), Some(s("gd")));
    assert_eq!(normalize_ext_name("opcache.so"), Some(s("opcache")));
    assert_eq!(normalize_ext_name("mysqli ; comment"), Some(s("mysqli")));
}

#[test]
fn normalize_rejects_empty_and_spaced_names() {
    assert_eq!(normalize_ext_name("   "), None);
    assert_eq!(normalize_ext_name("; only a comment"), None);
    assert_eq!(normalize_ext_name("two words"), None);
    assert_eq!(normalize_ext_name("php_.dll"), None);
}

#[test]
fn parse_enabled_and_disabled_lines() {
    assert_eq!(parse_ext_line("extension=curl"), Some((s("extension"), s("curl"), true)));
    assert_eq!(parse_ext_line(";extension=mbstring"), Some((s("extension"), s("mbstring"), false)));
    assert_eq!(parse_ext_line("  zend_extension = opcache  "), Some((s("zend"), s("opcache"), true)));
    assert_eq!(parse_ext_line(";zend_extension=xdebug"), Some((s("zend"), s("xdebug"), false)));
}

#[test]
fn parse_skips_documentation_and_other_lines() {
    assert_eq!(parse_ext_line(";   extension=mysqli"), None);
    assert_eq!(parse_ext_line(";\textension=mysqli"), None);
    assert_eq!(parse_ext_line("extension=modulename"), None);
    assert_eq!(parse_ext_line("extension_dir = \"ext\""), None);
    assert_eq!(parse_ext_line("memory_limit=128M"), None);
    assert_eq!(parse_ext_line(""), None);
    assert_eq!(parse_ext_line("extension="), None);
}

#[test]
fn dll_names() {
    assert_eq!(dll_to_name("php_curl.dll"), Some(s("curl")));
    assert_eq!(dll_to_name("PHP_Intl.DLL"), Some(s("intl")));
    assert_eq!(dll_to_name("redis.so"), Some(s("redis")));
    assert_eq!(dll_to_name("readme.txt"), None);
}

#[test]
fn format_lines() {
    assert_eq!(format_ext_line("extension", "curl", true), "extension=curl");
    assert_eq!(format_ext_line("extension", "curl", false), ";extension=curl");
    assert_eq!(format_ext_line("zend", "opcache", true), "zend_extension=opcache");
    assert_eq!(format_ext_line("zend", "opcache", false), ";zend_extension=opcache");
}

#[test]
fn format_then_parse_round_trips() {
    for (kind, enabled) in [("extension", true), ("extension", false), ("zend", true), ("zend", false)] {
        let line = format_ext_line(kind, "intl", enabled);
        assert_eq!(parse_ext_line(&line), Some((s(kind), s("intl"), enabled)));
    }
}

#[test]
fn set_extension_without_ini_fails() {
    match set_extension(None, "curl", true) {
        Err(LaxError::Msg(m)) => assert_eq!(m, "php.ini not found"),
        _ => panic!("expected an error"),
    }
}

#[test]
fn set_extension_rewrites_existing_line() {
    let ini = "[PHP]\n;extension=curl\nextension=gd\n";
    let out = set_extension(Some(ini), " CURL ", true).unwrap();
    assert_eq!(out, "[PHP]\nextension=curl\nextension=gd\n");
    let off = set_extension(Some(&out), "gd", false).unwrap();
    assert_eq!(off, "[PHP]\nextension=curl\n;extension=gd\n");
}

#[test]
fn set_extension_keeps_zend_kind() {
    let out = set_extension(Some("zend_extension=opcache"), "opcache", false).unwrap();
    assert_eq!(out, ";zend_extension=opcache\n");
}

#[test]
fn set_extension_appends_missing_extension() {
    let out = set_extension(Some("memory_limit=128M\n"), "Intl", true).unwrap();
    assert_eq!(out, "memory_limit=128M\nextension=intl\n");
    let out = set_extension(Some(""), "sodium", false).unwrap();
    assert_eq!(out, ";extension=sodium\n");
}

#[test]
fn set_extension_then_list_shows_new_state() {
    let out = set_extension(Some(";extension=curl\n"), "curl", true).unwrap();
    let exts = list_extensions(&out, &vec![]);
    assert_eq!(exts.len(), 1);
    assert_eq!(exts[0].name, "curl");
    assert!(exts[0].enabled);
}

#[test]
fn list_merges_ini_and_files_sorted_by_key() {
    let ini = "extension=curl\n;extension=mbstring\nzend_extension=opcache\n;   extension=mysqli\n";
    let files = vec![s("php_gd.dll"), s("php_curl.dll"), s("readme.txt")];
    let exts = list_extensions(ini, &files);
    let got: Vec<(String, String, bool)> =
        exts.iter().map(|e| (e.kind.clone(), e.name.clone(), e.enabled)).collect();
    assert_eq!(
        got,
        vec![
            (s("extension"), s("curl"), true),
            (s("extension"), s("gd"), false),
            (s("extension"), s("mbstring"), false),
            (s("zend"), s("opcache"), true),
        ]
    );
}

#[test]
fn list_later_line_wins() {
    let exts = list_extensions("extension=curl\n;extension=curl\n", &vec![]);
    assert_eq!(exts.len(), 1);
    assert!(!exts[0].enabled);
}

#[test]
fn replace_directive_first_match_only() {
    let src = "ServerName x\n  DocumentRoot \"/old\"\nDocumentRoot \"/older\"\n";
    assert_eq!(
        replace_directive(src, "DocumentRoot", "\"/new\""),
        "ServerName x\nDocumentRoot \"/new\"\nDocumentRoot \"/older\"\n"
    );
    assert_eq!(replace_directive("a\nb", "Listen", "80"), "a\nb\n");
}

#[test]
fn httpd_gets_fcgid_include_once() {
    let body = "DocumentRoot \"x\"";
    let out = patch_httpd_includes(body, "C:/lax", "C:/lax/www");
    assert_eq!(
        out,
        "DocumentRoot \"C:/lax/www\"\nInclude \"C:/lax/etc/apache2/fcgid.conf\"\n"
    );
    let again = patch_httpd_includes(&out, "C:/lax", "C:/lax/www");
    assert_eq!(again, out);
}

#[test]
fn ini_path_under_php_version() {
    let paths = Paths::new(s("/opt/lax"), Platform::Unix);
    let cfg = LaxConfig::defaults(Platform::Unix);
    assert_eq!(php_ini_path(&paths, &cfg), "/opt/lax/bin/php/php-8.4/php.ini");
}

#[test]
fn apply_php_writes_routing_files() {
    let paths = Paths::new(s("/opt/lax"), Platform::Unix);
    let cfg = LaxConfig::defaults(Platform::Unix);
    let w = apply_php(&paths, &cfg, Some("root=<<ROOT>> php=<<PHP_DIR>>"), None);
    assert_eq!(w.len(), 3);
    assert_eq!(w[0].path, "/opt/lax/etc/apache2/fcgid.conf");
    assert_eq!(w[0].body, "root=/opt/lax php=/opt/lax/bin/php/php-8.4");
    assert_eq!(w[1].path, "/opt/lax/etc/apache2/mod_php.conf");
    assert_eq!(w[1].body, "# PHP is served via FastCGI (fcgid.conf). Active version: php-8.4\n");
    assert_eq!(w[2].path, "/opt/lax/etc/nginx/php_upstream.conf");
    assert_eq!(
        w[2].body,
        "upstream php_upstream {\n\tserver 127.0.0.1:9003 weight=1 max_fails=1 fail_timeout=1;\n}\n"
    );
}

#[test]
fn apply_php_default_template_and_httpd() {
    let paths = Paths::new(s("C:\\lax"), Platform::Windows);
    let mut cfg = LaxConfig::defaults(Platform::Windows);
    cfg.php_cgi_ports = vec![];
    let w = apply_php(&paths, &cfg, None, Some("Listen 80\n"));
    assert_eq!(w.len(), 4);
    assert!(w[0].body.contains("FcgidWrapper \"C:/lax/bin/php/php-trash-8.2/php-cgi.exe\" .php"));
    assert!(!w[0].body.contains("<<"));
    assert!(w[2].body.contains("127.0.0.1:9003"));
    assert!(w[2].body.contains("127.0.0.1:9004"));
    assert_eq!(w[3].path, "C:\\lax\\bin\\apache\\Apache24\\conf\\httpd.conf");
    assert!(w[3].body.contains("Include \"C:/lax/etc/apache2/fcgid.conf\""));
    assert!(default_fcgid().starts_with("LoadModule fcgid_module"));
}

#[test]
fn set_extension_twice_is_once() {
    for ini in ["[PHP]\n;extension=curl\nextension=gd\n", "memory_limit=1G", "zend_extension=opcache\r\n"] {
        for on in [true, false] {
            let once = set_extension(Some(ini), "Curl", on).unwrap();
            assert_eq!(set_extension(Some(&once), "Curl", on).unwrap(), once);
        }
    }
}

#[test]
fn set_extension_twice_on_trailing_cr_line_differs() {
    let once = set_extension(Some("a\r"), "curl", true).unwrap();
    assert_eq!(once, "a\r\nextension=curl\n");
    assert_eq!(set_extension(Some(&once), "curl", true).unwrap(), "a\nextension=curl\n");
}

#[test]
fn fcgid_placeholders_filled() {
    let paths = Paths::new(s("/opt/lax"), Platform::Unix);
    let cfg = LaxConfig::defaults(Platform::Unix);
    let w = apply_php(&paths, &cfg, Some("<IfModule x>\n<<ROOT>>/a <<PHP_DIR>>/b <<ROOT>>\n</IfModule>"), None);
    assert!(!w[0].body.contains("<<ROOT>>") && !w[0].body.contains("<<PHP_DIR>>"));
    assert_eq!(w[0].body, "<IfModule x>\n/opt/lax/a /opt/lax/bin/php/php-8.4/b /opt/lax\n</IfModule>");
    // `<` doubled outside the placeholders stays as it is.
    let odd = apply_php(&paths, &cfg, Some("<<<<ROOT>>>>"), None);
    assert_eq!(odd[0].body, "<</opt/lax>>");
}
