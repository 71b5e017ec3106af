use lax::config::{config_from_parsed, normalize_db_admin, runtime_dirs, LaxConfig, Paths};
use lax::error::LaxError;
use lax::hosts::{hosts_path, strip_block, sync_hosts};
use lax::platform::Platform;

fn s(x: &str) -> String {
    x.to_string()
}

#[test]
fn defaults_on_windows() {
    let c = LaxConfig::defaults(Platform::Windows);
    assert_eq!(c.document_root, "www");
    assert_eq!(c.tld, "localhost");
    assert!(!c.auto_vhost);
    assert_eq!(c.web_server, "apache");
    assert_eq!(c.apache_port, 80);
    assert_eq!(c.nginx_port, 80);
    assert_eq!(c.mysql_port, 3306);
    assert_eq!(c.php_version, "php-trash-8.2");
    assert_eq!(c.mysql_version, "mariadb-10.11.13");
    assert_eq!(c.nginx_version, "nginx-1.14.0");
    assert_eq!(c.apache_version, "Apache24");
    assert_eq!(c.php_cgi_ports, vec![9003, 9004]);
    assert!(!c.auto_start);
    assert!(c.mysql_enabled);
    assert_eq!(c.theme, "noir");
    assert_eq!(c.db_admin, "phpmyadmin");
}

#[test]
fn defaults_on_unix() {
    let c = LaxConfig::defaults(Platform::Unix);
    assert_eq!(c.web_server, "nginx");
    assert_eq!(c.apache_port, 8080);
    assert_eq!(c.nginx_port, 8080);
    assert_eq!(c.php_version, "php-8.4");
    assert_eq!(c.mysql_version, "mariadb-11.4.12");
    assert_eq!(c.nginx_version, "nginx-1.28.3");
    assert_eq!(c.php_cgi_ports, vec![9003]);
}

#[test]
fn db_admin_normalization() {
    assert_eq!(normalize_db_admin("dbgate"), "dbgate");
    assert_eq!(normalize_db_admin("  Adminer "), "dbgate");
    assert_eq!(normalize_db_admin("DBGATE"), "dbgate");
    assert_eq!(normalize_db_admin("phpMyAdmin"), "phpmyadmin");
    assert_eq!(normalize_db_admin(""), "phpmyadmin");
    assert_eq!(normalize_db_admin("something"), "phpmyadmin");
}

#[test]
fn db_admin_normalization_is_idempotent() {
    for id in ["dbgate", "adminer", "x", "", " DbGate "] {
        let once = normalize_db_admin(id);
        assert_eq!(normalize_db_admin(&once), once);
    }
}

#[test]
fn parsed_config_keeps_fields_and_normalizes_tool() {
    let mut p = LaxConfig::defaults(Platform::Unix);
    p.tld = s("test");
    p.db_admin = s("Adminer");
    let c = config_from_parsed(Some(p), Platform::Windows);
    assert_eq!(c.tld, "test");
    assert_eq!(c.web_server, "nginx");
    assert_eq!(c.db_admin, "dbgate");
    let d = config_from_parsed(None, Platform::Windows);
    assert_eq!(d.web_server, "apache");
}

#[test]
fn paths_layout_windows() {
    let p = Paths::new(s("C:\\lax"), Platform::Windows);
    let cfg = LaxConfig::defaults(Platform::Windows);
    assert_eq!(p.config_file, "C:\\lax\\usr\\lax.toml");
    assert_eq!(p.www(&cfg), "C:\\lax\\www");
    assert_eq!(p.php_dir(&cfg), "C:\\lax\\bin\\php\\php-trash-8.2");
    assert_eq!(p.apache_dir(&cfg), "C:\\lax\\bin\\apache\\Apache24");
    assert_eq!(p.nginx_dir(&cfg), "C:\\lax\\bin\\nginx\\nginx-1.14.0");
    assert_eq!(p.mysql_dir(&cfg), "C:\\lax\\bin\\mysql\\mariadb-10.11.13");
    assert_eq!(p.datadir(), "C:\\lax\\data\\mariadb");
    assert_eq!(p.tmp(), "C:\\lax\\tmp");
    assert_eq!(p.tpl("vhost.tpl"), "C:\\lax\\usr\\tpl\\vhost.tpl");
    assert_eq!(p.at("etc/nginx"), "C:\\lax\\etc/nginx");
}

#[test]
fn paths_layout_unix_and_nested_document_root() {
    let p = Paths::new(s("/srv/lax/"), Platform::Unix);
    let mut cfg = LaxConfig::defaults(Platform::Unix);
    cfg.document_root = s("sites//public\\html");
    assert_eq!(p.config_file, "/srv/lax/usr/lax.toml");
    assert_eq!(p.www(&cfg), "/srv/lax/sites/public/html");
    cfg.document_root = s("");
    assert_eq!(p.www(&cfg), "/srv/lax/");
}

#[test]
fn runtime_dirs_in_order() {
    let p = Paths::new(s("/l"), Platform::Unix);
    let cfg = LaxConfig::defaults(Platform::Unix);
    let d = runtime_dirs(&p, &cfg);
    assert_eq!(
        d,
        vec![
            s("/l/www"),
            s("/l/tmp"),
            s("/l/data/mariadb"),
            s("/l/etc/apache2/sites-enabled"),
            s("/l/etc/nginx/sites-enabled"),
            s("/l/logs"),
            s("/l/etc/apps/phpMyAdmin/tmp"),
            s("/l/usr/apps/dbgate"),
            s("/l/data/dbgate"),
            s("/l/bin/apache/Apache24/logs"),
            s("/l/bin/nginx/nginx-1.28.3/logs"),
        ]
    );
}

#[test]
fn error_message_constructor() {
    match LaxError::msg(s("boom")) {
        LaxError::Msg(m) => assert_eq!(m, "boom"),
        _ => panic!("expected a message"),
    }
}

#[test]
fn hosts_file_location() {
    assert_eq!(hosts_path(Platform::Windows), "C:\\Windows\\System32\\drivers\\etc\\hosts");
    assert_eq!(hosts_path(Platform::Unix), "/etc/hosts");
}

#[test]
fn strip_removes_block_and_markers() {
    let raw = "127.0.0.1 localhost\n# LaX begin\n127.0.0.1 a.localhost\n  # LaX end  \n::1 localhost";
    assert_eq!(strip_block(raw), "127.0.0.1 localhost\n::1 localhost\n");
    assert_eq!(strip_block(""), "");
    assert_eq!(strip_block("# LaX begin\nx\n"), "");
}

#[test]
fn sync_writes_block() {
    let raw = "127.0.0.1 localhost\n\n\n";
    let names = vec![s("blog"), s("shop")];
    let out = sync_hosts(raw, &names, "test", true);
    assert_eq!(
        out,
        "127.0.0.1 localhost\n# LaX begin\n127.0.0.1 blog.test\n127.0.0.1 shop.test\n# LaX end\n"
    );
}

#[test]
fn sync_disabled_removes_block() {
    let raw = "127.0.0.1 localhost\n# LaX begin\n127.0.0.1 blog.test\n# LaX end\n";
    assert_eq!(sync_hosts(raw, &vec![s("blog")], "test", false), "127.0.0.1 localhost\n");
}

#[test]
fn sync_twice_is_sync_once() {
    let raw = "127.0.0.1 localhost\r\n# LaX begin\n127.0.0.1 old.test\n# LaX end\n10.0.0.1 nas\n";
    let names = vec![s("a"), s("b")];
    let once = sync_hosts(raw, &names, "localhost", true);
    let twice = sync_hosts(&once, &names, "localhost", true);
    assert_eq!(once, twice);
    let empty_once = sync_hosts("", &names, "localhost", true);
    assert_eq!(sync_hosts(&empty_once, &names, "localhost", true), empty_once);
}

#[test]
fn sync_twice_on_line_ending_cr_differs() {
    let once = sync_hosts("x\r\r\ny\n", &vec![], "t", false);
    assert_eq!(once, "x\r\ny\n");
    assert_eq!(sync_hosts(&once, &vec![], "t", false), "x\ny\n");
}
