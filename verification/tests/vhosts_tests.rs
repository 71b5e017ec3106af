use lax::config::{LaxConfig, Paths};
use lax::platform::Platform;
use lax::vhosts::{
    db_app_aliases, default_sites, is_auto_conf, lax_css, nginx_php_alias, nginx_support,
    patch_apache_listen, patch_pma_config, patch_pma_css_cache_bust,
};

fn s(x: &str) -> String {
    x.to_string()
}

#[test]
fn listen_line_replaced_and_extra_ones_dropped() {
    let body = "ServerRoot x\nListen 80\n  Listen 8080\nListen 443\n";
    assert_eq!(patch_apache_listen(body, 8081), "ServerRoot x\nListen 8081\nListen 443\n");
}

#[test]
fn listen_line_appended_when_missing() {
    assert_eq!(patch_apache_listen("ServerRoot x\n", 80), "ServerRoot x\n\nListen 80\n");
    assert_eq!(patch_apache_listen("", 80), "\nListen 80\n");
}

#[test]
fn listen_patch_twice_is_once() {
    for body in ["a\nListen 80\nb", "a\n", "Listen 1\nListen 2\n"] {
        let once = patch_apache_listen(body, 8080);
        assert_eq!(patch_apache_listen(&once, 8080), once);
    }
}

#[test]
fn listen_patch_on_443_grows() {
    let once = patch_apache_listen("a\n", 443);
    let twice = patch_apache_listen(&once, 443);
    assert_ne!(once, twice);
}

#[test]
fn generated_site_names() {
    assert!(is_auto_conf("auto.blog.conf"));
    assert!(!is_auto_conf("00-default.conf"));
    assert!(!is_auto_conf("auto.blog.conf.bak"));
}

#[test]
fn default_sites_content() {
    let p = Paths::new(s("C:\\lax"), Platform::Windows);
    let cfg = LaxConfig::defaults(Platform::Windows);
    let w = default_sites(&p, &cfg);
    assert_eq!(w.len(), 2);
    assert_eq!(w[0].path, "C:\\lax\\etc/apache2/sites-enabled/00-default.conf");
    assert!(w[0].body.starts_with("<VirtualHost *:80>\n    DocumentRoot \"C:/lax/www\"\n"));
    assert_eq!(w[1].path, "C:\\lax\\etc/nginx/sites-enabled/00-default.conf");
    assert!(w[1].body.starts_with("server {\n    listen 80 default_server;\n"));
    assert!(w[1].body.contains("include \"C:/lax/etc/nginx/alias/*.conf\";"));
    assert!(w[1].body.contains("include \"C:/lax/etc/nginx/fastcgi_params\";"));
}

#[test]
fn phpmyadmin_aliases() {
    assert_eq!(
        nginx_php_alias("/pma", "/d", "/r"),
        "location /pma {\n    alias /d/;\n    index index.php;\n}\n\nlocation ~ ^/pma/(.+\\.php)$ {\n    alias /d/$1;\n    include /r/etc/nginx/fastcgi_params;\n    fastcgi_param SCRIPT_FILENAME $request_filename;\n    fastcgi_index index.php;\n    fastcgi_pass php_upstream;\n}\n"
    );
    let p = Paths::new(s("/l"), Platform::Unix);
    let w = db_app_aliases(&p);
    assert_eq!(w[0].path, "/l/etc/apache2/alias/phpmyadmin.conf");
    assert!(w[0].body.starts_with("Alias /phpmyadmin \"/l/etc/apps/phpMyAdmin/\"\nAlias /phpMyAdmin \"/l/etc/apps/phpMyAdmin/\"\n"));
    assert_eq!(w[1].path, "/l/etc/nginx/alias/phpmyadmin.conf");
    assert_eq!(w[1].body, nginx_php_alias("/phpmyadmin", "/l/etc/apps/phpMyAdmin", "/l"));
}

#[test]
fn phpmyadmin_config_patch() {
    let tail = "\n/* LaX theme */\n$cfg['ThemeDefault'] = 'lax';\n$cfg['NavigationDisplayLogo'] = true;\n$cfg['NavigationWidth'] = 268;\n";
    let once = patch_pma_config("<?php\n$cfg = [];");
    assert_eq!(once, format!("<?php\n$cfg = [];{tail}"));
    assert_eq!(patch_pma_config(&once), once);
    let old = "<?php\n/* LaX theme */\n$cfg['ThemeDefault'] = 'old';\n";
    assert_eq!(patch_pma_config(old), format!("<?php{tail}"));
}

#[test]
fn phpmyadmin_config_patch_on_unfinished_marker_grows() {
    let body = "<?php\n/* LaX theme */";
    let once = patch_pma_config(body);
    let twice = patch_pma_config(&once);
    assert_ne!(once, twice);
    assert_eq!(patch_pma_config(&twice), twice);
}

#[test]
fn theme_cache_busting() {
    let body = "<link href=\"{{ theme_path }}/jquery/jquery-ui.css\"> css/theme{{ text_dir == 'rtl' ? '.rtl' }}.css?{{ version }}\" jquery-ui.css?lax=13 x&lax=12";
    let out = patch_pma_css_cache_bust(body);
    assert_eq!(
        out,
        "<link href=\"{{ theme_path }}/jquery/jquery-ui.css?lax=17\"> css/theme{{ text_dir == 'rtl' ? '.rtl' }}.css?{{ version }}&lax=17\" jquery-ui.css?lax=17 x&lax=17"
    );
    assert_eq!(patch_pma_css_cache_bust(&out), out);
    assert_eq!(lax_css("a{}", "b{}"), "a{}\n\n/* ---- LaX ---- */\nb{}");
}

#[test]
fn nginx_support_files() {
    let p = Paths::new(s("/l"), Platform::Unix);
    let w = nginx_support(&p);
    assert_eq!(w[0].path, "/l/etc/nginx/fastcgi_params");
    assert!(w[0].body.starts_with("fastcgi_param  QUERY_STRING       $query_string;\n"));
    assert!(w[0].body.ends_with("fastcgi_param  REDIRECT_STATUS    200;\n"));
    assert_eq!(w[1].path, "/l/etc/nginx/mime.types");
    assert!(w[1].body.contains("application/wasm                      wasm;\n"));
}
