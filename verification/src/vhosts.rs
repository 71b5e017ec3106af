//! The web server's site files: the default virtual host of each server, the
//! phpMyAdmin alias, the Nginx support files, the `Listen` port of Apache,
//! and the LaX theme of phpMyAdmin.
use vstd::prelude::*;
use crate::config::{LaxConfig, Paths};
use crate::paths::{FileWrite, join_path, join_unix_spec, unix, unix_spec, writes_view};
use crate::text::{CharSet, append_chars, append_str, chars_of, contains, contains_str, dec, dec_chars, ends_with, ends_with_str, find, find_chars, is_digit, is_ws, lemma_find, lemma_find_is, lemma_lines_no_newline, lemma_lines_unlines, lines, lines_of, no_newline, occurs_at, push_line, replace_all, replace_str, slice_chars, starts_with, starts_with_str, string_of, strip_cr, trim_start, trim_start_chars, unlines, views};

verus! {

// ---------------------------------------------------------------------------
// Apache's Listen port
// ---------------------------------------------------------------------------

/// A `Listen` line of `httpd.conf` other than the one for HTTPS: trimmed at
/// the start it begins with `Listen ` and does not mention `443`.
pub open spec fn is_listen_line(l: Seq<char>) -> bool {
    let t = trim_start(l);
    starts_with(t, "Listen "@) && !contains(t, "443"@)
}

/// `Listen <port>`.
pub open spec fn listen_directive(port: u16) -> Seq<char> {
    "Listen "@ + dec(port as nat)
}

/// The lines of `httpd.conf` with the first `Listen` line made `Listen
/// <port>` and the other ones dropped, and whether there was one.
pub open spec fn listen_lines(ls: Seq<Seq<char>>, port: u16) -> (Seq<Seq<char>>, bool)
    decreases ls.len(),
{
    if ls.len() == 0 {
        (Seq::empty(), false)
    } else {
        let (o, d) = listen_lines(ls.drop_last(), port);
        let l = ls.last();
        if is_listen_line(l) {
            if d {
                (o, true)
            } else {
                (o.push(listen_directive(port)), true)
            }
        } else {
            (o.push(l), d)
        }
    }
}

/// `httpd.conf` listening on `port`: its lines with the `Listen` line
/// replaced, or `Listen <port>` appended after an empty line when it had none.
pub open spec fn patched_listen(body: Seq<char>, port: u16) -> Seq<char> {
    let (o, d) = listen_lines(lines(body), port);
    if d {
        unlines(o)
    } else {
        unlines(o) + "\n"@ + listen_directive(port) + "\n"@
    }
}

fn listen_line_exec(port: u16) -> (r: Vec<char>)
    ensures
        r@ == listen_directive(port),
{
    let mut v = chars_of("Listen ");
    dec_chars(port as u64, &mut v);
    v
}

/// `httpd.conf` made to listen on `port`.
pub fn patch_apache_listen(body: &str, port: u16) -> (r: String)
    ensures
        r@ == patched_listen(body@, port),
{
    let ls = lines_of(body);
    let mut out: Vec<char> = Vec::new();
    let mut done = false;
    let mut i: usize = 0;
    let ghost mut o: Seq<Seq<char>> = Seq::empty();
    assert(views(ls@).take(0) =~= Seq::<Seq<char>>::empty());
    while i < ls.len()
        invariant
            i <= ls.len(),
            views(ls@) == lines(body@),
            listen_lines(views(ls@).take(i as int), port) == (o, done),
            out@ == unlines(o),
        decreases ls.len() - i,
    {
        let ghost lv = views(ls@).take(i + 1);
        proof {
            assert(lv.drop_last() =~= views(ls@).take(i as int));
            assert(lv.last() == ls@[i as int]@);
        }
        let t = trim_start_chars(&ls[i], CharSet::Whitespace);
        if starts_with_str(&t, "Listen ") && !contains_str(&t, "443") {
            if !done {
                let l = listen_line_exec(port);
                push_line(&mut out, &l);
                proof {
                    let o2 = o.push(listen_directive(port));
                    assert(o2.drop_last() =~= o);
                    o = o2;
                }
                done = true;
            }
        } else {
            push_line(&mut out, &ls[i]);
            proof {
                let o2 = o.push(ls@[i as int]@);
                assert(o2.drop_last() =~= o);
                o = o2;
            }
        }
        i += 1;
    }
    assert(views(ls@).take(ls.len() as int) =~= views(ls@));
    if !done {
        append_str(&mut out, "\n");
        let l = listen_line_exec(port);
        append_chars(&mut out, &l);
        append_str(&mut out, "\n");
    }
    string_of(&out)
}

/// The site files the stack generates itself are named `auto.*.conf`.
pub fn is_auto_conf(name: &str) -> (r: bool)
    ensures
        r == (starts_with(name@, "auto."@) && ends_with(name@, ".conf"@)),
{
    let v = chars_of(name);
    starts_with_str(&v, "auto.") && ends_with_str(&v, ".conf")
}

// ---------------------------------------------------------------------------
// Default sites
// ---------------------------------------------------------------------------

/// Apache's default site: the web root on `port` for `localhost`.
pub open spec fn apache_default_text(port: u16, www: Seq<char>) -> Seq<char> {
    "<VirtualHost *:"@ + dec(port as nat) + ">\n    DocumentRoot \""@ + www
        + "\"\n    ServerName localhost\n    <Directory \""@ + www
        + "\">\n        Options Indexes FollowSymLinks Includes ExecCGI\n        AllowOverride All\n        Require all granted\n    </Directory>\n</VirtualHost>\n"@
}

/// Nginx's default server: the web root on `port`, the aliases, PHP through
/// the upstream.
pub open spec fn nginx_default_text(port: u16, www: Seq<char>, root: Seq<char>) -> Seq<char> {
    "server {\n    listen "@ + dec(port as nat)
        + " default_server;\n    server_name localhost;\n    root \""@ + www
        + "\";\n    index index.html index.htm index.php;\n    client_max_body_size 2000M;\n    include \""@
        + root
        + "/etc/nginx/alias/*.conf\";\n\n    location / {\n        try_files $uri $uri/ /index.php$is_args$args;\n        autoindex on;\n    }\n\n    location ~ \\.php$ {\n        include \""@
        + root
        + "/etc/nginx/fastcgi_params\";\n        fastcgi_param SCRIPT_FILENAME $document_root$fastcgi_script_name;\n        fastcgi_index index.php;\n        fastcgi_pass php_upstream;\n    }\n\n    location = /favicon.ico { access_log off; log_not_found off; }\n    location ~ /\\.ht { deny all; }\n}\n"@
}

/// The default sites of both servers, with the web root and the root in
/// forward slashes.
pub fn default_sites(paths: &Paths, cfg: &LaxConfig) -> (r: Vec<FileWrite>)
    ensures
        writes_view(r@) == seq![
            (
                join_path(paths.root@, "etc/apache2/sites-enabled/00-default.conf"@, paths.platform),
                apache_default_text(
                    cfg.apache_port,
                    unix_spec(join_unix_spec(paths.root@, cfg.document_root@, paths.platform)),
                ),
            ),
            (
                join_path(paths.root@, "etc/nginx/sites-enabled/00-default.conf"@, paths.platform),
                nginx_default_text(
                    cfg.nginx_port,
                    unix_spec(join_unix_spec(paths.root@, cfg.document_root@, paths.platform)),
                    unix_spec(paths.root@),
                ),
            ),
        ],
{
    let wp = paths.www(cfg);
    let www = unix(wp.as_str());
    let root = unix(paths.root.as_str());
    let mut a = chars_of("<VirtualHost *:");
    dec_chars(cfg.apache_port as u64, &mut a);
    append_str(&mut a, ">\n    DocumentRoot \"");
    append_str(&mut a, www.as_str());
    append_str(&mut a, "\"\n    ServerName localhost\n    <Directory \"");
    append_str(&mut a, www.as_str());
    append_str(
        &mut a,
        "\">\n        Options Indexes FollowSymLinks Includes ExecCGI\n        AllowOverride All\n        Require all granted\n    </Directory>\n</VirtualHost>\n",
    );
    let mut n = chars_of("server {\n    listen ");
    dec_chars(cfg.nginx_port as u64, &mut n);
    append_str(&mut n, " default_server;\n    server_name localhost;\n    root \"");
    append_str(&mut n, www.as_str());
    append_str(
        &mut n,
        "\";\n    index index.html index.htm index.php;\n    client_max_body_size 2000M;\n    include \"",
    );
    append_str(&mut n, root.as_str());
    append_str(
        &mut n,
        "/etc/nginx/alias/*.conf\";\n\n    location / {\n        try_files $uri $uri/ /index.php$is_args$args;\n        autoindex on;\n    }\n\n    location ~ \\.php$ {\n        include \"",
    );
    append_str(&mut n, root.as_str());
    append_str(
        &mut n,
        "/etc/nginx/fastcgi_params\";\n        fastcgi_param SCRIPT_FILENAME $document_root$fastcgi_script_name;\n        fastcgi_index index.php;\n        fastcgi_pass php_upstream;\n    }\n\n    location = /favicon.ico { access_log off; log_not_found off; }\n    location ~ /\\.ht { deny all; }\n}\n",
    );
    let mut r: Vec<FileWrite> = Vec::new();
    r.push(FileWrite { path: paths.at("etc/apache2/sites-enabled/00-default.conf"), body: string_of(&a) });
    r.push(FileWrite { path: paths.at("etc/nginx/sites-enabled/00-default.conf"), body: string_of(&n) });
    assert(writes_view(r@) =~= seq![
        (
            join_path(paths.root@, "etc/apache2/sites-enabled/00-default.conf"@, paths.platform),
            apache_default_text(
                cfg.apache_port,
                unix_spec(join_unix_spec(paths.root@, cfg.document_root@, paths.platform)),
            ),
        ),
        (
            join_path(paths.root@, "etc/nginx/sites-enabled/00-default.conf"@, paths.platform),
            nginx_default_text(
                cfg.nginx_port,
                unix_spec(join_unix_spec(paths.root@, cfg.document_root@, paths.platform)),
                unix_spec(paths.root@),
            ),
        ),
    ]);
    r
}

// ---------------------------------------------------------------------------
// phpMyAdmin
// ---------------------------------------------------------------------------

/// An Nginx alias that serves the PHP application in `dir` under `url`.
pub open spec fn nginx_php_alias_text(url: Seq<char>, dir: Seq<char>, root: Seq<char>) -> Seq<char> {
    "location "@ + url + " {\n    alias "@ + dir + "/;\n    index index.php;\n}\n\nlocation ~ ^"@ + url
        + "/(.+\\.php)$ {\n    alias "@ + dir + "/$1;\n    include "@ + root
        + "/etc/nginx/fastcgi_params;\n    fastcgi_param SCRIPT_FILENAME $request_filename;\n    fastcgi_index index.php;\n    fastcgi_pass php_upstream;\n}\n"@
}

pub fn nginx_php_alias(url: &str, dir: &str, root: &str) -> (r: String)
    ensures
        r@ == nginx_php_alias_text(url@, dir@, root@),
{
    let mut v = chars_of("location ");
    append_str(&mut v, url);
    append_str(&mut v, " {\n    alias ");
    append_str(&mut v, dir);
    append_str(&mut v, "/;\n    index index.php;\n}\n\nlocation ~ ^");
    append_str(&mut v, url);
    append_str(&mut v, "/(.+\\.php)$ {\n    alias ");
    append_str(&mut v, dir);
    append_str(&mut v, "/$1;\n    include ");
    append_str(&mut v, root);
    append_str(
        &mut v,
        "/etc/nginx/fastcgi_params;\n    fastcgi_param SCRIPT_FILENAME $request_filename;\n    fastcgi_index index.php;\n    fastcgi_pass php_upstream;\n}\n",
    );
    string_of(&v)
}

/// Apache's alias for phpMyAdmin in `pma`, under `/phpmyadmin` and `/phpMyAdmin`.
pub open spec fn apache_pma_alias_text(pma: Seq<char>) -> Seq<char> {
    "Alias /phpmyadmin \""@ + pma + "/\"\nAlias /phpMyAdmin \""@ + pma + "/\"\n\n<Directory \""@ + pma
        + "/\">\n    Options Indexes FollowSymLinks ExecCGI\n    AllowOverride All\n    Require all granted\n    DirectoryIndex index.php\n</Directory>\n"@
}

/// The aliases that serve phpMyAdmin from `etc/apps/phpMyAdmin`, for both servers.
pub fn db_app_aliases(paths: &Paths) -> (r: Vec<FileWrite>)
    ensures
        writes_view(r@) == seq![
            (
                join_path(paths.root@, "etc/apache2/alias/phpmyadmin.conf"@, paths.platform),
                apache_pma_alias_text(unix_spec(paths.root@) + "/etc/apps/phpMyAdmin"@),
            ),
            (
                join_path(paths.root@, "etc/nginx/alias/phpmyadmin.conf"@, paths.platform),
                nginx_php_alias_text(
                    "/phpmyadmin"@,
                    unix_spec(paths.root@) + "/etc/apps/phpMyAdmin"@,
                    unix_spec(paths.root@),
                ),
            ),
        ],
{
    let root = unix(paths.root.as_str());
    let mut pv = chars_of(root.as_str());
    append_str(&mut pv, "/etc/apps/phpMyAdmin");
    let pma = string_of(&pv);
    let mut a = chars_of("Alias /phpmyadmin \"");
    append_str(&mut a, pma.as_str());
    append_str(&mut a, "/\"\nAlias /phpMyAdmin \"");
    append_str(&mut a, pma.as_str());
    append_str(&mut a, "/\"\n\n<Directory \"");
    append_str(&mut a, pma.as_str());
    append_str(
        &mut a,
        "/\">\n    Options Indexes FollowSymLinks ExecCGI\n    AllowOverride All\n    Require all granted\n    DirectoryIndex index.php\n</Directory>\n",
    );
    let n = nginx_php_alias("/phpmyadmin", pma.as_str(), root.as_str());
    let mut r: Vec<FileWrite> = Vec::new();
    r.push(FileWrite { path: paths.at("etc/apache2/alias/phpmyadmin.conf"), body: string_of(&a) });
    r.push(FileWrite { path: paths.at("etc/nginx/alias/phpmyadmin.conf"), body: n });
    assert(writes_view(r@) =~= seq![
        (
            join_path(paths.root@, "etc/apache2/alias/phpmyadmin.conf"@, paths.platform),
            apache_pma_alias_text(unix_spec(paths.root@) + "/etc/apps/phpMyAdmin"@),
        ),
        (
            join_path(paths.root@, "etc/nginx/alias/phpmyadmin.conf"@, paths.platform),
            nginx_php_alias_text(
                "/phpmyadmin"@,
                unix_spec(paths.root@) + "/etc/apps/phpMyAdmin"@,
                unix_spec(paths.root@),
            ),
        ),
    ]);
    r
}

/// The marker after which the LaX settings of phpMyAdmin's config stand.
pub open spec fn pma_mark() -> Seq<char> {
    "\n/* LaX theme */\n"@
}

/// phpMyAdmin's `config.inc.php` with the LaX settings (theme, logo,
/// navigation width) after the marker, replacing whatever followed an
/// earlier marker.
pub open spec fn patched_pma_config(body: Seq<char>) -> Seq<char> {
    let base = match find(body, pma_mark()) {
        Some(i) => body.take(i),
        None => body,
    };
    base + pma_mark()
        + "$cfg['ThemeDefault'] = 'lax';\n$cfg['NavigationDisplayLogo'] = true;\n$cfg['NavigationWidth'] = 268;\n"@
}

/// Patching phpMyAdmin's config again changes nothing, when the config
/// already holds the marker or the marker appended to it occurs nowhere
/// before the end of the config (it does when the config ends with the
/// marker's first line without its line end).
pub proof fn lemma_pma_config_idempotent(body: Seq<char>)
    requires
        contains(body, pma_mark()) || forall|j: int|
            0 <= j < body.len() ==> !occurs_at(body + pma_mark(), pma_mark(), j),
    ensures
        patched_pma_config(patched_pma_config(body)) == patched_pma_config(body),
{
    let m = pma_mark();
    let tail = "$cfg['ThemeDefault'] = 'lax';\n$cfg['NavigationDisplayLogo'] = true;\n$cfg['NavigationWidth'] = 268;\n"@;
    let p = patched_pma_config(body);
    lemma_find(body, m);
    let base = match find(body, m) {
        Some(i) => body.take(i),
        None => body,
    };
    let i = base.len() as int;
    assert(p == base + m + tail);
    assert(p.subrange(i, i + m.len()) =~= m);
    assert(occurs_at(p, m, i));
    assert forall|j: int| 0 <= j < i implies !occurs_at(p, m, j) by {
        if occurs_at(p, m, j) {
            match find(body, m) {
                Some(k) => {
                    assert(k == i);
                    assert forall|x: int| 0 <= x < m.len() implies #[trigger] p.subrange(j, j + m.len())[x]
                        == body.subrange(j, j + m.len())[x] by {
                        if j + x >= i {
                            assert(body.subrange(i, i + m.len())[j + x - i] == m[j + x - i]);
                        }
                    }
                    assert(p.subrange(j, j + m.len()) =~= body.subrange(j, j + m.len()));
                    assert(occurs_at(body, m, j));
                },
                None => {
                    assert(!contains(body, m));
                    assert(p.subrange(j, j + m.len()) =~= (body + m).subrange(j, j + m.len()));
                    assert(occurs_at(body + m, m, j));
                },
            }
        }
    }
    lemma_find_is(p, m, i);
    assert(p.take(i) =~= base);
}

pub fn patch_pma_config(body: &str) -> (r: String)
    ensures
        r@ == patched_pma_config(body@),
{
    let v = chars_of(body);
    let mark = chars_of("\n/* LaX theme */\n");
    let mut out = match find_chars(&v, &mark) {
        Some(i) => {
            proof {
                lemma_find(v@, mark@);
            }
            slice_chars(&v, 0, i)
        },
        None => v,
    };
    append_chars(&mut out, &mark);
    append_str(
        &mut out,
        "$cfg['ThemeDefault'] = 'lax';\n$cfg['NavigationDisplayLogo'] = true;\n$cfg['NavigationWidth'] = 268;\n",
    );
    string_of(&out)
}

/// The cache-busting version of the theme's style sheets in phpMyAdmin's
/// page header: each reference gets `lax=17`, older `lax=12`..`14` are raised.
pub open spec fn cache_busted(body: Seq<char>) -> Seq<char> {
    let b1 = replace_all(
        body,
        "href=\"{{ theme_path }}/jquery/jquery-ui.css\""@,
        "href=\"{{ theme_path }}/jquery/jquery-ui.css?lax=17\""@,
    );
    let b2 = replace_all(
        b1,
        "css/theme{{ text_dir == 'rtl' ? '.rtl' }}.css?{{ version }}\""@,
        "css/theme{{ text_dir == 'rtl' ? '.rtl' }}.css?{{ version }}&lax=17\""@,
    );
    let b3 = replace_all(b2, "jquery-ui.css?lax=12"@, "jquery-ui.css?lax=17"@);
    let b4 = replace_all(b3, "jquery-ui.css?lax=13"@, "jquery-ui.css?lax=17"@);
    let b5 = replace_all(b4, "jquery-ui.css?lax=14"@, "jquery-ui.css?lax=17"@);
    let b6 = replace_all(b5, "&lax=12"@, "&lax=17"@);
    let b7 = replace_all(b6, "&lax=13"@, "&lax=17"@);
    replace_all(b7, "&lax=14"@, "&lax=17"@)
}

pub fn patch_pma_css_cache_bust(body: &str) -> (r: String)
    ensures
        r@ == cache_busted(body@),
{
    proof {
        reveal_strlit("href=\"{{ theme_path }}/jquery/jquery-ui.css\"");
        reveal_strlit("css/theme{{ text_dir == 'rtl' ? '.rtl' }}.css?{{ version }}\"");
        reveal_strlit("jquery-ui.css?lax=12");
        reveal_strlit("jquery-ui.css?lax=13");
        reveal_strlit("jquery-ui.css?lax=14");
        reveal_strlit("&lax=12");
        reveal_strlit("&lax=13");
        reveal_strlit("&lax=14");
    }
    let v = chars_of(body);
    let b1 = replace_str(
        &v,
        "href=\"{{ theme_path }}/jquery/jquery-ui.css\"",
        "href=\"{{ theme_path }}/jquery/jquery-ui.css?lax=17\"",
    );
    let b2 = replace_str(
        &b1,
        "css/theme{{ text_dir == 'rtl' ? '.rtl' }}.css?{{ version }}\"",
        "css/theme{{ text_dir == 'rtl' ? '.rtl' }}.css?{{ version }}&lax=17\"",
    );
    let b3 = replace_str(&b2, "jquery-ui.css?lax=12", "jquery-ui.css?lax=17");
    let b4 = replace_str(&b3, "jquery-ui.css?lax=13", "jquery-ui.css?lax=17");
    let b5 = replace_str(&b4, "jquery-ui.css?lax=14", "jquery-ui.css?lax=17");
    let b6 = replace_str(&b5, "&lax=12", "&lax=17");
    let b7 = replace_str(&b6, "&lax=13", "&lax=17");
    let b8 = replace_str(&b7, "&lax=14", "&lax=17");
    string_of(&b8)
}

/// A style sheet of the LaX theme: phpMyAdmin's own one, then the LaX
/// overlay after a marker comment.
pub open spec fn lax_css_text(base: Seq<char>, overlay: Seq<char>) -> Seq<char> {
    base + "\n\n/* ---- LaX ---- */\n"@ + overlay
}

pub fn lax_css(base: &str, overlay: &str) -> (r: String)
    ensures
        r@ == lax_css_text(base@, overlay@),
{
    let mut v = chars_of(base);
    append_str(&mut v, "\n\n/* ---- LaX ---- */\n");
    append_str(&mut v, overlay);
    string_of(&v)
}

// ---------------------------------------------------------------------------
// Nginx support files
// ---------------------------------------------------------------------------

pub open spec fn fastcgi_params_text() -> Seq<char> {
    "fastcgi_param  QUERY_STRING       $query_string;\nfastcgi_param  REQUEST_METHOD     $request_method;\nfastcgi_param  CONTENT_TYPE       $content_type;\nfastcgi_param  CONTENT_LENGTH     $content_length;\nfastcgi_param  SCRIPT_NAME        $fastcgi_script_name;\nfastcgi_param  REQUEST_URI        $request_uri;\nfastcgi_param  DOCUMENT_URI       $document_uri;\nfastcgi_param  DOCUMENT_ROOT      $document_root;\nfastcgi_param  SERVER_PROTOCOL    $server_protocol;\nfastcgi_param  REQUEST_SCHEME     $scheme;\nfastcgi_param  HTTPS              $https if_not_empty;\nfastcgi_param  GATEWAY_INTERFACE  CGI/1.1;\nfastcgi_param  SERVER_SOFTWARE    nginx;\nfastcgi_param  REMOTE_ADDR        $remote_addr;\nfastcgi_param  REMOTE_PORT        $remote_port;\nfastcgi_param  SERVER_ADDR        $server_addr;\nfastcgi_param  SERVER_PORT        $server_port;\nfastcgi_param  SERVER_NAME        $server_name;\nfastcgi_param  REDIRECT_STATUS    200;\n"@
}

pub open spec fn mime_types_text() -> Seq<char> {
    "types {\n    text/html                             html htm shtml;\n    text/css                              css;\n    text/xml                              xml;\n    image/gif                             gif;\n    image/jpeg                            jpeg jpg;\n    application/javascript                js mjs;\n    application/atom+xml                  atom;\n    application/rss+xml                   rss;\n    text/plain                            txt;\n    image/png                             png;\n    image/svg+xml                         svg svgz;\n    image/webp                            webp;\n    image/x-icon                          ico;\n    application/json                      json;\n    application/wasm                      wasm;\n    application/pdf                       pdf;\n    application/zip                       zip;\n    application/gzip                      gz;\n    font/woff                             woff;\n    font/woff2                            woff2;\n    application/vnd.ms-fontobject         eot;\n    font/ttf                              ttf;\n    audio/mpeg                            mp3;\n    video/mp4                             mp4;\n    application/octet-stream              bin exe dll;\n}\n"@
}

/// `etc/nginx/fastcgi_params` and `etc/nginx/mime.types`.
pub fn nginx_support(paths: &Paths) -> (r: Vec<FileWrite>)
    ensures
        writes_view(r@) == seq![
            (join_path(paths.root@, "etc/nginx/fastcgi_params"@, paths.platform), fastcgi_params_text()),
            (join_path(paths.root@, "etc/nginx/mime.types"@, paths.platform), mime_types_text()),
        ],
{
    let mut r: Vec<FileWrite> = Vec::new();
    r.push(FileWrite { path: paths.at("etc/nginx/fastcgi_params"), body: "fastcgi_param  QUERY_STRING       $query_string;\nfastcgi_param  REQUEST_METHOD     $request_method;\nfastcgi_param  CONTENT_TYPE       $content_type;\nfastcgi_param  CONTENT_LENGTH     $content_length;\nfastcgi_param  SCRIPT_NAME        $fastcgi_script_name;\nfastcgi_param  REQUEST_URI        $request_uri;\nfastcgi_param  DOCUMENT_URI       $document_uri;\nfastcgi_param  DOCUMENT_ROOT      $document_root;\nfastcgi_param  SERVER_PROTOCOL    $server_protocol;\nfastcgi_param  REQUEST_SCHEME     $scheme;\nfastcgi_param  HTTPS              $https if_not_empty;\nfastcgi_param  GATEWAY_INTERFACE  CGI/1.1;\nfastcgi_param  SERVER_SOFTWARE    nginx;\nfastcgi_param  REMOTE_ADDR        $remote_addr;\nfastcgi_param  REMOTE_PORT        $remote_port;\nfastcgi_param  SERVER_ADDR        $server_addr;\nfastcgi_param  SERVER_PORT        $server_port;\nfastcgi_param  SERVER_NAME        $server_name;\nfastcgi_param  REDIRECT_STATUS    200;\n".to_string() });
    r.push(FileWrite { path: paths.at("etc/nginx/mime.types"), body: "types {\n    text/html                             html htm shtml;\n    text/css                              css;\n    text/xml                              xml;\n    image/gif                             gif;\n    image/jpeg                            jpeg jpg;\n    application/javascript                js mjs;\n    application/atom+xml                  atom;\n    application/rss+xml                   rss;\n    text/plain                            txt;\n    image/png                             png;\n    image/svg+xml                         svg svgz;\n    image/webp                            webp;\n    image/x-icon                          ico;\n    application/json                      json;\n    application/wasm                      wasm;\n    application/pdf                       pdf;\n    application/zip                       zip;\n    application/gzip                      gz;\n    font/woff                             woff;\n    font/woff2                            woff2;\n    application/vnd.ms-fontobject         eot;\n    font/ttf                              ttf;\n    audio/mpeg                            mp3;\n    video/mp4                             mp4;\n    application/octet-stream              bin exe dll;\n}\n".to_string() });
    assert(writes_view(r@) =~= seq![
        (join_path(paths.root@, "etc/nginx/fastcgi_params"@, paths.platform), fastcgi_params_text()),
        (join_path(paths.root@, "etc/nginx/mime.types"@, paths.platform), mime_types_text()),
    ]);
    r
}

/// What `listen_lines` leaves: every `Listen` line is `Listen <port>`, there
/// is at most one, and `d` says whether there is one.
pub open spec fn listen_clean(o: Seq<Seq<char>>, port: u16, d: bool) -> bool {
    &&& forall|i: int| 0 <= i < o.len() && is_listen_line(o[i]) ==> o[i] == listen_directive(port)
    &&& forall|i: int, j: int|
        0 <= i < j < o.len() ==> !(is_listen_line(o[i]) && is_listen_line(o[j]))
    &&& (d <==> exists|i: int| 0 <= i < o.len() && is_listen_line(o[i]))
}

proof fn lemma_listen_lines_clean(ls: Seq<Seq<char>>, port: u16)
    requires
        is_listen_line(listen_directive(port)),
    ensures
        listen_clean(listen_lines(ls, port).0, port, listen_lines(ls, port).1),
        forall|i: int|
            0 <= i < listen_lines(ls, port).0.len() ==> listen_lines(ls, port).0[i] == listen_directive(
                port,
            ) || ls.contains(#[trigger] listen_lines(ls, port).0[i]),
    decreases ls.len(),
{
    if ls.len() > 0 {
        let pre = ls.drop_last();
        lemma_listen_lines_clean(pre, port);
        let (o, d) = listen_lines(pre, port);
        let l = ls.last();
        let (o2, d2) = listen_lines(ls, port);
        assert forall|i: int| 0 <= i < o.len() implies o[i] == listen_directive(port) || ls.contains(
            o[i],
        ) by {
            if o[i] != listen_directive(port) {
                assert(pre.contains(o[i]));
                let k = choose|k: int| 0 <= k < pre.len() && pre[k] == o[i];
                assert(ls[k] == pre[k]);
            }
        }
        if !is_listen_line(l) || !d {
            let x = if is_listen_line(l) {
                listen_directive(port)
            } else {
                l
            };
            assert(o2 == o.push(x));
            assert(ls[ls.len() - 1] == l);
            assert forall|i: int| 0 <= i < o2.len() implies o2[i] == listen_directive(port)
                || ls.contains(#[trigger] o2[i]) by {
                if i < o.len() {
                    assert(o2[i] == o[i]);
                }
            }
            if is_listen_line(x) {
                assert(o2[o.len() as int] == x);
            }
            assert(d2 <==> exists|i: int| 0 <= i < o2.len() && is_listen_line(o2[i])) by {
                if d2 && !is_listen_line(x) {
                    let i = choose|i: int| 0 <= i < o.len() && is_listen_line(o[i]);
                    assert(o2[i] == o[i]);
                }
                if exists|i: int| 0 <= i < o2.len() && is_listen_line(o2[i]) {
                    let i = choose|i: int| 0 <= i < o2.len() && is_listen_line(o2[i]);
                    if i < o.len() {
                        assert(o2[i] == o[i]);
                    }
                }
            }
            assert forall|i: int, j: int| 0 <= i < j < o2.len() implies !(is_listen_line(o2[i])
                && is_listen_line(o2[j])) by {
                if j == o.len() && is_listen_line(o2[i]) && is_listen_line(o2[j]) {
                    assert(o2[i] == o[i]);
                    assert(is_listen_line(x));
                    assert(!d);
                }
                if j < o.len() {
                    assert(o2[i] == o[i] && o2[j] == o[j]);
                }
            }
            assert forall|i: int| 0 <= i < o2.len() && is_listen_line(o2[i]) implies o2[i]
                == listen_directive(port) by {
                if i < o.len() {
                    assert(o2[i] == o[i]);
                }
            }
        }
    }
}

proof fn lemma_listen_lines_fixed(o: Seq<Seq<char>>, port: u16, d: bool)
    requires
        listen_clean(o, port, d),
    ensures
        listen_lines(o, port) == (o, d),
    decreases o.len(),
{
    if o.len() == 0 {
        assert(!d);
    } else {
        let pre = o.drop_last();
        let dp = exists|i: int| 0 <= i < pre.len() && is_listen_line(pre[i]);
        assert(listen_clean(pre, port, dp)) by {
            assert forall|i: int| 0 <= i < pre.len() && is_listen_line(pre[i]) implies pre[i]
                == listen_directive(port) by {
                assert(pre[i] == o[i]);
            }
            assert forall|i: int, j: int| 0 <= i < j < pre.len() implies !(is_listen_line(pre[i])
                && is_listen_line(pre[j])) by {
                assert(pre[i] == o[i] && pre[j] == o[j]);
            }
        }
        lemma_listen_lines_fixed(pre, port, dp);
        let l = o.last();
        assert(o[o.len() - 1] == l);
        if is_listen_line(l) {
            if dp {
                let i = choose|i: int| 0 <= i < pre.len() && is_listen_line(pre[i]);
                assert(pre[i] == o[i]);
                assert(false);
            }
            assert(pre.push(listen_directive(port)) =~= o);
        } else {
            assert(pre.push(l) =~= o);
            assert(d == dp) by {
                if d {
                    let i = choose|i: int| 0 <= i < o.len() && is_listen_line(o[i]);
                    assert(i < pre.len());
                    assert(pre[i] == o[i]);
                }
                if dp {
                    let i = choose|i: int| 0 <= i < pre.len() && is_listen_line(pre[i]);
                    assert(pre[i] == o[i]);
                }
            }
        }
    }
}

/// The decimal form of a number is made of ASCII digits.
pub proof fn lemma_dec_digits(n: nat)
    ensures
        dec(n).len() > 0,
        forall|i: int| 0 <= i < dec(n).len() ==> is_digit(#[trigger] dec(n)[i]),
    decreases n,
{
    if n >= 10 {
        lemma_dec_digits(n / 10);
    }
}

proof fn lemma_listen_directive(port: u16)
    requires
        !contains(dec(port as nat), "443"@),
    ensures
        is_listen_line(listen_directive(port)),
        no_newline(listen_directive(port)),
        listen_directive(port).last() != '\r',
{
    let ld = listen_directive(port);
    let d = dec(port as nat);
    lemma_dec_digits(port as nat);
    reveal_strlit("Listen ");
    reveal_strlit("443");
    assert(!is_ws(ld[0]));
    assert(trim_start(ld) == ld);
    assert(ld.subrange(0, 7) =~= "Listen "@);
    assert forall|k: int| !occurs_at(ld, "443"@, k) by {
        if occurs_at(ld, "443"@, k) {
            assert(ld.subrange(k, k + 3)[0] == '4');
            assert(ld[k] == '4');
            if k < 7 {
                assert(ld[k] == "Listen "@[k]);
            } else {
                assert(d.subrange(k - 7, k - 4) =~= ld.subrange(k, k + 3));
                assert(occurs_at(d, "443"@, k - 7));
            }
        }
    }
    assert forall|i: int| 0 <= i < ld.len() implies ld[i] != '\n' by {
        if i >= 7 {
            assert(ld[i] == d[i - 7]);
        }
    }
    assert(ld.last() == d.last());
}

/// Lines joined with `'\n'` and split again come back unchanged when none
/// holds a `'\n'` or ends with `'\r'`.
proof fn lemma_lines_unlines_exact(ls: Seq<Seq<char>>)
    requires
        forall|i: int| 0 <= i < ls.len() ==> no_newline(#[trigger] ls[i]),
        forall|i: int| 0 <= i < ls.len() ==> !(ls[i].len() > 0 && ls[i].last() == '\r'),
    ensures
        lines(unlines(ls)) == ls,
{
    lemma_lines_unlines(ls);
    assert(ls.map_values(|l: Seq<char>| strip_cr(l)) =~= ls);
}

/// Setting Apache's port twice gives the file that setting it once gives,
/// for a `httpd.conf` none of whose lines ends with a `'\r'` and a port whose
/// decimal form does not contain `443`.
pub proof fn lemma_patch_listen_idempotent(body: Seq<char>, port: u16)
    requires
        forall|i: int|
            0 <= i < lines(body).len() ==> !(lines(body)[i].len() > 0 && #[trigger] lines(body)[i].last()
                == '\r'),
        !contains(dec(port as nat), "443"@),
    ensures
        patched_listen(patched_listen(body, port), port) == patched_listen(body, port),
{
    let ls = lines(body);
    let ld = listen_directive(port);
    lemma_listen_directive(port);
    lemma_lines_listen_clean_facts(ls, port);
    let (o, d) = listen_lines(ls, port);
    lemma_lines_no_newline(body);
    assert forall|i: int| 0 <= i < o.len() implies no_newline(#[trigger] o[i]) && !(o[i].len() > 0
        && o[i].last() == '\r') by {
        if o[i] != ld {
            let k = choose|k: int| 0 <= k < ls.len() && ls[k] == o[i];
            assert(no_newline(ls[k]));
        }
    }
    if d {
        lemma_lines_unlines_exact(o);
        lemma_listen_lines_fixed(o, port, true);
    } else {
        let o2 = o.push(Seq::empty()).push(ld);
        assert(o2.drop_last() =~= o.push(Seq::empty()));
        assert(o.push(Seq::<char>::empty()).drop_last() =~= o);
        let o1 = o.push(Seq::<char>::empty());
        assert(unlines(o1) == unlines(o) + Seq::<char>::empty() + seq!['\n']);
        assert(unlines(o2) == unlines(o1) + ld + seq!['\n']);
        assert(unlines(o2) =~= unlines(o) + "\n"@ + ld + "\n"@) by {
            reveal_strlit("\n");
        }
        assert forall|i: int| 0 <= i < o2.len() implies no_newline(#[trigger] o2[i]) && !(o2[i].len()
            > 0 && o2[i].last() == '\r') by {
            if i < o.len() {
                assert(o2[i] == o[i]);
            }
        }
        lemma_lines_unlines_exact(o2);
        assert(listen_clean(o2, port, true)) by {
            assert(o2[o2.len() - 1] == ld);
            assert forall|i: int| 0 <= i < o2.len() && is_listen_line(o2[i]) implies o2[i] == ld by {
                if i < o.len() {
                    assert(o2[i] == o[i]);
                    assert(!is_listen_line(o[i]));
                } else if i == o.len() {
                    assert(o2[i] == Seq::<char>::empty());
                    reveal_strlit("Listen ");
                    assert(trim_start(Seq::<char>::empty()) =~= Seq::<char>::empty());
                    assert(!is_listen_line(o2[i]));
                }
            }
            assert forall|i: int, j: int| 0 <= i < j < o2.len() implies !(is_listen_line(o2[i])
                && is_listen_line(o2[j])) by {
                if i < o.len() {
                    assert(o2[i] == o[i]);
                    assert(!is_listen_line(o[i]));
                } else {
                    assert(o2[i] == Seq::<char>::empty());
                }
            }
        }
        lemma_listen_lines_fixed(o2, port, true);
    }
}

proof fn lemma_lines_listen_clean_facts(ls: Seq<Seq<char>>, port: u16)
    requires
        is_listen_line(listen_directive(port)),
    ensures
        listen_clean(listen_lines(ls, port).0, port, listen_lines(ls, port).1),
        forall|i: int|
            0 <= i < listen_lines(ls, port).0.len() ==> listen_lines(ls, port).0[i] == listen_directive(
                port,
            ) || ls.contains(#[trigger] listen_lines(ls, port).0[i]),
{
    lemma_listen_lines_clean(ls, port);
}

} // verus!
