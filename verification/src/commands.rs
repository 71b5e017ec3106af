//! What the window's buttons decide before they open something: which
//! configuration file a name means, and the command line a project action
//! runs in a terminal.
use vstd::prelude::*;
use crate::config::{LaxConfig, Paths};
use crate::paths::{join, join_path};
use crate::php::{php_ini_path};
use crate::platform::{bin};
use crate::projects::{is_safe_script, is_safe_script_spec};
use crate::text::{append_str, chars_of, eq_str, starts_with, starts_with_str, string_of, trim_start_pat, trim_start_pat_chars};

verus! {

/// The configuration file a name of the editor menu means: `php.ini`,
/// MariaDB's `my.ini`, Apache's `httpd.conf`, Nginx's `nginx.conf`, or the
/// stack's own settings; any other name is refused.
pub open spec fn ini_path_spec(paths: Paths, cfg: LaxConfig, which: Seq<char>) -> Result<Seq<char>, Seq<char>> {
    let p = paths.platform;
    let bin = join_path(paths.root@, "bin"@, p);
    if which == "php"@ {
        Ok(join_path(join_path(join_path(bin, "php"@, p), cfg.php_version@, p), "php.ini"@, p))
    } else if which == "mysql"@ || which == "mariadb"@ {
        Ok(join_path(join_path(join_path(bin, "mysql"@, p), cfg.mysql_version@, p), "my.ini"@, p))
    } else if which == "apache"@ {
        Ok(
            join_path(
                join_path(join_path(join_path(bin, "apache"@, p), cfg.apache_version@, p), "conf"@, p),
                "httpd.conf"@,
                p,
            ),
        )
    } else if which == "nginx"@ {
        Ok(
            join_path(
                join_path(join_path(join_path(bin, "nginx"@, p), cfg.nginx_version@, p), "conf"@, p),
                "nginx.conf"@,
                p,
            ),
        )
    } else if which == "lax"@ {
        Ok(paths.config_file@)
    } else {
        Err("unknown ini: "@ + which)
    }
}

pub fn ini_path(paths: &Paths, cfg: &LaxConfig, which: &str) -> (r: Result<String, String>)
    ensures
        match r {
            Ok(x) => ini_path_spec(*paths, *cfg, which@) == Ok::<Seq<char>, Seq<char>>(x@),
            Err(m) => ini_path_spec(*paths, *cfg, which@) == Err::<Seq<char>, Seq<char>>(m@),
        },
{
    let w = chars_of(which);
    let p = paths.platform;
    if eq_str(&w, "php") {
        Ok(php_ini_path(paths, cfg))
    } else if eq_str(&w, "mysql") || eq_str(&w, "mariadb") {
        let d = paths.mysql_dir(cfg);
        Ok(join(d.as_str(), "my.ini", p))
    } else if eq_str(&w, "apache") {
        let d = paths.apache_dir(cfg);
        let c = join(d.as_str(), "conf", p);
        Ok(join(c.as_str(), "httpd.conf", p))
    } else if eq_str(&w, "nginx") {
        let d = paths.nginx_dir(cfg);
        let c = join(d.as_str(), "conf", p);
        Ok(join(c.as_str(), "nginx.conf", p))
    } else if eq_str(&w, "lax") {
        Ok(paths.config_file.clone())
    } else {
        let mut m = chars_of("unknown ini: ");
        append_str(&mut m, which);
        Err(string_of(&m))
    }
}

/// The facts about a project folder that its actions check.
#[derive(Clone, Copy, Debug)]
pub struct ActionFacts {
    /// `package.json` exists.
    pub has_package: bool,
    /// `composer.json` exists.
    pub has_composer: bool,
    /// The bundled Composer entry point exists.
    pub has_composer_bin: bool,
}

/// The command line of a project action: `npm install` (needs
/// `package.json`), Composer's `install` (needs `composer.json`; the bundled
/// Composer in quotes when it exists), or `npm run <script>` for
/// `npm-run:<script>` with a safe script name (needs `package.json`); any
/// other action is refused.
pub open spec fn action_line_spec(action: Seq<char>, f: ActionFacts, composer: Seq<char>) -> Result<Seq<char>, Seq<char>> {
    if action == "npm-install"@ {
        if !f.has_package {
            Err("package.json не найден"@)
        } else {
            Ok("npm install"@)
        }
    } else if action == "composer-install"@ {
        if !f.has_composer {
            Err("composer.json не найден"@)
        } else if f.has_composer_bin {
            Ok("\""@ + composer + "\" install"@)
        } else {
            Ok("composer install"@)
        }
    } else if starts_with(action, "npm-run:"@) {
        let script = trim_start_pat(action, "npm-run:"@);
        if !is_safe_script_spec(script) {
            Err("недопустимое имя скрипта"@)
        } else if !f.has_package {
            Err("package.json не найден"@)
        } else {
            Ok("npm run "@ + script)
        }
    } else {
        Err("unknown action: "@ + action)
    }
}

/// The command line that a project action runs in a terminal in the
/// project folder; `composer` is the bundled Composer entry point.
pub fn project_action_line(action: &str, f: ActionFacts, composer: &str) -> (r: Result<String, String>)
    ensures
        match r {
            Ok(x) => action_line_spec(action@, f, composer@) == Ok::<Seq<char>, Seq<char>>(x@),
            Err(m) => action_line_spec(action@, f, composer@) == Err::<Seq<char>, Seq<char>>(m@),
        },
{
    let a = chars_of(action);
    if eq_str(&a, "npm-install") {
        if !f.has_package {
            return Err("package.json не найден".to_string());
        }
        Ok("npm install".to_string())
    } else if eq_str(&a, "composer-install") {
        if !f.has_composer {
            return Err("composer.json не найден".to_string());
        }
        if f.has_composer_bin {
            let mut v = chars_of("\"");
            append_str(&mut v, composer);
            append_str(&mut v, "\" install");
            Ok(string_of(&v))
        } else {
            Ok("composer install".to_string())
        }
    } else if starts_with_str(&a, "npm-run:") {
        let pat = chars_of("npm-run:");
        let script = string_of(&trim_start_pat_chars(&a, &pat));
        if !is_safe_script(script.as_str()) {
            return Err("недопустимое имя скрипта".to_string());
        }
        if !f.has_package {
            return Err("package.json не найден".to_string());
        }
        let mut v = chars_of("npm run ");
        append_str(&mut v, script.as_str());
        Ok(string_of(&v))
    } else {
        let mut m = chars_of("unknown action: ");
        append_str(&mut m, action);
        Err(string_of(&m))
    }
}

} // verus!
