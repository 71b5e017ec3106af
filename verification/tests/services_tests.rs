use lax::config::{LaxConfig, Paths};
use lax::error::LaxError;
use lax::platform::Platform;
use lax::services::{
    apache_bin, apache_config_checked, apache_missing, apache_spawn, datadir_commands,
    datadir_outcome, datadir_ready, dbgate_install_check, dbgate_install_run, dbgate_installed,
    dbgate_package_json, dbgate_script, dbgate_spawn, mailpit_bin, mailpit_candidates,
    mailpit_spawn, mariadb_lib_dirs, mariadb_missing, mariadb_spawn, mysql_server_bin, nginx_args,
    nginx_bin, nginx_missing, nginx_prefix_conf, nginx_spawn, npm_cli, npm_cli_candidates,
    npm_failure, php_cgi_plan, php_fpm_conf, port_busy, port_timeout, InitOutcome,
    InstallerFiles, DBGATE_UI, MAILPIT_SMTP, MAILPIT_UI,
};

fn s(x: &str) -> String {
    x.to_string()
}

fn v(xs: &[&str]) -> Vec<String> {
    xs.iter().map(|x| x.to_string()).collect()
}

fn text(e: LaxError) -> String {
    match e {
        LaxError::Msg(m) => m,
        _ => panic!("expected a message"),
    }
}

fn unix() -> (Paths, LaxConfig) {
    (Paths::new(s("/l"), Platform::Unix), LaxConfig::defaults(Platform::Unix))
}

fn win() -> (Paths, LaxConfig) {
    (Paths::new(s("C:\\lax"), Platform::Windows), LaxConfig::defaults(Platform::Windows))
}

#[test]
fn ports_and_errors() {
    assert_eq!((MAILPIT_SMTP, MAILPIT_UI, DBGATE_UI), (1025, 8025, 8030));
    assert_eq!(text(port_busy(80, "stop Skype")), "port 80 is already in use — stop Skype");
    assert_eq!(text(port_timeout(3306)), "service did not open port 3306 in time");
}

#[test]
fn apache_service() {
    let (p, c) = win();
    assert_eq!(apache_bin(&p, &c), "C:\\lax\\bin\\apache\\Apache24\\bin\\httpd.exe");
    let sp = apache_spawn(&p, &c);
    assert_eq!(sp.name, "apache");
    assert!(sp.args.is_empty());
    assert_eq!(sp.cwd, "C:\\lax\\bin\\apache\\Apache24");
    assert!(sp.log.is_none());
    assert_eq!(text(apache_missing("C:\\x\\httpd.exe", Platform::Windows)), "binary not found: C:\\x\\httpd.exe");
    assert!(text(apache_missing("/x/httpd", Platform::Unix)).starts_with("Apache на Linux"));
    assert!(apache_config_checked(0, "Syntax OK").is_ok());
    match apache_config_checked(1, "bad line") {
        Err(e) => assert_eq!(text(e), "Apache config test failed:\nbad line"),
        Ok(_) => panic!(),
    }
}

#[test]
fn nginx_service() {
    let (p, c) = unix();
    assert_eq!(nginx_bin(&p, &c), "/l/bin/nginx/nginx-1.28.3/nginx");
    assert_eq!(nginx_args(&p, &c, false), v(&["-p", "/l/bin/nginx/nginx-1.28.3", "-c", "conf/nginx.conf"]));
    assert_eq!(nginx_args(&p, &c, true), v(&["-p", "/l/bin/nginx/nginx-1.28.3", "-c", "conf/nginx.conf", "-s", "stop"]));
    let (wp, wc) = win();
    assert!(nginx_args(&wp, &wc, false).is_empty());
    assert_eq!(nginx_args(&wp, &wc, true), v(&["-s", "stop"]));
    let sp = nginx_spawn(&p, &c);
    assert_eq!(sp.name, "nginx");
    assert_eq!(sp.cwd, "/l/bin/nginx/nginx-1.28.3");
    assert_eq!(text(nginx_missing("/n")), "nginx не найден: /n. На Linux: bash scripts/fetch-linux-stack.sh");
    let w = nginx_prefix_conf(&p, &c);
    assert_eq!(w.path, "/l/bin/nginx/nginx-1.28.3/conf/nginx.conf");
    assert!(w.body.contains("include /l/etc/nginx/mime.types;"));
    assert!(w.body.contains("include /l/etc/nginx/sites-enabled/*.conf;\n}\n"));
}

#[test]
fn mariadb_service() {
    let (p, c) = unix();
    assert_eq!(mysql_server_bin(&p, &c, true), "/l/bin/mysql/mariadb-11.4.12/bin/mariadbd");
    assert_eq!(mysql_server_bin(&p, &c, false), "/l/bin/mysql/mariadb-11.4.12/bin/mysqld");
    assert_eq!(text(mariadb_missing("/m")), "MariaDB не найден: /m. На Linux: bash scripts/fetch-linux-stack.sh");
    assert_eq!(mariadb_lib_dirs(&p, &c), v(&["/l/bin/mysql/mariadb-11.4.12/lib", "/l/bin/mysql/mariadb-11.4.12/lib/private"]));
    let env = vec![(s("LD_LIBRARY_PATH"), s("/x"))];
    let sp = mariadb_spawn(&p, &c, true, false, env.clone());
    assert_eq!(sp.name, "mariadb");
    assert_eq!(sp.args, v(&["--defaults-file=/l/bin/mysql/mariadb-11.4.12/my.ini", "--basedir=/l/bin/mysql/mariadb-11.4.12"]));
    assert_eq!(sp.cwd, "/l/bin/mysql/mariadb-11.4.12/bin");
    assert_eq!(sp.env, env);
    let (wp, wc) = win();
    let sw = mariadb_spawn(&wp, &wc, false, true, vec![]);
    assert_eq!(sw.program, "C:\\lax\\bin\\mysql\\mariadb-10.11.13\\bin\\mysqld.exe");
    assert_eq!(sw.args, v(&["--defaults-file=C:/lax/bin/mysql/mariadb-10.11.13/my.cnf"]));
}

#[test]
fn data_folder_setup() {
    assert!(datadir_ready(true, false));
    assert!(datadir_ready(false, true));
    assert!(!datadir_ready(false, false));
    let (p, c) = win();
    let both = InstallerFiles { exe: true, script: false };
    let none = InstallerFiles { exe: false, script: false };
    let script = InstallerFiles { exe: false, script: true };
    let cmds = datadir_commands(&p, &c, both, script, true);
    assert_eq!(cmds.len(), 3);
    assert_eq!(cmds[0].program, "C:\\lax\\bin\\mysql\\mariadb-10.11.13\\bin\\mariadb-install-db.exe");
    assert_eq!(cmds[0].args, v(&["--datadir=C:/lax/data/mariadb", "--password="]));
    assert!(!cmds[0].is_init);
    assert_eq!(cmds[1].program, "C:\\lax\\bin\\mysql\\mariadb-10.11.13\\scripts\\mysql_install_db");
    assert_eq!(cmds[2].program, "C:\\lax\\bin\\mysql\\mariadb-10.11.13\\bin\\mariadbd.exe");
    assert_eq!(cmds[2].args, v(&["--datadir=C:/lax/data/mariadb", "--initialize-insecure"]));
    assert!(cmds[2].is_init);
    let (up, uc) = unix();
    let only = datadir_commands(&up, &uc, none, none, false);
    assert_eq!(only.len(), 1);
    assert_eq!(
        only[0].args,
        v(&["--datadir=/l/data/mariadb", "--basedir=/l/bin/mysql/mariadb-11.4.12", "--initialize-insecure"])
    );
}

#[test]
fn data_folder_outcomes() {
    assert!(matches!(datadir_outcome(false, 0, "", false, false), InitOutcome::Ready));
    assert!(matches!(datadir_outcome(false, 1, "", true, false), InitOutcome::Ready));
    assert!(matches!(datadir_outcome(false, 1, "", false, true), InitOutcome::Next));
    assert!(matches!(datadir_outcome(true, 1, "", false, true), InitOutcome::Ready));
    match datadir_outcome(true, 1, "boom", false, false) {
        InitOutcome::Failed(m) => assert_eq!(m, "failed to initialize MariaDB datadir:\nboom"),
        _ => panic!(),
    }
}

#[test]
fn php_for_nginx() {
    let (p, c) = win();
    let (conf, spawns) = php_cgi_plan(&p, &c, true, false).unwrap();
    assert!(conf.is_none());
    assert_eq!(spawns.len(), 2);
    assert_eq!(spawns[0].name, "php-cgi-9003");
    assert_eq!(spawns[0].program, "C:\\lax\\bin\\php\\php-trash-8.2\\php-cgi.exe");
    assert_eq!(spawns[0].args, v(&["-b", "127.0.0.1:9003"]));
    assert_eq!(spawns[1].name, "php-cgi-9004");
    assert_eq!(spawns[0].env, vec![(s("PHPRC"), s("C:/lax/bin/php/php-trash-8.2"))]);
    let (up, mut uc) = unix();
    uc.php_cgi_ports = vec![];
    let (conf, spawns) = php_cgi_plan(&up, &uc, false, true).unwrap();
    let w = conf.unwrap();
    assert_eq!(w.path, "/l/tmp/php-fpm.conf");
    assert!(w.body.contains("listen = 127.0.0.1:9003\n"));
    assert_eq!(spawns[0].name, "php-cgi-9003");
    assert_eq!(spawns[0].program, "/l/bin/php/php-8.4/php-fpm");
    assert_eq!(spawns[0].args, v(&["-F", "-y", "/l/tmp/php-fpm.conf"]));
    match php_cgi_plan(&up, &uc, false, false) {
        Err(e) => assert_eq!(text(e), "PHP CGI/FPM не найден в /l/bin/php/php-8.4. На Linux: bash scripts/fetch-linux-stack.sh"),
        Ok(_) => panic!(),
    }
    let f = php_fpm_conf(&up, &uc, 9010);
    assert!(f.body.starts_with("[global]\npid = /l/tmp/php-fpm.pid\nerror_log = /l/logs/php-fpm.log\n"));
    assert!(f.body.ends_with("env[PHPRC] = /l/bin/php/php-8.4\n"));
}

#[test]
fn mailpit_service() {
    let (p, _) = win();
    assert_eq!(mailpit_candidates(&p), v(&["C:\\lax\\bin\\mailpit\\mailpit.exe", "C:\\lax\\bin\\mailpit.exe"]));
    assert_eq!(mailpit_bin(&p, true, true), Some(s("C:\\lax\\bin\\mailpit\\mailpit.exe")));
    assert_eq!(mailpit_bin(&p, false, true), Some(s("C:\\lax\\bin\\mailpit.exe")));
    assert_eq!(mailpit_bin(&p, false, false), None);
    let sp = mailpit_spawn(&p, "m.exe");
    assert_eq!(sp.name, "mailpit");
    assert_eq!(
        sp.args,
        v(&["--smtp", "0.0.0.0:1025", "--listen", "0.0.0.0:8025", "--smtp-auth-accept-any", "--database", "C:\\lax\\data\\mailpit.db", "--log-file", "C:\\lax\\logs\\mailpit.log"])
    );
    assert_eq!(sp.cwd, "C:\\lax");
}

#[test]
fn dbgate_install() {
    let (p, c) = unix();
    assert_eq!(dbgate_script(&p), "/l/usr/apps/dbgate/node_modules/dbgate-serve/bin/dbgate-serve.js");
    assert!(dbgate_package_json().contains("\"dbgate-serve\": \"7.2.5\""));
    assert_eq!(
        npm_cli_candidates("/n/bin", Some("/n"), Platform::Unix),
        v(&["/n/bin/node_modules/npm/bin/npm-cli.js", "/n/bin/lib/node_modules/npm/bin/npm-cli.js", "/n/lib/node_modules/npm/bin/npm-cli.js", "/n/node_modules/npm/bin/npm-cli.js"])
    );
    assert_eq!(npm_cli("/l/bin/node", Platform::Unix)[2], "/l/bin/lib/node_modules/npm/bin/npm-cli.js");
    let run = dbgate_install_run(&p, "/l/bin/node", "/npm-cli.js", Some("/usr/bin"));
    assert_eq!(run.program, "/l/bin/node/node");
    assert_eq!(run.args, v(&["/npm-cli.js", "install", "--omit=dev", "--no-fund", "--no-audit"]));
    assert_eq!(run.cwd, "/l/usr/apps/dbgate");
    assert_eq!(run.env[0], (s("PATH"), s("/l/bin/node:/usr/bin")));
    assert_eq!(run.env[1], (s("npm_config_cache"), s("/l/tmp/npm-cache")));
    let sp = dbgate_spawn(&p, &c, "/s.js", "/l/bin/node", None);
    assert_eq!(sp.name, "dbgate");
    assert_eq!(sp.args, v(&["/s.js"]));
    assert_eq!(sp.log, Some(s("/l/logs/dbgate.log")));
    assert!(sp.env.contains(&(s("PORT"), s("8030"))));
    assert!(sp.env.contains(&(s("PORT_mariadb"), s("3306"))));
    assert!(sp.env.contains(&(s("PATH"), s("/l/bin/node"))));
    assert!(sp.env.contains(&(s("HOME"), s("/l/data/dbgate"))));
}

#[test]
fn dbgate_errors() {
    assert_eq!(text(dbgate_install_check(false, true, true).unwrap()), "Node не найден в bin/node. Без него DbGate не ставится.");
    assert_eq!(text(dbgate_install_check(true, false, true).unwrap()), "node не найден рядом с bin/node");
    assert_eq!(text(dbgate_install_check(true, true, false).unwrap()), "npm не найден рядом с портативным Node");
    assert!(dbgate_install_check(true, true, true).is_none());
    assert!(dbgate_installed(true).is_ok());
    match dbgate_installed(false) {
        Err(e) => assert_eq!(text(e), "DbGate не появился после npm install. Проверь сеть и логи."),
        Ok(_) => panic!(),
    }
}

#[test]
fn npm_failure_messages() {
    assert_eq!(npm_failure("  \n"), "npm install dbgate-serve не удался");
    assert_eq!(npm_failure(" ERR! 404 \n"), "npm install DbGate:\nERR! 404");
    let long = format!("{}{}", "a".repeat(100), "b".repeat(800));
    assert_eq!(npm_failure(&long), format!("npm install DbGate:\n{}", "b".repeat(800)));
}

#[test]
fn npm_cli_uses_the_parent_of_the_node_folder() {
    let w = npm_cli("C:\\lax\\bin\\node", Platform::Windows);
    assert_eq!(w.len(), 4);
    assert!(w[2].starts_with("C:\\lax\\bin\\"));
    assert!(!w[2].starts_with("C:\\lax\\bin\\node"));
    let u = npm_cli("/opt/lax/bin/node", Platform::Unix);
    assert_eq!(u[2], "/opt/lax/bin/lib/node_modules/npm/bin/npm-cli.js");
    assert_eq!(u[3], "/opt/lax/bin/node_modules/npm/bin/npm-cli.js");
    let root = npm_cli("/", Platform::Unix);
    assert_eq!(root.len(), 4);
    assert_eq!(root[2], root[1]);
    assert_eq!(root[3], root[0]);
}
