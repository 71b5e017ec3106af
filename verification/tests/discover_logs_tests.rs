use lax::config::{LaxConfig, Paths};
use lax::discover::{
    apache_versions, list_subdirs, listener_name, mysql_versions, netstat_pid, nginx_versions,
    lsof_pid, node_dirs, php_versions, ss_pid, tasklist_name, tools_path_prefix,
};
use lax::logs::{log_file, no_log_yet, tail_log, tail_offset};
use lax::platform::Platform;

fn s(x: &str) -> String {
    x.to_string()
}

fn v(xs: &[&str]) -> Vec<String> {
    xs.iter().map(|x| x.to_string()).collect()
}

#[test]
fn versions_sorted() {
    assert_eq!(list_subdirs(v(&["php-8.3", "php-7.4", "php-8.2"])), v(&["php-7.4", "php-8.2", "php-8.3"]));
    assert_eq!(mysql_versions(v(&["mariadb-11", "mariadb-10"])), v(&["mariadb-10", "mariadb-11"]));
    assert_eq!(nginx_versions(v(&["b", "a"])), v(&["a", "b"]));
    assert_eq!(apache_versions(v(&[])), v(&[]));
    assert_eq!(
        php_versions(&v(&["php-7.4", "php-8.2", "tmp"]), &vec![true, true, false]),
        v(&["php-7.4", "php-8.2"])
    );
}

#[test]
fn tool_folders() {
    assert_eq!(node_dirs("/l", Platform::Unix), v(&["/l/bin/node", "/l/bin/nodejs"]));
    assert_eq!(tools_path_prefix(Some("C:\\php"), Some("C:\\node"), Platform::Windows), "C:\\php;C:\\node");
    assert_eq!(tools_path_prefix(None, Some("/n"), Platform::Unix), "/n");
    assert_eq!(tools_path_prefix(Some("/p"), None, Platform::Unix), "/p");
    assert_eq!(tools_path_prefix(None, None, Platform::Unix), "");
}

#[test]
fn netstat_listener() {
    let out = "\nActive Connections\n\n  Proto  Local Address    Foreign Address  State       PID\n  TCP    0.0.0.0:8080     0.0.0.0:0        LISTENING   111\n  TCP    0.0.0.0:80       0.0.0.0:0        LISTENING   4242\n  TCP    [::]:80          [::]:0           LISTENING   9\n";
    assert_eq!(netstat_pid(out, 80), Some(4242));
    assert_eq!(netstat_pid(out, 8080), Some(111));
    assert_eq!(netstat_pid(out, 443), None);
    assert_eq!(netstat_pid("  TCP 127.0.0.1:80 0.0.0.0:0 LISTENING x\n", 80), None);
    assert_eq!(netstat_pid("", 80), None);
}

#[test]
fn tasklist_image() {
    assert_eq!(tasklist_name("\"httpd.exe\",\"4242\",\"Console\",\"1\",\"12,000 K\"\r\n"), Some(s("httpd.exe")));
    assert_eq!(tasklist_name("INFO: No tasks are running which match the specified criteria.\n"), None);
    assert_eq!(tasklist_name(""), None);
    assert_eq!(tasklist_name("\"\"\n"), None);
}

#[test]
fn ss_listener() {
    let out = "State  Recv-Q Send-Q Local Address:Port Peer Address:Port Process\nLISTEN 0 511 0.0.0.0:8080 0.0.0.0:* users:((\"nginx\",pid=777,fd=6),(\"nginx\",pid=778,fd=6))\n";
    assert_eq!(ss_pid(out), Some(777));
    assert_eq!(ss_pid("LISTEN 0 511 0.0.0.0:8080 0.0.0.0:*\n"), None);
    assert_eq!(ss_pid("pid=abc"), None);
}

#[test]
fn listener_names() {
    assert_eq!(listener_name(4, Some(s("System")), Platform::Windows), "System");
    assert_eq!(listener_name(4, None, Platform::Windows), "PID 4");
    assert_eq!(listener_name(77, Some(s("ignored")), Platform::Unix), "pid 77");
}

#[test]
fn log_files() {
    let p = Paths::new(s("/l"), Platform::Unix);
    let cfg = LaxConfig::defaults(Platform::Unix);
    assert_eq!(log_file(&p, &cfg, "apache"), "/l/bin/apache/Apache24/logs/error.log");
    assert_eq!(log_file(&p, &cfg, "apache-access"), "/l/bin/apache/Apache24/logs/access.log");
    assert_eq!(log_file(&p, &cfg, "nginx"), "/l/bin/nginx/nginx-1.28.3/logs/error.log");
    assert_eq!(log_file(&p, &cfg, "mysql"), "/l/data/mariadb/mysql.err");
    assert_eq!(log_file(&p, &cfg, "mariadb"), "/l/data/mariadb/mysql.err");
    assert_eq!(log_file(&p, &cfg, "php"), "/l/tmp/php_errors.log");
    assert_eq!(log_file(&p, &cfg, "mailpit"), "/l/logs/mailpit.log");
    assert_eq!(log_file(&p, &cfg, "lax"), "/l/logs/lax.log");
    assert_eq!(log_file(&p, &cfg, "whatever"), "/l/bin/apache/Apache24/logs/error.log");
    assert_eq!(no_log_yet("/l/x.log"), "(no log yet: /l/x.log)");
}

#[test]
fn log_tail() {
    assert_eq!(tail_offset(100), 0);
    assert_eq!(tail_offset(120000), 0);
    assert_eq!(tail_offset(120005), 5);
    assert_eq!(tail_log("a\nb\r\nc\nd\n", 2), "c\nd");
    assert_eq!(tail_log("a\nb", 10), "a\nb");
    assert_eq!(tail_log("a\nb", 0), "");
    assert_eq!(tail_log("", 5), "");
}

#[test]
fn lsof_listener_pid() {
    assert_eq!(lsof_pid("p4242\ncnginx\n"), Some(4242));
    assert_eq!(lsof_pid("f12\np77\np88\n"), Some(77));
    assert_eq!(lsof_pid("cnginx\n"), None);
    assert_eq!(lsof_pid(""), None);
    assert_eq!(lsof_pid("pabc\n"), None);
    assert_eq!(lsof_pid("p99999999999\n"), None);
}
