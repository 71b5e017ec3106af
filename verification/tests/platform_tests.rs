use lax::paths::{components_chars, join, join_unix, parent_dir, root_candidates, root_markers, unix};
use lax::platform::{
    bin, bin_path, composer_candidates, composer_cmdline, composer_file, kill_image, kill_pid,
    open_editor_command, open_path_command, open_url, open_vscode_command, path_candidates,
    path_env, path_sep, strings, terminal_attempts, terminal_next, terminal_run, terminal_start,
    windows_terminal_args, Command, Platform, TerminalAction, TerminalOutcome,
};
use lax::text::{chars_of, string_of};

fn s(x: &str) -> String {
    x.to_string()
}

fn view(c: &Command) -> (String, Vec<String>) {
    (c.program.clone(), c.args.clone())
}

fn v(xs: &[&str]) -> Vec<String> {
    xs.iter().map(|x| x.to_string()).collect()
}

#[test]
fn executable_names() {
    assert_eq!(bin("httpd", Platform::Windows), "httpd.exe");
    assert_eq!(bin("composer.bat", Platform::Windows), "composer.bat");
    assert_eq!(bin("php.exe", Platform::Windows), "php.exe");
    assert_eq!(bin("httpd.exe", Platform::Unix), "httpd");
    assert_eq!(bin("composer.bat", Platform::Unix), "composer");
    assert_eq!(bin("nginx", Platform::Unix), "nginx");
    assert_eq!(bin_path("C:\\php", "php", Platform::Windows), "C:\\php\\php.exe");
    assert_eq!(bin_path("/opt/php/", "php", Platform::Unix), "/opt/php/php");
    assert_eq!(path_sep(Platform::Windows), ';');
    assert_eq!(path_sep(Platform::Unix), ':');
}

#[test]
fn joining_paths() {
    assert_eq!(join("/a", "b", Platform::Unix), "/a/b");
    assert_eq!(join("/a/", "b", Platform::Unix), "/a/b");
    assert_eq!(join("/a", "/b", Platform::Unix), "/b");
    assert_eq!(join("", "b", Platform::Unix), "b");
    assert_eq!(join("C:\\a", "b", Platform::Windows), "C:\\a\\b");
    assert_eq!(join("C:\\a", "D:\\x", Platform::Windows), "D:\\x");
    assert_eq!(join("C:\\a", "\\x", Platform::Windows), "\\x");
    assert_eq!(join("/a", "b\\c", Platform::Unix), "/a/b\\c");
    assert_eq!(unix("C:\\a\\b"), "C:/a/b");
    assert_eq!(join_unix("C:\\lax", "www/site", Platform::Windows), "C:\\lax\\www\\site");
    assert_eq!(join_unix("/l", "/abs//x/", Platform::Unix), "/l/abs/x");
}

#[test]
fn path_components() {
    let c = components_chars(&chars_of("/a/./b//../c"), Platform::Unix);
    let got: Vec<String> = c.iter().map(|x| string_of(x)).collect();
    assert_eq!(got, v(&["/", "a", "b", "..", "c"]));
    let c = components_chars(&chars_of("./x"), Platform::Unix);
    let got: Vec<String> = c.iter().map(|x| string_of(x)).collect();
    assert_eq!(got, v(&[".", "x"]));
    let c = components_chars(&chars_of("www\\a/b"), Platform::Windows);
    let got: Vec<String> = c.iter().map(|x| string_of(x)).collect();
    assert_eq!(got, v(&["www", "a", "b"]));
    assert!(components_chars(&chars_of(""), Platform::Unix).is_empty());
}

#[test]
fn portable_root_search() {
    assert_eq!(
        root_candidates("/opt/lax/bin", Platform::Unix),
        v(&["/opt/lax/bin", "/opt/lax/bin/..", "/opt/lax/bin/../..", "/opt/lax/bin/../../..", "/opt/lax/bin/../../../.."])
    );
    assert_eq!(
        root_markers("C:\\lax", Platform::Windows),
        v(&["C:\\lax\\usr\\lax.toml", "C:\\lax\\bin\\apache"])
    );
}

#[test]
fn kill_commands() {
    let w: Vec<_> = kill_pid(42, Platform::Windows).iter().map(view).collect();
    assert_eq!(w, vec![(s("taskkill"), v(&["/F", "/T", "/PID", "42"]))]);
    let u: Vec<_> = kill_pid(42, Platform::Unix).iter().map(view).collect();
    assert_eq!(
        u,
        vec![(s("kill"), v(&["-TERM", "--", "-42"])), (s("kill"), v(&["-KILL", "42"]))]
    );
    assert!(kill_pid(0, Platform::Unix).is_empty());
    assert!(kill_pid(0, Platform::Windows).is_empty());
    let w: Vec<_> = kill_image("httpd.exe", Platform::Windows).iter().map(view).collect();
    assert_eq!(w, vec![(s("taskkill"), v(&["/F", "/IM", "httpd.exe", "/T"]))]);
    let u: Vec<_> = kill_image("mailpit.exe", Platform::Unix).iter().map(view).collect();
    assert_eq!(u, vec![(s("pkill"), v(&["-f", "mailpit"]))]);
}

#[test]
fn open_url_only_http() {
    let c = open_url("  https://example.com ", Platform::Unix).unwrap();
    assert_eq!(view(&c), (s("xdg-open"), v(&["https://example.com"])));
    let c = open_url("http://a.localhost", Platform::Windows).unwrap();
    assert_eq!(view(&c), (s("cmd.exe"), v(&["/C", "start", "", "http://a.localhost"])));
    assert_eq!(
        open_url("file:///etc/passwd", Platform::Unix).unwrap_err(),
        "разрешены только http(s) ссылки"
    );
    assert!(open_url("javascript:alert(1)", Platform::Windows).is_err());
}

#[test]
fn open_commands() {
    assert_eq!(view(&open_path_command("C:\\lax", Platform::Windows)), (s("explorer.exe"), v(&["C:\\lax"])));
    assert_eq!(view(&open_path_command("/l", Platform::Unix)), (s("xdg-open"), v(&["/l"])));
    assert_eq!(view(&open_editor_command("a.ini", Platform::Windows)), (s("notepad.exe"), v(&["a.ini"])));
    assert_eq!(view(&open_editor_command("a.ini", Platform::Unix)), (s("xdg-open"), v(&["a.ini"])));
    assert_eq!(view(&open_vscode_command("d", Platform::Windows)), (s("cmd.exe"), v(&["/C", "code", "d"])));
    assert_eq!(view(&open_vscode_command("d", Platform::Unix)), (s("code"), v(&["d"])));
}

#[test]
fn terminal_environment() {
    assert_eq!(path_env(Some("/t/php:/t/node"), "/usr/bin", Platform::Unix), Some(s("/t/php:/t/node:/usr/bin")));
    assert_eq!(path_env(Some("C:\\php"), "C:\\Windows", Platform::Windows), Some(s("C:\\php;C:\\Windows")));
    assert_eq!(path_env(Some(""), "/usr/bin", Platform::Unix), None);
    assert_eq!(path_env(None, "/usr/bin", Platform::Unix), None);
    assert_eq!(windows_terminal_args(Some("npm i")), v(&["/K", "npm i"]));
    assert_eq!(windows_terminal_args(None), v(&["/K"]));
    assert_eq!(terminal_run(Some("npm i"), "/bin/zsh"), "npm i; exec /bin/zsh");
    assert_eq!(terminal_run(None, "bash"), "exec bash");
}

#[test]
fn terminal_emulators_in_order() {
    let t = terminal_attempts("/w", "echo \"hi\"");
    let names: Vec<String> = t.iter().map(|c| c.program.clone()).collect();
    assert_eq!(
        names,
        v(&["gnome-terminal", "ptyxis", "konsole", "xfce4-terminal", "kitty", "x-terminal-emulator", "xterm"])
    );
    assert_eq!(t[0].args, v(&["--working-directory", "/w", "--", "bash", "-lc", "echo \"hi\""]));
    assert_eq!(t[3].args, v(&["--working-directory=/w", "-e", "bash -lc \"echo \\\"hi\\\"\""]));
    assert_eq!(t[4].args, v(&["--directory=/w", "bash", "-lc", "echo \"hi\""]));
}

#[test]
fn path_lookup_candidates() {
    assert_eq!(path_candidates("/usr/bin:/bin", "node"), v(&["/usr/bin/node", "/bin/node"]));
    assert_eq!(path_candidates("", "node"), v(&["node"]));
}

#[test]
fn composer_lookup() {
    assert_eq!(
        composer_candidates("/l", Platform::Unix),
        v(&["/l/bin/composer/composer.bat", "/l/bin/composer/composer", "/l/bin/composer/composer.phar"])
    );
    assert_eq!(composer_file("/l", Platform::Unix, true, false, true), "/l/bin/composer/composer.phar");
    assert_eq!(composer_file("C:\\l", Platform::Windows, true, true, true), "C:\\l\\bin\\composer\\composer.bat");
    assert_eq!(composer_file("/l", Platform::Unix, false, false, false), "/l/bin/composer/composer.bat");
    assert_eq!(
        composer_cmdline("/l", "/l/bin/php/php-8.4", Platform::Unix, false, false, true, true),
        "\"/l/bin/php/php-8.4/php\" \"/l/bin/composer/composer.phar\""
    );
    assert_eq!(composer_cmdline("/l", "/p", Platform::Unix, false, true, true, true), "\"/l/bin/composer/composer\"");
    assert_eq!(composer_cmdline("/l", "/p", Platform::Unix, false, false, true, false), "composer");
    assert_eq!(
        composer_cmdline("C:\\l", "C:\\p", Platform::Windows, true, false, false, false),
        "\"C:\\l\\bin\\composer\\composer.bat\""
    );
    assert_eq!(strings(&["a", "b"]), v(&["a", "b"]));
}

#[test]
fn parent_dir_matches_std_on_unix_paths() {
    let cases = [
        "/a/b", "/a", "/", "", "a", "a/b/", "a/./b", "./a", ".", "./.", "..", "a/..", "//a",
        "a//b", "/a/b/.", "a/b/c.txt", "../x", "/a/./", "./",
    ];
    for c in cases {
        let want = std::path::Path::new(c).parent().map(|q| q.to_str().unwrap().to_string());
        assert_eq!(parent_dir(c, Platform::Unix), want, "parent of {c:?}");
    }
}

#[test]
fn parent_dir_on_windows_paths() {
    assert_eq!(parent_dir("C:\\lax\\bin\\node", Platform::Windows), Some(s("C:\\lax\\bin")));
    assert_eq!(parent_dir("C:\\lax", Platform::Windows), Some(s("C:\\")));
    assert_eq!(parent_dir("C:\\", Platform::Windows), None);
    assert_eq!(parent_dir("C:", Platform::Windows), None);
    assert_eq!(parent_dir("C:x", Platform::Windows), Some(s("C:")));
    assert_eq!(parent_dir("C:.\\x", Platform::Windows), Some(s("C:.")));
    assert_eq!(parent_dir("a/b\\c", Platform::Windows), Some(s("a/b")));
}

#[test]
fn terminal_attempts_in_order_then_shell() {
    assert_eq!(terminal_start(3), TerminalAction::Try(0));
    assert_eq!(terminal_start(0), TerminalAction::Fallback);
    assert_eq!(terminal_next(3, 0, TerminalOutcome::Missing), TerminalAction::Try(1));
    assert_eq!(terminal_next(3, 1, TerminalOutcome::Failed), TerminalAction::Try(2));
    assert_eq!(terminal_next(3, 2, TerminalOutcome::Failed), TerminalAction::Fallback);
    assert_eq!(terminal_next(3, 1, TerminalOutcome::Started), TerminalAction::Done);
}
