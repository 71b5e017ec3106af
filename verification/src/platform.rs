//! What differs between the Windows stack and the Unix one: executable
//! names, the path list separator, the hosts file, how programs are started
//! and stopped. The host platform is a value here; the application passes
//! the one it was built for.
use vstd::prelude::*;
use crate::paths::{join, join_chars_path, join_path};
use crate::text::{Sep, append_str, chars_of, dec, dec_string, ends_with, ends_with_str, split, split_chars, starts_with, starts_with_str, string_of, trim, trim_end_pat, trim_end_pat_chars, trim_str, views};

verus! {

/// The operating system the stack runs on.
#[derive(Clone, Copy, Debug, PartialEq, Eq, Structural)]
pub enum Platform {
    Windows,
    Unix,
}

/// A program to start and its arguments.
#[derive(Clone, Debug)]
pub struct Command {
    pub program: String,
    pub args: Vec<String>,
}

/// The view of a command: its program and arguments as character sequences.
pub open spec fn command_view(c: Command) -> (Seq<char>, Seq<Seq<char>>) {
    (c.program@, c.args@.map_values(|a: String| a@))
}

pub open spec fn commands_view(cs: Seq<Command>) -> Seq<(Seq<char>, Seq<Seq<char>>)> {
    cs.map_values(|c: Command| command_view(c))
}

/// `httpd` on Unix, `httpd.exe` on Windows.
pub open spec fn bin_name(name: Seq<char>, platform: Platform) -> Seq<char> {
    match platform {
        Platform::Windows => if ends_with(name, ".exe"@) || ends_with(name, ".bat"@) {
            name
        } else {
            name + ".exe"@
        },
        Platform::Unix => trim_end_pat(trim_end_pat(name, ".exe"@), ".bat"@),
    }
}

/// The file name of an executable on `platform`.
pub fn bin(name: &str, platform: Platform) -> (r: String)
    ensures
        r@ == bin_name(name@, platform),
{
    let v = chars_of(name);
    match platform {
        Platform::Windows => {
            if ends_with_str(&v, ".exe") || ends_with_str(&v, ".bat") {
                string_of(&v)
            } else {
                let mut w = v;
                append_str(&mut w, ".exe");
                string_of(&w)
            }
        },
        Platform::Unix => {
            let exe = chars_of(".exe");
            let bat = chars_of(".bat");
            let a = trim_end_pat_chars(&v, &exe);
            let b = trim_end_pat_chars(&a, &bat);
            string_of(&b)
        },
    }
}

/// The separator of the `PATH` list.
pub open spec fn path_sep_of(platform: Platform) -> char {
    match platform {
        Platform::Windows => ';',
        Platform::Unix => ':',
    }
}

pub fn path_sep(platform: Platform) -> (c: char)
    ensures
        c == path_sep_of(platform),
{
    match platform {
        Platform::Windows => ';',
        Platform::Unix => ':',
    }
}

pub open spec fn hosts_path_of(platform: Platform) -> Seq<char> {
    match platform {
        Platform::Windows => "C:\\Windows\\System32\\drivers\\etc\\hosts"@,
        Platform::Unix => "/etc/hosts"@,
    }
}

/// Where the system hosts file lives.
pub fn hosts_path(platform: Platform) -> (r: &'static str)
    ensures
        r@ == hosts_path_of(platform),
{
    match platform {
        Platform::Windows => "C:\\Windows\\System32\\drivers\\etc\\hosts",
        Platform::Unix => "/etc/hosts",
    }
}

/// `dir` joined with the executable name of `name`.
pub fn bin_path(dir: &str, name: &str, platform: Platform) -> (r: String)
    ensures
        r@ == join_path(dir@, bin_name(name@, platform), platform),
{
    let b = bin(name, platform);
    join(dir, b.as_str(), platform)
}

/// The commands that end the process `pid` and its children: none for pid
/// 0; `taskkill /F /T /PID` on Windows; on Unix `TERM` to its process group,
/// then `KILL` to it.
pub open spec fn kill_pid_spec(pid: u32, platform: Platform) -> Seq<(Seq<char>, Seq<Seq<char>>)> {
    if pid == 0 {
        Seq::empty()
    } else {
        match platform {
            Platform::Windows => seq![("taskkill"@, seq!["/F"@, "/T"@, "/PID"@, dec(pid as nat)])],
            Platform::Unix => seq![
                ("kill"@, seq!["-TERM"@, "--"@, "-"@ + dec(pid as nat)]),
                ("kill"@, seq!["-KILL"@, dec(pid as nat)]),
            ],
        }
    }
}

fn cmd(program: &str, args: Vec<String>) -> (c: Command)
    ensures
        c.program@ == program@,
        c.args == args,
{
    Command { program: program.to_string(), args }
}

/// Appends `s`.
pub fn push_string(v: &mut Vec<String>, s: String)
    ensures
        final(v)@.map_values(|x: String| x@) == old(v)@.map_values(|x: String| x@).push(s@),
{
    let ghost o = v@;
    v.push(s);
    assert(v@.map_values(|x: String| x@) =~= o.map_values(|x: String| x@).push(s@));
}

/// Appends the command `c`.
pub fn push_command(v: &mut Vec<Command>, c: Command)
    ensures
        commands_view(final(v)@) == commands_view(old(v)@).push(command_view(c)),
{
    let ghost o = v@;
    v.push(c);
    assert(commands_view(v@) =~= commands_view(o).push(command_view(c)));
}

fn strings2(a: &str, b: &str) -> (r: Vec<String>)
    ensures
        r@.map_values(|s: String| s@) == seq![a@, b@],
{
    let mut r: Vec<String> = Vec::new();
    r.push(a.to_string());
    r.push(b.to_string());
    assert(r@.map_values(|s: String| s@) =~= seq![a@, b@]);
    r
}

/// The commands that end the process `pid` and its children.
pub fn kill_pid(pid: u32, platform: Platform) -> (r: Vec<Command>)
    ensures
        commands_view(r@) == kill_pid_spec(pid, platform),
{
    let mut r: Vec<Command> = Vec::new();
    if pid == 0 {
        assert(commands_view(r@) =~= kill_pid_spec(pid, platform));
        return r;
    }
    let n = dec_string(pid as u64);
    match platform {
        Platform::Windows => {
            let mut a = strings2("/F", "/T");
            push_string(&mut a, "/PID".to_string());
            push_string(&mut a, n);
            assert(a@.map_values(|s: String| s@) =~= seq!["/F"@, "/T"@, "/PID"@, dec(pid as nat)]);
            r.push(cmd("taskkill", a));
        },
        Platform::Unix => {
            let mut neg = chars_of("-");
            append_str(&mut neg, n.as_str());
            let mut a = strings2("-TERM", "--");
            push_string(&mut a, string_of(&neg));
            assert(a@.map_values(|s: String| s@) =~= seq!["-TERM"@, "--"@, "-"@ + dec(pid as nat)]);
            r.push(cmd("kill", a));
            let b = strings2("-KILL", n.as_str());
            r.push(cmd("kill", b));
        },
    }
    assert(commands_view(r@) =~= kill_pid_spec(pid, platform));
    r
}

/// The commands that end every process of an executable: `taskkill /F /IM
/// <image> /T` on Windows, `pkill -f <image without .exe>` on Unix.
pub open spec fn kill_image_spec(image: Seq<char>, platform: Platform) -> Seq<(Seq<char>, Seq<Seq<char>>)> {
    match platform {
        Platform::Windows => seq![("taskkill"@, seq!["/F"@, "/IM"@, image, "/T"@])],
        Platform::Unix => seq![("pkill"@, seq!["-f"@, trim_end_pat(image, ".exe"@)])],
    }
}

/// The commands that end every process of an executable.
pub fn kill_image(image: &str, platform: Platform) -> (r: Vec<Command>)
    ensures
        commands_view(r@) == kill_image_spec(image@, platform),
{
    let mut r: Vec<Command> = Vec::new();
    match platform {
        Platform::Windows => {
            let mut a = strings2("/F", "/IM");
            push_string(&mut a, image.to_string());
            push_string(&mut a, "/T".to_string());
            assert(a@.map_values(|s: String| s@) =~= seq!["/F"@, "/IM"@, image@, "/T"@]);
            r.push(cmd("taskkill", a));
        },
        Platform::Unix => {
            let v = chars_of(image);
            let exe = chars_of(".exe");
            let name = trim_end_pat_chars(&v, &exe);
            let ns = string_of(&name);
            let a = strings2("-f", ns.as_str());
            r.push(cmd("pkill", a));
        },
    }
    assert(commands_view(r@) =~= kill_image_spec(image@, platform));
    r
}

// ---------------------------------------------------------------------------
// Opening things for the user
// ---------------------------------------------------------------------------

pub open spec fn http_only_msg() -> Seq<char> {
    "разрешены только http(s) ссылки"@
}

/// Opening a link: only `http://` and `https://` links (after trimming) are
/// opened, by `cmd /C start` on Windows and `xdg-open` elsewhere.
pub open spec fn open_url_spec(url: Seq<char>, platform: Platform) -> Result<
    (Seq<char>, Seq<Seq<char>>),
    Seq<char>,
> {
    let u = trim(url);
    if !(starts_with(u, "http://"@) || starts_with(u, "https://"@)) {
        Err(http_only_msg())
    } else {
        match platform {
            Platform::Windows => Ok(("cmd.exe"@, seq!["/C"@, "start"@, ""@, u])),
            Platform::Unix => Ok(("xdg-open"@, seq![u])),
        }
    }
}

/// The command that opens the link `url`, or the reason it is refused.
pub fn open_url(url: &str, platform: Platform) -> (r: Result<Command, String>)
    ensures
        match r {
            Ok(c) => open_url_spec(url@, platform) == Ok::<(Seq<char>, Seq<Seq<char>>), Seq<char>>(
                command_view(c),
            ),
            Err(m) => open_url_spec(url@, platform) == Err::<(Seq<char>, Seq<Seq<char>>), Seq<char>>(
                m@,
            ),
        },
{
    let u = trim_str(url);
    if !(starts_with_str(&u, "http://") || starts_with_str(&u, "https://")) {
        return Err("разрешены только http(s) ссылки".to_string());
    }
    let us = string_of(&u);
    match platform {
        Platform::Windows => {
            let mut a = strings2("/C", "start");
            push_string(&mut a, "".to_string());
            push_string(&mut a, us);
            assert(a@.map_values(|s: String| s@) =~= seq!["/C"@, "start"@, ""@, u@]);
            let c = cmd("cmd.exe", a);
            assert(command_view(c) == ("cmd.exe"@, seq!["/C"@, "start"@, ""@, u@]));
            assert(open_url_spec(url@, platform) == Ok::<(Seq<char>, Seq<Seq<char>>), Seq<char>>(
                command_view(c),
            ));
            Ok(c)
        },
        Platform::Unix => {
            let mut a: Vec<String> = Vec::new();
            push_string(&mut a, us);
            assert(a@.map_values(|s: String| s@) =~= seq![u@]);
            let c = cmd("xdg-open", a);
            assert(open_url_spec(url@, platform) == Ok::<(Seq<char>, Seq<Seq<char>>), Seq<char>>(
                command_view(c),
            ));
            Ok(c)
        },
    }
}

/// The command that shows a folder or file: Explorer on Windows, `xdg-open`
/// elsewhere.
pub fn open_path_command(path: &str, platform: Platform) -> (c: Command)
    ensures
        command_view(c) == match platform {
            Platform::Windows => ("explorer.exe"@, seq![path@]),
            Platform::Unix => ("xdg-open"@, seq![path@]),
        },
{
    let mut a: Vec<String> = Vec::new();
    push_string(&mut a, path.to_string());
    match platform {
        Platform::Windows => cmd("explorer.exe", a),
        Platform::Unix => cmd("xdg-open", a),
    }
}

/// The command that opens a text file: Notepad on Windows, `xdg-open`
/// elsewhere.
pub fn open_editor_command(path: &str, platform: Platform) -> (c: Command)
    ensures
        command_view(c) == match platform {
            Platform::Windows => ("notepad.exe"@, seq![path@]),
            Platform::Unix => ("xdg-open"@, seq![path@]),
        },
{
    let mut a: Vec<String> = Vec::new();
    push_string(&mut a, path.to_string());
    match platform {
        Platform::Windows => cmd("notepad.exe", a),
        Platform::Unix => cmd("xdg-open", a),
    }
}

/// The command that opens a folder in VS Code (`code`, through `cmd /C` on
/// Windows).
pub fn open_vscode_command(path: &str, platform: Platform) -> (c: Command)
    ensures
        command_view(c) == match platform {
            Platform::Windows => ("cmd.exe"@, seq!["/C"@, "code"@, path@]),
            Platform::Unix => ("code"@, seq![path@]),
        },
{
    match platform {
        Platform::Windows => {
            let mut a = strings2("/C", "code");
            push_string(&mut a, path.to_string());
            cmd("cmd.exe", a)
        },
        Platform::Unix => {
            let mut a: Vec<String> = Vec::new();
            push_string(&mut a, path.to_string());
            cmd("code", a)
        },
    }
}

/// `PATH` for a terminal: the stack's tool directories `prefix` in front of
/// the inherited value; unchanged (`None`) without a non-empty prefix.
pub open spec fn path_env_spec(prefix: Option<Seq<char>>, inherited: Seq<char>, platform: Platform) -> Option<
    Seq<char>,
> {
    match prefix {
        Some(p) => if p.len() > 0 {
            Some(p.push(path_sep_of(platform)) + inherited)
        } else {
            None
        },
        None => None,
    }
}

pub fn path_env(prefix: Option<&str>, inherited: &str, platform: Platform) -> (r: Option<String>)
    ensures
        match r {
            Some(x) => path_env_spec(
                match prefix {
                    Some(p) => Some(p@),
                    None => None,
                },
                inherited@,
                platform,
            ) == Some(x@),
            None => path_env_spec(
                match prefix {
                    Some(p) => Some(p@),
                    None => None,
                },
                inherited@,
                platform,
            ) is None,
        },
{
    match prefix {
        Some(p) => {
            let mut v = chars_of(p);
            if v.len() == 0 {
                return None;
            }
            v.push(path_sep(platform));
            append_str(&mut v, inherited);
            Some(string_of(&v))
        },
        None => None,
    }
}

/// The arguments of `cmd.exe` for a terminal on Windows: `/K` and the
/// command line to run first, if any.
pub fn windows_terminal_args(cmdline: Option<&str>) -> (r: Vec<String>)
    ensures
        r@.map_values(|s: String| s@) == match cmdline {
            Some(l) => seq!["/K"@, l@],
            None => seq!["/K"@],
        },
{
    let mut a: Vec<String> = Vec::new();
    push_string(&mut a, "/K".to_string());
    if let Some(l) = cmdline {
        push_string(&mut a, l.to_string());
    }
    a
}

/// What a Unix terminal runs: the command line, then the user's shell.
pub open spec fn terminal_run_spec(cmdline: Option<Seq<char>>, shell: Seq<char>) -> Seq<char> {
    match cmdline {
        Some(l) => l + "; exec "@ + shell,
        None => "exec "@ + shell,
    }
}

pub fn terminal_run(cmdline: Option<&str>, shell: &str) -> (r: String)
    ensures
        r@ == terminal_run_spec(
            match cmdline {
                Some(l) => Some(l@),
                None => None,
            },
            shell@,
        ),
{
    let mut v: Vec<char> = match cmdline {
        Some(l) => {
            let mut w = chars_of(l);
            append_str(&mut w, "; exec ");
            w
        },
        None => chars_of("exec "),
    };
    append_str(&mut v, shell);
    string_of(&v)
}

/// `format!("{:?}", s)`: the string in double quotes with `Debug` escapes.
pub uninterp spec fn str_debug(s: Seq<char>) -> Seq<char>;

/// `<str as Debug>::fmt`, through `format!`. Its result is named
/// `str_debug` of the argument: the escaping rules follow Unicode tables and
/// are not written out here.
#[verifier::external_body]
fn debug_str(s: &str) -> (r: String)
    ensures
        r@ == str_debug(s@),
{
    format!("{:?}", s)
}

/// The terminal emulators tried on Linux, in order, each opening `dir` and
/// running `run` through `bash -lc`.
pub open spec fn terminal_attempts_spec(dir: Seq<char>, run: Seq<char>) -> Seq<(Seq<char>, Seq<Seq<char>>)> {
    seq![
        ("gnome-terminal"@, seq!["--working-directory"@, dir, "--"@, "bash"@, "-lc"@, run]),
        ("ptyxis"@, seq!["--new-window"@, "--directory"@, dir, "-x"@, "bash"@, "-lc"@, run]),
        ("konsole"@, seq!["--workdir"@, dir, "-e"@, "bash"@, "-lc"@, run]),
        (
            "xfce4-terminal"@,
            seq!["--working-directory="@ + dir, "-e"@, "bash -lc "@ + str_debug(run)],
        ),
        ("kitty"@, seq!["--directory="@ + dir, "bash"@, "-lc"@, run]),
        ("x-terminal-emulator"@, seq!["-e"@, "bash"@, "-lc"@, run]),
        ("xterm"@, seq!["-e"@, "bash"@, "-lc"@, run]),
    ]
}

fn concat2(a: &str, b: &str) -> (r: String)
    ensures
        r@ == a@ + b@,
{
    let mut v = chars_of(a);
    append_str(&mut v, b);
    string_of(&v)
}

/// What came of one terminal attempt.
#[derive(Clone, Copy, Debug, PartialEq, Eq, Structural)]
pub enum TerminalOutcome {
    /// Its program is not on `PATH`.
    Missing,
    /// It could not be started.
    Failed,
    /// It runs.
    Started,
}

/// What to do next when opening a terminal.
#[derive(Clone, Copy, Debug, PartialEq, Eq, Structural)]
pub enum TerminalAction {
    /// Try the attempt with this index.
    Try(usize),
    /// Every attempt failed: run the shell itself.
    Fallback,
    /// A terminal runs.
    Done,
}

/// The first step over `count` attempts: the first one, or the shell when
/// there is none.
pub fn terminal_start(count: usize) -> (r: TerminalAction)
    ensures
        r == if count > 0 {
            TerminalAction::Try(0)
        } else {
            TerminalAction::Fallback
        },
{
    if count > 0 {
        TerminalAction::Try(0)
    } else {
        TerminalAction::Fallback
    }
}

/// The step after attempt `i` of `count`: done when it started, else the
/// next attempt in order, else the shell.
pub fn terminal_next(count: usize, i: usize, outcome: TerminalOutcome) -> (r: TerminalAction)
    requires
        i < count,
    ensures
        r == match outcome {
            TerminalOutcome::Started => TerminalAction::Done,
            _ => if i + 1 < count {
                TerminalAction::Try((i + 1) as usize)
            } else {
                TerminalAction::Fallback
            },
        },
{
    match outcome {
        TerminalOutcome::Started => TerminalAction::Done,
        _ => if i + 1 < count {
            TerminalAction::Try(i + 1)
        } else {
            TerminalAction::Fallback
        },
    }
}

/// The terminal emulators to try on Linux, in order.
pub fn terminal_attempts(dir: &str, run: &str) -> (r: Vec<Command>)
    ensures
        commands_view(r@) == terminal_attempts_spec(dir@, run@),
{
    let mut r: Vec<Command> = Vec::new();

    let mut a = strings2("--working-directory", dir);
    push_string(&mut a, "--".to_string());
    push_string(&mut a, "bash".to_string());
    push_string(&mut a, "-lc".to_string());
    push_string(&mut a, run.to_string());
    assert(a@.map_values(|s: String| s@) =~= seq!["--working-directory"@, dir@, "--"@, "bash"@, "-lc"@, run@]);
    push_command(&mut r, cmd("gnome-terminal", a));

    let mut a = strings2("--new-window", "--directory");
    push_string(&mut a, dir.to_string());
    push_string(&mut a, "-x".to_string());
    push_string(&mut a, "bash".to_string());
    push_string(&mut a, "-lc".to_string());
    push_string(&mut a, run.to_string());
    assert(a@.map_values(|s: String| s@) =~= seq!["--new-window"@, "--directory"@, dir@, "-x"@, "bash"@, "-lc"@, run@]);
    push_command(&mut r, cmd("ptyxis", a));

    let mut a = strings2("--workdir", dir);
    push_string(&mut a, "-e".to_string());
    push_string(&mut a, "bash".to_string());
    push_string(&mut a, "-lc".to_string());
    push_string(&mut a, run.to_string());
    assert(a@.map_values(|s: String| s@) =~= seq!["--workdir"@, dir@, "-e"@, "bash"@, "-lc"@, run@]);
    push_command(&mut r, cmd("konsole", a));

    let wd = concat2("--working-directory=", dir);
    let q = debug_str(run);
    let bl = concat2("bash -lc ", q.as_str());
    let mut a: Vec<String> = Vec::new();
    push_string(&mut a, wd);
    push_string(&mut a, "-e".to_string());
    push_string(&mut a, bl);
    assert(a@.map_values(|s: String| s@) =~= seq!["--working-directory="@ + dir@, "-e"@, "bash -lc "@ + str_debug(run@)]);
    push_command(&mut r, cmd("xfce4-terminal", a));

    let d = concat2("--directory=", dir);
    let mut a: Vec<String> = Vec::new();
    push_string(&mut a, d);
    push_string(&mut a, "bash".to_string());
    push_string(&mut a, "-lc".to_string());
    push_string(&mut a, run.to_string());
    assert(a@.map_values(|s: String| s@) =~= seq!["--directory="@ + dir@, "bash"@, "-lc"@, run@]);
    push_command(&mut r, cmd("kitty", a));

    let mut a = strings2("-e", "bash");
    push_string(&mut a, "-lc".to_string());
    push_string(&mut a, run.to_string());
    assert(a@.map_values(|s: String| s@) =~= seq!["-e"@, "bash"@, "-lc"@, run@]);
    push_command(&mut r, cmd("x-terminal-emulator", a));

    let mut a = strings2("-e", "bash");
    push_string(&mut a, "-lc".to_string());
    push_string(&mut a, run.to_string());
    assert(a@.map_values(|s: String| s@) =~= seq!["-e"@, "bash"@, "-lc"@, run@]);
    push_command(&mut r, cmd("xterm", a));

    assert(commands_view(r@) =~= terminal_attempts_spec(dir@, run@));
    r
}

/// Where a program named `name` would be found in each directory of the
/// `PATH` list `paths` (Unix, `:`-separated).
pub open spec fn path_candidates_spec(paths: Seq<char>, name: Seq<char>) -> Seq<Seq<char>> {
    split(paths, Sep::Char(':')).map_values(|p: Seq<char>| join_path(p, name, Platform::Unix))
}

pub fn path_candidates(paths: &str, name: &str) -> (r: Vec<String>)
    ensures
        r@.map_values(|s: String| s@) == path_candidates_spec(paths@, name@),
{
    let v = chars_of(paths);
    let parts = split_chars(&v, Sep::Char(':'));
    let nv = chars_of(name);
    let mut r: Vec<String> = Vec::new();
    let mut i: usize = 0;
    while i < parts.len()
        invariant
            i <= parts.len(),
            nv@ == name@,
            views(parts@) == split(paths@, Sep::Char(':')),
            r@.map_values(|s: String| s@) == path_candidates_spec(paths@, name@).take(i as int),
        decreases parts.len() - i,
    {
        let j = join_chars_path(&parts[i], &nv, Platform::Unix);
        push_string(&mut r, string_of(&j));
        assert(path_candidates_spec(paths@, name@).take(i + 1) =~= path_candidates_spec(paths@, name@).take(
            i as int,
        ).push(join_path(parts@[i as int]@, name@, Platform::Unix)));
        i += 1;
    }
    assert(path_candidates_spec(paths@, name@).take(parts.len() as int) =~= path_candidates_spec(
        paths@,
        name@,
    ));
    r
}

// ---------------------------------------------------------------------------
// Composer
// ---------------------------------------------------------------------------

pub open spec fn composer_dir(root: Seq<char>, platform: Platform) -> Seq<char> {
    join_path(join_path(root, "bin"@, platform), "composer"@, platform)
}

/// Where Composer may be: `bin/composer/composer.bat`, `bin/composer/composer`,
/// `bin/composer/composer.phar` (in this order).
pub fn composer_candidates(root: &str, platform: Platform) -> (r: Vec<String>)
    ensures
        r@.map_values(|s: String| s@) == seq![
            join_path(composer_dir(root@, platform), "composer.bat"@, platform),
            join_path(composer_dir(root@, platform), "composer"@, platform),
            join_path(composer_dir(root@, platform), "composer.phar"@, platform),
        ],
{
    let b = join(root, "bin", platform);
    let d = join(b.as_str(), "composer", platform);
    let mut r: Vec<String> = Vec::new();
    push_string(&mut r, join(d.as_str(), "composer.bat", platform));
    push_string(&mut r, join(d.as_str(), "composer", platform));
    push_string(&mut r, join(d.as_str(), "composer.phar", platform));
    r
}

/// The Composer entry point to run: the `.bat` on Windows when it exists,
/// else the Unix script, else the `.phar`, else the `.bat` path anyway.
pub fn composer_file(root: &str, platform: Platform, has_bat: bool, has_script: bool, has_phar: bool) -> (r: String)
    ensures
        r@ == join_path(
            composer_dir(root@, platform),
            if platform == Platform::Windows && has_bat {
                "composer.bat"@
            } else if has_script {
                "composer"@
            } else if has_phar {
                "composer.phar"@
            } else {
                "composer.bat"@
            },
            platform,
        ),
{
    let b = join(root, "bin", platform);
    let d = join(b.as_str(), "composer", platform);
    if platform == Platform::Windows && has_bat {
        join(d.as_str(), "composer.bat", platform)
    } else if has_script {
        join(d.as_str(), "composer", platform)
    } else if has_phar {
        join(d.as_str(), "composer.phar", platform)
    } else {
        join(d.as_str(), "composer.bat", platform)
    }
}

/// The command line that runs Composer in a terminal, paths in double
/// quotes: the `.bat` (Windows), the script, or PHP with the `.phar` when
/// both exist; else plain `composer` from `PATH`. `has_php` says whether
/// `php_dir` holds the PHP executable.
pub open spec fn composer_cmdline_spec(
    root: Seq<char>,
    php_dir: Seq<char>,
    platform: Platform,
    has_bat: bool,
    has_script: bool,
    has_phar: bool,
    has_php: bool,
) -> Seq<char> {
    let d = composer_dir(root, platform);
    if platform == Platform::Windows && has_bat {
        "\""@ + join_path(d, "composer.bat"@, platform) + "\""@
    } else if has_script {
        "\""@ + join_path(d, "composer"@, platform) + "\""@
    } else if has_phar && has_php {
        "\""@ + join_path(php_dir, bin_name("php"@, platform), platform) + "\" \""@ + join_path(
            d,
            "composer.phar"@,
            platform,
        ) + "\""@
    } else {
        "composer"@
    }
}

pub fn composer_cmdline(
    root: &str,
    php_dir: &str,
    platform: Platform,
    has_bat: bool,
    has_script: bool,
    has_phar: bool,
    has_php: bool,
) -> (r: String)
    ensures
        r@ == composer_cmdline_spec(root@, php_dir@, platform, has_bat, has_script, has_phar, has_php),
{
    let b = join(root, "bin", platform);
    let d = join(b.as_str(), "composer", platform);
    if platform == Platform::Windows && has_bat {
        let p = join(d.as_str(), "composer.bat", platform);
        let mut v = chars_of("\"");
        append_str(&mut v, p.as_str());
        append_str(&mut v, "\"");
        string_of(&v)
    } else if has_script {
        let p = join(d.as_str(), "composer", platform);
        let mut v = chars_of("\"");
        append_str(&mut v, p.as_str());
        append_str(&mut v, "\"");
        string_of(&v)
    } else if has_phar && has_php {
        let php = bin_path(php_dir, "php", platform);
        let p = join(d.as_str(), "composer.phar", platform);
        let mut v = chars_of("\"");
        append_str(&mut v, php.as_str());
        append_str(&mut v, "\" \"");
        append_str(&mut v, p.as_str());
        append_str(&mut v, "\"");
        string_of(&v)
    } else {
        "composer".to_string()
    }
}

/// The strings of `parts`, owned.
pub fn strings(parts: &[&str]) -> (r: Vec<String>)
    ensures
        r@.map_values(|s: String| s@) == parts@.map_values(|p: &str| p@),
{
    let mut r: Vec<String> = Vec::new();
    let mut i: usize = 0;
    while i < parts.len()
        invariant
            i <= parts@.len(),
            r@.map_values(|s: String| s@) == parts@.map_values(|p: &str| p@).take(i as int),
        decreases parts.len() - i,
    {
        push_string(&mut r, parts[i].to_string());
        assert(parts@.map_values(|p: &str| p@).take(i + 1) =~= parts@.map_values(|p: &str| p@).take(
            i as int,
        ).push(parts@[i as int]@));
        i += 1;
    }
    assert(parts@.map_values(|p: &str| p@).take(parts@.len() as int) =~= parts@.map_values(
        |p: &str| p@,
    ));
    r
}

} // verus!
