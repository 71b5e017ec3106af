use lax::config::{LaxConfig, Paths};
use lax::error::LaxError;
use lax::platform::Platform;
use lax::portable::{
    dedup_strings, install_marker, is_config_ext, mysql_ini, rebase_olds, rebase_text, replace_root,
};
use lax::text::chars_of;
use lax::update::{
    asset_kind, cmp_semver, download_pct, download_step, download_target, entry_is_self,
    entry_target, is_newer, keep_existing, pick_asset, PCT_NONE,
    relaunch_plan, release_info, release_notes, staged_exe_paths, unpack_pct, zip_prefix, zip_rel,
    AssetKind, GhAsset, GhRelease, UpdateInfo,
};

fn s(x: &str) -> String {
    x.to_string()
}

fn asset(name: &str) -> GhAsset {
    GhAsset { name: s(name), browser_download_url: format!("https://dl/{name}"), size: name.len() as u64 }
}

fn msg_of<T>(r: Result<T, LaxError>) -> String {
    match r {
        Err(LaxError::Msg(m)) => m,
        _ => panic!("expected a message"),
    }
}

#[test]
fn root_rewritten_everywhere() {
    assert_eq!(replace_root("a C:/old/x b C:/old", "C:/old", "D:/new"), "a D:/new/x b D:/new");
    assert_eq!(replace_root("nothing here", "C:/old", "D:/new"), "nothing here");
    assert_eq!(replace_root("keep C:/old", "", "D:/new"), "keep C:/old");
    assert_eq!(replace_root("keep C:/old", "C:/old", "C:/old"), "keep C:/old");
}

#[test]
fn root_that_extends_old_is_not_extended_twice() {
    let once = replace_root("C:/lax2/www and C:/lax/www", "C:/lax", "C:/lax2");
    assert_eq!(once, "C:/lax2/www and C:/lax2/www");
    assert_eq!(replace_root(&once, "C:/lax", "C:/lax2"), once);
}

#[test]
fn old_roots_longest_first() {
    assert_eq!(rebase_olds(None), vec![s("C:/Laragon/www/LaX"), s("C:\\Laragon\\www\\LaX")]);
    assert_eq!(rebase_olds(Some("   ")), vec![s("C:/Laragon/www/LaX"), s("C:\\Laragon\\www\\LaX")]);
    assert_eq!(
        rebase_olds(Some(" D:\\lax ")),
        vec![s("C:/Laragon/www/LaX"), s("C:\\Laragon\\www\\LaX"), s("D:/lax"), s("D:\\lax")]
    );
    assert_eq!(
        rebase_olds(Some("D:/Program Files/portable/lax")),
        vec![
            s("D:/Program Files/portable/lax"),
            s("D:\\Program Files\\portable\\lax"),
            s("C:/Laragon/www/LaX"),
            s("C:\\Laragon\\www\\LaX")
        ]
    );
    assert_eq!(rebase_olds(Some("/opt/lax")), vec![
        s("C:/Laragon/www/LaX"), s("C:\\Laragon\\www\\LaX"), s("/opt/lax"), s("\\opt\\lax")
    ]);
}

#[test]
fn dedup_adjacent_only() {
    let v = vec![chars_of("a"), chars_of("a"), chars_of("b"), chars_of("a")];
    assert_eq!(dedup_strings(v), vec![s("a"), s("b"), s("a")]);
}

#[test]
fn rebase_both_slash_styles() {
    let olds = vec![s("D:/old"), s("D:\\old")];
    let raw = "root=D:/old/www\npath=D:\\old\\bin\n";
    assert_eq!(rebase_text(raw, &olds, "E:/new"), "root=E:/new/www\npath=E:\\new\\bin\n");
}

#[test]
fn mysql_ini_contents() {
    let p = Paths::new(s("C:\\lax"), Platform::Windows);
    let mut cfg = LaxConfig::defaults(Platform::Windows);
    cfg.mysql_port = 3307;
    let w = mysql_ini(&p, &cfg);
    assert_eq!(w.path, "C:\\lax\\bin\\mysql\\mariadb-10.11.13\\my.ini");
    assert!(w.body.starts_with("[client]\nport=3307\n"));
    assert!(w.body.contains("datadir=\"C:/lax/data/mariadb\"\nport=3307\n"));
    assert!(w.body.contains("tmpdir=\"C:/lax/tmp\"\n"));
    assert!(w.body.ends_with("[mysqldump]\nquick\nmax_allowed_packet=512M\n"));
    assert_eq!(install_marker(&p), "C:\\lax\\usr\\.install-root");
}

#[test]
fn config_extensions() {
    assert!(is_config_ext("conf"));
    assert!(is_config_ext("INI"));
    assert!(!is_config_ext("toml"));
    assert!(!is_config_ext(""));
}

#[test]
fn semver_keys() {
    assert_eq!(cmp_semver("v0.1.4"), (0, 1, 4));
    assert_eq!(cmp_semver("  vv1.2"), (1, 2, 0));
    assert_eq!(cmp_semver("1.2.3-beta.4"), (1, 2, 3));
    assert_eq!(cmp_semver("garbage"), (0, 0, 0));
    assert_eq!(cmp_semver("99999999999999999999.1.1"), (0, 1, 1));
}

#[test]
fn newer_is_a_strict_order() {
    assert!(is_newer("v1.0.1", "1.0.0"));
    assert!(is_newer("0.10.0", "0.9.9"));
    assert!(!is_newer("1.0.0", "v1.0.0"));
    assert!(!is_newer("0.9.9", "0.10.0"));
    for v in ["v0.1.0", "1.2.3", "x"] {
        assert!(!is_newer(v, v));
    }
}

#[test]
fn asset_choice_per_platform() {
    let assets = vec![asset("LaX-source.zip"), asset("LaX-linux.zip"), asset("LaX-0.2.zip"), asset("LaX.AppImage")];
    assert_eq!(pick_asset(&assets, Platform::Windows), Some(2));
    assert_eq!(pick_asset(&assets, Platform::Unix), Some(3));
    let only_zip = vec![asset("notes.txt"), asset("lax-win.ZIP")];
    assert_eq!(pick_asset(&only_zip, Platform::Unix), Some(1));
    assert_eq!(pick_asset(&vec![asset("other.zip")], Platform::Windows), None);
}

#[test]
fn notes_keep_first_eight_text_lines() {
    let body = "# Heading\n\n  - one\n- two\r\n## sub\n3\n4\n5\n6\n7\n8\n9\n";
    assert_eq!(release_notes(Some(body)), "- one\n- two\n3\n4\n5\n6\n7\n8");
    assert_eq!(release_notes(None), "");
}

#[test]
fn release_info_fields() {
    let rel = GhRelease {
        tag_name: s(" v0.3.1"),
        html_url: s("https://x/rel"),
        body: Some(s("fix")),
        assets: vec![asset("LaX-0.3.1.zip")],
    };
    let u = release_info(&rel, Platform::Windows);
    assert_eq!(u.version, "0.3.1");
    assert_eq!(u.tag, " v0.3.1");
    assert_eq!(u.url, "https://x/rel");
    assert_eq!(u.notes, "fix");
    assert_eq!(u.download_url, Some(s("https://dl/LaX-0.3.1.zip")));
    assert_eq!(u.download_name, Some(s("LaX-0.3.1.zip")));
    assert_eq!(u.size, Some(13));
    let none = release_info(&GhRelease { tag_name: s("v1"), html_url: s(""), body: None, assets: vec![] }, Platform::Unix);
    assert_eq!(none.download_url, None);
    assert_eq!(none.size, None);
}

#[test]
fn archive_prefix_detection() {
    let names = vec![Some(s("LaX-0.3/bin/x")), None, Some(s("LaX-0.3\\www\\index.php"))];
    assert_eq!(zip_prefix(&names), Some(s("LaX-0.3")));
    assert_eq!(zip_prefix(&vec![Some(s("bin/x")), Some(s("www/y"))]), None);
    assert_eq!(zip_prefix(&vec![Some(s("a/x")), Some(s("b/y"))]), None);
    assert_eq!(zip_prefix(&vec![Some(s("/x"))]), None);
    assert_eq!(zip_prefix(&vec![]), None);
}

#[test]
fn entry_paths_below_prefix() {
    assert_eq!(zip_rel("LaX-0.3/bin/php/x.dll", Some("LaX-0.3"), Platform::Unix), Some(s("bin/php/x.dll")));
    assert_eq!(zip_rel("\\bin\\a\\", None, Platform::Windows), Some(s("bin/a")));
    assert_eq!(zip_rel("LaX-0.3/", Some("LaX-0.3"), Platform::Unix), Some(s("LaX-0.3")));
    assert_eq!(zip_rel("//", None, Platform::Unix), None);
    assert_eq!(zip_rel("p/../../etc/passwd", Some("p"), Platform::Unix), None);
    assert_eq!(zip_rel("C:/Windows/x", None, Platform::Windows), None);
    assert_eq!(zip_rel("C:/Windows/x", None, Platform::Unix), Some(s("C:/Windows/x")));
}

#[test]
fn update_spares_user_data() {
    let p = Some("LaX-0.3");
    assert_eq!(entry_target("LaX-0.3/www/index.php", p, Platform::Windows), None);
    assert_eq!(entry_target("LaX-0.3/DATA/mariadb/ibdata1", p, Platform::Windows), None);
    assert_eq!(entry_target("LaX-0.3/logs/x.log", p, Platform::Unix), None);
    assert_eq!(entry_target("LaX-0.3/tmp/a", p, Platform::Unix), None);
    assert_eq!(entry_target("LaX-0.3/usr/lax.toml", p, Platform::Unix), None);
    assert_eq!(entry_target("LaX-0.3/usr/.install-root", p, Platform::Unix), None);
    assert_eq!(entry_target("LaX-0.3/node_modules/x", p, Platform::Unix), None);
    assert_eq!(entry_target("LaX-0.3/usr/tpl/vhost.tpl", p, Platform::Unix), Some(s("usr/tpl/vhost.tpl")));
    assert_eq!(entry_target("LaX-0.3/bin/php/php.exe", p, Platform::Windows), Some(s("bin/php/php.exe")));
}

#[test]
fn update_stages_the_application() {
    assert_eq!(entry_target("LaX-0.3/LaX.exe", Some("LaX-0.3"), Platform::Windows), Some(s("lax.exe.new")));
    assert_eq!(entry_target("lax", None, Platform::Unix), Some(s("lax.new")));
}

#[test]
fn download_destination() {
    let mut info = UpdateInfo {
        version: s("1"),
        tag: s("v1"),
        url: s(""),
        notes: s(""),
        download_url: Some(s("https://dl/a.zip")),
        download_name: Some(s("a.zip")),
        size: None,
    };
    let (u, d) = download_target("/l", &info, Platform::Unix).unwrap();
    assert_eq!(u, "https://dl/a.zip");
    assert_eq!(d, "/l/tmp/a.zip");
    info.download_name = None;
    assert_eq!(download_target("/l", &info, Platform::Unix).unwrap().1, "/l/tmp/LaX-update.bin");
    info.download_url = None;
    assert_eq!(
        msg_of(download_target("/l", &info, Platform::Unix)),
        "в релизе нет файла для этой ОС — открой страницу релиза"
    );
}

#[test]
fn progress_percentages() {
    assert_eq!(download_pct(50, 200), 25);
    assert_eq!(download_pct(200, 200), 100);
    assert_eq!(download_pct(u64::MAX, u64::MAX), 1);
    assert_eq!(unpack_pct(3, 4), 75);
    assert_eq!(unpack_pct(0, 0), 0);
    assert_eq!(unpack_pct(5, 0), 500);
}

#[test]
fn downloaded_kinds() {
    assert!(matches!(asset_kind("LaX.AppImage"), Ok(AssetKind::AppImage)));
    assert!(matches!(asset_kind("LaX-0.3.ZIP"), Ok(AssetKind::Zip)));
    assert_eq!(msg_of(asset_kind("LaX.tar.gz")), "неизвестный формат обновления");
}

#[test]
fn staged_paths_and_relaunch() {
    assert_eq!(staged_exe_paths("/l", None, Platform::Unix), vec![s("/l/lax.exe.new"), s("/l/lax.new")]);
    assert_eq!(
        staged_exe_paths("/l", Some("/apps/LaX.AppImage"), Platform::Unix),
        vec![s("/l/lax.exe.new"), s("/l/lax.new"), s("/apps/LaX.AppImage.new")]
    );
    let w = relaunch_plan("C:\\lax", None, Platform::Windows);
    assert_eq!(w.exe, "C:\\lax\\lax.exe");
    assert_eq!(w.staged, "C:\\lax\\lax.exe.new");
    assert_eq!(w.script, "C:\\lax\\tmp\\lax-relaunch.cmd");
    assert!(w.body.contains("copy /Y \"C:\\lax\\lax.exe.new\" \"C:\\lax\\lax.exe\" >nul\r\n"));
    assert_eq!(w.commands.len(), 1);
    assert_eq!(w.commands[0].program, "cmd.exe");
    assert_eq!(w.commands[0].args, vec![s("/C"), s("start"), s(""), s("/min"), s("cmd.exe"), s("/C"), s("C:\\lax\\tmp\\lax-relaunch.cmd")]);
    let u = relaunch_plan("/l", Some("/apps/LaX.AppImage"), Platform::Unix);
    assert_eq!(u.exe, "/apps/LaX.AppImage");
    assert_eq!(u.staged, "/apps/LaX.AppImage.new");
    assert_eq!(u.script, "/l/tmp/lax-relaunch.sh");
    assert!(u.body.contains("while pgrep -x 'LaX.AppImage' >/dev/null 2>&1; do sleep 1; done\n"));
    assert!(u.body.contains("mv -f '/apps/LaX.AppImage.new' '/apps/LaX.AppImage'\n"));
}

#[test]
fn replace_root_is_plain_replace_when_roots_are_unrelated() {
    let cases = [
        ("a C:/old/x b C:/old", "C:/old", "D:/new"),
        ("C:/oldC:/old", "C:/old", "E:/x"),
        ("xxoldxoldxx", "old", "new"),
        ("aaaa", "aa", "b"),
    ];
    for (t, o, n) in cases {
        assert_eq!(replace_root(t, o, n), t.replace(o, n));
    }
    assert_eq!(replace_root("aaaa", "aa", "b"), "bb");
}

#[test]
fn download_progress_steps() {
    assert_eq!(download_step(50, Some(200), 101), Some(25));
    assert_eq!(download_step(50, Some(200), 25), None);
    assert_eq!(download_step(51, Some(200), 25), None);
    assert_eq!(download_step(52, Some(200), 25), Some(26));
    assert_eq!(download_step(10, None, 101), None);
    assert_eq!(download_step(10, Some(0), 101), None);
    assert_eq!(download_step(u64::MAX, Some(u64::MAX), 0), Some(1));
}

#[test]
fn unchanged_files_are_kept() {
    assert!(keep_existing(false, Some(10), 10));
    assert!(!keep_existing(false, Some(9), 10));
    assert!(!keep_existing(false, None, 10));
    assert!(!keep_existing(true, Some(10), 10));
    assert!(entry_is_self("LaX-1.0/lax.exe", Some("LaX-1.0"), Platform::Windows));
    assert!(!entry_is_self("LaX-1.0/lax.new", Some("LaX-1.0"), Platform::Unix));
    assert!(!entry_is_self("LaX-1.0/bin/php.exe", Some("LaX-1.0"), Platform::Windows));
}

#[test]
fn update_spares_user_data_behind_dot_pieces() {
    let p = Some("LaX-0.3");
    assert_eq!(entry_target("LaX-0.3/./www/index.php", p, Platform::Unix), None);
    assert_eq!(entry_target("LaX-0.3/./Data/x", p, Platform::Windows), None);
    assert_eq!(entry_target("LaX-0.3/./usr/lax.toml", p, Platform::Unix), None);
    assert_eq!(entry_target("LaX-0.3//etc/passwd", p, Platform::Unix), None);
    assert_eq!(zip_rel("LaX-0.3//etc/passwd", p, Platform::Unix), None);
    assert_eq!(entry_target("LaX-0.3/./bin/php", p, Platform::Unix), Some(s("./bin/php")));
}

fn reports(chunks: &[u64], total: Option<u64>) -> Vec<u64> {
    let mut last = PCT_NONE;
    let mut copied = 0u64;
    let mut out = Vec::new();
    for c in chunks {
        copied += c;
        if let Some(p) = download_step(copied, total, last) {
            last = p;
            out.push(p);
        }
    }
    out
}

#[test]
fn download_percentages_rise_to_100() {
    assert_eq!(reports(&[30, 30, 40], Some(100)), vec![30, 60, 100]);
    assert_eq!(reports(&[1, 1, 1, 997], Some(1000)), vec![0, 100]);
    assert_eq!(reports(&[5], Some(5)), vec![100]);
    let r = reports(&[7; 37], Some(259));
    assert!(r.windows(2).all(|w| w[0] < w[1]));
    assert_eq!(*r.last().unwrap(), 100);
    assert_eq!(reports(&[30, 70], None), Vec::<u64>::new());
}

#[test]
fn empty_new_root_leaves_text_alone() {
    assert_eq!(replace_root("no root here", "C:/old", ""), "no root here");
    let olds = vec![s("C:/old")];
    assert_eq!(rebase_text("nothing to move", &olds, ""), "nothing to move");
}
