use lax::commands::{ini_path, project_action_line, ActionFacts};
use lax::config::{LaxConfig, Paths};
use lax::error::LaxError;
use lax::platform::Platform;
use lax::process::{ManagedProcess, ProcessTable};
use lax::state::{
    check_php_version, check_update, dismiss_notice, fail_port_error, mailpit_missing,
    php_running, port_conflict, reload_choice, service_id, service_infos, should_start_mariadb,
    web_next, web_port_of, with_web_port, with_web_server, Notices, PortProbes, Reload, ServiceId,
    WebAction, WebEvent, WebStep,
};
use lax::update::UpdateInfo;

fn s(x: &str) -> String {
    x.to_string()
}

fn text(e: LaxError) -> String {
    match e {
        LaxError::Msg(m) => m,
        _ => panic!("expected a message"),
    }
}

fn probes() -> PortProbes {
    PortProbes {
        apache_open: false,
        nginx_open: false,
        mysql_open: false,
        cgi_open: vec![false, false],
        mailpit_ui_open: false,
        mailpit_smtp_open: false,
    }
}

fn info(version: &str) -> UpdateInfo {
    UpdateInfo {
        version: s(version),
        tag: format!("v{version}"),
        url: s("u"),
        notes: s(""),
        download_url: None,
        download_name: None,
        size: None,
    }
}

fn run(cfg: &LaxConfig, events: &[WebEvent]) -> Vec<WebAction> {
    let mut step = WebStep::Start;
    let mut out = vec![];
    for e in events {
        let (n, a) = web_next(cfg, step, *e);
        out.push(a);
        step = n;
    }
    assert_eq!(step, WebStep::Finished);
    out
}

#[test]
fn web_port_follows_server() {
    let mut c = LaxConfig::defaults(Platform::Unix);
    c.nginx_port = 8081;
    assert_eq!(web_port_of(&c), 8081);
    c.web_server = s("apache");
    c.apache_port = 8082;
    assert_eq!(web_port_of(&c), 8082);
}

#[test]
fn php_running_per_server() {
    let c = LaxConfig::defaults(Platform::Unix);
    let mut p = probes();
    assert!(!php_running(&c, &p));
    p.cgi_open = vec![false, true];
    assert!(php_running(&c, &p));
    let w = LaxConfig::defaults(Platform::Windows);
    assert!(!php_running(&w, &p));
    p.apache_open = true;
    assert!(php_running(&w, &p));
}

#[test]
fn service_cards() {
    let c = LaxConfig::defaults(Platform::Windows);
    let mut t: ProcessTable<()> = ProcessTable::new();
    t.insert("apache", ManagedProcess { pid: 10, handle: () });
    t.insert("php-cgi-9003", ManagedProcess { pid: 11, handle: () });
    let mut p = probes();
    p.apache_open = true;
    p.nginx_open = true;
    p.mailpit_smtp_open = true;
    let cards = service_infos(&c, &t, &p, false);
    let ids: Vec<&str> = cards.iter().map(|x| x.id.as_str()).collect();
    assert_eq!(ids, vec!["apache", "nginx", "mariadb", "php", "mailpit"]);
    assert!(cards[0].running && cards[0].enabled);
    assert_eq!(cards[0].pid, Some(10));
    assert!(!cards[1].running && !cards[1].enabled);
    assert_eq!(cards[1].pid, None);
    assert!(!cards[2].running && cards[2].enabled);
    assert_eq!(cards[2].port, Some(3306));
    assert!(cards[3].running);
    assert_eq!(cards[3].pid, Some(11));
    assert_eq!(cards[3].port, Some(9003));
    assert!(cards[4].running && !cards[4].enabled);
    assert_eq!(cards[4].version, "SMTP :1025");
    assert_eq!(cards[4].port, Some(8025));
}

#[test]
fn conflicts() {
    let c = port_conflict(80, Some((4, s("System"))));
    assert_eq!((c.port, c.pid, c.process.as_str()), (80, 4, "System"));
    assert_eq!(text(fail_port_error(80, &c)), "порт 80 занят: System (PID 4)");
    let u = port_conflict(8080, None);
    assert_eq!((u.pid, u.process.as_str()), (0, "неизвестно"));
    assert_eq!(text(fail_port_error(8080, &u)), "порт 8080 не открылся. Смотри логи Apache/Nginx.");
}

#[test]
fn web_start_nginx_full_run() {
    let c = LaxConfig::defaults(Platform::Unix);
    let acts = run(&c, &[
        WebEvent::Began { busy: false, ours: false },
        WebEvent::Finished,
        WebEvent::Open(false),
        WebEvent::Finished,
        WebEvent::Open(false),
        WebEvent::Finished,
        WebEvent::Open(true),
    ]);
    assert_eq!(acts, vec![
        WebAction::StopApache,
        WebAction::ProbePhp,
        WebAction::StartPhp,
        WebAction::Probe(8080),
        WebAction::StartNginx,
        WebAction::Wait(8080),
        WebAction::Done,
    ]);
}

#[test]
fn web_start_apache_and_conflicts() {
    let c = LaxConfig::defaults(Platform::Windows);
    let acts = run(&c, &[
        WebEvent::Began { busy: true, ours: true },
        WebEvent::Finished,
        WebEvent::Finished,
        WebEvent::Open(false),
        WebEvent::Finished,
        WebEvent::Open(false),
    ]);
    assert_eq!(acts, vec![
        WebAction::StopNginx,
        WebAction::StopPhp,
        WebAction::Probe(80),
        WebAction::StartApache,
        WebAction::Wait(80),
        WebAction::Fail(80),
    ]);
    assert_eq!(run(&c, &[WebEvent::Began { busy: true, ours: false }]), vec![WebAction::Fail(80)]);
    assert_eq!(run(&c, &[WebEvent::Finished]), vec![WebAction::Done]);
    let n = LaxConfig::defaults(Platform::Unix);
    assert_eq!(
        run(&n, &[WebEvent::Began { busy: false, ours: false }, WebEvent::Finished, WebEvent::Open(true), WebEvent::Open(true)]),
        vec![WebAction::StopApache, WebAction::ProbePhp, WebAction::Probe(8080), WebAction::Done]
    );
}

#[test]
fn every_web_step_ends() {
    let cfgs = [LaxConfig::defaults(Platform::Unix), LaxConfig::defaults(Platform::Windows)];
    for c in cfgs.iter() {
        for bits in 0u32..512 {
            let mut step = WebStep::Start;
            let mut n = 0;
            while step != WebStep::Finished {
                let k = (bits >> n) & 1 == 1;
                let e = if step == WebStep::Start {
                    WebEvent::Began { busy: k, ours: !k }
                } else if n % 2 == 1 {
                    WebEvent::Finished
                } else {
                    WebEvent::Open(k)
                };
                step = web_next(c, step, e).0;
                n += 1;
                assert!(n <= 13);
            }
        }
    }
}

#[test]
fn service_buttons() {
    assert_eq!(service_id("apache").unwrap(), ServiceId::Apache);
    assert_eq!(service_id("mysql").unwrap(), ServiceId::Mariadb);
    assert_eq!(service_id("mariadb").unwrap(), ServiceId::Mariadb);
    assert_eq!(service_id("mailpit").unwrap(), ServiceId::Mailpit);
    match service_id("redis") {
        Err(e) => assert_eq!(text(e), "unknown service redis"),
        Ok(_) => panic!(),
    }
    assert!(text(mailpit_missing()).starts_with("Mailpit не найден."));
}

#[test]
fn settings_changes() {
    let c = LaxConfig::defaults(Platform::Windows);
    let n = with_web_server(c.clone(), "nginx");
    assert_eq!(n.web_server, "nginx");
    assert_eq!(n.apache_port, c.apache_port);
    let p = with_web_port(c.clone(), 8088).unwrap();
    assert_eq!((p.apache_port, p.nginx_port), (8088, 8088));
    match with_web_port(c.clone(), 0) {
        Err(e) => assert_eq!(text(e), "некорректный порт"),
        Ok(_) => panic!(),
    }
    let versions = vec![s("php-8.2"), s("php-8.3")];
    assert!(check_php_version(&versions, "php-8.3").is_ok());
    match check_php_version(&versions, "php-5.6") {
        Err(e) => assert_eq!(text(e), "PHP version not found: php-5.6"),
        Ok(_) => panic!(),
    }
    assert!(should_start_mariadb(&c, false));
    assert!(!should_start_mariadb(&c, true));
    assert_eq!(reload_choice(&c, true, true), Reload::Apache);
    assert_eq!(reload_choice(&c, false, true), Reload::Nothing);
    assert_eq!(reload_choice(&n, true, true), Reload::Nginx);
}

#[test]
fn notices() {
    let n = Notices { update: Some(info("1.0.0")), message: Some(s("m")), port_conflict: Some(port_conflict(80, None)) };
    let a = dismiss_notice(n.clone(), "update");
    assert!(a.update.is_none() && a.message.is_some() && a.port_conflict.is_some());
    let b = dismiss_notice(n.clone(), "message");
    assert!(b.update.is_some() && b.message.is_none() && b.port_conflict.is_some());
    let c = dismiss_notice(n.clone(), "port");
    assert!(c.update.is_some() && c.message.is_some() && c.port_conflict.is_none());
    let d = dismiss_notice(n, "all");
    assert!(d.update.is_none() && d.message.is_none() && d.port_conflict.is_some());
    let empty = Notices { update: None, message: None, port_conflict: None };
    let newer = check_update(empty.clone(), info("0.4.0"), "0.3.9");
    assert_eq!(newer.update.unwrap().version, "0.4.0");
    assert!(newer.message.is_none());
    let same = check_update(empty, info("0.3.9"), "0.3.9");
    assert!(same.update.is_none());
    assert_eq!(same.message.unwrap(), "у тебя последняя версия · v0.3.9");
}

#[test]
fn editor_files() {
    let p = Paths::new(s("/l"), Platform::Unix);
    let c = LaxConfig::defaults(Platform::Unix);
    assert_eq!(ini_path(&p, &c, "php").unwrap(), "/l/bin/php/php-8.4/php.ini");
    assert_eq!(ini_path(&p, &c, "mariadb").unwrap(), "/l/bin/mysql/mariadb-11.4.12/my.ini");
    assert_eq!(ini_path(&p, &c, "apache").unwrap(), "/l/bin/apache/Apache24/conf/httpd.conf");
    assert_eq!(ini_path(&p, &c, "nginx").unwrap(), "/l/bin/nginx/nginx-1.28.3/conf/nginx.conf");
    assert_eq!(ini_path(&p, &c, "lax").unwrap(), "/l/usr/lax.toml");
    assert_eq!(ini_path(&p, &c, "hosts").unwrap_err(), "unknown ini: hosts");
}

#[test]
fn project_actions() {
    let all = ActionFacts { has_package: true, has_composer: true, has_composer_bin: true };
    let none = ActionFacts { has_package: false, has_composer: false, has_composer_bin: false };
    assert_eq!(project_action_line("npm-install", all, "c").unwrap(), "npm install");
    assert_eq!(project_action_line("npm-install", none, "c").unwrap_err(), "package.json не найден");
    assert_eq!(project_action_line("composer-install", all, "/l/composer").unwrap(), "\"/l/composer\" install");
    let no_bin = ActionFacts { has_package: false, has_composer: true, has_composer_bin: false };
    assert_eq!(project_action_line("composer-install", no_bin, "x").unwrap(), "composer install");
    assert_eq!(project_action_line("composer-install", none, "x").unwrap_err(), "composer.json не найден");
    assert_eq!(project_action_line("npm-run:dev", all, "c").unwrap(), "npm run dev");
    assert_eq!(project_action_line("npm-run:npm-run:dev", all, "c").unwrap(), "npm run dev");
    assert_eq!(project_action_line("npm-run:dev;rm", all, "c").unwrap_err(), "недопустимое имя скрипта");
    assert_eq!(project_action_line("npm-run:", all, "c").unwrap_err(), "недопустимое имя скрипта");
    assert_eq!(project_action_line("npm-run:dev", none, "c").unwrap_err(), "package.json не найден");
    assert_eq!(project_action_line("deploy", all, "c").unwrap_err(), "unknown action: deploy");
}
