//! The stack as the window shows it: the service cards, the notices, and
//! the decisions of starting the web server and of the service buttons.
use vstd::prelude::*;
use crate::config::{LaxConfig};
use crate::discover::{apache_versions, mysql_versions, nginx_versions, php_versions};
use crate::error::{LaxError, LaxResult, err_msg, is_msg};
use crate::process::{ProcessTable};
use crate::projects::{ProjectInfo, web_port};
use crate::text::{append_str, chars_of, dec, dec_chars, eq_str, string_of};
use crate::update::{UpdateInfo, is_newer, key_lt, semver_key};

verus! {

/// A service card.
#[derive(Clone, Debug)]
pub struct ServiceInfo {
    pub id: String,
    pub name: String,
    pub running: bool,
    pub pid: Option<u32>,
    pub port: Option<u16>,
    pub version: String,
    pub enabled: bool,
}

/// Who holds a port the web server needs.
#[derive(Clone, Debug)]
pub struct PortConflict {
    pub port: u16,
    pub pid: u32,
    pub process: String,
}

/// Everything the window shows at once.
#[derive(Clone, Debug)]
pub struct Snapshot {
    pub root: String,
    pub config: LaxConfig,
    pub services: Vec<ServiceInfo>,
    pub projects: Vec<ProjectInfo>,
    pub php_versions: Vec<String>,
    pub mysql_versions: Vec<String>,
    pub nginx_versions: Vec<String>,
    pub apache_versions: Vec<String>,
    pub hosts_writable: bool,
    pub message: Option<String>,
    pub port_conflict: Option<PortConflict>,
    pub node_available: bool,
    pub mailpit_available: bool,
    pub app_version: String,
    pub repo_url: String,
    pub issues_url: String,
    pub feedback_url: String,
    pub update: Option<UpdateInfo>,
}

/// The web server is Nginx.
pub open spec fn uses_nginx(cfg: LaxConfig) -> bool {
    cfg.web_server@ == "nginx"@
}

/// The web server is Apache.
pub open spec fn uses_apache(cfg: LaxConfig) -> bool {
    cfg.web_server@ == "apache"@
}

fn is_nginx(cfg: &LaxConfig) -> (r: bool)
    ensures
        r == uses_nginx(*cfg),
{
    eq_str(&chars_of(cfg.web_server.as_str()), "nginx")
}

fn is_apache(cfg: &LaxConfig) -> (r: bool)
    ensures
        r == uses_apache(*cfg),
{
    eq_str(&chars_of(cfg.web_server.as_str()), "apache")
}

/// The port of the configured web server.
pub fn web_port_of(cfg: &LaxConfig) -> (r: u16)
    ensures
        r == web_port(*cfg),
{
    if is_nginx(cfg) {
        cfg.nginx_port
    } else {
        cfg.apache_port
    }
}

/// What is open on the machine, as probed for the service cards.
#[derive(Clone, Debug)]
pub struct PortProbes {
    pub apache_open: bool,
    pub nginx_open: bool,
    pub mysql_open: bool,
    /// For each configured PHP port, in order.
    pub cgi_open: Vec<bool>,
    pub mailpit_ui_open: bool,
    pub mailpit_smtp_open: bool,
}

/// PHP runs: behind Nginx when one of its ports is open, behind Apache when
/// Apache's port is open.
pub open spec fn php_running_spec(cfg: LaxConfig, p: PortProbes) -> bool {
    if uses_nginx(cfg) {
        exists|i: int| 0 <= i < p.cgi_open@.len() && p.cgi_open@[i]
    } else {
        p.apache_open
    }
}

fn any_true(v: &Vec<bool>) -> (r: bool)
    ensures
        r == exists|i: int| 0 <= i < v@.len() && v@[i],
{
    let mut i: usize = 0;
    while i < v.len()
        invariant
            i <= v@.len(),
            forall|j: int| 0 <= j < i ==> !v@[j],
        decreases v.len() - i,
    {
        if v[i] {
            return true;
        }
        i += 1;
    }
    false
}

pub fn php_running(cfg: &LaxConfig, p: &PortProbes) -> (r: bool)
    ensures
        r == php_running_spec(*cfg, *p),
{
    if is_nginx(cfg) {
        any_true(&p.cgi_open)
    } else {
        p.apache_open
    }
}

pub open spec fn pid_in<H>(t: ProcessTable<H>, name: Seq<char>) -> Option<u32> {
    if t.view().contains_key(name) {
        Some(t.view()[name].pid)
    } else {
        None
    }
}

fn pid_of<H>(t: &ProcessTable<H>, name: &str) -> (r: Option<u32>)
    requires
        t.wf(),
    ensures
        r == pid_in(*t, name@),
{
    match t.get(name) {
        Some(p) => Some(p.pid),
        None => None,
    }
}

pub open spec fn service_view(s: ServiceInfo) -> (Seq<char>, Seq<char>, bool, Option<u32>, Option<u16>, Seq<char>, bool) {
    (s.id@, s.name@, s.running, s.pid, s.port, s.version@, s.enabled)
}

/// The five service cards: Apache and Nginx (running when their port is
/// open and they are the configured server), MariaDB, PHP (the worker on
/// port 9003, the first configured port), and Mailpit (SMTP 1025, UI 8025;
/// enabled when it is installed).
pub open spec fn service_infos_spec<H>(cfg: LaxConfig, t: ProcessTable<H>, p: PortProbes, mailpit_available: bool) -> Seq<
    (Seq<char>, Seq<char>, bool, Option<u32>, Option<u16>, Seq<char>, bool),
> {
    seq![
        (
            "apache"@,
            "Apache"@,
            p.apache_open && uses_apache(cfg),
            pid_in(t, "apache"@),
            Some(cfg.apache_port),
            cfg.apache_version@,
            uses_apache(cfg),
        ),
        (
            "nginx"@,
            "Nginx"@,
            p.nginx_open && uses_nginx(cfg),
            pid_in(t, "nginx"@),
            Some(cfg.nginx_port),
            cfg.nginx_version@,
            uses_nginx(cfg),
        ),
        (
            "mariadb"@,
            "MariaDB"@,
            p.mysql_open,
            pid_in(t, "mariadb"@),
            Some(cfg.mysql_port),
            cfg.mysql_version@,
            cfg.mysql_enabled,
        ),
        (
            "php"@,
            "PHP"@,
            php_running_spec(cfg, p),
            pid_in(t, "php-cgi-9003"@),
            if cfg.php_cgi_ports@.len() > 0 {
                Some(cfg.php_cgi_ports@[0])
            } else {
                None
            },
            cfg.php_version@,
            true,
        ),
        (
            "mailpit"@,
            "Mailpit"@,
            p.mailpit_ui_open || p.mailpit_smtp_open,
            pid_in(t, "mailpit"@),
            Some(8025u16),
            "SMTP :1025"@,
            mailpit_available,
        ),
    ]
}

/// The service cards.
pub fn service_infos<H>(cfg: &LaxConfig, t: &ProcessTable<H>, p: &PortProbes, mailpit_available: bool) -> (r: Vec<ServiceInfo>)
    requires
        t.wf(),
    ensures
        r@.map_values(|s: ServiceInfo| service_view(s)) == service_infos_spec(*cfg, *t, *p, mailpit_available),
{
    let apache_on = is_apache(cfg);
    let nginx_on = is_nginx(cfg);
    let mut r: Vec<ServiceInfo> = Vec::new();
    r.push(
        ServiceInfo {
            id: "apache".to_string(),
            name: "Apache".to_string(),
            running: p.apache_open && apache_on,
            pid: pid_of(t, "apache"),
            port: Some(cfg.apache_port),
            version: cfg.apache_version.clone(),
            enabled: apache_on,
        },
    );
    r.push(
        ServiceInfo {
            id: "nginx".to_string(),
            name: "Nginx".to_string(),
            running: p.nginx_open && nginx_on,
            pid: pid_of(t, "nginx"),
            port: Some(cfg.nginx_port),
            version: cfg.nginx_version.clone(),
            enabled: nginx_on,
        },
    );
    r.push(
        ServiceInfo {
            id: "mariadb".to_string(),
            name: "MariaDB".to_string(),
            running: p.mysql_open,
            pid: pid_of(t, "mariadb"),
            port: Some(cfg.mysql_port),
            version: cfg.mysql_version.clone(),
            enabled: cfg.mysql_enabled,
        },
    );
    let first_port = if cfg.php_cgi_ports.len() > 0 {
        Some(cfg.php_cgi_ports[0])
    } else {
        None
    };
    r.push(
        ServiceInfo {
            id: "php".to_string(),
            name: "PHP".to_string(),
            running: php_running(cfg, p),
            pid: pid_of(t, "php-cgi-9003"),
            port: first_port,
            version: cfg.php_version.clone(),
            enabled: true,
        },
    );
    r.push(
        ServiceInfo {
            id: "mailpit".to_string(),
            name: "Mailpit".to_string(),
            running: p.mailpit_ui_open || p.mailpit_smtp_open,
            pid: pid_of(t, "mailpit"),
            port: Some(8025),
            version: "SMTP :1025".to_string(),
            enabled: mailpit_available,
        },
    );
    assert(r@.map_values(|s: ServiceInfo| service_view(s)) =~= service_infos_spec(*cfg, *t, *p, mailpit_available));
    r
}

// ---------------------------------------------------------------------------
// Port conflicts
// ---------------------------------------------------------------------------

/// The conflict recorded for `port`, from who listens there (`None`:
/// unknown, pid 0).
pub fn port_conflict(port: u16, listener: Option<(u32, String)>) -> (c: PortConflict)
    ensures
        c.port == port,
        match listener {
            Some((pid, name)) => c.pid == pid && c.process@ == name@,
            None => c.pid == 0 && c.process@ == "неизвестно"@,
        },
{
    match listener {
        Some((pid, process)) => PortConflict { port, pid, process },
        None => PortConflict { port, pid: 0, process: "неизвестно".to_string() },
    }
}

/// The error for a port the web server could not take: who holds it when
/// that is known, else a pointer to the logs.
pub open spec fn fail_port_text(port: u16, c: PortConflict) -> Seq<char> {
    if c.pid != 0 {
        "порт "@ + dec(port as nat) + " занят: "@ + c.process@ + " (PID "@ + dec(c.pid as nat) + ")"@
    } else {
        "порт "@ + dec(port as nat) + " не открылся. Смотри логи Apache/Nginx."@
    }
}

pub fn fail_port_error(port: u16, c: &PortConflict) -> (e: LaxError)
    ensures
        is_msg(e, fail_port_text(port, *c)),
{
    let mut v = chars_of("порт ");
    dec_chars(port as u64, &mut v);
    if c.pid != 0 {
        append_str(&mut v, " занят: ");
        append_str(&mut v, c.process.as_str());
        append_str(&mut v, " (PID ");
        dec_chars(c.pid as u64, &mut v);
        append_str(&mut v, ")");
    } else {
        append_str(&mut v, " не открылся. Смотри логи Apache/Nginx.");
    }
    LaxError::msg(string_of(&v))
}

// ---------------------------------------------------------------------------
// Starting the web server
// ---------------------------------------------------------------------------

/// Where the start of the web server stands.
#[derive(Clone, Copy, Debug, PartialEq, Eq, Structural)]
pub enum WebStep {
    /// Nothing done yet.
    Start,
    /// Nginx: Apache is being stopped.
    NginxStoppingApache,
    /// Nginx: PHP's ports are being probed.
    NginxProbingPhp,
    /// Nginx: PHP is being started.
    NginxStartingPhp,
    /// Nginx: its port is being probed.
    NginxProbing,
    /// Nginx: it is being started.
    NginxStarting,
    /// Nginx: waiting for its port.
    NginxWaiting,
    /// Apache: Nginx is being stopped.
    ApacheStoppingNginx,
    /// Apache: PHP is being stopped.
    ApacheStoppingPhp,
    /// Apache: its port is being probed.
    ApacheProbing,
    /// Apache: it is being started.
    ApacheStarting,
    /// Apache: waiting for its port.
    ApacheWaiting,
    /// Over.
    Finished,
}

/// What the application does next.
#[derive(Clone, Copy, Debug, PartialEq, Eq, Structural)]
pub enum WebAction {
    /// Stop with the error of a conflict on this port.
    Fail(u16),
    StopApache,
    StopNginx,
    StopPhp,
    /// Probe whether one of PHP's ports is open.
    ProbePhp,
    StartPhp,
    /// Probe whether this port is open.
    Probe(u16),
    StartNginx,
    StartApache,
    /// Wait (up to thirty probes) for this port to open.
    Wait(u16),
    /// The web server runs.
    Done,
}

/// What the application reports back.
#[derive(Clone, Copy, Debug, PartialEq, Eq, Structural)]
pub enum WebEvent {
    /// At the start: the web port is open, and the table holds Apache or Nginx.
    Began { busy: bool, ours: bool },
    /// The last action is done.
    Finished,
    /// The answer of a probe or a wait.
    Open(bool),
}

/// One step of starting the web server. A busy port that the stack does not
/// hold is a conflict. For Nginx: stop Apache, start PHP unless one of its
/// ports is open, start Nginx unless its port is open and wait for it. For
/// Apache: stop Nginx and PHP, start Apache unless its port is open and wait
/// for it. A wait that fails is a conflict on that port; an event that does
/// not fit the step ends the run.
pub open spec fn web_next_spec(cfg: LaxConfig, s: WebStep, e: WebEvent) -> (WebStep, WebAction) {
    match (s, e) {
        (WebStep::Start, WebEvent::Began { busy, ours }) => if busy && !ours {
            (WebStep::Finished, WebAction::Fail(web_port(cfg)))
        } else if uses_nginx(cfg) {
            (WebStep::NginxStoppingApache, WebAction::StopApache)
        } else {
            (WebStep::ApacheStoppingNginx, WebAction::StopNginx)
        },
        (WebStep::NginxStoppingApache, WebEvent::Finished) => (WebStep::NginxProbingPhp, WebAction::ProbePhp),
        (WebStep::NginxProbingPhp, WebEvent::Open(any)) => if any {
            (WebStep::NginxProbing, WebAction::Probe(cfg.nginx_port))
        } else {
            (WebStep::NginxStartingPhp, WebAction::StartPhp)
        },
        (WebStep::NginxStartingPhp, WebEvent::Finished) => (WebStep::NginxProbing, WebAction::Probe(cfg.nginx_port)),
        (WebStep::NginxProbing, WebEvent::Open(open)) => if open {
            (WebStep::Finished, WebAction::Done)
        } else {
            (WebStep::NginxStarting, WebAction::StartNginx)
        },
        (WebStep::NginxStarting, WebEvent::Finished) => (WebStep::NginxWaiting, WebAction::Wait(cfg.nginx_port)),
        (WebStep::NginxWaiting, WebEvent::Open(ok)) => if ok {
            (WebStep::Finished, WebAction::Done)
        } else {
            (WebStep::Finished, WebAction::Fail(cfg.nginx_port))
        },
        (WebStep::ApacheStoppingNginx, WebEvent::Finished) => (WebStep::ApacheStoppingPhp, WebAction::StopPhp),
        (WebStep::ApacheStoppingPhp, WebEvent::Finished) => (WebStep::ApacheProbing, WebAction::Probe(cfg.apache_port)),
        (WebStep::ApacheProbing, WebEvent::Open(open)) => if open {
            (WebStep::Finished, WebAction::Done)
        } else {
            (WebStep::ApacheStarting, WebAction::StartApache)
        },
        (WebStep::ApacheStarting, WebEvent::Finished) => (WebStep::ApacheWaiting, WebAction::Wait(cfg.apache_port)),
        (WebStep::ApacheWaiting, WebEvent::Open(ok)) => if ok {
            (WebStep::Finished, WebAction::Done)
        } else {
            (WebStep::Finished, WebAction::Fail(cfg.apache_port))
        },
        _ => (WebStep::Finished, WebAction::Done),
    }
}

/// One step of starting the web server.
pub fn web_next(cfg: &LaxConfig, s: WebStep, e: WebEvent) -> (r: (WebStep, WebAction))
    ensures
        r == web_next_spec(*cfg, s, e),
{
    match (s, e) {
        (WebStep::Start, WebEvent::Began { busy, ours }) => if busy && !ours {
            (WebStep::Finished, WebAction::Fail(web_port_of(cfg)))
        } else if is_nginx(cfg) {
            (WebStep::NginxStoppingApache, WebAction::StopApache)
        } else {
            (WebStep::ApacheStoppingNginx, WebAction::StopNginx)
        },
        (WebStep::NginxStoppingApache, WebEvent::Finished) => (WebStep::NginxProbingPhp, WebAction::ProbePhp),
        (WebStep::NginxProbingPhp, WebEvent::Open(any)) => if any {
            (WebStep::NginxProbing, WebAction::Probe(cfg.nginx_port))
        } else {
            (WebStep::NginxStartingPhp, WebAction::StartPhp)
        },
        (WebStep::NginxStartingPhp, WebEvent::Finished) => (WebStep::NginxProbing, WebAction::Probe(cfg.nginx_port)),
        (WebStep::NginxProbing, WebEvent::Open(open)) => if open {
            (WebStep::Finished, WebAction::Done)
        } else {
            (WebStep::NginxStarting, WebAction::StartNginx)
        },
        (WebStep::NginxStarting, WebEvent::Finished) => (WebStep::NginxWaiting, WebAction::Wait(cfg.nginx_port)),
        (WebStep::NginxWaiting, WebEvent::Open(ok)) => if ok {
            (WebStep::Finished, WebAction::Done)
        } else {
            (WebStep::Finished, WebAction::Fail(cfg.nginx_port))
        },
        (WebStep::ApacheStoppingNginx, WebEvent::Finished) => (WebStep::ApacheStoppingPhp, WebAction::StopPhp),
        (WebStep::ApacheStoppingPhp, WebEvent::Finished) => (WebStep::ApacheProbing, WebAction::Probe(cfg.apache_port)),
        (WebStep::ApacheProbing, WebEvent::Open(open)) => if open {
            (WebStep::Finished, WebAction::Done)
        } else {
            (WebStep::ApacheStarting, WebAction::StartApache)
        },
        (WebStep::ApacheStarting, WebEvent::Finished) => (WebStep::ApacheWaiting, WebAction::Wait(cfg.apache_port)),
        (WebStep::ApacheWaiting, WebEvent::Open(ok)) => if ok {
            (WebStep::Finished, WebAction::Done)
        } else {
            (WebStep::Finished, WebAction::Fail(cfg.apache_port))
        },
        _ => (WebStep::Finished, WebAction::Done),
    }
}

/// The steps of the Nginx branch.
pub open spec fn nginx_step(s: WebStep) -> bool {
    s == WebStep::NginxStoppingApache || s == WebStep::NginxProbingPhp || s == WebStep::NginxStartingPhp
        || s == WebStep::NginxProbing || s == WebStep::NginxStarting || s == WebStep::NginxWaiting
}

/// The steps of the Apache branch.
pub open spec fn apache_step(s: WebStep) -> bool {
    s == WebStep::ApacheStoppingNginx || s == WebStep::ApacheStoppingPhp || s == WebStep::ApacheProbing
        || s == WebStep::ApacheStarting || s == WebStep::ApacheWaiting
}

/// Starting the web server follows the configured server only: from any
/// step that belongs to it (or the start), the next step belongs to it too,
/// Apache is never started when Nginx is configured, and Nginx and PHP's
/// workers are never started otherwise.
pub proof fn lemma_web_follows_config(cfg: LaxConfig, s: WebStep, e: WebEvent)
    ensures
        uses_nginx(cfg) && !apache_step(s) ==> {
            let (n, a) = web_next_spec(cfg, s, e);
            &&& !apache_step(n)
            &&& a != WebAction::StartApache
        },
        !uses_nginx(cfg) && !nginx_step(s) ==> {
            let (n, a) = web_next_spec(cfg, s, e);
            &&& !nginx_step(n)
            &&& a != WebAction::StartNginx
            &&& a != WebAction::StartPhp
        },
{
}

/// The run ends: every step but the last moves to a later step, so a start
/// takes at most thirteen steps.
pub open spec fn web_rank(s: WebStep) -> nat {
    match s {
        WebStep::Start => 12,
        WebStep::NginxStoppingApache => 11,
        WebStep::NginxProbingPhp => 10,
        WebStep::NginxStartingPhp => 9,
        WebStep::NginxProbing => 8,
        WebStep::NginxStarting => 7,
        WebStep::NginxWaiting => 6,
        WebStep::ApacheStoppingNginx => 5,
        WebStep::ApacheStoppingPhp => 4,
        WebStep::ApacheProbing => 3,
        WebStep::ApacheStarting => 2,
        WebStep::ApacheWaiting => 1,
        WebStep::Finished => 0,
    }
}

/// Every step of starting the web server moves closer to the end.
pub proof fn lemma_web_progress(cfg: LaxConfig, s: WebStep, e: WebEvent)
    requires
        s != WebStep::Finished,
    ensures
        web_rank(web_next_spec(cfg, s, e).0) < web_rank(s),
{
}

// ---------------------------------------------------------------------------
// Service buttons and settings
// ---------------------------------------------------------------------------

/// A service of the stack.
#[derive(Clone, Copy, Debug, PartialEq, Eq, Structural)]
pub enum ServiceId {
    Apache,
    Nginx,
    Mariadb,
    Php,
    Mailpit,
}

pub open spec fn service_id_spec(id: Seq<char>) -> Option<ServiceId> {
    if id == "apache"@ {
        Some(ServiceId::Apache)
    } else if id == "nginx"@ {
        Some(ServiceId::Nginx)
    } else if id == "mariadb"@ || id == "mysql"@ {
        Some(ServiceId::Mariadb)
    } else if id == "php"@ {
        Some(ServiceId::Php)
    } else if id == "mailpit"@ {
        Some(ServiceId::Mailpit)
    } else {
        None
    }
}

/// The service a button names (`mysql` is MariaDB too), or the error for an
/// unknown one.
pub fn service_id(id: &str) -> (r: LaxResult<ServiceId>)
    ensures
        match service_id_spec(id@) {
            Some(s) => r matches Ok(x) && x == s,
            None => err_msg(r, "unknown service "@ + id@),
        },
{
    let v = chars_of(id);
    if eq_str(&v, "apache") {
        Ok(ServiceId::Apache)
    } else if eq_str(&v, "nginx") {
        Ok(ServiceId::Nginx)
    } else if eq_str(&v, "mariadb") || eq_str(&v, "mysql") {
        Ok(ServiceId::Mariadb)
    } else if eq_str(&v, "php") {
        Ok(ServiceId::Php)
    } else if eq_str(&v, "mailpit") {
        Ok(ServiceId::Mailpit)
    } else {
        let mut m = chars_of("unknown service ");
        append_str(&mut m, id);
        Err(LaxError::msg(string_of(&m)))
    }
}

/// The error when Mailpit is asked for but not installed.
pub open spec fn mailpit_missing_msg() -> Seq<char> {
    "Mailpit не найден. Запусти scripts/fetch-tools.ps1 — бинарник появится в bin/mailpit"@
}

pub fn mailpit_missing() -> (e: LaxError)
    ensures
        is_msg(e, mailpit_missing_msg()),
{
    LaxError::msg("Mailpit не найден. Запусти scripts/fetch-tools.ps1 — бинарник появится в bin/mailpit".to_string())
}

/// The settings with `web_server` switched to `server` (the Apache and
/// Nginx buttons do so before starting).
pub fn with_web_server(cfg: LaxConfig, server: &str) -> (c: LaxConfig)
    ensures
        c.web_server@ == server@,
        c == (LaxConfig { web_server: c.web_server, ..cfg }),
{
    LaxConfig { web_server: server.to_string(), ..cfg }
}

/// The settings with both web servers on `port`; port 0 is refused.
pub fn with_web_port(cfg: LaxConfig, port: u16) -> (r: LaxResult<LaxConfig>)
    ensures
        port == 0 ==> err_msg(r, "некорректный порт"@),
        port != 0 ==> (r matches Ok(c) && c == (LaxConfig { apache_port: port, nginx_port: port, ..cfg })),
{
    if port == 0 {
        return Err(LaxError::msg("некорректный порт".to_string()));
    }
    Ok(LaxConfig { apache_port: port, nginx_port: port, ..cfg })
}

/// A PHP version can be switched to only when it is installed.
pub fn check_php_version(versions: &Vec<String>, version: &str) -> (r: LaxResult<()>)
    ensures
        versions@.map_values(|s: String| s@).contains(version@) <==> r is Ok,
        !versions@.map_values(|s: String| s@).contains(version@) ==> err_msg(
            r,
            "PHP version not found: "@ + version@,
        ),
{
    let ghost vs = versions@.map_values(|s: String| s@);
    let mut i: usize = 0;
    while i < versions.len()
        invariant
            i <= versions@.len(),
            vs == versions@.map_values(|s: String| s@),
            forall|j: int| 0 <= j < i ==> vs[j] != version@,
        decreases versions.len() - i,
    {
        if eq_str(&chars_of(versions[i].as_str()), version) {
            assert(vs[i as int] == version@);
            return Ok(());
        }
        i += 1;
    }
    let mut m = chars_of("PHP version not found: ");
    append_str(&mut m, version);
    Err(LaxError::msg(string_of(&m)))
}

/// `start_all` starts MariaDB when it is enabled and its port is not open.
pub fn should_start_mariadb(cfg: &LaxConfig, mysql_open: bool) -> (r: bool)
    ensures
        r == (cfg.mysql_enabled && !mysql_open),
{
    cfg.mysql_enabled && !mysql_open
}

/// Which web server to restart after a PHP change: the configured one, when
/// its port is open.
#[derive(Clone, Copy, Debug, PartialEq, Eq, Structural)]
pub enum Reload {
    Apache,
    Nginx,
    Nothing,
}

pub fn reload_choice(cfg: &LaxConfig, apache_open: bool, nginx_open: bool) -> (r: Reload)
    ensures
        r == if apache_open && uses_apache(*cfg) {
            Reload::Apache
        } else if nginx_open && uses_nginx(*cfg) {
            Reload::Nginx
        } else {
            Reload::Nothing
        },
{
    if apache_open && is_apache(cfg) {
        Reload::Apache
    } else if nginx_open && is_nginx(cfg) {
        Reload::Nginx
    } else {
        Reload::Nothing
    }
}

// ---------------------------------------------------------------------------
// Notices
// ---------------------------------------------------------------------------

/// The notices over the window: an available update, a message, a port
/// conflict.
#[derive(Clone, Debug)]
pub struct Notices {
    pub update: Option<UpdateInfo>,
    pub message: Option<String>,
    pub port_conflict: Option<PortConflict>,
}

/// Closing a notice: `update`, `message` or `port` closes that one; any
/// other name closes the update and the message.
pub fn dismiss_notice(n: Notices, which: &str) -> (r: Notices)
    ensures
        which@ == "update"@ ==> r.update is None && r.message == n.message && r.port_conflict
            == n.port_conflict,
        which@ == "message"@ ==> r.message is None && r.update == n.update && r.port_conflict
            == n.port_conflict,
        which@ == "port"@ ==> r.port_conflict is None && r.update == n.update && r.message
            == n.message,
        which@ != "update"@ && which@ != "message"@ && which@ != "port"@ ==> r.update is None
            && r.message is None && r.port_conflict == n.port_conflict,
{
    let w = chars_of(which);
    proof {
        reveal_strlit("update");
        reveal_strlit("message");
        reveal_strlit("port");
        assert("update"@.len() == 6);
        assert("message"@.len() == 7);
        assert("message"@ != "update"@);
        assert("port"@ != "update"@);
        assert("port"@ != "message"@);
    }
    if eq_str(&w, "update") {
        Notices { update: None, message: n.message, port_conflict: n.port_conflict }
    } else if eq_str(&w, "message") {
        Notices { update: n.update, message: None, port_conflict: n.port_conflict }
    } else if eq_str(&w, "port") {
        Notices { update: n.update, message: n.message, port_conflict: None }
    } else {
        Notices { update: None, message: None, port_conflict: n.port_conflict }
    }
}

/// The result of checking for an update: the release when it is newer than
/// the running version `current` (and no message), else no update and the
/// message that this is the latest version.
pub fn check_update(n: Notices, info: UpdateInfo, current: &str) -> (r: Notices)
    ensures
        r.port_conflict == n.port_conflict,
        key_lt(semver_key(current@), semver_key(info.version@)) ==> r.update == Some(info)
            && r.message is None,
        !key_lt(semver_key(current@), semver_key(info.version@)) ==> r.update is None && (r.message matches Some(
            m,
        ) && m@ == "у тебя последняя версия · v"@ + current@),
{
    if is_newer(info.version.as_str(), current) {
        Notices { update: Some(info), message: None, port_conflict: n.port_conflict }
    } else {
        let mut m = chars_of("у тебя последняя версия · v");
        append_str(&mut m, current);
        Notices { update: None, message: Some(string_of(&m)), port_conflict: n.port_conflict }
    }
}

} // verus!
