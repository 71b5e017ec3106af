use lax::config::{LaxConfig, Paths};
use lax::db::{
    create_database, create_database_result, import_sql, import_sql_result, list_databases,
    list_databases_args, mysql_args, mysql_bin, sanitize_db,
};
use lax::error::LaxError;
use lax::platform::Platform;
use lax::process::{taskkill, taskkill_image, unix_lib_env, ManagedProcess, ProcessTable};

fn s(x: &str) -> String {
    x.to_string()
}

fn v(xs: &[&str]) -> Vec<String> {
    xs.iter().map(|x| x.to_string()).collect()
}

fn msg_of<T>(r: Result<T, LaxError>) -> String {
    match r {
        Err(LaxError::Msg(m)) => m,
        _ => panic!("expected a message"),
    }
}

fn proc(pid: u32) -> ManagedProcess<&'static str> {
    ManagedProcess { pid, handle: "h" }
}

#[test]
fn table_get_after_insert() {
    let mut t: ProcessTable<&str> = ProcessTable::new();
    assert!(t.get("apache").is_none());
    assert!(t.insert("apache", proc(10)).is_none());
    assert!(t.insert("php-cgi-9003", proc(11)).is_none());
    assert_eq!(t.get("apache").unwrap().pid, 10);
    let old = t.insert("apache", proc(12)).unwrap();
    assert_eq!(old.pid, 10);
    assert_eq!(t.get("apache").unwrap().pid, 12);
    assert_eq!(t.names(), v(&["apache", "php-cgi-9003"]));
}

#[test]
fn table_remove_leaves_others() {
    let mut t: ProcessTable<&str> = ProcessTable::new();
    t.insert("a", proc(1));
    t.insert("b", proc(2));
    assert_eq!(t.remove("a").unwrap().pid, 1);
    assert!(t.remove("a").is_none());
    assert!(t.get("a").is_none());
    assert_eq!(t.get("b").unwrap().pid, 2);
}

#[test]
fn table_take_prefix_and_all() {
    let mut t: ProcessTable<&str> = ProcessTable::new();
    t.insert("php-cgi-9003", proc(1));
    t.insert("mariadb", proc(2));
    t.insert("php-cgi-9004", proc(3));
    assert_eq!(t.names_with_prefix("php-cgi-"), v(&["php-cgi-9003", "php-cgi-9004"]));
    let taken: Vec<u32> = t.take_prefix("php-cgi-").iter().map(|p| p.pid).collect();
    assert_eq!(taken, vec![1, 3]);
    assert_eq!(t.names(), v(&["mariadb"]));
    let all: Vec<u32> = t.take_all().iter().map(|p| p.pid).collect();
    assert_eq!(all, vec![2]);
    assert!(t.names().is_empty());
}

#[test]
fn kill_helpers() {
    let c = taskkill(7, Platform::Windows);
    assert_eq!(c[0].args, v(&["/F", "/T", "/PID", "7"]));
    let c = taskkill_image("nginx.exe", Platform::Unix);
    assert_eq!(c[0].program, "pkill");
    assert_eq!(c[0].args, v(&["-f", "nginx"]));
}

#[test]
fn library_path_for_bundled_programs() {
    let dirs = v(&["/l/lib", "/l/lib64"]);
    assert_eq!(unix_lib_env(&dirs, "", Platform::Unix), vec![(s("LD_LIBRARY_PATH"), s("/l/lib:/l/lib64"))]);
    assert_eq!(unix_lib_env(&dirs, "/usr/lib", Platform::Unix), vec![(s("LD_LIBRARY_PATH"), s("/l/lib:/l/lib64:/usr/lib"))]);
    assert!(unix_lib_env(&dirs, "/usr/lib", Platform::Windows).is_empty());
    assert!(unix_lib_env(&vec![], "/usr/lib", Platform::Unix).is_empty());
}

#[test]
fn client_binary_and_arguments() {
    let p = Paths::new(s("C:\\lax"), Platform::Windows);
    let cfg = LaxConfig::defaults(Platform::Windows);
    assert_eq!(mysql_bin(&p, &cfg, true), "C:\\lax\\bin\\mysql\\mariadb-10.11.13\\bin\\mysql.exe");
    assert_eq!(mysql_bin(&p, &cfg, false), "C:\\lax\\bin\\mysql\\mariadb-10.11.13\\bin\\mariadb.exe");
    assert_eq!(mysql_args(&cfg), v(&["-uroot", "--password=", "-h", "127.0.0.1", "-P", "3306"]));
    assert_eq!(
        list_databases_args(&cfg),
        v(&["-uroot", "--password=", "-h", "127.0.0.1", "-P", "3306", "-N", "-e", "SHOW DATABASES"])
    );
}

#[test]
fn database_names_checked() {
    assert_eq!(sanitize_db("  shop_1 ").unwrap(), "shop_1");
    assert_eq!(sanitize_db("_x").unwrap(), "_x");
    assert_eq!(msg_of(sanitize_db("   ")), "некорректное имя базы");
    assert_eq!(msg_of(sanitize_db(&"a".repeat(65))), "некорректное имя базы");
    assert_eq!(sanitize_db(&"a".repeat(64)).unwrap().len(), 64);
    assert_eq!(msg_of(sanitize_db("1shop")), "имя базы должно начинаться с буквы");
    assert_eq!(msg_of(sanitize_db("shop-1")), "в имени базы только латиница, цифры и _");
    assert_eq!(msg_of(sanitize_db("x; DROP")), "в имени базы только латиница, цифры и _");
}

#[test]
fn listing_databases() {
    let out = "mysql\nshop\n information_schema \n\nblog\nsys\nperformance_schema\n";
    assert_eq!(list_databases(0, out).unwrap(), v(&["blog", "shop"]));
    assert_eq!(
        msg_of(list_databases(1, "ERROR 2002")),
        "не удалось получить список баз (MariaDB запущена?)\nERROR 2002"
    );
}

#[test]
fn creating_and_importing() {
    let cfg = LaxConfig::defaults(Platform::Unix);
    let a = create_database(&cfg, " blog ").unwrap();
    assert_eq!(a[6], "-e");
    assert_eq!(a[7], "CREATE DATABASE IF NOT EXISTS `blog` CHARACTER SET utf8mb4 COLLATE utf8mb4_unicode_ci");
    assert_eq!(msg_of(create_database(&cfg, "9")), "имя базы должно начинаться с буквы");
    assert!(create_database_result(0, "").is_ok());
    assert_eq!(msg_of(create_database_result(1, "denied")), "не удалось создать базу:\ndenied");
    let i = import_sql(&cfg, "blog", "SELECT 1;").unwrap();
    assert_eq!(&i[6..], &v(&["--default-character-set=utf8mb4", "blog"])[..]);
    let big = "x".repeat(41943041);
    assert_eq!(msg_of(import_sql(&cfg, "blog", &big)), "дамп больше 40 МБ — импортируй через mysql CLI");
    assert!(import_sql(&cfg, "blog", &"x".repeat(41943040)).is_ok());
    assert_eq!(msg_of(import_sql(&cfg, "", "x")), "некорректное имя базы");
    assert!(import_sql_result(true, "").is_ok());
    assert_eq!(msg_of(import_sql_result(false, "oops")), "импорт не удался:\noops");
}
