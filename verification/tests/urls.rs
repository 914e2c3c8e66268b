use requestsautomation::config::{config_sources, list_url, log_level, LogLevel};
use requestsautomation::grpcserver::{choose_urlget, compose_request_url, list_mode, ListMode, ListRun};
use requestsautomation::error::RpcCode;
use requestsautomation::httprequests::urlsbuilder;

fn group(field: &str, values: &[&str]) -> (String, Vec<String>) {
    (field.to_string(), values.iter().map(|v| v.to_string()).collect())
}

#[test]
fn urlsbuilder_single_group() {
    let r = urlsbuilder("", &vec![group("status", &["open", "closed"])]);
    assert_eq!(r, vec!["status+eq+open".to_string(), "status+eq+closed".to_string()]);
}

#[test]
fn urlsbuilder_two_groups_cross() {
    let r = urlsbuilder(
        "base",
        &vec![group("a", &["1", "2"]), group("b", &["x", "y", "z"]), group("c", &["ignored"])],
    );
    assert_eq!(r.len(), 6);
    assert_eq!(r[0], "a+eq+1 AND b+eq+x");
    assert_eq!(r[1 * 3 + 2], "a+eq+2 AND b+eq+z");
}

#[test]
fn urlsbuilder_empty_values() {
    let r = urlsbuilder("", &vec![group("a", &[]), group("b", &["x"])]);
    assert!(r.is_empty());
}

#[test]
fn request_url_without_query() {
    assert_eq!(compose_request_url("http://h/tasks", "a+eq+1"), "http://h/tasks?q=a+eq+1");
}

#[test]
fn request_url_with_query_joins_with_and() {
    assert_eq!(
        compose_request_url(" http://h/tasks?q=x+eq+1 ", "a+eq+1"),
        "http://h/tasks?q=x+eq+1 AND a+eq+1"
    );
}

#[test]
fn request_url_after_dangling_and() {
    assert_eq!(compose_request_url("http://h?q=x AND", "a"), "http://h?q=x ANDa");
    assert_eq!(compose_request_url("http://h?q=x+AND+", "a"), "http://h?q=x+AND+a");
}

#[test]
fn request_url_without_term() {
    assert_eq!(compose_request_url("http://h?q=x AND  ", ""), "http://h?q=x");
    assert_eq!(compose_request_url("http://h?q=x+AND+", ""), "http://h?q=x+");
    assert_eq!(compose_request_url("http://h?q=x", ""), "http://h?q=x");
    assert_eq!(compose_request_url(" http://h ", ""), " http://h ");
}

#[test]
fn urlget_choice() {
    assert_eq!(choose_urlget("", "/conf"), "/conf");
    assert_eq!(choose_urlget("/req", "/conf"), "/req");
}

#[test]
fn list_modes() {
    assert_eq!(list_mode("DB", true).unwrap(), ListMode::Database);
    let e = list_mode("database", false).unwrap_err();
    assert_eq!(e.code, RpcCode::FailedPrecondition);
    assert_eq!(e.message, "Database is not enabled in settings");
    assert_eq!(list_mode("Csv", true).unwrap(), ListMode::File);
    assert_eq!(list_mode("now", true).unwrap(), ListMode::Direct);
    assert_eq!(list_mode("", true).unwrap(), ListMode::Database);
    assert_eq!(list_mode("other", false).unwrap(), ListMode::File);
}

#[test]
fn list_run_respects_limit() {
    let mut run = ListRun::new("http://h".to_string(), vec!["a".to_string(), "b".to_string(), "c".to_string()], 5);
    assert_eq!(run.next_request().unwrap(), "http://h?q=a");
    assert_eq!(run.row_budget(), Some(5));
    run.record(3);
    assert_eq!(run.row_budget(), Some(2));
    assert_eq!(run.next_request().unwrap(), "http://h?q=b");
    run.record(2);
    assert!(run.next_request().is_none());
    assert_eq!(run.written, 5);
}

#[test]
fn list_run_without_limit() {
    let mut run = ListRun::new("u".to_string(), vec!["".to_string()], 0);
    assert_eq!(run.row_budget(), None);
    assert_eq!(run.next_request().unwrap(), "u");
    run.record(40);
    assert!(run.next_request().is_none());
}

#[test]
fn config_source_paths() {
    let s = config_sources(Some("/srv/app"), None);
    assert_eq!(s.default_file, "/srv/app/config/default");
    assert_eq!(s.run_mode_file, "/srv/app/config/development");
    assert_eq!(s.locals_file, "/srv/app/config/locals");
    assert_eq!(s.env_prefix, "app");
    let s = config_sources(Some("/srv/"), Some("production"));
    assert_eq!(s.default_file, "/srv/config/default");
    assert_eq!(s.run_mode_file, "/srv/config/production");
    let s = config_sources(None, Some("test"));
    assert_eq!(s.default_file, "config/default");
    assert_eq!(s.run_mode_file, "config/test");
}

#[test]
fn log_levels() {
    assert_eq!(log_level("ERROR"), LogLevel::Error);
    assert_eq!(log_level("WARN"), LogLevel::Warn);
    assert_eq!(log_level("INFO"), LogLevel::Info);
    assert_eq!(log_level("DEBUG"), LogLevel::Debug);
    assert_eq!(log_level("TRACE"), LogLevel::Trace);
    assert_eq!(log_level("debug"), LogLevel::Info);
}

#[test]
fn list_url_joins_parts() {
    let conf = requestsautomation_test_config();
    assert_eq!(list_url(&conf, "/list"), "http://base/put/list");
}

fn requestsautomation_test_config() -> requestsautomation::config::AppConfig {
    requestsautomation::config::AppConfig {
        grpcport: "50051".to_string(),
        username: "u".to_string(),
        password: "p".to_string(),
        baseurl: "http://base".to_string(),
        urlget: "/get".to_string(),
        urlfilter: vec![],
        entries: 1,
        filter1: "".to_string(),
        filter2: "".to_string(),
        urlput: "/put".to_string(),
        printmode: false,
        checkmode: false,
        filemode: false,
        filelist: "tasks.csv".to_string(),
        timeout: 3,
        sleep: 0,
    }
}
