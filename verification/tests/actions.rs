use requestsautomation::config::{get_config, AppConfig};
use requestsautomation::dataendpoint::{action_mapper, is_known_action};
use requestsautomation::error::CliError;
use requestsautomation::grpcserver::{
    pending_ids, CallOutcome, RetriedTasks, RetryRun,
};
use requestsautomation::types::Action;

fn conf() -> AppConfig {
    AppConfig {
        grpcport: "50051".to_string(),
        username: "u".to_string(),
        password: "p".to_string(),
        baseurl: "http://base".to_string(),
        urlget: "/get".to_string(),
        urlfilter: vec![],
        entries: 1,
        filter1: "".to_string(),
        filter2: "".to_string(),
        urlput: "/tasks".to_string(),
        printmode: false,
        checkmode: false,
        filemode: false,
        filelist: "tasks.csv".to_string(),
        timeout: 3,
        sleep: 0,
    }
}

#[test]
fn action_names_and_codes() {
    assert_eq!(Action::Retry.to_string(), "retry");
    assert_eq!(Action::ManualComplete.to_string(), "manualcomplete");
    assert_eq!(Action::try_from(0), Ok(Action::Retry));
    assert_eq!(Action::try_from(1), Ok(Action::ManualComplete));
    assert_eq!(Action::try_from(2), Err(()));
    assert_eq!(Action::try_from(-1), Err(()));
    assert_eq!(Action::try_from(Action::ManualComplete.code()), Ok(Action::ManualComplete));
}

#[test]
fn action_mapper_maps_known_actions() {
    assert_eq!(action_mapper(0).unwrap().action, "retry");
    assert_eq!(action_mapper(1).unwrap().action, "manualcomplete");
    assert!(is_known_action(1));
    assert!(!is_known_action(7));
}

#[test]
fn error_messages() {
    let e = CliError::EntityNotFound { entity: "Task", id: 42 };
    assert_eq!(e.message(), "Entity 'Task' with id 42 not found");
    let e = CliError::EntityNotFound { entity: "", id: -3 };
    assert_eq!(e.message(), "Entity '' with id -3 not found");
    assert_eq!(CliError::DBError("x".to_string()).message(), "unknown data store error");
    assert_eq!(CliError::PE("x".to_string()).message(), "Entity  not found");
}

#[test]
fn missing_settings_error() {
    match get_config(&None) {
        Err(CliError::EntityNotFound { entity, id }) => {
            assert_eq!(entity, "Task");
            assert_eq!(id, 42);
        }
        _ => panic!("expected the not-found error"),
    }
}

#[test]
fn retry_stops_at_success() {
    let mut done = RetriedTasks::new();
    let mut run = RetryRun::new(&conf(), "77");
    assert_eq!(run.url, "http://base/tasks/77");
    assert!(run.start_attempt());
    run.finish_attempt(CallOutcome::Failed, &mut done);
    assert_eq!(done.entries.len(), 1);
    assert_eq!(done.entries[0].status, "400");
    assert!(run.start_attempt());
    run.finish_attempt(CallOutcome::Response { code: 200, text: "200 OK".to_string() }, &mut done);
    assert!(!run.start_attempt());
    assert_eq!(run.retry, 2);
    assert_eq!(done.entries.len(), 1);
    assert_eq!(done.entries[0].id, "77");
    assert_eq!(done.entries[0].status, "200 OK");
}

#[test]
fn retry_gives_up_after_three_calls() {
    let mut done = RetriedTasks::new();
    let mut run = RetryRun::new(&conf(), "8");
    let mut calls = 0;
    while run.start_attempt() {
        calls += 1;
        run.finish_attempt(
            CallOutcome::Response { code: 500, text: "500 Internal Server Error".to_string() },
            &mut done,
        );
    }
    assert_eq!(calls, 3);
    assert_eq!(done.entries[0].status, "500 Internal Server Error");
}

#[test]
fn retried_tasks_keep_one_entry_per_id() {
    let mut done = RetriedTasks::new();
    done.insert("a".to_string(), "1".to_string());
    done.insert("b".to_string(), "2".to_string());
    done.insert("a".to_string(), "3".to_string());
    assert_eq!(done.entries.len(), 2);
    let a = done.entries.iter().find(|e| e.id == "a").unwrap();
    assert_eq!(a.status, "3");
}

#[test]
fn check_mode_retries_nothing() {
    let ids = vec!["1".to_string(), "2".to_string()];
    assert!(pending_ids(true, ids.clone()).is_empty());
    assert_eq!(pending_ids(false, ids.clone()), ids);
}
