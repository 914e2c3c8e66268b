use requestsautomation::grpcserver::{list_answer, ListMode, TaskDetails};
use requestsautomation::db::{create_entry_sql, first_row, new_db_task, DbTask, TASK_SCHEMA};
use requestsautomation::error::{error_status, CliError, RpcCode};
use requestsautomation::grpcserver::{
    body_preview, connection_failure, connection_report, db_retry_target, load_failure_status,
    reload_answer,
};
use requestsautomation::httprequests::{fetchdatass, page_progress, PageFetch};
use requestsautomation::model::{Field, FieldValue, Link, Root, Task};
use requestsautomation::text::i64_text;

fn db_task(id: Option<&str>) -> DbTask {
    DbTask {
        id: id.map(|s| s.to_string()),
        process_instance_task_information_creation_date: 1704207064000,
        objects_name: "o".to_string(),
        process_instance_task_details_key: "333".to_string(),
        process_definition_tasks_task_name: "n".to_string(),
        process_instance_task_information_target_user: "u".to_string(),
    }
}

#[test]
fn create_statement() {
    let sql = create_entry_sql(&db_task(None)).unwrap();
    assert_eq!(
        sql,
        "\n            CREATE task SET\n            process_instance_task_information_creation_date = d'2024-01-02T14:51:04+00:00',\n            objects_name = 'o',\n            process_instance_task_details_key = '333',\n            process_definition_tasks_task_name = 'n',\n            process_instance_task_information_target_user = 'u'\n            "
    );
    let mut far = db_task(None);
    far.process_instance_task_information_creation_date = i64::MAX;
    assert!(create_entry_sql(&far).is_none());
    assert!(TASK_SCHEMA.contains("DEFINE FIELD objects_name ON TABLE task TYPE string;"));
}

#[test]
fn first_row_of_query() {
    let r = first_row(vec![db_task(Some("task:1"))]).unwrap();
    assert_eq!(r.id.as_deref(), Some("task:1"));
    match first_row(vec![]) {
        Err(CliError::EntityNotFound { entity, id }) => {
            assert_eq!(entity, "Task");
            assert_eq!(id, 0);
        }
        _ => panic!("expected not found"),
    }
}

#[test]
fn db_task_dates() {
    let t = new_db_task("2024-01-02 14:51:04Z", "o".into(), "k".into(), "n".into(), "u".into()).unwrap();
    assert_eq!(t.process_instance_task_information_creation_date, 1704207064000);
    assert!(new_db_task("nullZ", "o".into(), "k".into(), "n".into(), "u".into()).is_none());
    let t = new_db_task("2024-01-02T14:51:04+01:00", "o".into(), "k".into(), "n".into(), "u".into()).unwrap();
    assert_eq!(t.process_instance_task_information_creation_date, 1704203464000);
    let mut epoch = db_task(None);
    epoch.process_instance_task_information_creation_date = 0;
    assert!(create_entry_sql(&epoch).unwrap().contains("d'1970-01-01T00:00:00+00:00'"));
}

#[test]
fn retry_targets() {
    assert!(db_retry_target(&db_task(None)).is_none());
    let (k, i) = db_retry_target(&db_task(Some("task:9"))).unwrap();
    assert_eq!(k, "333");
    assert_eq!(i, "task:9");
}

#[test]
fn reload_answers() {
    assert_eq!(reload_answer(false, true, None).unwrap(), "Reload successful. Status: Database disabled");
    assert_eq!(
        reload_answer(true, false, None).unwrap(),
        "Reload successful. Status: Database enabled in config, but database service not initialized"
    );
    assert_eq!(
        reload_answer(true, true, None).unwrap(),
        "Reload successful. Status: Database connection reloaded successfully"
    );
    let e = reload_answer(true, true, Some("Timeout")).unwrap_err();
    assert_eq!(e.code, RpcCode::Internal);
    assert_eq!(e.message, "Configuration reloaded, but database reload failed: Timeout");
    let e = load_failure_status("NotFound");
    assert_eq!(e.message, "Failed to load configuration: NotFound");
}

#[test]
fn connection_reports() {
    let r = connection_report("http://h/x", true, 200, "ok");
    assert_eq!(
        r,
        "Connection Status: SUCCESS\nURL Checked: http://h/x\nHTTP Status Code: 200\nResponse Body Preview:\nok"
    );
    let long = "a".repeat(600);
    let p = body_preview(&long);
    assert_eq!(p.len(), 503);
    assert!(p.ends_with("..."));
    let r = connection_report("u", false, 503, &long);
    assert!(r.starts_with("Connection Status: FAILED\nURL Checked: u\nHTTP Status Code: 503\n"));
    let e = connection_failure("u", "refused");
    assert_eq!(e.code, RpcCode::Unavailable);
    assert_eq!(e.message, "Connection failed to URL u: refused");
}

fn page(n: usize, next: Option<&str>) -> Root {
    Root {
        tasks: (0..n)
            .map(|i| Task { fields: vec![Field { name: "k".into(), value: FieldValue::Number(i.to_string()) }] })
            .collect(),
        has_more: next.is_some(),
        links: match next {
            Some(h) => vec![
                Link { rel: "self".into(), href: "s".into() },
                Link { rel: "next".into(), href: h.into() },
            ],
            None => vec![],
        },
        count: n as u64,
        total_result: 10,
    }
}

#[test]
fn paging_follows_next_links() {
    let mut all = vec![];
    let mut url = "start".to_string();
    assert!(fetchdatass(page(2, Some("p2")), &mut all, &mut url));
    assert_eq!(url, "p2");
    assert!(!fetchdatass(page(1, None), &mut all, &mut url));
    assert_eq!(url, "p2");
    assert_eq!(all.len(), 3);

    let mut p = PageFetch::new("u1", 2);
    assert_eq!(p.next_url().unwrap(), "u1");
    let mut big = page(1, Some("u2"));
    big.count = 25;
    assert_eq!(p.on_page(big), 2);
    assert_eq!(p.next_url().unwrap(), "u2");
    p.on_page(page(1, None));
    assert!(p.next_url().is_none());
    assert_eq!(p.tasks.len(), 2);
    assert_eq!(page_progress(&page(3, None)), 0);
}

#[test]
fn text_helpers() {
    assert_eq!(i64_text(i64::MIN), "-9223372036854775808");
    assert_eq!(i64_text(1234), "1234");
}

#[test]
fn listing_answers() {
    let t = TaskDetails {
        key: "1".to_string(),
        object_name: "o".to_string(),
        task_name: "n".to_string(),
        target_user: "u".to_string(),
        creation_date: "d".to_string(),
    };
    let direct = list_answer(ListMode::Direct, vec![t], 7, 10, 20);
    assert_eq!(direct.result, 1);
    assert_eq!(direct.tasks.len(), 1);
    assert_eq!(direct.message, "List generated successfully");
    assert_eq!((direct.seconds, direct.nanos), (10, 20));
    let file = list_answer(ListMode::File, vec![], 7, 0, 0);
    assert_eq!(file.result, 7);
    assert!(file.tasks.is_empty());
}

#[test]
fn creation_dates_in_range() {
    let mut t = db_task(None);
    for (millis, ok) in [
        (8210266876799999i64, true),
        (8210266877000000i64, false),
        (-8334601228800000i64, true),
        (-8334601228800001i64, false),
    ] {
        t.process_instance_task_information_creation_date = millis;
        assert_eq!(create_entry_sql(&t).is_some(), ok, "{}", millis);
    }
}

#[test]
fn error_statuses() {
    let e = CliError::EntityNotFound { entity: "Task", id: 42 };
    let st = error_status(&e);
    assert_eq!(st.code, RpcCode::InvalidArgument);
    assert_eq!(st.message, "EntityNotFound { entity: \"Task\", id: 42 }");
    assert_eq!(st.message, format!("{:?}", e));
    let pool = CliError::FailedToCreatePool("a\"b\n".to_string());
    assert_eq!(error_status(&pool).message, format!("{:?}", pool));
    let pe = CliError::PE("ColumnNotFound".to_string());
    assert_eq!(error_status(&pe).message, "PE(ColumnNotFound)");
}
