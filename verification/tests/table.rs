use requestsautomation::datapolars::{
    build_frame, cell_to_string, fields_are_scalar, fillseries, get_data, getheaders, head,
    pl_vstr_to_selects, Cell, Column, DType, Table, TableError,
};
use requestsautomation::grpcserver::{db_task_for_row, task_details, task_frame};
use requestsautomation::model::{Field, FieldValue, Task};
use requestsautomation::error::RpcCode;

const DATE: &str = "Process Instance.Task Information.Creation Date";
const OBJ: &str = "Objects.Name";
const KEY: &str = "Process Instance.Task Details.Key";
const TASK: &str = "Process Definition.Tasks.Task Name";
const USER: &str = "Process Instance.Task Information.Target User";

fn field(name: &str, value: FieldValue) -> Field {
    Field { name: name.to_string(), value }
}

fn t(s: &str) -> FieldValue {
    FieldValue::Text(s.to_string())
}

fn task(date: &str, obj: &str, key: &str, name: &str, user: &str) -> Task {
    Task {
        fields: vec![
            field(DATE, t(date)),
            field(OBJ, t(obj)),
            field(KEY, FieldValue::Number(key.to_string())),
            field(TASK, t(name)),
            field(USER, t(user)),
        ],
    }
}

fn page() -> Vec<Task> {
    vec![
        task("2024-01-03T10:00:00Z", "AD Account", "3", "Update Number", "bob"),
        task("2024-01-02T14:51:04Z", "AD Account", "1", "Update Number", "alice"),
        task("not a date", "AD Account", "2", "Update Number", "carol"),
        task("2024-01-01T00:00:00Z", "Mail", "4", "Update Number", "dave"),
        task("2024-01-01T09:00:00Z", "AD Account", "5", "Create User", "erin"),
    ]
}

fn column_texts(t: &Table, c: usize) -> Vec<String> {
    t.columns[c].cells.iter().map(|x| cell_to_string(x)).collect()
}

#[test]
fn headers_start_with_empty_name_and_dedup() {
    let mut p = page();
    p[0].fields.push(field(OBJ, t("again")));
    let h = getheaders(&p);
    let names: Vec<String> = h.iter().map(|c| c.name.clone()).collect();
    assert_eq!(names, vec!["".to_string(), DATE.to_string(), OBJ.to_string(), KEY.to_string(), TASK.to_string(), USER.to_string()]);
    assert!(h.iter().all(|c| c.cells.is_empty() && c.dtype == DType::Text));
}

#[test]
fn fill_and_pad_columns() {
    let mut data = page();
    data[4].fields.pop();
    let mut hm = getheaders(&page());
    assert!(fields_are_scalar(&data));
    fillseries(data, &mut hm);
    assert_eq!(hm[0].cells.len(), 0);
    assert_eq!(hm[3].cells.len(), 5);
    assert_eq!(hm[5].cells.len(), 4);
    let frame = build_frame(hm);
    assert!(frame.columns.iter().all(|c| c.cells.len() == 5));
    assert!(matches!(frame.columns[5].cells[4], Cell::Null));
    assert!(matches!(frame.columns[0].cells[0], Cell::Null));
}

#[test]
fn non_scalar_fields_are_detected() {
    let mut data = page();
    data[1].fields.push(field("x", FieldValue::Other));
    assert!(!fields_are_scalar(&data));
}

#[test]
fn select_errors() {
    let hm = getheaders(&page());
    let frame = build_frame(hm);
    match pl_vstr_to_selects(frame, vec![OBJ, "missing"]) {
        Err(TableError::ColumnNotFound(n)) => assert_eq!(n, "missing"),
        _ => panic!("expected a missing column"),
    }
    let frame = build_frame(getheaders(&page()));
    match pl_vstr_to_selects(frame, vec![OBJ, KEY, OBJ]) {
        Err(TableError::Duplicate(n)) => assert_eq!(n, OBJ),
        _ => panic!("expected a duplicate column"),
    }
    let frame = build_frame(getheaders(&page()));
    let sel = pl_vstr_to_selects(frame, vec![USER, DATE]).unwrap();
    assert_eq!(sel.columns[0].name, USER);
    assert_eq!(sel.columns[1].name, DATE);
}

#[test]
fn frame_filters_parses_and_orders() {
    let f = task_frame(&page(), page(), "AD", "Update").unwrap();
    assert_eq!(f.columns.len(), 5);
    assert_eq!(f.columns[0].dtype, DType::Datetime);
    assert_eq!(f.columns[2].dtype, DType::Int64);
    // rows with "AD" in the object name and "Update" in the task name,
    // by creation date, the row without a date last
    assert_eq!(column_texts(&f, 2), vec!["1", "3", "2"]);
    assert_eq!(column_texts(&f, 0), vec!["2024-01-02 14:51:04", "2024-01-03 10:00:00", "null"]);
    assert_eq!(column_texts(&f, 1)[0], "\"AD Account\"");
    let details = task_details(&f);
    assert_eq!(details.len(), 3);
    assert_eq!(details[0].key, "1");
    assert_eq!(details[0].object_name, "\"AD Account\"");
    assert_eq!(details[0].task_name, "\"Update Number\"");
    assert_eq!(details[0].target_user, "\"alice\"");
    assert_eq!(details[0].creation_date, "2024-01-02 14:51:04");
}

#[test]
fn frame_regex_filters() {
    let f = task_frame(&page(), page(), "^Mail$", ".*").unwrap();
    assert_eq!(column_texts(&f, 2), vec!["4"]);
    let f = task_frame(&page(), page(), "(", ".*").unwrap();
    assert_eq!(f.columns[0].cells.len(), 0);
}

#[test]
fn frame_missing_column_status() {
    let header = vec![Task { fields: vec![field(OBJ, t("x"))] }];
    let e = task_frame(&header, page(), "", "").unwrap_err();
    assert_eq!(e.code, RpcCode::Aborted);
    assert_eq!(e.message, format!("Building dataframe failed: column not found: {}", DATE));
}

#[test]
fn get_data_type_errors() {
    let table = Table {
        columns: vec![
            Column { name: OBJ.to_string(), dtype: DType::Int64, cells: vec![] },
        ],
    };
    match get_data(table, "", "") {
        Err(TableError::SchemaMismatch(n)) => assert_eq!(n, OBJ),
        _ => panic!("expected a type error"),
    }
}

#[test]
fn key_cast_rules() {
    let mk = |k: &str| task("2024-01-01T00:00:00Z", "o", "0", "n", "u").fields.into_iter().map(|mut f| {
        if f.name == KEY { f.value = t(k); }
        f
    }).collect::<Vec<_>>();
    let data: Vec<Task> = ["+12", "-7", "9223372036854775808", "1.5", "abc"].iter().map(|k| Task { fields: mk(k) }).collect();
    let f = task_frame(&page(), data, "", "").unwrap();
    assert_eq!(column_texts(&f, 2), vec!["12", "-7", "null", "null", "null"]);
}

#[test]
fn head_cuts_rows() {
    let f = task_frame(&page(), page(), "", "").unwrap();
    assert_eq!(f.columns[0].cells.len(), 5);
    let h = head(f, 2);
    assert!(h.columns.iter().all(|c| c.cells.len() == 2));
    let h = head(h, 10);
    assert!(h.columns.iter().all(|c| c.cells.len() == 2));
}

#[test]
fn db_task_from_row() {
    let f = task_frame(&page(), page(), "AD", "Update").unwrap();
    let dt = db_task_for_row(&f, 0).unwrap();
    assert_eq!(dt.process_instance_task_information_creation_date, 1704207064000);
    assert_eq!(dt.objects_name, "\"AD Account\"");
    assert_eq!(dt.process_instance_task_details_key, "1");
    assert!(dt.id.is_none());
    // the row without a date has no instant
    assert!(db_task_for_row(&f, 2).is_none());
}

#[test]
fn cell_texts() {
    assert_eq!(cell_to_string(&Cell::Null), "null");
    assert_eq!(cell_to_string(&Cell::Text("a b".to_string())), "\"a b\"");
    assert_eq!(cell_to_string(&Cell::Int(-9223372036854775808)), "-9223372036854775808");
    assert_eq!(cell_to_string(&Cell::Int(0)), "0");
}
