use requestsautomation::datetime::Stamp;
use requestsautomation::datapolars::{df_to_vec, parse_date, Cell, Column, DType, Table};

fn text(s: &str) -> Cell {
    Cell::Text(s.to_string())
}

/// The task table as the task file holds it, with its creation date read as
/// a date-time column: one date-time column, three text columns and the
/// integer key column.
fn task_table() -> Table {
    let date = parse_date(&text("2024-01-02T14:51:04Z"));
    assert!(matches!(date, Cell::Datetime(_)));
    Table {
        columns: vec![
            Column {
                name: "Process Instance.Task Information.Creation Date".to_string(),
                dtype: DType::Datetime,
                cells: vec![date],
            },
            Column {
                name: "Objects.Name".to_string(),
                dtype: DType::Text,
                cells: vec![text("AAccount")],
            },
            Column {
                name: "Process Instance.Task Details.Key".to_string(),
                dtype: DType::Int64,
                cells: vec![Cell::Int(333)],
            },
            Column {
                name: "Process Definition.Tasks.Task Name".to_string(),
                dtype: DType::Text,
                cells: vec![text("Update Number")],
            },
            Column {
                name: "Process Instance.Task Information.Target User".to_string(),
                dtype: DType::Text,
                cells: vec![text("ttuserid")],
            },
        ],
    }
}

#[test]
fn urlsbuilder_test() {
    let df = task_table();
    let dd = df_to_vec::<i32>(df);
    assert_eq!(dd.0.len(), 1);
    assert_eq!(dd.1.len(), 3);
}

#[test]
fn date_convert() {
    //2024-01-02T14:51:04.000
    let df = task_table();
    let dd = df_to_vec::<i32>(df);
    assert_eq!(dd.0.len(), 1);
    assert_eq!(dd.1.len(), 3);
}

#[test]
fn df_to_vec_values() {
    let dd = df_to_vec::<i32>(task_table());
    assert_eq!(dd.0, vec![vec![1704207064000i64]]);
    assert_eq!(
        dd.1,
        vec![
            vec!["AAccount".to_string()],
            vec!["Update Number".to_string()],
            vec!["ttuserid".to_string()]
        ]
    );
    assert!(dd.2.is_empty());
}

#[test]
fn df_to_vec_strips_quotes_and_renders_null() {
    let t = Table {
        columns: vec![Column {
            name: "a".to_string(),
            dtype: DType::Text,
            cells: vec![text("\"x\""), Cell::Null],
        }],
    };
    let dd = df_to_vec::<i32>(t);
    assert_eq!(dd.1, vec![vec!["x".to_string(), "null".to_string()]]);
}

#[test]
fn df_to_vec_drops_negative_fractional_instants() {
    let mut stamp = match parse_date(&text("1969-12-31T23:59:59Z")) {
        Cell::Datetime(st) => st,
        _ => panic!("date parses"),
    };
    stamp.millis = -1500;
    let t = Table {
        columns: vec![Column {
            name: "d".to_string(),
            dtype: DType::Datetime,
            cells: vec![Cell::Datetime(stamp), Cell::Null],
        }],
    };
    let dd = df_to_vec::<i32>(t);
    assert_eq!(dd.0, vec![Vec::<i64>::new()]);
}

#[test]
fn dates_after_other_text_parse() {
    let exact = match parse_date(&text("2024-01-02T14:51:04Z")) {
        Cell::Datetime(st) => st,
        _ => panic!("date parses"),
    };
    match parse_date(&text("x 2024-01-02T14:51:04Z")) {
        Cell::Datetime(st) => {
            assert_eq!(st.millis, exact.millis);
            assert_eq!(st.display, "2024-01-02 14:51:04");
            assert_eq!(st.csv, "2024-01-02T14:51:04.000");
        }
        _ => panic!("a date after other text parses"),
    }
    assert!(matches!(parse_date(&text("no date here")), Cell::Null));
    assert!(matches!(parse_date(&text("")), Cell::Null));
    assert!(matches!(parse_date(&Cell::Int(3)), Cell::Null));
}

#[test]
fn df_to_vec_keeps_instants_in_range() {
    let st = match parse_date(&text("2024-01-02T14:51:04Z")) {
        Cell::Datetime(st) => st,
        _ => panic!("date parses"),
    };
    let mut cells = vec![];
    for m in [8210266876799999i64, 8210266877000000, -8334601228800000, -8334601228801000] {
        cells.push(Cell::Datetime(Stamp {
            millis: m,
            display: st.display.clone(),
            csv: st.csv.clone(),
        }));
    }
    let t = Table {
        columns: vec![Column { name: "d".to_string(), dtype: DType::Datetime, cells }],
    };
    let dd = df_to_vec::<i32>(t);
    assert_eq!(dd.0, vec![vec![8210266876799999i64, -8334601228800000]]);
}

#[test]
fn leap_second_keeps_its_text() {
    let leap = match parse_date(&text("2016-12-31T23:59:60Z")) {
        Cell::Datetime(st) => st,
        _ => panic!("a leap second parses"),
    };
    let next = match parse_date(&text("2017-01-01T00:00:00Z")) {
        Cell::Datetime(st) => st,
        _ => panic!("date parses"),
    };
    assert_eq!(leap.millis, next.millis);
    assert_eq!(leap.display, "2016-12-31 23:59:60");
    assert_eq!(next.display, "2017-01-01 00:00:00");
}
