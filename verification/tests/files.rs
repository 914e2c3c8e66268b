use requestsautomation::datapolars::{cell_to_string, parse_date, Cell, Column, DType, Table};
use requestsautomation::file::{
    csv_text, drop_first_row, include_header, queue_ids, read_records, read_table, should_load_queue,
};

fn text(s: &str) -> Cell {
    Cell::Text(s.to_string())
}

fn table() -> Table {
    let d1 = parse_date(&text("2024-01-02T14:51:04Z"));
    Table {
        columns: vec![
            Column {
                name: "Process Instance.Task Information.Creation Date".to_string(),
                dtype: DType::Datetime,
                cells: vec![d1, Cell::Null],
            },
            Column {
                name: "Objects.Name".to_string(),
                dtype: DType::Text,
                cells: vec![text("a,b"), text("say \"hi\"")],
            },
            Column {
                name: "Process Instance.Task Details.Key".to_string(),
                dtype: DType::Int64,
                cells: vec![Cell::Int(11), Cell::Int(-2)],
            },
        ],
    }
}

#[test]
fn header_decision() {
    assert!(include_header(Some(0)));
    assert!(!include_header(Some(10)));
    assert!(include_header(None));
    assert!(!should_load_queue(false, Some(10)));
    assert!(!should_load_queue(true, Some(0)));
    assert!(!should_load_queue(true, None));
    assert!(should_load_queue(true, Some(3)));
}

#[test]
fn csv_writing() {
    let s = csv_text(&table(), true);
    assert_eq!(
        s,
        "Process Instance.Task Information.Creation Date,Objects.Name,Process Instance.Task Details.Key\n\
         2024-01-02T14:51:04.000,\"a,b\",11\n\
         ,\"say \"\"hi\"\"\",-2\n"
    );
    let s = csv_text(&table(), false);
    assert!(s.starts_with("2024-01-02T14:51:04.000,"));
}

#[test]
fn csv_reading() {
    let recs = read_records("a,b\n\"x,1\",\"q\"\"q\"\r\n,3");
    assert_eq!(recs.len(), 3);
    assert_eq!(recs[1][0].iter().collect::<String>(), "x,1");
    assert_eq!(recs[1][1].iter().collect::<String>(), "q\"q");
    assert_eq!(recs[2][0].len(), 0);
    let t = read_table("k,v\n1,x\n,y\n+3,\n").unwrap();
    assert_eq!(t.columns[0].dtype, DType::Int64);
    assert_eq!(t.columns[1].dtype, DType::Text);
    let k: Vec<String> = t.columns[0].cells.iter().map(cell_to_string).collect();
    assert_eq!(k, vec!["1", "null", "3"]);
    assert!(read_table("a,b\n1\n").is_none());
    assert!(read_table("").is_none());
}

#[test]
fn queue_round_trip() {
    let written = csv_text(&table(), true);
    let t = read_table(&written).unwrap();
    assert_eq!(queue_ids(&t).unwrap(), vec!["11".to_string(), "-2".to_string()]);
    let objs: Vec<String> = t.columns[1].cells.iter().map(cell_to_string).collect();
    assert_eq!(objs, vec!["\"a,b\"", "\"say \"hi\"\""]);
    let rest = drop_first_row(t);
    assert_eq!(queue_ids(&rest).unwrap(), vec!["-2".to_string()]);
    let rewritten = csv_text(&rest, true);
    let again = read_table(&rewritten).unwrap();
    assert_eq!(queue_ids(&again).unwrap(), vec!["-2".to_string()]);
    let emptied = drop_first_row(again);
    let last = csv_text(&emptied, true);
    assert_eq!(last.lines().count(), 1);
    let t = read_table(&last).unwrap();
    assert!(queue_ids(&t).unwrap().is_empty());
}

#[test]
fn queue_without_key_column() {
    let t = read_table("a\n1\n").unwrap();
    assert!(queue_ids(&t).is_none());
}

#[test]
fn written_records_read_back() {
    let written = csv_text(&table(), true);
    let recs = read_records(&written);
    let as_text = |r: &Vec<Vec<char>>| -> Vec<String> { r.iter().map(|f| f.iter().collect()).collect() };
    assert_eq!(recs.len(), 3);
    assert_eq!(
        as_text(&recs[0]),
        vec![
            "Process Instance.Task Information.Creation Date",
            "Objects.Name",
            "Process Instance.Task Details.Key"
        ]
    );
    assert_eq!(as_text(&recs[1]), vec!["2024-01-02T14:51:04.000", "a,b", "11"]);
    assert_eq!(as_text(&recs[2]), vec!["", "say \"hi\"", "-2"]);
    let headless = read_records(&csv_text(&table(), false));
    assert_eq!(headless.len(), 2);
    assert_eq!(as_text(&headless[1]), vec!["", "say \"hi\"", "-2"]);
}

#[test]
fn boolean_columns() {
    let t = read_table("flag,mixed\nTRUE,true\nfalse,1\n,\n").unwrap();
    assert_eq!(t.columns[0].dtype, DType::Bool);
    assert_eq!(t.columns[1].dtype, DType::Text);
    assert!(matches!(t.columns[0].cells[0], Cell::Bool(true)));
    assert!(matches!(t.columns[0].cells[1], Cell::Bool(false)));
    assert!(matches!(t.columns[0].cells[2], Cell::Null));
    let shown: Vec<String> = t.columns[0].cells.iter().map(cell_to_string).collect();
    assert_eq!(shown, vec!["true", "false", "null"]);
    assert_eq!(csv_text(&t, true), "flag,mixed\ntrue,true\nfalse,1\n,\n");
}
