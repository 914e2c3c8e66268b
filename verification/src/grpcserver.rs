//! The decisions of the service's requests: which mode a task listing runs
//! in, the URL of each backend query, the task table of each query, the row
//! limit, the answers, and the retry of provisioning tasks.
use vstd::prelude::*;
use vstd::string::*;
use crate::datapolars::{
    CellView, ColumnView, DType, Table, TableError, TableErrorView, build_frame, cell_text,
    cell_to_string, columns_view, date_col, field_cells, fillseries, find_col, flat_fields,
    get_data, get_data_spec, getheaders, head, head_spec, header_names, height, key_col,
    max_height, names_of, nulls, object_col, pl_vstr_to_selects, rows_of, select_spec, table_wf,
    select_names, get_data_keeps_names,
    task_col, user_col, all_scalar,
};
use crate::db::{DbTask, db_task_spec, new_db_task};
use crate::error::{RpcCode, RpcStatus};
use crate::model::{Task, tasks_view};
use crate::config::AppConfig;
use crate::text::{
    i64_text, int_text,
    chars_of, concat2, contains, contains_chars, ends_with, ends_with_chars, extend_str, lowercase,
    str_eq, string_of, to_lowercase, trim, trim_chars,
};

verus! {

// ---------------------------------------------------------------------------
// Listing mode
// ---------------------------------------------------------------------------

/// Where a task listing puts the tasks it finds.
#[derive(Debug, Clone, Copy, PartialEq, Eq, Structural)]
pub enum ListMode {
    /// Into the database.
    Database,
    /// Appended to the task file.
    File,
    /// Returned in the answer.
    Direct,
}

/// The mode that a (lower-case) mode name selects, `None` when it asks for
/// the database and there is none: `db`/`database` select the database,
/// `csv`/`file` the file, `direct`/`now`/`return` the answer; any other name
/// selects the database when there is one, else the file.
pub open spec fn mode_of(m: Seq<char>, db_present: bool) -> Option<ListMode> {
    if m == "db"@ || m == "database"@ {
        if db_present {
            Some(ListMode::Database)
        } else {
            None
        }
    } else if m == "csv"@ || m == "file"@ {
        Some(ListMode::File)
    } else if m == "direct"@ || m == "now"@ || m == "return"@ {
        Some(ListMode::Direct)
    } else if db_present {
        Some(ListMode::Database)
    } else {
        Some(ListMode::File)
    }
}

/// The mode names: `direct`, `now` and `return` return the tasks in the
/// answer and `csv` and `file` append them to the task file, whether or not
/// there is a database; `db` and `database` store them in the database, and
/// are refused without one; any other name uses the database when there is
/// one, else the file.
pub proof fn list_mode_names(m: Seq<char>, db_present: bool)
    ensures
        m == "direct"@ || m == "now"@ || m == "return"@ ==> mode_of(m, db_present) == Some(
            ListMode::Direct,
        ),
        m == "csv"@ || m == "file"@ ==> mode_of(m, db_present) == Some(ListMode::File),
        m == "db"@ || m == "database"@ ==> mode_of(m, db_present) == (if db_present {
            Some(ListMode::Database)
        } else {
            None
        }),
        m != "direct"@ && m != "now"@ && m != "return"@ && m != "csv"@ && m != "file"@ && m
            != "db"@ && m != "database"@ ==> mode_of(m, db_present) == (if db_present {
            Some(ListMode::Database)
        } else {
            Some(ListMode::File)
        }),
{
    lemma_mode_names_distinct();
}

proof fn lemma_mode_names_distinct()
    ensures
        "direct"@ != "now"@,
        "direct"@ != "return"@,
        "now"@ != "return"@,
        "csv"@ != "file"@,
        "db"@ != "database"@,
        "direct"@ != "csv"@ && "direct"@ != "file"@ && "direct"@ != "db"@ && "direct"@
            != "database"@,
        "now"@ != "csv"@ && "now"@ != "file"@ && "now"@ != "db"@ && "now"@ != "database"@,
        "return"@ != "csv"@ && "return"@ != "file"@ && "return"@ != "db"@ && "return"@
            != "database"@,
        "csv"@ != "db"@ && "csv"@ != "database"@ && "file"@ != "db"@ && "file"@ != "database"@,
{
    reveal_strlit("direct");
    reveal_strlit("now");
    reveal_strlit("return");
    reveal_strlit("csv");
    reveal_strlit("file");
    reveal_strlit("db");
    reveal_strlit("database");
    assert("direct"@.len() == 6);
    assert("now"@.len() == 3);
    assert("return"@.len() == 6);
    assert("csv"@.len() == 3);
    assert("file"@.len() == 4);
    assert("db"@.len() == 2);
    assert("database"@.len() == 8);
    assert("direct"@[0] != "return"@[0]);
    assert("now"@[0] != "csv"@[0]);
}

/// The listing mode that a request's mode name selects (compared in lower
/// case); asking for the database when there is none is refused with a
/// failed-precondition status.
pub fn list_mode(mode: &str, db_present: bool) -> (r: Result<ListMode, RpcStatus>)
    ensures
        lowercase(mode@) == "direct"@ || lowercase(mode@) == "now"@ || lowercase(mode@)
            == "return"@ ==> r == Ok::<ListMode, RpcStatus>(ListMode::Direct),
        lowercase(mode@) == "csv"@ || lowercase(mode@) == "file"@ ==> r == Ok::<
            ListMode,
            RpcStatus,
        >(ListMode::File),
        lowercase(mode@) == "db"@ || lowercase(mode@) == "database"@ ==> (db_present ==> r
            == Ok::<ListMode, RpcStatus>(ListMode::Database)) && (!db_present ==> r is Err),
        match mode_of(lowercase(mode@), db_present) {
            Some(m) => r == Ok::<ListMode, RpcStatus>(m),
            None => r matches Err(st) && st.code == RpcCode::FailedPrecondition && st.message@
                == "Database is not enabled in settings"@,
        },
{
    proof {
        lemma_mode_names_distinct();
    }
    let lower = to_lowercase(mode);
    let m = lower.as_str();
    if str_eq(m, "db") || str_eq(m, "database") {
        if db_present {
            Ok(ListMode::Database)
        } else {
            Err(
                RpcStatus {
                    code: RpcCode::FailedPrecondition,
                    message: String::from_str("Database is not enabled in settings"),
                },
            )
        }
    } else if str_eq(m, "csv") || str_eq(m, "file") {
        Ok(ListMode::File)
    } else if str_eq(m, "direct") || str_eq(m, "now") || str_eq(m, "return") {
        Ok(ListMode::Direct)
    } else if db_present {
        Ok(ListMode::Database)
    } else {
        Ok(ListMode::File)
    }
}

/// The list path of a request: its own, or the configured one when the
/// request gives none.
pub fn choose_urlget(request_urlget: &str, configured: &str) -> (r: String)
    ensures
        r@ == if request_urlget@.len() == 0 {
            configured@
        } else {
            request_urlget@
        },
{
    if request_urlget.is_empty() {
        configured.to_owned()
    } else {
        request_urlget.to_owned()
    }
}

// ---------------------------------------------------------------------------
// Query URLs
// ---------------------------------------------------------------------------

/// A trimmed list URL whose query ends in a conjunction, so that a term can
/// follow directly.
pub open spec fn ends_in_and(t: Seq<char>) -> bool {
    ends_with(t, "AND"@) || ends_with(t, "AND "@) || ends_with(t, "AND+"@) || ends_with(
        t,
        "+AND+"@,
    ) || ends_with(t, "+AND"@)
}

/// A trimmed list URL without a dangling conjunction at its end.
pub open spec fn without_trailing_and(t: Seq<char>) -> Seq<char> {
    if ends_with(t, "AND"@) {
        trim(t.subrange(0, t.len() - 3))
    } else if ends_with(t, "AND+"@) {
        trim(t.subrange(0, t.len() - 4))
    } else if ends_with(t, "+AND+"@) {
        trim(t.subrange(0, t.len() - 5))
    } else if ends_with(t, "+AND"@) {
        trim(t.subrange(0, t.len() - 4))
    } else {
        t
    }
}

/// The URL of the query for one filter term: the term is added to the
/// list URL's query (after `?q=`, or joined with ` AND ` to an existing
/// query, directly after a dangling conjunction); without a term, a
/// dangling conjunction is removed.
pub open spec fn request_url(geturl: Seq<char>, term: Seq<char>) -> Seq<char> {
    if term.len() > 0 {
        if contains(geturl, "?q="@) {
            let t = trim(geturl);
            if ends_in_and(t) {
                t + term
            } else {
                t + " AND "@ + term
            }
        } else {
            geturl + "?q="@ + term
        }
    } else {
        if contains(geturl, "?q="@) {
            without_trailing_and(trim(geturl))
        } else {
            geturl
        }
    }
}

/// The first `n` characters.
fn take_chars(v: &[char], n: usize) -> (r: Vec<char>)
    requires
        n <= v@.len(),
    ensures
        r@ == v@.subrange(0, n as int),
{
    let mut r: Vec<char> = Vec::new();
    for i in 0..n
        invariant
            n <= v@.len(),
            r@ == v@.subrange(0, i as int),
    {
        r.push(v[i]);
        assert(r@ =~= v@.subrange(0, i + 1));
    }
    r
}

/// Decides whether `t` ends with the literal `lit`.
fn ends_with_lit(t: &[char], lit: &str) -> (b: bool)
    ensures
        b == ends_with(t@, lit@),
{
    let l = chars_of(lit);
    ends_with_chars(t, l.as_slice())
}

/// The URL of the query for one filter term (see `request_url`).
pub fn compose_request_url(geturl: &str, term: &str) -> (r: String)
    ensures
        r@ == request_url(geturl@, term@),
{
    let g = chars_of(geturl);
    let q = chars_of("?q=");
    let has_query = contains_chars(g.as_slice(), q.as_slice());
    if !term.is_empty() {
        if has_query {
            let t = trim_chars(g.as_slice());
            let direct = ends_with_lit(t.as_slice(), "AND") || ends_with_lit(t.as_slice(), "AND ")
                || ends_with_lit(t.as_slice(), "AND+") || ends_with_lit(t.as_slice(), "+AND+")
                || ends_with_lit(t.as_slice(), "+AND");
            let mut v = t;
            if !direct {
                extend_str(&mut v, " AND ");
            }
            extend_str(&mut v, term);
            string_of(v.as_slice())
        } else {
            let mut s = geturl.to_owned();
            s.append("?q=");
            s.append(term);
            s
        }
    } else {
        if has_query {
            let t = trim_chars(g.as_slice());
            let n = t.len();
            let cut: usize = if ends_with_lit(t.as_slice(), "AND") {
                proof {
                    reveal_strlit("AND");
                }
                3
            } else if ends_with_lit(t.as_slice(), "AND+") {
                proof {
                    reveal_strlit("AND+");
                }
                4
            } else if ends_with_lit(t.as_slice(), "+AND+") {
                proof {
                    reveal_strlit("+AND+");
                }
                5
            } else if ends_with_lit(t.as_slice(), "+AND") {
                proof {
                    reveal_strlit("+AND");
                }
                4
            } else {
                0
            };
            if cut > 0 {
                let front = take_chars(t.as_slice(), n - cut);
                let r = trim_chars(front.as_slice());
                string_of(r.as_slice())
            } else {
                string_of(t.as_slice())
            }
        } else {
            geturl.to_owned()
        }
    }
}

// ---------------------------------------------------------------------------
// The run of a listing over its query terms
// ---------------------------------------------------------------------------

/// A task listing in progress: the query terms, the row limit (none when it
/// is not positive), the rows written so far and the next term.
#[derive(Debug)]
pub struct ListRun {
    pub geturl: String,
    pub terms: Vec<String>,
    pub limit: i32,
    pub written: i32,
    pub next: usize,
}

impl ListRun {
    /// The listing's invariant: the written rows stay within a positive
    /// limit.
    pub open spec fn wf(&self) -> bool {
        &&& 0 <= self.written
        &&& self.limit > 0 ==> self.written <= self.limit
        &&& self.next <= self.terms@.len()
    }

    /// Whether the listing has no more queries to make.
    pub open spec fn finished(&self) -> bool {
        self.next >= self.terms@.len() || (self.limit > 0 && self.written >= self.limit)
    }

    /// Starts a listing over `terms` with the list URL `geturl`.
    pub fn new(geturl: String, terms: Vec<String>, limit: i32) -> (r: ListRun)
        ensures
            r.wf(),
            r.geturl == geturl,
            r.terms == terms,
            r.limit == limit,
            r.written == 0,
            r.next == 0,
    {
        ListRun { geturl, terms, limit, written: 0, next: 0 }
    }

    /// The URL of the next query, or `None` when all terms are done or the
    /// limit is reached.
    pub fn next_request(&self) -> (r: Option<String>)
        requires
            self.wf(),
        ensures
            r is None <==> self.finished(),
            r matches Some(u) ==> u@ == request_url(
                self.geturl@,
                self.terms@[self.next as int]@,
            ),
    {
        if self.next >= self.terms.len() || (self.limit > 0 && self.written >= self.limit) {
            None
        } else {
            Some(compose_request_url(self.geturl.as_str(), self.terms[self.next].as_str()))
        }
    }

    /// How many rows the next query may still add: the rest of a positive
    /// limit, or no bound.
    pub fn row_budget(&self) -> (r: Option<usize>)
        requires
            self.wf(),
        ensures
            self.limit > 0 ==> r == Some((self.limit - self.written) as usize),
            self.limit <= 0 ==> r is None,
    {
        if self.limit > 0 {
            Some((self.limit - self.written) as usize)
        } else {
            None
        }
    }

    /// Cuts a query's table to the row budget.
    pub fn cut(&self, t: Table) -> (r: Table)
        requires
            self.wf(),
        ensures
            self.limit > 0 ==> r@ == head_spec(t@, (self.limit - self.written) as nat),
            self.limit <= 0 ==> r@ == t@,
    {
        match self.row_budget() {
            Some(b) => head(t, b),
            None => t,
        }
    }

    /// Records the rows that a query added and moves to the next term. The
    /// written rows never exceed a positive limit.
    pub fn record(&mut self, rows: usize)
        requires
            old(self).wf(),
            !old(self).finished(),
            old(self).limit > 0 ==> rows <= old(self).limit - old(self).written,
            old(self).written + rows <= i32::MAX,
        ensures
            final(self).wf(),
            final(self).written == old(self).written + rows,
            final(self).next == old(self).next + 1,
            final(self).limit == old(self).limit,
            final(self).terms == old(self).terms,
            final(self).geturl == old(self).geturl,
    {
        assert(self.terms@.len() == self.terms.len());
        self.written = self.written + rows as i32;
        self.next = self.next + 1;
    }
}

/// A query's table cut to the listing's row budget has no more rows than a
/// positive limit still allows, so that recording them keeps the listing
/// within its limit, whatever the query returned.
pub proof fn list_limit_holds(run: ListRun, t: Seq<ColumnView>)
    requires
        run.wf(),
        !run.finished(),
        run.limit > 0,
    ensures
        run.written + height(head_spec(t, (run.limit - run.written) as nat)) <= run.limit,
{
}

// ---------------------------------------------------------------------------
// The task table of one query
// ---------------------------------------------------------------------------

/// The columns of a listing's task table, in this order.
pub open spec fn selected_names() -> Seq<Seq<char>> {
    seq![date_col(), object_col(), key_col(), task_col(), user_col()]
}

/// The header columns of a page, filled from the tasks' fields.
pub open spec fn filled_columns(
    page: Seq<Seq<(Seq<char>, crate::model::FieldValueView)>>,
    data: Seq<Seq<(Seq<char>, crate::model::FieldValueView)>>,
) -> Seq<ColumnView> {
    Seq::new(
        header_names(page).len(),
        |k: int|
            ColumnView {
                name: header_names(page)[k],
                dtype: DType::Text,
                cells: field_cells(flat_fields(data), header_names(page)[k]),
            },
    )
}

/// Columns extended with nulls to the height of the tallest.
pub open spec fn padded(cols: Seq<ColumnView>) -> Seq<ColumnView> {
    cols.map_values(
        |c: ColumnView|
            ColumnView {
                name: c.name,
                dtype: c.dtype,
                cells: c.cells + nulls((max_height(cols) - c.cells.len()) as nat),
            },
    )
}

/// The text of a table error: the column and what went wrong with it. (A
/// dataframe library would describe the same failure in its own words; this
/// crate has its own table, so these are its words.)
pub open spec fn table_error_text(e: TableErrorView) -> Seq<char> {
    match e {
        TableErrorView::ColumnNotFound(n) => "column not found: "@ + n,
        TableErrorView::Duplicate(n) => "duplicate column: "@ + n,
        TableErrorView::SchemaMismatch(n) => "column is not text: "@ + n,
    }
}

/// The text of a table error.
pub fn table_error_message(e: &TableError) -> (s: String)
    ensures
        s@ == table_error_text(e@),
{
    match e {
        TableError::ColumnNotFound(n) => concat2("column not found: ", n.as_str()),
        TableError::Duplicate(n) => concat2("duplicate column: ", n.as_str()),
        TableError::SchemaMismatch(n) => concat2("column is not text: ", n.as_str()),
    }
}

/// The task table of one query: the headers of the header page, filled from
/// the query's tasks, the listing's columns selected, then filtered and
/// ordered (see `get_data`).
pub open spec fn task_frame_spec(
    page: Seq<Seq<(Seq<char>, crate::model::FieldValueView)>>,
    data: Seq<Seq<(Seq<char>, crate::model::FieldValueView)>>,
    f1: Seq<char>,
    f2: Seq<char>,
) -> Result<Seq<ColumnView>, (RpcCode, Seq<char>)> {
    match select_spec(padded(filled_columns(page, data)), selected_names()) {
        Err(e) => Err((RpcCode::Aborted, "Building dataframe failed: "@ + table_error_text(e))),
        Ok(sel) => match get_data_spec(sel, f1, f2) {
            Err(e) => Err((RpcCode::InvalidArgument, "Filtering failed: "@ + table_error_text(e))),
            Ok(t) => Ok(t),
        },
    }
}

/// The task table of a query has the five listing columns, in order: the
/// creation date, the object name, the key, the task name and the target
/// user.
pub proof fn task_table_columns(
    page: Seq<Seq<(Seq<char>, crate::model::FieldValueView)>>,
    data: Seq<Seq<(Seq<char>, crate::model::FieldValueView)>>,
    f1: Seq<char>,
    f2: Seq<char>,
)
    ensures
        task_frame_spec(page, data, f1, f2) matches Ok(out) ==> {
            &&& out.len() == 5
            &&& out[0].name == date_col()
            &&& out[1].name == object_col()
            &&& out[2].name == key_col()
            &&& out[3].name == task_col()
            &&& out[4].name == user_col()
        },
{
    let cols = padded(filled_columns(page, data));
    select_names(cols, selected_names());
    if let Ok(sel) = select_spec(cols, selected_names()) {
        get_data_keeps_names(sel, f1, f2);
    }
}

/// A selection from a table of equal-height columns has equal-height columns.
proof fn lemma_select_wf(cols: Seq<ColumnView>, names: Seq<Seq<char>>)
    requires
        table_wf(cols),
    ensures
        select_spec(cols, names) matches Ok(sel) ==> table_wf(sel) && (sel.len() > 0 ==> height(
            sel,
        ) == height(cols)),
    decreases names.len(),
{
    if names.len() > 0 {
        lemma_select_wf(cols, names.drop_last());
        lemma_find_col_ok(cols, names.last());
        match select_spec(cols, names.drop_last()) {
            Ok(prev) => {
                if let Some(i) = find_col(cols, names.last()) {
                    let sel = prev.push(cols[i]);
                    assert(cols[i].cells.len() == height(cols));
                    assert forall|c: int| 0 <= c < sel.len() implies (#[trigger] sel[c]).cells.len()
                        == height(sel) by {
                        if c < prev.len() {
                            assert(sel[c] == prev[c]);
                        }
                        if prev.len() > 0 {
                            assert(sel[0] == prev[0]);
                        }
                    }
                }
            },
            Err(_) => {},
        }
    }
}

proof fn lemma_find_col_ok(cols: Seq<ColumnView>, name: Seq<char>)
    ensures
        find_col(cols, name) matches Some(i) ==> 0 <= i < cols.len(),
    decreases cols.len(),
{
    if cols.len() > 0 {
        lemma_find_col_ok(cols.drop_last(), name);
    }
}

/// Builds the task table of one query from the header page and the query's
/// tasks. Every field value of the tasks must be a JSON number or string.
pub fn task_frame(headers_page: &Vec<Task>, data: Vec<Task>, filter1: &str, filter2: &str) -> (r:
    Result<Table, RpcStatus>)
    requires
        all_scalar(tasks_view(data@)),
    ensures
        match task_frame_spec(tasks_view(headers_page@), tasks_view(data@), filter1@, filter2@) {
            Ok(cols) => r matches Ok(t) && t@ == cols,
            Err((code, msg)) => r matches Err(st) && st.code == code && st.message@ == msg,
        },
{
    let ghost pv = tasks_view(headers_page@);
    let ghost dv = tasks_view(data@);
    let mut hm = getheaders(headers_page);
    let ghost hm0 = hm@;
    fillseries(data, &mut hm);
    let ghost filled = filled_columns(pv, dv);
    assert(columns_view(hm@) =~= filled) by {
        assert forall|k: int| 0 <= k < hm@.len() implies #[trigger] columns_view(hm@)[k]
            == filled[k] by {
            assert(names_of(columns_view(hm0))[k] == hm0[k]@.name);
            assert(hm0[k]@.cells =~= Seq::<CellView>::empty());
            assert(hm@[k]@.cells =~= field_cells(flat_fields(dv), hm0[k]@.name));
        }
    }
    let df = build_frame(hm);
    assert(df@ =~= padded(filled));
    let names: Vec<&str> = vec![
        "Process Instance.Task Information.Creation Date",
        "Objects.Name",
        "Process Instance.Task Details.Key",
        "Process Definition.Tasks.Task Name",
        "Process Instance.Task Information.Target User",
    ];
    assert(names@.map_values(|s: &str| s@) =~= selected_names());
    let sel = match pl_vstr_to_selects(df, names) {
        Ok(t) => t,
        Err(e) => {
            let mut m = String::from_str("Building dataframe failed: ");
            let et = table_error_message(&e);
            m.append(et.as_str());
            return Err(RpcStatus { code: RpcCode::Aborted, message: m });
        },
    };
    proof {
        lemma_select_wf(padded(filled), selected_names());
    }
    match get_data(sel, filter1, filter2) {
        Ok(t) => Ok(t),
        Err(e) => {
            let mut m = String::from_str("Filtering failed: ");
            let et = table_error_message(&e);
            m.append(et.as_str());
            Err(RpcStatus { code: RpcCode::InvalidArgument, message: m })
        },
    }
}

// ---------------------------------------------------------------------------
// Answers from the table
// ---------------------------------------------------------------------------

/// A task in a listing's answer.
#[derive(Debug)]
pub struct TaskDetails {
    pub key: String,
    pub object_name: String,
    pub task_name: String,
    pub target_user: String,
    pub creation_date: String,
}

/// The texts of a task in a listing's answer, from a row of the listing's
/// table (creation date, object name, key, task name, target user).
pub open spec fn details_of_row(row: Seq<CellView>) -> (
    Seq<char>,
    Seq<char>,
    Seq<char>,
    Seq<char>,
    Seq<char>,
) {
    (cell_text(row[2]), cell_text(row[1]), cell_text(row[3]), cell_text(row[4]), cell_text(row[0]))
}

/// The texts of an answer task (key, object name, task name, target user,
/// creation date).
pub open spec fn details_view(d: TaskDetails) -> (
    Seq<char>,
    Seq<char>,
    Seq<char>,
    Seq<char>,
    Seq<char>,
) {
    (d.key@, d.object_name@, d.task_name@, d.target_user@, d.creation_date@)
}

proof fn lemma_first_five(t: &Table)
    requires
        table_wf(t@),
        t@.len() >= 5,
    ensures
        forall|c: int|
            0 <= c < 5 ==> (#[trigger] t.columns@[c]).cells@.len() == height(t@) && t@[c]
                == t.columns@[c]@,
{
    assert forall|c: int| 0 <= c < 5 implies (#[trigger] t.columns@[c]).cells@.len() == height(t@)
        && t@[c] == t.columns@[c]@ by {
        assert(t@[c] == t.columns@[c]@);
        assert(t@[c].cells.len() == height(t@));
    }
}

/// The answer tasks of a listing's table, one per row.
pub fn task_details(t: &Table) -> (r: Vec<TaskDetails>)
    requires
        table_wf(t@),
        t@.len() >= 5,
    ensures
        r@.len() == height(t@),
        forall|i: int|
            0 <= i < r@.len() ==> details_view(#[trigger] r@[i]) == details_of_row(
                rows_of(t@)[i],
            ),
{
    let ghost tv = t@;
    let h = t.columns[0].cells.len();
    assert(tv[0] == t.columns@[0]@);
    let mut r: Vec<TaskDetails> = Vec::new();
    for i in 0..h
        invariant
            tv == t@,
            table_wf(tv),
            tv.len() >= 5,
            h == height(tv),
            r@.len() == i,
            forall|m: int|
                0 <= m < i ==> details_view(#[trigger] r@[m]) == details_of_row(rows_of(tv)[m]),
    {
        let ghost row = rows_of(tv)[i as int];
        proof {
            lemma_first_five(t);
        }
        let d = TaskDetails {
            key: cell_to_string(&t.columns[2].cells[i]),
            object_name: cell_to_string(&t.columns[1].cells[i]),
            task_name: cell_to_string(&t.columns[3].cells[i]),
            target_user: cell_to_string(&t.columns[4].cells[i]),
            creation_date: cell_to_string(&t.columns[0].cells[i]),
        };
        assert(details_view(d) == details_of_row(row));
        r.push(d);
    }
    r
}

/// The database task of row `r` of a listing's table: the texts of its
/// cells, the creation date read back from its text with a `Z` (UTC)
/// appended; `None` when that text denotes no instant.
pub fn db_task_for_row(t: &Table, r: usize) -> (res: Option<DbTask>)
    requires
        table_wf(t@),
        t@.len() >= 5,
        r < height(t@),
    ensures
        res is Some <==> crate::datetime::utc_text_millis(cell_text(rows_of(t@)[r as int][0]) + "Z"@)
            is Some,
        res matches Some(task) ==> db_task_spec(
            task,
            cell_text(rows_of(t@)[r as int][0]) + "Z"@,
            cell_text(rows_of(t@)[r as int][1]),
            cell_text(rows_of(t@)[r as int][2]),
            cell_text(rows_of(t@)[r as int][3]),
            cell_text(rows_of(t@)[r as int][4]),
        ),
        res matches Some(task) ==> {
            &&& task.id is None
            &&& task.objects_name@ == cell_text(t@[1].cells[r as int])
            &&& task.process_instance_task_details_key@ == cell_text(t@[2].cells[r as int])
            &&& task.process_definition_tasks_task_name@ == cell_text(t@[3].cells[r as int])
            &&& task.process_instance_task_information_target_user@ == cell_text(
                t@[4].cells[r as int],
            )
        },
{
    let ghost tv = t@;
    proof {
        lemma_first_five(t);
    }
    let mut date = cell_to_string(&t.columns[0].cells[r]);
    date.append("Z");
    new_db_task(
        date.as_str(),
        cell_to_string(&t.columns[1].cells[r]),
        cell_to_string(&t.columns[2].cells[r]),
        cell_to_string(&t.columns[3].cells[r]),
        cell_to_string(&t.columns[4].cells[r]),
    )
}

/// The answer to a task listing: how many tasks the listing holds, when it
/// was made (seconds and nanoseconds since the Unix epoch), a message, and
/// the tasks themselves in direct mode.
#[derive(Debug)]
pub struct ListAnswer {
    pub result: i32,
    pub seconds: i64,
    pub nanos: i32,
    pub message: String,
    pub tasks: Vec<TaskDetails>,
}

/// Builds a listing's answer. In direct mode the count is the number of tasks
/// returned; otherwise it is `stored`, the number of tasks that the file or
/// the database holds after the listing. The count is cut to 32 bits.
pub fn list_answer(mode: ListMode, tasks: Vec<TaskDetails>, stored: usize, seconds: i64, nanos: i32) -> (r:
    ListAnswer)
    ensures
        r.result == (if mode == ListMode::Direct {
            tasks@.len() as i32
        } else {
            stored as i32
        }),
        r.seconds == seconds,
        r.nanos == nanos,
        r.message@ == "List generated successfully"@,
        r.tasks == tasks,
{
    let count: i32 = match mode {
        ListMode::Direct => tasks.len() as i32,
        _ => stored as i32,
    };
    ListAnswer {
        result: count,
        seconds,
        nanos,
        message: String::from_str("List generated successfully"),
        tasks,
    }
}

// ---------------------------------------------------------------------------
// Retrying provisioning tasks
// ---------------------------------------------------------------------------

/// The answer entry of a retried task: its id and the last status seen.
#[derive(Debug)]
pub struct RetriedTask {
    pub id: String,
    pub status: String,
}

/// The retried tasks of an action request, by id: each id once.
#[derive(Debug)]
pub struct RetriedTasks {
    pub entries: Vec<RetriedTask>,
}

/// The index of the entry for `id`.
pub open spec fn entry_index(s: Seq<RetriedTask>, id: Seq<char>) -> int {
    choose|i: int| 0 <= i < s.len() && s[i].id@ == id
}

impl RetriedTasks {
    /// Each id has one entry.
    pub open spec fn wf(&self) -> bool {
        forall|i: int, j: int|
            0 <= i < j < self.entries@.len() ==> (#[trigger] self.entries@[i]).id@
                != (#[trigger] self.entries@[j]).id@
    }

    /// The statuses by task id.
    pub open spec fn view_map(&self) -> Map<Seq<char>, Seq<char>> {
        Map::new(
            |id: Seq<char>| exists|i: int| 0 <= i < self.entries@.len() && self.entries@[i].id@ == id,
            |id: Seq<char>| self.entries@[entry_index(self.entries@, id)].status@,
        )
    }

    /// No retried task yet.
    pub fn new() -> (r: RetriedTasks)
        ensures
            r.wf(),
            r.view_map() == Map::<Seq<char>, Seq<char>>::empty(),
    {
        let r = RetriedTasks { entries: Vec::new() };
        assert(r.view_map() =~= Map::<Seq<char>, Seq<char>>::empty());
        r
    }

    /// Records the status of a task; a later status replaces an earlier one.
    pub fn insert(&mut self, id: String, status: String)
        requires
            old(self).wf(),
        ensures
            final(self).wf(),
            final(self).view_map() == old(self).view_map().insert(id@, status@),
    {
        let ghost old_entries = self.entries@;
        let ghost idv = id@;
        let ghost stv = status@;
        let mut k: usize = 0;
        while k < self.entries.len()
            invariant
                self.entries@ == old_entries,
                self.wf(),
                k <= old_entries.len(),
                forall|m: int| 0 <= m < k ==> (#[trigger] old_entries[m]).id@ != idv,
                idv == id@,
            ensures
                k <= old_entries.len(),
                k < old_entries.len() ==> old_entries[k as int].id@ == idv,
                self.entries@ == old_entries,
                forall|m: int| 0 <= m < k ==> (#[trigger] old_entries[m]).id@ != idv,
            decreases old_entries.len() - k,
        {
            if self.entries[k].id == id {
                break;
            }
            k = k + 1;
        }
        if k < self.entries.len() {
            assert(old_entries[k as int].id@ == idv);
            self.entries.set(k, RetriedTask { id, status });
            let ghost ne = self.entries@;
            assert forall|i: int, j: int| 0 <= i < j < ne.len() implies (#[trigger] ne[i]).id@
                != (#[trigger] ne[j]).id@ by {
                assert(old_entries[i].id@ != old_entries[j].id@);
            }
            assert forall|x: Seq<char>| #[trigger] self.view_map().dom().contains(x)
                <==> old(self).view_map().insert(idv, stv).dom().contains(x) by {
                if x == idv {
                    assert(ne[k as int].id@ == x);
                } else {
                    if exists|i: int| 0 <= i < ne.len() && ne[i].id@ == x {
                        let i = choose|i: int| 0 <= i < ne.len() && ne[i].id@ == x;
                        assert(old_entries[i].id@ == x);
                    }
                    if exists|i: int| 0 <= i < old_entries.len() && old_entries[i].id@ == x {
                        let i = choose|i: int| 0 <= i < old_entries.len() && old_entries[i].id@ == x;
                        assert(ne[i].id@ == x);
                    }
                }
            }
            assert forall|x: Seq<char>| #[trigger] self.view_map().dom().contains(x) implies self.view_map()[x]
                == old(self).view_map().insert(idv, stv)[x] by {
                let i = entry_index(ne, x);
                assert(0 <= i < ne.len() && ne[i].id@ == x);
                if x == idv {
                    assert(ne[k as int].id@ == x);
                    assert(i == k);
                } else {
                    assert(old_entries[i].id@ == x);
                    let j = entry_index(old_entries, x);
                    assert(0 <= j < old_entries.len() && old_entries[j].id@ == x);
                    assert(i == j);
                }
            }
            assert(self.view_map() =~= old(self).view_map().insert(idv, stv));
        } else {
            self.entries.push(RetriedTask { id, status });
            let ghost ne = self.entries@;
            let ghost n = old_entries.len();
            assert forall|i: int, j: int| 0 <= i < j < ne.len() implies (#[trigger] ne[i]).id@
                != (#[trigger] ne[j]).id@ by {
                if j < n {
                    assert(old_entries[i].id@ != old_entries[j].id@);
                } else {
                    assert(old_entries[i].id@ != idv);
                }
            }
            assert forall|x: Seq<char>| #[trigger] self.view_map().dom().contains(x)
                <==> old(self).view_map().insert(idv, stv).dom().contains(x) by {
                if x == idv {
                    assert(ne[n as int].id@ == x);
                } else {
                    if exists|i: int| 0 <= i < ne.len() && ne[i].id@ == x {
                        let i = choose|i: int| 0 <= i < ne.len() && ne[i].id@ == x;
                        assert(old_entries[i].id@ == x);
                    }
                    if exists|i: int| 0 <= i < old_entries.len() && old_entries[i].id@ == x {
                        let i = choose|i: int| 0 <= i < old_entries.len() && old_entries[i].id@ == x;
                        assert(ne[i].id@ == x);
                    }
                }
            }
            assert forall|x: Seq<char>| #[trigger] self.view_map().dom().contains(x) implies self.view_map()[x]
                == old(self).view_map().insert(idv, stv)[x] by {
                let i = entry_index(ne, x);
                assert(0 <= i < ne.len() && ne[i].id@ == x);
                if x == idv {
                    assert(ne[n as int].id@ == x);
                    assert(i == n);
                } else {
                    assert(old_entries[i].id@ == x);
                    let j = entry_index(old_entries, x);
                    assert(0 <= j < old_entries.len() && old_entries[j].id@ == x);
                    assert(i == j);
                }
            }
            assert(self.view_map() =~= old(self).view_map().insert(idv, stv));
        }
    }
}

/// The URL that an action on task `id` is sent to.
pub open spec fn put_url(base: Seq<char>, put: Seq<char>, id: Seq<char>) -> Seq<char> {
    base + put + "/"@ + id
}

/// The outcome of one action call: the backend's status code and status
/// text, or a failed call.
#[derive(Debug)]
pub enum CallOutcome {
    Response { code: u16, text: String },
    Failed,
}

/// The retry of one task: up to three calls, until one answers with status
/// 200.
#[derive(Debug)]
pub struct RetryRun {
    pub id: String,
    pub url: String,
    pub retry: i32,
    pub status: u16,
}

/// The status text recorded for a failed call.
pub open spec fn failed_status() -> Seq<char> {
    "400"@
}

impl RetryRun {
    /// The retry's invariant: at most three calls.
    pub open spec fn wf(&self) -> bool {
        0 <= self.retry <= 3
    }

    /// Whether another call is due.
    pub open spec fn due(&self) -> bool {
        self.retry < 3 && self.status != 200
    }

    /// Starts the retry of task `id` with the backend of `conf`.
    pub fn new(conf: &AppConfig, id: &str) -> (r: RetryRun)
        ensures
            r.wf(),
            r.id@ == id@,
            r.url@ == put_url(conf.baseurl@, conf.urlput@, id@),
            r.retry == 0,
            r.status == 0,
    {
        let mut url = concat2(conf.baseurl.as_str(), conf.urlput.as_str());
        url.append("/");
        url.append(id);
        RetryRun { id: id.to_owned(), url, retry: 0, status: 0 }
    }

    /// Begins the next call if one is due (counting it); `false` when the
    /// retry is over.
    pub fn start_attempt(&mut self) -> (r: bool)
        requires
            old(self).wf(),
        ensures
            final(self).wf(),
            r == old(self).due(),
            r ==> final(self).retry == old(self).retry + 1,
            !r ==> final(self).retry == old(self).retry,
            final(self).status == old(self).status,
            final(self).id == old(self).id,
            final(self).url == old(self).url,
    {
        if self.retry < 3 && self.status != 200 {
            self.retry = self.retry + 1;
            true
        } else {
            false
        }
    }

    /// Records the outcome of a call: the status code of a response is kept,
    /// and the task's entry becomes the response's status text, or `400` for
    /// a failed call.
    pub fn finish_attempt(&mut self, outcome: CallOutcome, done: &mut RetriedTasks)
        requires
            old(self).wf(),
            old(done).wf(),
        ensures
            final(self).wf(),
            final(done).wf(),
            final(self).retry == old(self).retry,
            final(self).id == old(self).id,
            final(self).url == old(self).url,
            match outcome {
                CallOutcome::Response { code, text } => {
                    &&& final(self).status == code
                    &&& final(done).view_map() == old(done).view_map().insert(
                        old(self).id@,
                        text@,
                    )
                },
                CallOutcome::Failed => {
                    &&& final(self).status == old(self).status
                    &&& final(done).view_map() == old(done).view_map().insert(
                        old(self).id@,
                        failed_status(),
                    )
                },
            },
    {
        match outcome {
            CallOutcome::Response { code, text } => {
                self.status = code;
                done.insert(self.id.clone(), text);
            },
            CallOutcome::Failed => {
                done.insert(self.id.clone(), String::from_str("400"));
            },
        }
    }
}

/// A retry makes at most three calls, and none after a call answered 200.
pub proof fn retry_bounded(run: RetryRun)
    requires
        run.wf(),
    ensures
        run.retry == 3 ==> !run.due(),
        run.status == 200 ==> !run.due(),
{
}

/// The tasks that an action request retries from the task file: none in
/// check mode, else all of them in file order.
pub fn pending_ids(checkmode: bool, ids: Vec<String>) -> (r: Vec<String>)
    ensures
        checkmode ==> r@.len() == 0,
        !checkmode ==> r == ids,
{
    if checkmode {
        Vec::new()
    } else {
        ids
    }
}

/// The key and record id of a database task to retry; `None` when the task
/// has no record id.
pub fn db_retry_target(task: &DbTask) -> (r: Option<(String, String)>)
    ensures
        task.id is None ==> r is None,
        task.id matches Some(rid) ==> (r matches Some((k, i)) && k@
            == task.process_instance_task_details_key@ && i@ == rid@),
{
    match &task.id {
        None => None,
        Some(rid) => Some((task.process_instance_task_details_key.clone(), rid.clone())),
    }
}

// ---------------------------------------------------------------------------
// Configuration reload and connection check
// ---------------------------------------------------------------------------

/// The status for settings that could not be loaded.
pub fn load_failure_status(error_text: &str) -> (st: RpcStatus)
    ensures
        st.code == RpcCode::Internal,
        st.message@ == "Failed to load configuration: "@ + error_text@,
{
    RpcStatus { code: RpcCode::Internal, message: concat2("Failed to load configuration: ", error_text) }
}

/// Whether a reload of the settings also reconnects the database.
pub open spec fn reload_reconnects(db_enabled: bool, service_present: bool) -> bool {
    db_enabled && service_present
}

/// The database part of a reload's answer.
pub open spec fn reload_db_status(db_enabled: bool, service_present: bool) -> Seq<char> {
    if !db_enabled {
        "Database disabled"@
    } else if !service_present {
        "Database enabled in config, but database service not initialized"@
    } else {
        "Database connection reloaded successfully"@
    }
}

/// The answer to a settings reload, given whether the new settings enable
/// the database, whether the service has a database, and the error of the
/// reconnection when one was made and failed.
pub fn reload_answer(db_enabled: bool, service_present: bool, reconnect_error: Option<&str>) -> (r:
    Result<String, RpcStatus>)
    requires
        reconnect_error is Some ==> reload_reconnects(db_enabled, service_present),
    ensures
        match reconnect_error {
            Some(e) => r matches Err(st) && st.code == RpcCode::Internal && st.message@
                == "Configuration reloaded, but database reload failed: "@ + e@,
            None => r matches Ok(m) && m@ == "Reload successful. Status: "@ + reload_db_status(
                db_enabled,
                service_present,
            ),
        },
{
    match reconnect_error {
        Some(e) => Err(
            RpcStatus {
                code: RpcCode::Internal,
                message: concat2("Configuration reloaded, but database reload failed: ", e),
            },
        ),
        None => {
            let status = if !db_enabled {
                "Database disabled"
            } else if !service_present {
                "Database enabled in config, but database service not initialized"
            } else {
                "Database connection reloaded successfully"
            };
            Ok(concat2("Reload successful. Status: ", status))
        },
    }
}

/// The status for a connection check that could not reach the backend.
pub fn connection_failure(url: &str, error_text: &str) -> (st: RpcStatus)
    ensures
        st.code == RpcCode::Unavailable,
        st.message@ == "Connection failed to URL "@ + url@ + ": "@ + error_text@,
{
    let mut m = concat2("Connection failed to URL ", url);
    m.append(": ");
    m.append(error_text);
    RpcStatus { code: RpcCode::Unavailable, message: m }
}

/// The preview of a response body: the body when it has at most 500 bytes,
/// else the characters of its first 500 bytes and `...`.
pub open spec fn body_preview_spec(body: &str) -> Seq<char> {
    if body.spec_bytes().len() > 500 {
        vstd::utf8::decode_utf8(body.spec_bytes().subrange(0, 500)) + "..."@
    } else {
        body@
    }
}

/// The preview of a response body (see `body_preview_spec`); a body longer
/// than 500 bytes must have a character boundary at byte 500.
pub fn body_preview(body: &str) -> (r: String)
    requires
        body.spec_bytes().len() > 500 ==> vstd::utf8::is_char_boundary(body.spec_bytes(), 500),
    ensures
        r@ == body_preview_spec(body),
{
    let bytes = body.as_bytes();
    if bytes.len() > 500 {
        let (front, _rest) = body.split_at(500);
        proof {
            vstd::utf8::encode_utf8_decode_utf8(front@);
            assert(front.spec_bytes() == vstd::utf8::encode_utf8(front@));
            assert(front.spec_bytes() =~= body.spec_bytes().subrange(0, 500));
            assert(front@ == vstd::utf8::decode_utf8(body.spec_bytes().subrange(0, 500)));
        }
        let mut s = front.to_owned();
        s.append("...");
        s
    } else {
        body.to_owned()
    }
}

/// The report of a connection check.
pub open spec fn connection_report_spec(url: Seq<char>, success: bool, code: u16, preview: Seq<char>) -> Seq<
    char,
> {
    "Connection Status: "@ + (if success {
        "SUCCESS"@
    } else {
        "FAILED"@
    }) + "\nURL Checked: "@ + url + "\nHTTP Status Code: "@ + int_text(code as int)
        + "\nResponse Body Preview:\n"@ + preview
}

/// The report of a connection check: whether the backend answered with a
/// success status, the URL, the status code and a preview of the body.
pub fn connection_report(url: &str, success: bool, code: u16, body: &str) -> (r: String)
    requires
        body.spec_bytes().len() > 500 ==> vstd::utf8::is_char_boundary(body.spec_bytes(), 500),
    ensures
        r@ == connection_report_spec(url@, success, code, body_preview_spec(body)),
{
    let mut s = String::from_str("Connection Status: ");
    if success {
        s.append("SUCCESS");
    } else {
        s.append("FAILED");
    }
    s.append("\nURL Checked: ");
    s.append(url);
    s.append("\nHTTP Status Code: ");
    let c = i64_text(code as i64);
    s.append(c.as_str());
    s.append("\nResponse Body Preview:\n");
    let p = body_preview(body);
    s.append(p.as_str());
    s
}

} // verus!
