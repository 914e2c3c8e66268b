//! The task table: columns built from the backend's task fields, the column
//! selection, the row filter, date parsing and ordering, and the rendering of
//! its cells.
//!
//! The service does not link the polars dataframe library: the few table
//! operations it needs (horizontal concatenation with null padding, select,
//! filter, non-exact date parsing, integer cast, sort, value display) are
//! defined and proved here over `Table`. Date parsing and pattern matching
//! still go to chrono and regex.
use vstd::prelude::*;
use vstd::string::*;
use crate::datetime::{Stamp, creation_millis, creation_display, creation_csv_text, parse_creation_date, timestamp_in_range, timestamp_valid};
use crate::pattern::{regex_contains, regex_match};
use crate::model::{Field, FieldValue, FieldValueView, Task, tasks_view};
use crate::text::{chars_of, extend_chars, extend_str, i64_chars, int_text, parse_i64, parse_i64_chars, str_eq, string_of};

verus! {

/// One cell of the table.
#[derive(Debug)]
pub enum Cell {
    Null,
    Text(String),
    Int(i64),
    Bool(bool),
    Datetime(Stamp),
}

/// Spec view of a cell: a date-time cell is viewed by its instant and its
/// two renderings.
pub enum CellView {
    Null,
    Text(Seq<char>),
    Int(i64),
    Bool(bool),
    Datetime(i64, Seq<char>, Seq<char>),
}

impl View for Cell {
    type V = CellView;

    open spec fn view(&self) -> CellView {
        match self {
            Cell::Null => CellView::Null,
            Cell::Text(s) => CellView::Text(s@),
            Cell::Int(i) => CellView::Int(*i),
            Cell::Bool(b) => CellView::Bool(*b),
            Cell::Datetime(st) => CellView::Datetime(st.millis, st.display@, st.csv@),
        }
    }
}

impl Cell {
    /// A copy of the cell.
    pub fn copy(&self) -> (c: Cell)
        ensures
            c@ == self@,
    {
        match self {
            Cell::Null => Cell::Null,
            Cell::Text(s) => Cell::Text(s.clone()),
            Cell::Int(i) => Cell::Int(*i),
            Cell::Bool(b) => Cell::Bool(*b),
            Cell::Datetime(st) => Cell::Datetime(
                Stamp { millis: st.millis, display: st.display.clone(), csv: st.csv.clone() },
            ),
        }
    }
}

/// The type of a column's values.
#[derive(Debug, Clone, Copy, PartialEq, Eq, Structural)]
pub enum DType {
    Text,
    Int64,
    Bool,
    Datetime,
}

/// A named column.
#[derive(Debug)]
pub struct Column {
    pub name: String,
    pub dtype: DType,
    pub cells: Vec<Cell>,
}

/// Spec view of a column.
pub struct ColumnView {
    pub name: Seq<char>,
    pub dtype: DType,
    pub cells: Seq<CellView>,
}

impl View for Column {
    type V = ColumnView;

    open spec fn view(&self) -> ColumnView {
        ColumnView { name: self.name@, dtype: self.dtype, cells: self.cells@.map_values(|c: Cell| c@) }
    }
}

/// A table: columns of equal height.
#[derive(Debug)]
pub struct Table {
    pub columns: Vec<Column>,
}

/// The view of a list of columns.
pub open spec fn columns_view(cols: Seq<Column>) -> Seq<ColumnView> {
    cols.map_values(|c: Column| c@)
}

impl View for Table {
    type V = Seq<ColumnView>;

    open spec fn view(&self) -> Seq<ColumnView> {
        columns_view(self.columns@)
    }
}

/// The height of a table: that of its first column, 0 without columns.
pub open spec fn height(cols: Seq<ColumnView>) -> nat {
    if cols.len() == 0 {
        0
    } else {
        cols[0].cells.len()
    }
}

/// All columns have the same height.
pub open spec fn table_wf(cols: Seq<ColumnView>) -> bool {
    forall|c: int| 0 <= c < cols.len() ==> (#[trigger] cols[c]).cells.len() == height(cols)
}

/// Row `r` of a table: the `r`-th cell of each column.
pub open spec fn row_at(cols: Seq<ColumnView>, r: int) -> Seq<CellView> {
    Seq::new(cols.len(), |c: int| cols[c].cells[r])
}

/// The rows of a table, top to bottom.
pub open spec fn rows_of(cols: Seq<ColumnView>) -> Seq<Seq<CellView>> {
    Seq::new(height(cols), |r: int| row_at(cols, r))
}

/// The names of the columns.
pub open spec fn names_of(cols: Seq<ColumnView>) -> Seq<Seq<char>> {
    cols.map_values(|c: ColumnView| c.name)
}

/// Errors of table operations.
#[derive(Debug)]
pub enum TableError {
    ColumnNotFound(String),
    Duplicate(String),
    SchemaMismatch(String),
}

/// Spec view of a table error.
pub enum TableErrorView {
    ColumnNotFound(Seq<char>),
    Duplicate(Seq<char>),
    SchemaMismatch(Seq<char>),
}

impl View for TableError {
    type V = TableErrorView;

    open spec fn view(&self) -> TableErrorView {
        match self {
            TableError::ColumnNotFound(s) => TableErrorView::ColumnNotFound(s@),
            TableError::Duplicate(s) => TableErrorView::Duplicate(s@),
            TableError::SchemaMismatch(s) => TableErrorView::SchemaMismatch(s@),
        }
    }
}

// ---------------------------------------------------------------------------
// Header columns
// ---------------------------------------------------------------------------

/// `s` without repeated entries; the first occurrence of each is kept.
pub open spec fn dedup(s: Seq<Seq<char>>) -> Seq<Seq<char>>
    decreases s.len(),
{
    if s.len() == 0 {
        seq![]
    } else {
        let d = dedup(s.drop_last());
        if d.contains(s.last()) {
            d
        } else {
            d.push(s.last())
        }
    }
}

/// The header names of a page of tasks: the empty name, then the field names
/// of the first task, each name once.
pub open spec fn header_names(page: Seq<Seq<(Seq<char>, FieldValueView)>>) -> Seq<Seq<char>> {
    dedup(
        seq![Seq::<char>::empty()] + if page.len() > 0 {
            page[0].map_values(|f: (Seq<char>, FieldValueView)| f.0)
        } else {
            seq![]
        },
    )
}

/// Decides whether a column of the given name is in `cols`.
fn has_column(cols: &Vec<Column>, name: &String) -> (b: bool)
    ensures
        b == names_of(columns_view(cols@)).contains(name@),
{
    for k in 0..cols.len()
        invariant
            forall|m: int| 0 <= m < k ==> cols@[m].name@ != name@,
    {
        if cols[k].name == *name {
            assert(names_of(columns_view(cols@))[k as int] == name@);
            return true;
        }
    }
    assert(!names_of(columns_view(cols@)).contains(name@)) by {
        if names_of(columns_view(cols@)).contains(name@) {
            let m = choose|m: int|
                0 <= m < names_of(columns_view(cols@)).len() && names_of(columns_view(cols@))[m]
                    == name@;
            assert(cols@[m].name@ == name@);
        }
    }
    false
}

/// An empty text column of the given name.
fn empty_text_column(name: String) -> (c: Column)
    ensures
        c@.name == name@,
        c@.dtype == DType::Text,
        c@.cells.len() == 0,
{
    let c = Column { name, dtype: DType::Text, cells: Vec::new() };
    assert(c@.cells =~= Seq::<CellView>::empty());
    c
}

/// The empty text columns for a page of tasks: one per header name (see
/// `header_names`), in that order.
pub fn getheaders(data: &Vec<Task>) -> (r: Vec<Column>)
    ensures
        names_of(columns_view(r@)) == header_names(tasks_view(data@)),
        forall|k: int|
            0 <= k < r@.len() ==> (#[trigger] r@[k])@.dtype == DType::Text && r@[k]@.cells.len()
                == 0,
{
    let ghost all = seq![Seq::<char>::empty()] + if data@.len() > 0 {
        data@[0]@.map_values(|f: (Seq<char>, FieldValueView)| f.0)
    } else {
        seq![]
    };
    let mut r: Vec<Column> = Vec::new();
    r.push(empty_text_column(String::new()));
    proof {
        let first = all.subrange(0, 1);
        assert(first.drop_last() =~= Seq::<Seq<char>>::empty());
        assert(dedup(first.drop_last()) =~= Seq::<Seq<char>>::empty());
        assert(first.last() == Seq::<char>::empty());
        assert(dedup(first) =~= seq![Seq::<char>::empty()]);
        assert(names_of(columns_view(r@)) =~= dedup(all.subrange(0, 1)));
    }
    if data.len() > 0 {
        let fields = &data[0].fields;
        for j in 0..fields.len()
            invariant
                fields == data@[0].fields,
                data@.len() > 0,
                all.len() == fields@.len() + 1,
                forall|m: int| 0 <= m < fields@.len() ==> all[m + 1] == #[trigger] fields@[m].name@,
                names_of(columns_view(r@)) == dedup(all.subrange(0, j + 1)),
                forall|k: int|
                    0 <= k < r@.len() ==> (#[trigger] r@[k])@.dtype == DType::Text
                        && r@[k]@.cells.len() == 0,
        {
            let name = fields[j].name.clone();
            proof {
                assert(all.subrange(0, j + 2).drop_last() =~= all.subrange(0, j + 1));
                assert(all.subrange(0, j + 2).last() == name@);
            }
            if !has_column(&r, &name) {
                let ghost prev = r@;
                r.push(empty_text_column(name));
                assert(names_of(columns_view(r@)) =~= names_of(columns_view(prev)).push(
                    all[j + 1],
                ));
            }
        }
        assert(all.subrange(0, fields@.len() + 1int) =~= all);
    } else {
        assert(all =~= all.subrange(0, 1));
    }
    r
}

/// Distinct entries: `dedup` never repeats a name.
pub proof fn lemma_dedup_distinct(s: Seq<Seq<char>>)
    ensures
        forall|i: int, j: int|
            0 <= i < j < dedup(s).len() ==> dedup(s)[i] != dedup(s)[j],
    decreases s.len(),
{
    if s.len() > 0 {
        lemma_dedup_distinct(s.drop_last());
        let d = dedup(s.drop_last());
        if !d.contains(s.last()) {
            assert forall|i: int, j: int|
                0 <= i < j < d.push(s.last()).len() implies d.push(s.last())[i] != d.push(
                s.last(),
            )[j] by {
                if j == d.len() {
                    assert(d.push(s.last())[i] == d[i]);
                }
            }
        }
    }
}

// ---------------------------------------------------------------------------
// Filling the columns from the task fields
// ---------------------------------------------------------------------------

/// The text a table cell takes from a field value.
pub open spec fn value_text(v: FieldValueView) -> Seq<char> {
    match v {
        FieldValueView::Number(s) => s,
        FieldValueView::Text(s) => s,
        FieldValueView::Other => Seq::empty(),
    }
}

/// The fields of the tasks, task after task.
pub open spec fn flat_fields(tasks: Seq<Seq<(Seq<char>, FieldValueView)>>) -> Seq<
    (Seq<char>, FieldValueView),
>
    decreases tasks.len(),
{
    if tasks.len() == 0 {
        seq![]
    } else {
        flat_fields(tasks.drop_last()) + tasks.last()
    }
}

/// The text cells that the fields named `name` give, in order.
pub open spec fn field_cells(fields: Seq<(Seq<char>, FieldValueView)>, name: Seq<char>) -> Seq<
    CellView,
>
    decreases fields.len(),
{
    if fields.len() == 0 {
        seq![]
    } else {
        let rest = field_cells(fields.drop_last(), name);
        if fields.last().0 == name {
            rest.push(CellView::Text(value_text(fields.last().1)))
        } else {
            rest
        }
    }
}

/// Every field value is a JSON number or string.
pub open spec fn all_scalar(tasks: Seq<Seq<(Seq<char>, FieldValueView)>>) -> bool {
    forall|i: int, j: int|
        0 <= i < tasks.len() && 0 <= j < tasks[i].len() ==> !((#[trigger] tasks[i][j]).1 is Other)
}

/// Decides whether every field value is a JSON number or string.
pub fn fields_are_scalar(data: &Vec<Task>) -> (b: bool)
    ensures
        b == all_scalar(tasks_view(data@)),
{
    let ghost tv = tasks_view(data@);
    for i in 0..data.len()
        invariant
            tv == tasks_view(data@),
            forall|a: int, b: int|
                0 <= a < i && 0 <= b < tv[a].len() ==> !((#[trigger] tv[a][b]).1 is Other),
    {
        let fields = &data[i].fields;
        for j in 0..fields.len()
            invariant
                tv == tasks_view(data@),
                i < data@.len(),
                fields == data@[i as int].fields,
                forall|a: int, b: int|
                    0 <= a < i && 0 <= b < tv[a].len() ==> !((#[trigger] tv[a][b]).1 is Other),
                forall|b: int| 0 <= b < j ==> !((#[trigger] tv[i as int][b]).1 is Other),
        {
            if let FieldValue::Other = fields[j].value {
                assert(tv[i as int][j as int].1 is Other);
                return false;
            }
        }
    }
    true
}

/// The text cells that the fields named `name` give, over all tasks.
fn cells_named(data: &Vec<Task>, name: &String) -> (r: Vec<Cell>)
    ensures
        r@.map_values(|c: Cell| c@) == field_cells(flat_fields(tasks_view(data@)), name@),
{
    let ghost tv = tasks_view(data@);
    let mut r: Vec<Cell> = Vec::new();
    for i in 0..data.len()
        invariant
            tv == tasks_view(data@),
            r@.map_values(|c: Cell| c@) == field_cells(flat_fields(tv.subrange(0, i as int)), name@),
    {
        let fields = &data[i].fields;
        proof {
            assert(tv.subrange(0, i + 1).drop_last() =~= tv.subrange(0, i as int));
            assert(flat_fields(tv.subrange(0, i as int)) + tv[i as int].subrange(0, 0)
                =~= flat_fields(tv.subrange(0, i as int)));
        }
        for j in 0..fields.len()
            invariant
                tv == tasks_view(data@),
                i < data@.len(),
                fields == data@[i as int].fields,
                r@.map_values(|c: Cell| c@) == field_cells(
                    flat_fields(tv.subrange(0, i as int)) + tv[i as int].subrange(0, j as int),
                    name@,
                ),
        {
            let ghost pre = flat_fields(tv.subrange(0, i as int)) + tv[i as int].subrange(
                0,
                j as int,
            );
            let ghost post = flat_fields(tv.subrange(0, i as int)) + tv[i as int].subrange(
                0,
                j + 1,
            );
            assert(post.drop_last() =~= pre);
            assert(post.last() == fields@[j as int]@);
            if fields[j].name == *name {
                let ghost prev = r@;
                let text = match &fields[j].value {
                    FieldValue::Number(s) => s.clone(),
                    FieldValue::Text(s) => s.clone(),
                    FieldValue::Other => String::new(),
                };
                r.push(Cell::Text(text));
                assert(r@.map_values(|c: Cell| c@) =~= prev.map_values(|c: Cell| c@).push(
                    CellView::Text(value_text(fields@[j as int].value@)),
                ));
            }
        }
        assert(flat_fields(tv.subrange(0, i as int)) + tv[i as int].subrange(
            0,
            tv[i as int].len() as int,
        ) =~= flat_fields(tv.subrange(0, i + 1)));
    }
    assert(tv.subrange(0, data@.len() as int) =~= tv);
    r
}

/// Appends to each column the values of the task fields of its name, as text
/// cells (a JSON number by its decimal text), task after task and field after
/// field. Every field value must be a JSON number or string.
pub fn fillseries(data: Vec<Task>, hm: &mut Vec<Column>)
    requires
        all_scalar(tasks_view(data@)),
    ensures
        final(hm)@.len() == old(hm)@.len(),
        forall|k: int|
            0 <= k < old(hm)@.len() ==> {
                &&& (#[trigger] final(hm)@[k])@.name == old(hm)@[k]@.name
                &&& final(hm)@[k]@.dtype == old(hm)@[k]@.dtype
                &&& final(hm)@[k]@.cells == old(hm)@[k]@.cells + field_cells(
                    flat_fields(tasks_view(data@)),
                    old(hm)@[k]@.name,
                )
            },
{
    let ghost old_cols = hm@;
    let ghost ff = flat_fields(tasks_view(data@));
    let mut out: Vec<Column> = Vec::new();
    let n = hm.len();
    let mut k: usize = 0;
    while k < n
        invariant
            n == old_cols.len(),
            ff == flat_fields(tasks_view(data@)),
            hm@ == old_cols.subrange(k as int, n as int),
            out@.len() == k,
            k <= n,
            forall|m: int|
                0 <= m < k ==> {
                    &&& (#[trigger] out@[m])@.name == old_cols[m]@.name
                    &&& out@[m]@.dtype == old_cols[m]@.dtype
                    &&& out@[m]@.cells == old_cols[m]@.cells + field_cells(ff, old_cols[m]@.name)
                },
        decreases n - k,
    {
        let mut col = hm.remove(0);
        assert(col == old_cols[k as int]);
        let extra = cells_named(&data, &col.name);
        let ghost before = col.cells@;
        let mut extra = extra;
        let ghost ext = extra@;
        col.cells.append(&mut extra);
        assert(col.cells@ == before + ext);
        assert(ext.map_values(|c: Cell| c@) == field_cells(ff, col.name@));
        assert((before + ext).map_values(|c: Cell| c@) =~= before.map_values(|c: Cell| c@)
            + ext.map_values(|c: Cell| c@));
        assert(col@.cells =~= before.map_values(|c: Cell| c@) + field_cells(ff, col.name@));
        out.push(col);
        assert(hm@ =~= old_cols.subrange(k + 1, n as int));
        k = k + 1;
    }
    *hm = out;
}

// ---------------------------------------------------------------------------
// Building the frame
// ---------------------------------------------------------------------------

/// The largest height among the columns, 0 without columns.
pub open spec fn max_height(cols: Seq<ColumnView>) -> nat
    decreases cols.len(),
{
    if cols.len() == 0 {
        0
    } else {
        let m = max_height(cols.drop_last());
        if cols.last().cells.len() > m {
            cols.last().cells.len()
        } else {
            m
        }
    }
}

/// `n` null cells.
pub open spec fn nulls(n: nat) -> Seq<CellView> {
    Seq::new(n, |i: int| CellView::Null)
}

proof fn lemma_max_height(cols: Seq<ColumnView>)
    ensures
        forall|c: int| 0 <= c < cols.len() ==> (#[trigger] cols[c]).cells.len() <= max_height(cols),
        cols.len() > 0 ==> exists|c: int|
            0 <= c < cols.len() && (#[trigger] cols[c]).cells.len() == max_height(cols),
    decreases cols.len(),
{
    if cols.len() > 0 {
        lemma_max_height(cols.drop_last());
        let d = cols.drop_last();
        if d.len() > 0 {
            let c0 = choose|c: int| 0 <= c < d.len() && (#[trigger] d[c]).cells.len() == max_height(d);
            assert(cols[c0] == d[c0]);
        }
        assert forall|c: int| 0 <= c < cols.len() implies (#[trigger] cols[c]).cells.len()
            <= max_height(cols) by {
            if c < d.len() {
                assert(cols[c] == d[c]);
            }
        }
        if cols.last().cells.len() > max_height(d) {
            assert(cols[cols.len() - 1].cells.len() == max_height(cols));
        }
    }
}

/// Puts columns side by side into a table, extending the shorter ones with
/// nulls at the bottom to the height of the tallest.
pub fn build_frame(cols: Vec<Column>) -> (t: Table)
    ensures
        t@.len() == cols@.len(),
        table_wf(t@),
        height(t@) == max_height(columns_view(cols@)),
        forall|c: int|
            0 <= c < cols@.len() ==> {
                &&& (#[trigger] t@[c]).name == cols@[c]@.name
                &&& t@[c].dtype == cols@[c]@.dtype
                &&& t@[c].cells == cols@[c]@.cells + nulls(
                    (max_height(columns_view(cols@)) - cols@[c]@.cells.len()) as nat,
                )
            },
{
    let ghost cv = columns_view(cols@);
    proof {
        lemma_max_height(cv);
    }
    let mut h: usize = 0;
    for k in 0..cols.len()
        invariant
            cv == columns_view(cols@),
            h == max_height(cv.subrange(0, k as int)),
    {
        assert(cv.subrange(0, k + 1).drop_last() =~= cv.subrange(0, k as int));
        if cols[k].cells.len() > h {
            h = cols[k].cells.len();
        }
    }
    assert(cv.subrange(0, cols@.len() as int) =~= cv);
    let n = cols.len();
    let mut src = cols;
    let ghost orig = src@;
    let mut out: Vec<Column> = Vec::new();
    let mut k: usize = 0;
    while k < n
        invariant
            n == orig.len(),
            cv == columns_view(orig),
            h == max_height(cv),
            forall|c: int| 0 <= c < cv.len() ==> (#[trigger] cv[c]).cells.len() <= h,
            src@ == orig.subrange(k as int, n as int),
            out@.len() == k,
            k <= n,
            forall|c: int|
                0 <= c < k ==> {
                    &&& (#[trigger] out@[c])@.name == orig[c]@.name
                    &&& out@[c]@.dtype == orig[c]@.dtype
                    &&& out@[c]@.cells == orig[c]@.cells + nulls(
                        (h - orig[c]@.cells.len()) as nat,
                    )
                },
        decreases n - k,
    {
        let mut col = src.remove(0);
        assert(col == orig[k as int]);
        assert(cv[k as int].cells.len() <= h);
        let ghost start = col@.cells;
        let ghost startlen = col.cells@.len();
        while col.cells.len() < h
            invariant
                k < n,
                n == orig.len(),
                startlen <= col@.cells.len() <= h,
                col@.cells == start + nulls((col@.cells.len() - startlen) as nat),
                col@.name == orig[k as int]@.name,
                col@.dtype == orig[k as int]@.dtype,
            decreases h - col.cells.len(),
        {
            let ghost prev = col@.cells;
            col.cells.push(Cell::Null);
            assert(col@.cells =~= prev.push(CellView::Null));
            assert(col@.cells =~= start + nulls((col@.cells.len() - startlen) as nat));
        }
        out.push(col);
        assert(src@ =~= orig.subrange(k + 1, n as int));
        k = k + 1;
    }
    let t = Table { columns: out };
    assert forall|c: int| 0 <= c < t@.len() implies (#[trigger] t@[c]).cells.len() == height(
        t@,
    ) by {
        assert(cv[c] == orig[c]@);
        assert(cv[0] == orig[0]@);
        assert(t@[c].cells.len() == h);
        assert(t@[0].cells.len() == h);
    }
    proof {
        if n > 0 {
            assert(cv[0] == orig[0]@);
            assert(t@[0].cells.len() == h);
        }
    }
    proof {
        if n == 0 {
            assert(cv.len() == 0);
        }
    }
    t
}

// ---------------------------------------------------------------------------
// Selecting columns
// ---------------------------------------------------------------------------

/// The index of the first column named `name`.
pub open spec fn find_col(cols: Seq<ColumnView>, name: Seq<char>) -> Option<int>
    decreases cols.len(),
{
    if cols.len() == 0 {
        None
    } else {
        match find_col(cols.drop_last(), name) {
            Some(i) => Some(i),
            None => if cols.last().name == name {
                Some(cols.len() - 1)
            } else {
                None
            },
        }
    }
}

pub proof fn lemma_find_col(cols: Seq<ColumnView>, name: Seq<char>)
    ensures
        find_col(cols, name) matches Some(i) ==> 0 <= i < cols.len() && cols[i].name == name
            && forall|m: int| 0 <= m < i ==> (#[trigger] cols[m]).name != name,
        find_col(cols, name) is None ==> forall|m: int|
            0 <= m < cols.len() ==> (#[trigger] cols[m]).name != name,
    decreases cols.len(),
{
    if cols.len() > 0 {
        lemma_find_col(cols.drop_last(), name);
        let d = cols.drop_last();
        assert forall|m: int| #![trigger cols[m]] #![trigger d[m]] 0 <= m < d.len() implies cols[m]
            == d[m] by {}
    }
}

/// Finds the first column named `name`.
pub fn find_column(cols: &Vec<Column>, name: &str) -> (r: Option<usize>)
    ensures
        match r {
            Some(i) => find_col(columns_view(cols@), name@) == Some(i as int),
            None => find_col(columns_view(cols@), name@) is None,
        },
{
    let ghost cv = columns_view(cols@);
    proof {
        lemma_find_col(cv, name@);
    }
    for k in 0..cols.len()
        invariant
            cv == columns_view(cols@),
            find_col(cv, name@) matches Some(i) ==> i >= k && cv[i].name == name@ && forall|m: int|
                0 <= m < i ==> (#[trigger] cv[m]).name != name@,
            find_col(cv, name@) is None ==> forall|m: int|
                0 <= m < cv.len() ==> (#[trigger] cv[m]).name != name@,
    {
        if str_eq(cols[k].name.as_str(), name) {
            assert(cv[k as int].name == name@);
            return Some(k);
        }
    }
    None
}

/// The result of selecting the columns named `names`, in that order: the
/// first name that no column has is an error, and so is a name given twice.
pub open spec fn select_spec(cols: Seq<ColumnView>, names: Seq<Seq<char>>) -> Result<
    Seq<ColumnView>,
    TableErrorView,
>
    decreases names.len(),
{
    if names.len() == 0 {
        Ok(seq![])
    } else {
        match select_spec(cols, names.drop_last()) {
            Err(e) => Err(e),
            Ok(prev) => {
                let n = names.last();
                match find_col(cols, n) {
                    None => Err(TableErrorView::ColumnNotFound(n)),
                    Some(i) => if names.drop_last().contains(n) {
                        Err(TableErrorView::Duplicate(n))
                    } else {
                        Ok(prev.push(cols[i]))
                    },
                }
            },
        }
    }
}

/// A selection holds the named columns, in the order of the names.
pub proof fn select_names(cols: Seq<ColumnView>, names: Seq<Seq<char>>)
    ensures
        select_spec(cols, names) matches Ok(sel) ==> sel.len() == names.len() && forall|i: int|
            0 <= i < sel.len() ==> (#[trigger] sel[i]).name == names[i],
    decreases names.len(),
{
    if names.len() > 0 {
        select_names(cols, names.drop_last());
        lemma_find_col(cols, names.last());
    }
}

/// `get_data` keeps the table's columns, by name and in order.
pub proof fn get_data_keeps_names(cols: Seq<ColumnView>, f1: Seq<char>, f2: Seq<char>)
    ensures
        get_data_spec(cols, f1, f2) matches Ok(out) ==> out.len() == cols.len() && forall|i: int|
            0 <= i < out.len() ==> (#[trigger] out[i]).name == cols[i].name,
{
}

/// Once a prefix of the names gives an error, so do all the names.
proof fn lemma_select_err_prefix(cols: Seq<ColumnView>, names: Seq<Seq<char>>, j: int)
    requires
        0 <= j <= names.len(),
        select_spec(cols, names.subrange(0, j)) is Err,
    ensures
        select_spec(cols, names) == select_spec(cols, names.subrange(0, j)),
    decreases names.len(),
{
    if names.len() == j {
        assert(names.subrange(0, j) =~= names);
    } else {
        assert(names.drop_last().subrange(0, j) =~= names.subrange(0, j));
        lemma_select_err_prefix(cols, names.drop_last(), j);
    }
}

/// A copy of a column.
fn copy_column(c: &Column) -> (r: Column)
    ensures
        r@ == c@,
{
    let mut cells: Vec<Cell> = Vec::new();
    for i in 0..c.cells.len()
        invariant
            cells@.map_values(|x: Cell| x@) == c@.cells.subrange(0, i as int),
    {
        let ghost prev = cells@;
        cells.push(c.cells[i].copy());
        assert(cells@.map_values(|x: Cell| x@) =~= prev.map_values(|x: Cell| x@).push(
            c.cells@[i as int]@,
        ));
        assert(c@.cells.subrange(0, i + 1) =~= c@.cells.subrange(0, i as int).push(
            c.cells@[i as int]@,
        ));
    }
    assert(c@.cells.subrange(0, c@.cells.len() as int) =~= c@.cells);
    Column { name: c.name.clone(), dtype: c.dtype, cells }
}

/// Selects the columns named `filter`, in that order.
pub fn pl_vstr_to_selects(df: Table, filter: Vec<&str>) -> (r: Result<Table, TableError>)
    ensures
        match (r, select_spec(df@, filter@.map_values(|s: &str| s@))) {
            (Ok(t), Ok(cols)) => t@ == cols,
            (Err(e), Err(ev)) => e@ == ev,
            _ => false,
        },
{
    let ghost names = filter@.map_values(|s: &str| s@);
    let mut out: Vec<Column> = Vec::new();
    proof {
        assert(names.subrange(0, 0) =~= Seq::<Seq<char>>::empty());
        assert(columns_view(out@) =~= Seq::<ColumnView>::empty());
        lemma_find_col(df@, Seq::empty());
    }
    for k in 0..filter.len()
        invariant
            names == filter@.map_values(|s: &str| s@),
            select_spec(df@, names.subrange(0, k as int)) == Ok::<
                Seq<ColumnView>,
                TableErrorView,
            >(columns_view(out@)),
    {
        let name = filter[k];
        proof {
            assert(names.subrange(0, k + 1).drop_last() =~= names.subrange(0, k as int));
            assert(names.subrange(0, k + 1).last() == name@);
        }
        proof {
            lemma_find_col(df@, name@);
        }
        match find_column(&df.columns, name) {
            None => {
                proof {
                    lemma_select_err_prefix(df@, names, k + 1);
                }
                return Err(TableError::ColumnNotFound(name.to_owned()));
            },
            Some(i) => {
                let mut seen = false;
                for m in 0..k
                    invariant
                        names == filter@.map_values(|s: &str| s@),
                        k < filter@.len(),
                        name@ == names[k as int],
                        seen == names.subrange(0, m as int).contains(name@),
                {
                    proof {
                        assert(names.subrange(0, m + 1) =~= names.subrange(0, m as int).push(
                            names[m as int],
                        ));
                    }
                    assert(names[m as int] == filter@[m as int]@);
                    let ghost pre = names.subrange(0, m as int);
                    let ghost post = names.subrange(0, m + 1);
                    if str_eq(filter[m], name) {
                        seen = true;
                        assert(post[m as int] == name@);
                    } else {
                        assert(post.contains(name@) == pre.contains(name@)) by {
                            if post.contains(name@) {
                                let w = choose|w: int| 0 <= w < post.len() && post[w] == name@;
                                assert(w != m);
                                assert(pre[w] == name@);
                            }
                            if pre.contains(name@) {
                                let w = choose|w: int| 0 <= w < pre.len() && pre[w] == name@;
                                assert(post[w] == name@);
                            }
                        }
                    }
                }
                if seen {
                    proof {
                        assert(names.subrange(0, k + 1).drop_last() =~= names.subrange(0, k as int));
                        lemma_select_err_prefix(df@, names, k + 1);
                    }
                    return Err(TableError::Duplicate(name.to_owned()));
                }
                let ghost prev = out@;
                out.push(copy_column(&df.columns[i]));
                assert(columns_view(out@) =~= columns_view(prev).push(df@[i as int]));
            },
        }
    }
    assert(names.subrange(0, filter@.len() as int) =~= names);
    Ok(Table { columns: out })
}

// ---------------------------------------------------------------------------
// Filtering, date parsing and ordering
// ---------------------------------------------------------------------------

/// The column of the creation dates.
pub open spec fn date_col() -> Seq<char> {
    "Process Instance.Task Information.Creation Date"@
}

/// The column of the object names.
pub open spec fn object_col() -> Seq<char> {
    "Objects.Name"@
}

/// The column of the task keys.
pub open spec fn key_col() -> Seq<char> {
    "Process Instance.Task Details.Key"@
}

/// The column of the task names.
pub open spec fn task_col() -> Seq<char> {
    "Process Definition.Tasks.Task Name"@
}

/// The column of the target users.
pub open spec fn user_col() -> Seq<char> {
    "Process Instance.Task Information.Target User"@
}

/// The error for a column that must exist and hold text, if any.
pub open spec fn text_col_error(cols: Seq<ColumnView>, name: Seq<char>) -> Option<TableErrorView> {
    match find_col(cols, name) {
        None => Some(TableErrorView::ColumnNotFound(name)),
        Some(i) => if cols[i].dtype != DType::Text {
            Some(TableErrorView::SchemaMismatch(name))
        } else {
            None
        },
    }
}

/// The error that the filter-and-sort of `get_data` meets on a table, if
/// any: the object-name, task-name and creation-date columns must exist and
/// hold text, and the key column must exist (checked in that order).
pub open spec fn data_error(cols: Seq<ColumnView>) -> Option<TableErrorView> {
    match text_col_error(cols, object_col()) {
        Some(e) => Some(e),
        None => match text_col_error(cols, task_col()) {
            Some(e) => Some(e),
            None => match text_col_error(cols, date_col()) {
                Some(e) => Some(e),
                None => match find_col(cols, key_col()) {
                    None => Some(TableErrorView::ColumnNotFound(key_col())),
                    Some(_) => None,
                },
            },
        },
    }
}

/// A text cell in which the regular expression `pattern` matches; null cells
/// and invalid patterns match nothing.
pub open spec fn text_matches(pattern: Seq<char>, c: CellView) -> bool {
    match c {
        CellView::Text(s) => regex_match(pattern, s) == Some(true),
        _ => false,
    }
}

/// The first position, from `k` on, where the rest of `s` is a date in the
/// creation-date format.
pub open spec fn date_start(s: Seq<char>, k: int) -> Option<int>
    decreases s.len() - k,
{
    if k < 0 || k >= s.len() {
        None
    } else if creation_millis(s.subrange(k, s.len() as int)) is Some {
        Some(k)
    } else {
        date_start(s, k + 1)
    }
}

/// A creation-date cell parsed into a date-time, not exactly: the date may
/// follow other text, and the first position where the rest of the text is a
/// date gives it (null when there is none).
pub open spec fn parse_date_cell(c: CellView) -> CellView {
    match c {
        CellView::Text(s) => match date_start(s, 0) {
            Some(k) => {
                let t = s.subrange(k, s.len() as int);
                CellView::Datetime(creation_millis(t)->0, creation_display(t), creation_csv_text(t))
            },
            None => CellView::Null,
        },
        _ => CellView::Null,
    }
}

/// A key cell cast to a 64-bit integer (null when it does not convert).
pub open spec fn cast_key_cell(c: CellView) -> CellView {
    match c {
        CellView::Text(s) => match parse_i64(s) {
            Some(i) => CellView::Int(i),
            None => CellView::Null,
        },
        CellView::Int(i) => CellView::Int(i),
        CellView::Bool(b) => CellView::Int(if b {
            1
        } else {
            0
        }),
        CellView::Datetime(m, _, _) => CellView::Int(m),
        CellView::Null => CellView::Null,
    }
}

/// A row with its date cell parsed and its key cell cast.
pub open spec fn convert_row(row: Seq<CellView>, di: int, ki: int) -> Seq<CellView> {
    row.update(di, parse_date_cell(row[di])).update(ki, cast_key_cell(row[ki]))
}

/// Whether a row passes both filters.
pub open spec fn keep_row(row: Seq<CellView>, oi: int, ti: int, f1: Seq<char>, f2: Seq<char>) -> bool {
    text_matches(f1, row[oi]) && text_matches(f2, row[ti])
}

/// The rows that pass both filters, converted, in the order they came in.
pub open spec fn kept_rows(
    rows: Seq<Seq<CellView>>,
    oi: int,
    ti: int,
    di: int,
    ki: int,
    f1: Seq<char>,
    f2: Seq<char>,
) -> Seq<Seq<CellView>>
    decreases rows.len(),
{
    if rows.len() == 0 {
        seq![]
    } else {
        let p = kept_rows(rows.drop_last(), oi, ti, di, ki, f1, f2);
        if keep_row(rows.last(), oi, ti, f1, f2) {
            p.push(convert_row(rows.last(), di, ki))
        } else {
            p
        }
    }
}

/// The sort key of a row: its instant, if its date cell holds one.
pub open spec fn date_key(row: Seq<CellView>, di: int) -> Option<i64> {
    match row[di] {
        CellView::Datetime(m, _, _) => Some(m),
        _ => None,
    }
}

/// The order of sort keys: instants ascending, missing instants last.
pub open spec fn key_le(a: Option<i64>, b: Option<i64>) -> bool {
    match (a, b) {
        (Some(x), Some(y)) => x <= y,
        (Some(_), None) => true,
        (None, Some(_)) => false,
        (None, None) => true,
    }
}

/// Inserts `r` into sorted rows after every row whose key does not exceed
/// its own.
pub open spec fn insert_sorted(s: Seq<Seq<CellView>>, r: Seq<CellView>, di: int) -> Seq<
    Seq<CellView>,
>
    decreases s.len(),
{
    if s.len() == 0 {
        seq![r]
    } else if key_le(date_key(s.last(), di), date_key(r, di)) {
        s.push(r)
    } else {
        insert_sorted(s.drop_last(), r, di).push(s.last())
    }
}

/// The rows ordered by creation date, missing dates last; rows with equal
/// keys keep their order.
pub open spec fn sort_rows(s: Seq<Seq<CellView>>, di: int) -> Seq<Seq<CellView>>
    decreases s.len(),
{
    if s.len() == 0 {
        seq![]
    } else {
        insert_sorted(sort_rows(s.drop_last(), di), s.last(), di)
    }
}

/// The columns of a table holding `rows`, with the names of `cols`; the date
/// column becomes a date-time column and the key column an integer column.
pub open spec fn table_of_rows(
    cols: Seq<ColumnView>,
    rows: Seq<Seq<CellView>>,
    di: int,
    ki: int,
) -> Seq<ColumnView> {
    Seq::new(
        cols.len(),
        |c: int|
            ColumnView {
                name: cols[c].name,
                dtype: if c == di {
                    DType::Datetime
                } else if c == ki {
                    DType::Int64
                } else {
                    cols[c].dtype
                },
                cells: Seq::new(rows.len(), |r: int| rows[r][c]),
            },
    )
}

/// What `get_data` gives for a table and two name filters.
pub open spec fn get_data_spec(cols: Seq<ColumnView>, f1: Seq<char>, f2: Seq<char>) -> Result<
    Seq<ColumnView>,
    TableErrorView,
> {
    match data_error(cols) {
        Some(e) => Err(e),
        None => {
            let oi = find_col(cols, object_col())->0;
            let ti = find_col(cols, task_col())->0;
            let di = find_col(cols, date_col())->0;
            let ki = find_col(cols, key_col())->0;
            Ok(
                table_of_rows(
                    cols,
                    sort_rows(kept_rows(rows_of(cols), oi, ti, di, ki, f1, f2), di),
                    di,
                    ki,
                ),
            )
        },
    }
}

/// The rows are in `sort_rows`' order.
pub open spec fn rows_sorted(s: Seq<Seq<CellView>>, di: int) -> bool {
    forall|i: int, j: int|
        0 <= i < j < s.len() ==> key_le(date_key(#[trigger] s[i], di), date_key(#[trigger] s[j], di))
}

proof fn lemma_insert_bound(t: Seq<Seq<CellView>>, r: Seq<CellView>, di: int, bound: Option<i64>)
    requires
        forall|i: int| 0 <= i < t.len() ==> key_le(date_key(#[trigger] t[i], di), bound),
        key_le(date_key(r, di), bound),
    ensures
        forall|i: int|
            0 <= i < insert_sorted(t, r, di).len() ==> key_le(
                date_key(#[trigger] insert_sorted(t, r, di)[i], di),
                bound,
            ),
    decreases t.len(),
{
    if t.len() > 0 && !key_le(date_key(t.last(), di), date_key(r, di)) {
        lemma_insert_bound(t.drop_last(), r, di, bound);
        let u = insert_sorted(t.drop_last(), r, di);
        assert forall|i: int| 0 <= i < u.push(t.last()).len() implies key_le(
            date_key(#[trigger] u.push(t.last())[i], di),
            bound,
        ) by {
            if i < u.len() {
                assert(u.push(t.last())[i] == u[i]);
            } else {
                assert(t.last() == t[t.len() - 1]);
            }
        }
    } else if t.len() > 0 {
        assert forall|i: int| 0 <= i < t.push(r).len() implies key_le(
            date_key(#[trigger] t.push(r)[i], di),
            bound,
        ) by {
            if i < t.len() {
                assert(t.push(r)[i] == t[i]);
            }
        }
    }
}

proof fn lemma_insert_sorted_sorted(t: Seq<Seq<CellView>>, r: Seq<CellView>, di: int)
    requires
        rows_sorted(t, di),
    ensures
        rows_sorted(insert_sorted(t, r, di), di),
    decreases t.len(),
{
    if t.len() == 0 {
    } else if key_le(date_key(t.last(), di), date_key(r, di)) {
        let u = t.push(r);
        assert forall|i: int, j: int| 0 <= i < j < u.len() implies key_le(
            date_key(#[trigger] u[i], di),
            date_key(#[trigger] u[j], di),
        ) by {
            assert(u[i] == t[i]);
            if j < t.len() {
                assert(u[j] == t[j]);
            } else if i < t.len() - 1 {
                assert(key_le(date_key(t[i], di), date_key(t[t.len() - 1], di)));
            }
        }
    } else {
        let d = t.drop_last();
        assert(rows_sorted(d, di)) by {
            assert forall|i: int, j: int| 0 <= i < j < d.len() implies key_le(
                date_key(#[trigger] d[i], di),
                date_key(#[trigger] d[j], di),
            ) by {
                assert(d[i] == t[i] && d[j] == t[j]);
            }
        }
        lemma_insert_sorted_sorted(d, r, di);
        assert forall|i: int| 0 <= i < d.len() implies key_le(
            date_key(#[trigger] d[i], di),
            date_key(t.last(), di),
        ) by {
            assert(d[i] == t[i]);
            assert(t.last() == t[t.len() - 1]);
        }
        lemma_insert_bound(d, r, di, date_key(t.last(), di));
        let u = insert_sorted(d, r, di);
        let v = u.push(t.last());
        assert forall|i: int, j: int| 0 <= i < j < v.len() implies key_le(
            date_key(#[trigger] v[i], di),
            date_key(#[trigger] v[j], di),
        ) by {
            assert(v[i] == u[i]);
            if j < u.len() {
                assert(v[j] == u[j]);
            }
        }
    }
}

proof fn lemma_insert_sorted_mset(t: Seq<Seq<CellView>>, r: Seq<CellView>, di: int)
    ensures
        insert_sorted(t, r, di).to_multiset() == t.to_multiset().insert(r),
    decreases t.len(),
{
    broadcast use vstd::seq_lib::group_to_multiset_ensures;

    if t.len() == 0 {
        assert(seq![r] =~= Seq::<Seq<CellView>>::empty().push(r));
        assert(t =~= Seq::<Seq<CellView>>::empty());
    } else if key_le(date_key(t.last(), di), date_key(r, di)) {
    } else {
        let d = t.drop_last();
        lemma_insert_sorted_mset(d, r, di);
        assert(t =~= d.push(t.last()));
        assert(insert_sorted(d, r, di).push(t.last()).to_multiset() =~= t.to_multiset().insert(r));
    }
}

/// The rows that `get_data` gives are ordered by creation date, ascending,
/// rows without a date last.
pub proof fn sort_rows_ordered(s: Seq<Seq<CellView>>, di: int)
    ensures
        rows_sorted(sort_rows(s, di), di),
    decreases s.len(),
{
    if s.len() > 0 {
        sort_rows_ordered(s.drop_last(), di);
        lemma_insert_sorted_sorted(sort_rows(s.drop_last(), di), s.last(), di);
    }
}

proof fn lemma_find_col_same_names(a: Seq<ColumnView>, b: Seq<ColumnView>, name: Seq<char>)
    requires
        a.len() == b.len(),
        forall|i: int| 0 <= i < a.len() ==> (#[trigger] a[i]).name == b[i].name,
    ensures
        find_col(a, name) == find_col(b, name),
    decreases a.len(),
{
    if a.len() > 0 {
        lemma_find_col_same_names(a.drop_last(), b.drop_last(), name);
        assert(a.last().name == b.last().name);
    }
}

/// In the table that `get_data` gives, the creation-date column runs from
/// the oldest instant to the newest: of any two rows, when both have a date
/// the earlier row's instant (in milliseconds) is at most the later row's,
/// and a row without a date is followed only by rows without a date.
pub proof fn get_data_oldest_first(cols: Seq<ColumnView>, f1: Seq<char>, f2: Seq<char>)
    ensures
        get_data_spec(cols, f1, f2) matches Ok(out) ==> (find_col(out, date_col()) matches Some(
            d,
        ) ==> forall|i: int, j: int|
            0 <= i < j < out[d].cells.len() ==> {
                &&& (#[trigger] out[d].cells[i] matches CellView::Datetime(mi, _, _)
                    ==> (#[trigger] out[d].cells[j] matches CellView::Datetime(mj, _, _)
                    ==> mi <= mj))
                &&& (!(out[d].cells[i] is Datetime) ==> !(out[d].cells[j] is Datetime))
            }),
{
    if data_error(cols) is None {
        let oi = find_col(cols, object_col())->0;
        let ti = find_col(cols, task_col())->0;
        let di = find_col(cols, date_col())->0;
        let ki = find_col(cols, key_col())->0;
        let sorted = sort_rows(kept_rows(rows_of(cols), oi, ti, di, ki, f1, f2), di);
        let out = table_of_rows(cols, sorted, di, ki);
        lemma_find_col(cols, date_col());
        assert forall|i: int| 0 <= i < cols.len() implies (#[trigger] cols[i]).name == out[i].name by {}
        lemma_find_col_same_names(cols, out, date_col());
        assert(find_col(out, date_col()) == Some(di));
        sort_rows_ordered(kept_rows(rows_of(cols), oi, ti, di, ki, f1, f2), di);
        assert forall|i: int, j: int| 0 <= i < j < out[di].cells.len() implies {
            &&& (#[trigger] out[di].cells[i] matches CellView::Datetime(mi, _, _)
                ==> (#[trigger] out[di].cells[j] matches CellView::Datetime(mj, _, _)
                ==> mi <= mj))
            &&& (!(out[di].cells[i] is Datetime) ==> !(out[di].cells[j] is Datetime))
        } by {
            assert(out[di].cells[i] == sorted[i][di]);
            assert(out[di].cells[j] == sorted[j][di]);
            assert(key_le(date_key(sorted[i], di), date_key(sorted[j], di)));
        }
    }
}

/// Cutting a table to `n` rows keeps each column's first cells: every column
/// of the result is the start of the same column of the input, `n` cells long
/// (all of it when it is shorter), and keeps its name and type.
pub proof fn head_keeps_first_rows(cols: Seq<ColumnView>, n: nat)
    ensures
        head_spec(cols, n).len() == cols.len(),
        forall|c: int|
            0 <= c < cols.len() ==> {
                &&& (#[trigger] head_spec(cols, n)[c]).name == cols[c].name
                &&& head_spec(cols, n)[c].dtype == cols[c].dtype
                &&& head_spec(cols, n)[c].cells.len() == if cols[c].cells.len() < n {
                    cols[c].cells.len()
                } else {
                    n
                }
                &&& forall|i: int|
                    0 <= i < head_spec(cols, n)[c].cells.len() ==> head_spec(cols, n)[c].cells[i]
                        == cols[c].cells[i]
            },
{
}

/// Ordering the rows neither adds nor drops a row.
pub proof fn sort_rows_permutes(s: Seq<Seq<CellView>>, di: int)
    ensures
        sort_rows(s, di).to_multiset() == s.to_multiset(),
        sort_rows(s, di).len() == s.len(),
    decreases s.len(),
{
    broadcast use vstd::seq_lib::group_to_multiset_ensures;

    if s.len() > 0 {
        sort_rows_permutes(s.drop_last(), di);
        lemma_insert_sorted_mset(sort_rows(s.drop_last(), di), s.last(), di);
        assert(s =~= s.drop_last().push(s.last()));
    }
    vstd::seq_lib::to_multiset_len(sort_rows(s, di));
    vstd::seq_lib::to_multiset_len(s);
}

/// The view of a list of rows.
pub open spec fn rows_view(rows: Seq<Vec<Cell>>) -> Seq<Seq<CellView>> {
    rows.map_values(|r: Vec<Cell>| r@.map_values(|c: Cell| c@))
}

/// Decides whether a cell is text in which `pattern` matches.
fn cell_matches(pattern: &str, c: &Cell) -> (b: bool)
    ensures
        b == text_matches(pattern@, c@),
{
    match c {
        Cell::Text(s) => match regex_contains(pattern, s.as_str()) {
            Some(m) => m,
            None => false,
        },
        _ => false,
    }
}

/// The characters of `v` from position `k` on, as a string.
fn suffix_string(v: &Vec<char>, k: usize) -> (s: String)
    requires
        k <= v@.len(),
    ensures
        s@ == v@.subrange(k as int, v@.len() as int),
{
    let mut w: Vec<char> = Vec::new();
    let mut j = k;
    while j < v.len()
        invariant
            k <= j <= v@.len(),
            w@ == v@.subrange(k as int, j as int),
        decreases v@.len() - j,
    {
        w.push(v[j]);
        assert(v@.subrange(k as int, j + 1) =~= v@.subrange(k as int, j as int).push(v@[j as int]));
        j = j + 1;
    }
    string_of(w.as_slice())
}

/// Parses a creation-date cell: a text in the format `%Y-%m-%dT%H:%M:%SZ`,
/// possibly after other text, becomes a date-time (see `parse_date_cell`);
/// anything else null.
pub fn parse_date(c: &Cell) -> (r: Cell)
    ensures
        r@ == parse_date_cell(c@),
{
    match c {
        Cell::Text(s) => {
            let cs = chars_of(s.as_str());
            let n = cs.len();
            let mut k: usize = 0;
            while k < n
                invariant
                    c@ == CellView::Text(s@),
                    cs@ == s@,
                    n == cs@.len(),
                    k <= n,
                    date_start(s@, 0) == date_start(s@, k as int),
                decreases n - k,
            {
                let rest = suffix_string(&cs, k);
                match parse_creation_date(rest.as_str()) {
                    Some(st) => {
                        assert(date_start(s@, k as int) == Some(k as int));
                        return Cell::Datetime(st);
                    },
                    None => {},
                }
                k = k + 1;
            }
            assert(date_start(s@, n as int) is None);
            Cell::Null
        },
        _ => Cell::Null,
    }
}

/// Casts a key cell to an integer.
fn cast_key(c: &Cell) -> (r: Cell)
    ensures
        r@ == cast_key_cell(c@),
{
    match c {
        Cell::Text(s) => {
            let cs = chars_of(s.as_str());
            match parse_i64_chars(cs.as_slice()) {
                Some(i) => Cell::Int(i),
                None => Cell::Null,
            }
        },
        Cell::Int(i) => Cell::Int(*i),
        Cell::Bool(b) => Cell::Int(if *b {
            1
        } else {
            0
        }),
        Cell::Datetime(st) => Cell::Int(st.millis),
        Cell::Null => Cell::Null,
    }
}

/// The sort key of a row.
fn row_key(row: &Vec<Cell>, di: usize) -> (k: Option<i64>)
    requires
        di < row@.len(),
    ensures
        k == date_key(row@.map_values(|c: Cell| c@), di as int),
{
    match &row[di] {
        Cell::Datetime(st) => Some(st.millis),
        _ => None,
    }
}

/// Decides the order of two sort keys.
fn key_le_exec(a: Option<i64>, b: Option<i64>) -> (r: bool)
    ensures
        r == key_le(a, b),
{
    match (a, b) {
        (Some(x), Some(y)) => x <= y,
        (Some(_), None) => true,
        (None, Some(_)) => false,
        (None, None) => true,
    }
}

/// Inserting into sorted rows places the row at the first position from the
/// end whose predecessor's key does not exceed the row's key.
proof fn lemma_insert_step(s: Seq<Seq<CellView>>, x: Seq<CellView>, di: int, j: int)
    requires
        0 < j <= s.len(),
        !key_le(date_key(s[j - 1], di), date_key(x, di)),
    ensures
        insert_sorted(s.subrange(0, j), x, di) + s.subrange(j, s.len() as int) == insert_sorted(
            s.subrange(0, j - 1),
            x,
            di,
        ) + s.subrange(j - 1, s.len() as int),
{
    let t = s.subrange(0, j);
    assert(t.drop_last() =~= s.subrange(0, j - 1));
    assert(t.last() == s[j - 1]);
    assert(insert_sorted(t, x, di) == insert_sorted(s.subrange(0, j - 1), x, di).push(s[j - 1]));
    assert(insert_sorted(s.subrange(0, j - 1), x, di).push(s[j - 1]) + s.subrange(j, s.len() as int)
        =~= insert_sorted(s.subrange(0, j - 1), x, di) + s.subrange(j - 1, s.len() as int));
}

/// Inserts a row into rows sorted by `sort_rows`' order.
fn insert_row(sorted: &mut Vec<Vec<Cell>>, row: Vec<Cell>, di: usize, w: usize)
    requires
        forall|i: int| 0 <= i < old(sorted)@.len() ==> (#[trigger] old(sorted)@[i])@.len() == w,
        row@.len() == w,
        di < w,
    ensures
        rows_view(final(sorted)@) == insert_sorted(
            rows_view(old(sorted)@),
            row@.map_values(|c: Cell| c@),
            di as int,
        ),
        forall|i: int| 0 <= i < final(sorted)@.len() ==> (#[trigger] final(sorted)@[i])@.len() == w,
{
    let ghost s = rows_view(sorted@);
    let ghost x = row@.map_values(|c: Cell| c@);
    let kx = row_key(&row, di);
    let mut j = sorted.len();
    assert(s.subrange(0, s.len() as int) =~= s);
    assert(s.subrange(s.len() as int, s.len() as int) =~= Seq::<Seq<CellView>>::empty());
    while j > 0 && !key_le_exec(row_key(&sorted[j - 1], di), kx)
        invariant
            j <= sorted@.len(),
            s == rows_view(sorted@),
            x == row@.map_values(|c: Cell| c@),
            kx == date_key(x, di as int),
            di < w,
            forall|i: int| 0 <= i < sorted@.len() ==> (#[trigger] sorted@[i])@.len() == w,
            insert_sorted(s, x, di as int) == insert_sorted(s.subrange(0, j as int), x, di as int)
                + s.subrange(j as int, s.len() as int),
        decreases j,
    {
        proof {
            assert(s[j - 1] == sorted@[j - 1]@.map_values(|c: Cell| c@));
            lemma_insert_step(s, x, di as int, j as int);
        }
        j = j - 1;
    }
    proof {
        let t = s.subrange(0, j as int);
        if j > 0 {
            assert(s[j - 1] == sorted@[j - 1]@.map_values(|c: Cell| c@));
            assert(t.last() == s[j - 1]);
            assert(insert_sorted(t, x, di as int) == t.push(x));
        } else {
            assert(t =~= Seq::<Seq<CellView>>::empty());
            assert(insert_sorted(t, x, di as int) == seq![x]);
        }
    }
    let ghost before = sorted@;
    sorted.insert(j, row);
    assert forall|i: int| 0 <= i < sorted@.len() implies (#[trigger] sorted@[i])@.len() == w by {
        if i < j {
            assert(sorted@[i] == before[i]);
        } else if i > j {
            assert(sorted@[i] == before[i - 1]);
        }
    }
    assert(rows_view(sorted@) =~= s.subrange(0, j as int).push(x) + s.subrange(
        j as int,
        s.len() as int,
    ));
}

/// The converted copy of row `r` of the table.
fn converted_row(cols: &Vec<Column>, r: usize, di: usize, ki: usize) -> (row: Vec<Cell>)
    requires
        table_wf(columns_view(cols@)),
        r < height(columns_view(cols@)),
        di < cols@.len(),
        ki < cols@.len(),
        di != ki,
    ensures
        row@.map_values(|c: Cell| c@) == convert_row(
            row_at(columns_view(cols@), r as int),
            di as int,
            ki as int,
        ),
        row@.len() == cols@.len(),
{
    let ghost cv = columns_view(cols@);
    let mut row: Vec<Cell> = Vec::new();
    let ghost target = convert_row(row_at(cv, r as int), di as int, ki as int);
    for c in 0..cols.len()
        invariant
            cv == columns_view(cols@),
            table_wf(cv),
            r < height(cv),
            di < cols@.len(),
            ki < cols@.len(),
            di != ki,
            target == convert_row(row_at(cv, r as int), di as int, ki as int),
            row@.map_values(|x: Cell| x@) == target.subrange(0, c as int),
    {
        assert(cv[c as int] == cols@[c as int]@);
        assert(cv[c as int].cells.len() == height(cv));
        let src = &cols[c].cells[r];
        assert(src@ == row_at(cv, r as int)[c as int]);
        let cell = if c == di {
            parse_date(src)
        } else if c == ki {
            cast_key(src)
        } else {
            src.copy()
        };
        let ghost prev = row@;
        row.push(cell);
        assert(row@.map_values(|x: Cell| x@) =~= prev.map_values(|x: Cell| x@).push(
            target[c as int],
        ));
        assert(target.subrange(0, c + 1) =~= target.subrange(0, c as int).push(target[c as int]));
    }
    assert(target.subrange(0, cols@.len() as int) =~= target);
    row
}

/// Filters the task table: keeps the rows whose object name matches the
/// regular expression `filter1` and whose task name matches `filter2`, parses
/// the creation dates (format `%Y-%m-%dT%H:%M:%SZ`, null where a date does
/// not parse), casts the keys to integers (null where a key does not
/// convert), and orders the rows by creation date, missing dates last.
pub fn get_data(df: Table, filter1: &str, filter2: &str) -> (r: Result<Table, TableError>)
    requires
        table_wf(df@),
    ensures
        match (r, get_data_spec(df@, filter1@, filter2@)) {
            (Ok(t), Ok(cols)) => t@ == cols,
            (Err(e), Err(ev)) => e@ == ev,
            _ => false,
        },
{
    let ghost cv = df@;
    proof {
        lemma_find_col(cv, object_col());
        lemma_find_col(cv, task_col());
        lemma_find_col(cv, date_col());
        lemma_find_col(cv, key_col());
    }
    let oi = match find_column(&df.columns, "Objects.Name") {
        None => return Err(TableError::ColumnNotFound(String::from_str("Objects.Name"))),
        Some(i) => i,
    };
    if df.columns[oi].dtype != DType::Text {
        return Err(TableError::SchemaMismatch(String::from_str("Objects.Name")));
    }
    let ti = match find_column(&df.columns, "Process Definition.Tasks.Task Name") {
        None => return Err(
            TableError::ColumnNotFound(String::from_str("Process Definition.Tasks.Task Name")),
        ),
        Some(i) => i,
    };
    if df.columns[ti].dtype != DType::Text {
        return Err(
            TableError::SchemaMismatch(String::from_str("Process Definition.Tasks.Task Name")),
        );
    }
    let di = match find_column(&df.columns, "Process Instance.Task Information.Creation Date") {
        None => return Err(
            TableError::ColumnNotFound(
                String::from_str("Process Instance.Task Information.Creation Date"),
            ),
        ),
        Some(i) => i,
    };
    if df.columns[di].dtype != DType::Text {
        return Err(
            TableError::SchemaMismatch(
                String::from_str("Process Instance.Task Information.Creation Date"),
            ),
        );
    }
    let ki = match find_column(&df.columns, "Process Instance.Task Details.Key") {
        None => return Err(
            TableError::ColumnNotFound(String::from_str("Process Instance.Task Details.Key")),
        ),
        Some(i) => i,
    };
    assert(data_error(cv) is None);
    proof {
        reveal_strlit("Process Instance.Task Information.Creation Date");
        reveal_strlit("Process Instance.Task Details.Key");
    }
    assert(di != ki) by {
        assert(cv[di as int].name == date_col());
        assert(cv[ki as int].name == key_col());
        assert(date_col().len() != key_col().len());
    }
    // Rows that pass the filters, converted.
    let h: usize = if df.columns.len() == 0 {
        0
    } else {
        df.columns[0].cells.len()
    };
    assert(h == height(cv)) by {
        if df.columns@.len() > 0 {
            assert(cv[0] == df.columns@[0]@);
        }
    }
    let ghost all_rows = rows_of(cv);
    let mut kept: Vec<Vec<Cell>> = Vec::new();
    for r in 0..h
        invariant
            cv == df@,
            table_wf(cv),
            h == height(cv),
            all_rows == rows_of(cv),
            oi < cv.len(),
            ti < cv.len(),
            di < cv.len(),
            ki < cv.len(),
            di != ki,
            rows_view(kept@) == kept_rows(
                all_rows.subrange(0, r as int),
                oi as int,
                ti as int,
                di as int,
                ki as int,
                filter1@,
                filter2@,
            ),
            forall|i: int| 0 <= i < kept@.len() ==> (#[trigger] kept@[i])@.len() == cv.len(),
    {
        proof {
            assert(all_rows.subrange(0, r + 1).drop_last() =~= all_rows.subrange(0, r as int));
            assert(all_rows.subrange(0, r + 1).last() == row_at(cv, r as int));
            assert(cv[oi as int] == df.columns@[oi as int]@);
            assert(cv[ti as int] == df.columns@[ti as int]@);
            assert(cv[oi as int].cells.len() == h);
            assert(cv[ti as int].cells.len() == h);
        }
        let keep = cell_matches(filter1, &df.columns[oi].cells[r]) && cell_matches(
            filter2,
            &df.columns[ti].cells[r],
        );
        assert(keep == keep_row(row_at(cv, r as int), oi as int, ti as int, filter1@, filter2@));
        if keep {
            let row = converted_row(&df.columns, r, di, ki);
            let ghost prev = kept@;
            kept.push(row);
            assert(kept@[kept@.len() - 1]@.len() == cv.len());
            assert(rows_view(kept@) =~= rows_view(prev).push(
                convert_row(row_at(cv, r as int), di as int, ki as int),
            ));
        }
    }
    assert(all_rows.subrange(0, h as int) =~= all_rows);
    // Order by creation date.
    let ghost kv = rows_view(kept@);
    let mut sorted: Vec<Vec<Cell>> = Vec::new();
    let n = kept.len();
    let mut src = kept;
    let ghost orig = src@;
    let mut i: usize = 0;
    assert(kv.subrange(0, 0) =~= Seq::<Seq<CellView>>::empty());
    assert(rows_view(sorted@) =~= Seq::<Seq<CellView>>::empty());
    while i < n
        invariant
            n == orig.len(),
            i <= n,
            kv == rows_view(orig),
            di < cv.len(),
            df.columns@.len() == cv.len(),
            src@ == orig.subrange(i as int, n as int),
            forall|m: int| 0 <= m < orig.len() ==> (#[trigger] orig[m])@.len() == cv.len(),
            forall|m: int| 0 <= m < sorted@.len() ==> (#[trigger] sorted@[m])@.len() == cv.len(),
            rows_view(sorted@) == sort_rows(kv.subrange(0, i as int), di as int),
        decreases n - i,
    {
        let row = src.remove(0);
        assert(row == orig[i as int]);
        proof {
            assert(kv.subrange(0, i + 1).drop_last() =~= kv.subrange(0, i as int));
            assert(kv.subrange(0, i + 1).last() == row@.map_values(|c: Cell| c@));
        }
        insert_row(&mut sorted, row, di, df.columns.len());
        assert(src@ =~= orig.subrange(i + 1, n as int));
        i = i + 1;
    }
    assert(kv.subrange(0, n as int) =~= kv);
    // Back to columns.
    let ghost sv = rows_view(sorted@);
    let mut out: Vec<Column> = Vec::new();
    for c in 0..df.columns.len()
        invariant
            cv == df@,
            sv == rows_view(sorted@),
            di < cv.len(),
            ki < cv.len(),
            forall|m: int| 0 <= m < sorted@.len() ==> (#[trigger] sorted@[m])@.len() == cv.len(),
            columns_view(out@) == table_of_rows(cv, sv, di as int, ki as int).subrange(0, c as int),
    {
        let mut cells: Vec<Cell> = Vec::new();
        for r in 0..sorted.len()
            invariant
                sv == rows_view(sorted@),
                c < cv.len(),
                forall|m: int| 0 <= m < sorted@.len() ==> (#[trigger] sorted@[m])@.len() == cv.len(),
                cells@.map_values(|x: Cell| x@) == Seq::new(sv.len(), |q: int| sv[q][c as int]).subrange(
                    0,
                    r as int,
                ),
        {
            assert(sorted@[r as int]@.len() == cv.len());
            assert(sv[r as int] == sorted@[r as int]@.map_values(|x: Cell| x@));
            let ghost prev = cells@;
            let cell = sorted[r][c].copy();
            assert(cell@ == sv[r as int][c as int]);
            cells.push(cell);
            assert(cells@.map_values(|x: Cell| x@) =~= prev.map_values(|x: Cell| x@).push(
                sv[r as int][c as int],
            ));
            assert(cells@.map_values(|x: Cell| x@) =~= Seq::new(sv.len(), |q: int| sv[q][c as int]).subrange(
                0,
                r + 1,
            ));
        }
        assert(Seq::new(sv.len(), |q: int| sv[q][c as int]).subrange(0, sv.len() as int) =~= Seq::new(
            sv.len(),
            |q: int| sv[q][c as int],
        ));
        let dtype = if c == di {
            DType::Datetime
        } else if c == ki {
            DType::Int64
        } else {
            df.columns[c].dtype
        };
        let ghost prev = out@;
        let col = Column { name: df.columns[c].name.clone(), dtype, cells };
        assert(cv[c as int] == df.columns@[c as int]@);
        assert(col@.cells =~= table_of_rows(cv, sv, di as int, ki as int)[c as int].cells);
        assert(col@ == table_of_rows(cv, sv, di as int, ki as int)[c as int]);
        let ghost colv = col@;
        out.push(col);
        assert(columns_view(out@) =~= columns_view(prev).push(colv));
        assert(columns_view(out@) =~= table_of_rows(cv, sv, di as int, ki as int).subrange(
            0,
            c + 1,
        ));
    }
    assert(table_of_rows(cv, sv, di as int, ki as int).subrange(0, cv.len() as int) =~= table_of_rows(
        cv,
        sv,
        di as int,
        ki as int,
    ));
    Ok(Table { columns: out })
}

// ---------------------------------------------------------------------------
// Cutting, rendering and exporting
// ---------------------------------------------------------------------------

/// The first `n` rows of a table (all rows when it has fewer).
pub open spec fn head_spec(cols: Seq<ColumnView>, n: nat) -> Seq<ColumnView> {
    cols.map_values(
        |c: ColumnView|
            ColumnView {
                name: c.name,
                dtype: c.dtype,
                cells: if c.cells.len() > n {
                    c.cells.subrange(0, n as int)
                } else {
                    c.cells
                },
            },
    )
}

/// Keeps the first `n` rows of a table.
pub fn head(t: Table, n: usize) -> (r: Table)
    ensures
        r@ == head_spec(t@, n as nat),
{
    let ghost tv = t@;
    let mut src = t.columns;
    let ghost orig = src@;
    let k = src.len();
    let mut out: Vec<Column> = Vec::new();
    let mut i: usize = 0;
    while i < k
        invariant
            k == orig.len(),
            tv == columns_view(orig),
            i <= k,
            src@ == orig.subrange(i as int, k as int),
            columns_view(out@) == head_spec(tv, n as nat).subrange(0, i as int),
        decreases k - i,
    {
        let mut col = src.remove(0);
        assert(col == orig[i as int]);
        let ghost before = col@;
        if col.cells.len() > n {
            col.cells.truncate(n);
        }
        assert(col@.cells =~= head_spec(tv, n as nat)[i as int].cells);
        let ghost prev = out@;
        let ghost cv = col@;
        out.push(col);
        assert(columns_view(out@) =~= columns_view(prev).push(cv));
        assert(columns_view(out@) =~= head_spec(tv, n as nat).subrange(0, i + 1));
        assert(src@ =~= orig.subrange(i + 1, k as int));
        i = i + 1;
    }
    assert(head_spec(tv, n as nat).subrange(0, k as int) =~= head_spec(tv, n as nat));
    Table { columns: out }
}

/// The text of a cell as the table's value display writes it: `null`, a
/// text in double quotes, an integer in decimal, a boolean as `true` or
/// `false`, a date-time in its default text.
pub open spec fn cell_text(c: CellView) -> Seq<char> {
    match c {
        CellView::Null => "null"@,
        CellView::Text(s) => seq!['"'] + s + seq!['"'],
        CellView::Int(i) => int_text(i as int),
        CellView::Bool(b) => if b {
            "true"@
        } else {
            "false"@
        },
        CellView::Datetime(_, d, _) => d,
    }
}

/// The text of a cell (see `cell_text`).
pub fn cell_to_string(c: &Cell) -> (s: String)
    ensures
        s@ == cell_text(c@),
{
    match c {
        Cell::Null => String::from_str("null"),
        Cell::Text(t) => {
            let mut v: Vec<char> = Vec::new();
            v.push('"');
            extend_str(&mut v, t.as_str());
            v.push('"');
            assert(v@ =~= seq!['"'] + t@ + seq!['"']);
            string_of(v.as_slice())
        },
        Cell::Int(i) => {
            let v = i64_chars(*i);
            string_of(v.as_slice())
        },
        Cell::Bool(b) => if *b {
            String::from_str("true")
        } else {
            String::from_str("false")
        },
        Cell::Datetime(st) => st.display.clone(),
    }
}

/// `s` without the character `ch` at its start.
pub open spec fn strip_start(s: Seq<char>, ch: char) -> Seq<char>
    decreases s.len(),
{
    if s.len() > 0 && s[0] == ch {
        strip_start(s.drop_first(), ch)
    } else {
        s
    }
}

/// `s` without the character `ch` at its end.
pub open spec fn strip_end(s: Seq<char>, ch: char) -> Seq<char>
    decreases s.len(),
{
    if s.len() > 0 && s.last() == ch {
        strip_end(s.drop_last(), ch)
    } else {
        s
    }
}

/// `s` without `ch` at either end (`str::trim_matches` with one character).
pub open spec fn strip_both(s: Seq<char>, ch: char) -> Seq<char> {
    strip_end(strip_start(s, ch), ch)
}

/// `s` without `ch` at either end.
pub fn strip_char(s: &[char], ch: char) -> (r: Vec<char>)
    ensures
        r@ == strip_both(s@, ch),
{
    let n = s.len();
    let mut i: usize = 0;
    assert(s@.subrange(0, n as int) =~= s@);
    while i < n && s[i] == ch
        invariant
            i <= n,
            n == s@.len(),
            strip_start(s@, ch) == strip_start(s@.subrange(i as int, n as int), ch),
        decreases n - i,
    {
        assert(s@.subrange(i as int, n as int).drop_first() =~= s@.subrange(i + 1, n as int));
        i = i + 1;
    }
    let ghost front = s@.subrange(i as int, n as int);
    let mut j: usize = n;
    while j > i && s[j - 1] == ch
        invariant
            i <= j <= n,
            n == s@.len(),
            front == s@.subrange(i as int, n as int),
            strip_end(front, ch) == strip_end(s@.subrange(i as int, j as int), ch),
        decreases j,
    {
        assert(s@.subrange(i as int, j as int).drop_last() =~= s@.subrange(i as int, j - 1));
        j = j - 1;
    }
    let mut r: Vec<char> = Vec::new();
    for k in i..j
        invariant
            i <= j <= n,
            n == s@.len(),
            r@ == s@.subrange(i as int, k as int),
    {
        r.push(s[k]);
        assert(r@ =~= s@.subrange(i as int, k + 1));
    }
    r
}

/// The instants of a date-time column that make valid timestamps when split
/// into whole seconds (truncated) and nanoseconds.
pub open spec fn column_instants(cells: Seq<CellView>) -> Seq<i64>
    decreases cells.len(),
{
    if cells.len() == 0 {
        seq![]
    } else {
        let p = column_instants(cells.drop_last());
        match cells.last() {
            CellView::Datetime(m, _, _) => if timestamp_in_range(
                trunc_secs(m),
                sub_second_nanos(m),
            ) {
                p.push(m)
            } else {
                p
            },
            _ => p,
        }
    }
}

/// Whole seconds of a millisecond count, rounded toward zero.
pub open spec fn trunc_secs(m: i64) -> i64 {
    if m >= 0 {
        (m / 1000) as i64
    } else {
        (-((-m) / 1000)) as i64
    }
}

/// The nanoseconds that remain of a millisecond count after its whole
/// seconds, as an unsigned 32-bit number (wrapping when negative).
pub open spec fn sub_second_nanos(m: i64) -> u32 {
    ((m - trunc_secs(m) * 1000) * 1_000_000) as u32
}

/// The texts of a text column: each cell's text with its double quotes
/// stripped at both ends.
pub open spec fn column_texts(cells: Seq<CellView>) -> Seq<Seq<char>> {
    cells.map_values(|c: CellView| strip_both(cell_text(c), '"'))
}

/// The date-time columns' instants, then the text columns' texts, in column
/// order; integer and boolean columns give nothing.
pub open spec fn df_to_vec_spec(cols: Seq<ColumnView>) -> (Seq<Seq<i64>>, Seq<Seq<Seq<char>>>)
    decreases cols.len(),
{
    if cols.len() == 0 {
        (seq![], seq![])
    } else {
        let (d, t) = df_to_vec_spec(cols.drop_last());
        match cols.last().dtype {
            DType::Datetime => (d.push(column_instants(cols.last().cells)), t),
            DType::Text => (d, t.push(column_texts(cols.last().cells))),
            DType::Int64 => (d, t),
            DType::Bool => (d, t),
        }
    }
}

/// The instants of a date-time column (see `column_instants`).
fn instants_of(c: &Column) -> (r: Vec<i64>)
    ensures
        r@ == column_instants(c@.cells),
{
    let ghost cells = c@.cells;
    let mut r: Vec<i64> = Vec::new();
    for i in 0..c.cells.len()
        invariant
            cells == c@.cells,
            r@ == column_instants(cells.subrange(0, i as int)),
    {
        assert(cells.subrange(0, i + 1).drop_last() =~= cells.subrange(0, i as int));
        assert(cells.subrange(0, i + 1).last() == c.cells@[i as int]@);
        if let Cell::Datetime(st) = &c.cells[i] {
            let ts = st.millis;
            let t: i128 = ts as i128;
            let q: i128 = if t >= 0 {
                t / 1000
            } else {
                -((-t) / 1000)
            };
            let secs: i64 = q as i64;
            assert(secs == trunc_secs(ts));
            let rem: i128 = t - q * 1000;
            assert(-1000 < rem < 1000);
            let nsecs: u32 = (rem * 1_000_000) as u32;
            if timestamp_valid(secs, nsecs) {
                r.push(ts);
            }
        }
    }
    assert(cells.subrange(0, c.cells@.len() as int) =~= cells);
    r
}

/// Splits a table into its date-time columns' instants (those that make
/// valid timestamps) and its text columns' texts, with the quotes of the
/// value display stripped; the third list, of numeric columns, stays empty.
pub fn df_to_vec<T>(df: Table) -> (r: (Vec<Vec<i64>>, Vec<Vec<String>>, Vec<Vec<T>>))
    ensures
        r.0@.map_values(|v: Vec<i64>| v@) == df_to_vec_spec(df@).0,
        r.1@.map_values(|v: Vec<String>| v.deep_view()) == df_to_vec_spec(df@).1,
        r.2@.len() == 0,
{
    let ghost cv = df@;
    let mut list_dt: Vec<Vec<i64>> = Vec::new();
    let mut list_str: Vec<Vec<String>> = Vec::new();
    let list_t: Vec<Vec<T>> = Vec::new();
    for k in 0..df.columns.len()
        invariant
            cv == df@,
            list_dt@.map_values(|v: Vec<i64>| v@) == df_to_vec_spec(cv.subrange(0, k as int)).0,
            list_str@.map_values(|v: Vec<String>| v.deep_view()) == df_to_vec_spec(
                cv.subrange(0, k as int),
            ).1,
    {
        let col = &df.columns[k];
        assert(cv.subrange(0, k + 1).drop_last() =~= cv.subrange(0, k as int));
        assert(cv.subrange(0, k + 1).last() == col@);
        match col.dtype {
            DType::Datetime => {
                let v = instants_of(col);
                let ghost prev = list_dt@;
                list_dt.push(v);
                assert(list_dt@.map_values(|v: Vec<i64>| v@) =~= prev.map_values(|v: Vec<i64>| v@).push(
                    column_instants(col@.cells),
                ));
            },
            DType::Text => {
                let mut texts: Vec<String> = Vec::new();
                let ghost target = column_texts(col@.cells);
                for i in 0..col.cells.len()
                    invariant
                        target == column_texts(col@.cells),
                        texts.deep_view() == target.subrange(0, i as int),
                {
                    let full = cell_to_string(&col.cells[i]);
                    let fc = chars_of(full.as_str());
                    let stripped = strip_char(fc.as_slice(), '"');
                    let st = string_of(stripped.as_slice());
                    let ghost prev = texts.deep_view();
                    texts.push(st);
                    assert(texts.deep_view() =~= prev.push(target[i as int]));
                    assert(target.subrange(0, i + 1) =~= target.subrange(0, i as int).push(
                        target[i as int],
                    ));
                }
                assert(target.subrange(0, col.cells@.len() as int) =~= target);
                let ghost prev = list_str@;
                list_str.push(texts);
                assert(list_str@.map_values(|v: Vec<String>| v.deep_view()) =~= prev.map_values(
                    |v: Vec<String>| v.deep_view(),
                ).push(target));
            },
            DType::Int64 => {},
            DType::Bool => {},
        }
    }
    assert(cv.subrange(0, cv.len() as int) =~= cv);
    (list_dt, list_str, list_t)
}

} // verus!
