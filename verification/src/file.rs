//! The task file: the task table written as CSV text, read back into a table,
//! and the queue of task ids it holds. The CSV writer and reader are this
//! crate's own, proved to read back what they write; no dataframe library is
//! linked.
use vstd::prelude::*;
use vstd::string::*;
use crate::datapolars::{
    Cell, CellView, Column, ColumnView, DType, Table, cell_text, cell_to_string, columns_view,
    find_col, find_column, height, key_col, lemma_find_col, names_of, rows_of, table_wf,
};
use crate::text::{
    chars_of, extend_chars, extend_str, i64_chars, int_text, lemma_int_text_chars, parse_bool,
    parse_bool_chars, parse_i64, parse_i64_chars, string_of,
};

verus! {

// ---------------------------------------------------------------------------
// Decisions on the file
// ---------------------------------------------------------------------------

/// Whether a write to the task file starts with the header line: when the
/// file is empty, or its size cannot be read.
pub open spec fn include_header_spec(file_len: Option<u64>) -> bool {
    match file_len {
        Some(n) => n == 0,
        None => true,
    }
}

/// Whether a write to the task file starts with the header line.
pub fn include_header(file_len: Option<u64>) -> (b: bool)
    ensures
        b == include_header_spec(file_len),
{
    match file_len {
        Some(n) => n == 0,
        None => true,
    }
}

/// Whether the task file has tasks to read: it exists and its size (0 when
/// it cannot be read) is not 0.
pub fn should_load_queue(exists: bool, file_len: Option<u64>) -> (b: bool)
    ensures
        b == (exists && match file_len {
            Some(n) => n != 0,
            None => false,
        }),
{
    if !exists {
        return false;
    }
    match file_len {
        Some(n) => n != 0,
        None => false,
    }
}

// ---------------------------------------------------------------------------
// Writing
// ---------------------------------------------------------------------------

/// A boolean as text.
pub open spec fn bool_text(b: bool) -> Seq<char> {
    if b {
        "true"@
    } else {
        "false"@
    }
}

/// A field needs quotes when it holds a comma, a double quote or a line
/// break.
pub open spec fn needs_quotes(s: Seq<char>) -> bool {
    exists|i: int| 0 <= i < s.len() && (s[i] == ',' || s[i] == '"' || s[i] == '\n' || s[i] == '\r')
}

/// `s` with each double quote doubled.
pub open spec fn escape_quotes(s: Seq<char>) -> Seq<char>
    decreases s.len(),
{
    if s.len() == 0 {
        seq![]
    } else if s.last() == '"' {
        escape_quotes(s.drop_last()) + seq!['"', '"']
    } else {
        escape_quotes(s.drop_last()).push(s.last())
    }
}

/// A field as CSV writes it: in double quotes (inner quotes doubled) when it
/// needs them, else as it is.
pub open spec fn quote_field(s: Seq<char>) -> Seq<char> {
    if needs_quotes(s) {
        seq!['"'] + escape_quotes(s) + seq!['"']
    } else {
        s
    }
}

/// A cell as CSV writes it: nothing for null, the text (quoted when needed),
/// the integer in decimal, the boolean as `true` or `false`, the date-time as
/// `%Y-%m-%dT%H:%M:%S%.3f`.
pub open spec fn csv_cell(c: CellView) -> Seq<char> {
    match c {
        CellView::Null => seq![],
        CellView::Text(s) => quote_field(s),
        CellView::Int(i) => int_text(i as int),
        CellView::Bool(b) => bool_text(b),
        CellView::Datetime(_, _, csv) => csv,
    }
}

/// Fields joined by commas.
pub open spec fn join_fields(fs: Seq<Seq<char>>) -> Seq<char>
    decreases fs.len(),
{
    if fs.len() == 0 {
        seq![]
    } else if fs.len() == 1 {
        fs[0]
    } else {
        join_fields(fs.drop_last()) + seq![','] + fs.last()
    }
}

/// A CSV line: the fields joined by commas, then a line feed.
pub open spec fn csv_line(fs: Seq<Seq<char>>) -> Seq<char> {
    join_fields(fs).push('\n')
}

/// The lines of the rows, one after another.
pub open spec fn rows_lines(rows: Seq<Seq<CellView>>) -> Seq<char>
    decreases rows.len(),
{
    if rows.len() == 0 {
        seq![]
    } else {
        rows_lines(rows.drop_last()) + csv_line(rows.last().map_values(|c: CellView| csv_cell(c)))
    }
}

/// A table as CSV text: the header line of the column names when asked for,
/// then one line per row.
pub open spec fn csv_text_spec(cols: Seq<ColumnView>, header: bool) -> Seq<char> {
    (if header {
        csv_line(names_of(cols).map_values(|n: Seq<char>| quote_field(n)))
    } else {
        seq![]
    }) + rows_lines(rows_of(cols))
}

/// A field, quoted when needed (see `quote_field`).
fn quote_field_exec(s: &[char]) -> (r: Vec<char>)
    ensures
        r@ == quote_field(s@),
{
    let mut needs = false;
    let mut esc: Vec<char> = Vec::new();
    for i in 0..s.len()
        invariant
            needs == exists|m: int|
                0 <= m < i && (s@[m] == ',' || s@[m] == '"' || s@[m] == '\n' || s@[m] == '\r'),
            esc@ == escape_quotes(s@.subrange(0, i as int)),
    {
        let c = s[i];
        assert(s@.subrange(0, i + 1).drop_last() =~= s@.subrange(0, i as int));
        assert(s@.subrange(0, i + 1).last() == c);
        if c == ',' || c == '"' || c == '\n' || c == '\r' {
            needs = true;
        }
        if c == '"' {
            esc.push('"');
            esc.push('"');
            assert(esc@ =~= escape_quotes(s@.subrange(0, i as int)) + seq!['"', '"']);
        } else {
            esc.push(c);
        }
    }
    assert(s@.subrange(0, s@.len() as int) =~= s@);
    if needs {
        let mut r: Vec<char> = Vec::new();
        r.push('"');
        extend_chars(&mut r, esc.as_slice());
        r.push('"');
        assert(r@ =~= seq!['"'] + escape_quotes(s@) + seq!['"']);
        r
    } else {
        let mut r: Vec<char> = Vec::new();
        extend_chars(&mut r, s);
        assert(r@ =~= s@);
        r
    }
}

/// A cell as CSV writes it (see `csv_cell`).
fn csv_cell_exec(c: &Cell) -> (r: Vec<char>)
    ensures
        r@ == csv_cell(c@),
{
    match c {
        Cell::Null => Vec::new(),
        Cell::Text(s) => {
            let v = chars_of(s.as_str());
            quote_field_exec(v.as_slice())
        },
        Cell::Int(i) => i64_chars(*i),
        Cell::Bool(b) => if *b {
            chars_of("true")
        } else {
            chars_of("false")
        },
        Cell::Datetime(st) => chars_of(st.csv.as_str()),
    }
}

/// Appends a CSV line of the given fields.
fn push_line(out: &mut Vec<char>, fields: &Vec<Vec<char>>)
    ensures
        final(out)@ == old(out)@ + csv_line(fields@.map_values(|f: Vec<char>| f@)),
{
    let ghost fs = fields@.map_values(|f: Vec<char>| f@);
    let ghost start = out@;
    for k in 0..fields.len()
        invariant
            fs == fields@.map_values(|f: Vec<char>| f@),
            out@ == start + join_fields(fs.subrange(0, k as int)),
    {
        let ghost before = out@;
        if k > 0 {
            out.push(',');
        }
        extend_chars(out, fields[k].as_slice());
        proof {
            let p = fs.subrange(0, k + 1);
            assert(p.drop_last() =~= fs.subrange(0, k as int));
            if k == 0 {
                assert(join_fields(fs.subrange(0, 0)) =~= Seq::<char>::empty());
                assert(join_fields(p) == p[0]);
            }
            assert(out@ =~= start + join_fields(p));
        }
    }
    assert(fs.subrange(0, fields@.len() as int) =~= fs);
    out.push('\n');
}

/// Writes a table as CSV text (see `csv_text_spec`). The table's columns
/// must have equal heights.
pub fn csv_text(t: &Table, header: bool) -> (r: String)
    requires
        table_wf(t@),
    ensures
        r@ == csv_text_spec(t@, header),
{
    let ghost tv = t@;
    let mut out: Vec<char> = Vec::new();
    if header {
        let mut fields: Vec<Vec<char>> = Vec::new();
        let ghost target = names_of(tv).map_values(|n: Seq<char>| quote_field(n));
        for c in 0..t.columns.len()
            invariant
                tv == t@,
                target == names_of(tv).map_values(|n: Seq<char>| quote_field(n)),
                fields@.map_values(|f: Vec<char>| f@) == target.subrange(0, c as int),
        {
            let nm = chars_of(t.columns[c].name.as_str());
            let q = quote_field_exec(nm.as_slice());
            let ghost prev = fields@;
            fields.push(q);
            assert(fields@.map_values(|f: Vec<char>| f@) =~= prev.map_values(|f: Vec<char>| f@).push(
                target[c as int],
            ));
            assert(target.subrange(0, c + 1) =~= target.subrange(0, c as int).push(target[c as int]));
        }
        assert(target.subrange(0, tv.len() as int) =~= target);
        push_line(&mut out, &fields);
    }
    let ghost head_part = out@;
    assert(head_part == if header {
        csv_line(names_of(tv).map_values(|n: Seq<char>| quote_field(n)))
    } else {
        Seq::<char>::empty()
    });
    let h: usize = if t.columns.len() == 0 {
        0
    } else {
        t.columns[0].cells.len()
    };
    assert(h == height(tv)) by {
        if tv.len() > 0 {
            assert(tv[0] == t.columns@[0]@);
        }
    }
    let ghost rows = rows_of(tv);
    for r in 0..h
        invariant
            tv == t@,
            table_wf(tv),
            h == height(tv),
            rows == rows_of(tv),
            out@ == head_part + rows_lines(rows.subrange(0, r as int)),
    {
        let mut fields: Vec<Vec<char>> = Vec::new();
        let ghost target = rows[r as int].map_values(|c: CellView| csv_cell(c));
        for c in 0..t.columns.len()
            invariant
                tv == t@,
                table_wf(tv),
                h == height(tv),
                r < h,
                rows == rows_of(tv),
                target == rows[r as int].map_values(|c: CellView| csv_cell(c)),
                fields@.map_values(|f: Vec<char>| f@) == target.subrange(0, c as int),
        {
            assert(tv[c as int] == t.columns@[c as int]@);
            assert(tv[c as int].cells.len() == h);
            let v = csv_cell_exec(&t.columns[c].cells[r]);
            let ghost prev = fields@;
            fields.push(v);
            assert(fields@.map_values(|f: Vec<char>| f@) =~= prev.map_values(|f: Vec<char>| f@).push(
                target[c as int],
            ));
            assert(target.subrange(0, c + 1) =~= target.subrange(0, c as int).push(target[c as int]));
        }
        assert(target.subrange(0, tv.len() as int) =~= target);
        push_line(&mut out, &fields);
        assert(rows.subrange(0, r + 1).drop_last() =~= rows.subrange(0, r as int));
        assert(out@ =~= head_part + rows_lines(rows.subrange(0, r + 1)));
    }
    assert(rows.subrange(0, h as int) =~= rows);
    string_of(out.as_slice())
}

// ---------------------------------------------------------------------------
// Reading
// ---------------------------------------------------------------------------

/// The state of reading CSV text: the finished records, the fields of the
/// record being read, the field being read, whether it is inside quotes,
/// and whether a quote inside quotes was just read.
#[verifier::ext_equal]
pub struct CsvState {
    pub records: Seq<Seq<Seq<char>>>,
    pub record: Seq<Seq<char>>,
    pub field: Seq<char>,
    pub quoted: bool,
    pub pending: bool,
}

/// The state before any character.
pub open spec fn csv_init() -> CsvState {
    CsvState { records: seq![], record: seq![], field: seq![], quoted: false, pending: false }
}

/// Reads one character outside quotes: a comma ends the field, a line feed
/// ends the record, a carriage return is skipped, a double quote at the start
/// of a field opens quotes, anything else belongs to the field.
pub open spec fn plain_step(st: CsvState, c: char) -> CsvState {
    if c == ',' {
        CsvState { record: st.record.push(st.field), field: seq![], ..st }
    } else if c == '\n' {
        CsvState { records: st.records.push(st.record.push(st.field)), record: seq![], field: seq![], ..st }
    } else if c == '\r' {
        st
    } else if c == '"' && st.field.len() == 0 {
        CsvState { quoted: true, ..st }
    } else {
        CsvState { field: st.field.push(c), ..st }
    }
}

/// Reads one character: inside quotes, a doubled quote is a quote and a
/// single quote closes the quotes.
pub open spec fn csv_step(st: CsvState, c: char) -> CsvState {
    if st.quoted {
        if st.pending {
            if c == '"' {
                CsvState { field: st.field.push('"'), pending: false, ..st }
            } else {
                plain_step(CsvState { quoted: false, pending: false, ..st }, c)
            }
        } else if c == '"' {
            CsvState { pending: true, ..st }
        } else {
            CsvState { field: st.field.push(c), ..st }
        }
    } else {
        plain_step(st, c)
    }
}

/// The state after reading `s`.
pub open spec fn csv_scan(s: Seq<char>) -> CsvState
    decreases s.len(),
{
    if s.len() == 0 {
        csv_init()
    } else {
        csv_step(csv_scan(s.drop_last()), s.last())
    }
}

/// The records of a state at the end of the text: an unfinished last record
/// counts.
pub open spec fn csv_finish(st: CsvState) -> Seq<Seq<Seq<char>>> {
    if st.record.len() > 0 || st.field.len() > 0 || st.quoted {
        st.records.push(st.record.push(st.field))
    } else {
        st.records
    }
}

/// The records of CSV text, each a sequence of fields.
pub open spec fn csv_records(s: Seq<char>) -> Seq<Seq<Seq<char>>> {
    csv_finish(csv_scan(s))
}

/// The reader of CSV text.
struct CsvScanner {
    records: Vec<Vec<Vec<char>>>,
    record: Vec<Vec<char>>,
    field: Vec<char>,
    quoted: bool,
    pending: bool,
}

/// The view of records.
pub open spec fn records_view(r: Seq<Vec<Vec<char>>>) -> Seq<Seq<Seq<char>>> {
    r.map_values(|rec: Vec<Vec<char>>| rec@.map_values(|f: Vec<char>| f@))
}

impl CsvScanner {
    spec fn state(&self) -> CsvState {
        CsvState {
            records: records_view(self.records@),
            record: self.record@.map_values(|f: Vec<char>| f@),
            field: self.field@,
            quoted: self.quoted,
            pending: self.pending,
        }
    }

    fn end_field(&mut self)
        ensures
            final(self).state() == (CsvState {
                record: old(self).state().record.push(old(self).state().field),
                field: seq![],
                ..old(self).state()
            }),
    {
        let mut f: Vec<char> = Vec::new();
        std::mem::swap(&mut f, &mut self.field);
        let ghost prev = self.record@;
        let ghost fv = f@;
        self.record.push(f);
        assert(self.record@.map_values(|x: Vec<char>| x@) =~= prev.map_values(|x: Vec<char>| x@).push(
            fv,
        ));
        assert(self.field@ =~= Seq::<char>::empty());
    }

    fn end_record(&mut self)
        ensures
            final(self).state() == (CsvState {
                records: old(self).state().records.push(
                    old(self).state().record.push(old(self).state().field),
                ),
                record: seq![],
                field: seq![],
                ..old(self).state()
            }),
    {
        self.end_field();
        let mut rec: Vec<Vec<char>> = Vec::new();
        std::mem::swap(&mut rec, &mut self.record);
        let ghost prev = self.records@;
        let ghost rv = rec@.map_values(|x: Vec<char>| x@);
        self.records.push(rec);
        assert(records_view(self.records@) =~= records_view(prev).push(rv));
        assert(self.record@.map_values(|x: Vec<char>| x@) =~= Seq::<Seq<char>>::empty());
    }

    fn plain(&mut self, c: char)
        ensures
            final(self).state() == plain_step(old(self).state(), c),
    {
        if c == ',' {
            self.end_field();
        } else if c == '\n' {
            self.end_record();
        } else if c == '\r' {
        } else if c == '"' && self.field.len() == 0 {
            self.quoted = true;
        } else {
            self.field.push(c);
        }
    }

    fn step(&mut self, c: char)
        ensures
            final(self).state() == csv_step(old(self).state(), c),
    {
        if self.quoted {
            if self.pending {
                if c == '"' {
                    self.field.push('"');
                    self.pending = false;
                } else {
                    self.quoted = false;
                    self.pending = false;
                    self.plain(c);
                }
            } else if c == '"' {
                self.pending = true;
            } else {
                self.field.push(c);
            }
        } else {
            self.plain(c);
        }
    }
}

/// Reads the records of CSV text (see `csv_records`).
pub fn read_records(text: &str) -> (r: Vec<Vec<Vec<char>>>)
    ensures
        records_view(r@) == csv_records(text@),
{
    let cs = chars_of(text);
    let mut sc = CsvScanner {
        records: Vec::new(),
        record: Vec::new(),
        field: Vec::new(),
        quoted: false,
        pending: false,
    };
    assert(sc.state() == csv_scan(cs@.subrange(0, 0))) by {
        assert(cs@.subrange(0, 0) =~= Seq::<char>::empty());
        assert(records_view(sc.records@) =~= Seq::<Seq<Seq<char>>>::empty());
        assert(sc.record@.map_values(|x: Vec<char>| x@) =~= Seq::<Seq<char>>::empty());
        assert(sc.field@ =~= Seq::<char>::empty());
    }
    for i in 0..cs.len()
        invariant
            sc.state() == csv_scan(cs@.subrange(0, i as int)),
    {
        assert(cs@.subrange(0, i + 1).drop_last() =~= cs@.subrange(0, i as int));
        sc.step(cs[i]);
    }
    assert(cs@.subrange(0, cs@.len() as int) =~= cs@);
    if sc.record.len() > 0 || sc.field.len() > 0 || sc.quoted {
        sc.end_record();
    }
    sc.records
}

/// Every record has as many fields as the header record, and there is a
/// header record.
pub open spec fn records_ok(recs: Seq<Seq<Seq<char>>>) -> bool {
    recs.len() >= 1 && forall|r: int| 0 <= r < recs.len() ==> (#[trigger] recs[r]).len() == recs[0].len()
}

/// A column of the records is read as integers when it has a value and all
/// its values are decimal 64-bit integers.
pub open spec fn int_column(recs: Seq<Seq<Seq<char>>>, c: int) -> bool {
    &&& exists|r: int| 1 <= r < recs.len() && (#[trigger] recs[r])[c].len() > 0
    &&& forall|r: int|
        1 <= r < recs.len() ==> (#[trigger] recs[r])[c].len() == 0 || parse_i64(recs[r][c]) is Some
}

/// A column of the records is read as booleans when it has a value and all
/// its values are `true` or `false` in any case.
pub open spec fn bool_column(recs: Seq<Seq<Seq<char>>>, c: int) -> bool {
    &&& exists|r: int| 1 <= r < recs.len() && (#[trigger] recs[r])[c].len() > 0
    &&& forall|r: int|
        1 <= r < recs.len() ==> (#[trigger] recs[r])[c].len() == 0 || parse_bool(recs[r][c]) is Some
}

/// The type a column of the records is read as: integers, else booleans,
/// else text.
pub open spec fn column_dtype(recs: Seq<Seq<Seq<char>>>, c: int) -> DType {
    if int_column(recs, c) {
        DType::Int64
    } else if bool_column(recs, c) {
        DType::Bool
    } else {
        DType::Text
    }
}

/// A field read as a cell of a column of type `dtype`: empty fields are null.
pub open spec fn typed_cell(v: Seq<char>, dtype: DType) -> CellView {
    if v.len() == 0 {
        CellView::Null
    } else {
        match dtype {
            DType::Int64 => CellView::Int(parse_i64(v)->0),
            DType::Bool => CellView::Bool(parse_bool(v)->0),
            _ => CellView::Text(v),
        }
    }
}

/// The table that CSV records hold: the header record names the columns.
pub open spec fn table_of_records(recs: Seq<Seq<Seq<char>>>) -> Seq<ColumnView> {
    Seq::new(
        recs[0].len(),
        |c: int|
            ColumnView {
                name: recs[0][c],
                dtype: column_dtype(recs, c),
                cells: Seq::new(
                    (recs.len() - 1) as nat,
                    |r: int| typed_cell(recs[r + 1][c], column_dtype(recs, c)),
                ),
            },
    )
}

/// Decides whether column `c` of the records is read as integers.
fn int_column_exec(recs: &Vec<Vec<Vec<char>>>, c: usize) -> (b: bool)
    requires
        records_ok(records_view(recs@)),
        c < records_view(recs@)[0].len(),
    ensures
        b == int_column(records_view(recs@), c as int),
{
    let ghost rv = records_view(recs@);
    let mut any = false;
    for r in 1..recs.len()
        invariant
            rv == records_view(recs@),
            records_ok(rv),
            c < rv[0].len(),
            any == exists|m: int| 1 <= m < r && (#[trigger] rv[m])[c as int].len() > 0,
            forall|m: int|
                1 <= m < r ==> (#[trigger] rv[m])[c as int].len() == 0 || parse_i64(rv[m][c as int])
                    is Some,
    {
        assert(rv[r as int].len() == rv[0].len());
        let f = &recs[r][c];
        assert(f@ == rv[r as int][c as int]);
        if f.len() > 0 {
            any = true;
            if parse_i64_chars(f.as_slice()).is_none() {
                assert(!int_column(rv, c as int));
                return false;
            }
        }
    }
    any
}

/// Decides whether column `c` of the records is read as booleans.
fn bool_column_exec(recs: &Vec<Vec<Vec<char>>>, c: usize) -> (b: bool)
    requires
        records_ok(records_view(recs@)),
        c < records_view(recs@)[0].len(),
    ensures
        b == bool_column(records_view(recs@), c as int),
{
    let ghost rv = records_view(recs@);
    let mut any = false;
    for r in 1..recs.len()
        invariant
            rv == records_view(recs@),
            records_ok(rv),
            c < rv[0].len(),
            any == exists|m: int| 1 <= m < r && (#[trigger] rv[m])[c as int].len() > 0,
            forall|m: int|
                1 <= m < r ==> (#[trigger] rv[m])[c as int].len() == 0 || parse_bool(rv[m][c as int])
                    is Some,
    {
        assert(rv[r as int].len() == rv[0].len());
        let f = &recs[r][c];
        assert(f@ == rv[r as int][c as int]);
        if f.len() > 0 {
            any = true;
            if parse_bool_chars(f.as_slice()).is_none() {
                assert(!bool_column(rv, c as int));
                return false;
            }
        }
    }
    any
}

/// Reads CSV text into a table (see `table_of_records`); `None` when it has
/// no header record or a record has another number of fields.
pub fn read_table(text: &str) -> (r: Option<Table>)
    ensures
        r is Some <==> records_ok(csv_records(text@)),
        r matches Some(t) ==> t@ == table_of_records(csv_records(text@)) && table_wf(t@),
{
    let recs = read_records(text);
    let ghost rv = records_view(recs@);
    if recs.len() == 0 {
        return None;
    }
    let w = recs[0].len();
    assert(rv[0].len() == w);
    for r in 0..recs.len()
        invariant
            rv == records_view(recs@),
            rv == csv_records(text@),
            rv.len() >= 1,
            w == rv[0].len(),
            forall|m: int| 0 <= m < r ==> (#[trigger] rv[m]).len() == w,
    {
        assert(rv[r as int].len() == recs@[r as int]@.len());
        if recs[r].len() != w {
            assert(rv[r as int].len() != rv[0].len());
            return None;
        }
    }
    assert(records_ok(rv));
    let ghost target = table_of_records(rv);
    let mut cols: Vec<Column> = Vec::new();
    for c in 0..w
        invariant
            rv == records_view(recs@),
            rv == csv_records(text@),
            records_ok(rv),
            w == rv[0].len(),
            target == table_of_records(rv),
            columns_view(cols@) == target.subrange(0, c as int),
    {
        let is_int = int_column_exec(&recs, c);
        let is_bool = bool_column_exec(&recs, c);
        let dtype = if is_int {
            DType::Int64
        } else if is_bool {
            DType::Bool
        } else {
            DType::Text
        };
        assert(dtype == column_dtype(rv, c as int));
        let mut cells: Vec<Cell> = Vec::new();
        let ghost ct = target[c as int].cells;
        for r in 1..recs.len()
            invariant
                rv == records_view(recs@),
                records_ok(rv),
                c < w,
                w == rv[0].len(),
                dtype == column_dtype(rv, c as int),
                ct == target[c as int].cells,
                target == table_of_records(rv),
                cells@.map_values(|x: Cell| x@) == ct.subrange(0, r - 1),
        {
            assert(rv[r as int].len() == w);
            let f = &recs[r][c];
            assert(f@ == rv[r as int][c as int]);
            let cell = if f.len() == 0 {
                Cell::Null
            } else {
                match dtype {
                    DType::Int64 => match parse_i64_chars(f.as_slice()) {
                        Some(i) => Cell::Int(i),
                        None => Cell::Null,
                    },
                    DType::Bool => match parse_bool_chars(f.as_slice()) {
                        Some(b) => Cell::Bool(b),
                        None => Cell::Null,
                    },
                    _ => Cell::Text(string_of(f.as_slice())),
                }
            };
            assert(cell@ == ct[r - 1]);
            let ghost prev = cells@;
            cells.push(cell);
            assert(cells@.map_values(|x: Cell| x@) =~= prev.map_values(|x: Cell| x@).push(ct[r - 1]));
            assert(ct.subrange(0, r as int) =~= ct.subrange(0, r - 1).push(ct[r - 1]));
        }
        assert(ct.subrange(0, rv.len() - 1) =~= ct);
        let name = string_of(recs[0][c].as_slice());
        let col = Column { name, dtype, cells };
        assert(col@.cells =~= ct);
        assert(col@ == target[c as int]);
        let ghost prev = cols@;
        cols.push(col);
        assert(columns_view(cols@) =~= columns_view(prev).push(target[c as int]));
        assert(columns_view(cols@) =~= target.subrange(0, c + 1));
    }
    assert(target.subrange(0, w as int) =~= target);
    let t = Table { columns: cols };
    assert(table_wf(t@)) by {
        assert forall|c: int| 0 <= c < t@.len() implies (#[trigger] t@[c]).cells.len() == height(
            t@,
        ) by {}
    }
    Some(t)
}

// ---------------------------------------------------------------------------
// Reading back what was written
// ---------------------------------------------------------------------------

/// The state after reading `s`, starting from `st`.
pub open spec fn scan_from(st: CsvState, s: Seq<char>) -> CsvState
    decreases s.len(),
{
    if s.len() == 0 {
        st
    } else {
        csv_step(scan_from(st, s.drop_last()), s.last())
    }
}

/// The lines of records, each field quoted when needed.
pub open spec fn record_lines(recs: Seq<Seq<Seq<char>>>) -> Seq<char>
    decreases recs.len(),
{
    if recs.len() == 0 {
        seq![]
    } else {
        record_lines(recs.drop_last()) + csv_line(
            recs.last().map_values(|f: Seq<char>| quote_field(f)),
        )
    }
}

/// A state between fields: nothing of a field read, outside quotes.
pub open spec fn between_fields(st: CsvState) -> bool {
    st.field.len() == 0 && !st.quoted && !st.pending
}

/// A state that has read the whole of field `f` and waits for its end.
pub open spec fn field_read(st: CsvState, f: Seq<char>) -> bool {
    st.field == f && ((!st.quoted && !st.pending) || (st.quoted && st.pending))
}

proof fn lemma_scan_init(s: Seq<char>)
    ensures
        csv_scan(s) == scan_from(csv_init(), s),
    decreases s.len(),
{
    if s.len() > 0 {
        lemma_scan_init(s.drop_last());
    }
}

proof fn lemma_scan_concat(st: CsvState, a: Seq<char>, b: Seq<char>)
    ensures
        scan_from(st, a + b) == scan_from(scan_from(st, a), b),
    decreases b.len(),
{
    if b.len() == 0 {
        assert(a + b =~= a);
    } else {
        lemma_scan_concat(st, a, b.drop_last());
        assert((a + b).drop_last() =~= a + b.drop_last());
        assert((a + b).last() == b.last());
    }
}

proof fn lemma_scan_one(st: CsvState, c: char)
    ensures
        scan_from(st, seq![c]) == csv_step(st, c),
{
    assert(seq![c].drop_last() =~= Seq::<char>::empty());
    assert(scan_from(st, Seq::<char>::empty()) == st);
    assert(seq![c].last() == c);
}

proof fn lemma_scan_plain(st: CsvState, f: Seq<char>)
    requires
        between_fields(st),
        !needs_quotes(f),
    ensures
        scan_from(st, f) == (CsvState { field: f, ..st }),
    decreases f.len(),
{
    if f.len() > 0 {
        let g = f.drop_last();
        assert(!needs_quotes(g)) by {
            if needs_quotes(g) {
                let i = choose|i: int|
                    0 <= i < g.len() && (g[i] == ',' || g[i] == '"' || g[i] == '\n' || g[i] == '\r');
                assert(f[i] == g[i]);
            }
        }
        lemma_scan_plain(st, g);
        let c = f[f.len() - 1];
        assert(!(c == ',' || c == '"' || c == '\n' || c == '\r'));
        assert(g.push(c) =~= f);
    }
}

proof fn lemma_scan_escaped(st: CsvState, s: Seq<char>)
    requires
        st.quoted,
        !st.pending,
        st.field.len() == 0,
    ensures
        scan_from(st, escape_quotes(s)) == (CsvState { field: s, ..st }),
    decreases s.len(),
{
    if s.len() > 0 {
        let g = s.drop_last();
        let c = s.last();
        lemma_scan_escaped(st, g);
        let mid = CsvState { field: g, ..st };
        if c == '"' {
            lemma_scan_concat(st, escape_quotes(g), seq!['"', '"']);
            assert(seq!['"', '"'] =~= seq!['"'] + seq!['"']);
            lemma_scan_concat(mid, seq!['"'], seq!['"']);
            lemma_scan_one(mid, '"');
            lemma_scan_one(csv_step(mid, '"'), '"');
        } else {
            assert(escape_quotes(s) =~= escape_quotes(g) + seq![c]);
            lemma_scan_concat(st, escape_quotes(g), seq![c]);
            lemma_scan_one(mid, c);
        }
        assert(g.push(c) =~= s);
    }
}

proof fn lemma_scan_field(st: CsvState, f: Seq<char>)
    requires
        between_fields(st),
    ensures
        scan_from(st, quote_field(f)).records == st.records,
        scan_from(st, quote_field(f)).record == st.record,
        field_read(scan_from(st, quote_field(f)), f),
{
    if needs_quotes(f) {
        let opened = CsvState { quoted: true, ..st };
        lemma_scan_one(st, '"');
        lemma_scan_concat(st, seq!['"'], escape_quotes(f));
        lemma_scan_escaped(opened, f);
        lemma_scan_concat(st, seq!['"'] + escape_quotes(f), seq!['"']);
        lemma_scan_one(CsvState { field: f, ..opened }, '"');
    } else {
        lemma_scan_plain(st, f);
    }
}

proof fn lemma_scan_join(st: CsvState, fs: Seq<Seq<char>>)
    requires
        between_fields(st),
        fs.len() >= 1,
    ensures
        scan_from(st, join_fields(fs.map_values(|f: Seq<char>| quote_field(f)))).records
            == st.records,
        scan_from(st, join_fields(fs.map_values(|f: Seq<char>| quote_field(f)))).record
            == st.record + fs.drop_last(),
        field_read(
            scan_from(st, join_fields(fs.map_values(|f: Seq<char>| quote_field(f)))),
            fs.last(),
        ),
    decreases fs.len(),
{
    let gs = fs.map_values(|f: Seq<char>| quote_field(f));
    if fs.len() == 1 {
        lemma_scan_field(st, fs[0]);
        assert(st.record + fs.drop_last() =~= st.record);
    } else {
        let hs = fs.drop_last();
        let gh = hs.map_values(|f: Seq<char>| quote_field(f));
        assert(gs.drop_last() =~= gh);
        lemma_scan_join(st, hs);
        let e1 = scan_from(st, join_fields(gh));
        lemma_scan_one(e1, ',');
        let e2 = csv_step(e1, ',');
        assert(e2.record =~= st.record + hs);
        lemma_scan_concat(st, join_fields(gh), seq![',']);
        lemma_scan_concat(st, join_fields(gh) + seq![','], gs.last());
        lemma_scan_field(e2, fs.last());
        assert(hs =~= fs.drop_last());
    }
}

proof fn lemma_scan_line(st: CsvState, fs: Seq<Seq<char>>)
    requires
        between_fields(st),
        st.record.len() == 0,
        fs.len() >= 1,
    ensures
        scan_from(st, csv_line(fs.map_values(|f: Seq<char>| quote_field(f)))) == (CsvState {
            records: st.records.push(fs),
            ..st
        }),
{
    let j = join_fields(fs.map_values(|f: Seq<char>| quote_field(f)));
    lemma_scan_join(st, fs);
    assert(j.push('\n') =~= j + seq!['\n']);
    lemma_scan_concat(st, j, seq!['\n']);
    lemma_scan_one(scan_from(st, j), '\n');
    assert(st.record + fs.drop_last() =~= fs.drop_last());
    assert(fs.drop_last().push(fs.last()) =~= fs);
}

proof fn lemma_scan_lines(recs: Seq<Seq<Seq<char>>>)
    requires
        forall|r: int| 0 <= r < recs.len() ==> (#[trigger] recs[r]).len() >= 1,
    ensures
        scan_from(csv_init(), record_lines(recs)) == (CsvState { records: recs, ..csv_init() }),
    decreases recs.len(),
{
    if recs.len() > 0 {
        let front = recs.drop_last();
        lemma_scan_lines(front);
        let line = csv_line(recs.last().map_values(|f: Seq<char>| quote_field(f)));
        lemma_scan_concat(csv_init(), record_lines(front), line);
        lemma_scan_line(CsvState { records: front, ..csv_init() }, recs.last());
        assert(front.push(recs.last()) =~= recs);
    }
}

/// Reading back the CSV lines written from records, each field quoted when
/// it needs quotes, gives the same records, as long as every record has a
/// field.
pub proof fn csv_records_round_trip(recs: Seq<Seq<Seq<char>>>)
    requires
        forall|r: int| 0 <= r < recs.len() ==> (#[trigger] recs[r]).len() >= 1,
    ensures
        csv_records(record_lines(recs)) == recs,
{
    lemma_scan_init(record_lines(recs));
    lemma_scan_lines(recs);
}

/// The field a cell is written as, before any quoting: nothing for null, the
/// text, the integer in decimal, the boolean as `true` or `false`, the
/// date-time text.
pub open spec fn cell_field(c: CellView) -> Seq<char> {
    match c {
        CellView::Null => seq![],
        CellView::Text(s) => s,
        CellView::Int(i) => int_text(i as int),
        CellView::Bool(b) => bool_text(b),
        CellView::Datetime(_, _, csv) => csv,
    }
}

/// The records that a table's CSV text holds: the column names when the
/// header is written, then the fields of each row.
pub open spec fn table_records(cols: Seq<ColumnView>, header: bool) -> Seq<Seq<Seq<char>>> {
    (if header {
        seq![names_of(cols)]
    } else {
        seq![]
    }) + rows_of(cols).map_values(|row: Seq<CellView>| row.map_values(|c: CellView| cell_field(c)))
}

proof fn lemma_int_text_plain(i: int)
    ensures
        !needs_quotes(int_text(i)),
{
    let t = int_text(i);
    lemma_int_text_chars(i);
    if needs_quotes(t) {
        let k = choose|k: int|
            0 <= k < t.len() && (t[k] == ',' || t[k] == '"' || t[k] == '\n' || t[k] == '\r');
        assert(t[k] == '-' || 48 <= t[k] as int <= 57);
    }
}

proof fn lemma_cell_written(c: CellView)
    requires
        c matches CellView::Datetime(_, _, csv) ==> !needs_quotes(csv),
    ensures
        csv_cell(c) == quote_field(cell_field(c)),
{
    match c {
        CellView::Null => {
            assert(!needs_quotes(Seq::<char>::empty()));
        },
        CellView::Int(i) => {
            lemma_int_text_plain(i as int);
        },
        CellView::Bool(b) => {
            reveal_strlit("true");
            reveal_strlit("false");
            let t = bool_text(b);
            if needs_quotes(t) {
                let k = choose|k: int|
                    0 <= k < t.len() && (t[k] == ',' || t[k] == '"' || t[k] == '\n' || t[k] == '\r');
            }
        },
        _ => {},
    }
}

proof fn lemma_record_lines_concat(a: Seq<Seq<Seq<char>>>, b: Seq<Seq<Seq<char>>>)
    ensures
        record_lines(a + b) == record_lines(a) + record_lines(b),
    decreases b.len(),
{
    if b.len() == 0 {
        assert(a + b =~= a);
        assert(record_lines(a) + Seq::<char>::empty() =~= record_lines(a));
    } else {
        lemma_record_lines_concat(a, b.drop_last());
        assert((a + b).drop_last() =~= a + b.drop_last());
        assert((a + b).last() == b.last());
        let l = csv_line(b.last().map_values(|f: Seq<char>| quote_field(f)));
        assert(record_lines(a) + record_lines(b.drop_last()) + l =~= record_lines(a) + (
        record_lines(b.drop_last()) + l));
    }
}

proof fn lemma_rows_lines(rows: Seq<Seq<CellView>>)
    requires
        forall|r: int, c: int|
            0 <= r < rows.len() && 0 <= c < rows[r].len() ==> (#[trigger] rows[r][c] matches CellView::Datetime(
                _,
                _,
                csv,
            ) ==> !needs_quotes(csv)),
    ensures
        rows_lines(rows) == record_lines(
            rows.map_values(|row: Seq<CellView>| row.map_values(|c: CellView| cell_field(c))),
        ),
    decreases rows.len(),
{
    let fr = rows.map_values(|row: Seq<CellView>| row.map_values(|c: CellView| cell_field(c)));
    if rows.len() > 0 {
        let front = rows.drop_last();
        assert forall|r: int, c: int|
            0 <= r < front.len() && 0 <= c < front[r].len() implies (#[trigger] front[r][c] matches CellView::Datetime(
            _,
            _,
            csv,
        ) ==> !needs_quotes(csv)) by {
            assert(front[r][c] == rows[r][c]);
        }
        lemma_rows_lines(front);
        assert(fr.drop_last() =~= front.map_values(
            |row: Seq<CellView>| row.map_values(|c: CellView| cell_field(c)),
        ));
        let last = rows.last();
        assert forall|c: int| 0 <= c < last.len() implies #[trigger] csv_cell(last[c]) == quote_field(
            cell_field(last[c]),
        ) by {
            assert(last[c] == rows[rows.len() - 1][c]);
            lemma_cell_written(last[c]);
        }
        assert(last.map_values(|c: CellView| csv_cell(c)) =~= fr.last().map_values(
            |f: Seq<char>| quote_field(f),
        ));
    }
}

/// Reading back the CSV text written from a table gives the column names
/// (when the header is written) and then, for each row, the fields its cells
/// were written from; this holds when the table has a column and no
/// date-time text needs quotes.
pub proof fn csv_text_round_trip(cols: Seq<ColumnView>, header: bool)
    requires
        cols.len() >= 1,
        forall|r: int, c: int|
            0 <= r < rows_of(cols).len() && 0 <= c < cols.len() ==> (
            #[trigger] rows_of(cols)[r][c] matches CellView::Datetime(_, _, csv) ==> !needs_quotes(
                csv,
            )),
    ensures
        csv_records(csv_text_spec(cols, header)) == table_records(cols, header),
{
    let rows = rows_of(cols);
    let fr = rows.map_values(|row: Seq<CellView>| row.map_values(|c: CellView| cell_field(c)));
    assert forall|r: int, c: int|
        0 <= r < rows.len() && 0 <= c < rows[r].len() implies (#[trigger] rows[r][c] matches CellView::Datetime(
        _,
        _,
        csv,
    ) ==> !needs_quotes(csv)) by {
        assert(rows[r].len() == cols.len());
    }
    lemma_rows_lines(rows);
    let head: Seq<Seq<Seq<char>>> = if header {
        seq![names_of(cols)]
    } else {
        seq![]
    };
    lemma_record_lines_concat(head, fr);
    if header {
        assert(head.drop_last() =~= Seq::<Seq<Seq<char>>>::empty());
        assert(record_lines(Seq::<Seq<Seq<char>>>::empty()) =~= Seq::<char>::empty());
        assert(head.last() == names_of(cols));
        assert(record_lines(head) =~= csv_line(
            names_of(cols).map_values(|n: Seq<char>| quote_field(n)),
        ));
    } else {
        assert(record_lines(head) =~= Seq::<char>::empty());
    }
    let recs = head + fr;
    assert forall|r: int| 0 <= r < recs.len() implies (#[trigger] recs[r]).len() >= 1 by {
        if header && r == 0 {
        } else {
            let k = if header { r - 1 } else { r };
            assert(recs[r] == fr[k]);
        }
    }
    csv_records_round_trip(recs);
}

/// The task ids that the task file holds: the texts of its key column; `None`
/// when it has no key column.
pub fn queue_ids(t: &Table) -> (r: Option<Vec<String>>)
    ensures
        find_col(t@, key_col()) is None ==> r is None,
        find_col(t@, key_col()) matches Some(k) ==> (r matches Some(ids) && ids.deep_view()
            == t@[k].cells.map_values(|c: CellView| cell_text(c))),
{
    proof {
        lemma_find_col(t@, key_col());
    }
    match find_column(&t.columns, "Process Instance.Task Details.Key") {
        None => None,
        Some(k) => {
            let col = &t.columns[k];
            assert(t@[k as int] == col@);
            let ghost target = col@.cells.map_values(|c: CellView| cell_text(c));
            let mut ids: Vec<String> = Vec::new();
            for i in 0..col.cells.len()
                invariant
                    target == col@.cells.map_values(|c: CellView| cell_text(c)),
                    ids.deep_view() == target.subrange(0, i as int),
            {
                let s = cell_to_string(&col.cells[i]);
                let ghost prev = ids.deep_view();
                ids.push(s);
                assert(ids.deep_view() =~= prev.push(target[i as int]));
                assert(target.subrange(0, i + 1) =~= target.subrange(0, i as int).push(
                    target[i as int],
                ));
            }
            assert(target.subrange(0, col.cells@.len() as int) =~= target);
            Some(ids)
        },
    }
}

/// A table without its first row.
pub open spec fn drop_first_spec(cols: Seq<ColumnView>) -> Seq<ColumnView> {
    cols.map_values(
        |c: ColumnView|
            ColumnView { cells: c.cells.subrange(1, c.cells.len() as int), ..c },
    )
}

/// Removes the first row of a table that has one.
pub fn drop_first_row(t: Table) -> (r: Table)
    requires
        table_wf(t@),
        height(t@) >= 1,
    ensures
        r@ == drop_first_spec(t@),
        table_wf(r@),
        r@.len() == t@.len(),
        forall|c: int|
            0 <= c < t@.len() ==> {
                &&& (#[trigger] r@[c]).name == t@[c].name
                &&& r@[c].dtype == t@[c].dtype
                &&& r@[c].cells == t@[c].cells.drop_first()
            },
{
    let ghost tv = t@;
    let mut src = t.columns;
    let ghost orig = src@;
    let n = src.len();
    let mut out: Vec<Column> = Vec::new();
    let mut i: usize = 0;
    while i < n
        invariant
            n == orig.len(),
            tv == columns_view(orig),
            table_wf(tv),
            height(tv) >= 1,
            i <= n,
            src@ == orig.subrange(i as int, n as int),
            columns_view(out@) == drop_first_spec(tv).subrange(0, i as int),
        decreases n - i,
    {
        let mut col = src.remove(0);
        assert(col == orig[i as int]);
        assert(tv[i as int].cells.len() == height(tv));
        let _first = col.cells.remove(0);
        let ghost cv = col@;
        assert(cv.cells =~= drop_first_spec(tv)[i as int].cells);
        let ghost prev = out@;
        out.push(col);
        assert(columns_view(out@) =~= columns_view(prev).push(cv));
        assert(columns_view(out@) =~= drop_first_spec(tv).subrange(0, i + 1));
        assert(src@ =~= orig.subrange(i + 1, n as int));
        i = i + 1;
    }
    assert(drop_first_spec(tv).subrange(0, n as int) =~= drop_first_spec(tv));
    let r = Table { columns: out };
    assert(table_wf(r@)) by {
        assert forall|c: int| 0 <= c < r@.len() implies (#[trigger] r@[c]).cells.len() == height(
            r@,
        ) by {
            assert(tv[c].cells.len() == height(tv));
            assert(tv[0].cells.len() == height(tv));
        }
    }
    r
}

/// Taking the first row off the task table takes the first id off its queue
/// and keeps the other ids in their order: the key column is found at the
/// same place, and its ids are the former ones without the first.
pub proof fn queue_pop(cols: Seq<ColumnView>)
    requires
        table_wf(cols),
        height(cols) >= 1,
    ensures
        find_col(drop_first_spec(cols), key_col()) == find_col(cols, key_col()),
        find_col(cols, key_col()) matches Some(k) ==> drop_first_spec(cols)[k].cells.map_values(
            |c: CellView| cell_text(c),
        ) == cols[k].cells.map_values(|c: CellView| cell_text(c)).drop_first(),
{
    let d = drop_first_spec(cols);
    lemma_find_col(cols, key_col());
    lemma_find_col(d, key_col());
    assert forall|m: int| 0 <= m < cols.len() implies (#[trigger] d[m]).name == cols[m].name by {}
    match find_col(cols, key_col()) {
        Some(k) => {
            assert(d[k].name == key_col());
            assert(cols[k].cells.len() == height(cols));
            assert(d[k].cells.map_values(|c: CellView| cell_text(c)) =~= cols[k].cells.map_values(
                |c: CellView| cell_text(c),
            ).drop_first());
        },
        None => {},
    }
}

/// Taking the first row off a table takes the first cell off every column,
/// whatever its name: the columns keep their names and types, the table
/// keeps equal-height columns one row shorter, and row `r` of the result is
/// row `r + 1` of the table.
pub proof fn drop_first_takes_whole_row(cols: Seq<ColumnView>)
    requires
        table_wf(cols),
        height(cols) >= 1,
    ensures
        drop_first_spec(cols).len() == cols.len(),
        forall|c: int|
            0 <= c < cols.len() ==> {
                &&& (#[trigger] drop_first_spec(cols)[c]).name == cols[c].name
                &&& drop_first_spec(cols)[c].dtype == cols[c].dtype
                &&& drop_first_spec(cols)[c].cells == cols[c].cells.drop_first()
            },
        table_wf(drop_first_spec(cols)),
        height(drop_first_spec(cols)) == height(cols) - 1,
        rows_of(drop_first_spec(cols)).len() == rows_of(cols).len() - 1,
        forall|r: int|
            0 <= r < rows_of(drop_first_spec(cols)).len() ==> #[trigger] rows_of(
                drop_first_spec(cols),
            )[r] == rows_of(cols)[r + 1],
{
    let d = drop_first_spec(cols);
    assert forall|c: int| 0 <= c < cols.len() implies (#[trigger] d[c]).cells =~= cols[c].cells.drop_first() by {
        assert(cols[c].cells.len() == height(cols));
    }
    assert(cols[0].cells.len() == height(cols));
    assert forall|r: int| 0 <= r < rows_of(d).len() implies #[trigger] rows_of(d)[r] == rows_of(cols)[r + 1] by {
        assert forall|c: int| 0 <= c < cols.len() implies rows_of(d)[r][c] == rows_of(cols)[r + 1][c] by {
            assert(cols[c].cells.len() == height(cols));
        }
        assert(rows_of(d)[r] =~= rows_of(cols)[r + 1]);
    }
}

} // verus!
