//! The write-request data model and its mathematical views.

use vstd::prelude::*;

verus! {

/// The type of the value a column carries, in a write or in a schema.
#[derive(Clone, Copy, Debug, PartialEq, Eq, Structural)]
pub enum ColumnType {
    Tag,
    Bool,
    Int,
    Uint,
    Float,
    Text,
    Time,
}

/// One column of one row: a name and the type of the value carried.
#[derive(Debug)]
pub struct Column {
    pub name: String,
    pub ctype: ColumnType,
}

/// One row: a timestamp in nanoseconds since the epoch, and named columns.
#[derive(Debug)]
pub struct Row {
    pub time: i64,
    pub cols: Vec<Column>,
}

/// All rows of one write addressed to one table.
#[derive(Debug)]
pub struct TableWrite {
    pub name: String,
    pub rows: Vec<Row>,
}

/// A decoded write request: a batch of table row-sets addressed to one
/// namespace. Immutable once received; stages transform it into new values.
#[derive(Debug)]
pub struct WriteRequest {
    pub namespace: String,
    pub tables: Vec<TableWrite>,
}

/// Mathematical view of a row.
pub ghost struct RowM {
    pub time: int,
    pub cols: Seq<(Seq<char>, ColumnType)>,
}

/// Mathematical view of a table row-set.
pub ghost struct TableM {
    pub name: Seq<char>,
    pub rows: Seq<RowM>,
}

/// Mathematical view of a write request.
pub ghost struct WriteM {
    pub namespace: Seq<char>,
    pub tables: Seq<TableM>,
}

pub open spec fn col_m(c: Column) -> (Seq<char>, ColumnType) {
    (c.name@, c.ctype)
}

pub open spec fn row_m(r: Row) -> RowM {
    RowM { time: r.time as int, cols: r.cols@.map_values(|c: Column| col_m(c)) }
}

pub open spec fn rows_m(s: Seq<Row>) -> Seq<RowM> {
    s.map_values(|r: Row| row_m(r))
}

pub open spec fn table_m(t: TableWrite) -> TableM {
    TableM { name: t.name@, rows: rows_m(t.rows@) }
}

pub open spec fn tables_m(s: Seq<TableWrite>) -> Seq<TableM> {
    s.map_values(|t: TableWrite| table_m(t))
}

pub open spec fn write_m(w: WriteRequest) -> WriteM {
    WriteM { namespace: w.namespace@, tables: tables_m(w.tables@) }
}

/// Copies one column; the copy is equal to the original.
pub fn clone_column(c: &Column) -> (out: Column)
    ensures
        out == *c,
{
    Column { name: c.name.clone(), ctype: c.ctype }
}

/// Copies one row; the copy has the same timestamp and the same columns.
pub fn clone_row(r: &Row) -> (out: Row)
    ensures
        out.time == r.time,
        out.cols@ == r.cols@,
        row_m(out) == row_m(*r),
{
    let mut cols: Vec<Column> = Vec::new();
    let mut i: usize = 0;
    while i < r.cols.len()
        invariant
            i <= r.cols.len(),
            cols@ == r.cols@.subrange(0, i as int),
        decreases r.cols.len() - i,
    {
        cols.push(clone_column(&r.cols[i]));
        proof {
            assert(r.cols@.subrange(0, i + 1) =~= r.cols@.subrange(0, i as int).push(
                r.cols@[i as int],
            ));
        }
        i += 1;
    }
    proof {
        assert(cols@ =~= r.cols@);
    }
    Row { time: r.time, cols }
}

/// Copies one table row-set; the copy has the same mathematical view.
pub fn clone_table(t: &TableWrite) -> (out: TableWrite)
    ensures
        out.name@ == t.name@,
        table_m(out) == table_m(*t),
{
    let mut rows: Vec<Row> = Vec::new();
    let mut i: usize = 0;
    while i < t.rows.len()
        invariant
            i <= t.rows.len(),
            rows@.len() == i,
            forall|j: int| 0 <= j < i ==> row_m(#[trigger] rows@[j]) == row_m(t.rows@[j]),
        decreases t.rows.len() - i,
    {
        rows.push(clone_row(&t.rows[i]));
        i += 1;
    }
    let out = TableWrite { name: t.name.clone(), rows };
    proof {
        assert(rows_m(out.rows@) =~= rows_m(t.rows@));
    }
    out
}

/// Copies a write request; the copy has the same mathematical view.
pub fn clone_write(w: &WriteRequest) -> (out: WriteRequest)
    ensures
        out.namespace@ == w.namespace@,
        write_m(out) == write_m(*w),
{
    let mut tables: Vec<TableWrite> = Vec::new();
    let mut i: usize = 0;
    while i < w.tables.len()
        invariant
            i <= w.tables.len(),
            tables@.len() == i,
            forall|j: int| 0 <= j < i ==> table_m(#[trigger] tables@[j]) == table_m(w.tables@[j]),
        decreases w.tables.len() - i,
    {
        tables.push(clone_table(&w.tables[i]));
        i += 1;
    }
    let out = WriteRequest { namespace: w.namespace.clone(), tables };
    proof {
        assert(tables_m(out.tables@) =~= tables_m(w.tables@));
    }
    out
}

} // verus!
