//! Read-only SQL over the run index. `brief` and `query` answer the usual questions; this is
//! the entry point for the ones they do not, without printing a whole run as JSON.
use crate::config::LoadedConfig;
use crate::number::Number;
use crate::paths::{join_path, joined_path};
use crate::text::{
    append_str, chars_of, decimal, decimal_of, glue2, glue3, join, joined, lossy_text, same,
    signed_decimal, signed_decimal_of, string_of, text_from_lossy, texts, views,
};
use vstd::prelude::*;

verus! {

#[derive(Clone, Copy, Debug, PartialEq, Eq, Structural)]
pub enum SqlFormat {
    Json,
    Tsv,
}

/// A value as the index holds it.
#[derive(Debug)]
pub enum SqlValue {
    Null,
    Integer(i64),
    /// A real number, and how JSON writes it.
    Real(Number, String),
    Text(Vec<u8>),
    Blob(Vec<u8>),
}

/// A value as it is shown.
#[derive(Clone, Debug)]
pub enum Cell {
    Null,
    Integer(i64),
    Real(Number, String),
    Text(String),
}

#[verifier::ext_equal]
pub enum CellView {
    Null,
    Integer(int),
    Real(Number, Seq<char>),
    Text(Seq<char>),
}

impl View for Cell {
    type V = CellView;

    open spec fn view(&self) -> CellView {
        match self {
            Cell::Null => CellView::Null,
            Cell::Integer(n) => CellView::Integer(*n as int),
            Cell::Real(n, text) => CellView::Real(*n, text@),
            Cell::Text(text) => CellView::Text(text@),
        }
    }
}

/// How a value is shown: bytes that are no text by their number, and a real that is no number as
/// nothing.
pub open spec fn shown(value: SqlValue) -> CellView {
    match value {
        SqlValue::Null => CellView::Null,
        SqlValue::Integer(n) => CellView::Integer(n as int),
        SqlValue::Real(n, text) => if n.is_finite_spec() {
            CellView::Real(n, text@)
        } else {
            CellView::Null
        },
        SqlValue::Text(bytes) => CellView::Text(lossy_text(bytes@)),
        SqlValue::Blob(bytes) => CellView::Text("<"@ + decimal(bytes@.len()) + " bytes>"@),
    }
}

pub fn value_of(value: &SqlValue) -> (r: Cell)
    ensures
        r@ == shown(*value),
{
    match value {
        SqlValue::Null => Cell::Null,
        SqlValue::Integer(n) => Cell::Integer(*n),
        SqlValue::Real(n, text) => if n.is_finite() {
            Cell::Real(*n, text.clone())
        } else {
            Cell::Null
        },
        SqlValue::Text(bytes) => Cell::Text(text_from_lossy(bytes.as_slice())),
        SqlValue::Blob(bytes) => {
            let count = string_of(decimal_of(bytes.len() as u64).as_slice());
            Cell::Text(glue3("<", count.as_str(), " bytes>"))
        },
    }
}

/// The result of a query.
#[derive(Debug)]
pub struct SqlOutput {
    pub schema_version: u32,
    pub columns: Vec<String>,
    pub row_count: usize,
    /// True when the limit cut the result; the query itself decides what is interesting.
    pub truncated: bool,
    /// The cells of each row, in the order of the columns.
    pub rows: Vec<Vec<Cell>>,
}

/// Where the index of a project is.
pub fn database_path(config: &LoadedConfig) -> (r: String)
    ensures
        r@ == join_path(config.data_dir@, "isuscope.sqlite3"@),
{
    joined_path(config.data_dir.as_str(), "isuscope.sqlite3")
}

/// What is said where there is no index yet.
pub fn missing_database(path: &str) -> (r: String)
    ensures
        r@ == path@
            + " does not exist yet; run `isuscope list` to rebuild the index from the saved runs"@,
{
    glue2(
        path,
        " does not exist yet; run `isuscope list` to rebuild the index from the saved runs",
    )
}

/// `CREATE` statements of the index, so that a query can be written without knowing how the index
/// is made.
pub fn schema(statements: &Vec<String>) -> (r: String)
    ensures
        r@ == join(texts(statements@), ";\n"@) + ";\n"@,
{
    let mut parts: Vec<Vec<char>> = Vec::new();
    let mut i: usize = 0;
    assert(views(parts@) == texts(statements@).take(0));
    while i < statements.len()
        invariant
            i <= statements@.len(),
            views(parts@) == texts(statements@).take(i as int),
        decreases statements.len() - i,
    {
        let ghost was = parts@;
        let part = chars_of(statements[i].as_str());
        let ghost added = part@;
        parts.push(part);
        assert(views(parts@) == views(was).push(added));
        assert(texts(statements@)[i as int] == added);
        assert(texts(statements@).take(i + 1) == texts(statements@).take(i as int).push(added));
        i += 1;
    }
    assert(texts(statements@).take(i as int) == texts(statements@));
    let mut out = joined(parts.as_slice(), chars_of(";\n").as_slice());
    append_str(&mut out, ";\n");
    string_of(out.as_slice())
}

/// The first column whose name an earlier one has.
pub open spec fn duplicate(columns: Seq<Seq<char>>, from: int) -> Option<Seq<char>>
    decreases columns.len() - from,
{
    if from < 0 || from >= columns.len() {
        None
    } else if columns.take(from).contains(columns[from]) {
        Some(columns[from])
    } else {
        duplicate(columns, from + 1)
    }
}

fn has_column(columns: &Vec<String>, count: usize, name: &str) -> (r: bool)
    requires
        count <= columns@.len(),
    ensures
        r == texts(columns@).take(count as int).contains(name@),
{
    let ghost first = texts(columns@).take(count as int);
    let mut i: usize = 0;
    while i < count
        invariant
            i <= count <= columns@.len(),
            first == texts(columns@).take(count as int),
            forall|j: int| 0 <= j < i ==> #[trigger] first[j] != name@,
        decreases count - i,
    {
        assert(first[i as int] == columns@[i as int]@);
        if same(columns[i].as_str(), name) {
            return true;
        }
        i += 1;
    }
    false
}

/// What is said of a result with two columns of one name.
pub open spec fn duplicate_error(name: Seq<char>) -> Seq<char> {
    "SQL result contains duplicate column `"@ + name
        + "`; use AS to give every selected column a unique name"@
}

/// Finds a name that two columns have.
pub fn check_columns(columns: &Vec<String>) -> (r: Result<(), String>)
    ensures
        match r {
            Ok(_) => duplicate(texts(columns@), 0) is None,
            Err(error) => duplicate(texts(columns@), 0) matches Some(name) && error@
                == duplicate_error(name),
        },
{
    let mut i: usize = 0;
    while i < columns.len()
        invariant
            i <= columns@.len(),
            duplicate(texts(columns@), 0) == duplicate(texts(columns@), i as int),
        decreases columns.len() - i,
    {
        assert(texts(columns@)[i as int] == columns@[i as int]@);
        if has_column(columns, i, columns[i].as_str()) {
            return Err(
                glue3(
                    "SQL result contains duplicate column `",
                    columns[i].as_str(),
                    "`; use AS to give every selected column a unique name",
                ),
            );
        }
        i += 1;
    }
    Ok(())
}

pub open spec fn cell_views(row: Seq<Cell>) -> Seq<CellView> {
    row.map_values(|c: Cell| c@)
}

pub open spec fn row_views(rows: Seq<Vec<Cell>>) -> Seq<Seq<CellView>> {
    rows.map_values(|row: Vec<Cell>| cell_views(row@))
}

pub open spec fn shown_row() -> spec_fn(Vec<SqlValue>) -> Seq<CellView> {
    |row: Vec<SqlValue>| row@.map_values(|v: SqlValue| shown(v))
}

fn show_row(row: &Vec<SqlValue>) -> (r: Vec<Cell>)
    ensures
        cell_views(r@) == shown_row()(*row),
{
    let ghost all = shown_row()(*row);
    let mut out: Vec<Cell> = Vec::new();
    let mut i: usize = 0;
    assert(cell_views(out@) == all.take(0));
    while i < row.len()
        invariant
            i <= row@.len(),
            all == shown_row()(*row),
            cell_views(out@) == all.take(i as int),
        decreases row.len() - i,
    {
        let ghost was = out@;
        let cell = value_of(&row[i]);
        let ghost added = cell@;
        out.push(cell);
        assert(cell_views(out@) == cell_views(was).push(added));
        assert(all[i as int] == added);
        assert(all.take(i + 1) == all.take(i as int).push(all[i as int]));
        i += 1;
    }
    assert(all.take(i as int) == all);
    out
}

pub open spec fn smaller(a: nat, b: nat) -> nat {
    if a <= b {
        a
    } else {
        b
    }
}

/// Takes the rows that a query found, no more than the limit.
pub fn query(columns: Vec<String>, rows: &Vec<Vec<SqlValue>>, limit: usize) -> (r: Result<
    SqlOutput,
    String,
>)
    ensures
        match r {
            Ok(output) => {
                &&& duplicate(texts(columns@), 0) is None
                &&& output.schema_version == 1
                &&& output.columns == columns
                &&& output.row_count == smaller(rows@.len(), limit as nat)
                &&& output.truncated == (rows@.len() > limit)
                &&& row_views(output.rows@) == rows@.take(output.row_count as int).map_values(
                    shown_row(),
                )
            },
            Err(error) => duplicate(texts(columns@), 0) matches Some(name) && error@
                == duplicate_error(name),
        },
{
    match check_columns(&columns) {
        Ok(_) => {},
        Err(error) => {
            return Err(error);
        },
    }
    let count = if rows.len() <= limit {
        rows.len()
    } else {
        limit
    };
    let ghost all = rows@.take(count as int).map_values(shown_row());
    let mut out: Vec<Vec<Cell>> = Vec::new();
    let mut i: usize = 0;
    assert(row_views(out@) == all.take(0));
    while i < count
        invariant
            i <= count <= rows@.len(),
            out@.len() == i,
            all == rows@.take(count as int).map_values(shown_row()),
            row_views(out@) == all.take(i as int),
        decreases count - i,
    {
        let ghost was = out@;
        let row = show_row(&rows[i]);
        let ghost added = cell_views(row@);
        out.push(row);
        assert(row_views(out@) == row_views(was).push(added));
        assert(all[i as int] == added);
        assert(all.take(i + 1) == all.take(i as int).push(all[i as int]));
        i += 1;
    }
    assert(all.take(i as int) == all);
    Ok(
        SqlOutput {
            schema_version: 1,
            row_count: out.len(),
            columns,
            truncated: rows.len() > limit,
            rows: out,
        },
    )
}

/// A text on one line and in one column.
pub open spec fn flat(text: Seq<char>) -> Seq<char> {
    text.map_values(
        |c: char|
            if c == '\t' || c == '\n' {
                ' '
            } else {
                c
            },
    )
}

fn flatten(text: &str) -> (out: Vec<char>)
    ensures
        out@ == flat(text@),
{
    let chars = chars_of(text);
    let mut out: Vec<char> = Vec::new();
    let mut i: usize = 0;
    assert(out@ == flat(text@).take(0));
    while i < chars.len()
        invariant
            i <= chars@.len(),
            chars@ == text@,
            out@ == flat(text@).take(i as int),
        decreases chars.len() - i,
    {
        let c = chars[i];
        if c == '\t' || c == '\n' {
            out.push(' ');
        } else {
            out.push(c);
        }
        assert(flat(text@).take(i + 1) == flat(text@).take(i as int).push(flat(text@)[i as int]));
        i += 1;
    }
    assert(flat(text@).take(i as int) == flat(text@));
    out
}

pub open spec fn cell_text(cell: CellView) -> Seq<char> {
    match cell {
        CellView::Null => Seq::empty(),
        CellView::Integer(n) => signed_decimal(n),
        CellView::Real(_, text) => text,
        CellView::Text(text) => flat(text),
    }
}

fn write_cell(cell: &Cell) -> (out: Vec<char>)
    ensures
        out@ == cell_text(cell@),
{
    match cell {
        Cell::Null => {
            let none: Vec<char> = Vec::new();
            assert(none@ == Seq::<char>::empty());
            none
        },
        Cell::Integer(n) => signed_decimal_of(*n),
        Cell::Real(_, text) => chars_of(text.as_str()),
        Cell::Text(text) => flatten(text.as_str()),
    }
}

pub open spec fn row_text(row: Seq<CellView>) -> Seq<char> {
    join(row.map_values(|c: CellView| cell_text(c)), "\t"@)
}

fn write_row(row: &Vec<Cell>) -> (out: Vec<char>)
    ensures
        out@ == row_text(cell_views(row@)),
{
    let ghost all = cell_views(row@).map_values(|c: CellView| cell_text(c));
    let mut parts: Vec<Vec<char>> = Vec::new();
    let mut i: usize = 0;
    assert(views(parts@) == all.take(0));
    while i < row.len()
        invariant
            i <= row@.len(),
            all == cell_views(row@).map_values(|c: CellView| cell_text(c)),
            views(parts@) == all.take(i as int),
        decreases row.len() - i,
    {
        let ghost was = parts@;
        let part = write_cell(&row[i]);
        let ghost added = part@;
        parts.push(part);
        assert(views(parts@) == views(was).push(added));
        assert(all[i as int] == added);
        assert(all.take(i + 1) == all.take(i as int).push(all[i as int]));
        i += 1;
    }
    assert(all.take(i as int) == all);
    joined(parts.as_slice(), chars_of("\t").as_slice())
}

/// The header and the rows, a line each.
pub open spec fn table_text(header: Seq<char>, rows: Seq<Seq<CellView>>) -> Seq<char>
    decreases rows.len(),
{
    if rows.len() == 0 {
        header + "\n"@
    } else {
        table_text(header, rows.drop_last()) + row_text(rows.last()) + "\n"@
    }
}

/// The whole result as lines, with a word where it was cut.
pub open spec fn tsv_of(output: SqlOutput) -> Seq<char> {
    let table = table_text(join(texts(output.columns@), "\t"@), row_views(output.rows@));
    if output.truncated {
        table + "# truncated at "@ + decimal(output.row_count as nat) + " rows\n"@
    } else {
        table
    }
}

/// Tab separated rows with a header, for reading in a terminal without another tool.
pub fn write_tsv(output: &SqlOutput) -> (r: String)
    ensures
        r@ == tsv_of(*output),
{
    let ghost header = join(texts(output.columns@), "\t"@);
    let ghost all = row_views(output.rows@);
    let mut parts: Vec<Vec<char>> = Vec::new();
    let mut i: usize = 0;
    let ghost names = texts(output.columns@);
    assert(views(parts@) == names.take(0));
    while i < output.columns.len()
        invariant
            i <= output.columns@.len(),
            names == texts(output.columns@),
            views(parts@) == names.take(i as int),
        decreases output.columns.len() - i,
    {
        let ghost was = parts@;
        let part = chars_of(output.columns[i].as_str());
        let ghost added = part@;
        parts.push(part);
        assert(views(parts@) == views(was).push(added));
        assert(names[i as int] == added);
        assert(names.take(i + 1) == names.take(i as int).push(names[i as int]));
        i += 1;
    }
    assert(names.take(i as int) == names);
    let mut out = joined(parts.as_slice(), chars_of("\t").as_slice());
    append_str(&mut out, "\n");
    let mut k: usize = 0;
    assert(all.take(0) == Seq::<Seq<CellView>>::empty());
    while k < output.rows.len()
        invariant
            k <= output.rows@.len(),
            all == row_views(output.rows@),
            out@ == table_text(header, all.take(k as int)),
        decreases output.rows.len() - k,
    {
        proof {
            assert(all[k as int] == cell_views(output.rows@[k as int]@));
            assert(all.take(k + 1).drop_last() == all.take(k as int));
            assert(all.take(k + 1).last() == all[k as int]);
        }
        crate::text::append(&mut out, write_row(&output.rows[k]).as_slice());
        append_str(&mut out, "\n");
        k += 1;
    }
    assert(all.take(k as int) == all);
    if output.truncated {
        append_str(&mut out, "# truncated at ");
        crate::text::append(&mut out, decimal_of(output.row_count as u64).as_slice());
        append_str(&mut out, " rows\n");
    }
    string_of(out.as_slice())
}

/// The columns of a result that is shown have names that differ.
pub proof fn columns_are_distinct(columns: Seq<Seq<char>>, i: int, j: int)
    requires
        duplicate(columns, 0) is None,
        0 <= i < j < columns.len(),
    ensures
        columns[i] != columns[j],
{
    no_duplicate_at(columns, 0, j);
    if columns[i] == columns[j] {
        assert(columns.take(j)[i] == columns[j]);
    }
}

proof fn no_duplicate_at(columns: Seq<Seq<char>>, from: int, j: int)
    requires
        duplicate(columns, from) is None,
        0 <= from <= j < columns.len(),
    ensures
        !columns.take(j).contains(columns[j]),
    decreases j - from,
{
    if from < j {
        no_duplicate_at(columns, from + 1, j);
    }
}

/// The text of a cell stays on its line and in its column.
pub proof fn cells_stay_in_place(text: Seq<char>, i: int)
    requires
        0 <= i < cell_text(CellView::Text(text)).len(),
    ensures
        cell_text(CellView::Text(text))[i] != '\t',
        cell_text(CellView::Text(text))[i] != '\n',
{
}

} // verus!
