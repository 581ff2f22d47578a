//! The dataset: rows of scalar values per table, and the load-time checks
//! that hold it to a schema (columns, types, primary keys, foreign keys).
use vstd::prelude::*;
use crate::schema::{ColumnConfig, ForeignKeyConfig, SchemaConfig, TableConfig};
use crate::text::{
    first_index_some, lemma_first_index_none, lemma_first_index_prefix, lemma_first_index_witness,
    str_eq,
};

verus! {

/// A scalar of a row, as the dataset document gives it.
#[derive(Debug, Clone, PartialEq, Eq)]
pub enum FieldValue {
    Null,
    Bool(bool),
    /// An integral number.
    Int(i128),
    /// A number with a fraction or exponent, in its decimal text form.
    Float(String),
    Text(String),
    /// An array or object, in its JSON text form.
    Other(String),
}

/// One row: column name and value pairs.
#[derive(Debug, Clone)]
pub struct Row {
    pub cells: Vec<(String, FieldValue)>,
}

/// The rows given for one table.
#[derive(Debug, Clone)]
pub struct TableRows {
    pub table: String,
    pub rows: Vec<Row>,
}

/// The whole dataset, one entry per table.
#[derive(Debug, Clone)]
pub struct DataFile {
    pub tables: Vec<TableRows>,
}

/// Why a dataset was rejected, with the table, row index and column where it
/// was found.
#[derive(Debug, Clone, PartialEq, Eq)]
pub enum DataError {
    UnknownTable { table: String },
    UnknownColumn { table: String, row: usize, column: String },
    /// The value found and the column's declared type.
    TypeMismatch { table: String, row: usize, column: String, col_type: String, value: FieldValue },
    MissingPrimaryKey { table: String, row: usize, column: String },
    /// The key value that an earlier row of the table already holds.
    DuplicatePrimaryKey { table: String, row: usize, column: String, value: FieldValue },
    /// The foreign-key value that no row of the referenced table holds.
    FkTargetMissing {
        table: String,
        row: usize,
        column: String,
        value: FieldValue,
        target_table: String,
        target_column: String,
    },
}

/// The text of a floating-point zero, of either sign.
pub open spec fn is_zero_text(x: Seq<char>) -> bool {
    x == "0.0"@ || x == "-0.0"@
}

/// Two values are the same scalar (texts compared by their characters).
pub open spec fn same_value(a: FieldValue, b: FieldValue) -> bool {
    match (a, b) {
        (FieldValue::Null, FieldValue::Null) => true,
        (FieldValue::Bool(x), FieldValue::Bool(y)) => x == y,
        (FieldValue::Int(x), FieldValue::Int(y)) => x == y,
        (FieldValue::Float(x), FieldValue::Float(y)) => x@ == y@ || (is_zero_text(x@) && is_zero_text(y@)),
        (FieldValue::Text(x), FieldValue::Text(y)) => x@ == y@,
        (FieldValue::Other(x), FieldValue::Other(y)) => x@ == y@,
        _ => false,
    }
}

/// A value of the kind that the declared column type asks for.
pub open spec fn type_matches(ty: Seq<char>, v: FieldValue) -> bool {
    ||| ty == "int"@ && v is Int
    ||| ty == "float"@ && v is Float
    ||| ty == "text"@ && v is Text
    ||| ty == "bool"@ && v is Bool
}

/// The value of the first cell of the row named `col`.
pub open spec fn cell(row: Row, col: Seq<char>) -> Option<FieldValue> {
    first_index_some(row.cells@.len() as int, cell_pick(row, col))
}

pub open spec fn cell_pick(row: Row, col: Seq<char>) -> spec_fn(int) -> Option<FieldValue> {
    |k: int| if row.cells@[k].0@ == col { Some(row.cells@[k].1) } else { None }
}

/// The first table of the schema named `name`.
pub open spec fn table_named(s: SchemaConfig, name: Seq<char>) -> Option<TableConfig> {
    first_index_some(s.tables@.len() as int, table_pick(s, name))
}

pub open spec fn table_pick(s: SchemaConfig, name: Seq<char>) -> spec_fn(int) -> Option<TableConfig> {
    |i: int| if s.tables@[i].name@ == name { Some(s.tables@[i]) } else { None }
}

/// The first column of the table named `name`.
pub open spec fn column_named(t: TableConfig, name: Seq<char>) -> Option<ColumnConfig> {
    first_index_some(t.columns@.len() as int, column_pick(t, name))
}

pub open spec fn column_pick(t: TableConfig, name: Seq<char>) -> spec_fn(int) -> Option<ColumnConfig> {
    |j: int| if t.columns@[j].name@ == name { Some(t.columns@[j]) } else { None }
}

/// The rows of the first dataset entry for the table named `name`.
pub open spec fn rows_named(d: DataFile, name: Seq<char>) -> Option<Seq<Row>> {
    first_index_some(d.tables@.len() as int, rows_pick(d, name))
}

pub open spec fn rows_pick(d: DataFile, name: Seq<char>) -> spec_fn(int) -> Option<Seq<Row>> {
    |i: int| if d.tables@[i].table@ == name { Some(d.tables@[i].rows@) } else { None }
}

/// The rows that a foreign key may point at: none when the target has no entry.
pub open spec fn target_rows(d: DataFile, table: Seq<char>) -> Seq<Row> {
    match rows_named(d, table) {
        Some(rows) => rows,
        None => Seq::empty(),
    }
}

/// The row's column `col` holds the same scalar as `v`.
pub open spec fn holds_value(row: Row, col: Seq<char>, v: FieldValue) -> bool {
    match cell(row, col) {
        Some(w) => same_value(v, w),
        None => false,
    }
}

/// Some row holds the value `v` in column `col`.
pub open spec fn has_target(rows: Seq<Row>, col: Seq<char>, v: FieldValue) -> bool {
    exists|i: int| 0 <= i < rows.len() && #[trigger] holds_value(rows[i], col, v)
}

/// An earlier row (index below `r`) holds the same primary-key value `v`.
pub open spec fn pk_seen(rows: Seq<Row>, pk: Seq<char>, r: int, v: FieldValue) -> bool {
    exists|j: int| 0 <= j < r && #[trigger] holds_value(rows[j], pk, v)
}

pub open spec fn cell_error(t: TableConfig, e: TableRows, r: int, k: int) -> Option<DataError> {
    let c = e.rows@[r].cells@[k];
    match column_named(t, c.0@) {
        None => Some(DataError::UnknownColumn { table: e.table, row: r as usize, column: c.0 }),
        Some(col) => if !type_matches(col.col_type@, c.1) {
            Some(DataError::TypeMismatch { table: e.table, row: r as usize, column: c.0, col_type: col.col_type, value: c.1 })
        } else {
            None
        },
    }
}

pub open spec fn cell_checks(t: TableConfig, e: TableRows, r: int) -> spec_fn(int) -> Option<DataError> {
    |k: int| cell_error(t, e, r, k)
}

/// The first fault of row `r`: its cells in order, then its primary key.
pub open spec fn row_error(t: TableConfig, e: TableRows, r: int) -> Option<DataError> {
    let row = e.rows@[r];
    match first_index_some(row.cells@.len() as int, cell_checks(t, e, r)) {
        Some(err) => Some(err),
        None => match cell(row, t.primary_key@) {
            None => Some(DataError::MissingPrimaryKey { table: e.table, row: r as usize, column: t.primary_key }),
            Some(v) => if pk_seen(e.rows@, t.primary_key@, r, v) {
                Some(DataError::DuplicatePrimaryKey { table: e.table, row: r as usize, column: t.primary_key, value: v })
            } else {
                None
            },
        },
    }
}

pub open spec fn row_checks(t: TableConfig, e: TableRows) -> spec_fn(int) -> Option<DataError> {
    |r: int| row_error(t, e, r)
}

pub open spec fn entry_error(s: SchemaConfig, e: TableRows) -> Option<DataError> {
    match table_named(s, e.table@) {
        None => Some(DataError::UnknownTable { table: e.table }),
        Some(t) => first_index_some(e.rows@.len() as int, row_checks(t, e)),
    }
}

pub open spec fn entry_checks(s: SchemaConfig, d: DataFile) -> spec_fn(int) -> Option<DataError> {
    |i: int| entry_error(s, d.tables@[i])
}

pub open spec fn fk_row_error(d: DataFile, t: TableConfig, k: int, rows: Seq<Row>, i: int) -> Option<DataError> {
    let fk = t.foreign_keys@[k];
    match cell(rows[i], fk.column@) {
        Some(v) => if !has_target(target_rows(d, fk.references.table@), fk.references.column@, v) {
            Some(DataError::FkTargetMissing {
                table: t.name,
                row: i as usize,
                column: fk.column,
                value: v,
                target_table: fk.references.table,
                target_column: fk.references.column,
            })
        } else {
            None
        },
        None => None,
    }
}

pub open spec fn fk_row_checks(d: DataFile, t: TableConfig, k: int, rows: Seq<Row>) -> spec_fn(int) -> Option<DataError> {
    |i: int| fk_row_error(d, t, k, rows, i)
}

pub open spec fn fk_checks(d: DataFile, t: TableConfig, rows: Seq<Row>) -> spec_fn(int) -> Option<DataError> {
    |k: int| first_index_some(rows.len() as int, fk_row_checks(d, t, k, rows))
}

/// The first foreign-key fault of a schema table: keys in order, rows in order.
pub open spec fn table_fk_error(d: DataFile, t: TableConfig) -> Option<DataError> {
    match rows_named(d, t.name@) {
        None => None,
        Some(rows) => first_index_some(t.foreign_keys@.len() as int, fk_checks(d, t, rows)),
    }
}

pub open spec fn table_fk_checks(s: SchemaConfig, d: DataFile) -> spec_fn(int) -> Option<DataError> {
    |i: int| table_fk_error(d, s.tables@[i])
}

/// The first fault of a dataset: entries in order (table, then each row's
/// cells and primary key); then foreign keys, schema tables in order.
pub open spec fn data_error(s: SchemaConfig, d: DataFile) -> Option<DataError> {
    match first_index_some(d.tables@.len() as int, entry_checks(s, d)) {
        Some(e) => Some(e),
        None => first_index_some(s.tables@.len() as int, table_fk_checks(s, d)),
    }
}

pub open spec fn data_result(s: SchemaConfig, d: DataFile) -> Result<(), DataError> {
    match data_error(s, d) {
        Some(e) => Err(e),
        None => Ok(()),
    }
}

/// The cell names a column of the table and holds a value of its type.
pub open spec fn cell_fits(t: TableConfig, c: (String, FieldValue)) -> bool {
    match column_named(t, c.0@) {
        Some(col) => type_matches(col.col_type@, c.1),
        None => false,
    }
}

/// Every cell names a column of the table and holds a value of its declared
/// type; the primary key is present and differs from every earlier row's.
pub open spec fn row_ok(t: TableConfig, rows: Seq<Row>, r: int) -> bool {
    &&& forall|k: int| 0 <= k < rows[r].cells@.len() ==> #[trigger] cell_fits(t, rows[r].cells@[k])
    &&& cell(rows[r], t.primary_key@) matches Some(v) && !pk_seen(rows, t.primary_key@, r, v)
}

/// The entry names a schema table and each of its rows fits that table.
pub open spec fn entry_ok(s: SchemaConfig, e: TableRows) -> bool {
    table_named(s, e.table@) matches Some(t) && forall|r: int| 0 <= r < e.rows@.len() ==> #[trigger] row_ok(t, e.rows@, r)
}

/// The row's value for the foreign key, if present, is held by some row of
/// the referenced table in the referenced column.
pub open spec fn fk_value_ok(d: DataFile, fk: ForeignKeyConfig, row: Row) -> bool {
    match cell(row, fk.column@) {
        Some(v) => has_target(target_rows(d, fk.references.table@), fk.references.column@, v),
        None => true,
    }
}

/// Every foreign-key value present in the table's rows exists in the
/// referenced table.
pub open spec fn fks_ok(d: DataFile, t: TableConfig) -> bool {
    match rows_named(d, t.name@) {
        Some(rows) => forall|k: int, i: int| 0 <= k < t.foreign_keys@.len() && 0 <= i < rows.len() ==>
            #[trigger] fk_value_ok(d, t.foreign_keys@[k], rows[i]),
        None => true,
    }
}

/// The dataset satisfies the load-time invariants against the schema.
pub open spec fn data_valid(s: SchemaConfig, d: DataFile) -> bool {
    &&& forall|i: int| 0 <= i < d.tables@.len() ==> #[trigger] entry_ok(s, d.tables@[i])
    &&& forall|i: int| 0 <= i < s.tables@.len() ==> #[trigger] fks_ok(d, s.tables@[i])
}

proof fn lemma_row_error_none(t: TableConfig, e: TableRows, r: int)
    requires
        0 <= r < e.rows@.len(),
    ensures
        row_error(t, e, r) is None <==> row_ok(t, e.rows@, r),
{
    let f = cell_checks(t, e, r);
    let row = e.rows@[r];
    let n = row.cells@.len() as int;
    lemma_first_index_none(n, f);
    if first_index_some(n, f) is None {
        assert forall|k: int| 0 <= k < n implies #[trigger] cell_fits(t, row.cells@[k]) by {
            assert(f(k) is None);
        }
    }
    if forall|k: int| 0 <= k < n ==> #[trigger] cell_fits(t, row.cells@[k]) {
        assert forall|k: int| 0 <= k < n implies (#[trigger] f(k)) is None by {
            assert(cell_fits(t, row.cells@[k]));
        }
    }
}

proof fn lemma_entry_error_none(s: SchemaConfig, e: TableRows)
    ensures
        entry_error(s, e) is None <==> entry_ok(s, e),
{
    if let Some(t) = table_named(s, e.table@) {
        let f = row_checks(t, e);
        let n = e.rows@.len() as int;
        lemma_first_index_none(n, f);
        if first_index_some(n, f) is None {
            assert forall|r: int| 0 <= r < n implies #[trigger] row_ok(t, e.rows@, r) by {
                assert(f(r) is None);
                lemma_row_error_none(t, e, r);
            }
        }
        if forall|r: int| 0 <= r < n ==> #[trigger] row_ok(t, e.rows@, r) {
            assert forall|r: int| 0 <= r < n implies (#[trigger] f(r)) is None by {
                assert(row_ok(t, e.rows@, r));
                lemma_row_error_none(t, e, r);
            }
        }
    }
}

proof fn lemma_table_fk_error_none(d: DataFile, t: TableConfig)
    ensures
        table_fk_error(d, t) is None <==> fks_ok(d, t),
{
    if let Some(rows) = rows_named(d, t.name@) {
        let f = fk_checks(d, t, rows);
        let n = t.foreign_keys@.len() as int;
        lemma_first_index_none(n, f);
        if first_index_some(n, f) is None {
            assert forall|k: int, i: int| 0 <= k < n && 0 <= i < rows.len() implies #[trigger] fk_value_ok(d, t.foreign_keys@[k], rows[i]) by {
                assert(f(k) is None);
                let g = fk_row_checks(d, t, k, rows);
                lemma_first_index_none(rows.len() as int, g);
                assert(g(i) is None);
            }
        }
        if fks_ok(d, t) {
            assert forall|k: int| 0 <= k < n implies (#[trigger] f(k)) is None by {
                let g = fk_row_checks(d, t, k, rows);
                lemma_first_index_none(rows.len() as int, g);
                assert forall|i: int| 0 <= i < rows.len() implies (#[trigger] g(i)) is None by {
                    assert(fk_value_ok(d, t.foreign_keys@[k], rows[i]));
                }
            }
        }
    }
}

/// A dataset passes validation exactly when it satisfies the load-time
/// invariants: known tables and columns, values of the declared types,
/// present and unique primary keys, and foreign-key values that exist in the
/// referenced table.
pub proof fn lemma_valid_data_accepted(s: SchemaConfig, d: DataFile)
    ensures
        data_error(s, d) is None <==> data_valid(s, d),
        data_result(s, d) is Ok <==> data_valid(s, d),
{
    let f = entry_checks(s, d);
    let g = table_fk_checks(s, d);
    let n = d.tables@.len() as int;
    let m = s.tables@.len() as int;
    lemma_first_index_none(n, f);
    lemma_first_index_none(m, g);
    if first_index_some(n, f) is None {
        assert forall|i: int| 0 <= i < n implies #[trigger] entry_ok(s, d.tables@[i]) by {
            assert(f(i) is None);
            lemma_entry_error_none(s, d.tables@[i]);
        }
    }
    if forall|i: int| 0 <= i < n ==> #[trigger] entry_ok(s, d.tables@[i]) {
        assert forall|i: int| 0 <= i < n implies (#[trigger] f(i)) is None by {
            assert(entry_ok(s, d.tables@[i]));
            lemma_entry_error_none(s, d.tables@[i]);
        }
    }
    if first_index_some(m, g) is None {
        assert forall|i: int| 0 <= i < m implies #[trigger] fks_ok(d, s.tables@[i]) by {
            assert(g(i) is None);
            lemma_table_fk_error_none(d, s.tables@[i]);
        }
    }
    if forall|i: int| 0 <= i < m ==> #[trigger] fks_ok(d, s.tables@[i]) {
        assert forall|i: int| 0 <= i < m implies (#[trigger] g(i)) is None by {
            assert(fks_ok(d, s.tables@[i]));
            lemma_table_fk_error_none(d, s.tables@[i]);
        }
    }
}

/// A copy of a value.
pub fn copy_value(v: &FieldValue) -> (r: FieldValue)
    ensures
        r == *v,
{
    match v {
        FieldValue::Null => FieldValue::Null,
        FieldValue::Bool(b) => FieldValue::Bool(*b),
        FieldValue::Int(i) => FieldValue::Int(*i),
        FieldValue::Float(x) => FieldValue::Float(x.clone()),
        FieldValue::Text(x) => FieldValue::Text(x.clone()),
        FieldValue::Other(x) => FieldValue::Other(x.clone()),
    }
}

/// The error names table `table` and row `row`.
pub open spec fn located_at(err: DataError, table: Seq<char>, row: int) -> bool {
    match err {
        DataError::UnknownTable { .. } => false,
        DataError::UnknownColumn { table: t, row: r, .. } => t@ == table && r == row,
        DataError::TypeMismatch { table: t, row: r, .. } => t@ == table && r == row,
        DataError::MissingPrimaryKey { table: t, row: r, .. } => t@ == table && r == row,
        DataError::DuplicatePrimaryKey { table: t, row: r, .. } => t@ == table && r == row,
        DataError::FkTargetMissing { table: t, row: r, .. } => t@ == table && r == row,
    }
}

/// A row that breaks a row invariant (an unknown column, a value of the
/// wrong type, a missing or repeated primary key) in a dataset where every
/// other entry and every other row is sound makes validation fail, and the
/// error names that row's table and index.
pub proof fn lemma_single_bad_row(s: SchemaConfig, d: DataFile, e: int, r: int)
    requires
        0 <= e < d.tables@.len(),
        0 <= r < d.tables@[e].rows@.len(),
        r <= usize::MAX,
        forall|i: int| 0 <= i < d.tables@.len() && i != e ==> #[trigger] entry_ok(s, d.tables@[i]),
        table_named(s, d.tables@[e].table@) is Some,
        forall|j: int| 0 <= j < d.tables@[e].rows@.len() && j != r ==>
            #[trigger] row_ok(table_named(s, d.tables@[e].table@)->Some_0, d.tables@[e].rows@, j),
        !row_ok(table_named(s, d.tables@[e].table@)->Some_0, d.tables@[e].rows@, r),
    ensures
        data_error(s, d) matches Some(err) && located_at(err, d.tables@[e].table@, r),
        data_result(s, d) is Err,
        ({
            let t = table_named(s, d.tables@[e].table@)->Some_0;
            let row = d.tables@[e].rows@[r];
            let err = data_error(s, d)->Some_0;
            &&& data_error(s, d) == row_error(t, d.tables@[e], r)
            &&& (exists|k: int| 0 <= k < row.cells@.len() && !cell_fits(t, #[trigger] row.cells@[k]))
                ==> (err is UnknownColumn || err is TypeMismatch) && exists|k: int| 0 <= k < row.cells@.len()
                    && !cell_fits(t, #[trigger] row.cells@[k])
                    && (forall|j: int| 0 <= j < k ==> cell_fits(t, #[trigger] row.cells@[j]))
                    && Some(err) == cell_error(t, d.tables@[e], r, k)
            &&& (forall|k: int| 0 <= k < row.cells@.len() ==> cell_fits(t, #[trigger] row.cells@[k]))
                ==> match cell(row, t.primary_key@) {
                    None => err == DataError::MissingPrimaryKey {
                        table: d.tables@[e].table, row: r as usize, column: t.primary_key },
                    Some(v) => err == DataError::DuplicatePrimaryKey {
                        table: d.tables@[e].table, row: r as usize, column: t.primary_key, value: v },
                }
        }),
{
    let entry = d.tables@[e];
    let t = table_named(s, entry.table@)->Some_0;
    let rf = row_checks(t, entry);
    assert forall|j: int| 0 <= j < r implies (#[trigger] rf(j)) is None by {
        lemma_row_error_none(t, entry, j);
    }
    lemma_first_index_none(r, rf);
    lemma_row_error_none(t, entry, r);
    assert(first_index_some(r + 1, rf) == row_error(t, entry, r));
    lemma_first_index_prefix(r + 1, entry.rows@.len() as int, rf);
    let row = entry.rows@[r];
    let cf = cell_checks(t, entry, r);
    lemma_first_index_none(row.cells@.len() as int, cf);
    if first_index_some(row.cells@.len() as int, cf) is Some {
        lemma_first_index_witness(row.cells@.len() as int, cf);
    }
    if exists|k: int| 0 <= k < row.cells@.len() && !cell_fits(t, #[trigger] row.cells@[k]) {
        let k = choose|k: int| 0 <= k < row.cells@.len() && !cell_fits(t, #[trigger] row.cells@[k]);
        assert(cf(k) is Some);
        lemma_first_index_witness(row.cells@.len() as int, cf);
        let w = choose|w: int| 0 <= w < row.cells@.len() && (#[trigger] cf(w)) == first_index_some(row.cells@.len() as int, cf)
            && forall|j: int| 0 <= j < w ==> (#[trigger] cf(j)) is None;
        assert(!cell_fits(t, row.cells@[w]));
        assert forall|j: int| 0 <= j < w implies cell_fits(t, #[trigger] row.cells@[j]) by {
            assert(cf(j) is None);
        }
    }
    if forall|k: int| 0 <= k < row.cells@.len() ==> cell_fits(t, #[trigger] row.cells@[k]) {
        assert forall|k: int| 0 <= k < row.cells@.len() implies (#[trigger] cf(k)) is None by {
            assert(cell_fits(t, row.cells@[k]));
        }
    }
    assert(located_at(row_error(t, entry, r)->Some_0, entry.table@, r));
    let ef = entry_checks(s, d);
    assert forall|i: int| 0 <= i < e implies (#[trigger] ef(i)) is None by {
        lemma_entry_error_none(s, d.tables@[i]);
    }
    lemma_first_index_none(e, ef);
    assert(ef(e) == entry_error(s, entry));
    assert(first_index_some(e + 1, ef) == ef(e));
    lemma_first_index_prefix(e + 1, d.tables@.len() as int, ef);
}

/// An entry for a table the schema does not declare, after entries that are
/// all sound, makes validation fail with `UnknownTable` naming it.
pub proof fn lemma_unknown_table(s: SchemaConfig, d: DataFile, e: int)
    requires
        0 <= e < d.tables@.len(),
        forall|i: int| 0 <= i < e ==> #[trigger] entry_ok(s, d.tables@[i]),
        table_named(s, d.tables@[e].table@) is None,
    ensures
        data_error(s, d) == Some(DataError::UnknownTable { table: d.tables@[e].table }),
{
    let ef = entry_checks(s, d);
    assert forall|i: int| 0 <= i < e implies (#[trigger] ef(i)) is None by {
        lemma_entry_error_none(s, d.tables@[i]);
    }
    lemma_first_index_none(e, ef);
    assert(first_index_some(e + 1, ef) == ef(e));
    lemma_first_index_prefix(e + 1, d.tables@.len() as int, ef);
}

/// A foreign-key value that no row of the referenced table holds, in a
/// dataset that is otherwise sound, makes validation fail with
/// `FkTargetMissing`, naming that row's table and index.
pub proof fn lemma_single_dangling_key(s: SchemaConfig, d: DataFile, ti: int, k: int, i: int)
    requires
        0 <= ti < s.tables@.len(),
        rows_named(d, s.tables@[ti].name@) is Some,
        0 <= k < s.tables@[ti].foreign_keys@.len(),
        0 <= i < rows_named(d, s.tables@[ti].name@)->Some_0.len(),
        i <= usize::MAX,
        forall|x: int| 0 <= x < d.tables@.len() ==> #[trigger] entry_ok(s, d.tables@[x]),
        forall|x: int| 0 <= x < s.tables@.len() && x != ti ==> #[trigger] fks_ok(d, s.tables@[x]),
        forall|k2: int, i2: int|
            0 <= k2 < s.tables@[ti].foreign_keys@.len() && 0 <= i2 < rows_named(d, s.tables@[ti].name@)->Some_0.len()
                && (k2 != k || i2 != i) ==> #[trigger] fk_value_ok(
                d, s.tables@[ti].foreign_keys@[k2], rows_named(d, s.tables@[ti].name@)->Some_0[i2]),
        !fk_value_ok(d, s.tables@[ti].foreign_keys@[k], rows_named(d, s.tables@[ti].name@)->Some_0[i]),
    ensures
        data_error(s, d) matches Some(err) && err is FkTargetMissing && located_at(err, s.tables@[ti].name@, i),
        ({
            let t = s.tables@[ti];
            let fk = t.foreign_keys@[k];
            let row = rows_named(d, t.name@)->Some_0[i];
            data_error(s, d) == Some(DataError::FkTargetMissing {
                table: t.name,
                row: i as usize,
                column: fk.column,
                value: cell(row, fk.column@)->Some_0,
                target_table: fk.references.table,
                target_column: fk.references.column,
            })
        }),
{
    let t = s.tables@[ti];
    let rows = rows_named(d, t.name@)->Some_0;
    lemma_valid_data_accepted(s, d);
    let ef = entry_checks(s, d);
    assert forall|x: int| 0 <= x < d.tables@.len() implies (#[trigger] ef(x)) is None by {
        lemma_entry_error_none(s, d.tables@[x]);
    }
    lemma_first_index_none(d.tables@.len() as int, ef);
    let g = fk_row_checks(d, t, k, rows);
    assert forall|x: int| 0 <= x < i implies (#[trigger] g(x)) is None by {
        assert(fk_value_ok(d, t.foreign_keys@[k], rows[x]));
    }
    lemma_first_index_none(i, g);
    assert(g(i) is Some);
    assert(first_index_some(i + 1, g) == g(i));
    lemma_first_index_prefix(i + 1, rows.len() as int, g);
    let f = fk_checks(d, t, rows);
    assert forall|x: int| 0 <= x < k implies (#[trigger] f(x)) is None by {
        let gx = fk_row_checks(d, t, x, rows);
        assert forall|y: int| 0 <= y < rows.len() implies (#[trigger] gx(y)) is None by {
            assert(fk_value_ok(d, t.foreign_keys@[x], rows[y]));
        }
        lemma_first_index_none(rows.len() as int, gx);
    }
    lemma_first_index_none(k, f);
    assert(first_index_some(k + 1, f) == f(k));
    lemma_first_index_prefix(k + 1, t.foreign_keys@.len() as int, f);
    let tf = table_fk_checks(s, d);
    assert forall|x: int| 0 <= x < ti implies (#[trigger] tf(x)) is None by {
        lemma_table_fk_error_none(d, s.tables@[x]);
    }
    lemma_first_index_none(ti, tf);
    assert(first_index_some(ti + 1, tf) == tf(ti));
    lemma_first_index_prefix(ti + 1, s.tables@.len() as int, tf);
}

fn same_text(a: &String, b: &String) -> (r: bool)
    ensures
        r == (a@ == b@),
{
    str_eq(a.as_str(), b.as_str())
}

fn is_zero_exec(x: &String) -> (r: bool)
    ensures
        r == is_zero_text(x@),
{
    str_eq(x.as_str(), "0.0") || str_eq(x.as_str(), "-0.0")
}

fn same_value_exec(a: &FieldValue, b: &FieldValue) -> (r: bool)
    ensures
        r == same_value(*a, *b),
{
    match (a, b) {
        (FieldValue::Null, FieldValue::Null) => true,
        (FieldValue::Bool(x), FieldValue::Bool(y)) => *x == *y,
        (FieldValue::Int(x), FieldValue::Int(y)) => *x == *y,
        (FieldValue::Float(x), FieldValue::Float(y)) => same_text(x, y) || (is_zero_exec(x) && is_zero_exec(y)),
        (FieldValue::Text(x), FieldValue::Text(y)) => same_text(x, y),
        (FieldValue::Other(x), FieldValue::Other(y)) => same_text(x, y),
        _ => false,
    }
}

fn validate_type(ty: &str, v: &FieldValue) -> (r: bool)
    ensures
        r == type_matches(ty@, *v),
{
    match v {
        FieldValue::Int(_) => str_eq(ty, "int"),
        FieldValue::Float(_) => str_eq(ty, "float"),
        FieldValue::Text(_) => str_eq(ty, "text"),
        FieldValue::Bool(_) => str_eq(ty, "bool"),
        _ => {
            proof {
                reveal_strlit("int");
                reveal_strlit("float");
                reveal_strlit("text");
                reveal_strlit("bool");
            }
            false
        },
    }
}

/// The index of the first cell named `col`.
pub(crate) fn find_cell(row: &Row, col: &str) -> (r: Option<usize>)
    ensures
        match r {
            Some(k) => k < row.cells@.len() && cell(*row, col@) == Some(row.cells@[k as int].1),
            None => cell(*row, col@) is None,
        },
{
    let ghost f = cell_pick(*row, col@);
    let mut k: usize = 0;
    while k < row.cells.len()
        invariant
            f == cell_pick(*row, col@),
            0 <= k <= row.cells@.len(),
            first_index_some(k as int, f) is None,
        decreases row.cells@.len() - k,
    {
        if str_eq(row.cells[k].0.as_str(), col) {
            proof { lemma_first_index_prefix(k as int + 1, row.cells@.len() as int, f); }
            return Some(k);
        }
        k = k + 1;
    }
    None
}

pub(crate) fn find_table(s: &SchemaConfig, name: &str) -> (r: Option<usize>)
    ensures
        match r {
            Some(i) => i < s.tables@.len() && table_named(*s, name@) == Some(s.tables@[i as int]),
            None => table_named(*s, name@) is None,
        },
{
    let ghost f = table_pick(*s, name@);
    let mut i: usize = 0;
    while i < s.tables.len()
        invariant
            f == table_pick(*s, name@),
            0 <= i <= s.tables@.len(),
            first_index_some(i as int, f) is None,
        decreases s.tables@.len() - i,
    {
        if str_eq(s.tables[i].name.as_str(), name) {
            proof { lemma_first_index_prefix(i as int + 1, s.tables@.len() as int, f); }
            return Some(i);
        }
        i = i + 1;
    }
    None
}

fn find_column(t: &TableConfig, name: &str) -> (r: Option<usize>)
    ensures
        match r {
            Some(j) => j < t.columns@.len() && column_named(*t, name@) == Some(t.columns@[j as int]),
            None => column_named(*t, name@) is None,
        },
{
    let ghost f = column_pick(*t, name@);
    let mut j: usize = 0;
    while j < t.columns.len()
        invariant
            f == column_pick(*t, name@),
            0 <= j <= t.columns@.len(),
            first_index_some(j as int, f) is None,
        decreases t.columns@.len() - j,
    {
        if str_eq(t.columns[j].name.as_str(), name) {
            proof { lemma_first_index_prefix(j as int + 1, t.columns@.len() as int, f); }
            return Some(j);
        }
        j = j + 1;
    }
    None
}

fn find_rows(d: &DataFile, name: &str) -> (r: Option<usize>)
    ensures
        match r {
            Some(i) => i < d.tables@.len() && rows_named(*d, name@) == Some(d.tables@[i as int].rows@),
            None => rows_named(*d, name@) is None,
        },
{
    let ghost f = rows_pick(*d, name@);
    let mut i: usize = 0;
    while i < d.tables.len()
        invariant
            f == rows_pick(*d, name@),
            0 <= i <= d.tables@.len(),
            first_index_some(i as int, f) is None,
        decreases d.tables@.len() - i,
    {
        if str_eq(d.tables[i].table.as_str(), name) {
            proof { lemma_first_index_prefix(i as int + 1, d.tables@.len() as int, f); }
            return Some(i);
        }
        i = i + 1;
    }
    None
}

fn holds_value_exec(row: &Row, col: &str, v: &FieldValue) -> (r: bool)
    ensures
        r == holds_value(*row, col@, *v),
{
    match find_cell(row, col) {
        Some(k) => same_value_exec(v, &row.cells[k].1),
        None => false,
    }
}

fn check_cell(t: &TableConfig, e: &TableRows, r: usize, k: usize) -> (res: Option<DataError>)
    requires
        r < e.rows@.len(),
        k < e.rows@[r as int].cells@.len(),
    ensures
        res == cell_error(*t, *e, r as int, k as int),
{
    let c = &e.rows[r].cells[k];
    match find_column(t, c.0.as_str()) {
        None => Some(DataError::UnknownColumn { table: e.table.clone(), row: r, column: c.0.clone() }),
        Some(j) => if !validate_type(t.columns[j].col_type.as_str(), &c.1) {
            Some(DataError::TypeMismatch {
                table: e.table.clone(),
                row: r,
                column: c.0.clone(),
                col_type: t.columns[j].col_type.clone(),
                value: copy_value(&c.1),
            })
        } else {
            None
        },
    }
}

fn check_row(t: &TableConfig, e: &TableRows, r: usize) -> (res: Option<DataError>)
    requires
        r < e.rows@.len(),
    ensures
        res == row_error(*t, *e, r as int),
{
    let row = &e.rows[r];
    let ghost f = cell_checks(*t, *e, r as int);
    let mut k: usize = 0;
    while k < row.cells.len()
        invariant
            f == cell_checks(*t, *e, r as int),
            r < e.rows@.len(),
            *row == e.rows@[r as int],
            0 <= k <= row.cells@.len(),
            first_index_some(k as int, f) is None,
        decreases row.cells@.len() - k,
    {
        let err = check_cell(t, e, r, k);
        if err.is_some() {
            proof { lemma_first_index_prefix(k as int + 1, row.cells@.len() as int, f); }
            return err;
        }
        k = k + 1;
    }
    let pk = t.primary_key.as_str();
    match find_cell(row, pk) {
        None => Some(DataError::MissingPrimaryKey { table: e.table.clone(), row: r, column: t.primary_key.clone() }),
        Some(pi) => {
            let v = &row.cells[pi].1;
            let mut j: usize = 0;
            while j < r
                invariant
                    r < e.rows@.len(),
                    *row == e.rows@[r as int],
                    f == cell_checks(*t, *e, r as int),
                    first_index_some(row.cells@.len() as int, f) is None,
                    cell(*row, pk@) == Some(*v),
                    pk@ == t.primary_key@,
                    0 <= j <= r,
                    forall|m: int| 0 <= m < j ==> !(#[trigger] holds_value(e.rows@[m], pk@, *v)),
                decreases r - j,
            {
                if holds_value_exec(&e.rows[j], pk, v) {
                    assert(pk_seen(e.rows@, pk@, r as int, *v));
                    return Some(DataError::DuplicatePrimaryKey {
                        table: e.table.clone(),
                        row: r,
                        column: t.primary_key.clone(),
                        value: copy_value(v),
                    });
                }
                j = j + 1;
            }
            None
        },
    }
}

fn check_entry(s: &SchemaConfig, e: &TableRows) -> (res: Option<DataError>)
    ensures
        res == entry_error(*s, *e),
{
    match find_table(s, e.table.as_str()) {
        None => Some(DataError::UnknownTable { table: e.table.clone() }),
        Some(ti) => {
            let t = &s.tables[ti];
            let ghost f = row_checks(*t, *e);
            let mut r: usize = 0;
            while r < e.rows.len()
                invariant
                    f == row_checks(*t, *e),
                    table_named(*s, e.table@) == Some(*t),
                    0 <= r <= e.rows@.len(),
                    first_index_some(r as int, f) is None,
                decreases e.rows@.len() - r,
            {
                let err = check_row(t, e, r);
                if err.is_some() {
                    proof { lemma_first_index_prefix(r as int + 1, e.rows@.len() as int, f); }
                    return err;
                }
                r = r + 1;
            }
            None
        },
    }
}

fn has_target_exec(rows: &Vec<Row>, col: &str, v: &FieldValue) -> (r: bool)
    ensures
        r == has_target(rows@, col@, *v),
{
    let mut i: usize = 0;
    while i < rows.len()
        invariant
            0 <= i <= rows@.len(),
            forall|m: int| 0 <= m < i ==> !(#[trigger] holds_value(rows@[m], col@, *v)),
        decreases rows@.len() - i,
    {
        if holds_value_exec(&rows[i], col, v) {
            return true;
        }
        i = i + 1;
    }
    false
}

fn check_fk(d: &DataFile, t: &TableConfig, k: usize, rows: &Vec<Row>) -> (res: Option<DataError>)
    requires
        k < t.foreign_keys@.len(),
    ensures
        res == first_index_some(rows@.len() as int, fk_row_checks(*d, *t, k as int, rows@)),
{
    let fk = &t.foreign_keys[k];
    let targets: Vec<Row> = Vec::new();
    let ghost f = fk_row_checks(*d, *t, k as int, rows@);
    let ti = find_rows(d, fk.references.table.as_str());
    let target: &Vec<Row> = match ti {
        Some(x) => &d.tables[x].rows,
        None => &targets,
    };
    assert(target@ == target_rows(*d, fk.references.table@));
    let mut i: usize = 0;
    while i < rows.len()
        invariant
            f == fk_row_checks(*d, *t, k as int, rows@),
            k < t.foreign_keys@.len(),
            *fk == t.foreign_keys@[k as int],
            target@ == target_rows(*d, fk.references.table@),
            0 <= i <= rows@.len(),
            first_index_some(i as int, f) is None,
        decreases rows@.len() - i,
    {
        match find_cell(&rows[i], fk.column.as_str()) {
            Some(c) => {
                if !has_target_exec(target, fk.references.column.as_str(), &rows[i].cells[c].1) {
                    proof { lemma_first_index_prefix(i as int + 1, rows@.len() as int, f); }
                    return Some(DataError::FkTargetMissing {
                        table: t.name.clone(),
                        row: i,
                        column: fk.column.clone(),
                        value: copy_value(&rows[i].cells[c].1),
                        target_table: fk.references.table.clone(),
                        target_column: fk.references.column.clone(),
                    });
                }
            },
            None => {},
        }
        i = i + 1;
    }
    None
}

fn check_table_fks(d: &DataFile, t: &TableConfig) -> (res: Option<DataError>)
    ensures
        res == table_fk_error(*d, *t),
{
    match find_rows(d, t.name.as_str()) {
        None => None,
        Some(ri) => {
            let rows = &d.tables[ri].rows;
            let ghost f = fk_checks(*d, *t, rows@);
            let mut k: usize = 0;
            while k < t.foreign_keys.len()
                invariant
                    f == fk_checks(*d, *t, rows@),
                    rows_named(*d, t.name@) == Some(rows@),
                    0 <= k <= t.foreign_keys@.len(),
                    first_index_some(k as int, f) is None,
                decreases t.foreign_keys@.len() - k,
            {
                let err = check_fk(d, t, k, rows);
                if err.is_some() {
                    proof { lemma_first_index_prefix(k as int + 1, t.foreign_keys@.len() as int, f); }
                    return err;
                }
                k = k + 1;
            }
            None
        },
    }
}

/// Checks a dataset against a schema and reports its first fault.
pub fn validate(data: &DataFile, schema: &SchemaConfig) -> (r: Result<(), DataError>)
    ensures
        r == data_result(*schema, *data),
        r is Ok <==> data_valid(*schema, *data),
{
    proof { lemma_valid_data_accepted(*schema, *data); }
    scan_data(data, schema)
}

fn scan_data(data: &DataFile, schema: &SchemaConfig) -> (r: Result<(), DataError>)
    ensures
        r == data_result(*schema, *data),
{
    let ghost f = entry_checks(*schema, *data);
    let mut i: usize = 0;
    while i < data.tables.len()
        invariant
            f == entry_checks(*schema, *data),
            0 <= i <= data.tables@.len(),
            first_index_some(i as int, f) is None,
        decreases data.tables@.len() - i,
    {
        match check_entry(schema, &data.tables[i]) {
            Some(e) => {
                proof { lemma_first_index_prefix(i as int + 1, data.tables@.len() as int, f); }
                return Err(e);
            },
            None => {},
        }
        i = i + 1;
    }
    let ghost g = table_fk_checks(*schema, *data);
    let mut j: usize = 0;
    while j < schema.tables.len()
        invariant
            g == table_fk_checks(*schema, *data),
            f == entry_checks(*schema, *data),
            first_index_some(data.tables@.len() as int, f) is None,
            0 <= j <= schema.tables@.len(),
            first_index_some(j as int, g) is None,
        decreases schema.tables@.len() - j,
    {
        match check_table_fks(data, &schema.tables[j]) {
            Some(e) => {
                proof { lemma_first_index_prefix(j as int + 1, schema.tables@.len() as int, g); }
                return Err(e);
            },
            None => {},
        }
        j = j + 1;
    }
    Ok(())
}

/// Accepts a parsed dataset once it passes `validate` against the schema,
/// and hands it back.
pub fn load_data(data: DataFile, schema: &SchemaConfig) -> (r: Result<DataFile, DataError>)
    ensures
        r is Ok <==> data_valid(*schema, data),
        data_error(*schema, data) is None ==> r == Ok::<DataFile, DataError>(data),
        data_error(*schema, data) matches Some(e) ==> r == Err::<DataFile, DataError>(e),
{
    match validate(&data, schema) {
        Ok(()) => Ok(data),
        Err(e) => Err(e),
    }
}

} // verus!
