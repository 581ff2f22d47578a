//! Statements and bindings that fill a fresh store: one `CREATE TABLE` per
//! schema table, and batched `INSERT`s whose values are bound as parameters,
//! never written into the statement text.
use vstd::prelude::*;
use crate::dataset::{cell, FieldValue, Row};
use crate::schema::{ColumnConfig, ForeignKeyConfig, TableConfig};

verus! {

/// The number of rows one `INSERT` statement carries.
pub const BATCH_SIZE: usize = 100;

/// How one value is handed to the engine as a statement parameter.
#[derive(Debug, Clone, PartialEq)]
pub enum Binding {
    Null,
    Bool(bool),
    /// An integer that fits 64 bits, bound natively.
    Int(i64),
    /// A wider integer, bound as a floating-point number.
    WideInt(i128),
    /// A floating-point number, in its decimal text form.
    Real(String),
    Text(String),
}

/// Texts joined by `", "`.
pub open spec fn join_comma(parts: Seq<Seq<char>>) -> Seq<char>
    decreases parts.len(),
{
    if parts.len() == 0 {
        Seq::empty()
    } else if parts.len() == 1 {
        parts[0]
    } else {
        join_comma(parts.drop_last()) + ", "@ + parts.last()
    }
}

pub open spec fn column_def(c: ColumnConfig) -> Seq<char> {
    c.name@ + " "@ + c.col_type@
}

pub open spec fn fk_def(fk: ForeignKeyConfig) -> Seq<char> {
    "FOREIGN KEY ("@ + fk.column@ + ") REFERENCES "@ + fk.references.table@ + "("@ + fk.references.column@ + ")"@
}

/// The column definitions, the primary key and the foreign keys of a table.
pub open spec fn table_parts(t: TableConfig) -> Seq<Seq<char>> {
    t.columns@.map_values(|c: ColumnConfig| column_def(c))
        + seq!["PRIMARY KEY ("@ + t.primary_key@ + ")"@]
        + t.foreign_keys@.map_values(|fk: ForeignKeyConfig| fk_def(fk))
}

pub open spec fn create_table_text(t: TableConfig) -> Seq<char> {
    "CREATE TABLE "@ + t.name@ + " ("@ + join_comma(table_parts(t)) + ")"@
}

/// `n` copies of a text.
pub open spec fn repeat(s: Seq<char>, n: nat) -> Seq<Seq<char>>
    decreases n,
{
    if n == 0 {
        seq![]
    } else {
        repeat(s, (n - 1) as nat).push(s)
    }
}

/// One `(?, ?, ...)` group with a placeholder per column.
pub open spec fn row_placeholders(n_cols: nat) -> Seq<char> {
    "("@ + join_comma(repeat("?"@, n_cols)) + ")"@
}

pub open spec fn insert_text(table: Seq<char>, cols: Seq<Seq<char>>, n_rows: nat) -> Seq<char> {
    "INSERT INTO "@ + table + " ("@ + join_comma(cols) + ") VALUES "@
        + join_comma(repeat(row_placeholders(cols.len()), n_rows))
}

/// How a value is bound: integers and texts natively, wide integers and
/// fractions as floating point, booleans as booleans, null as null, and
/// arrays or objects as their JSON text.
pub open spec fn binding_of(v: FieldValue) -> Binding {
    match v {
        FieldValue::Null => Binding::Null,
        FieldValue::Bool(b) => Binding::Bool(b),
        FieldValue::Int(i) => if i64::MIN <= i && i <= i64::MAX { Binding::Int(i as i64) } else { Binding::WideInt(i) },
        FieldValue::Float(x) => Binding::Real(x),
        FieldValue::Text(x) => Binding::Text(x),
        FieldValue::Other(x) => Binding::Text(x),
    }
}

pub fn bind_json_value(v: &FieldValue) -> (r: Binding)
    ensures
        r == binding_of(*v),
{
    match v {
        FieldValue::Null => Binding::Null,
        FieldValue::Bool(b) => Binding::Bool(*b),
        FieldValue::Int(i) => if i64::MIN as i128 <= *i && *i <= i64::MAX as i128 {
            Binding::Int(*i as i64)
        } else {
            Binding::WideInt(*i)
        },
        FieldValue::Float(x) => Binding::Real(x.clone()),
        FieldValue::Text(x) => Binding::Text(x.clone()),
        FieldValue::Other(x) => Binding::Text(x.clone()),
    }
}

/// Appends `part` to a comma-joined list of `k` parts.
fn push_joined(out: &mut String, first: bool, part: &str, Ghost(parts): Ghost<Seq<Seq<char>>>)
    requires
        parts.len() >= 1,
        first == (parts.len() == 1),
        parts.last() == part@,
        old(out)@ == join_comma(parts.drop_last()),
    ensures
        final(out)@ == join_comma(parts),
{
    if !first {
        out.append(", ");
    } else {
        assert(old(out)@ =~= Seq::<char>::empty());
    }
    out.append(part);
    if first {
        assert(final(out)@ =~= parts[0]);
    }
}

/// The `CREATE TABLE` statement of a schema table, with its columns, its
/// primary key and its foreign keys.
pub fn create_table(t: &TableConfig) -> (r: String)
    ensures
        r@ == create_table_text(*t),
{
    let ghost parts = table_parts(*t);
    let ghost nc: int = t.columns@.len() as int;
    let mut body = String::new();
    let mut j: usize = 0;
    while j < t.columns.len()
        invariant
            parts == table_parts(*t),
            nc == t.columns@.len(),
            parts.len() == nc + 1 + t.foreign_keys@.len(),
            0 <= j <= nc,
            body@ == join_comma(parts.take(j as int)),
        decreases nc - j,
    {
        let mut d = String::new();
        d.append(t.columns[j].name.as_str());
        d.append(" ");
        d.append(t.columns[j].col_type.as_str());
        assert(d@ =~= parts[j as int]);
        assert(parts.take(j as int + 1).drop_last() =~= parts.take(j as int));
        push_joined(&mut body, j == 0, d.as_str(), Ghost(parts.take(j as int + 1)));
        j = j + 1;
    }
    let mut pk = String::new();
    pk.append("PRIMARY KEY (");
    pk.append(t.primary_key.as_str());
    pk.append(")");
    assert(pk@ =~= parts[nc]);
    assert(parts.take(nc + 1).drop_last() =~= parts.take(nc));
    push_joined(&mut body, j == 0, pk.as_str(), Ghost(parts.take(nc + 1)));
    let mut k: usize = 0;
    while k < t.foreign_keys.len()
        invariant
            parts == table_parts(*t),
            nc == t.columns@.len(),
            parts.len() == nc + 1 + t.foreign_keys@.len(),
            0 <= k <= t.foreign_keys@.len(),
            body@ == join_comma(parts.take(nc + 1 + k as int)),
        decreases t.foreign_keys@.len() - k,
    {
        let fk = &t.foreign_keys[k];
        let mut d = String::new();
        d.append("FOREIGN KEY (");
        d.append(fk.column.as_str());
        d.append(") REFERENCES ");
        d.append(fk.references.table.as_str());
        d.append("(");
        d.append(fk.references.column.as_str());
        d.append(")");
        assert(d@ =~= parts[nc + 1 + k as int]);
        assert(parts.take(nc + 2 + k as int).drop_last() =~= parts.take(nc + 1 + k as int));
        push_joined(&mut body, false, d.as_str(), Ghost(parts.take(nc + 2 + k as int)));
        k = k + 1;
    }
    assert(parts.take(nc + 1 + k as int) =~= parts);
    let mut out = String::new();
    out.append("CREATE TABLE ");
    out.append(t.name.as_str());
    out.append(" (");
    out.append(body.as_str());
    out.append(")");
    assert(out@ =~= create_table_text(*t));
    out
}

/// The placeholders of one row: `(?, ?, ...)`, one per column.
fn placeholders(n_cols: usize) -> (r: String)
    ensures
        r@ == row_placeholders(n_cols as nat),
{
    let mut body = String::new();
    let mut j: usize = 0;
    while j < n_cols
        invariant
            0 <= j <= n_cols,
            body@ == join_comma(repeat("?"@, j as nat)),
        decreases n_cols - j,
    {
        assert(repeat("?"@, (j + 1) as nat).drop_last() =~= repeat("?"@, j as nat));
        push_joined(&mut body, j == 0, "?", Ghost(repeat("?"@, (j + 1) as nat)));
        j = j + 1;
    }
    let mut out = String::new();
    out.append("(");
    out.append(body.as_str());
    out.append(")");
    out
}

proof fn lemma_repeat_len(s: Seq<char>, n: nat)
    ensures
        repeat(s, n).len() == n,
    decreases n,
{
    if n > 0 {
        lemma_repeat_len(s, (n - 1) as nat);
    }
}

/// The `INSERT` statement for `n_rows` rows of a table, naming every
/// declared column, with one placeholder per value.
pub fn insert_statement(t: &TableConfig, n_rows: usize) -> (r: String)
    ensures
        r@ == insert_text(t.name@, t.columns@.map_values(|c: ColumnConfig| c.name@), n_rows as nat),
{
    let ghost names = t.columns@.map_values(|c: ColumnConfig| c.name@);
    let mut cols = String::new();
    let mut j: usize = 0;
    while j < t.columns.len()
        invariant
            names == t.columns@.map_values(|c: ColumnConfig| c.name@),
            0 <= j <= t.columns@.len(),
            cols@ == join_comma(names.take(j as int)),
        decreases t.columns@.len() - j,
    {
        assert(names.take(j as int + 1).drop_last() =~= names.take(j as int));
        push_joined(&mut cols, j == 0, t.columns[j].name.as_str(), Ghost(names.take(j as int + 1)));
        j = j + 1;
    }
    assert(names.take(j as int) =~= names);
    let one = placeholders(t.columns.len());
    let ghost group = row_placeholders(names.len());
    let mut rows = String::new();
    let mut i: usize = 0;
    while i < n_rows
        invariant
            group == row_placeholders(names.len()),
            one@ == group,
            0 <= i <= n_rows,
            rows@ == join_comma(repeat(group, i as nat)),
        decreases n_rows - i,
    {
        assert(repeat(group, (i + 1) as nat).drop_last() =~= repeat(group, i as nat));
        proof { lemma_repeat_len(group, (i + 1) as nat); }
        push_joined(&mut rows, i == 0, one.as_str(), Ghost(repeat(group, (i + 1) as nat)));
        i = i + 1;
    }
    let mut out = String::new();
    out.append("INSERT INTO ");
    out.append(t.name.as_str());
    out.append(" (");
    out.append(cols.as_str());
    out.append(") VALUES ");
    out.append(rows.as_str());
    assert(out@ =~= insert_text(t.name@, names, n_rows as nat));
    out
}

/// The binding of each declared column of the table for one row, in column
/// order; a column the row leaves out binds null.
pub open spec fn row_binding(t: TableConfig, row: Row, j: int) -> Binding {
    match cell(row, t.columns@[j].name@) {
        Some(v) => binding_of(v),
        None => Binding::Null,
    }
}

pub fn row_bindings(t: &TableConfig, row: &Row) -> (r: Vec<Binding>)
    ensures
        r@.len() == t.columns@.len(),
        forall|j: int| 0 <= j < r@.len() ==> r@[j] == row_binding(*t, *row, j),
{
    let mut out: Vec<Binding> = Vec::new();
    let mut j: usize = 0;
    while j < t.columns.len()
        invariant
            0 <= j <= t.columns@.len(),
            out@.len() == j,
            forall|m: int| 0 <= m < j ==> out@[m] == row_binding(*t, *row, m),
        decreases t.columns@.len() - j,
    {
        let b = match crate::dataset::find_cell(row, t.columns[j].name.as_str()) {
            Some(k) => bind_json_value(&row.cells[k].1),
            None => Binding::Null,
        };
        out.push(b);
        j = j + 1;
    }
    out
}

/// Splits `n` rows into consecutive batches of `size` rows (the last one
/// may be shorter), as (start, end) index pairs.
pub fn batches(n: usize, size: usize) -> (r: Vec<(usize, usize)>)
    requires
        size > 0,
    ensures
        forall|k: int| 0 <= k < r@.len() ==> (#[trigger] r@[k]).0 == k * size
            && r@[k].1 == if (k + 1) * size <= n { (k + 1) * size } else { n as int },
        r@.len() * size >= n,
        r@.len() > 0 ==> (r@.len() - 1) * size < n,
{
    let mut out: Vec<(usize, usize)> = Vec::new();
    let mut start: usize = 0;
    assert(out@.len() * size == 0) by (nonlinear_arith)
        requires out@.len() == 0;
    while start < n
        invariant
            size > 0,
            start <= n,
            start == if out@.len() * size <= n { out@.len() * size } else { n as int },
            out@.len() > 0 ==> (out@.len() - 1) * size < n,
            forall|k: int| 0 <= k < out@.len() ==> (#[trigger] out@[k]).0 == k * size
                && out@[k].1 == if (k + 1) * size <= n { (k + 1) * size } else { n as int },
        decreases n - start,
    {
        let end: usize = if n - start >= size { start + size } else { n };
        let ghost k = out@.len() as int;
        out.push((start, end));
        assert((k + 1) * size == k * size + size) by (nonlinear_arith);
        start = end;
    }
    out
}

} // verus!
