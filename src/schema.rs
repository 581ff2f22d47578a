//! The relational schema: tables, their columns, primary keys and foreign
//! keys, and the checks a schema must pass before anything is built on it.
use vstd::prelude::*;
use crate::text::{
    check_identifier, first_some, is_identifier, lemma_first_some_none, lemma_first_some_push,
    lemma_first_some_prefix, str_eq,
};

verus! {

#[derive(Debug, Clone)]
pub struct SchemaConfig {
    pub tables: Vec<TableConfig>,
}

#[derive(Debug, Clone)]
pub struct TableConfig {
    pub name: String,
    pub primary_key: String,
    pub columns: Vec<ColumnConfig>,
    pub foreign_keys: Vec<ForeignKeyConfig>,
}

#[derive(Debug, Clone)]
pub struct ColumnConfig {
    pub name: String,
    /// One of `int`, `float`, `text`, `bool`.
    pub col_type: String,
}

#[derive(Debug, Clone)]
pub struct ForeignKeyConfig {
    /// The referencing column of the owning table.
    pub column: String,
    pub references: ReferenceConfig,
}

#[derive(Debug, Clone)]
pub struct ReferenceConfig {
    pub table: String,
    pub column: String,
}

/// Why a schema was rejected; each names the table it was found in.
#[derive(Debug, Clone, PartialEq, Eq)]
pub enum SchemaError {
    /// A table, column or referenced column name that is not a plain
    /// letters/digits/underscore token.
    InvalidIdentifier { table: String, name: String },
    UnknownColumnType { table: String, column: String, col_type: String },
    PrimaryKeyNotAColumn { table: String, key: String },
    FkColumnNotFound { table: String, column: String },
    FkTargetTableNotFound { table: String, target: String },
}

/// The declared column types.
pub open spec fn is_column_type(t: Seq<char>) -> bool {
    t == "int"@ || t == "float"@ || t == "text"@ || t == "bool"@
}

pub open spec fn has_column(t: TableConfig, name: Seq<char>) -> bool {
    exists|i: int| 0 <= i < t.columns@.len() && (#[trigger] t.columns@[i]).name@ == name
}

pub open spec fn has_table(s: SchemaConfig, name: Seq<char>) -> bool {
    exists|i: int| 0 <= i < s.tables@.len() && (#[trigger] s.tables@[i]).name@ == name
}

pub open spec fn column_error(t: TableConfig, c: ColumnConfig) -> Option<SchemaError> {
    if !is_identifier(c.name@) {
        Some(SchemaError::InvalidIdentifier { table: t.name, name: c.name })
    } else if !is_column_type(c.col_type@) {
        Some(SchemaError::UnknownColumnType { table: t.name, column: c.name, col_type: c.col_type })
    } else {
        None
    }
}

pub open spec fn fk_error(s: SchemaConfig, t: TableConfig, fk: ForeignKeyConfig) -> Option<SchemaError> {
    if !has_column(t, fk.column@) {
        Some(SchemaError::FkColumnNotFound { table: t.name, column: fk.column })
    } else if !has_table(s, fk.references.table@) {
        Some(SchemaError::FkTargetTableNotFound { table: t.name, target: fk.references.table })
    } else if !is_identifier(fk.references.column@) {
        Some(SchemaError::InvalidIdentifier { table: t.name, name: fk.references.column })
    } else {
        None
    }
}

pub open spec fn column_checks(t: TableConfig) -> spec_fn(ColumnConfig) -> Option<SchemaError> {
    |c: ColumnConfig| column_error(t, c)
}

pub open spec fn fk_checks(s: SchemaConfig, t: TableConfig) -> spec_fn(ForeignKeyConfig) -> Option<SchemaError> {
    |fk: ForeignKeyConfig| fk_error(s, t, fk)
}

pub open spec fn table_checks(s: SchemaConfig) -> spec_fn(TableConfig) -> Option<SchemaError> {
    |t: TableConfig| table_error(s, t)
}

/// The first fault of a table: its name, then its columns in order, then its
/// primary key, then its foreign keys in order.
pub open spec fn table_error(s: SchemaConfig, t: TableConfig) -> Option<SchemaError> {
    if !is_identifier(t.name@) {
        Some(SchemaError::InvalidIdentifier { table: t.name, name: t.name })
    } else {
        match first_some(t.columns@, column_checks(t)) {
            Some(e) => Some(e),
            None => if !has_column(t, t.primary_key@) {
                Some(SchemaError::PrimaryKeyNotAColumn { table: t.name, key: t.primary_key })
            } else {
                first_some(t.foreign_keys@, fk_checks(s, t))
            },
        }
    }
}

/// The first fault of the schema, tables taken in order.
pub open spec fn schema_error(s: SchemaConfig) -> Option<SchemaError> {
    first_some(s.tables@, table_checks(s))
}

pub open spec fn column_ok(c: ColumnConfig) -> bool {
    is_identifier(c.name@) && is_column_type(c.col_type@)
}

pub open spec fn fk_ok(s: SchemaConfig, t: TableConfig, fk: ForeignKeyConfig) -> bool {
    &&& has_column(t, fk.column@)
    &&& has_table(s, fk.references.table@)
    &&& is_identifier(fk.references.column@)
}

pub open spec fn table_ok(s: SchemaConfig, t: TableConfig) -> bool {
    &&& is_identifier(t.name@)
    &&& forall|j: int| 0 <= j < t.columns@.len() ==> column_ok(#[trigger] t.columns@[j])
    &&& has_column(t, t.primary_key@)
    &&& forall|k: int| 0 <= k < t.foreign_keys@.len() ==> fk_ok(s, t, #[trigger] t.foreign_keys@[k])
}

/// A well-formed schema: every name is a simple identifier, every column has
/// a declared type, every primary key and foreign-key column is a column of
/// its table, and every foreign key targets a table of the schema.
pub open spec fn schema_valid(s: SchemaConfig) -> bool {
    forall|i: int| 0 <= i < s.tables@.len() ==> table_ok(s, #[trigger] s.tables@[i])
}

pub open spec fn schema_result(s: SchemaConfig) -> Result<(), SchemaError> {
    match schema_error(s) {
        Some(e) => Err(e),
        None => Ok(()),
    }
}

proof fn lemma_table_error_none(s: SchemaConfig, t: TableConfig)
    ensures
        table_error(s, t) is None <==> table_ok(s, t),
{
    let cf = column_checks(t);
    let ff = fk_checks(s, t);
    lemma_first_some_none(t.columns@, cf);
    lemma_first_some_none(t.foreign_keys@, ff);
    assert(forall|j: int| 0 <= j < t.columns@.len() ==> (cf(t.columns@[j]) is None <==> column_ok(#[trigger] t.columns@[j])));
    assert(forall|k: int| 0 <= k < t.foreign_keys@.len() ==> (ff(t.foreign_keys@[k]) is None <==> fk_ok(s, t, #[trigger] t.foreign_keys@[k])));
}

/// The schema passes its checks exactly when it is well formed.
pub proof fn lemma_schema_error_none(s: SchemaConfig)
    ensures
        schema_error(s) is None <==> schema_valid(s),
{
    let tf = table_checks(s);
    lemma_first_some_none(s.tables@, tf);
    assert forall|i: int| 0 <= i < s.tables@.len() implies (tf(s.tables@[i]) is None <==> table_ok(s, #[trigger] s.tables@[i])) by {
        lemma_table_error_none(s, s.tables@[i]);
    }
}

fn find_column(t: &TableConfig, name: &str) -> (r: bool)
    ensures
        r == has_column(*t, name@),
{
    let mut i: usize = 0;
    while i < t.columns.len()
        invariant
            0 <= i <= t.columns@.len(),
            forall|j: int| 0 <= j < i ==> (#[trigger] t.columns@[j]).name@ != name@,
        decreases t.columns@.len() - i,
    {
        if str_eq(t.columns[i].name.as_str(), name) {
            return true;
        }
        i = i + 1;
    }
    false
}

fn find_table(s: &SchemaConfig, name: &str) -> (r: bool)
    ensures
        r == has_table(*s, name@),
{
    let mut i: usize = 0;
    while i < s.tables.len()
        invariant
            0 <= i <= s.tables@.len(),
            forall|j: int| 0 <= j < i ==> (#[trigger] s.tables@[j]).name@ != name@,
        decreases s.tables@.len() - i,
    {
        if str_eq(s.tables[i].name.as_str(), name) {
            return true;
        }
        i = i + 1;
    }
    false
}

fn check_column_type(t: &str) -> (r: bool)
    ensures
        r == is_column_type(t@),
{
    str_eq(t, "int") || str_eq(t, "float") || str_eq(t, "text") || str_eq(t, "bool")
}

fn check_column(t: &TableConfig, c: &ColumnConfig) -> (r: Option<SchemaError>)
    ensures
        r == column_error(*t, *c),
{
    if !check_identifier(c.name.as_str()) {
        Some(SchemaError::InvalidIdentifier { table: t.name.clone(), name: c.name.clone() })
    } else if !check_column_type(c.col_type.as_str()) {
        Some(SchemaError::UnknownColumnType {
            table: t.name.clone(),
            column: c.name.clone(),
            col_type: c.col_type.clone(),
        })
    } else {
        None
    }
}

fn check_foreign_key(s: &SchemaConfig, t: &TableConfig, fk: &ForeignKeyConfig) -> (r: Option<SchemaError>)
    ensures
        r == fk_error(*s, *t, *fk),
{
    if !find_column(t, fk.column.as_str()) {
        Some(SchemaError::FkColumnNotFound { table: t.name.clone(), column: fk.column.clone() })
    } else if !find_table(s, fk.references.table.as_str()) {
        Some(SchemaError::FkTargetTableNotFound { table: t.name.clone(), target: fk.references.table.clone() })
    } else if !check_identifier(fk.references.column.as_str()) {
        Some(SchemaError::InvalidIdentifier { table: t.name.clone(), name: fk.references.column.clone() })
    } else {
        None
    }
}

fn check_table(s: &SchemaConfig, t: &TableConfig) -> (r: Option<SchemaError>)
    ensures
        r == table_error(*s, *t),
{
    if !check_identifier(t.name.as_str()) {
        return Some(SchemaError::InvalidIdentifier { table: t.name.clone(), name: t.name.clone() });
    }
    let ghost cf = column_checks(*t);
    let mut j: usize = 0;
    while j < t.columns.len()
        invariant
            0 <= j <= t.columns@.len(),
            cf == column_checks(*t),
            is_identifier(t.name@),
            first_some(t.columns@.take(j as int), cf) is None,
        decreases t.columns@.len() - j,
    {
        proof { lemma_first_some_push(t.columns@, j as int, cf); }
        let e = check_column(t, &t.columns[j]);
        if e.is_some() {
            proof { lemma_first_some_prefix(t.columns@, j as int + 1, cf); }
            return e;
        }
        j = j + 1;
    }
    assert(t.columns@.take(j as int) =~= t.columns@);
    if !find_column(t, t.primary_key.as_str()) {
        return Some(SchemaError::PrimaryKeyNotAColumn { table: t.name.clone(), key: t.primary_key.clone() });
    }
    let ghost ff = fk_checks(*s, *t);
    let mut k: usize = 0;
    while k < t.foreign_keys.len()
        invariant
            0 <= k <= t.foreign_keys@.len(),
            ff == fk_checks(*s, *t),
            is_identifier(t.name@),
            first_some(t.columns@, column_checks(*t)) is None,
            has_column(*t, t.primary_key@),
            first_some(t.foreign_keys@.take(k as int), ff) is None,
        decreases t.foreign_keys@.len() - k,
    {
        proof { lemma_first_some_push(t.foreign_keys@, k as int, ff); }
        let e = check_foreign_key(s, t, &t.foreign_keys[k]);
        if e.is_some() {
            proof { lemma_first_some_prefix(t.foreign_keys@, k as int + 1, ff); }
            return e;
        }
        k = k + 1;
    }
    assert(t.foreign_keys@.take(k as int) =~= t.foreign_keys@);
    None
}

/// Checks a schema, tables in order, and reports its first fault.
pub fn validate(s: &SchemaConfig) -> (r: Result<(), SchemaError>)
    ensures
        r == schema_result(*s),
        r is Ok <==> schema_valid(*s),
{
    let ghost tf = table_checks(*s);
    let mut i: usize = 0;
    while i < s.tables.len()
        invariant
            tf == table_checks(*s),
            0 <= i <= s.tables@.len(),
            first_some(s.tables@.take(i as int), tf) is None,
        decreases s.tables@.len() - i,
    {
        proof { lemma_first_some_push(s.tables@, i as int, tf); }
        let e = check_table(s, &s.tables[i]);
        match e {
            Some(err) => {
                proof {
                    lemma_first_some_prefix(s.tables@, i as int + 1, tf);
                    lemma_schema_error_none(*s);
                }
                return Err(err);
            },
            None => {},
        }
        i = i + 1;
    }
    assert(s.tables@.take(i as int) =~= s.tables@);
    proof { lemma_schema_error_none(*s); }
    Ok(())
}

/// Accepts a parsed schema once it passes `validate`, and hands it back.
pub fn load_config(schema: SchemaConfig) -> (r: Result<SchemaConfig, SchemaError>)
    ensures
        schema_error(schema) is None ==> r == Ok::<SchemaConfig, SchemaError>(schema),
        schema_error(schema) matches Some(e) ==> r == Err::<SchemaConfig, SchemaError>(e),
        r is Ok <==> schema_valid(schema),
{
    match validate(&schema) {
        Ok(()) => Ok(schema),
        Err(e) => Err(e),
    }
}

} // verus!
