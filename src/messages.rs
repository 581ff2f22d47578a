//! The human-readable text of each error.
use vstd::prelude::*;
use crate::compiler::CompileError;
use crate::dataset::{DataError, FieldValue};
use crate::display::{decimal, decimal_string, value_string, value_text};
use crate::schema::SchemaError;
use crate::script::RunError;

verus! {

/// The value an error carries, if any.
pub open spec fn carried_value(e: DataError) -> Option<FieldValue> {
    match e {
        DataError::TypeMismatch { value, .. } => Some(value),
        DataError::DuplicatePrimaryKey { value, .. } => Some(value),
        DataError::FkTargetMissing { value, .. } => Some(value),
        _ => None,
    }
}

/// The message of a dataset error, with `shown` as the text of the value it
/// carries.
pub open spec fn data_message(e: DataError, shown: Seq<char>) -> Seq<char> {
    match e {
        DataError::UnknownTable { table } => "Data contains unknown table `"@ + table@ + "`"@,
        DataError::UnknownColumn { table, row, column } =>
            "Table `"@ + table@ + "` row "@ + decimal(row as nat) + ": unknown column `"@ + column@ + "`"@,
        DataError::TypeMismatch { table, row, column, col_type, .. } =>
            "Type error: `"@ + table@ + "` row "@ + decimal(row as nat) + " column `"@ + column@
                + "` expected "@ + col_type@ + ", got "@ + shown,
        DataError::MissingPrimaryKey { table, row, column } =>
            "Table `"@ + table@ + "` row "@ + decimal(row as nat) + ": missing primary key `"@ + column@ + "`"@,
        DataError::DuplicatePrimaryKey { table, row, .. } =>
            "Table `"@ + table@ + "` row "@ + decimal(row as nat) + ": duplicate primary key value `"@ + shown + "`"@,
        DataError::FkTargetMissing { table, row, column, target_table, target_column, .. } =>
            "FK violation: `"@ + table@ + "`.`"@ + column@ + "` = "@ + shown + " (row "@ + decimal(row as nat)
                + ") does not exist in `"@ + target_table@ + "`.`"@ + target_column@ + "`"@,
    }
}

pub open spec fn schema_message(e: SchemaError) -> Seq<char> {
    match e {
        SchemaError::InvalidIdentifier { table, name } =>
            "Table "@ + table@ + ": name `"@ + name@ + "` is not a plain identifier"@,
        SchemaError::UnknownColumnType { table, column, col_type } =>
            "Table "@ + table@ + ": column "@ + column@ + " has unknown type "@ + col_type@,
        SchemaError::PrimaryKeyNotAColumn { table, key } =>
            "Table "@ + table@ + ": primary key "@ + key@ + " not in columns"@,
        SchemaError::FkColumnNotFound { table, column } =>
            "Table "@ + table@ + ": FK column "@ + column@ + " not found"@,
        SchemaError::FkTargetTableNotFound { table, target } =>
            "Table "@ + table@ + ": referenced table "@ + target@ + " not found"@,
    }
}

pub open spec fn compile_message(e: CompileError) -> Seq<char> {
    match e {
        CompileError::RootTableNotFound { .. } => "No root table detected in user query"@,
        CompileError::RootTableUnknown { table } => "Root table '"@ + table@ + "' not found in schema"@,
    }
}

pub open spec fn run_message(e: RunError) -> Seq<char> {
    match e {
        RunError::NoRows => "Query returned 0 rows, check your FETCH section"@,
    }
}

impl DataError {
    /// The message, with `shown` standing for the carried value.
    pub fn render(&self, shown: &str) -> (r: String)
        ensures
            r@ == data_message(*self, shown@),
    {
        let mut out = String::new();
        match self {
            DataError::UnknownTable { table } => {
                out.append("Data contains unknown table `");
                out.append(table.as_str());
                out.append("`");
            },
            DataError::UnknownColumn { table, row, column } => {
                out.append("Table `");
                out.append(table.as_str());
                out.append("` row ");
                out.append(decimal_string(*row as u128).as_str());
                out.append(": unknown column `");
                out.append(column.as_str());
                out.append("`");
            },
            DataError::TypeMismatch { table, row, column, col_type, .. } => {
                out.append("Type error: `");
                out.append(table.as_str());
                out.append("` row ");
                out.append(decimal_string(*row as u128).as_str());
                out.append(" column `");
                out.append(column.as_str());
                out.append("` expected ");
                out.append(col_type.as_str());
                out.append(", got ");
                out.append(shown);
            },
            DataError::MissingPrimaryKey { table, row, column } => {
                out.append("Table `");
                out.append(table.as_str());
                out.append("` row ");
                out.append(decimal_string(*row as u128).as_str());
                out.append(": missing primary key `");
                out.append(column.as_str());
                out.append("`");
            },
            DataError::DuplicatePrimaryKey { table, row, .. } => {
                out.append("Table `");
                out.append(table.as_str());
                out.append("` row ");
                out.append(decimal_string(*row as u128).as_str());
                out.append(": duplicate primary key value `");
                out.append(shown);
                out.append("`");
            },
            DataError::FkTargetMissing { table, row, column, target_table, target_column, .. } => {
                out.append("FK violation: `");
                out.append(table.as_str());
                out.append("`.`");
                out.append(column.as_str());
                out.append("` = ");
                out.append(shown);
                out.append(" (row ");
                out.append(decimal_string(*row as u128).as_str());
                out.append(") does not exist in `");
                out.append(target_table.as_str());
                out.append("`.`");
                out.append(target_column.as_str());
                out.append("`");
            },
        }
        assert(out@ =~= data_message(*self, shown@));
        out
    }

    /// The message, the carried value written as JSON.
    pub fn message(&self) -> (r: String)
        ensures
            r@ == data_message(*self, match carried_value(*self) {
                Some(v) => value_text(v),
                None => Seq::empty(),
            }),
    {
        let shown = match self {
            DataError::TypeMismatch { value, .. } => value_string(value),
            DataError::DuplicatePrimaryKey { value, .. } => value_string(value),
            DataError::FkTargetMissing { value, .. } => value_string(value),
            _ => String::new(),
        };
        self.render(shown.as_str())
    }
}

impl SchemaError {
    pub fn message(&self) -> (r: String)
        ensures
            r@ == schema_message(*self),
    {
        let mut out = String::from_str("Table ");
        match self {
            SchemaError::InvalidIdentifier { table, name } => {
                out.append(table.as_str());
                out.append(": name `");
                out.append(name.as_str());
                out.append("` is not a plain identifier");
            },
            SchemaError::UnknownColumnType { table, column, col_type } => {
                out.append(table.as_str());
                out.append(": column ");
                out.append(column.as_str());
                out.append(" has unknown type ");
                out.append(col_type.as_str());
            },
            SchemaError::PrimaryKeyNotAColumn { table, key } => {
                out.append(table.as_str());
                out.append(": primary key ");
                out.append(key.as_str());
                out.append(" not in columns");
            },
            SchemaError::FkColumnNotFound { table, column } => {
                out.append(table.as_str());
                out.append(": FK column ");
                out.append(column.as_str());
                out.append(" not found");
            },
            SchemaError::FkTargetTableNotFound { table, target } => {
                out.append(table.as_str());
                out.append(": referenced table ");
                out.append(target.as_str());
                out.append(" not found");
            },
        }
        assert(out@ =~= schema_message(*self));
        out
    }
}

impl CompileError {
    pub fn message(&self) -> (r: String)
        ensures
            r@ == compile_message(*self),
    {
        match self {
            CompileError::RootTableNotFound { .. } => String::from_str("No root table detected in user query"),
            CompileError::RootTableUnknown { table } => {
                let mut out = String::from_str("Root table '");
                out.append(table.as_str());
                out.append("' not found in schema");
                out
            },
        }
    }
}

impl RunError {
    pub fn message(&self) -> (r: String)
        ensures
            r@ == run_message(*self),
    {
        match self {
            RunError::NoRows => String::from_str("Query returned 0 rows, check your FETCH section"),
        }
    }
}

} // verus!
