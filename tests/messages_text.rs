use traverse::compiler::CompileError;
use traverse::dataset::{DataError, FieldValue};
use traverse::schema::SchemaError;
use traverse::script::RunError;

fn s(x: &str) -> String {
    x.to_string()
}

#[test]
fn type_error_names_type_and_value() {
    let e = DataError::TypeMismatch { table: s("users"), row: 3, column: s("name"), col_type: s("text"), value: FieldValue::Int(5) };
    assert_eq!(e.message(), "Type error: `users` row 3 column `name` expected text, got 5");
    let e = DataError::TypeMismatch { table: s("users"), row: 12, column: s("id"), col_type: s("int"), value: FieldValue::Text(s("a\"b")) };
    assert_eq!(e.message(), "Type error: `users` row 12 column `id` expected int, got \"a\\\"b\"");
    let e = DataError::TypeMismatch { table: s("t"), row: 0, column: s("c"), col_type: s("int"), value: FieldValue::Int(-120) };
    assert_eq!(e.message(), "Type error: `t` row 0 column `c` expected int, got -120");
    let e = DataError::TypeMismatch { table: s("t"), row: 0, column: s("c"), col_type: s("int"), value: FieldValue::Bool(false) };
    assert_eq!(e.render("X"), "Type error: `t` row 0 column `c` expected int, got X");
}

#[test]
fn data_error_messages() {
    assert_eq!(DataError::UnknownTable { table: s("x") }.message(), "Data contains unknown table `x`");
    assert_eq!(
        DataError::UnknownColumn { table: s("users"), row: 2, column: s("age") }.message(),
        "Table `users` row 2: unknown column `age`"
    );
    assert_eq!(
        DataError::MissingPrimaryKey { table: s("users"), row: 0, column: s("id") }.message(),
        "Table `users` row 0: missing primary key `id`"
    );
    assert_eq!(
        DataError::DuplicatePrimaryKey { table: s("users"), row: 4, column: s("id"), value: FieldValue::Int(7) }.message(),
        "Table `users` row 4: duplicate primary key value `7`"
    );
    assert_eq!(
        DataError::FkTargetMissing {
            table: s("orders"),
            row: 1,
            column: s("user_id"),
            value: FieldValue::Int(2),
            target_table: s("users"),
            target_column: s("id"),
        }
        .message(),
        "FK violation: `orders`.`user_id` = 2 (row 1) does not exist in `users`.`id`"
    );
}

#[test]
fn other_error_messages() {
    assert_eq!(
        SchemaError::PrimaryKeyNotAColumn { table: s("users"), key: s("uid") }.message(),
        "Table users: primary key uid not in columns"
    );
    assert_eq!(
        SchemaError::FkColumnNotFound { table: s("orders"), column: s("c") }.message(),
        "Table orders: FK column c not found"
    );
    assert_eq!(
        SchemaError::FkTargetTableNotFound { table: s("orders"), target: s("p") }.message(),
        "Table orders: referenced table p not found"
    );
    assert_eq!(
        SchemaError::UnknownColumnType { table: s("t"), column: s("c"), col_type: s("blob") }.message(),
        "Table t: column c has unknown type blob"
    );
    assert_eq!(
        SchemaError::InvalidIdentifier { table: s("t"), name: s("a b") }.message(),
        "Table t: name `a b` is not a plain identifier"
    );
    assert_eq!(
        CompileError::RootTableNotFound { fragment: s("SELECT 1") }.message(),
        "No root table detected in user query"
    );
    assert_eq!(CompileError::RootTableUnknown { table: s("x") }.message(), "Root table 'x' not found in schema");
    assert_eq!(RunError::NoRows.message(), "Query returned 0 rows, check your FETCH section");
}
