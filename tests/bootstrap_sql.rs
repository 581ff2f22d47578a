use traverse::bootstrap::{batches, bind_json_value, create_table, insert_statement, row_bindings, Binding, BATCH_SIZE};
use traverse::dataset::{FieldValue, Row};
use traverse::schema::{ColumnConfig, ForeignKeyConfig, ReferenceConfig, TableConfig};

fn orders() -> TableConfig {
    TableConfig {
        name: "orders".to_string(),
        primary_key: "id".to_string(),
        columns: vec![
            ColumnConfig { name: "id".to_string(), col_type: "int".to_string() },
            ColumnConfig { name: "user_id".to_string(), col_type: "int".to_string() },
        ],
        foreign_keys: vec![ForeignKeyConfig {
            column: "user_id".to_string(),
            references: ReferenceConfig { table: "users".to_string(), column: "id".to_string() },
        }],
    }
}

#[test]
fn create_table_lists_columns_and_keys() {
    assert_eq!(
        create_table(&orders()),
        "CREATE TABLE orders (id int, user_id int, PRIMARY KEY (id), FOREIGN KEY (user_id) REFERENCES users(id))"
    );
}

#[test]
fn insert_has_a_placeholder_per_value() {
    assert_eq!(insert_statement(&orders(), 2), "INSERT INTO orders (id, user_id) VALUES (?, ?), (?, ?)");
    assert_eq!(insert_statement(&orders(), 1), "INSERT INTO orders (id, user_id) VALUES (?, ?)");
}

#[test]
fn rows_split_into_batches() {
    assert_eq!(batches(250, BATCH_SIZE), vec![(0, 100), (100, 200), (200, 250)]);
    assert_eq!(batches(200, BATCH_SIZE), vec![(0, 100), (100, 200)]);
    assert_eq!(batches(0, BATCH_SIZE), vec![]);
    assert_eq!(batches(1, BATCH_SIZE), vec![(0, 1)]);
}

#[test]
fn values_bind_by_kind() {
    assert_eq!(bind_json_value(&FieldValue::Int(5)), Binding::Int(5));
    assert_eq!(bind_json_value(&FieldValue::Int(1i128 << 70)), Binding::WideInt(1i128 << 70));
    assert_eq!(bind_json_value(&FieldValue::Bool(true)), Binding::Bool(true));
    assert_eq!(bind_json_value(&FieldValue::Null), Binding::Null);
    assert_eq!(bind_json_value(&FieldValue::Float("2.5".to_string())), Binding::Real("2.5".to_string()));
    assert_eq!(bind_json_value(&FieldValue::Other("[1,2]".to_string())), Binding::Text("[1,2]".to_string()));
}

#[test]
fn row_binds_in_column_order() {
    let row = Row {
        cells: vec![("user_id".to_string(), FieldValue::Int(1)), ("id".to_string(), FieldValue::Int(9))],
    };
    assert_eq!(row_bindings(&orders(), &row), vec![Binding::Int(9), Binding::Int(1)]);
    let partial = Row { cells: vec![("id".to_string(), FieldValue::Int(9))] };
    assert_eq!(row_bindings(&orders(), &partial), vec![Binding::Int(9), Binding::Null]);
}
