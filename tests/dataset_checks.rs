use traverse::dataset::{load_data, validate, DataError, DataFile, FieldValue, Row, TableRows};
use traverse::schema::{ColumnConfig, ForeignKeyConfig, ReferenceConfig, SchemaConfig, TableConfig};

fn col(name: &str, ty: &str) -> ColumnConfig {
    ColumnConfig { name: name.to_string(), col_type: ty.to_string() }
}

fn shop() -> SchemaConfig {
    SchemaConfig {
        tables: vec![
            TableConfig {
                name: "users".to_string(),
                primary_key: "id".to_string(),
                columns: vec![col("id", "int"), col("name", "text")],
                foreign_keys: vec![],
            },
            TableConfig {
                name: "orders".to_string(),
                primary_key: "id".to_string(),
                columns: vec![col("id", "int"), col("user_id", "int"), col("amount", "float")],
                foreign_keys: vec![ForeignKeyConfig {
                    column: "user_id".to_string(),
                    references: ReferenceConfig { table: "users".to_string(), column: "id".to_string() },
                }],
            },
        ],
    }
}

fn row(cells: &[(&str, FieldValue)]) -> Row {
    Row { cells: cells.iter().map(|(k, v)| (k.to_string(), v.clone())).collect() }
}

fn text(s: &str) -> FieldValue {
    FieldValue::Text(s.to_string())
}

fn data() -> DataFile {
    DataFile {
        tables: vec![
            TableRows {
                table: "users".to_string(),
                rows: vec![row(&[("id", FieldValue::Int(1)), ("name", text("Ann"))])],
            },
            TableRows {
                table: "orders".to_string(),
                rows: vec![
                    row(&[("id", FieldValue::Int(10)), ("user_id", FieldValue::Int(1)), ("amount", FieldValue::Float("9.5".to_string()))]),
                    row(&[("id", FieldValue::Int(11)), ("user_id", FieldValue::Int(1)), ("amount", FieldValue::Float("3.25".to_string()))]),
                ],
            },
        ],
    }
}

#[test]
fn consistent_dataset_is_accepted() {
    assert_eq!(validate(&data(), &shop()), Ok(()));
    assert!(load_data(data(), &shop()).is_ok());
}

#[test]
fn empty_dataset_is_accepted() {
    assert_eq!(validate(&DataFile { tables: vec![] }, &shop()), Ok(()));
}

#[test]
fn unknown_table_is_rejected() {
    let mut d = data();
    d.tables.push(TableRows { table: "refunds".to_string(), rows: vec![] });
    assert_eq!(validate(&d, &shop()), Err(DataError::UnknownTable { table: "refunds".to_string() }));
}

#[test]
fn unknown_column_is_rejected() {
    let mut d = data();
    d.tables[0].rows[0].cells.push(("email".to_string(), text("a@b")));
    assert_eq!(
        validate(&d, &shop()),
        Err(DataError::UnknownColumn { table: "users".to_string(), row: 0, column: "email".to_string() })
    );
}

#[test]
fn type_mismatch_is_rejected() {
    let mut d = data();
    d.tables[1].rows[1].cells[2].1 = FieldValue::Int(3);
    assert_eq!(
        validate(&d, &shop()),
        Err(DataError::TypeMismatch {
            table: "orders".to_string(),
            row: 1,
            column: "amount".to_string(),
            col_type: "float".to_string(),
            value: FieldValue::Int(3)
        })
    );
    let mut d = data();
    d.tables[0].rows[0].cells[1].1 = FieldValue::Null;
    assert_eq!(
        validate(&d, &shop()),
        Err(DataError::TypeMismatch {
            table: "users".to_string(),
            row: 0,
            column: "name".to_string(),
            col_type: "text".to_string(),
            value: FieldValue::Null
        })
    );
}

#[test]
fn missing_primary_key_is_rejected() {
    let mut d = data();
    d.tables[1].rows[1].cells.remove(0);
    assert_eq!(
        validate(&d, &shop()),
        Err(DataError::MissingPrimaryKey { table: "orders".to_string(), row: 1, column: "id".to_string() })
    );
}

#[test]
fn duplicate_primary_key_is_rejected() {
    let mut d = data();
    d.tables[1].rows[1].cells[0].1 = FieldValue::Int(10);
    assert_eq!(
        validate(&d, &shop()),
        Err(DataError::DuplicatePrimaryKey {
            table: "orders".to_string(),
            row: 1,
            column: "id".to_string(),
            value: FieldValue::Int(10)
        })
    );
}

#[test]
fn dangling_foreign_key_is_rejected() {
    let mut d = data();
    d.tables[1].rows[1].cells[1].1 = FieldValue::Int(2);
    assert_eq!(
        validate(&d, &shop()),
        Err(DataError::FkTargetMissing {
            table: "orders".to_string(),
            row: 1,
            column: "user_id".to_string(),
            value: FieldValue::Int(2),
            target_table: "users".to_string(),
            target_column: "id".to_string(),
        })
    );
}

#[test]
fn foreign_key_into_absent_table_is_rejected() {
    let mut d = data();
    d.tables.remove(0);
    assert!(matches!(
        validate(&d, &shop()),
        Err(DataError::FkTargetMissing { row: 0, .. })
    ));
}

#[test]
fn absent_foreign_key_value_is_allowed() {
    let mut d = data();
    d.tables[1].rows[0].cells.remove(1);
    assert_eq!(validate(&d, &shop()), Ok(()));
}

#[test]
fn negative_and_positive_zero_keys_collide() {
    let mut d = data();
    d.tables[1].rows[0].cells[0].1 = FieldValue::Int(10);
    let schema = shop();
    let mut s2 = schema.clone();
    s2.tables[1].primary_key = "amount".to_string();
    d.tables[1].rows[0].cells[2].1 = FieldValue::Float("0.0".to_string());
    d.tables[1].rows[1].cells[2].1 = FieldValue::Float("-0.0".to_string());
    assert_eq!(
        validate(&d, &s2),
        Err(DataError::DuplicatePrimaryKey {
            table: "orders".to_string(),
            row: 1,
            column: "amount".to_string(),
            value: FieldValue::Float("-0.0".to_string())
        })
    );
}
