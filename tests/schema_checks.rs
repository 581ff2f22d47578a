use traverse::schema::{
    load_config, validate, ColumnConfig, ForeignKeyConfig, ReferenceConfig, SchemaConfig,
    SchemaError, TableConfig,
};

fn col(name: &str, ty: &str) -> ColumnConfig {
    ColumnConfig { name: name.to_string(), col_type: ty.to_string() }
}

fn fk(column: &str, table: &str, target: &str) -> ForeignKeyConfig {
    ForeignKeyConfig {
        column: column.to_string(),
        references: ReferenceConfig { table: table.to_string(), column: target.to_string() },
    }
}

fn shop() -> SchemaConfig {
    SchemaConfig {
        tables: vec![
            TableConfig {
                name: "users".to_string(),
                primary_key: "id".to_string(),
                columns: vec![col("id", "int"), col("name", "text")],
                foreign_keys: vec![],
            },
            TableConfig {
                name: "orders".to_string(),
                primary_key: "id".to_string(),
                columns: vec![col("id", "int"), col("user_id", "int"), col("amount", "float")],
                foreign_keys: vec![fk("user_id", "users", "id")],
            },
        ],
    }
}

#[test]
fn valid_schema_is_accepted() {
    assert_eq!(validate(&shop()), Ok(()));
    assert!(load_config(shop()).is_ok());
}

#[test]
fn empty_schema_is_accepted() {
    assert_eq!(validate(&SchemaConfig { tables: vec![] }), Ok(()));
}

#[test]
fn primary_key_must_be_a_column() {
    let mut s = shop();
    s.tables[0].primary_key = "uid".to_string();
    assert_eq!(
        validate(&s),
        Err(SchemaError::PrimaryKeyNotAColumn { table: "users".to_string(), key: "uid".to_string() })
    );
}

#[test]
fn foreign_key_column_must_exist() {
    let mut s = shop();
    s.tables[1].foreign_keys[0].column = "customer".to_string();
    assert_eq!(
        validate(&s),
        Err(SchemaError::FkColumnNotFound { table: "orders".to_string(), column: "customer".to_string() })
    );
}

#[test]
fn foreign_key_target_table_must_exist() {
    let mut s = shop();
    s.tables[1].foreign_keys[0].references.table = "people".to_string();
    assert_eq!(
        validate(&s),
        Err(SchemaError::FkTargetTableNotFound { table: "orders".to_string(), target: "people".to_string() })
    );
}

#[test]
fn identifiers_must_be_plain() {
    let mut s = shop();
    s.tables[0].columns[1].name = "name; DROP TABLE users".to_string();
    assert_eq!(
        validate(&s),
        Err(SchemaError::InvalidIdentifier {
            table: "users".to_string(),
            name: "name; DROP TABLE users".to_string()
        })
    );
    let mut s = shop();
    s.tables[1].name = "".to_string();
    assert!(matches!(validate(&s), Err(SchemaError::InvalidIdentifier { .. })));
}

#[test]
fn column_type_must_be_declared_kind() {
    let mut s = shop();
    s.tables[0].columns[1].col_type = "varchar".to_string();
    assert_eq!(
        validate(&s),
        Err(SchemaError::UnknownColumnType {
            table: "users".to_string(),
            column: "name".to_string(),
            col_type: "varchar".to_string()
        })
    );
}

#[test]
fn first_fault_is_reported() {
    let mut s = shop();
    s.tables[0].primary_key = "uid".to_string();
    s.tables[1].foreign_keys[0].references.table = "people".to_string();
    assert!(matches!(validate(&s), Err(SchemaError::PrimaryKeyNotAColumn { .. })));
}
