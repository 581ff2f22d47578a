use traverse::compiler::{compile_scope_query, find_root_table, CompileError};
use traverse::schema::{ColumnConfig, ForeignKeyConfig, ReferenceConfig, SchemaConfig, TableConfig};
use traverse::store::Storage;

fn col(name: &str, ty: &str) -> ColumnConfig {
    ColumnConfig { name: name.to_string(), col_type: ty.to_string() }
}

fn shop() -> SchemaConfig {
    SchemaConfig {
        tables: vec![
            TableConfig {
                name: "users".to_string(),
                primary_key: "id".to_string(),
                columns: vec![col("id", "int"), col("name", "text")],
                foreign_keys: vec![],
            },
            TableConfig {
                name: "orders".to_string(),
                primary_key: "id".to_string(),
                columns: vec![col("id", "int"), col("user_id", "int")],
                foreign_keys: vec![ForeignKeyConfig {
                    column: "user_id".to_string(),
                    references: ReferenceConfig { table: "users".to_string(), column: "id".to_string() },
                }],
            },
        ],
    }
}

#[test]
fn root_table_follows_from_in_any_case() {
    assert_eq!(find_root_table("SELECT * FROM users"), Some("users".to_string()));
    assert_eq!(find_root_table("select *\n\tfrom  orders where id = 1;;"), Some("orders".to_string()));
    assert_eq!(find_root_table("SELECT * FROM"), None);
    assert_eq!(find_root_table(""), None);
}

#[test]
fn missing_from_is_reported() {
    assert_eq!(
        compile_scope_query(&shop(), "SELECT 1"),
        Err(CompileError::RootTableNotFound { fragment: "SELECT 1".to_string() })
    );
}

#[test]
fn unknown_root_is_reported() {
    assert_eq!(
        compile_scope_query(&shop(), "SELECT * FROM refunds"),
        Err(CompileError::RootTableUnknown { table: "refunds".to_string() })
    );
}

#[test]
fn compiling_twice_gives_the_same_text() {
    let a = compile_scope_query(&shop(), "SELECT * FROM orders;").unwrap();
    let b = compile_scope_query(&shop(), "SELECT * FROM orders;").unwrap();
    assert_eq!(a, b);
}

#[test]
fn statement_has_anchor_steps_and_projection() {
    let sql = compile_scope_query(&shop(), "SELECT * FROM orders;").unwrap();
    assert!(sql.starts_with("WITH RECURSIVE scope_tree(\n"));
    assert!(sql.contains("  SELECT id AS root_id, '' AS path_prefix, id AS pk_value, 'orders' AS table_name, 1 AS depth, ',' || id || ',' AS visited\n  FROM (SELECT * FROM orders)\n"));
    assert_eq!(sql.matches("AND st.depth < 10").count(), 1);
    assert_eq!(sql.matches("AND instr(st.visited, ',' || f.id || ',') = 0").count(), 1);
    assert!(sql.contains("JOIN orders src ON src.id = st.pk_value\n  JOIN users f ON f.id = src.user_id\n"));
    assert_eq!(sql.matches("CAST(t.").count(), 4);
    assert!(sql.ends_with("GROUP BY root_id;"));
}

#[test]
fn store_compiles_against_its_schema() {
    let store = Storage { pool: (), schema: shop() };
    assert_eq!(
        store.build_scope_query("SELECT * FROM users"),
        compile_scope_query(&shop(), "SELECT * FROM users")
    );
}
