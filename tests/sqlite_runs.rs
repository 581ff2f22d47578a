use sqlx::sqlite::SqlitePoolOptions;
use sqlx::{Row as SqlRow, SqlitePool};
use std::collections::HashMap;
use traverse::bootstrap::{create_table, insert_statement, row_bindings, Binding};
use traverse::compiler::compile_scope_query;
use traverse::dataset::{validate, DataFile, FieldValue, Row, TableRows};
use traverse::schema::{self, ColumnConfig, ForeignKeyConfig, ReferenceConfig, SchemaConfig, TableConfig};

fn col(name: &str, ty: &str) -> ColumnConfig {
    ColumnConfig { name: name.to_string(), col_type: ty.to_string() }
}

fn fk(column: &str, table: &str) -> ForeignKeyConfig {
    ForeignKeyConfig {
        column: column.to_string(),
        references: ReferenceConfig { table: table.to_string(), column: "id".to_string() },
    }
}

fn row(cells: Vec<(&str, FieldValue)>) -> Row {
    Row { cells: cells.into_iter().map(|(k, v)| (k.to_string(), v)).collect() }
}

async fn load(schema: &SchemaConfig, data: &DataFile) -> SqlitePool {
    assert_eq!(schema::validate(schema), Ok(()));
    assert_eq!(validate(data, schema), Ok(()));
    let pool = SqlitePoolOptions::new().max_connections(1).connect("sqlite::memory:").await.unwrap();
    for t in &schema.tables {
        sqlx::query(&create_table(t)).execute(&pool).await.unwrap();
    }
    let mut tx = pool.begin().await.unwrap();
    sqlx::query("PRAGMA defer_foreign_keys = ON").execute(&mut *tx).await.unwrap();
    for entry in &data.tables {
        let t = schema.tables.iter().find(|t| t.name == entry.table).unwrap();
        for r in &entry.rows {
            let sql = insert_statement(t, 1);
            let mut q = sqlx::query(&sql);
            for b in row_bindings(t, r) {
                q = match b {
                    Binding::Null => q.bind(None::<String>),
                    Binding::Bool(v) => q.bind(v),
                    Binding::Int(v) => q.bind(v),
                    Binding::WideInt(v) => q.bind(v as f64),
                    Binding::Real(v) => q.bind(v.parse::<f64>().unwrap()),
                    Binding::Text(v) => q.bind(v),
                };
            }
            q.execute(&mut *tx).await.unwrap();
        }
    }
    tx.commit().await.unwrap();
    pool
}

fn scope(schema: &SchemaConfig, data: &DataFile, fragment: &str) -> HashMap<i64, HashMap<String, serde_json::Value>> {
    let rt = tokio::runtime::Builder::new_current_thread().enable_all().build().unwrap();
    rt.block_on(async {
        let pool = load(schema, data).await;
        let sql = compile_scope_query(schema, fragment).unwrap();
        let rows = sqlx::query(&sql).fetch_all(&pool).await.unwrap();
        let mut out = HashMap::new();
        for r in rows {
            let id: i64 = r.try_get("root_id").unwrap();
            let json: String = r.try_get("scope_json").unwrap();
            out.insert(id, serde_json::from_str(&json).unwrap());
        }
        out
    })
}

#[test]
fn users_and_orders_scope() {
    let schema = SchemaConfig {
        tables: vec![
            TableConfig {
                name: "users".to_string(),
                primary_key: "id".to_string(),
                columns: vec![col("id", "int"), col("name", "text")],
                foreign_keys: vec![],
            },
            TableConfig {
                name: "orders".to_string(),
                primary_key: "id".to_string(),
                columns: vec![col("id", "int"), col("user_id", "int"), col("amount", "float")],
                foreign_keys: vec![fk("user_id", "users")],
            },
        ],
    };
    let data = DataFile {
        tables: vec![
            TableRows {
                table: "users".to_string(),
                rows: vec![row(vec![("id", FieldValue::Int(1)), ("name", FieldValue::Text("Ann".to_string()))])],
            },
            TableRows {
                table: "orders".to_string(),
                rows: vec![
                    row(vec![("id", FieldValue::Int(10)), ("user_id", FieldValue::Int(1)), ("amount", FieldValue::Float("9.5".to_string()))]),
                    row(vec![("id", FieldValue::Int(11)), ("user_id", FieldValue::Int(1)), ("amount", FieldValue::Float("3.25".to_string()))]),
                ],
            },
        ],
    };
    let users = scope(&schema, &data, "SELECT * FROM users");
    assert_eq!(users.len(), 1);
    assert_eq!(users[&1]["name"], serde_json::Value::String("Ann".to_string()));
    let orders = scope(&schema, &data, "SELECT * FROM orders");
    assert_eq!(orders.len(), 2);
    for id in [10, 11] {
        assert_eq!(orders[&id]["user_id.name"], serde_json::Value::String("Ann".to_string()));
        assert_eq!(orders[&id]["user_id.id"], serde_json::Value::String("1".to_string()));
    }
}

#[test]
fn self_reference_terminates_without_revisits() {
    let schema = SchemaConfig {
        tables: vec![TableConfig {
            name: "nodes".to_string(),
            primary_key: "id".to_string(),
            columns: vec![col("id", "int"), col("parent_id", "int"), col("label", "text")],
            foreign_keys: vec![fk("parent_id", "nodes")],
        }],
    };
    let node = |id: i128, parent: i128, label: &str| {
        row(vec![("id", FieldValue::Int(id)), ("parent_id", FieldValue::Int(parent)), ("label", FieldValue::Text(label.to_string()))])
    };
    let data = DataFile {
        tables: vec![TableRows {
            table: "nodes".to_string(),
            rows: vec![node(1, 2, "a"), node(2, 3, "b"), node(3, 1, "c"), node(4, 4, "d")],
        }],
    };
    let groups = scope(&schema, &data, "SELECT * FROM nodes");
    assert_eq!(groups.len(), 4);
    let one = &groups[&1];
    assert_eq!(one["parent_id.label"], serde_json::Value::String("b".to_string()));
    assert_eq!(one["parent_id.parent_id.label"], serde_json::Value::String("c".to_string()));
    assert!(!one.contains_key("parent_id.parent_id.parent_id.label"));
    let four = &groups[&4];
    assert_eq!(four.len(), 3);
}

#[test]
fn long_chain_stops_at_depth_ten() {
    let n = 21;
    let mut tables = Vec::new();
    let mut entries = Vec::new();
    for i in 0..n {
        let mut columns = vec![col("id", "int")];
        let mut keys = vec![];
        let mut cells = vec![("id", FieldValue::Int(100 + i as i128))];
        if i + 1 < n {
            columns.push(col("next", "int"));
            keys.push(fk("next", &format!("c{}", i + 1)));
            cells.push(("next", FieldValue::Int(101 + i as i128)));
        }
        tables.push(TableConfig { name: format!("c{}", i), primary_key: "id".to_string(), columns, foreign_keys: keys });
        entries.push(TableRows { table: format!("c{}", i), rows: vec![row(cells)] });
    }
    let schema = SchemaConfig { tables };
    let data = DataFile { tables: entries };
    let groups = scope(&schema, &data, "SELECT * FROM c0");
    let g = &groups[&100];
    let deepest = g.keys().map(|k| k.split('.').count()).max().unwrap();
    assert_eq!(deepest, 10);
    let nine = vec!["next"; 9].join(".");
    assert_eq!(g[&format!("{}.id", nine)], serde_json::Value::String("109".to_string()));
    assert!(!g.contains_key(&format!("{}.next.id", nine)));
}
