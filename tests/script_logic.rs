use traverse::compiler::CompileError;
use traverse::schema::{ColumnConfig, SchemaConfig, TableConfig};
use traverse::script::render::{FetchMode, Script as Template};
use traverse::script::{check_row_count, default_char, RunError, Script};
use traverse::store::Storage;

#[test]
fn zero_rows_is_its_own_error() {
    assert_eq!(check_row_count(0), Err(RunError::NoRows));
    assert_eq!(check_row_count(3), Ok(()));
}

#[test]
fn default_escape_is_bar() {
    assert_eq!(default_char(), '|');
}

#[test]
fn fill_data_replaces_markers() {
    let s = Script { fetch: String::new(), act: "id=|id| name=|name| |x| a|b".to_string(), escape_char: '|' };
    let tokens = vec!["id".to_string(), "name".to_string(), "x".to_string()];
    let values = vec![Some("7".to_string()), Some("Ann".to_string()), None];
    assert_eq!(s.fill_data(&values, &tokens), "id=7 name=Ann x a|b");
}

#[test]
fn fill_data_without_markers_is_unchanged() {
    let s = Script { fetch: String::new(), act: "plain é text".to_string(), escape_char: '#' };
    assert_eq!(s.fill_data(&vec![], &vec![]), "plain é text");
}

#[test]
fn fetch_mode_defaults_to_scope() {
    assert_eq!(FetchMode::default(), FetchMode::Scope);
}

#[test]
fn fetch_sql_by_mode() {
    let schema = SchemaConfig {
        tables: vec![TableConfig {
            name: "users".to_string(),
            primary_key: "id".to_string(),
            columns: vec![ColumnConfig { name: "id".to_string(), col_type: "int".to_string() }],
            foreign_keys: vec![],
        }],
    };
    let store = Storage { pool: (), schema };
    let raw = Template { fetch: "SELECT 1".to_string(), mode: FetchMode::Raw, act: String::new() };
    assert_eq!(raw.fetch_sql(&store), Ok("SELECT 1".to_string()));
    let scope = Template { fetch: "SELECT 1".to_string(), mode: FetchMode::Scope, act: String::new() };
    assert_eq!(
        scope.fetch_sql(&store),
        Err(CompileError::RootTableNotFound { fragment: "SELECT 1".to_string() })
    );
    let scope = Template { fetch: "SELECT * FROM users".to_string(), mode: FetchMode::Scope, act: String::new() };
    assert!(scope.fetch_sql(&store).unwrap().contains("FROM (SELECT * FROM users)"));
}
