use shellymon::schema::{add_column_sql, alter_table_sqls, create_table_sql, TableSchema};

fn names(v: &[&str]) -> Vec<String> {
    v.iter().map(|s| s.to_string()).collect()
}

#[test]
fn ensure_adds_missing_columns_in_order() {
    let mut schema = TableSchema::new();
    let added = schema.ensure(&names(&["x", "y"]));
    assert_eq!(added, names(&["x", "y"]));
    assert_eq!(schema.columns, names(&["x", "y"]));
}

#[test]
fn ensure_twice_is_idempotent() {
    let mut schema = TableSchema::new();
    schema.ensure(&names(&["x", "y"]));
    let snapshot = schema.columns.clone();
    let added = schema.ensure(&names(&["x", "y"]));
    assert!(added.is_empty());
    assert_eq!(schema.columns, snapshot);
}

#[test]
fn ensure_superset_adds_exactly_the_new_columns() {
    let mut schema = TableSchema::new();
    schema.ensure(&names(&["x"]));
    let added = schema.ensure(&names(&["x", "y", "z"]));
    assert_eq!(added, names(&["y", "z"]));
    assert_eq!(schema.columns, names(&["x", "y", "z"]));
}

#[test]
fn ensure_keeps_existing_columns_as_prefix() {
    let mut schema = TableSchema { columns: names(&["timestamp", "device", "a"]) };
    let added = schema.ensure(&names(&["b", "a"]));
    assert_eq!(added, names(&["b"]));
    assert_eq!(schema.columns, names(&["timestamp", "device", "a", "b"]));
}

#[test]
fn ensure_ignores_repeated_declared_column() {
    let mut schema = TableSchema::new();
    let added = schema.ensure(&names(&["x", "x"]));
    assert_eq!(added, names(&["x"]));
    assert_eq!(schema.columns, names(&["x"]));
}

#[test]
fn create_table_statement_is_exact() {
    let sql = create_table_sql(&"readings".to_string(), &names(&["x", "y"]));
    assert_eq!(
        sql,
        "CREATE TABLE IF NOT EXISTS readings (timestamp TEXT, device TEXT, x REAL, y REAL);"
    );
}

#[test]
fn create_table_statement_without_metric_columns() {
    let sql = create_table_sql(&"readings".to_string(), &names(&[]));
    assert_eq!(sql, "CREATE TABLE IF NOT EXISTS readings (timestamp TEXT, device TEXT);");
}

#[test]
fn alter_statements_are_exact() {
    let sql = add_column_sql(&"readings".to_string(), &"humidity".to_string());
    assert_eq!(sql, "ALTER TABLE readings ADD COLUMN humidity REAL;");
    let stmts = alter_table_sqls(&"t".to_string(), &names(&["a", "b"]));
    assert_eq!(
        stmts,
        vec![
            "ALTER TABLE t ADD COLUMN a REAL;".to_string(),
            "ALTER TABLE t ADD COLUMN b REAL;".to_string()
        ]
    );
}
