use shellymon::json::JsonDoc;
use shellymon::row::{build_row, insert_sql, stamped_row};
use shellymon::schema::TableSchema;

fn fields(v: &[(&str, &str)]) -> Vec<(String, String)> {
    v.iter().map(|(p, c)| (p.to_string(), c.to_string())).collect()
}

fn flat(entries: &[(&str, f64)]) -> JsonDoc {
    JsonDoc::Obj(
        entries.iter().map(|(k, v)| (k.to_string(), JsonDoc::Num(v.to_bits()))).collect(),
    )
}

#[test]
fn row_keeps_only_extractable_fields() {
    let doc = flat(&[("a", 1.5), ("c", 3.25)]);
    let (row, misses) = build_row(
        "ts".to_string(),
        "dev".to_string(),
        &fields(&[("a", "x"), ("b", "y"), ("c", "z")]),
        &doc,
    );
    assert_eq!(row.timestamp, "ts");
    assert_eq!(row.device, "dev");
    assert_eq!(row.columns.len(), 2);
    assert_eq!(row.columns[0].0, "x");
    assert_eq!(f64::from_bits(row.columns[0].1), 1.5);
    assert_eq!(row.columns[1].0, "z");
    assert_eq!(f64::from_bits(row.columns[1].1), 3.25);
    assert_eq!(misses, vec!["b".to_string()]);
}

#[test]
fn poll_with_no_extractable_field_still_yields_a_row() {
    // The row keeps timestamp and device; every metric column is absent,
    // and the insert touches only the two fixed columns.
    let doc = JsonDoc::Obj(vec![("other".to_string(), JsonDoc::Bool(true))]);
    let (row, misses) = build_row(
        "2024-05-01T00:00:00+00:00".to_string(),
        "sensor1".to_string(),
        &fields(&[("temp.value", "temperature"), ("power", "power")]),
        &doc,
    );
    assert_eq!(row.timestamp, "2024-05-01T00:00:00+00:00");
    assert_eq!(row.device, "sensor1");
    assert!(row.columns.is_empty());
    assert_eq!(misses, vec!["temp.value".to_string(), "power".to_string()]);
    let sql = insert_sql(&"readings".to_string(), &row);
    assert_eq!(sql, "INSERT INTO readings (timestamp, device) VALUES (?, ?);");
}

#[test]
fn two_devices_sharing_a_table_populate_disjoint_columns() {
    // Scenario: two devices share table "readings" with disjoint field
    // maps {"a": "x"} and {"b": "y"}.  After both have polled once, the
    // table has columns x and y, and each row names exactly one of them.
    let table = "readings".to_string();
    let mut schema = TableSchema::new();

    let fields1 = fields(&[("a", "x")]);
    let fields2 = fields(&[("b", "y")]);

    // First device polls: its payload holds only "a".
    let added1 = schema.ensure(&vec!["x".to_string()]);
    assert_eq!(added1, vec!["x".to_string()]);
    let (row1, _) = build_row("t1".to_string(), "dev1".to_string(), &fields1, &flat(&[("a", 1.0)]));
    assert_eq!(row1.columns.len(), 1);
    assert_eq!(row1.columns[0].0, "x");
    assert_eq!(
        insert_sql(&table, &row1),
        "INSERT INTO readings (timestamp, device, x) VALUES (?, ?, ?);"
    );

    // Second device polls: its payload holds only "b".
    let added2 = schema.ensure(&vec!["y".to_string()]);
    assert_eq!(added2, vec!["y".to_string()]);
    let (row2, _) = build_row("t2".to_string(), "dev2".to_string(), &fields2, &flat(&[("b", 2.5)]));
    assert_eq!(row2.columns.len(), 1);
    assert_eq!(row2.columns[0].0, "y");
    assert_eq!(
        insert_sql(&table, &row2),
        "INSERT INTO readings (timestamp, device, y) VALUES (?, ?, ?);"
    );

    // The shared table ends with both columns, each added once.
    assert_eq!(schema.columns, vec!["x".to_string(), "y".to_string()]);
}

#[test]
fn stamped_row_carries_a_timestamp_and_the_same_columns() {
    let doc = flat(&[("a", 4.5)]);
    let (row, misses) = stamped_row("dev".to_string(), &fields(&[("a", "x"), ("b", "y")]), &doc);
    assert!(!row.timestamp.is_empty());
    assert_eq!(row.device, "dev");
    assert_eq!(row.columns.len(), 1);
    assert_eq!(row.columns[0].0, "x");
    assert_eq!(f64::from_bits(row.columns[0].1), 4.5);
    assert_eq!(misses, vec!["b".to_string()]);
}

#[test]
fn insert_parameters_follow_row_order() {
    let doc = flat(&[("a", 1.0), ("b", 2.0), ("c", 3.0)]);
    let (row, _) = build_row(
        "ts".to_string(),
        "dev".to_string(),
        &fields(&[("c", "cc"), ("a", "aa"), ("b", "bb")]),
        &doc,
    );
    let sql = insert_sql(&"t".to_string(), &row);
    assert_eq!(sql, "INSERT INTO t (timestamp, device, cc, aa, bb) VALUES (?, ?, ?, ?, ?);");
    let vals: Vec<f64> = row.columns.iter().map(|(_, b)| f64::from_bits(*b)).collect();
    assert_eq!(vals, vec![3.0, 1.0, 2.0]);
}
