use shellymon::json::{extract, flag_field, get_field, num_field, subtree, text_field, JsonDoc};

fn num(v: f64) -> JsonDoc {
    JsonDoc::Num(v.to_bits())
}

fn obj(entries: Vec<(&str, JsonDoc)>) -> JsonDoc {
    JsonDoc::Obj(entries.into_iter().map(|(k, v)| (k.to_string(), v)).collect())
}

fn sample() -> JsonDoc {
    obj(vec![
        ("temp", obj(vec![("value", num(21.5)), ("unit", JsonDoc::Text("C".to_string()))])),
        ("power", num(120.25)),
        ("on", JsonDoc::Bool(true)),
        ("tags", JsonDoc::Arr(vec![num(1.0)])),
        ("label", JsonDoc::Text("kitchen".to_string())),
        ("empty", JsonDoc::Null),
    ])
}

#[test]
fn extract_nested_numeric_value() {
    let doc = sample();
    assert_eq!(extract(&doc, "temp.value"), Some(21.5f64.to_bits()));
}

#[test]
fn extract_top_level_numeric_value() {
    let doc = sample();
    assert_eq!(extract(&doc, "power"), Some(120.25f64.to_bits()));
}

#[test]
fn extract_missing_key_is_nothing() {
    let doc = sample();
    assert_eq!(extract(&doc, "voltage"), None);
    assert_eq!(extract(&doc, "temp.missing"), None);
}

#[test]
fn extract_non_numeric_terminal_is_nothing() {
    let doc = sample();
    assert_eq!(extract(&doc, "label"), None);
    assert_eq!(extract(&doc, "on"), None);
    assert_eq!(extract(&doc, "empty"), None);
    assert_eq!(extract(&doc, "tags"), None);
}

#[test]
fn extract_through_non_object_is_nothing() {
    let doc = sample();
    assert_eq!(extract(&doc, "power.value"), None);
    assert_eq!(extract(&doc, "label.value"), None);
}

#[test]
fn extract_empty_path_is_nothing() {
    let doc = sample();
    assert_eq!(extract(&doc, ""), None);
}

#[test]
fn extract_empty_segment_is_nothing() {
    let doc = sample();
    assert_eq!(extract(&doc, "temp..value"), None);
}

#[test]
fn extract_from_scalar_document_is_nothing() {
    assert_eq!(extract(&num(3.5), "a"), None);
    assert_eq!(extract(&JsonDoc::Null, "a"), None);
}

#[test]
fn extract_trailing_dot_is_nothing() {
    let doc = sample();
    assert_eq!(extract(&doc, "temp."), None);
    assert_eq!(extract(&doc, ".temp.value"), None);
}

#[test]
fn duplicate_keys_resolve_to_the_first() {
    let doc = JsonDoc::Obj(vec![
        ("x".to_string(), num(1.0)),
        ("x".to_string(), num(2.0)),
    ]);
    assert_eq!(extract(&doc, "x"), Some(1.0f64.to_bits()));
}

#[test]
fn get_field_finds_first_member() {
    let doc = sample();
    let child = get_field(&doc, &"power".to_string());
    assert!(matches!(child, Some(JsonDoc::Num(_))));
    assert!(get_field(&doc, &"nope".to_string()).is_none());
}

#[test]
fn typed_field_accessors() {
    let doc = sample();
    assert_eq!(text_field(&doc, &"label".to_string()).map(|s| s.as_str()), Some("kitchen"));
    assert!(text_field(&doc, &"power".to_string()).is_none());
    assert_eq!(num_field(&doc, &"power".to_string()), Some(120.25f64.to_bits()));
    assert!(num_field(&doc, &"label".to_string()).is_none());
    assert!(flag_field(&doc, &"on".to_string()));
    assert!(!flag_field(&doc, &"label".to_string()));
    assert!(!flag_field(&doc, &"nope".to_string()));
}

#[test]
fn subtree_follows_path_with_leading_dot() {
    let doc = sample();
    let sub = subtree(&doc, ".temp").expect("subtree should resolve");
    assert!(matches!(sub, JsonDoc::Obj(_)));
    match subtree(&doc, ".temp.unit") {
        Some(JsonDoc::Text(s)) => assert_eq!(s, "C"),
        other => panic!("unexpected subtree: {:?}", other.is_some()),
    }
    assert!(subtree(&doc, ".temp.nope").is_none());
}
