use chordia::json::{JsonObject, JsonValue};

fn s(t: &str) -> JsonValue {
    JsonValue::Str(t.to_string())
}

#[test]
fn insert_get_and_remove() {
    let mut o = JsonObject::new();
    assert_eq!(o.len(), 0);
    o.insert("b".to_string(), s("2"));
    o.insert("a".to_string(), s("1"));
    o.insert("b".to_string(), s("3"));
    assert_eq!(o.len(), 2);
    assert!(o.contains_key("a"));
    assert_eq!(o.get_str("b").map(|x| x.as_str()), Some("3"));
    assert_eq!(o.text_or_empty("missing"), "");
    let keys: Vec<&str> = o.entries().iter().map(|(k, _)| k.as_str()).collect();
    assert_eq!(keys, vec!["a", "b"]);
    assert!(o.remove("a").is_some());
    assert!(o.remove("a").is_none());
    assert!(!o.contains_key("a"));
    assert_eq!(o.len(), 1);
}

#[test]
fn compact_json_text() {
    let mut o = JsonObject::new();
    o.insert("name".to_string(), s("Say \"hi\"\n"));
    o.insert("count".to_string(), JsonValue::Number("3".to_string()));
    o.insert(
        "tags".to_string(),
        JsonValue::Array(vec![JsonValue::Bool(true), JsonValue::Null, s("x")]),
    );
    assert_eq!(
        JsonValue::Object(o).to_text(),
        "{\"count\":3,\"name\":\"Say \\\"hi\\\"\\n\",\"tags\":[true,null,\"x\"]}"
    );
    assert_eq!(s("\u{1}").to_text(), "\"\\u0001\"");
}

#[test]
fn integers_read_from_number_text() {
    assert_eq!(JsonValue::Number("12".to_string()).as_i64(), Some(12));
    assert_eq!(JsonValue::Number("-5".to_string()).as_i64(), Some(-5));
    assert_eq!(JsonValue::Number("1.5".to_string()).as_i64(), None);
    assert_eq!(JsonValue::Number("1e3".to_string()).as_i64(), None);
    assert_eq!(JsonValue::Number("18446744073709551615".to_string()).as_i64(), None);
    assert_eq!(s("12").as_i64(), None);
}
