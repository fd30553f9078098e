use session_desk::json::JsonValue;
use session_desk::json::json_clone;
use session_desk::json::json_to_string;

#[test]
fn scalar_encodings() {
    assert_eq!(json_to_string(&JsonValue::Null), "null");
    assert_eq!(json_to_string(&JsonValue::Bool(true)), "true");
    assert_eq!(json_to_string(&JsonValue::Bool(false)), "false");
    assert_eq!(json_to_string(&JsonValue::Num(0)), "0");
    assert_eq!(json_to_string(&JsonValue::Num(1234567890)), "1234567890");
    assert_eq!(json_to_string(&JsonValue::Str("plain".to_string())), "\"plain\"");
}

#[test]
fn string_escapes() {
    let s = JsonValue::Str("a\"b\\c\nd\te\r\u{8}\u{c}\u{1}".to_string());
    assert_eq!(
        json_to_string(&s),
        "\"a\\\"b\\\\c\\nd\\te\\r\\b\\f\\u0001\""
    );
}

#[test]
fn composite_encodings() {
    let v = JsonValue::Obj(vec![
        ("list".to_string(), JsonValue::Arr(vec![
            JsonValue::Num(1),
            JsonValue::Null,
            JsonValue::Str("x".to_string()),
        ])),
        ("flag".to_string(), JsonValue::Bool(false)),
    ]);
    assert_eq!(json_to_string(&v), "{\"list\":[1,null,\"x\"],\"flag\":false}");
    assert_eq!(json_to_string(&JsonValue::Arr(vec![])), "[]");
    assert_eq!(json_to_string(&JsonValue::Obj(vec![])), "{}");
}

#[test]
fn field_access() {
    let v = JsonValue::Obj(vec![
        ("a".to_string(), JsonValue::Num(1)),
        ("b".to_string(), JsonValue::Str("two".to_string())),
        ("a".to_string(), JsonValue::Num(3)),
    ]);
    // the first field with the name wins, as in a parsed object
    assert_eq!(v.get("a"), Some(&JsonValue::Num(1)));
    assert_eq!(v.get("b").and_then(|x| x.as_str()), Some(&"two".to_string()));
    assert_eq!(v.get("missing"), None);
    assert_eq!(JsonValue::Num(1).get("a"), None);
    assert_eq!(JsonValue::Bool(true).as_bool(), Some(true));
    assert_eq!(JsonValue::Num(9).as_u64(), Some(9));
    assert!(JsonValue::Str("s".to_string()).is_string());
    assert!(!JsonValue::Null.is_string());
}

#[test]
fn clone_is_deep() {
    let v = JsonValue::Obj(vec![(
        "k".to_string(),
        JsonValue::Arr(vec![JsonValue::Num(1), JsonValue::Str("s".to_string())]),
    )]);
    let c = json_clone(&v);
    assert_eq!(c, v);
}
