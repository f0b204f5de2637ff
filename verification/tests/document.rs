use ledb::{RawDocument, Value};

fn text(s: &str) -> Value {
    Value::Text(s.to_string())
}

fn obj(entries: Vec<(&str, Value)>) -> Value {
    Value::Object(entries.into_iter().map(|(k, v)| (text(k), v)).collect())
}

// The generic data of `User { id: None, name: "elen", email: None }`
fn user(id: Value) -> Value {
    obj(vec![("email", Value::Null), ("id", id), ("name", text("elen"))])
}

#[test]
fn raw_doc() {
    let src = user(Value::Null);
    let raw = RawDocument::from_value(src, "id").unwrap();
    assert_eq!(raw.0, None);
    assert_eq!(raw.1, obj(vec![("email", Value::Null), ("name", text("elen"))]));

    let res = RawDocument(raw.0, raw.1.clone()).into_value("id").unwrap();
    let again = RawDocument::from_value(res, "id").unwrap();
    assert_eq!(again.0, raw.0);
    assert_eq!(again.1, raw.1);
}

#[test]
fn primary_split_and_join() {
    let raw = RawDocument::from_value(user(Value::Integer(7)), "id").unwrap();
    assert_eq!(raw.0, Some(7));
    assert_eq!(raw.1, obj(vec![("email", Value::Null), ("name", text("elen"))]));
    let back = raw.into_value("id").unwrap();
    assert_eq!(back, obj(vec![("email", Value::Null), ("name", text("elen")), ("id", Value::Integer(7))]));
}

#[test]
fn primary_must_be_integer() {
    assert!(RawDocument::from_value(user(text("x")), "id").is_err());
    assert!(RawDocument::from_value(Value::Integer(1), "id").is_err());
    assert!(RawDocument::new(Value::Null).with_id(1).into_value("id").is_err());
}

#[test]
fn primary_is_cut_to_low_bits() {
    let raw = RawDocument::from_value(user(Value::Integer((1i128 << 32) + 5)), "id").unwrap();
    assert_eq!(raw.0, Some(5));
}

#[test]
fn identifier_accessors() {
    let d = RawDocument::new(obj(vec![])).with_id(3);
    assert!(d.has_id());
    assert_eq!(*d.get_id(), Some(3));
    assert_eq!(d.req_id().unwrap(), 3);
    let d = d.without_id();
    assert!(!d.has_id());
    assert!(d.req_id().is_err());
    assert_eq!(d.into_inner(), obj(vec![]));
}

fn to_float(n: i128) -> u64 {
    (n as f64).to_bits()
}

#[test]
fn refine_leaves_no_integers_and_settles() {
    let doc = Value::Object(vec![
        (Value::Text("a".to_string()), Value::Integer(3)),
        (Value::Integer(7), Value::Array(vec![Value::Integer(-1), Value::Text("x".to_string()), Value::Null])),
    ]);
    let once = ledb::refine(doc, &to_float);
    let expect = Value::Object(vec![
        (Value::Text("a".to_string()), Value::Float(3.0f64.to_bits())),
        (Value::Float(7.0f64.to_bits()), Value::Array(vec![Value::Float((-1.0f64).to_bits()), Value::Text("x".to_string()), Value::Null])),
    ]);
    assert_eq!(once, expect);
    let twice = ledb::refine(once.clone(), &to_float);
    assert_eq!(twice, once);
}
