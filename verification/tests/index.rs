use ledb::{
    index_keys, index_update, query_keys, range_accepts, range_bound, range_skips, split_path, FloatCast, IndexDef, IndexKind,
    KeyData, KeyType, RawDocument, Value,
};

fn float_key(v: f64) -> KeyData {
    KeyData::Float(v.to_bits())
}

fn cast(c: FloatCast) -> Option<KeyData> {
    match c {
        FloatCast::IntToFloat(i) => Some(float_key(i as f64)),
        FloatCast::FloatToInt(bits) => Some(KeyData::Int(f64::from_bits(bits).round() as i64)),
        FloatCast::FloatToText(bits) => Some(KeyData::String(f64::from_bits(bits).to_string())),
        FloatCast::TextToFloat(s) => s.parse::<f64>().ok().map(float_key),
    }
}

fn text(s: &str) -> Value {
    Value::Text(s.to_string())
}

fn obj(entries: Vec<(&str, Value)>) -> Value {
    Value::Object(entries.into_iter().map(|(k, v)| (text(k), v)).collect())
}

fn sorted(mut keys: Vec<KeyData>) -> Vec<String> {
    let mut out: Vec<String> = keys.drain(..).map(|k| format!("{:?}", k)).collect();
    out.sort();
    out
}

#[test]
fn split_path_at_dots() {
    assert_eq!(split_path("a.b.c"), vec!["a".to_string(), "b".into(), "c".into()]);
    assert_eq!(split_path(""), vec!["".to_string()]);
    assert_eq!(split_path("a."), vec!["a".to_string(), "".into()]);
}

#[test]
fn index_def_new() {
    let d = IndexDef::new("users", "name", IndexKind::Unique, KeyType::String);
    assert_eq!(d, IndexDef(0, "users".into(), "name".into(), IndexKind::Unique, KeyType::String));
}

#[test]
fn keys_of_plain_field() {
    let doc = obj(vec![("name", text("ann")), ("age", Value::Integer(30))]);
    assert_eq!(index_keys(&doc, "name", KeyType::String, &cast), vec![KeyData::from("ann")]);
    assert_eq!(index_keys(&doc, "age", KeyType::Int, &cast), vec![KeyData::from(30)]);
    assert_eq!(index_keys(&doc, "age", KeyType::String, &cast), vec![KeyData::from("30")]);
    assert_eq!(index_keys(&doc, "missing", KeyType::Int, &cast), vec![]);
}

#[test]
fn keys_of_nested_array_field() {
    let doc = obj(vec![(
        "tags",
        Value::Array(vec![obj(vec![("t", text("a"))]), obj(vec![("t", text("b"))]), obj(vec![("t", text("a"))])]),
    )]);
    assert_eq!(sorted(index_keys(&doc, "tags.t", KeyType::String, &cast)), sorted(vec![KeyData::from("a"), KeyData::from("b")]));
}

#[test]
fn keys_skip_empty_and_unconvertible() {
    let doc = obj(vec![("v", Value::Array(vec![text(""), text("x"), text("12"), Value::Null]))]);
    assert_eq!(sorted(index_keys(&doc, "v", KeyType::String, &cast)), sorted(vec![KeyData::from("x"), KeyData::from("12")]));
    assert_eq!(index_keys(&doc, "v", KeyType::Int, &cast), vec![KeyData::from(12)]);
}

#[test]
fn keys_of_object_are_its_keys() {
    let doc = obj(vec![("m", obj(vec![("k1", Value::Integer(1)), ("k2", Value::Integer(2))]))]);
    assert_eq!(sorted(index_keys(&doc, "m", KeyType::String, &cast)), sorted(vec![KeyData::from("k1"), KeyData::from("k2")]));
}

#[test]
fn star_part_reaches_no_primitive() {
    let doc = obj(vec![("m", obj(vec![("a", Value::Integer(1))]))]);
    assert_eq!(index_keys(&doc, "m.*", KeyType::Int, &cast), vec![]);
}

#[test]
fn update_plan_diffs_keys() {
    let old = RawDocument(Some(4), obj(vec![("t", Value::Array(vec![text("a"), text("b")]))]));
    let new = RawDocument(Some(4), obj(vec![("t", Value::Array(vec![text("b"), text("c")]))]));
    let u = index_update(Some(&old), Some(&new), "t", KeyType::String, &cast).unwrap();
    assert_eq!(u.id, 4);
    assert_eq!(u.remove, vec![KeyData::from("a")]);
    assert_eq!(u.insert, vec![KeyData::from("c")]);

    let u = index_update(None, Some(&new), "t", KeyType::String, &cast).unwrap();
    assert_eq!(sorted(u.insert), sorted(vec![KeyData::from("b"), KeyData::from("c")]));
    assert!(u.remove.is_empty());
}

#[test]
fn update_plan_errors() {
    assert!(index_update(None, None, "t", KeyType::String, &cast).is_err());
    let nodoc = RawDocument::new(obj(vec![]));
    assert!(index_update(Some(&nodoc), None, "t", KeyType::String, &cast).is_err());
}

#[test]
fn range_bounds_and_checks() {
    let k = KeyData::from("5");
    assert_eq!(range_bound(Some((&k, true)), KeyType::Int, &cast), Some((KeyData::from(5), true)));
    assert_eq!(range_bound(None, KeyType::Int, &cast), None);
    let bad = KeyData::from("x");
    assert_eq!(range_bound(Some((&bad, false)), KeyType::Int, &cast), None);

    let end = Some((KeyData::from(10), false));
    assert_eq!(range_accepts(&end, &KeyData::from(9).into_raw()).unwrap(), true);
    assert_eq!(range_accepts(&end, &KeyData::from(10).into_raw()).unwrap(), false);
    let end_inc = Some((KeyData::from(10), true));
    assert_eq!(range_accepts(&end_inc, &KeyData::from(10).into_raw()).unwrap(), true);
    assert!(range_accepts(&end, &[1, 2]).is_err());
    assert_eq!(range_accepts(&None, &[1, 2]).unwrap(), true);
}

#[test]
fn set_query_keys_convert() {
    let keys = vec![KeyData::from("1"), KeyData::from("x"), KeyData::from(3)];
    assert_eq!(query_keys(&keys, KeyType::Int, &cast), vec![KeyData::from(1), KeyData::from(3)]);
}

#[test]
fn split_parts_join_back() {
    for path in ["a.b.c", "", "x", "a..b", ".lead", "trail."] {
        assert_eq!(split_path(path).join("."), path);
        assert!(split_path(path).iter().all(|p| !p.contains('.')));
    }
}

#[test]
fn update_reaches_new_keys() {
    let old = RawDocument(Some(1), obj(vec![("t", Value::Array(vec![text("a"), text("b"), text("c")]))]));
    let new = RawDocument(Some(1), obj(vec![("t", Value::Array(vec![text("c"), text("d")]))]));
    let mut held = sorted(index_keys(&old.1, "t", KeyType::String, &cast));
    let u = index_update(Some(&old), Some(&new), "t", KeyType::String, &cast).unwrap();
    let removed = sorted(u.remove);
    held.retain(|k| !removed.contains(k));
    held.extend(sorted(u.insert));
    held.sort();
    assert_eq!(held, sorted(index_keys(&new.1, "t", KeyType::String, &cast)));
}

#[test]
fn range_start_skips_only_the_bound() {
    let beg = Some((KeyData::from(10), false));
    assert_eq!(range_skips(&beg, &KeyData::from(10).into_raw()).unwrap(), true);
    assert_eq!(range_skips(&beg, &KeyData::from(11).into_raw()).unwrap(), false);
    let beg_inc = Some((KeyData::from(10), true));
    assert_eq!(range_skips(&beg_inc, &KeyData::from(10).into_raw()).unwrap(), false);
    assert_eq!(range_skips(&None, &[1, 2]).unwrap(), false);
    assert!(range_skips(&beg, &[1, 2]).is_err());
}
