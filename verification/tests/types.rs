use ledb::{Identifier, IndexKind, KeyField, KeyFields, KeyType};

#[test]
fn key_field_builders() {
    let f = KeyField::new("name").with_type(KeyType::String).with_kind(IndexKind::Unique);
    assert_eq!(f, KeyField { path: "name".into(), key: KeyType::String, kind: IndexKind::Unique });
    let d = KeyField::new("x");
    assert_eq!((d.key, d.kind), (KeyType::Binary, IndexKind::Index));
    assert_eq!(f.with_parent("user").path, "user.name");
}

#[test]
fn key_fields_builders() {
    let a = KeyFields::new().with_field(KeyField::new("a"));
    let b = KeyFields::new().with_field(KeyField::new("b").with_type(KeyType::Int));
    let all = a.with_fields(b);
    assert_eq!(all.len(), 2);
    let all = all.with_parent("p");
    assert_eq!(all.0[0].path, "p.a");
    assert_eq!(all.0[1].path, "p.b");
    assert_eq!(all.0[1].key, KeyType::Int);
}

#[test]
fn identifier_forms_compare_by_text() {
    assert_eq!(Identifier::from("abc"), Identifier::from(String::from("abc")));
    assert_eq!(Identifier::from("abc").as_str(), "abc");
    assert_eq!(Identifier::default().as_str(), "");
}

#[test]
fn key_fields_from_tuples() {
    let f = KeyFields::new()
        .with_field(("a",))
        .with_field(("b", KeyType::Int))
        .with_field(("c", IndexKind::Unique))
        .with_field(("d", KeyType::String, IndexKind::Unique));
    assert_eq!(
        f.0,
        vec![
            KeyField { path: "a".into(), key: KeyType::Binary, kind: IndexKind::Index },
            KeyField { path: "b".into(), key: KeyType::Int, kind: IndexKind::Index },
            KeyField { path: "c".into(), key: KeyType::Binary, kind: IndexKind::Unique },
            KeyField { path: "d".into(), key: KeyType::String, kind: IndexKind::Unique },
        ]
    );
}
