use ledb::{derive_document, FieldDef, IndexKind, KeySource, KeyType, StructInput, StructShape};

fn group(words: &[&str]) -> Vec<String> {
    words.iter().map(|w| w.to_string()).collect()
}

fn field(ident: &str, rename: Option<&str>, groups: Vec<Vec<String>>, ty: &str) -> FieldDef {
    FieldDef { ident: ident.to_string(), serde_rename: rename.map(|r| r.to_string()), doc_groups: groups, ty: ty.to_string() }
}

fn named(fields: Vec<FieldDef>) -> StructInput {
    StructInput { doc_groups: Vec::new(), shape: StructShape::Named(fields) }
}

fn source(s: &KeySource) -> (Option<KeyType>, String) {
    match s {
        KeySource::Given(k) => (Some(*k), String::new()),
        KeySource::OfType(t) => (None, t.clone()),
    }
}

#[test]
fn derive_records_primary_and_keys() {
    let input = named(vec![
        field("id", None, vec![group(&["primary"])], "Option<u32>"),
        field("title", None, vec![group(&["unique"])], "String"),
        field("keywords", None, vec![group(&["index"])], "Vec<String>"),
        field("hash", None, vec![group(&["unique", "binary"])], "Vec<u8>"),
        field("ts", Some("time"), vec![group(&["index", "int"])], "u64"),
        field("plain", None, vec![], "bool"),
        field("meta", None, vec![group(&["nested"])], "Meta"),
    ]);
    let d = derive_document(&input).unwrap();
    assert_eq!(d.primary, Some("id".to_string()));
    let keys: Vec<(String, (Option<KeyType>, String), IndexKind)> =
        d.key_fields.iter().map(|(n, s, k)| (n.clone(), source(s), *k)).collect();
    assert_eq!(
        keys,
        vec![
            ("title".to_string(), (None, "String".to_string()), IndexKind::Unique),
            ("keywords".to_string(), (None, "Vec<String>".to_string()), IndexKind::Index),
            ("hash".to_string(), (Some(KeyType::Binary), String::new()), IndexKind::Unique),
            ("time".to_string(), (Some(KeyType::Int), String::new()), IndexKind::Index),
        ]
    );
    assert_eq!(d.nested, vec![("meta".to_string(), "Meta".to_string())]);
}

#[test]
fn derive_primary_takes_serde_rename() {
    let input = named(vec![field("id", Some("_id"), vec![group(&["primary"])], "u32")]);
    assert_eq!(derive_document(&input).unwrap().primary, Some("_id".to_string()));
}

#[test]
fn derive_rejects_two_primary_fields() {
    let input = named(vec![
        field("a", None, vec![group(&["primary"])], "u32"),
        field("b", None, vec![group(&["primary"])], "u32"),
    ]);
    assert_eq!(derive_document(&input).err(), Some("Only one primary key field per document allowed".to_string()));
}

#[test]
fn derive_requires_primary_unless_nested() {
    let input = named(vec![field("a", None, vec![group(&["index"])], "u32")]);
    assert_eq!(derive_document(&input).err(), Some("Document must contain primary key field".to_string()));
    let nested = StructInput {
        doc_groups: vec![group(&["nested"])],
        shape: StructShape::Named(vec![field("a", None, vec![group(&["index"])], "u32")]),
    };
    let d = derive_document(&nested).unwrap();
    assert_eq!(d.primary, None);
    assert_eq!(d.key_fields.len(), 1);
}

#[test]
fn derive_rejects_other_shapes() {
    let tuple = StructInput { doc_groups: Vec::new(), shape: StructShape::Unnamed };
    assert_eq!(
        derive_document(&tuple).err(),
        Some("Only struct with named fields can be represented as document".to_string())
    );
    let unit = StructInput { doc_groups: Vec::new(), shape: StructShape::Unit };
    assert!(derive_document(&unit).is_err());
    let other = StructInput { doc_groups: Vec::new(), shape: StructShape::NotStruct };
    assert_eq!(
        derive_document(&other).err(),
        Some("Storable documents can be implemented using structs only".to_string())
    );
}

fn keys(d: &ledb::DocumentImpl) -> Vec<(String, (Option<KeyType>, String), IndexKind)> {
    d.key_fields.iter().map(|(n, s, k)| (n.clone(), source(s), *k)).collect()
}

fn of_type(name: &str, ty: &str, kind: IndexKind) -> (String, (Option<KeyType>, String), IndexKind) {
    (name.to_string(), (None, ty.to_string()), kind)
}

#[test]
fn document_primary() {
    let input = named(vec![field("id", None, vec![group(&["primary"])], "Option<Primary>")]);
    let d = derive_document(&input).unwrap();
    assert_eq!(d.primary, Some("id".to_string()));
    assert!(d.key_fields.is_empty());
    assert!(d.nested.is_empty());
}

#[test]
fn document_primary_missing() {
    let input = named(vec![field("id", None, vec![], "Option<Primary>")]);
    assert_eq!(derive_document(&input).err().unwrap(), "Document must contain primary key field");
}

#[test]
fn document_primary_multiple() {
    let input = named(vec![
        field("id", None, vec![group(&["primary"])], "Option<Primary>"),
        field("key", None, vec![group(&["primary"])], "Option<Primary>"),
    ]);
    assert_eq!(derive_document(&input).err().unwrap(), "Only one primary key field per document allowed");
}

#[test]
fn document_primary_non_struct() {
    let input = StructInput { doc_groups: Vec::new(), shape: StructShape::NotStruct };
    assert_eq!(derive_document(&input).err().unwrap(), "Storable documents can be implemented using structs only");
}

#[test]
fn document_primary_not_named() {
    let input = StructInput { doc_groups: Vec::new(), shape: StructShape::Unnamed };
    assert_eq!(derive_document(&input).err().unwrap(), "Only struct with named fields can be represented as document");
}

#[test]
fn document_primary_serde_rename_before() {
    let input = named(vec![field("id", Some("_id"), vec![group(&["primary"])], "Option<Primary>")]);
    assert_eq!(derive_document(&input).unwrap().primary, Some("_id".to_string()));
}

#[test]
fn document_primary_serde_rename_after() {
    let input = named(vec![field("id", Some("_id"), vec![group(&["primary"])], "Option<Primary>")]);
    let d = derive_document(&input).unwrap();
    assert_eq!(d.primary, Some("_id".to_string()));
    assert!(d.key_fields.is_empty());
}

#[test]
fn document_key_fields() {
    let input = named(vec![
        field("id", None, vec![group(&["primary"])], "u32"),
        field("title", None, vec![group(&["unique"])], "String"),
        field("tags", None, vec![group(&["index"])], "Vec<String>"),
        field("timestamp", Some("created"), vec![group(&["unique"])], "i64"),
        field("hash", None, vec![group(&["index", "binary"])], "Vec<u8>"),
    ]);
    let d = derive_document(&input).unwrap();
    assert_eq!(d.primary, Some("id".to_string()));
    assert_eq!(
        keys(&d),
        vec![
            of_type("title", "String", IndexKind::Unique),
            of_type("tags", "Vec<String>", IndexKind::Index),
            of_type("created", "i64", IndexKind::Unique),
            ("hash".to_string(), (Some(KeyType::Binary), String::new()), IndexKind::Index),
        ]
    );
    assert!(d.nested.is_empty());
}

#[test]
fn document_nested() {
    let input = StructInput {
        doc_groups: vec![group(&["nested"])],
        shape: StructShape::Named(vec![field("field", None, vec![group(&["unique"])], "String")]),
    };
    let d = derive_document(&input).unwrap();
    assert_eq!(d.primary, None);
    assert_eq!(keys(&d), vec![of_type("field", "String", IndexKind::Unique)]);
}

#[test]
fn document_nested_nested() {
    let src1 = named(vec![
        field("id", None, vec![group(&["primary"])], "Option<Primary>"),
        field("field", None, vec![group(&["unique"])], "String"),
        field("nested", None, vec![group(&["nested"])], "Vec<NestedDoc>"),
    ]);
    let src2 = StructInput {
        doc_groups: vec![group(&["nested"])],
        shape: StructShape::Named(vec![field("field", None, vec![group(&["index"])], "i32")]),
    };
    let res1 = derive_document(&src1).unwrap();
    let res2 = derive_document(&src2).unwrap();
    assert_eq!(res1.primary, Some("id".to_string()));
    assert_eq!(keys(&res1), vec![of_type("field", "String", IndexKind::Unique)]);
    assert_eq!(res1.nested, vec![("nested".to_string(), "Vec<NestedDoc>".to_string())]);
    assert_eq!(res2.primary, None);
    assert_eq!(keys(&res2), vec![of_type("field", "i32", IndexKind::Index)]);
    assert!(res2.nested.is_empty());
}
