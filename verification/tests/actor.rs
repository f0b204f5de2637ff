use ledb::{
    CollectionParams, Delete, DeleteMsg, DropCollection, DropIndex, EnsureCollection, EnsureIndex, Get, GetIndexes,
    Identifier, IndexKind, KeyFields, KeyType, Put, SetIndexes, Value,
};

#[test]
fn messages_hold_their_arguments() {
    assert_eq!(EnsureCollection("users").0, Identifier::from("users"));
    assert_eq!(DropCollection(String::from("users")).0, Identifier::from("users"));
    assert_eq!(GetIndexes("c").0, Identifier::from("c"));
    let m = SetIndexes("c", KeyFields::new());
    assert_eq!(m.0, Identifier::from("c"));
    assert_eq!(m.1, KeyFields::new());
    let m = EnsureIndex("c", "f", IndexKind::Unique, KeyType::Int);
    assert_eq!((m.0, m.1, m.2, m.3), (Identifier::from("c"), Identifier::from("f"), IndexKind::Unique, KeyType::Int));
    let m = DropIndex("c", "f");
    assert_eq!((m.0, m.1), (Identifier::from("c"), Identifier::from("f")));
    let m = Get::<_, Value>("c", 5);
    assert_eq!(m.1, 5);
    let m = Put("c", 9u8);
    assert_eq!(m.1, 9);
    assert_eq!(Delete("c", 3), DeleteMsg(Identifier::from("c"), 3));
    let p = CollectionParams { name: "x".into() };
    assert_eq!(p.name, "x");
}
