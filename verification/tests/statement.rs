use ledb::{
    extract, parse_comp, parse_extract, parse_filter, parse_modify, parse_query, parse_wrapped, ActionSyntax, CompSyntax,
    DocSyntax, Extract, FilterSyntax, IndexKind, KeyType, OrderKind, OrderSyntax, QueryPart, QuerySyntax, ValSyntax,
};

fn whole(src: &str) -> QuerySyntax {
    let (q, n) = parse_query(src).unwrap();
    assert_eq!(n, src.chars().count());
    q
}

fn accepted(src: &str) -> bool {
    matches!(parse_query(src), Ok((_, n)) if n == src.chars().count())
}

fn wrapped(src: &str) -> QuerySyntax {
    let (cb, q, n) = parse_wrapped(src).unwrap();
    assert_eq!(cb, "callback");
    assert_eq!(n, src.chars().count());
    q
}

fn filter(src: &str) -> Option<FilterSyntax> {
    Some(parse_filter(src).unwrap().0)
}

fn modify(src: &str) -> Vec<(String, ActionSyntax)> {
    parse_modify(src).unwrap().0
}

fn find(ty: &str, filter: Option<FilterSyntax>, order: OrderSyntax) -> QuerySyntax {
    QuerySyntax::Find(ty.into(), "collection".into(), filter, order)
}

fn asc() -> OrderSyntax {
    OrderSyntax::Primary(OrderKind::Asc)
}

#[test]
fn index() {
    assert_eq!(
        wrapped("callback, index for collection field int"),
        QuerySyntax::Index("collection".into(), vec![("field".into(), IndexKind::Index, KeyType::Int)])
    );
    wrapped("callback, index for collection field string unique, field.subfield float, other_field bool dup");
}

#[test]
fn query_find() {
    assert_eq!(wrapped("callback, find in collection"), find("_", None, asc()));
    assert_eq!(wrapped("callback, find Doc in collection"), find("Doc", None, asc()));
}

#[test]
fn insert() {
    assert_eq!(
        wrapped("callback, insert into collection document"),
        QuerySyntax::Insert("collection".into(), DocSyntax::Expr("document".into()))
    );
    assert_eq!(
        wrapped("callback, insert into collection {}"),
        QuerySyntax::Insert("collection".into(), DocSyntax::Json("{}".into()))
    );
}

#[test]
fn query_update() {
    assert_eq!(
        wrapped("callback, update in collection modify field = 1"),
        QuerySyntax::Update("collection".into(), None, modify("field = 1"))
    );
}

#[test]
fn remove() {
    assert_eq!(wrapped("callback, remove from collection"), QuerySyntax::Remove("collection".into(), None));
}

#[test]
fn with_type() {
    assert_eq!(whole("find Doc in collection"), find("Doc", None, asc()));
}

#[test]
fn with_infer() {
    assert_eq!(whole("find _ in collection"), find("_", None, asc()));
}

#[test]
fn without_type() {
    assert_eq!(whole("find in collection"), find("_", None, asc()));
}

#[test]
fn with_order() {
    assert_eq!(whole("find in collection order asc"), find("_", None, asc()));
    assert_eq!(whole("find in collection order desc"), find("_", None, OrderSyntax::Primary(OrderKind::Desc)));
    assert_eq!(
        whole("find in collection order by field asc"),
        find("_", None, OrderSyntax::Field("field".into(), OrderKind::Asc))
    );
    assert_eq!(
        whole("find in collection order by field.subfield desc"),
        find("_", None, OrderSyntax::Field("field.subfield".into(), OrderKind::Desc))
    );
}

#[test]
fn single_without_kind() {
    assert_eq!(
        whole("index for collection field int"),
        QuerySyntax::Index("collection".into(), vec![("field".into(), IndexKind::Index, KeyType::Int)])
    );
    assert_eq!(
        whole("index for collection field str"),
        QuerySyntax::Index("collection".into(), vec![("field".into(), IndexKind::Index, KeyType::String)])
    );
}

#[test]
fn single_with_kind() {
    assert_eq!(
        whole("index for collection field int unique"),
        QuerySyntax::Index("collection".into(), vec![("field".into(), IndexKind::Unique, KeyType::Int)])
    );
    assert_eq!(
        whole("index for collection field int duplicate"),
        QuerySyntax::Index("collection".into(), vec![("field".into(), IndexKind::Index, KeyType::Int)])
    );
}

#[test]
fn multiple() {
    assert_eq!(
        whole("index for collection field int unique, field.subfield string, key.subkey bool dup"),
        QuerySyntax::Index(
            "collection".into(),
            vec![
                ("field".into(), IndexKind::Unique, KeyType::Int),
                ("field.subfield".into(), IndexKind::Index, KeyType::String),
                ("key.subkey".into(), IndexKind::Index, KeyType::Bool),
            ]
        )
    );
}

#[test]
fn index_invalid() {
    assert!(!accepted("index collection field int"));
    assert!(!accepted("index for collection field"));
}

#[test]
fn typed() {
    assert_eq!(
        whole("insert into collection document"),
        QuerySyntax::Insert("collection".into(), DocSyntax::Expr("document".into()))
    );
}

#[test]
fn json() {
    assert_eq!(
        whole("insert into collection { \"field\": \"value\" }"),
        QuerySyntax::Insert("collection".into(), DocSyntax::Json("{ \"field\": \"value\" }".into()))
    );
}

#[test]
fn remove_without_filter() {
    assert_eq!(whole("remove from collection"), QuerySyntax::Remove("collection".into(), None));
}

#[test]
fn update_without_filter() {
    assert_eq!(
        whole("update in collection modify field = 1"),
        QuerySyntax::Update("collection".into(), None, modify("field = 1"))
    );
}

#[test]
fn macros_find() {
    assert_eq!(whole("find in collection"), find("_", None, asc()));
    assert_eq!(whole("find Value in collection"), find("Value", None, asc()));
    assert_eq!(
        whole("find Value in collection order desc"),
        find("Value", None, OrderSyntax::Primary(OrderKind::Desc))
    );
    assert_eq!(
        whole("find Value in collection order by field"),
        find("Value", None, OrderSyntax::Field("field".into(), OrderKind::Asc))
    );
    assert_eq!(
        whole("find Value in collection order by field desc"),
        find("Value", None, OrderSyntax::Field("field".into(), OrderKind::Desc))
    );
    assert_eq!(
        whole("find Value in collection where field == \"abc\""),
        find("Value", filter("field == \"abc\""), asc())
    );
    assert_eq!(
        whole("find Value in collection where field == \"abc\" order desc"),
        find("Value", filter("field == \"abc\""), OrderSyntax::Primary(OrderKind::Desc))
    );
    assert_eq!(
        whole("find Value in collection where some.field == \"abc\" order by other.field desc"),
        find("Value", filter("some.field == \"abc\""), OrderSyntax::Field("other.field".into(), OrderKind::Desc))
    );
}

#[test]
fn macros_update() {
    assert_eq!(
        whole("update in collection modify field = 123"),
        QuerySyntax::Update("collection".into(), None, modify("field = 123"))
    );
    assert_eq!(
        whole("update in collection modify field.with.sub.field = 123"),
        QuerySyntax::Update("collection".into(), None, modify("field.with.sub.field = 123"))
    );
    assert_eq!(
        whole("update in collection modify field.with.sub.field = 123, other.field = \"abc\""),
        QuerySyntax::Update("collection".into(), None, modify("field.with.sub.field = 123, other.field = \"abc\""))
    );
    assert_eq!(
        whole("update in collection modify field = \"def\" where field == \"abc\""),
        QuerySyntax::Update("collection".into(), filter("field == \"abc\""), modify("field = \"def\""))
    );
    assert_eq!(
        whole("update in collection modify field = \"def\", other.field += 123, some.flag~ where field == \"abc\" && some.flag?"),
        QuerySyntax::Update(
            "collection".into(),
            filter("field == \"abc\" && some.flag?"),
            modify("field = \"def\", other.field += 123, some.flag~")
        )
    );
}

#[test]
fn update_takes_the_filter_first_too() {
    assert_eq!(
        whole("update in collection where field == 1 modify field = 2"),
        QuerySyntax::Update("collection".into(), filter("field == 1"), modify("field = 2"))
    );
    assert!(!accepted("update in collection"));
    assert!(!accepted("update in collection modify"));
    assert!(!accepted("update in collection where field == 1"));
}

#[test]
fn statement_errors() {
    assert_eq!(parse_query("").err().unwrap().message, "Invalid query");
    assert!(parse_query("select from collection").is_err());
    assert!(parse_query("find collection").is_err());
    assert!(parse_query("insert into collection").is_err());
    assert!(parse_query("remove collection").is_err());
    assert!(parse_query("find in collection where").is_err());
    assert!(parse_query("find in collection order").is_err());
    assert_eq!(parse_query("remove from c where a == 1 x").unwrap().1, 26);
}

#[test]
fn extract_gives_the_asked_part() {
    let q = whole("find Doc in docs where a == 1 order desc");
    assert_eq!(extract(Extract::DocumentType, whole("find Doc in docs")), Some(QueryPart::DocumentType("Doc".into())));
    assert_eq!(extract(Extract::Collection, whole("find Doc in docs")), Some(QueryPart::Collection("docs".into())));
    assert_eq!(extract(Extract::CollectionName, whole("remove from docs")), Some(QueryPart::CollectionName("docs".into())));
    assert_eq!(extract(Extract::Filter, q), Some(QueryPart::Filter(filter("a == 1").unwrap())));
    assert_eq!(
        extract(Extract::Order, whole("find Doc in docs where a == 1 order desc")),
        Some(QueryPart::Order(OrderSyntax::Primary(OrderKind::Desc)))
    );
    assert_eq!(extract(Extract::Filter, whole("find in docs")), None);
    assert_eq!(extract(Extract::Modify, whole("find in docs")), None);
    assert_eq!(
        extract(Extract::Fields, whole("index for docs a int")),
        Some(QueryPart::Fields(vec![("a".into(), IndexKind::Index, KeyType::Int)]))
    );
    assert_eq!(extract(Extract::Document, whole("index for docs a int")), None);
    assert_eq!(
        extract(Extract::Document, whole("insert into docs doc")),
        Some(QueryPart::Document(DocSyntax::Expr("doc".into())))
    );
    assert_eq!(
        extract(Extract::Modify, whole("update in docs modify a = 1")),
        Some(QueryPart::Modify(modify("a = 1")))
    );
}

#[test]
fn extract_query_text() {
    let (k, q, n) = parse_extract("COLLECTION_NAME, remove from docs").unwrap();
    assert_eq!((k, n), (Extract::CollectionName, 33));
    assert_eq!(q, QuerySyntax::Remove("docs".into(), None));
    assert_eq!(parse_extract("DOCUMENT_TYPE, find in docs").unwrap().0, Extract::DocumentType);
    assert_eq!(parse_extract("DOCUMENT, insert into docs {}").unwrap().0, Extract::Document);
    assert!(parse_extract("NAME, find in docs").is_err());
    assert!(parse_extract("FILTER find in docs").is_err());
}

#[test]
fn values_are_whole_expressions() {
    assert!(parse_comp("== (1 2)").is_err());
    assert!(parse_comp("== (1, 2").is_err());
    assert_eq!(parse_comp("== (1+2-3)").unwrap(), (CompSyntax::Eq(ValSyntax::Single("(1+2-3)".into())), 10));
    assert_eq!(parse_comp("== \"x\" order desc").unwrap(), (CompSyntax::Eq(ValSyntax::Single("\"x\"".into())), 6));
    assert_eq!(parse_comp("== a.b(1, [2; 3])? + -4").unwrap().1, 23);
    assert_eq!(parse_comp("== vec![1, 2] x").unwrap(), (CompSyntax::Eq(ValSyntax::Single("vec![1, 2]".into())), 13));
    assert_eq!(parse_comp("== x as u8").unwrap(), (CompSyntax::Eq(ValSyntax::Single("x as u8".into())), 10));
}
