use ledb::{parse_action, parse_comp, parse_filter, parse_index_kind, parse_key_type, parse_modify, parse_order, parse_where, IndexKind, KeyType, ActionSyntax, OrderKind, OrderSyntax, Bord, CompSyntax, Dir, FilterSyntax, Orig, PointSyntax, ValSyntax};

fn one(x: &str) -> ValSyntax {
    ValSyntax::Single(x.to_string())
}

fn list(xs: &[&str]) -> ValSyntax {
    ValSyntax::List(xs.iter().map(|x| x.to_string()).collect())
}

fn point(from_end: bool, down: bool, x: &str) -> PointSyntax {
    PointSyntax {
        orig: if from_end { Orig::End } else { Orig::Begin },
        dir: if down { Dir::Down } else { Dir::Up },
        value: one(x),
    }
}

#[test]
fn literal_expr() {
    parse_comp("== \"abc\"").unwrap();
    parse_comp("== 123").unwrap();
    parse_comp("== true").unwrap();
    parse_comp("== var").unwrap();
}

#[test]
fn nested_expr() {
    parse_comp("== (1+2-3)").unwrap();
    parse_comp("== {1+2-3}").unwrap();
}

#[test]
fn invalid_expr() {
    parse_comp("== (1+2-3)").unwrap();
}

#[test]
fn comparison_operators() {
    assert_eq!(parse_comp("== \"abc\"").unwrap(), (CompSyntax::Eq(one("\"abc\"")), 8));
    assert_eq!(parse_comp(" >= 123").unwrap(), (CompSyntax::Ge(one("123")), 7));
    assert_eq!(parse_comp("> 1").unwrap(), (CompSyntax::Gt(one("1")), 3));
    assert_eq!(parse_comp("< x ").unwrap(), (CompSyntax::Lt(one("x")), 3));
    assert_eq!(parse_comp("<= 3").unwrap(), (CompSyntax::Le(one("3")), 4));
    assert_eq!(parse_comp("!= y").unwrap(), (CompSyntax::Ne(one("y")), 4));
    assert_eq!(parse_comp(" ?").unwrap(), (CompSyntax::Has, 2));
    assert_eq!(parse_comp("in [1, 2, 3]").unwrap(), (CompSyntax::In(list(&["1", "2", "3"])), 12));
    assert_eq!(parse_comp("! in [a,]").unwrap(), (CompSyntax::Ni(list(&["a"])), 9));
    assert_eq!(parse_comp("in values").unwrap(), (CompSyntax::In(one("values")), 9));
}

#[test]
fn comparison_ranges() {
    assert_eq!(
        parse_comp("in 123..456").unwrap(),
        (CompSyntax::Bw(point(false, false, "123"), Bord::Incl, point(false, false, "456"), Bord::Incl), 11)
    );
    assert_eq!(
        parse_comp("<in> 1..#-2").unwrap(),
        (CompSyntax::Bw(point(false, false, "1"), Bord::Excl, point(true, true, "2"), Bord::Excl), 11)
    );
    assert_eq!(
        parse_comp("<in a..b").unwrap(),
        (CompSyntax::Bw(point(false, false, "a"), Bord::Excl, point(false, false, "b"), Bord::Incl), 8)
    );
    assert_eq!(
        parse_comp("in> a..b").unwrap(),
        (CompSyntax::Bw(point(false, false, "a"), Bord::Incl, point(false, false, "b"), Bord::Excl), 8)
    );
}

#[test]
fn comparison_expression_extent() {
    assert_eq!(parse_comp("== f(a, b), rest").unwrap(), (CompSyntax::Eq(one("f(a, b)")), 10));
    assert_eq!(parse_comp("== \"a,b\" ").unwrap(), (CompSyntax::Eq(one("\"a,b\"")), 8));
}

#[test]
fn comparison_errors() {
    assert!(parse_comp("").is_err());
    assert!(parse_comp("=").is_err());
    assert!(parse_comp("== ").is_err());
    assert!(parse_comp("! x").is_err());
    assert!(parse_comp("in [1, 2").is_err());
    assert!(parse_comp("in [1 2]").is_err());
    assert_eq!(parse_comp("~ 1").err().unwrap().message, "Invalid comparison");
}

#[test]
fn action_operators() {
    assert_eq!(parse_action("= 123").unwrap(), (ActionSyntax::Assign("123".into()), 5));
    assert_eq!(parse_action(" -").unwrap(), (ActionSyntax::Delete, 2));
    assert_eq!(parse_action("~").unwrap(), (ActionSyntax::Delete, 1));
    assert_eq!(parse_action("+= 1").unwrap(), (ActionSyntax::Add("1".into()), 4));
    assert_eq!(parse_action("-= 2").unwrap(), (ActionSyntax::Sub("2".into()), 4));
    assert_eq!(parse_action("*= 3").unwrap(), (ActionSyntax::Mul("3".into()), 4));
    assert_eq!(parse_action("/= 4").unwrap(), (ActionSyntax::Div("4".into()), 4));
    assert_eq!(parse_action("!").unwrap(), (ActionSyntax::Toggle, 1));
    assert_eq!(
        parse_action("~= \"a+\" \"b\"").unwrap(),
        (ActionSyntax::Replace("\"a+\"".into(), "\"b\"".into()), 11)
    );
    assert_eq!(parse_action("~= {\"a\": 1, \"b\": 2}").unwrap(), (ActionSyntax::Merge("{\"a\": 1, \"b\": 2}".into()), 19));
}

#[test]
fn action_splices() {
    assert_eq!(
        parse_action("[1..3] = [0]").unwrap(),
        (ActionSyntax::Splice(point(false, false, "1"), point(false, false, "3"), Some(list(&["0"]))), 12)
    );
    assert_eq!(
        parse_action("[#0..#0] -").unwrap(),
        (ActionSyntax::Splice(point(true, false, "0"), point(true, false, "0"), None), 10)
    );
    assert!(parse_action("[1..3]").is_err());
    assert!(parse_action("== 1").is_err());
    assert_eq!(parse_action("?").err().unwrap().message, "Invalid action");
}

fn cmp(path: &str, c: CompSyntax) -> FilterSyntax {
    FilterSyntax::Comp(path.to_string(), c)
}

#[test]
fn eq() {
    parse_filter("field == \"abc\"").unwrap();
}

#[test]
fn ge() {
    parse_filter("field >= 123").unwrap();
}

#[test]
fn nested() {
    parse_filter("field.subfield < 123").unwrap();
}

#[test]
fn or() {
    parse_filter("some.field == \"abc\" || other.field > 123").unwrap();
}

#[test]
fn and() {
    parse_filter("some.field == \"abc\" && other.field > 123").unwrap();
}

#[test]
fn not() {
    parse_filter("! field == \"abc\"").unwrap();
    parse_filter("!(field == \"abc\")").unwrap();
    parse_filter("field != \"abc\"").unwrap();
}

#[test]
fn filter_structure() {
    assert_eq!(
        parse_filter("field.subfield < 123").unwrap(),
        (cmp("field.subfield", CompSyntax::Lt(one("123"))), 20)
    );
    assert_eq!(
        parse_filter("some.field == \"abc\" || other.field > 123").unwrap(),
        (
            FilterSyntax::Or(vec![cmp("some.field", CompSyntax::Eq(one("\"abc\""))), cmp("other.field", CompSyntax::Gt(one("123")))]),
            40
        )
    );
    assert_eq!(
        parse_filter("a ? || b ? && !(c == 1)").unwrap(),
        (
            FilterSyntax::Or(vec![
                cmp("a", CompSyntax::Has),
                FilterSyntax::And(vec![cmp("b", CompSyntax::Has), FilterSyntax::Not(Box::new(cmp("c", CompSyntax::Eq(one("1")))))]),
            ]),
            23
        )
    );
    let negated = FilterSyntax::Not(Box::new(cmp("field", CompSyntax::Eq(one("\"abc\"")))));
    assert_eq!(parse_filter("! field == \"abc\"").unwrap().0, negated);
    assert_eq!(parse_filter("!(field == \"abc\")").unwrap().0, negated);
    assert_eq!(parse_filter("field != \"abc\"").unwrap().0, negated);
    assert_eq!(parse_filter("!field != 1").unwrap().0, cmp("field", CompSyntax::Eq(one("1"))));
    assert_eq!(parse_filter("f !in [1]").unwrap().0, FilterSyntax::Not(Box::new(cmp("f", CompSyntax::In(list(&["1"]))))));
}

#[test]
fn filter_errors() {
    assert!(parse_filter("").is_err());
    assert!(parse_filter("== 1").is_err());
    assert!(parse_filter("a == 1 &&").is_err());
    assert!(parse_filter("(a == 1").is_err());
    assert_eq!(parse_filter("1a == 1").err().unwrap().message, "Invalid filter");
}

#[test]
fn filter_parentheses_and_of() {
    assert_eq!(
        parse_filter("!(a? || b of [1])").unwrap(),
        (
            FilterSyntax::Not(Box::new(FilterSyntax::Or(vec![cmp("a", CompSyntax::Has), cmp("b", CompSyntax::In(list(&["1"])))]))),
            17
        )
    );
    assert_eq!(parse_filter("(a?)").unwrap(), (cmp("a", CompSyntax::Has), 4));
    assert_eq!(parse_comp("!of x").unwrap(), (CompSyntax::Ni(one("x")), 5));
}

#[test]
fn primary() {
    parse_order("asc").unwrap();
    parse_order("desc").unwrap();
    assert_eq!(parse_order("asc").unwrap(), (OrderSyntax::Primary(OrderKind::Asc), 3));
    assert_eq!(parse_order(" desc").unwrap(), (OrderSyntax::Primary(OrderKind::Desc), 5));
    assert_eq!(parse_order("").unwrap(), (OrderSyntax::Primary(OrderKind::Asc), 0));
}

#[test]
fn field() {
    parse_order("by field asc").unwrap();
    parse_order("by field.subfield desc").unwrap();
    assert_eq!(parse_order("by field.subfield desc").unwrap(), (OrderSyntax::Field("field.subfield".into(), OrderKind::Desc), 22));
    assert_eq!(parse_order("by a.b.c <").unwrap(), (OrderSyntax::Field("a.b.c".into(), OrderKind::Desc), 10));
}

#[test]
fn order_invalid() {
    assert!(parse_order("field asc").is_err());
    assert!(parse_order("field.subfield desc").is_err());
    assert!(parse_order("by field/subfield desc").is_err());
    assert_eq!(parse_order("ascending").err().unwrap().message, "Invalid order");
}

#[test]
fn asc() {
    parse_order("asc").unwrap();
    parse_order("desc").unwrap();
}

#[test]
fn desc() {
    assert_eq!(parse_order(">").unwrap(), (OrderSyntax::Primary(OrderKind::Asc), 1));
    assert_eq!(parse_order("<").unwrap(), (OrderSyntax::Primary(OrderKind::Desc), 1));
}

#[test]
fn order_kind_invalid() {
    assert!(parse_order("true").is_err());
    assert!(parse_order("false").is_err());
    assert!(parse_order("_").is_err());
    assert!(parse_order("&").is_err());
}

#[test]
fn integer() {
    parse_key_type("integer").unwrap();
    parse_key_type("int").unwrap();
    assert_eq!(parse_key_type(" integer").unwrap(), (KeyType::Int, 8));
}

#[test]
fn float() {
    assert_eq!(parse_key_type("float").unwrap(), (KeyType::Float, 5));
}

#[test]
fn boolean() {
    assert_eq!(parse_key_type("boolean").unwrap(), (KeyType::Bool, 7));
    assert_eq!(parse_key_type("bool").unwrap(), (KeyType::Bool, 4));
}

#[test]
fn string() {
    assert_eq!(parse_key_type("string").unwrap(), (KeyType::String, 6));
    assert_eq!(parse_key_type("str").unwrap(), (KeyType::String, 3));
    assert_eq!(parse_key_type("text").unwrap(), (KeyType::String, 4));
}

#[test]
fn binary() {
    assert_eq!(parse_key_type("binary").unwrap(), (KeyType::Binary, 6));
    assert_eq!(parse_key_type("bin").unwrap(), (KeyType::Binary, 3));
}

#[test]
fn key_type_invalid() {
    assert!(parse_key_type("number").is_err());
    assert!(parse_key_type("num").is_err());
    assert!(parse_key_type("_").is_err());
    assert!(parse_key_type("bytes").is_err());
    assert!(parse_key_type("integers").is_err());
}

#[test]
fn unique() {
    assert_eq!(parse_index_kind("unique").unwrap(), (IndexKind::Unique, 6));
    assert_eq!(parse_index_kind("uni").unwrap(), (IndexKind::Unique, 3));
}

#[test]
fn duplicate() {
    assert_eq!(parse_index_kind("duplicate").unwrap(), (IndexKind::Index, 9));
    assert_eq!(parse_index_kind("dup").unwrap(), (IndexKind::Index, 3));
}

#[test]
fn index_kind_invalid() {
    assert!(parse_index_kind("uniq").is_err());
    assert!(parse_index_kind("dupl").is_err());
    assert_eq!(parse_index_kind("x").err().unwrap().message, "Invalid index kind");
}

#[test]
fn modify_set() {
    parse_modify("field = 1").unwrap();
    parse_modify("field = -0.5").unwrap();
    parse_modify("field = \"abc\"").unwrap();
    parse_modify("field = true").unwrap();
    assert_eq!(
        parse_modify("field = -0.5, other ~").unwrap(),
        (vec![("field".to_string(), ActionSyntax::Assign("-0.5".into())), ("other".to_string(), ActionSyntax::Delete)], 21)
    );
    assert!(parse_modify("field == 1").is_err());
}

#[test]
fn where_blank_is_no_filter() {
    assert_eq!(parse_where("  ").unwrap(), (None, 2));
    assert_eq!(parse_where(" a?").unwrap(), (Some(cmp("a", CompSyntax::Has)), 3));
    assert!(parse_where("== 1").is_err());
}
