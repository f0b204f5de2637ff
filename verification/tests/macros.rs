use ledb::{
    parse_filter, parse_modify, parse_order, parse_where, Action, ActionSyntax, OrderSyntax, Bord, Comp, CompSyntax, Cond, Filter, FilterSyntax, KeyData, Modify, Order, OrderKind, PointSyntax,
    ValSyntax, Value, WrappedRegex, Dir,
};

/// The key that an expression of a query text stands for: a literal, or a
/// (possibly negated) name bound in `env`
fn key_of(text: &str, env: &[(&str, i64)]) -> KeyData {
    let t = text.trim();
    if t.starts_with('"') && t.ends_with('"') && t.len() >= 2 {
        return KeyData::String(t[1..t.len() - 1].to_string());
    }
    if let Ok(i) = t.parse::<i64>() {
        return KeyData::Int(i);
    }
    let (neg, name) = if let Some(rest) = t.strip_prefix('-') { (true, rest.trim()) } else { (false, t) };
    let v = env.iter().find(|(n, _)| *n == name).map(|(_, v)| *v).expect("a bound name");
    KeyData::Int(if neg { -v } else { v })
}

fn keys_of(v: &ValSyntax, env: &[(&str, i64)], lists: &[(&str, Vec<i64>)]) -> Vec<KeyData> {
    match v {
        ValSyntax::List(xs) => xs.iter().map(|x| key_of(x, env)).collect(),
        ValSyntax::Single(x) => {
            lists.iter().find(|(n, _)| n == x).expect("a bound list").1.iter().map(|i| KeyData::Int(*i)).collect()
        },
    }
}

fn single(v: &ValSyntax, env: &[(&str, i64)]) -> KeyData {
    match v {
        ValSyntax::Single(x) => key_of(x, env),
        ValSyntax::List(_) => panic!("a single value"),
    }
}

fn point_key(p: &PointSyntax, env: &[(&str, i64)]) -> KeyData {
    match (single(&p.value, env), p.dir) {
        (KeyData::Int(i), Dir::Down) => KeyData::Int(-i),
        (k, _) => k,
    }
}

/// The filter that a parsed query text stands for
fn lower(f: &FilterSyntax, env: &[(&str, i64)], lists: &[(&str, Vec<i64>)]) -> Filter {
    match f {
        FilterSyntax::Comp(path, c) => Filter::Comp(
            path.clone(),
            match c {
                CompSyntax::Eq(v) => Comp::Eq(single(v, env)),
                CompSyntax::In(v) => Comp::In(keys_of(v, env, lists)),
                CompSyntax::Lt(v) => Comp::Lt(single(v, env)),
                CompSyntax::Le(v) => Comp::Le(single(v, env)),
                CompSyntax::Gt(v) => Comp::Gt(single(v, env)),
                CompSyntax::Ge(v) => Comp::Ge(single(v, env)),
                CompSyntax::Bw(a, ab, b, bb) => {
                    Comp::Bw(point_key(a, env), *ab == Bord::Incl, point_key(b, env), *bb == Bord::Incl)
                },
                CompSyntax::Has => Comp::Has,
                CompSyntax::Ne(_) | CompSyntax::Ni(_) => panic!("negations are taken out"),
            },
        ),
        FilterSyntax::Not(b) => Filter::Cond(Cond::Not(Box::new(lower(b, env, lists)))),
        FilterSyntax::And(v) => Filter::Cond(Cond::And(v.iter().map(|f| lower(f, env, lists)).collect())),
        FilterSyntax::Or(v) => Filter::Cond(Cond::Or(v.iter().map(|f| lower(f, env, lists)).collect())),
    }
}

/// The filter of a whole query text
fn q(text: &str) -> Filter {
    q_env(text, &[], &[])
}

fn q_env(text: &str, env: &[(&str, i64)], lists: &[(&str, Vec<i64>)]) -> Filter {
    let (f, n) = parse_filter(text).unwrap();
    assert_eq!(n, text.len());
    lower(&f, env, lists)
}

/// The value that an expression of a query text stands for: a literal (an
/// integer may carry a type suffix), or a name bound in `lists`
fn value_of(text: &str) -> Value {
    let t = text.trim();
    if t.starts_with('"') && t.ends_with('"') && t.len() >= 2 {
        return Value::Text(t[1..t.len() - 1].to_string());
    }
    let digits: String = t.chars().take_while(|c| c.is_ascii_digit() || *c == '-').collect();
    Value::Integer(digits.parse::<i128>().expect("an integer literal"))
}

fn unquote(text: &str) -> String {
    match value_of(text) {
        Value::Text(t) => t,
        _ => panic!("a string literal"),
    }
}

fn values_of(v: &ValSyntax, lists: &[(&str, Vec<i64>)]) -> Vec<Value> {
    match v {
        ValSyntax::List(xs) => xs.iter().map(|x| value_of(x)).collect(),
        ValSyntax::Single(x) => {
            lists.iter().find(|(n, _)| n == x).expect("a bound list").1.iter().map(|i| Value::Integer(*i as i128)).collect()
        },
    }
}

fn splice_point(p: &PointSyntax) -> i32 {
    let n = match &p.value {
        ValSyntax::Single(x) => x.trim().parse::<i32>().expect("an integer"),
        ValSyntax::List(_) => panic!("a single value"),
    };
    if p.dir == Dir::Down { -n } else { n }
}

/// The modifier of a whole query text
fn m_text(text: &str, lists: &[(&str, Vec<i64>)]) -> Modify {
    let (items, n) = parse_modify(text).unwrap();
    assert_eq!(n, text.trim_end().len());
    let mut m = Modify::default();
    for (path, a) in items.iter() {
        let act = match a {
            ActionSyntax::Assign(x) => Action::Assign(value_of(x)),
            ActionSyntax::Delete => Action::Delete,
            ActionSyntax::Add(x) => Action::Add(value_of(x)),
            ActionSyntax::Sub(x) => Action::Sub(value_of(x)),
            ActionSyntax::Mul(x) => Action::Mul(value_of(x)),
            ActionSyntax::Div(x) => Action::Div(value_of(x)),
            ActionSyntax::Toggle => Action::Toggle,
            ActionSyntax::Replace(p, x) => Action::Replace(WrappedRegex::new(&unquote(p)).unwrap(), unquote(x)),
            ActionSyntax::Splice(a, b, v) => Action::Splice(
                splice_point(a),
                splice_point(b),
                match v {
                    Some(v) => values_of(v, lists),
                    None => Vec::new(),
                },
            ),
            ActionSyntax::Merge(_) => panic!("merges are built by hand"),
        };
        m.add(path, act);
    }
    m
}

fn comp(field: &str, comp: Comp) -> Filter {
    Filter::Comp(field.to_string(), comp)
}

fn not(filter: Filter) -> Filter {
    Filter::Cond(Cond::Not(Box::new(filter)))
}

fn text(s: &str) -> Value {
    Value::Text(s.to_string())
}

fn modify(entries: Vec<(&str, Vec<Action>)>) -> Modify {
    Modify(entries.into_iter().map(|(f, acts)| (f.to_string(), acts)).collect())
}

#[test]
fn with_filter() {
    let f = Filter::comp("field", Comp::Eq(KeyData::from("abc")));
    assert_eq!(f, comp("field", Comp::Eq(KeyData::String("abc".into()))));
}

#[test]
fn with_filter_and_order() {
    let f = Filter::comp("field", Comp::Eq(KeyData::from("abc")));
    let o = Order::field("other.field", OrderKind::default());
    assert_eq!(f, comp("field", Comp::Eq(KeyData::String("abc".into()))));
    assert_eq!(o, Order::Field("other.field".into(), OrderKind::Asc));
}

#[test]
fn macros_empty() {
    let (filter, _) = parse_where(" ").unwrap();
    assert_eq!(filter, None);
    assert_eq!(parse_where("").unwrap(), (None, 0));
    assert_eq!(Modify::default(), Modify(Vec::new()));
    assert_eq!(m_text(" ", &[]), Modify::default());
}

#[test]
fn comp_eq() {
    assert_eq!(q("f == 123"), comp("f", Comp::Eq(KeyData::Int(123))));
    assert_eq!(q("f != 123"), not(comp("f", Comp::Eq(KeyData::Int(123)))));
    assert_eq!(q("f != \"abc\""), not(comp("f", Comp::Eq(KeyData::String("abc".into())))));

    assert_eq!(Filter::comp("f", Comp::Eq(KeyData::from(123))), comp("f", Comp::Eq(KeyData::Int(123))));
    assert_eq!(
        Filter::cond(Cond::Not(Box::new(Filter::comp("f", Comp::Eq(KeyData::from(123)))))),
        not(comp("f", Comp::Eq(KeyData::Int(123))))
    );
    assert_eq!(
        Filter::cond(Cond::Not(Box::new(Filter::comp("f", Comp::Eq(KeyData::from("abc")))))),
        not(comp("f", Comp::Eq(KeyData::String("abc".into()))))
    );
}

#[test]
fn comp_in() {
    assert_eq!(q("f of [1, 2, 3]"), comp("f", Comp::In(vec![KeyData::Int(1), KeyData::Int(2), KeyData::Int(3)])));
    assert_eq!(q("f !of [1, 2, 3]"), not(comp("f", Comp::In(vec![KeyData::Int(1), KeyData::Int(2), KeyData::Int(3)]))));
    assert_eq!(
        q("f of [\"a\", \"b\", \"c\"]"),
        comp("f", Comp::In(vec![KeyData::String("a".into()), KeyData::String("b".into()), KeyData::String("c".into())]))
    );
    assert_eq!(
        q_env("f of v", &[], &[("v", vec![1, 2, 3])]),
        comp("f", Comp::In(vec![KeyData::Int(1), KeyData::Int(2), KeyData::Int(3)]))
    );

    assert_eq!(
        Filter::comp("f", Comp::In(vec![KeyData::from(1), KeyData::from(2), KeyData::from(3)])),
        comp("f", Comp::In(vec![KeyData::Int(1), KeyData::Int(2), KeyData::Int(3)]))
    );
    assert_eq!(
        Filter::cond(Cond::Not(Box::new(Filter::comp(
            "f",
            Comp::In(vec![KeyData::from(1), KeyData::from(2), KeyData::from(3)])
        )))),
        not(comp("f", Comp::In(vec![KeyData::Int(1), KeyData::Int(2), KeyData::Int(3)])))
    );
    assert_eq!(
        Filter::comp("f", Comp::In(vec![KeyData::from("a"), KeyData::from("b"), KeyData::from("c")])),
        comp(
            "f",
            Comp::In(vec![KeyData::String("a".into()), KeyData::String("b".into()), KeyData::String("c".into())])
        )
    );
    let v = [1, 2, 3];
    assert_eq!(
        Filter::comp("f", Comp::In(v.iter().map(|x| KeyData::from(*x)).collect())),
        comp("f", Comp::In(vec![KeyData::Int(1), KeyData::Int(2), KeyData::Int(3)]))
    );
}

#[test]
fn comp_lt() {
    assert_eq!(q("f < 123"), comp("f", Comp::Lt(KeyData::Int(123))));

    assert_eq!(Filter::comp("f", Comp::Lt(KeyData::from(123))), comp("f", Comp::Lt(KeyData::Int(123))));
}

#[test]
fn comp_le() {
    assert_eq!(q("f <= 123"), comp("f", Comp::Le(KeyData::Int(123))));

    assert_eq!(Filter::comp("f", Comp::Le(KeyData::from(123))), comp("f", Comp::Le(KeyData::Int(123))));
}

#[test]
fn comp_gt() {
    assert_eq!(q("f > 123"), comp("f", Comp::Gt(KeyData::Int(123))));

    assert_eq!(Filter::comp("f", Comp::Gt(KeyData::from(123))), comp("f", Comp::Gt(KeyData::Int(123))));
}

#[test]
fn comp_ge() {
    assert_eq!(q("f >= 123"), comp("f", Comp::Ge(KeyData::Int(123))));

    assert_eq!(Filter::comp("f", Comp::Ge(KeyData::from(123))), comp("f", Comp::Ge(KeyData::Int(123))));
}

fn bw(a: i64, ia: bool, b: i64, ib: bool) -> Filter {
    Filter::comp("f", Comp::Bw(KeyData::from(a), ia, KeyData::from(b), ib))
}

#[test]
fn comp_bw() {
    assert_eq!(q("f in 12..34"), bw(12, true, 34, true));
    assert_eq!(q("f <in> 12..34"), bw(12, false, 34, false));
    assert_eq!(q("f <in 12..34"), bw(12, false, 34, true));
    assert_eq!(q("f in> 12..34"), bw(12, true, 34, false));
    assert_eq!(q("f in -12..-34"), bw(-12, true, -34, true));
    assert_eq!(q("f <in> -12..-34"), bw(-12, false, -34, false));
    assert_eq!(q("f <in -12..-34"), bw(-12, false, -34, true));
    assert_eq!(q("f in> -12..-34"), bw(-12, true, -34, false));

    assert_eq!(bw(12, true, 34, true), comp("f", Comp::Bw(KeyData::Int(12), true, KeyData::Int(34), true)));
    assert_eq!(bw(12, false, 34, false), comp("f", Comp::Bw(KeyData::Int(12), false, KeyData::Int(34), false)));
    assert_eq!(bw(12, false, 34, true), comp("f", Comp::Bw(KeyData::Int(12), false, KeyData::Int(34), true)));
    assert_eq!(bw(12, true, 34, false), comp("f", Comp::Bw(KeyData::Int(12), true, KeyData::Int(34), false)));
    assert_eq!(bw(-12, true, -34, true), comp("f", Comp::Bw(KeyData::Int(-12), true, KeyData::Int(-34), true)));
    assert_eq!(bw(-12, false, -34, false), comp("f", Comp::Bw(KeyData::Int(-12), false, KeyData::Int(-34), false)));
    assert_eq!(bw(-12, false, -34, true), comp("f", Comp::Bw(KeyData::Int(-12), false, KeyData::Int(-34), true)));
    assert_eq!(bw(-12, true, -34, false), comp("f", Comp::Bw(KeyData::Int(-12), true, KeyData::Int(-34), false)));
}

#[test]
fn comp_has() {
    assert_eq!(q("f?"), comp("f", Comp::Has));

    assert_eq!(Filter::comp("f", Comp::Has), comp("f", Comp::Has));
}

#[test]
fn cond_not() {
    assert_eq!(q("!a?"), not(comp("a", Comp::Has)));

    assert_eq!(Filter::cond(Cond::Not(Box::new(Filter::comp("a", Comp::Has)))), not(comp("a", Comp::Has)));
}

#[test]
fn cond_and() {
    assert_eq!(
        q("a == 3 && b >= 1"),
        Filter::Cond(Cond::And(vec![comp("a", Comp::Eq(KeyData::Int(3))), comp("b", Comp::Ge(KeyData::Int(1)))]))
    );

    assert_eq!(
        Filter::Cond(Cond::And(vec![
            Filter::comp("a", Comp::Eq(KeyData::from(3))),
            Filter::comp("b", Comp::Ge(KeyData::from(1))),
        ])),
        Filter::Cond(Cond::And(vec![comp("a", Comp::Eq(KeyData::Int(3))), comp("b", Comp::Ge(KeyData::Int(1)))]))
    );
}

#[test]
fn cond_or() {
    assert_eq!(
        q("a == \"abc\" || b <in> 12..34"),
        Filter::Cond(Cond::Or(vec![
            comp("a", Comp::Eq(KeyData::String("abc".into()))),
            comp("b", Comp::Bw(KeyData::Int(12), false, KeyData::Int(34), false)),
        ]))
    );

    assert_eq!(
        Filter::Cond(Cond::Or(vec![
            Filter::comp("a", Comp::Eq(KeyData::from("abc"))),
            Filter::comp("b", Comp::Bw(KeyData::from(12), false, KeyData::from(34), false)),
        ])),
        Filter::Cond(Cond::Or(vec![
            comp("a", Comp::Eq(KeyData::String("abc".into()))),
            comp("b", Comp::Bw(KeyData::Int(12), false, KeyData::Int(34), false)),
        ]))
    );
}

#[test]
fn cond_not_and() {
    assert_eq!(
        q("!(a == \"abc\" && b <in> 12..34)"),
        not(Filter::Cond(Cond::And(vec![
            comp("a", Comp::Eq(KeyData::String("abc".into()))),
            comp("b", Comp::Bw(KeyData::Int(12), false, KeyData::Int(34), false)),
        ])))
    );

    assert_eq!(
        Filter::Cond(Cond::Not(Box::new(Filter::Cond(Cond::And(vec![
            Filter::comp("a", Comp::Eq(KeyData::from("abc"))),
            Filter::comp("b", Comp::Bw(KeyData::from(12), false, KeyData::from(34), false)),
        ]))))),
        not(Filter::Cond(Cond::And(vec![
            comp("a", Comp::Eq(KeyData::String("abc".into()))),
            comp("b", Comp::Bw(KeyData::Int(12), false, KeyData::Int(34), false)),
        ])))
    );
}

#[test]
fn cond_and_not() {
    assert_eq!(
        q("a != \"abc\" && !(b <in> 12..34)"),
        Filter::Cond(Cond::And(vec![
            not(comp("a", Comp::Eq(KeyData::String("abc".into())))),
            not(comp("b", Comp::Bw(KeyData::Int(12), false, KeyData::Int(34), false))),
        ]))
    );

    assert_eq!(
        Filter::Cond(Cond::And(vec![
            Filter::cond(Cond::Not(Box::new(Filter::comp("a", Comp::Eq(KeyData::from("abc")))))),
            Filter::cond(Cond::Not(Box::new(Filter::comp(
                "b",
                Comp::Bw(KeyData::from(12), false, KeyData::from(34), false)
            )))),
        ])),
        Filter::Cond(Cond::And(vec![
            not(comp("a", Comp::Eq(KeyData::String("abc".into())))),
            not(comp("b", Comp::Bw(KeyData::Int(12), false, KeyData::Int(34), false))),
        ]))
    );
}

#[test]
fn cond_and_or() {
    assert_eq!(
        q_env("a of [1, 2, 3] && (b > b_edge || b < -b_edge)", &[("b_edge", 10)], &[]),
        Filter::Cond(Cond::And(vec![
            comp("a", Comp::In(vec![KeyData::Int(1), KeyData::Int(2), KeyData::Int(3)])),
            Filter::Cond(Cond::Or(vec![comp("b", Comp::Gt(KeyData::Int(10))), comp("b", Comp::Lt(KeyData::Int(-10)))])),
        ]))
    );

    let b_edge = 10;
    assert_eq!(
        Filter::Cond(Cond::And(vec![
            Filter::comp("a", Comp::In(vec![KeyData::from(1), KeyData::from(2), KeyData::from(3)])),
            Filter::Cond(Cond::Or(vec![
                Filter::comp("b", Comp::Gt(KeyData::from(b_edge))),
                Filter::comp("b", Comp::Lt(KeyData::from(-b_edge))),
            ])),
        ])),
        Filter::Cond(Cond::And(vec![
            comp("a", Comp::In(vec![KeyData::Int(1), KeyData::Int(2), KeyData::Int(3)])),
            Filter::Cond(Cond::Or(vec![comp("b", Comp::Gt(KeyData::Int(10))), comp("b", Comp::Lt(KeyData::Int(-10)))])),
        ]))
    );
}

#[test]
fn comp_sub_fields() {
    assert_eq!(q("a.b.c == 1"), comp("a.b.c", Comp::Eq(KeyData::Int(1))));

    assert_eq!(Filter::comp("a.b.c", Comp::Eq(KeyData::from(1))), comp("a.b.c", Comp::Eq(KeyData::Int(1))));
}

#[test]
fn or_nested_and() {
    assert_eq!(
        q("a == 1 || !b == \"abc\" && c < 5"),
        Filter::Cond(Cond::Or(vec![
            comp("a", Comp::Eq(KeyData::Int(1))),
            Filter::Cond(Cond::And(vec![
                not(comp("b", Comp::Eq(KeyData::String("abc".into())))),
                comp("c", Comp::Lt(KeyData::Int(5))),
            ])),
        ]))
    );
    assert_eq!(
        q("a == 1 && !b == \"abc\" || c < 5"),
        Filter::Cond(Cond::Or(vec![
            Filter::Cond(Cond::And(vec![
                comp("a", Comp::Eq(KeyData::Int(1))),
                not(comp("b", Comp::Eq(KeyData::String("abc".into())))),
            ])),
            comp("c", Comp::Lt(KeyData::Int(5))),
        ]))
    );

    assert_eq!(
        Filter::Cond(Cond::Or(vec![
            Filter::comp("a", Comp::Eq(KeyData::from(1))),
            Filter::Cond(Cond::And(vec![
                Filter::cond(Cond::Not(Box::new(Filter::comp("b", Comp::Eq(KeyData::from("abc")))))),
                Filter::comp("c", Comp::Lt(KeyData::from(5))),
            ])),
        ])),
        Filter::Cond(Cond::Or(vec![
            comp("a", Comp::Eq(KeyData::Int(1))),
            Filter::Cond(Cond::And(vec![
                not(comp("b", Comp::Eq(KeyData::String("abc".into())))),
                comp("c", Comp::Lt(KeyData::Int(5))),
            ])),
        ]))
    );
    assert_eq!(
        Filter::Cond(Cond::Or(vec![
            Filter::Cond(Cond::And(vec![
                Filter::comp("a", Comp::Eq(KeyData::from(1))),
                Filter::cond(Cond::Not(Box::new(Filter::comp("b", Comp::Eq(KeyData::from("abc")))))),
            ])),
            Filter::comp("c", Comp::Lt(KeyData::from(5))),
        ])),
        Filter::Cond(Cond::Or(vec![
            Filter::Cond(Cond::And(vec![
                comp("a", Comp::Eq(KeyData::Int(1))),
                not(comp("b", Comp::Eq(KeyData::String("abc".into())))),
            ])),
            comp("c", Comp::Lt(KeyData::Int(5))),
        ]))
    );
}

#[test]
fn and_nested_or() {
    assert_eq!(
        q("(a == 1 || !b == \"abc\") && c < 5"),
        Filter::Cond(Cond::And(vec![
            Filter::Cond(Cond::Or(vec![
                comp("a", Comp::Eq(KeyData::Int(1))),
                not(comp("b", Comp::Eq(KeyData::String("abc".into())))),
            ])),
            comp("c", Comp::Lt(KeyData::Int(5))),
        ]))
    );
    assert_eq!(
        q("a == 1 && (!b == \"abc\" || c < 5)"),
        Filter::Cond(Cond::And(vec![
            comp("a", Comp::Eq(KeyData::Int(1))),
            Filter::Cond(Cond::Or(vec![
                not(comp("b", Comp::Eq(KeyData::String("abc".into())))),
                comp("c", Comp::Lt(KeyData::Int(5))),
            ])),
        ]))
    );

    assert_eq!(
        Filter::Cond(Cond::And(vec![
            Filter::Cond(Cond::Or(vec![
                Filter::comp("a", Comp::Eq(KeyData::from(1))),
                Filter::cond(Cond::Not(Box::new(Filter::comp("b", Comp::Eq(KeyData::from("abc")))))),
            ])),
            Filter::comp("c", Comp::Lt(KeyData::from(5))),
        ])),
        Filter::Cond(Cond::And(vec![
            Filter::Cond(Cond::Or(vec![
                comp("a", Comp::Eq(KeyData::Int(1))),
                not(comp("b", Comp::Eq(KeyData::String("abc".into())))),
            ])),
            comp("c", Comp::Lt(KeyData::Int(5))),
        ]))
    );
    assert_eq!(
        Filter::Cond(Cond::And(vec![
            Filter::comp("a", Comp::Eq(KeyData::from(1))),
            Filter::Cond(Cond::Or(vec![
                Filter::cond(Cond::Not(Box::new(Filter::comp("b", Comp::Eq(KeyData::from("abc")))))),
                Filter::comp("c", Comp::Lt(KeyData::from(5))),
            ])),
        ])),
        Filter::Cond(Cond::And(vec![
            comp("a", Comp::Eq(KeyData::Int(1))),
            Filter::Cond(Cond::Or(vec![
                not(comp("b", Comp::Eq(KeyData::String("abc".into())))),
                comp("c", Comp::Lt(KeyData::Int(5))),
            ])),
        ]))
    );
}

#[test]
fn default() {
    assert_eq!(parse_order("").unwrap().0, OrderSyntax::Primary(OrderKind::Asc));
    assert_eq!(Order::primary(OrderKind::default()), Order::Primary(OrderKind::Asc));
    assert_eq!(Order::default(), Order::Primary(OrderKind::Asc));
}

#[test]
fn primary_asc() {
    assert_eq!(parse_order(">").unwrap().0, OrderSyntax::Primary(OrderKind::Asc));
    assert_eq!(parse_order("asc").unwrap().0, OrderSyntax::Primary(OrderKind::Asc));
    assert_eq!(Order::primary(OrderKind::Asc), Order::Primary(OrderKind::Asc));
}

#[test]
fn primary_desc() {
    assert_eq!(parse_order("<").unwrap().0, OrderSyntax::Primary(OrderKind::Desc));
    assert_eq!(parse_order("desc").unwrap().0, OrderSyntax::Primary(OrderKind::Desc));
    assert_eq!(Order::primary(OrderKind::Desc), Order::Primary(OrderKind::Desc));
}

#[test]
fn field_asc() {
    assert_eq!(parse_order("by field >").unwrap().0, OrderSyntax::Field("field".into(), OrderKind::Asc));
    assert_eq!(parse_order("by field asc").unwrap().0, OrderSyntax::Field("field".into(), OrderKind::Asc));
    assert_eq!(Order::field("field", OrderKind::Asc), Order::Field("field".into(), OrderKind::Asc));
}

#[test]
fn field_desc() {
    assert_eq!(parse_order("by a.b.c <").unwrap().0, OrderSyntax::Field("a.b.c".into(), OrderKind::Desc));
    assert_eq!(parse_order("by a.b.c desc").unwrap().0, OrderSyntax::Field("a.b.c".into(), OrderKind::Desc));
    assert_eq!(Order::field("a.b.c", OrderKind::Desc), Order::Field("a.b.c".into(), OrderKind::Desc));
}

#[test]
fn macros_set() {
    assert_eq!(m_text("a = 1u32", &[]), modify(vec![("a", vec![Action::Assign(Value::Integer(1))])]));
    assert_eq!(
        m_text("a = 123u32, b.c = \"abc\"", &[]),
        modify(vec![("a", vec![Action::Assign(Value::Integer(123))]), ("b.c", vec![Action::Assign(text("abc"))])])
    );
    assert_eq!(
        m_text("\n                a = 123u32;\n                b.c = \"abc\";\n            ", &[]),
        modify(vec![("a", vec![Action::Assign(Value::Integer(123))]), ("b.c", vec![Action::Assign(text("abc"))])])
    );

    let mut m = Modify::default();
    m.add("a", Action::Assign(Value::Integer(1)));
    assert_eq!(m, modify(vec![("a", vec![Action::Assign(Value::Integer(1))])]));

    let mut m = Modify::default();
    m.add("a", Action::Assign(Value::Integer(123)));
    m.add("b.c", Action::Assign(text("abc")));
    assert_eq!(
        m,
        modify(vec![("a", vec![Action::Assign(Value::Integer(123))]), ("b.c", vec![Action::Assign(text("abc"))])])
    );
}

#[test]
fn delete() {
    assert_eq!(m_text("field ~", &[]), modify(vec![("field", vec![Action::Delete])]));
    assert_eq!(
        m_text("field ~, other.field ~", &[]),
        modify(vec![("field", vec![Action::Delete]), ("other.field", vec![Action::Delete])])
    );

    assert_eq!(Modify::one("field", Action::Delete), modify(vec![("field", vec![Action::Delete])]));
    assert_eq!(
        Modify::one("field", Action::Delete).with("other.field", Action::Delete),
        modify(vec![("field", vec![Action::Delete]), ("other.field", vec![Action::Delete])])
    );
}

#[test]
fn add() {
    assert_eq!(m_text("field += 123u32", &[]), modify(vec![("field", vec![Action::Add(Value::Integer(123))])]));
    assert_eq!(
        m_text("field += 123u32, other.field += \"abc\"", &[]),
        modify(vec![("field", vec![Action::Add(Value::Integer(123))]), ("other.field", vec![Action::Add(text("abc"))])])
    );

    assert_eq!(
        Modify::one("field", Action::Add(Value::Integer(123))),
        modify(vec![("field", vec![Action::Add(Value::Integer(123))])])
    );
    assert_eq!(
        Modify::one("field", Action::Add(Value::Integer(123))).with("other.field", Action::Add(text("abc"))),
        modify(vec![("field", vec![Action::Add(Value::Integer(123))]), ("other.field", vec![Action::Add(text("abc"))])])
    );
}

#[test]
fn sub() {
    assert_eq!(m_text("field -= 123u32", &[]), modify(vec![("field", vec![Action::Sub(Value::Integer(123))])]));
    assert_eq!(
        m_text("field -= 123u32, other.field -= \"abc\"", &[]),
        modify(vec![("field", vec![Action::Sub(Value::Integer(123))]), ("other.field", vec![Action::Sub(text("abc"))])])
    );

    assert_eq!(
        Modify::one("field", Action::Sub(Value::Integer(123))),
        modify(vec![("field", vec![Action::Sub(Value::Integer(123))])])
    );
    assert_eq!(
        Modify::one("field", Action::Sub(Value::Integer(123))).with("other.field", Action::Sub(text("abc"))),
        modify(vec![("field", vec![Action::Sub(Value::Integer(123))]), ("other.field", vec![Action::Sub(text("abc"))])])
    );
}

#[test]
fn mul() {
    assert_eq!(m_text("field *= 123u32", &[]), modify(vec![("field", vec![Action::Mul(Value::Integer(123))])]));
    assert_eq!(
        m_text("field *= 123u32, other.field *= \"abc\"", &[]),
        modify(vec![("field", vec![Action::Mul(Value::Integer(123))]), ("other.field", vec![Action::Mul(text("abc"))])])
    );

    assert_eq!(
        Modify::one("field", Action::Mul(Value::Integer(123))),
        modify(vec![("field", vec![Action::Mul(Value::Integer(123))])])
    );
    assert_eq!(
        Modify::one("field", Action::Mul(Value::Integer(123))).with("other.field", Action::Mul(text("abc"))),
        modify(vec![("field", vec![Action::Mul(Value::Integer(123))]), ("other.field", vec![Action::Mul(text("abc"))])])
    );
}

#[test]
fn div() {
    assert_eq!(m_text("field /= 123u32", &[]), modify(vec![("field", vec![Action::Div(Value::Integer(123))])]));
    assert_eq!(
        m_text("field /= 123u32, other.field /= \"abc\"", &[]),
        modify(vec![("field", vec![Action::Div(Value::Integer(123))]), ("other.field", vec![Action::Div(text("abc"))])])
    );

    assert_eq!(
        Modify::one("field", Action::Div(Value::Integer(123))),
        modify(vec![("field", vec![Action::Div(Value::Integer(123))])])
    );
    assert_eq!(
        Modify::one("field", Action::Div(Value::Integer(123))).with("other.field", Action::Div(text("abc"))),
        modify(vec![("field", vec![Action::Div(Value::Integer(123))]), ("other.field", vec![Action::Div(text("abc"))])])
    );
}

#[test]
fn toggle() {
    assert_eq!(m_text("field!", &[]), modify(vec![("field", vec![Action::Toggle])]));
    assert_eq!(
        m_text("field!, other.field!", &[]),
        modify(vec![("field", vec![Action::Toggle]), ("other.field", vec![Action::Toggle])])
    );
    assert_eq!(m_text("field!; field!", &[]), modify(vec![("field", vec![Action::Toggle, Action::Toggle])]));

    assert_eq!(Modify::one("field", Action::Toggle), modify(vec![("field", vec![Action::Toggle])]));
    assert_eq!(
        Modify::one("field", Action::Toggle).with("other.field", Action::Toggle),
        modify(vec![("field", vec![Action::Toggle]), ("other.field", vec![Action::Toggle])])
    );
    assert_eq!(
        Modify::one("field", Action::Toggle).with("field", Action::Toggle),
        modify(vec![("field", vec![Action::Toggle, Action::Toggle])])
    );
}

fn replacing(pat: &str, sub: &str) -> Action {
    Action::Replace(WrappedRegex::new(pat).unwrap(), sub.to_string())
}

#[test]
fn replace() {
    assert_eq!(m_text("field ~= \"abc\" \"def\"", &[]), modify(vec![("field", vec![replacing("abc", "def")])]));
    assert_eq!(
        m_text("field ~= \"abc\" \"def\", other.field ~= \"april\" \"may\"", &[]),
        modify(vec![("field", vec![replacing("abc", "def")]), ("other.field", vec![replacing("april", "may")])])
    );

    assert_eq!(Modify::one("field", replacing("abc", "def")), modify(vec![("field", vec![replacing("abc", "def")])]));
    assert_eq!(
        Modify::one("field", replacing("abc", "def")).with("other.field", replacing("april", "may")),
        modify(vec![("field", vec![replacing("abc", "def")]), ("other.field", vec![replacing("april", "may")])])
    );
}

#[test]
fn splice() {
    assert_eq!(m_text("field[1..2]~", &[]), modify(vec![("field", vec![Action::Splice(1, 2, vec![])])]));
    assert_eq!(
        m_text("field[1..2] = [\"a\", \"b\", \"c\"]", &[]),
        modify(vec![("field", vec![Action::Splice(1, 2, vec![text("a"), text("b"), text("c")])])])
    );
    assert_eq!(
        m_text("other.field[-1..0] = ins", &[("ins", vec![1, 2, 3])]),
        modify(vec![(
            "other.field",
            vec![Action::Splice(-1, 0, vec![Value::Integer(1), Value::Integer(2), Value::Integer(3)])]
        )])
    );

    assert_eq!(
        Modify::one("field", Action::Splice(1, 2, Vec::new())),
        modify(vec![("field", vec![Action::Splice(1, 2, vec![])])])
    );
    assert_eq!(
        Modify::one("field", Action::Splice(1, 2, vec![text("a"), text("b"), text("c")])),
        modify(vec![("field", vec![Action::Splice(1, 2, vec![text("a"), text("b"), text("c")])])])
    );
    let ins = [1u8, 2, 3];
    assert_eq!(
        Modify::one("other.field", Action::Splice(-1, 0, ins.iter().map(|x| Value::Integer(*x as i128)).collect())),
        modify(vec![(
            "other.field",
            vec![Action::Splice(-1, 0, vec![Value::Integer(1), Value::Integer(2), Value::Integer(3)])]
        )])
    );
    assert_eq!(
        Modify::one("field", Action::Splice(0, -1, Vec::new())),
        modify(vec![("field", vec![Action::Splice(0, -1, vec![])])])
    );
}

#[test]
fn merge() {
    // the object that the serialized `Extra { subfield: true, other: 123 }` is
    let extra = Value::Object(vec![(text("other"), Value::Integer(123)), (text("subfield"), Value::Bool(true))]);
    assert_eq!(
        Modify::one("field", Action::Merge(extra.clone())),
        modify(vec![(
            "field",
            vec![Action::Merge(Value::Object(vec![
                (text("other"), Value::Integer(123)),
                (text("subfield"), Value::Bool(true)),
            ]))]
        )])
    );
    assert_eq!(
        Modify::one("field", Action::Merge(extra)),
        modify(vec![(
            "field",
            vec![Action::Merge(Value::Object(vec![
                (text("other"), Value::Integer(123)),
                (text("subfield"), Value::Bool(true)),
            ]))]
        )])
    );
}
