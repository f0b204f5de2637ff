use ledb::{Action, ArithOp, Modify, Num, Value, WrappedRegex};

fn num(n: Num) -> f64 {
    match n {
        Num::Int(i) => i as f64,
        Num::Float(bits) => f64::from_bits(bits),
    }
}

fn arith(op: ArithOp, a: Num, b: Num) -> u64 {
    let (a, b) = (num(a), num(b));
    let r = match op {
        ArithOp::Add => a + b,
        ArithOp::Sub => a - b,
        ArithOp::Mul => a * b,
        ArithOp::Div => a / b,
    };
    r.to_bits()
}

fn whole(bits: u64) -> Option<i128> {
    let v = f64::from_bits(bits);
    if (v.trunc() - v).abs() < f64::EPSILON {
        Some(v as i128)
    } else {
        None
    }
}

fn apply(m: &Modify, v: Value) -> Value {
    m.apply(v, &arith, &whole)
}

fn text(s: &str) -> Value {
    Value::Text(s.to_string())
}

fn obj(entries: Vec<(&str, Value)>) -> Value {
    Value::Object(entries.into_iter().map(|(k, v)| (text(k), v)).collect())
}

fn ints(xs: &[i128]) -> Value {
    Value::Array(xs.iter().map(|x| Value::Integer(*x)).collect())
}

#[test]
fn field_set() {
    let m = Modify::one("field", Action::Assign(Value::Integer(123)));
    assert_eq!(apply(&m, obj(vec![("field", text("abc"))])), obj(vec![("field", Value::Integer(123))]));
}

#[test]
fn field_delete() {
    let m = Modify::one("field", Action::Delete);
    assert_eq!(apply(&m, obj(vec![("field", text("abc"))])), obj(vec![("field", Value::Null)]));
}

#[test]
fn sub_field_set() {
    let m = Modify::one("obj.str", Action::Assign(text("def")));
    assert_eq!(
        apply(&m, obj(vec![("obj", obj(vec![("str", text("abc"))]))])),
        obj(vec![("obj", obj(vec![("str", text("def"))]))])
    );
}

#[test]
fn sub_field_delete() {
    let m = Modify::one("obj.key", Action::Delete);
    assert_eq!(
        apply(&m, obj(vec![("obj", obj(vec![("key", text("abc"))]))])),
        obj(vec![("obj", obj(vec![("key", Value::Null)]))])
    );
}

#[test]
fn numeric_add() {
    let m = Modify::one("counter", Action::Add(Value::Integer(1)));
    assert_eq!(apply(&m, obj(vec![("counter", Value::Integer(0))])), obj(vec![("counter", Value::Integer(1))]));
}

#[test]
fn numeric_sub() {
    let m = Modify::one("counter", Action::Add(Value::Integer(-1)));
    assert_eq!(apply(&m, obj(vec![("counter", Value::Integer(10))])), obj(vec![("counter", Value::Integer(9))]));
}

#[test]
fn string_replace() {
    let m = Modify::one("str", Action::Replace(WrappedRegex::new("bra").unwrap(), "3".into()));
    assert_eq!(apply(&m, obj(vec![("str", text("abracadabra"))])), obj(vec![("str", text("a3cada3"))]));
}

#[test]
fn array_add() {
    let m = Modify::one("list", Action::Add(ints(&[2, 3, 4])));
    assert_eq!(apply(&m, obj(vec![("list", ints(&[1, 3, 5]))])), obj(vec![("list", ints(&[1, 3, 5, 2, 4]))]));
}

#[test]
fn array_sub() {
    let m = Modify::one("list", Action::Sub(ints(&[2, 3, 5])));
    assert_eq!(apply(&m, obj(vec![("list", ints(&[1, 2, 4, 5]))])), obj(vec![("list", ints(&[1, 4]))]));
}

fn splice(off: i32, del: i32, ins: &[i128]) -> Action {
    Action::Splice(off, del, ins.iter().map(|x| Value::Integer(*x)).collect())
}

#[test]
fn array_prepend() {
    let m = Modify::one("list", splice(0, 0, &[1, 2]));
    assert_eq!(apply(&m, obj(vec![("list", ints(&[3, 4, 5]))])), obj(vec![("list", ints(&[1, 2, 3, 4, 5]))]));
}

#[test]
fn array_append() {
    let m = Modify::one("list", splice(-1, -1, &[1, 2]));
    assert_eq!(apply(&m, obj(vec![("list", ints(&[3, 4, 5]))])), obj(vec![("list", ints(&[3, 4, 5, 1, 2]))]));
}

#[test]
fn array_splice() {
    let m = Modify::one("list", splice(1, 3, &[0]));
    assert_eq!(apply(&m, obj(vec![("list", ints(&[1, 2, 3, 4, 5]))])), obj(vec![("list", ints(&[1, 0, 4, 5]))]));

    let m = Modify::one("list", splice(-4, -1, &[0, -1]));
    assert_eq!(apply(&m, obj(vec![("list", ints(&[1, 2, 3, 4, 5]))])), obj(vec![("list", ints(&[1, 2, 0, -1]))]));
}

#[test]
fn object_merge() {
    let m = Modify::one("obj", Action::Merge(obj(vec![("a", Value::Integer(2)), ("b", text("a"))])));
    assert_eq!(
        apply(&m, obj(vec![("obj", obj(vec![("a", Value::Integer(1)), ("c", Value::Bool(true))]))])),
        obj(vec![("obj", obj(vec![("a", Value::Integer(2)), ("b", text("a")), ("c", Value::Bool(true))]))])
    );
}

#[test]
fn float_whole_result_becomes_integer() {
    let m = Modify::one("x", Action::Mul(Value::Float(2.0f64.to_bits())));
    assert_eq!(apply(&m, obj(vec![("x", Value::Integer(3))])), obj(vec![("x", Value::Integer(6))]));
    let m = Modify::one("x", Action::Div(Value::Float(2.0f64.to_bits())));
    assert_eq!(apply(&m, obj(vec![("x", Value::Integer(3))])), obj(vec![("x", Value::Float(1.5f64.to_bits()))]));
}

#[test]
fn integer_division_rounds_toward_zero() {
    let m = Modify::one("x", Action::Div(Value::Integer(2)));
    assert_eq!(apply(&m, obj(vec![("x", Value::Integer(-7))])), obj(vec![("x", Value::Integer(-3))]));
}

#[test]
fn toggle_text_and_bytes() {
    let m = Modify::one("b", Action::Toggle).with("t", Action::Add(text("def"))).with("y", Action::Add(Value::Bytes(vec![3])));
    assert_eq!(
        apply(&m, obj(vec![("b", Value::Bool(false)), ("t", text("abc")), ("y", Value::Bytes(vec![1, 2]))])),
        obj(vec![("b", Value::Bool(true)), ("t", text("abcdef")), ("y", Value::Bytes(vec![1, 2, 3]))])
    );
}

#[test]
fn actions_on_other_fields_leave_value() {
    let m = Modify::one("other", Action::Assign(Value::Integer(1)));
    assert_eq!(apply(&m, obj(vec![("x", text("keep"))])), obj(vec![("x", text("keep"))]));
}

#[test]
fn array_elements_take_actions_of_array_path() {
    let m = Modify::one("list", Action::Add(Value::Integer(10)));
    assert_eq!(apply(&m, obj(vec![("list", ints(&[1, 2]))])), obj(vec![("list", ints(&[11, 12]))]));
}

#[test]
fn indexed_entry_path() {
    let m = Modify::one("m[3]", Action::Assign(text("x")));
    let doc = obj(vec![("m", Value::Object(vec![(Value::Integer(3), text("y"))]))]);
    assert_eq!(apply(&m, doc), obj(vec![("m", Value::Object(vec![(Value::Integer(3), text("x"))]))]));
}

#[test]
fn add_law_appends_to_field() {
    let mut m = Modify::new();
    m.add("f", Action::Toggle);
    m.add("g", Action::Delete);
    m.add("f", Action::Delete);
    assert_eq!(
        m,
        Modify(vec![("f".to_string(), vec![Action::Toggle, Action::Delete]), ("g".to_string(), vec![Action::Delete])])
    );
}

#[test]
fn regex_rejects_bad_pattern() {
    assert!(WrappedRegex::new("(").is_err());
    assert_eq!(WrappedRegex::new("a+").unwrap().as_str(), "a+");
}

#[test]
fn try_apply_reports_failures() {
    let doc = obj(vec![("x", Value::Integer(i128::MAX))]);
    let m = Modify::one("x", Action::Add(Value::Integer(1)));
    assert_eq!(m.try_apply(doc, &arith, &whole, 64), None);

    let m = Modify::one("x", Action::Div(Value::Integer(0)));
    assert_eq!(m.try_apply(obj(vec![("x", Value::Integer(4))]), &arith, &whole, 64), None);

    let m = Modify::one("list", Action::Splice(3, 1, Vec::new()));
    assert_eq!(m.try_apply(obj(vec![("list", ints(&[1, 2, 3, 4]))]), &arith, &whole, 64), None);

    let m = Modify::one("list", Action::Splice(-9, 0, Vec::new()));
    assert_eq!(m.try_apply(obj(vec![("list", ints(&[1]))]), &arith, &whole, 64), None);

    let m = Modify::one("a", Action::Assign(ints(&[1])));
    assert_eq!(
        m.try_apply(obj(vec![("a", Value::Null)]), &arith, &whole, 64),
        Some(obj(vec![("a", ints(&[1]))]))
    );

    let m = Modify::one("x", Action::Add(Value::Integer(1)));
    assert_eq!(
        m.try_apply(obj(vec![("x", Value::Integer(1))]), &arith, &whole, 64),
        Some(obj(vec![("x", Value::Integer(2))]))
    );
    // the depth bounds the nesting walked into
    assert_eq!(m.try_apply(obj(vec![("x", Value::Integer(1))]), &arith, &whole, 1), None);
}

#[test]
fn set_array_sets_value() {
    let m = Modify::one("list", Action::Assign(ints(&[1, 2])));
    assert_eq!(apply(&m, obj(vec![("list", ints(&[9]))])), obj(vec![("list", ints(&[1, 2]))]));

    // the array actions of the field apply to the assigned array
    let m = Modify::one("list", Action::Assign(ints(&[1, 2]))).with("list", Action::Add(ints(&[3])));
    assert_eq!(apply(&m, obj(vec![("list", ints(&[9]))])), obj(vec![("list", ints(&[1, 2, 3]))]));
}

#[test]
fn objects_compare_as_maps() {
    let a = obj(vec![("x", Value::Integer(1)), ("y", obj(vec![("p", Value::Null), ("q", Value::Bool(true))]))]);
    let b = obj(vec![("y", obj(vec![("q", Value::Bool(true)), ("p", Value::Null)])), ("x", Value::Integer(1))]);
    assert_eq!(a, b);
    assert!(!a.identical(&b));
    let c = obj(vec![("y", obj(vec![("q", Value::Bool(false)), ("p", Value::Null)])), ("x", Value::Integer(1))]);
    assert_ne!(a, c);
    assert_ne!(obj(vec![("x", Value::Integer(1))]), obj(vec![("x", Value::Integer(1)), ("z", Value::Null)]));
}

#[test]
fn empty_modifier_keeps_document() {
    let doc = obj(vec![
        ("a", Value::Integer(1)),
        ("list", Value::Array(vec![ints(&[1, 2]), text("x"), Value::Null])),
        ("o", obj(vec![("b", Value::Bool(true)), ("c", Value::Bytes(vec![1, 2]))])),
    ]);
    assert_eq!(apply(&Modify::new(), doc.clone()), doc);
    assert!(apply(&Modify::new(), doc.clone()).identical(&doc));
}

#[test]
fn floats_not_a_number_compare_equal() {
    let nan1 = Value::Float(0x7ff8_0000_0000_0000);
    let nan2 = Value::Float(0x7ff8_0000_0000_0001);
    assert_eq!(nan1, nan2);
    assert!(!nan1.identical(&nan2));
    assert_ne!(Value::Float(0.0f64.to_bits()), Value::Float((-0.0f64).to_bits()));
    assert_ne!(Value::Float(f64::INFINITY.to_bits()), nan1);
    let m = Modify::one("list", Action::Add(Value::Array(vec![nan2.clone()])));
    let doc = obj(vec![("list", Value::Array(vec![nan1.clone()]))]);
    let out = apply(&m, doc);
    match out {
        Value::Object(entries) => match &entries[0].1 {
            Value::Array(items) => assert_eq!(items.len(), 1),
            _ => panic!("an array"),
        },
        _ => panic!("an object"),
    }
    let m = Modify::one("list", Action::Sub(Value::Array(vec![nan2])));
    let doc = obj(vec![("list", Value::Array(vec![nan1, Value::Integer(1)]))]);
    assert_eq!(apply(&m, doc), obj(vec![("list", ints(&[1]))]));
}

#[test]
fn modifiers_compare_whatever_the_order_of_fields() {
    let mut a = Modify::new();
    a.add("x", Action::Assign(Value::Integer(1)));
    a.add("y", Action::Delete);
    let mut b = Modify::new();
    b.add("y", Action::Delete);
    b.add("x", Action::Assign(Value::Integer(1)));
    assert_eq!(a, b);
    let mut c = Modify::new();
    c.add("y", Action::Delete);
    c.add("x", Action::Assign(Value::Integer(2)));
    assert_ne!(a, c);
    let mut d = Modify::new();
    d.add("x", Action::Assign(Value::Integer(1)));
    assert_ne!(a, d);
    assert_ne!(d, a);
    let mut e = Modify::new();
    e.add("x", Action::Assign(Value::Integer(1)));
    e.add("x", Action::Toggle);
    assert_ne!(d, e);
    assert_eq!(Action::Replace(WrappedRegex::new("a+").unwrap(), "b".into()), Action::Replace(WrappedRegex::new("a+").unwrap(), "b".into()));
    assert_ne!(Action::Splice(0, 1, vec![]), Action::Splice(0, 2, vec![]));
}
