use ledb::{Comp, Cond, Filter, IndexQuery, KeyData, Selection};

fn comp(field: &str, c: Comp) -> Filter {
    Filter::Comp(field.to_string(), c)
}

#[test]
fn leaves_in_evaluation_order() {
    let f = Filter::Cond(Cond::And(vec![
        comp("a", Comp::Eq(KeyData::Int(1))),
        Filter::Cond(Cond::Not(Box::new(Filter::Cond(Cond::Or(vec![comp("b", Comp::Has), comp("c", Comp::Lt(KeyData::Int(2)))]))))),
    ]));
    let leaves: Vec<String> = f.leaves().into_iter().map(|(p, _)| p.clone()).collect();
    assert_eq!(leaves, vec!["a".to_string(), "b".into(), "c".into()]);
}

#[test]
fn combine_follows_conditions() {
    let f = Filter::Cond(Cond::And(vec![
        comp("a", Comp::Has),
        Filter::Cond(Cond::Not(Box::new(comp("b", Comp::Has)))),
    ]));
    let answers = vec![Selection::from(&[1, 2]), Selection::from(&[2, 5, 7])];
    let s = f.combine(&answers);
    assert_eq!(s, Selection::from(&[1]));

    let answers = vec![Selection::from(&[1, 2, 3, 4]), Selection::from(&[2])];
    let s = f.combine(&answers);
    assert_eq!(s, Selection::from(&[1, 3, 4]));

    let g = Filter::Cond(Cond::Or(vec![comp("a", Comp::Has), comp("b", Comp::Has)]));
    let s = g.combine(&vec![Selection::from(&[1]), Selection::from(&[5])]);
    assert_eq!(s, Selection::from(&[1, 5]));
}

#[test]
fn empty_conditions() {
    let all = Filter::Cond(Cond::And(vec![]));
    assert_eq!(all.combine(&vec![]), !Selection::default());
    let none = Filter::Cond(Cond::Or(vec![]));
    assert_eq!(none.combine(&vec![]), Selection::default());
}

#[test]
fn filter_clone_is_equal() {
    let f = Filter::Cond(Cond::Or(vec![comp("a", Comp::Has), Filter::Cond(Cond::Not(Box::new(comp("b", Comp::Has))))]));
    assert_eq!(f.clone(), f);
}

#[test]
fn negated_filter_selects_complement() {
    let f = Filter::Cond(Cond::Not(Box::new(comp("a", Comp::Has))));
    let s = f.combine(&vec![Selection::from(&[1, 2])]);
    for id in 0..6u32 {
        assert_eq!(s.has(&id), ![1u32, 2].contains(&id));
    }
}

#[test]
fn and_of_two_filters_intersects() {
    let f = Filter::Cond(Cond::And(vec![comp("a", Comp::Has), comp("b", Comp::Has)]));
    let s = f.combine(&vec![Selection::from(&[1, 2, 3]), Selection::from(&[2, 3, 4])]);
    assert_eq!(s, Selection::from(&[2, 3]));
}

#[test]
fn and_or_of_many_filters() {
    let f = Filter::Cond(Cond::And(vec![
        comp("a", Comp::Has),
        Filter::Cond(Cond::Not(Box::new(comp("b", Comp::Has)))),
        comp("c", Comp::Has),
    ]));
    let answers = vec![Selection::from(&[1, 2, 3, 4, 5]), Selection::from(&[2]), !Selection::from(&[5])];
    assert_eq!(f.combine(&answers), Selection::from(&[1, 3, 4]));
    let g = Filter::Cond(Cond::Or(vec![comp("a", Comp::Has), comp("b", Comp::Has), Filter::Cond(Cond::Not(Box::new(comp("c", Comp::Has))))]));
    let s = g.combine(&vec![Selection::from(&[1]), Selection::from(&[5]), Selection::from(&[1, 5, 6])]);
    for id in 0..10u32 {
        assert_eq!(s.has(&id), id != 6);
    }
}

#[test]
fn comparisons_ask_their_index() {
    match Comp::Eq(KeyData::Int(3)).index_query() {
        IndexQuery::Keys(ks) => assert_eq!(ks, vec![KeyData::Int(3)]),
        _ => panic!("keys"),
    }
    match Comp::In(vec![KeyData::Int(1), KeyData::Int(2)]).index_query() {
        IndexQuery::Keys(ks) => assert_eq!(ks, vec![KeyData::Int(1), KeyData::Int(2)]),
        _ => panic!("keys"),
    }
    match Comp::Gt(KeyData::Int(5)).index_query() {
        IndexQuery::Range(b, e) => assert_eq!((b, e), (Some((KeyData::Int(5), false)), None)),
        _ => panic!("range"),
    }
    match Comp::Le(KeyData::Int(5)).index_query() {
        IndexQuery::Range(b, e) => assert_eq!((b, e), (None, Some((KeyData::Int(5), true)))),
        _ => panic!("range"),
    }
    match Comp::Bw(KeyData::Int(1), false, KeyData::Int(9), true).index_query() {
        IndexQuery::Range(b, e) => assert_eq!((b, e), (Some((KeyData::Int(1), false)), Some((KeyData::Int(9), true)))),
        _ => panic!("range"),
    }
    match Comp::Has.index_query() {
        IndexQuery::Range(b, e) => assert_eq!((b, e), (None, None)),
        _ => panic!("range"),
    }
}
