use ledb::Selection;

#[test]
fn not_inv_and_empty() {
    assert_eq!(Selection::from(&[1, 2, 3, 7, 9]) & Selection::default(), Selection::default());
}

#[test]
fn not_inv_and_universe() {
    assert_eq!(Selection::from(&[1, 2, 3, 7, 9]) & !Selection::default(), Selection::from(&[1, 2, 3, 7, 9]));
}

#[test]
fn not_inv_and_not_inv() {
    assert_eq!(Selection::from(&[1, 2, 3, 7, 9]) & Selection::from(&[2, 7, 5, 0, 4, 1]), Selection::from(&[1, 2, 7]));
}

#[test]
fn not_inv_and_inv() {
    assert_eq!(Selection::from(&[1, 2, 3, 7, 9]) & !Selection::from(&[2, 7, 5, 0, 4, 1]), Selection::from(&[3, 9]));
}

#[test]
fn inv_and_not_inv() {
    assert_eq!(Selection::from(&[2, 7, 5, 0, 4, 1]) & !Selection::from(&[1, 2, 3, 7, 9]), Selection::from(&[0, 4, 5]));
}

#[test]
fn inv_and_inv() {
    assert_eq!(
        !Selection::from(&[1, 2, 3, 7, 9]) & !Selection::from(&[2, 7, 5, 0, 4, 1]),
        !Selection::from(&[0, 1, 2, 3, 4, 5, 7, 9])
    );
}

#[test]
fn not_inv_or_empty() {
    assert_eq!(Selection::from(&[1, 2, 3, 7, 9]) | Selection::default(), Selection::from(&[1, 2, 3, 7, 9]));
}

#[test]
fn not_inv_or_universe() {
    assert_eq!(Selection::from(&[1, 2, 3, 7, 9]) | !Selection::default(), !Selection::default());
}

#[test]
fn not_inv_or_not_inv() {
    assert_eq!(
        Selection::from(&[1, 2, 3, 7, 9]) | Selection::from(&[2, 7, 5, 0, 4, 1]),
        Selection::from(&[0, 1, 2, 3, 4, 5, 7, 9])
    );
}

#[test]
fn not_inv_or_inv() {
    assert_eq!(Selection::from(&[1, 2, 3, 7, 9]) | !Selection::from(&[2, 7, 5, 0, 4, 1]), !Selection::from(&[0, 4, 5]));
}

#[test]
fn inv_or_not_inv() {
    assert_eq!(!Selection::from(&[2, 7, 5, 0, 4, 1]) | Selection::from(&[1, 2, 3, 7, 9]), !Selection::from(&[0, 4, 5]));
}

#[test]
fn inv_or_inv() {
    assert_eq!(!Selection::from(&[1, 2, 3, 7, 9]) | !Selection::from(&[2, 7, 5, 0, 4, 1]), !Selection::from(&[1, 2, 7]));
}

#[test]
fn has_follows_inversion() {
    let s = Selection::from(&[1, 5]);
    assert!(s.has(&1));
    assert!(!s.has(&2));
    let n = !Selection::from(&[1, 5]);
    assert!(!n.has(&1));
    assert!(n.has(&2));
}

#[test]
fn filter_keeps_selected_and_errors() {
    let s = Selection::from(&[2, 4]);
    let items: Vec<Result<u32, &str>> = vec![Ok(1), Ok(2), Err("e"), Ok(4), Ok(5)];
    assert_eq!(s.filter(items), vec![Ok(2), Err("e"), Ok(4)]);
}

#[test]
fn double_invert_is_identity() {
    let s = Selection::from(&[3, 8]);
    assert_eq!(!!s.clone(), s);
}

#[test]
fn and_selects_what_both_select() {
    let sets: Vec<Vec<u32>> = vec![vec![], vec![1, 2, 3], vec![2, 3, 4, 5, 6], vec![7]];
    for a in &sets {
        for b in &sets {
            for ai in [false, true] {
                for bi in [false, true] {
                    let x = Selection::new(a.iter().cloned().collect(), ai);
                    let y = Selection::new(b.iter().cloned().collect(), bi);
                    let both = x.clone() & y.clone();
                    let either = x.clone() | y.clone();
                    for id in 0..10u32 {
                        assert_eq!(both.has(&id), x.has(&id) && y.has(&id));
                        assert_eq!(either.has(&id), x.has(&id) || y.has(&id));
                    }
                }
            }
        }
    }
}
