use vstd::prelude::*;

use crate::document::{lemma_pairs_of, lemma_vals_of, pairs_of, val_of, vals_of, Val, Value};

verus! {

/// The bits of the float that `to_float` gives for an integer
pub open spec fn float_of<F: Fn(i128) -> u64>(to_float: F, n: i128) -> u64 {
    choose|r: u64| call_ensures(to_float, (n,), r)
}

/// Whether the conversion can always be called and always gives one answer
pub open spec fn to_float_ready<F: Fn(i128) -> u64>(to_float: F) -> bool {
    &&& forall|n: i128| #[trigger] to_float.requires((n,))
    &&& forall|n: i128, r1: u64, r2: u64|
        #[trigger] call_ensures(to_float, (n,), r1) && #[trigger] call_ensures(to_float, (n,), r2) ==> r1 == r2
}

/// Generic data with every integer, at any depth and in object keys too, made a float
pub open spec fn refined<F: Fn(i128) -> u64>(v: Val, to_float: F) -> Val
    decreases v, 0nat,
{
    match v {
        Val::Integer(n) => Val::Float(float_of(to_float, n as i128)),
        Val::Array(s) => Val::Array(refined_all(s, to_float)),
        Val::Object(m) => Val::Object(refined_pairs(m, to_float)),
        _ => v,
    }
}

/// Each value refined
pub open spec fn refined_all<F: Fn(i128) -> u64>(s: Seq<Val>, to_float: F) -> Seq<Val>
    decreases s, 1nat,
{
    if s.len() == 0 {
        Seq::empty()
    } else {
        refined_all(s.drop_last(), to_float).push(refined(s.last(), to_float))
    }
}

/// Each entry's key and value refined
pub open spec fn refined_pairs<F: Fn(i128) -> u64>(m: Seq<(Val, Val)>, to_float: F) -> Seq<(Val, Val)>
    decreases m, 1nat,
{
    if m.len() == 0 {
        Seq::empty()
    } else {
        refined_pairs(m.drop_last(), to_float).push((refined(m.last().0, to_float), refined(m.last().1, to_float)))
    }
}

/// Whether the data holds no integer, at any depth and in object keys too
pub open spec fn no_ints(v: Val) -> bool
    decreases v, 0nat,
{
    match v {
        Val::Integer(_) => false,
        Val::Array(s) => no_ints_all(s),
        Val::Object(m) => no_ints_pairs(m),
        _ => true,
    }
}

/// Whether none of the values holds an integer
pub open spec fn no_ints_all(s: Seq<Val>) -> bool
    decreases s, 1nat,
{
    s.len() == 0 || (no_ints_all(s.drop_last()) && no_ints(s.last()))
}

/// Whether none of the entries holds an integer, in key or value
pub open spec fn no_ints_pairs(m: Seq<(Val, Val)>) -> bool
    decreases m, 1nat,
{
    m.len() == 0 || (no_ints_pairs(m.drop_last()) && no_ints(m.last().0) && no_ints(m.last().1))
}

/// Refined data holds no integer, and data without integers refines to itself
proof fn lemma_refined<F: Fn(i128) -> u64>(v: Val, to_float: F)
    ensures
        no_ints(refined(v, to_float)),
        no_ints(v) ==> refined(v, to_float) == v,
    decreases v, 0nat,
{
    match v {
        Val::Array(s) => lemma_refined_all(s, to_float),
        Val::Object(m) => lemma_refined_pairs(m, to_float),
        _ => {},
    }
}

/// Refined values hold no integer, and values without integers refine to themselves
proof fn lemma_refined_all<F: Fn(i128) -> u64>(s: Seq<Val>, to_float: F)
    ensures
        no_ints_all(refined_all(s, to_float)),
        no_ints_all(s) ==> refined_all(s, to_float) == s,
    decreases s, 1nat,
{
    if s.len() > 0 {
        lemma_refined_all(s.drop_last(), to_float);
        lemma_refined(s.last(), to_float);
        let r = refined_all(s, to_float);
        assert(r.drop_last() =~= refined_all(s.drop_last(), to_float));
        if no_ints_all(s) {
            assert(s.drop_last().push(s.last()) =~= s);
        }
    }
}

/// Refined entries hold no integer, and entries without integers refine to themselves
proof fn lemma_refined_pairs<F: Fn(i128) -> u64>(m: Seq<(Val, Val)>, to_float: F)
    ensures
        no_ints_pairs(refined_pairs(m, to_float)),
        no_ints_pairs(m) ==> refined_pairs(m, to_float) == m,
    decreases m, 1nat,
{
    if m.len() > 0 {
        lemma_refined_pairs(m.drop_last(), to_float);
        lemma_refined(m.last().0, to_float);
        lemma_refined(m.last().1, to_float);
        let r = refined_pairs(m, to_float);
        assert(r.drop_last() =~= refined_pairs(m.drop_last(), to_float));
        if no_ints_pairs(m) {
            assert(m.drop_last().push(m.last()) =~= m);
        }
    }
}

/// Law: refined data holds no integer at any depth, and refining it again
/// changes nothing
pub proof fn law_refine_settles<F: Fn(i128) -> u64>(v: Val, to_float: F)
    ensures
        no_ints(refined(v, to_float)),
        refined(refined(v, to_float), to_float) == refined(v, to_float),
{
    lemma_refined(v, to_float);
    lemma_refined(refined(v, to_float), to_float);
}

/// Law: refining an array or an object keeps its length, and refines each
/// element (each key and value) in place
pub proof fn law_refine_keeps_shape<F: Fn(i128) -> u64>(s: Seq<Val>, m: Seq<(Val, Val)>, to_float: F)
    ensures
        refined_all(s, to_float).len() == s.len(),
        forall|i: int| 0 <= i < s.len() ==> #[trigger] refined_all(s, to_float)[i] == refined(s[i], to_float),
        refined_pairs(m, to_float).len() == m.len(),
        forall|i: int| 0 <= i < m.len() ==> #[trigger] refined_pairs(m, to_float)[i] == (refined(m[i].0, to_float), refined(m[i].1, to_float)),
    decreases s.len() + m.len(),
{
    if s.len() > 0 {
        law_refine_keeps_shape(s.drop_last(), m, to_float);
    }
    if m.len() > 0 {
        law_refine_keeps_shape(s, m.drop_last(), to_float);
    }
}

/// Refine each value of a prefix and the next one
proof fn lemma_refined_all_push<F: Fn(i128) -> u64>(s: Seq<Val>, i: int, to_float: F)
    requires
        0 <= i < s.len(),
    ensures
        refined_all(s.take(i + 1), to_float) == refined_all(s.take(i), to_float).push(refined(s[i], to_float)),
{
    assert(s.take(i + 1).drop_last() =~= s.take(i));
}

/// Refine each entry of a prefix and the next one
proof fn lemma_refined_pairs_push<F: Fn(i128) -> u64>(m: Seq<(Val, Val)>, i: int, to_float: F)
    requires
        0 <= i < m.len(),
    ensures
        refined_pairs(m.take(i + 1), to_float) == refined_pairs(m.take(i), to_float).push(
            (refined(m[i].0, to_float), refined(m[i].1, to_float)),
        ),
{
    assert(m.take(i + 1).drop_last() =~= m.take(i));
}

/// Make every integer of the data a float
#[verifier::loop_isolation(false)]
fn refine_ref<F: Fn(i128) -> u64>(value: &Value, to_float: &F) -> (r: Value)
    requires
        to_float_ready(*to_float),
    ensures
        val_of(r) == refined(val_of(*value), *to_float),
    decreases value,
{
    match value {
        Value::Integer(n) => {
            let x = to_float(*n);
            assert(call_ensures(*to_float, (*n,), x));
            assert((*n as int) as i128 == *n);
            Value::Float(x)
        },
        Value::Array(a) => {
            proof {
                lemma_vals_of(a@);
            }
            let mut out: Vec<Value> = Vec::new();
            let mut i: usize = 0;
            assert(vals_of(a@).take(0) =~= Seq::<Val>::empty());
            while i < a.len()
                invariant
                    i <= a@.len(),
                    vals_of(out@) == refined_all(vals_of(a@).take(i as int), *to_float),
                decreases a@.len() - i,
            {
                proof {
                    assert(decreases_to!(value => a@[i as int]));
                    lemma_refined_all_push(vals_of(a@), i as int, *to_float);
                }
                let y = refine_ref(&a[i], to_float);
                let ghost before = out@;
                out.push(y);
                proof {
                    assert(out@.drop_last() =~= before);
                    assert(vals_of(out@) == vals_of(before).push(val_of(y)));
                    assert(vals_of(a@)[i as int] == val_of(a@[i as int]));
                }
                i = i + 1;
            }
            assert(vals_of(a@).take(a@.len() as int) =~= vals_of(a@));
            Value::Array(out)
        },
        Value::Object(m) => {
            proof {
                lemma_pairs_of(m@);
            }
            let mut out: Vec<(Value, Value)> = Vec::new();
            let mut i: usize = 0;
            assert(pairs_of(m@).take(0) =~= Seq::<(Val, Val)>::empty());
            while i < m.len()
                invariant
                    i <= m@.len(),
                    pairs_of(out@) == refined_pairs(pairs_of(m@).take(i as int), *to_float),
                decreases m@.len() - i,
            {
                proof {
                    assert(decreases_to!(value => m@[i as int].0));
                    assert(decreases_to!(value => m@[i as int].1));
                    lemma_refined_pairs_push(pairs_of(m@), i as int, *to_float);
                }
                let k = refine_ref(&m[i].0, to_float);
                let v = refine_ref(&m[i].1, to_float);
                let ghost before = out@;
                out.push((k, v));
                proof {
                    assert(out@.drop_last() =~= before);
                    assert(pairs_of(out@) == pairs_of(before).push((val_of(k), val_of(v))));
                    assert(pairs_of(m@)[i as int] == (val_of(m@[i as int].0), val_of(m@[i as int].1)));
                }
                i = i + 1;
            }
            assert(pairs_of(m@).take(m@.len() as int) =~= pairs_of(m@));
            Value::Object(out)
        },
        _ => value.duplicate(),
    }
}

/// Make every integer of the data, at any depth and in object keys too, a
/// float; `to_float` gives the bits of the float nearest to an integer
pub fn refine<F: Fn(i128) -> u64>(value: Value, to_float: &F) -> (r: Value)
    requires
        to_float_ready(*to_float),
    ensures
        val_of(r) == refined(val_of(value), *to_float),
{
    refine_ref(&value, to_float)
}

} // verus!
