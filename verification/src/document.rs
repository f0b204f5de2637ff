use vstd::prelude::*;

use crate::error::{Error, Result};
use crate::selection::Primary;
use crate::text::to_text;

verus! {

/// Generic document data
#[derive(Debug)]
pub enum Value {
    Null,
    Bool(bool),
    Integer(i128),
    Float(u64),
    Bytes(Vec<u8>),
    Text(String),
    Array(Vec<Value>),
    Object(Vec<(Value, Value)>),
}

/// The mathematical model of generic document data
pub enum Val {
    Null,
    Bool(bool),
    Integer(int),
    Float(u64),
    Bytes(Seq<u8>),
    Text(Seq<char>),
    Array(Seq<Val>),
    Object(Seq<(Val, Val)>),
}

pub open spec fn val_of(v: Value) -> Val
    decreases v, 0nat,
{
    match v {
        Value::Null => Val::Null,
        Value::Bool(b) => Val::Bool(b),
        Value::Integer(i) => Val::Integer(i as int),
        Value::Float(f) => Val::Float(f),
        Value::Bytes(b) => Val::Bytes(b@),
        Value::Text(t) => Val::Text(t@),
        Value::Array(a) => Val::Array(vals_of(a@)),
        Value::Object(m) => Val::Object(pairs_of(m@)),
    }
}

pub open spec fn vals_of(s: Seq<Value>) -> Seq<Val>
    decreases s, 1nat,
{
    if s.len() == 0 {
        Seq::empty()
    } else {
        vals_of(s.drop_last()).push(val_of(s.last()))
    }
}

pub open spec fn pairs_of(s: Seq<(Value, Value)>) -> Seq<(Val, Val)>
    decreases s, 1nat,
{
    if s.len() == 0 {
        Seq::empty()
    } else {
        pairs_of(s.drop_last()).push((val_of(s.last().0), val_of(s.last().1)))
    }
}

/// `vals_of` models each element in place
pub proof fn lemma_vals_of(s: Seq<Value>)
    ensures
        vals_of(s).len() == s.len(),
        forall|i: int| 0 <= i < s.len() ==> #[trigger] vals_of(s)[i] == val_of(s[i]),
    decreases s.len(),
{
    if s.len() > 0 {
        lemma_vals_of(s.drop_last());
    }
}

/// `pairs_of` models each entry in place
pub proof fn lemma_pairs_of(s: Seq<(Value, Value)>)
    ensures
        pairs_of(s).len() == s.len(),
        forall|i: int|
            0 <= i < s.len() ==> #[trigger] pairs_of(s)[i] == (val_of(s[i].0), val_of(s[i].1)),
    decreases s.len(),
{
    if s.len() > 0 {
        lemma_pairs_of(s.drop_last());
    }
}

/// `vals_of` is determined element by element
pub proof fn lemma_vals_eq(s: Seq<Value>, t: Seq<Val>)
    requires
        s.len() == t.len(),
        forall|i: int| 0 <= i < s.len() ==> val_of(#[trigger] s[i]) == t[i],
    ensures
        vals_of(s) == t,
{
    lemma_vals_of(s);
    assert(vals_of(s) =~= t);
}

/// `pairs_of` is determined entry by entry
pub proof fn lemma_pairs_eq(s: Seq<(Value, Value)>, t: Seq<(Val, Val)>)
    requires
        s.len() == t.len(),
        forall|i: int| 0 <= i < s.len() ==> (val_of(#[trigger] s[i].0), val_of(s[i].1)) == t[i],
    ensures
        pairs_of(s) == t,
{
    lemma_pairs_of(s);
    assert(pairs_of(s) =~= t);
}

/// Compare two byte strings
pub(crate) fn bytes_eq(a: &Vec<u8>, b: &Vec<u8>) -> (r: bool)
    ensures
        r == (a@ == b@),
{
    if a.len() != b.len() {
        return false;
    }
    let mut i: usize = 0;
    while i < a.len()
        invariant
            i <= a.len(),
            a.len() == b.len(),
            forall|j: int| 0 <= j < i ==> a@[j] == b@[j],
        decreases a.len() - i,
    {
        if a[i] != b[i] {
            return false;
        }
        i = i + 1;
    }
    assert(a@ =~= b@);
    true
}

/// Compare two strings
pub(crate) fn text_eq(a: &String, b: &String) -> (r: bool)
    ensures
        r == (a@ == b@),
{
    a.eq(b)
}

/// Whether the entries of an object have distinct keys
pub open spec fn keys_unique(m: Seq<(Val, Val)>) -> bool {
    forall|i: int, j: int| 0 <= i < m.len() && 0 <= j < m.len() && i != j ==> #[trigger] m[i].0 != #[trigger] m[j].0
}

/// Whether the bits are those of a float that is not a number
pub open spec fn is_nan(x: u64) -> bool {
    (x & 0x7ff0_0000_0000_0000u64) == 0x7ff0_0000_0000_0000u64 && (x & 0x000f_ffff_ffff_ffffu64) != 0
}

/// Whether two floats (as bits) hold the same data: the same bits, or both
/// not a number (every such float is written the same way)
pub open spec fn float_same(x: u64, y: u64) -> bool {
    x == y || (is_nan(x) && is_nan(y))
}

/// Whether two values hold the same data: objects whose keys are distinct are
/// compared as maps, entry by entry whatever their order; other objects entry
/// by entry in place; floats as `float_same` says; the rest in place
pub open spec fn val_same(a: Val, b: Val) -> bool
    decreases a, 0nat,
{
    match (a, b) {
        (Val::Array(s), Val::Array(t)) => s.len() == t.len() && forall|i: int| #![trigger s[i]] 0 <= i < s.len() ==> val_same(s[i], t[i]),
        (Val::Object(m), Val::Object(n)) => if keys_unique(m) && keys_unique(n) {
            &&& m.len() == n.len()
            &&& forall|i: int| #![trigger m[i]] 0 <= i < m.len() ==> match key_index(n, m[i].0) {
                Some(j) => val_same(m[i].1, n[j].1),
                None => false,
            }
        } else {
            &&& m.len() == n.len()
            &&& forall|i: int| #![trigger m[i]] 0 <= i < m.len() ==> m[i].0 == n[i].0 && val_same(m[i].1, n[i].1)
        },
        (Val::Float(x), Val::Float(y)) => float_same(x, y),
        _ => a == b,
    }
}


/// Arrays that differ at one element do not hold the same data
proof fn lemma_array_differs(s: Seq<Val>, t: Seq<Val>, i: int)
    requires
        0 <= i < s.len(),
        !val_same(s[i], t[i]),
    ensures
        !val_same(Val::Array(s), Val::Array(t)),
{
}

/// Whether the object `n` holds the key of entry `e` with the same data
pub open spec fn entry_matched(e: (Val, Val), n: Seq<(Val, Val)>) -> bool {
    match key_index(n, e.0) {
        Some(j) => val_same(e.1, n[j].1),
        None => false,
    }
}

/// Objects with distinct keys, of equal size, where each entry of the first
/// has its key in the second with the same data, hold the same data
proof fn lemma_entries_match(m: Seq<(Val, Val)>, n: Seq<(Val, Val)>)
    requires
        keys_unique(m),
        keys_unique(n),
        m.len() == n.len(),
        forall|x: int| #![trigger m[x]] 0 <= x < m.len() ==> entry_matched(m[x], n),
    ensures
        val_same(Val::Object(m), Val::Object(n)),
{
}

/// Objects with distinct keys where an entry of the first has no match in the
/// second do not hold the same data
proof fn lemma_entry_unmatched(m: Seq<(Val, Val)>, n: Seq<(Val, Val)>, i: int)
    requires
        keys_unique(m),
        keys_unique(n),
        0 <= i < m.len(),
        !entry_matched(m[i], n),
    ensures
        !val_same(Val::Object(m), Val::Object(n)),
{
}

/// Whether two floats (as bits) hold the same data
fn float_eq(x: u64, y: u64) -> (r: bool)
    ensures
        r == float_same(x, y),
{
    let nan_x = (x & 0x7ff0_0000_0000_0000u64) == 0x7ff0_0000_0000_0000u64 && (x & 0x000f_ffff_ffff_ffffu64) != 0;
    let nan_y = (y & 0x7ff0_0000_0000_0000u64) == 0x7ff0_0000_0000_0000u64 && (y & 0x000f_ffff_ffff_ffffu64) != 0;
    x == y || (nan_x && nan_y)
}

/// Whether two arrays hold the same data, element by element
#[verifier::loop_isolation(false)]
pub(crate) fn arrays_same(a: &Vec<Value>, b: &Vec<Value>) -> (r: bool)
    ensures
        r == val_same(Val::Array(vals_of(a@)), Val::Array(vals_of(b@))),
    decreases a, 0nat,
{
    proof {
        lemma_vals_of(a@);
        lemma_vals_of(b@);
    }
    if a.len() != b.len() {
        return false;
    }
    let ghost s = vals_of(a@);
    let ghost t = vals_of(b@);
    let mut i: usize = 0;
    while i < a.len()
        invariant
            i <= a.len(),
            forall|j: int| #![trigger s[j]] 0 <= j < i ==> val_same(s[j], t[j]),
        decreases a.len() - i,
    {
        proof {
            assert(decreases_to!(a => a@[i as int]));
        }
        if !a[i].same(&b[i]) {
            assert(!val_same(s[i as int], t[i as int]));
            proof {
                lemma_array_differs(s, t, i as int);
            }
            return false;
        }
        i = i + 1;
    }
    true
}

/// Whether two objects hold the same entries, whatever their order
#[verifier::loop_isolation(false)]
fn objects_same(a: &Vec<(Value, Value)>, b: &Vec<(Value, Value)>) -> (r: bool)
    ensures
        r == val_same(Val::Object(pairs_of(a@)), Val::Object(pairs_of(b@))),
    decreases a, 1nat,
{
    proof {
        lemma_pairs_of(a@);
        lemma_pairs_of(b@);
    }
    let ghost m = pairs_of(a@);
    let ghost n = pairs_of(b@);
    if !keys_distinct(a) || !keys_distinct(b) {
        if a.len() != b.len() {
            return false;
        }
        return entries_in_place(a, b);
    }
    if a.len() != b.len() {
        return false;
    }
    let mut i: usize = 0;
    while i < a.len()
        invariant
            i <= a.len(),
            forall|x: int| #![trigger m[x]] 0 <= x < i ==> entry_matched(m[x], n),
        decreases a.len() - i,
    {
        proof {
            assert(decreases_to!(a => a@[i as int]));
        }
        if !entry_in(&a[i], b) {
            proof {
                lemma_entry_unmatched(m, n, i as int);
            }
            return false;
        }
        i = i + 1;
    }
    proof {
        lemma_entries_match(m, n);
    }
    true
}

/// Whether an object holds the key of `x` with the same data
fn entry_in(x: &(Value, Value), b: &Vec<(Value, Value)>) -> (r: bool)
    ensures
        r == entry_matched((val_of(x.0), val_of(x.1)), pairs_of(b@)),
    decreases x, 0nat,
{
    proof {
        lemma_pairs_of(b@);
    }
    match key_position(b, &x.0) {
        Some(j) => x.1.same(&b[j].1),
        None => false,
    }
}

/// Whether two objects of the same size, whose keys are not all distinct,
/// hold the same entries in the same order
fn entries_in_place(a: &Vec<(Value, Value)>, b: &Vec<(Value, Value)>) -> (r: bool)
    requires
        a@.len() == b@.len(),
        !(keys_unique(pairs_of(a@)) && keys_unique(pairs_of(b@))),
    ensures
        r == val_same(Val::Object(pairs_of(a@)), Val::Object(pairs_of(b@))),
    decreases a, 0nat,
{
    proof {
        lemma_pairs_of(a@);
        lemma_pairs_of(b@);
    }
    let ghost m = pairs_of(a@);
    let ghost n = pairs_of(b@);
    let mut i: usize = 0;
    while i < a.len()
        invariant
            i <= a@.len(),
            a@.len() == b@.len(),
            m == pairs_of(a@),
            n == pairs_of(b@),
            m.len() == a@.len(),
            n.len() == b@.len(),
            !(keys_unique(m) && keys_unique(n)),
            forall|x: int| 0 <= x < a@.len() ==> #[trigger] m[x] == (val_of(a@[x].0), val_of(a@[x].1)),
            forall|x: int| 0 <= x < b@.len() ==> #[trigger] n[x] == (val_of(b@[x].0), val_of(b@[x].1)),
            forall|x: int| #![trigger m[x]] 0 <= x < i ==> m[x].0 == n[x].0 && val_same(m[x].1, n[x].1),
        decreases a@.len() - i,
    {
        proof {
            assert(decreases_to!(a => a@[i as int].1));
        }
        if !a[i].0.identical(&b[i].0) || !a[i].1.same(&b[i].1) {
            proof {
                lemma_in_place_differs(m, n, i as int);
            }
            return false;
        }
        i = i + 1;
    }
    proof {
        lemma_in_place_match(m, n);
    }
    true
}

/// Objects whose keys are not all distinct and that differ at one entry do
/// not hold the same data
proof fn lemma_in_place_differs(m: Seq<(Val, Val)>, n: Seq<(Val, Val)>, i: int)
    requires
        !(keys_unique(m) && keys_unique(n)),
        0 <= i < m.len(),
        !(m[i].0 == n[i].0 && val_same(m[i].1, n[i].1)),
    ensures
        !val_same(Val::Object(m), Val::Object(n)),
{
    let e = m[i];
}

/// Objects whose keys are not all distinct and that agree entry by entry in
/// place hold the same data
proof fn lemma_in_place_match(m: Seq<(Val, Val)>, n: Seq<(Val, Val)>)
    requires
        !(keys_unique(m) && keys_unique(n)),
        m.len() == n.len(),
        forall|x: int| #![trigger m[x]] 0 <= x < m.len() ==> m[x].0 == n[x].0 && val_same(m[x].1, n[x].1),
    ensures
        val_same(Val::Object(m), Val::Object(n)),
{
}

/// Whether the entries of an object have distinct keys
fn keys_distinct(a: &Vec<(Value, Value)>) -> (r: bool)
    ensures
        r == keys_unique(pairs_of(a@)),
{
    proof {
        lemma_pairs_of(a@);
    }
    let ghost m = pairs_of(a@);
    let mut i: usize = 0;
    while i < a.len()
        invariant
            i <= a@.len(),
            m == pairs_of(a@),
            m.len() == a@.len(),
            forall|x: int| 0 <= x < a@.len() ==> #[trigger] m[x] == (val_of(a@[x].0), val_of(a@[x].1)),
            forall|x: int, y: int| 0 <= x < i && 0 <= y < m.len() && x != y ==> #[trigger] m[x].0 != #[trigger] m[y].0,
        decreases a@.len() - i,
    {
        let mut j: usize = 0;
        while j < a.len()
            invariant
                i < a@.len(),
                j <= a@.len(),
                m == pairs_of(a@),
                m.len() == a@.len(),
                forall|x: int| 0 <= x < a@.len() ==> #[trigger] m[x] == (val_of(a@[x].0), val_of(a@[x].1)),
                forall|x: int, y: int| 0 <= x < i && 0 <= y < m.len() && x != y ==> #[trigger] m[x].0 != #[trigger] m[y].0,
                forall|y: int| 0 <= y < j && y != i ==> m[i as int].0 != #[trigger] m[y].0,
            decreases a@.len() - j,
        {
            if j != i && a[i].0.identical(&a[j].0) {
                assert(m[i as int].0 == m[j as int].0);
                return false;
            }
            j = j + 1;
        }
        i = i + 1;
    }
    true
}

impl Value {
    /// The model of the value
    pub open spec fn model(&self) -> Val {
        val_of(*self)
    }

    /// Checks two values hold the same data, with object entries in the same order
    #[verifier::loop_isolation(false)]
    pub fn identical(&self, other: &Value) -> (r: bool)
        ensures
            r == (val_of(*self) == val_of(*other)),
        decreases self,
    {
        match (self, other) {
            (Value::Null, Value::Null) => true,
            (Value::Bool(a), Value::Bool(b)) => *a == *b,
            (Value::Integer(a), Value::Integer(b)) => *a == *b,
            (Value::Float(a), Value::Float(b)) => *a == *b,
            (Value::Bytes(a), Value::Bytes(b)) => bytes_eq(a, b),
            (Value::Text(a), Value::Text(b)) => text_eq(a, b),
            (Value::Array(a), Value::Array(b)) => {
                proof {
                    lemma_vals_of(a@);
                    lemma_vals_of(b@);
                }
                if a.len() != b.len() {
                    return false;
                }
                let mut i: usize = 0;
                while i < a.len()
                    invariant
                        i <= a.len(),
                        a.len() == b.len(),
                        vals_of(a@).len() == a.len(),
                        vals_of(b@).len() == b.len(),
                        forall|j: int| 0 <= j < a.len() ==> #[trigger] vals_of(a@)[j] == val_of(a@[j]),
                        forall|j: int| 0 <= j < b.len() ==> #[trigger] vals_of(b@)[j] == val_of(b@[j]),
                        forall|j: int| 0 <= j < i ==> vals_of(a@)[j] == vals_of(b@)[j],
                    decreases a.len() - i,
                {
                    proof {
                        assert(decreases_to!(self => a@[i as int]));
                    }
                    if !a[i].identical(&b[i]) {
                        assert(vals_of(a@)[i as int] != vals_of(b@)[i as int]);
                        return false;
                    }
                    i = i + 1;
                }
                assert(vals_of(a@) =~= vals_of(b@));
                true
            },
            (Value::Object(a), Value::Object(b)) => {
                proof {
                    lemma_pairs_of(a@);
                    lemma_pairs_of(b@);
                }
                if a.len() != b.len() {
                    return false;
                }
                let mut i: usize = 0;
                while i < a.len()
                    invariant
                        i <= a.len(),
                        a.len() == b.len(),
                        pairs_of(a@).len() == a.len(),
                        pairs_of(b@).len() == b.len(),
                        forall|j: int|
                            0 <= j < a.len() ==> #[trigger] pairs_of(a@)[j] == (
                                val_of(a@[j].0),
                                val_of(a@[j].1),
                            ),
                        forall|j: int|
                            0 <= j < b.len() ==> #[trigger] pairs_of(b@)[j] == (
                                val_of(b@[j].0),
                                val_of(b@[j].1),
                            ),
                        forall|j: int| 0 <= j < i ==> pairs_of(a@)[j] == pairs_of(b@)[j],
                    decreases a.len() - i,
                {
                    proof {
                        assert(decreases_to!(self => a@[i as int].0));
                        assert(decreases_to!(self => a@[i as int].1));
                    }
                    let k = a[i].0.identical(&b[i].0);
                    let v = a[i].1.identical(&b[i].1);
                    if !k || !v {
                        assert(pairs_of(a@)[i as int] != pairs_of(b@)[i as int]);
                        return false;
                    }
                    i = i + 1;
                }
                assert(pairs_of(a@) =~= pairs_of(b@));
                true
            },
            _ => false,
        }
    }

    /// Checks two values hold the same data; objects are compared as maps
    pub fn same(&self, other: &Value) -> (r: bool)
        ensures
            r == val_same(val_of(*self), val_of(*other)),
        decreases self, 1nat,
    {
        match (self, other) {
            (Value::Array(a), Value::Array(b)) => arrays_same(a, b),
            (Value::Object(a), Value::Object(b)) => objects_same(a, b),
            (Value::Float(x), Value::Float(y)) => float_eq(*x, *y),
            _ => self.identical(other),
        }
    }

    /// A copy of the value
    #[verifier::loop_isolation(false)]
    pub fn duplicate(&self) -> (r: Value)
        ensures
            val_of(r) == val_of(*self),
        decreases self,
    {
        match self {
            Value::Null => Value::Null,
            Value::Bool(b) => Value::Bool(*b),
            Value::Integer(i) => Value::Integer(*i),
            Value::Float(f) => Value::Float(*f),
            Value::Bytes(b) => Value::Bytes(b.clone()),
            Value::Text(t) => Value::Text(t.clone()),
            Value::Array(a) => {
                proof {
                    lemma_vals_of(a@);
                }
                let mut r: Vec<Value> = Vec::new();
                let mut i: usize = 0;
                while i < a.len()
                    invariant
                        i <= a.len(),
                        r.len() == i,
                        vals_of(a@).len() == a.len(),
                        forall|j: int| 0 <= j < a.len() ==> #[trigger] vals_of(a@)[j] == val_of(a@[j]),
                        forall|j: int| 0 <= j < i ==> val_of(#[trigger] r@[j]) == val_of(a@[j]),
                    decreases a.len() - i,
                {
                    proof {
                        assert(decreases_to!(self => a@[i as int]));
                    }
                    r.push(a[i].duplicate());
                    i = i + 1;
                }
                proof {
                    lemma_vals_of(r@);
                    assert(vals_of(r@) =~= vals_of(a@));
                }
                Value::Array(r)
            },
            Value::Object(a) => {
                proof {
                    lemma_pairs_of(a@);
                }
                let mut r: Vec<(Value, Value)> = Vec::new();
                let mut i: usize = 0;
                while i < a.len()
                    invariant
                        i <= a.len(),
                        r.len() == i,
                        pairs_of(a@).len() == a.len(),
                        forall|j: int|
                            0 <= j < a.len() ==> #[trigger] pairs_of(a@)[j] == (
                                val_of(a@[j].0),
                                val_of(a@[j].1),
                            ),
                        forall|j: int|
                            0 <= j < i ==> val_of(#[trigger] r@[j].0) == val_of(a@[j].0) && val_of(
                                r@[j].1,
                            ) == val_of(a@[j].1),
                    decreases a.len() - i,
                {
                    proof {
                        assert(decreases_to!(self => a@[i as int].0));
                        assert(decreases_to!(self => a@[i as int].1));
                    }
                    let k = a[i].0.duplicate();
                    let v = a[i].1.duplicate();
                    r.push((k, v));
                    i = i + 1;
                }
                proof {
                    lemma_pairs_of(r@);
                    assert(pairs_of(r@) =~= pairs_of(a@));
                }
                Value::Object(r)
            },
        }
    }
}

impl Clone for Value {
    fn clone(&self) -> (r: Self)
        ensures
            val_of(r) == val_of(*self),
    {
        self.duplicate()
    }
}

impl PartialEq for Value {
    fn eq(&self, other: &Self) -> (r: bool) {
        self.same(other)
    }
}

impl vstd::std_specs::cmp::PartialEqSpecImpl for Value {
    open spec fn obeys_eq_spec() -> bool {
        true
    }

    open spec fn eq_spec(&self, other: &Self) -> bool {
        val_same(val_of(*self), val_of(*other))
    }
}

/// The position of the first entry of an object with key `k`
pub open spec fn key_index(m: Seq<(Val, Val)>, k: Val) -> Option<int>
    decreases m.len(),
{
    if m.len() == 0 {
        None
    } else if m[0].0 == k {
        Some(0)
    } else {
        match key_index(m.drop_first(), k) {
            Some(i) => Some(i + 1),
            None => None,
        }
    }
}

/// The first entry of an object with key `k`, found past entries with other keys
pub proof fn lemma_key_index(m: Seq<(Val, Val)>, k: Val, i: int)
    requires
        0 <= i <= m.len(),
        forall|j: int| 0 <= j < i ==> m[j].0 != k,
    ensures
        i < m.len() && m[i].0 == k ==> key_index(m, k) == Some(i),
        i == m.len() ==> key_index(m, k) is None,
    decreases i,
{
    if i > 0 {
        lemma_key_index(m.drop_first(), k, i - 1);
    }
}

/// The position of the entry of an object with a key
pub(crate) fn key_position(m: &Vec<(Value, Value)>, k: &Value) -> (r: Option<usize>)
    ensures
        r matches Some(i) ==> i < m@.len() && key_index(pairs_of(m@), val_of(*k)) == Some(i as int),
        r is None ==> key_index(pairs_of(m@), val_of(*k)) is None,
{
    proof {
        lemma_pairs_of(m@);
    }
    let mut i: usize = 0;
    while i < m.len()
        invariant
            i <= m@.len(),
            pairs_of(m@).len() == m@.len(),
            forall|j: int| 0 <= j < m@.len() ==> #[trigger] pairs_of(m@)[j] == (val_of(m@[j].0), val_of(m@[j].1)),
            forall|j: int| 0 <= j < i ==> pairs_of(m@)[j].0 != val_of(*k),
        decreases m@.len() - i,
    {
        if m[i].0.identical(k) {
            proof {
                lemma_key_index(pairs_of(m@), val_of(*k), i as int);
            }
            return Some(i);
        }
        i = i + 1;
    }
    proof {
        lemma_key_index(pairs_of(m@), val_of(*k), i as int);
    }
    None
}

/// The primary identifier split off a document and the document without it:
/// `None` where the document is not an object or its primary field holds
/// neither null nor an integer (an integer is cut to its low 32 bits)
pub open spec fn split_primary(v: Val, primary: Seq<char>) -> Option<(Option<Primary>, Val)> {
    match v {
        Val::Object(m) => match key_index(m, Val::Text(primary)) {
            None => Some((None, v)),
            Some(i) => match m[i].1 {
                Val::Null => Some((None, Val::Object(m.remove(i)))),
                Val::Integer(n) => Some((Some(n as u32), Val::Object(m.remove(i)))),
                _ => None,
            },
        },
        _ => None,
    }
}

/// The document with its primary identifier set in the primary field (an
/// entry already there takes the identifier, else one is added); `None`
/// where the document is not an object
pub open spec fn join_primary(id: Option<Primary>, v: Val, primary: Seq<char>) -> Option<Val> {
    match v {
        Val::Object(m) => Some(match id {
            None => v,
            Some(n) => Val::Object(
                match key_index(m, Val::Text(primary)) {
                    Some(i) => m.update(i, (m[i].0, Val::Integer(n as int))),
                    None => m.push((Val::Text(primary), Val::Integer(n as int))),
                },
            ),
        }),
        _ => None,
    }
}

/// Law: splitting the primary identifier off a document and setting it back
/// gives a document with the same entries (the primary entry moves to the
/// end), where the primary field holds an integer that fits an identifier and
/// no other entry has the primary key
pub proof fn law_primary_round_trip(m: Seq<(Val, Val)>, primary: Seq<char>, i: int, n: int)
    requires
        0 <= i < m.len(),
        m[i] == (Val::Text(primary), Val::Integer(n)),
        0 <= n <= u32::MAX,
        forall|j: int| 0 <= j < m.len() && j != i ==> m[j].0 != Val::Text(primary),
    ensures
        split_primary(Val::Object(m), primary) == Some((Some(n as u32), Val::Object(m.remove(i)))),
        join_primary(Some(n as u32), Val::Object(m.remove(i)), primary) == Some(Val::Object(m.remove(i).push(m[i]))),
        m.remove(i).push(m[i]).to_set() == m.to_set(),
        keys_unique(m) ==> val_same(Val::Object(m.remove(i).push(m[i])), Val::Object(m)),
{
    law_primary_round_trip_entries(m, primary, i, n);
    if keys_unique(m) {
        let r = m.remove(i);
        let s = r.push(m[i]);
        // where each entry of the result comes from
        let src = |x: int| if x == r.len() { i } else if x < i { x } else { x + 1 };
        assert forall|x: int| 0 <= x < s.len() implies #[trigger] s[x] == m[src(x)] && 0 <= src(x) < m.len() by {}
        assert(keys_unique(s)) by {
            assert forall|x: int, y: int| 0 <= x < s.len() && 0 <= y < s.len() && x != y implies #[trigger] s[x].0 != #[trigger] s[y].0 by {
                assert(s[x] == m[src(x)] && s[y] == m[src(y)]);
            }
        }
        assert forall|x: int| #![trigger s[x]] 0 <= x < s.len() implies entry_matched(s[x], m) by {
            let j = src(x);
            assert(s[x] == m[j]);
            assert forall|l: int| 0 <= l < j implies m[l].0 != m[j].0 by {
                assert(m[l].0 != m[j].0);
            }
            lemma_key_index(m, m[j].0, j);
            lemma_val_same_refl(m[j].1);
        }
        lemma_entries_match(s, m);
    }
}

/// Every value holds the same data as itself
pub proof fn lemma_val_same_refl(v: Val)
    ensures
        val_same(v, v),
    decreases v,
{
    match v {
        Val::Array(s) => {
            assert forall|i: int| #![trigger s[i]] 0 <= i < s.len() implies val_same(s[i], s[i]) by {
                lemma_val_same_refl(s[i]);
            }
        },
        Val::Object(m) => {
            if keys_unique(m) {
                assert forall|i: int| #![trigger m[i]] 0 <= i < m.len() implies entry_matched(m[i], m) by {
                    assert forall|l: int| 0 <= l < i implies m[l].0 != m[i].0 by {
                        assert(m[l].0 != m[i].0);
                    }
                    lemma_key_index(m, m[i].0, i);
                    lemma_val_same_refl(m[i].1);
                }
                lemma_entries_match(m, m);
            } else {
                assert forall|i: int| #![trigger m[i]] 0 <= i < m.len() implies m[i].0 == m[i].0 && val_same(m[i].1, m[i].1) by {
                    lemma_val_same_refl(m[i].1);
                }
                lemma_in_place_match(m, m);
            }
        },
        _ => {},
    }
}

/// The entries of a document after the primary identifier is split off and set back
proof fn law_primary_round_trip_entries(m: Seq<(Val, Val)>, primary: Seq<char>, i: int, n: int)
    requires
        0 <= i < m.len(),
        m[i] == (Val::Text(primary), Val::Integer(n)),
        0 <= n <= u32::MAX,
        forall|j: int| 0 <= j < m.len() && j != i ==> m[j].0 != Val::Text(primary),
    ensures
        split_primary(Val::Object(m), primary) == Some((Some(n as u32), Val::Object(m.remove(i)))),
        join_primary(Some(n as u32), Val::Object(m.remove(i)), primary) == Some(Val::Object(m.remove(i).push(m[i]))),
        m.remove(i).push(m[i]).to_set() == m.to_set(),
{
    let k = Val::Text(primary);
    lemma_key_index(m, k, i);
    let r = m.remove(i);
    assert forall|j: int| 0 <= j < r.len() implies r[j].0 != k by {
        if j < i {
            assert(r[j] == m[j]);
        } else {
            assert(r[j] == m[j + 1]);
        }
    }
    lemma_key_index(r, k, r.len() as int);
    assert(((n as u32) as int) == n);
    let s = r.push(m[i]);
    assert forall|x: (Val, Val)| s.to_set().contains(x) <==> m.to_set().contains(x) by {
        if s.contains(x) {
            let j = choose|j: int| 0 <= j < s.len() && s[j] == x;
            if j == r.len() {
                assert(m[i] == x);
            } else if j < i {
                assert(m[j] == x);
            } else {
                assert(m[j + 1] == x);
            }
        }
        if m.contains(x) {
            let j = choose|j: int| 0 <= j < m.len() && m[j] == x;
            if j == i {
                assert(s[r.len() as int] == x);
            } else if j < i {
                assert(s[j] == x);
            } else {
                assert(s[j - 1] == x);
            }
        }
    }
    assert(s.to_set() =~= m.to_set());
}

/// Raw document with id representation
#[derive(Debug)]
pub struct RawDocument(pub Option<Primary>, pub Value);

impl RawDocument {
    /// Create document using raw data
    pub fn new(doc: Value) -> (d: Self)
        ensures
            d.0 is None,
            d.1 == doc,
    {
        RawDocument(None, doc)
    }

    /// Add id to document
    pub fn with_id(self, id: Primary) -> (d: Self)
        ensures
            d.0 == Some(id),
            d.1 == self.1,
    {
        RawDocument(Some(id), self.1)
    }

    /// Remove id from document
    pub fn without_id(self) -> (d: Self)
        ensures
            d.0 is None,
            d.1 == self.1,
    {
        RawDocument(None, self.1)
    }

    /// Checks when document has primary key/identifier
    pub fn has_id(&self) -> (r: bool)
        ensures
            r == self.0 is Some,
    {
        self.0.is_some()
    }

    /// Get the primary key/identifier of document
    pub fn get_id(&self) -> (r: &Option<Primary>)
        ensures
            *r == self.0,
    {
        &self.0
    }

    /// Require the primary key/identifier of document
    pub fn req_id(&self) -> (r: Result<Primary>)
        ensures
            r is Ok <==> self.0 is Some,
            r matches Ok(id) ==> self.0 == Some(id),
    {
        match self.0 {
            Some(id) => Ok(id),
            None => Err(Error::new(to_text("Missing document id"))),
        }
    }

    /// Unwrap document value
    pub fn into_inner(self) -> (v: Value)
        ensures
            v == self.1,
    {
        self.1
    }

    /// Make a raw document of generic document data, splitting the primary
    /// identifier off its primary field
    pub fn from_value(raw: Value, primary: &str) -> (r: Result<Self>)
        ensures
            r is Ok <==> split_primary(val_of(raw), primary@) is Some,
            r matches Ok(d) ==> (d.0, val_of(d.1)) == split_primary(val_of(raw), primary@).unwrap(),
    {
        match raw {
            Value::Object(m) => {
                let key = Value::Text(to_text(primary));
                let mut m = m;
                proof {
                    lemma_pairs_of(m@);
                }
                match key_position(&m, &key) {
                    None => Ok(RawDocument(None, Value::Object(m))),
                    Some(i) => {
                        let ghost before = m@;
                        let (_k, v) = m.remove(i);
                        proof {
                            lemma_pairs_eq(m@, pairs_of(before).remove(i as int));
                        }
                        match v {
                            Value::Null => Ok(RawDocument(None, Value::Object(m))),
                            Value::Integer(n) => Ok(RawDocument(Some(n as u32), Value::Object(m))),
                            _ => Err(Error::new(to_text("Document primary must be an integer"))),
                        }
                    },
                }
            },
            _ => Err(Error::new(to_text("Document must be represented as an object"))),
        }
    }

    /// Generic document data of the raw document, with its primary
    /// identifier set in the primary field
    pub fn into_value(self, primary: &str) -> (r: Result<Value>)
        ensures
            r is Ok <==> join_primary(self.0, val_of(self.1), primary@) is Some,
            r matches Ok(v) ==> val_of(v) == join_primary(self.0, val_of(self.1), primary@).unwrap(),
    {
        let RawDocument(id, raw) = self;
        match raw {
            Value::Object(m) => {
                let mut m = m;
                match id {
                    None => Ok(Value::Object(m)),
                    Some(n) => {
                        let key = Value::Text(to_text(primary));
                        let ghost before = m@;
                        proof {
                            lemma_pairs_of(before);
                        }
                        match key_position(&m, &key) {
                            Some(i) => {
                                let k = m[i].0.duplicate();
                                m.set(i, (k, Value::Integer(n as i128)));
                                proof {
                                    lemma_pairs_eq(m@, pairs_of(before).update(i as int, (pairs_of(before)[i as int].0, Val::Integer(n as int))));
                                }
                            },
                            None => {
                                m.push((key, Value::Integer(n as i128)));
                                proof {
                                    lemma_pairs_eq(m@, pairs_of(before).push((Val::Text(primary@), Val::Integer(n as int))));
                                }
                            },
                        }
                        Ok(Value::Object(m))
                    },
                }
            },
            _ => Err(Error::new(to_text("Document must be represented as an object"))),
        }
    }
}

} // verus!
