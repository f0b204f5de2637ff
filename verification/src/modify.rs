use regex::Regex;
use vstd::prelude::*;

use crate::document::{arrays_same, key_index, key_position, keys_unique, lemma_key_index, val_same, lemma_pairs_eq, lemma_pairs_of, lemma_vals_eq, lemma_vals_of, pairs_of, val_of, vals_of, Val, Value};
use crate::error::Result;
use crate::document::text_eq;
use crate::text::{decimal_text, integer_text, push_char, push_str, to_text};

verus! {

#[verifier::external_type_specification]
#[verifier::external_body]
pub struct ExRegex(regex::Regex);

/// Whether `regex::Regex::new` accepts the pattern
pub uninterp spec fn regex_accepts(pattern: Seq<char>) -> bool;

/// What `regex::Regex::replace_all` gives for the regex of `pattern` on
/// `text` with the replacement `subst`
pub uninterp spec fn regex_replace_all(pattern: Seq<char>, text: Seq<char>, subst: Seq<char>) -> Seq<char>;

/// `regex::Regex::new`: compile a pattern; it succeeds exactly on the
/// patterns that `regex_accepts`, and a failure carries the error's message
/// (nothing is stated of that text)
#[verifier::external_body]
fn compile_regex(pattern: &str) -> (r: core::result::Result<Regex, String>)
    ensures
        r is Ok <==> regex_accepts(pattern@),
{
    match Regex::new(pattern) {
        Ok(re) => Ok(re),
        Err(e) => Err(e.to_string()),
    }
}

/// `<regex::Regex as Clone>::clone`: a regex that matches as the cloned one does
/// (nothing is stated of it beyond its type)
#[verifier::external_body]
fn clone_regex(re: &Regex) -> (r: Regex) {
    re.clone()
}

/// A compiled regular expression together with its pattern
#[derive(Debug)]
pub struct WrappedRegex {
    pattern: String,
    compiled: Regex,
}

/// `regex::Regex::replace_all`: every match in `text` replaced as `subst`
/// says, where `$name`, `${name}` and `$1` stand for the match's groups
/// (expanded as in the regex crate) and `$$` for a dollar sign. The compiled regex of a
/// `WrappedRegex` is the one that `Regex::new` built from its pattern (the
/// fields are private and set only by `WrappedRegex::new` and `clone`), so
/// the result is named by the pattern.
#[verifier::external_body]
fn regex_replace(re: &WrappedRegex, text: &str, subst: &str) -> (r: String)
    ensures
        r@ == regex_replace_all(re.pattern@, text@, subst@),
{
    re.compiled.replace_all(text, subst).into_owned()
}

impl WrappedRegex {
    /// The pattern of the regular expression
    pub closed spec fn spec_pattern(&self) -> Seq<char> {
        self.pattern@
    }

    /// Compile a regular expression
    pub fn new(pattern: &str) -> (r: Result<WrappedRegex>)
        ensures
            r is Ok <==> regex_accepts(pattern@),
            r matches Ok(re) ==> re.spec_pattern() == pattern@,
    {
        match compile_regex(pattern) {
            Ok(compiled) => Ok(WrappedRegex { pattern: to_text(pattern), compiled }),
            Err(e) => Err(crate::error::Error::new(e)),
        }
    }

    /// The pattern of the regular expression
    pub fn as_str(&self) -> (r: &str)
        ensures
            r@ == self.spec_pattern(),
    {
        self.pattern.as_str()
    }
}

impl Clone for WrappedRegex {
    fn clone(&self) -> (r: Self)
        ensures
            r.spec_pattern() == self.spec_pattern(),
    {
        WrappedRegex { pattern: self.pattern.clone(), compiled: clone_regex(&self.compiled) }
    }
}

impl PartialEq for WrappedRegex {
    fn eq(&self, other: &Self) -> (r: bool) {
        self.pattern.eq(&other.pattern)
    }
}

impl vstd::std_specs::cmp::PartialEqSpecImpl for WrappedRegex {
    open spec fn obeys_eq_spec() -> bool {
        true
    }

    open spec fn eq_spec(&self, other: &Self) -> bool {
        self.spec_pattern() == other.spec_pattern()
    }
}

/// Modifier action
#[derive(Debug, Clone)]
pub enum Action {
    /// Set new value to field
    Assign(Value),
    /// Delete field
    Delete,
    /// Add some value to field (this also works with string and bytes fields)
    Add(Value),
    /// Substract some value from field
    Sub(Value),
    /// Multiply field to value
    Mul(Value),
    /// Divide field to value
    Div(Value),
    /// Toggle boolean field
    Toggle,
    /// Replace string field using regular expression
    Replace(WrappedRegex, String),
    /// Splice array field
    Splice(i32, i32, Vec<Value>),
    /// Merge object field
    Merge(Value),
}

/// An arithmetic operation of a modifier
#[derive(Debug, Clone, Copy, PartialEq, Eq, Structural)]
pub enum ArithOp {
    Add,
    Sub,
    Mul,
    Div,
}

/// A number operand: an integer, or the IEEE-754 bits of a float
#[derive(Debug, Clone, Copy, PartialEq, Eq, Structural)]
pub enum Num {
    Int(i128),
    Float(u64),
}

/// The bits of the float that `arith` computes for `a op b`
pub open spec fn float_arith<F: Fn(ArithOp, Num, Num) -> u64>(arith: F, op: ArithOp, a: Num, b: Num) -> u64 {
    choose|r: u64| call_ensures(arith, (op, a, b), r)
}

/// The integer that `whole` says the float of `x` stands for, if any
pub open spec fn float_whole<G: Fn(u64) -> Option<i128>>(whole: G, x: u64) -> Option<i128> {
    choose|r: Option<i128>| call_ensures(whole, (x,), r)
}

/// Whether the floating-point operations can always be called and always give one answer
pub open spec fn float_ops_ready<F: Fn(ArithOp, Num, Num) -> u64, G: Fn(u64) -> Option<i128>>(arith: F, whole: G) -> bool {
    &&& forall|op: ArithOp, a: Num, b: Num| #[trigger] arith.requires((op, a, b))
    &&& forall|op: ArithOp, a: Num, b: Num, r1: u64, r2: u64|
        #[trigger] call_ensures(arith, (op, a, b), r1) && #[trigger] call_ensures(arith, (op, a, b), r2) ==> r1 == r2
    &&& forall|x: u64| #[trigger] whole.requires((x,))
    &&& forall|x: u64, r1: Option<i128>, r2: Option<i128>|
        #[trigger] call_ensures(whole, (x,), r1) && #[trigger] call_ensures(whole, (x,), r2) ==> r1 == r2
}

/// The integer quotient rounded toward zero, as Rust's `/` computes it
pub open spec fn quotient(p: int, a: int) -> int {
    let q = (if p >= 0 { p } else { -p }) / (if a >= 0 { a } else { -a });
    if (p >= 0) == (a >= 0) { q } else { -q }
}

/// Integer arithmetic as the 128-bit operators compute it; `None` where they panic
pub open spec fn int_arith(op: ArithOp, p: int, a: int) -> Option<int> {
    let r = match op {
        ArithOp::Add => p + a,
        ArithOp::Sub => p - a,
        ArithOp::Mul => p * a,
        ArithOp::Div => quotient(p, a),
    };
    if (op == ArithOp::Div && a == 0) || r < i128::MIN || r > i128::MAX {
        None
    } else {
        Some(r)
    }
}

/// The arithmetic operation and operand of an action, if it is arithmetic
pub open spec fn action_arith(act: Action) -> Option<(ArithOp, Value)> {
    match act {
        Action::Add(x) => Some((ArithOp::Add, x)),
        Action::Sub(x) => Some((ArithOp::Sub, x)),
        Action::Mul(x) => Some((ArithOp::Mul, x)),
        Action::Div(x) => Some((ArithOp::Div, x)),
        _ => None,
    }
}

/// One action on a primitive value: `None` where it panics, `Some(None)`
/// where it leaves the value, and the new value otherwise
pub open spec fn prim_step<F: Fn(ArithOp, Num, Num) -> u64>(v: Val, act: Action, arith: F) -> Option<Option<Val>> {
    match action_arith(act) {
        Some((op, x)) => match (v, val_of(x)) {
            (Val::Integer(p), Val::Integer(a)) => match int_arith(op, p, a) {
                Some(r) => Some(Some(Val::Integer(r))),
                None => None,
            },
            (Val::Integer(p), Val::Float(a)) => Some(Some(Val::Float(float_arith(arith, op, Num::Int(p as i128), Num::Float(a))))),
            (Val::Float(p), Val::Integer(a)) => Some(Some(Val::Float(float_arith(arith, op, Num::Float(p), Num::Int(a as i128))))),
            (Val::Float(p), Val::Float(a)) => Some(Some(Val::Float(float_arith(arith, op, Num::Float(p), Num::Float(a))))),
            (Val::Text(p), Val::Text(a)) => if op == ArithOp::Add { Some(Some(Val::Text(p + a))) } else { Some(None) },
            (Val::Bytes(p), Val::Bytes(a)) => if op == ArithOp::Add { Some(Some(Val::Bytes(p + a))) } else { Some(None) },
            _ => Some(None),
        },
        None => match (v, act) {
            (Val::Bool(b), Action::Toggle) => Some(Some(Val::Bool(!b))),
            (Val::Text(p), Action::Replace(re, subst)) => Some(Some(Val::Text(regex_replace_all(re.spec_pattern(), p, subst@)))),
            _ => Some(None),
        },
    }
}

/// Law: integer arithmetic on an integer field takes the field as the left
/// operand: subtracting `a` gives the number that adding `a` turns back
/// into the field, adding gives the number that subtracting turns back,
/// multiplying gives the product, and dividing by a nonzero `a` gives the
/// number that multiplying by `a` brings within `|a|` of the field, on its
/// side of zero; each succeeds exactly where its result fits in 128 bits
pub proof fn law_integer_arith_on_field<F: Fn(ArithOp, Num, Num) -> u64>(p: int, a: int, x: Value, arith: F)
    requires
        val_of(x) == Val::Integer(a),
    ensures
        prim_step(Val::Integer(p), Action::Sub(x), arith) matches Some(Some(Val::Integer(r))) ==> r + a == p,
        prim_step(Val::Integer(p), Action::Add(x), arith) matches Some(Some(Val::Integer(r))) ==> r - a == p,
        prim_step(Val::Integer(p), Action::Mul(x), arith) matches Some(Some(Val::Integer(r))) ==> r == p * a,
        prim_step(Val::Integer(p), Action::Div(x), arith) matches Some(Some(Val::Integer(r))) ==> {
            let d = p - r * a;
            &&& (if a >= 0 { -a < d < a } else { a < d < -a })
            &&& (d == 0 || (d > 0) == (p > 0))
        },
        i128::MIN <= p - a <= i128::MAX ==> prim_step(Val::Integer(p), Action::Sub(x), arith) is Some,
        i128::MIN <= p + a <= i128::MAX ==> prim_step(Val::Integer(p), Action::Add(x), arith) is Some,
        prim_step(Val::Integer(p), Action::Sub(x), arith) is Some ==> prim_step(Val::Integer(p), Action::Sub(x), arith)
            matches Some(Some(Val::Integer(_))),
        prim_step(Val::Integer(p), Action::Add(x), arith) is Some ==> prim_step(Val::Integer(p), Action::Add(x), arith)
            matches Some(Some(Val::Integer(_))),
{
    let ap = if p >= 0 { p } else { -p };
    let aa = if a >= 0 { a } else { -a };
    if a != 0 {
        let q = ap / aa;
        assert(ap == q * aa + ap % aa && 0 <= ap % aa < aa) by (nonlinear_arith)
            requires
                aa > 0,
                ap >= 0,
                q == ap / aa,
        ;
        let r = quotient(p, a);
        assert(p - r * a == (if p >= 0 { ap % aa } else { -(ap % aa) })) by (nonlinear_arith)
            requires
                ap == q * aa + ap % aa,
                ap == (if p >= 0 { p } else { -p }),
                aa == (if a >= 0 { a } else { -a }),
                r == (if (p >= 0) == (a >= 0) { q } else { -q }),
        ;
    }
}

/// Law: subtracting an integer from an integer field and adding it again
/// gives the field back, where the difference fits in 128 bits
pub proof fn law_sub_then_add_restores<F: Fn(ArithOp, Num, Num) -> u64>(p: int, a: int, x: Value, arith: F)
    requires
        val_of(x) == Val::Integer(a),
        i128::MIN <= p <= i128::MAX,
        i128::MIN <= p - a <= i128::MAX,
    ensures
        prim_fold(Val::Integer(p), seq![Action::Sub(x), Action::Add(x)], arith) == Some(Val::Integer(p)),
{
    let acts = seq![Action::Sub(x), Action::Add(x)];
    assert(acts.drop_last() =~= seq![Action::Sub(x)]);
    assert(seq![Action::Sub(x)].drop_last() =~= Seq::<Action>::empty());
    let one = seq![Action::Sub(x)];
    assert(prim_fold(Val::Integer(p), Seq::<Action>::empty(), arith) == Some(Val::Integer(p)));
    assert(one.last() == Action::Sub(x));
    assert(prim_step(Val::Integer(p), Action::Sub(x), arith) == Some(Some(Val::Integer(p - a))));
    assert(prim_fold(Val::Integer(p), one, arith) == Some(Val::Integer(p - a)));
    assert(acts.last() == Action::Add(x));
    assert(prim_step(Val::Integer(p - a), Action::Add(x), arith) == Some(Some(Val::Integer(p))));
}

/// The actions, in order, on a primitive value; `None` where one panics
pub open spec fn prim_fold<F: Fn(ArithOp, Num, Num) -> u64>(v: Val, acts: Seq<Action>, arith: F) -> Option<Val>
    decreases acts.len(),
{
    if acts.len() == 0 {
        Some(v)
    } else {
        match prim_fold(v, acts.drop_last(), arith) {
            Some(w) => match prim_step(w, acts.last(), arith) {
                Some(Some(n)) => Some(n),
                Some(None) => Some(w),
                None => None,
            },
            None => None,
        }
    }
}

/// A float that stands for a whole number becomes that integer
pub open spec fn normalized<G: Fn(u64) -> Option<i128>>(v: Val, whole: G) -> Val {
    match v {
        Val::Float(x) => match float_whole(whole, x) {
            Some(i) => Val::Integer(i as int),
            None => v,
        },
        _ => v,
    }
}

/// The value after the assigning and deleting actions, in order
pub open spec fn reset_fold(v: Val, acts: Seq<Action>) -> Val
    decreases acts.len(),
{
    if acts.len() == 0 {
        v
    } else {
        let w = reset_fold(v, acts.drop_last());
        match acts.last() {
            Action::Assign(x) => val_of(x),
            Action::Delete => Val::Null,
            _ => w,
        }
    }
}

/// The position of the first element of `s` that holds the same data as `e`
pub open spec fn first_index(s: Seq<Val>, e: Val) -> Option<int>
    decreases s.len(),
{
    if s.len() == 0 {
        None
    } else if val_same(s[0], e) {
        Some(0)
    } else {
        match first_index(s.drop_first(), e) {
            Some(i) => Some(i + 1),
            None => None,
        }
    }
}

/// Add the elements not yet present, in order, as to a set
pub open spec fn add_all(s: Seq<Val>, elms: Seq<Val>) -> Seq<Val>
    decreases elms.len(),
{
    if elms.len() == 0 {
        s
    } else {
        let w = add_all(s, elms.drop_last());
        if first_index(w, elms.last()) is Some { w } else { w.push(elms.last()) }
    }
}

/// Remove the first occurrence of each element, in order, as from a set
pub open spec fn sub_all(s: Seq<Val>, elms: Seq<Val>) -> Seq<Val>
    decreases elms.len(),
{
    if elms.len() == 0 {
        s
    } else {
        let w = sub_all(s, elms.drop_last());
        match first_index(w, elms.last()) {
            Some(i) => w.remove(i),
            None => w,
        }
    }
}

/// The position that a splice bound names in an array of `len` elements:
/// from the start when not negative, from the end (-1 the end) otherwise;
/// `None` where it reaches before the start (the subtraction panics)
pub open spec fn splice_pos(p: i32, len: nat) -> Option<int> {
    if p >= 0 {
        Some(if p < len { p as int } else { len as int })
    } else if -1 - p > len {
        None
    } else {
        Some(len - (-1 - p))
    }
}

/// Replace the elements between two splice bounds by `ins`; `None` where it panics
pub open spec fn spliced(s: Seq<Val>, off: i32, del: i32, ins: Seq<Val>) -> Option<Seq<Val>> {
    match (splice_pos(off, s.len()), splice_pos(del, s.len())) {
        (Some(b), Some(e)) => if b <= e { Some(s.take(b) + ins + s.skip(e)) } else { None },
        _ => None,
    }
}

/// One action on an array; `None` where it panics
pub open spec fn arr_step(s: Seq<Val>, act: Action) -> Option<Seq<Val>> {
    match act {
        Action::Add(x) => match val_of(x) {
            Val::Array(elms) => Some(add_all(s, elms)),
            _ => Some(s),
        },
        Action::Sub(x) => match val_of(x) {
            Val::Array(elms) => Some(sub_all(s, elms)),
            _ => Some(s),
        },
        Action::Splice(off, del, ins) => spliced(s, off, del, vals_of(ins@)),
        _ => Some(s),
    }
}

/// The actions, in order, on an array; `None` where one panics
pub open spec fn arr_fold(s: Seq<Val>, acts: Seq<Action>) -> Option<Seq<Val>>
    decreases acts.len(),
{
    if acts.len() == 0 {
        Some(s)
    } else {
        match arr_fold(s, acts.drop_last()) {
            Some(w) => arr_step(w, acts.last()),
            None => None,
        }
    }
}

/// Insert the entries of `obj`, in order, replacing the value of a key already present
pub open spec fn merged(m: Seq<(Val, Val)>, obj: Seq<(Val, Val)>) -> Seq<(Val, Val)>
    decreases obj.len(),
{
    if obj.len() == 0 {
        m
    } else {
        let w = merged(m, obj.drop_last());
        match key_index(w, obj.last().0) {
            Some(i) => w.update(i, (w[i].0, obj.last().1)),
            None => w.push(obj.last()),
        }
    }
}

/// The value that an object holds for key `k`
pub open spec fn key_value(m: Seq<(Val, Val)>, k: Val) -> Option<Val> {
    match key_index(m, k) {
        Some(i) => Some(m[i].1),
        None => None,
    }
}

/// The value of the last entry with key `k` among `obj`
pub open spec fn last_value(obj: Seq<(Val, Val)>, k: Val) -> Option<Val>
    decreases obj.len(),
{
    if obj.len() == 0 {
        None
    } else if obj.last().0 == k {
        Some(obj.last().1)
    } else {
        last_value(obj.drop_last(), k)
    }
}

/// `key_index` finds the first entry with the key, or says that none has it
proof fn lemma_key_index_found(m: Seq<(Val, Val)>, k: Val)
    ensures
        key_index(m, k) matches Some(i) ==> 0 <= i < m.len() && m[i].0 == k && forall|j: int| 0 <= j < i ==> #[trigger] m[j].0 != k,
        key_index(m, k) is None ==> forall|j: int| 0 <= j < m.len() ==> #[trigger] m[j].0 != k,
    decreases m.len(),
{
    if m.len() > 0 {
        lemma_key_index_found(m.drop_first(), k);
        if m[0].0 != k {
            assert forall|j: int| 0 < j < m.len() implies #[trigger] m[j].0 == m.drop_first()[j - 1].0 by {}
        }
    }
}

/// An object whose first entries have the keys of another, past which no
/// entry has key `k`, finds `k` where the other does
proof fn lemma_key_index_keys(w: Seq<(Val, Val)>, v: Seq<(Val, Val)>, k: Val)
    requires
        w.len() <= v.len(),
        forall|j: int| 0 <= j < w.len() ==> #[trigger] v[j].0 == w[j].0,
        forall|j: int| w.len() <= j < v.len() ==> #[trigger] v[j].0 != k,
    ensures
        key_index(v, k) == key_index(w, k),
{
    lemma_key_index_found(w, k);
    match key_index(w, k) {
        Some(i) => {
            lemma_key_index(v, k, i);
        },
        None => {
            lemma_key_index(v, k, v.len() as int);
        },
    }
}

/// Law: after merging `obj` into an object, each key holds the value of its
/// last entry in `obj`, or else the value it held before; keys stay distinct
pub proof fn law_merge_overwrites(m: Seq<(Val, Val)>, obj: Seq<(Val, Val)>, k: Val)
    ensures
        key_value(merged(m, obj), k) == match last_value(obj, k) {
            Some(v) => Some(v),
            None => key_value(m, k),
        },
        keys_unique(m) ==> keys_unique(merged(m, obj)),
    decreases obj.len(),
{
    if obj.len() > 0 {
        let d = obj.drop_last();
        let e = obj.last();
        let w = merged(m, d);
        law_merge_overwrites(m, d, k);
        lemma_key_index_found(w, e.0);
        lemma_key_index_found(w, k);
        match key_index(w, e.0) {
            Some(i) => {
                let u = w.update(i, (w[i].0, e.1));
                lemma_key_index_keys(w, u, k);
                if keys_unique(w) {
                    assert(keys_unique(u)) by {
                        assert forall|x: int, y: int| 0 <= x < u.len() && 0 <= y < u.len() && x != y implies #[trigger] u[x].0 != #[trigger] u[y].0 by {
                            assert(u[x].0 == w[x].0 && u[y].0 == w[y].0);
                        }
                    }
                }
            },
            None => {
                let u = w.push(e);
                if k != e.0 {
                    lemma_key_index_keys(w, u, k);
                } else {
                    lemma_key_index(u, k, w.len() as int);
                }
                if keys_unique(w) {
                    assert(keys_unique(u)) by {
                        assert forall|x: int, y: int| 0 <= x < u.len() && 0 <= y < u.len() && x != y implies #[trigger] u[x].0 != #[trigger] u[y].0 by {
                            if x < w.len() && y < w.len() {
                                assert(u[x].0 == w[x].0 && u[y].0 == w[y].0);
                            } else if x < w.len() {
                                assert(u[x].0 == w[x].0);
                            } else {
                                assert(u[y].0 == w[y].0);
                            }
                        }
                    }
                }
            },
        }
    }
}

/// The merging actions, in order, on an object
pub open spec fn obj_fold(m: Seq<(Val, Val)>, acts: Seq<Action>) -> Seq<(Val, Val)>
    decreases acts.len(),
{
    if acts.len() == 0 {
        m
    } else {
        let w = obj_fold(m, acts.drop_last());
        match acts.last() {
            Action::Merge(x) => match val_of(x) {
                Val::Object(obj) => merged(w, obj),
                _ => w,
            },
            _ => w,
        }
    }
}

/// The path of the entry with key `key` in the object at path `pfx`
pub open spec fn nested(pfx: Seq<char>, key: Val) -> Seq<char> {
    match key {
        Val::Text(s) => pfx + (if pfx.len() == 0 { Seq::<char>::empty() } else { seq!['.'] }) + s,
        Val::Integer(i) => pfx + seq!['['] + decimal_text(i) + seq![']'],
        _ => pfx,
    }
}

/// The actions that a modifier holds for the field `pfx`
pub open spec fn lookup(mods: Seq<(String, Vec<Action>)>, pfx: Seq<char>) -> Seq<Action>
    decreases mods.len(),
{
    if mods.len() == 0 {
        Seq::empty()
    } else if mods[0].0@ == pfx {
        mods[0].1@
    } else {
        lookup(mods.drop_first(), pfx)
    }
}

/// Whether the actions assign the field a new value
pub open spec fn assigns(acts: Seq<Action>) -> bool {
    exists|i: int| 0 <= i < acts.len() && #[trigger] acts[i] is Assign
}

/// The value at path `pfx` after the modifier, within `fuel` levels of
/// nesting; `None` where an action panics or the fuel runs out. The elements
/// of an array that the field's own actions assign are not modified again
pub open spec fn modified<F: Fn(ArithOp, Num, Num) -> u64, G: Fn(u64) -> Option<i128>>(
    mods: Seq<(String, Vec<Action>)>,
    pfx: Seq<char>,
    v: Val,
    arith: F,
    whole: G,
    fuel: nat,
) -> Option<Val>
    decreases fuel, 0nat,
{
    if fuel == 0 {
        None
    } else {
        let acts = lookup(mods, pfx);
        let w = reset_fold(v, acts);
        match w {
            Val::Array(s) => match arr_fold(s, acts) {
                Some(s2) => if assigns(acts) {
                    Some(Val::Array(s2))
                } else {
                    match modified_seq(mods, pfx, s2, arith, whole, (fuel - 1) as nat) {
                        Some(s3) => Some(Val::Array(s3)),
                        None => None,
                    }
                },
                None => None,
            },
            Val::Object(m) => match modified_pairs(mods, pfx, obj_fold(m, acts), arith, whole, (fuel - 1) as nat) {
                Some(m3) => Some(Val::Object(m3)),
                None => None,
            },
            Val::Null => Some(Val::Null),
            _ => match prim_fold(w, acts, arith) {
                Some(x) => Some(normalized(x, whole)),
                None => None,
            },
        }
    }
}

/// The elements of an array at path `pfx`, each after the modifier
pub open spec fn modified_seq<F: Fn(ArithOp, Num, Num) -> u64, G: Fn(u64) -> Option<i128>>(
    mods: Seq<(String, Vec<Action>)>,
    pfx: Seq<char>,
    s: Seq<Val>,
    arith: F,
    whole: G,
    fuel: nat,
) -> Option<Seq<Val>>
    decreases fuel, s.len() + 1,
{
    if s.len() == 0 {
        Some(Seq::empty())
    } else {
        match (modified_seq(mods, pfx, s.drop_last(), arith, whole, fuel), modified(mods, pfx, s.last(), arith, whole, fuel)) {
            (Some(a), Some(b)) => Some(a.push(b)),
            _ => None,
        }
    }
}

/// The entries of an object at path `pfx`, each value after the modifier at its nested path
pub open spec fn modified_pairs<F: Fn(ArithOp, Num, Num) -> u64, G: Fn(u64) -> Option<i128>>(
    mods: Seq<(String, Vec<Action>)>,
    pfx: Seq<char>,
    m: Seq<(Val, Val)>,
    arith: F,
    whole: G,
    fuel: nat,
) -> Option<Seq<(Val, Val)>>
    decreases fuel, m.len() + 1,
{
    if m.len() == 0 {
        Some(Seq::empty())
    } else {
        let (k, v) = m.last();
        match (modified_pairs(mods, pfx, m.drop_last(), arith, whole, fuel), modified(mods, nested(pfx, k), v, arith, whole, fuel)) {
            (Some(a), Some(b)) => Some(a.push((k, b))),
            _ => None,
        }
    }
}

/// The document after the modifier: `None` where an action panics, or the
/// nesting (of the document, and of what actions assign) goes deeper than a
/// machine word counts
pub open spec fn applied<F: Fn(ArithOp, Num, Num) -> u64, G: Fn(u64) -> Option<i128>>(
    mods: Seq<(String, Vec<Action>)>,
    v: Val,
    arith: F,
    whole: G,
) -> Option<Val> {
    modified(mods, Seq::empty(), v, arith, whole, usize::MAX as nat)
}

/// Whether the data holds no float (object keys aside)
pub open spec fn float_free(v: Val) -> bool
    decreases v, 0nat,
{
    match v {
        Val::Float(_) => false,
        Val::Array(s) => float_free_all(s),
        Val::Object(m) => float_free_pairs(m),
        _ => true,
    }
}

/// Whether none of the values holds a float
pub open spec fn float_free_all(s: Seq<Val>) -> bool
    decreases s, 1nat,
{
    s.len() == 0 || (float_free_all(s.drop_last()) && float_free(s.last()))
}

/// Whether none of the entries' values holds a float
pub open spec fn float_free_pairs(m: Seq<(Val, Val)>) -> bool
    decreases m, 1nat,
{
    m.len() == 0 || (float_free_pairs(m.drop_last()) && float_free(m.last().1))
}

/// How deep arrays and objects nest in the data
pub open spec fn nesting(v: Val) -> nat
    decreases v, 0nat,
{
    match v {
        Val::Array(s) => nesting_all(s) + 1,
        Val::Object(m) => nesting_pairs(m) + 1,
        _ => 0,
    }
}

/// The deepest nesting among the values
pub open spec fn nesting_all(s: Seq<Val>) -> nat
    decreases s, 1nat,
{
    if s.len() == 0 {
        0
    } else {
        let a = nesting_all(s.drop_last());
        let b = nesting(s.last());
        if a >= b { a } else { b }
    }
}

/// The deepest nesting among the entries' values
pub open spec fn nesting_pairs(m: Seq<(Val, Val)>) -> nat
    decreases m, 1nat,
{
    if m.len() == 0 {
        0
    } else {
        let a = nesting_pairs(m.drop_last());
        let b = nesting(m.last().1);
        if a >= b { a } else { b }
    }
}

/// With no actions for any field, data without floats is left as it is
proof fn lemma_unmodified<F: Fn(ArithOp, Num, Num) -> u64, G: Fn(u64) -> Option<i128>>(
    mods: Seq<(String, Vec<Action>)>,
    pfx: Seq<char>,
    v: Val,
    arith: F,
    whole: G,
    fuel: nat,
)
    requires
        forall|p: Seq<char>| #[trigger] lookup(mods, p) == Seq::<Action>::empty(),
        float_free(v),
        nesting(v) < fuel,
    ensures
        modified(mods, pfx, v, arith, whole, fuel) == Some(v),
    decreases v, 0nat,
{
    assert(lookup(mods, pfx) == Seq::<Action>::empty());
    match v {
        Val::Array(s) => {
            assert(!assigns(Seq::<Action>::empty()));
            lemma_unmodified_seq(mods, pfx, s, arith, whole, (fuel - 1) as nat);
        },
        Val::Object(m) => {
            lemma_unmodified_pairs(mods, pfx, m, arith, whole, (fuel - 1) as nat);
        },
        _ => {},
    }
}

/// With no actions for any field, values without floats are left as they are
proof fn lemma_unmodified_seq<F: Fn(ArithOp, Num, Num) -> u64, G: Fn(u64) -> Option<i128>>(
    mods: Seq<(String, Vec<Action>)>,
    pfx: Seq<char>,
    s: Seq<Val>,
    arith: F,
    whole: G,
    fuel: nat,
)
    requires
        forall|p: Seq<char>| #[trigger] lookup(mods, p) == Seq::<Action>::empty(),
        float_free_all(s),
        nesting_all(s) < fuel,
    ensures
        modified_seq(mods, pfx, s, arith, whole, fuel) == Some(s),
    decreases s, 1nat,
{
    if s.len() > 0 {
        lemma_unmodified_seq(mods, pfx, s.drop_last(), arith, whole, fuel);
        lemma_unmodified(mods, pfx, s.last(), arith, whole, fuel);
        assert(s.drop_last().push(s.last()) =~= s);
    }
}

/// With no actions for any field, entries without floats are left as they are
proof fn lemma_unmodified_pairs<F: Fn(ArithOp, Num, Num) -> u64, G: Fn(u64) -> Option<i128>>(
    mods: Seq<(String, Vec<Action>)>,
    pfx: Seq<char>,
    m: Seq<(Val, Val)>,
    arith: F,
    whole: G,
    fuel: nat,
)
    requires
        forall|p: Seq<char>| #[trigger] lookup(mods, p) == Seq::<Action>::empty(),
        float_free_pairs(m),
        nesting_pairs(m) < fuel,
    ensures
        modified_pairs(mods, pfx, m, arith, whole, fuel) == Some(m),
    decreases m, 1nat,
{
    if m.len() > 0 {
        lemma_unmodified_pairs(mods, pfx, m.drop_last(), arith, whole, fuel);
        lemma_unmodified(mods, nested(pfx, m.last().0), m.last().1, arith, whole, fuel);
        assert(m.drop_last().push((m.last().0, m.last().1)) =~= m);
    }
}

/// Law: a modifier with no actions (as a new one is) gives back every
/// document that holds no float, where its nesting fits a machine word's count
pub proof fn law_empty_modifier_identity<F: Fn(ArithOp, Num, Num) -> u64, G: Fn(u64) -> Option<i128>>(
    mods: Seq<(String, Vec<Action>)>,
    v: Val,
    arith: F,
    whole: G,
)
    requires
        forall|p: Seq<char>| #[trigger] lookup(mods, p) == Seq::<Action>::empty(),
        float_free(v),
        nesting(v) < usize::MAX,
    ensures
        applied(mods, v, arith, whole) == Some(v),
{
    lemma_unmodified(mods, Seq::empty(), v, arith, whole, usize::MAX as nat);
}

/// Modification operator: the actions to apply to each field, by field path
#[derive(Debug, Clone)]
pub struct Modify(pub Vec<(String, Vec<Action>)>);

/// Looking a field up past entries of other fields
pub proof fn lemma_lookup_skip(mods: Seq<(String, Vec<Action>)>, pfx: Seq<char>, i: int)
    requires
        0 <= i <= mods.len(),
        forall|j: int| 0 <= j < i ==> (#[trigger] mods[j]).0@ != pfx,
    ensures
        lookup(mods, pfx) == lookup(mods.skip(i), pfx),
    decreases i,
{
    if i > 0 {
        assert(mods[0].0@ != pfx);
        lemma_lookup_skip(mods.drop_first(), pfx, i - 1);
        assert(mods.drop_first().skip(i - 1) =~= mods.skip(i));
    } else {
        assert(mods.skip(0) =~= mods);
    }
}

/// The actions of an entry past entries of other fields
pub proof fn lemma_lookup_at(mods: Seq<(String, Vec<Action>)>, pfx: Seq<char>, i: int)
    requires
        0 <= i < mods.len(),
        forall|j: int| 0 <= j < i ==> (#[trigger] mods[j]).0@ != pfx,
        mods[i].0@ == pfx,
    ensures
        lookup(mods, pfx) == mods[i].1@,
{
    lemma_lookup_skip(mods, pfx, i);
    assert(mods.skip(i)[0] == mods[i]);
}

/// Lookups agree on two modifiers whose entries agree on keys, and on the
/// actions of the looked-up field, where the longer one only adds other fields
pub proof fn lemma_lookup_same(a: Seq<(String, Vec<Action>)>, b: Seq<(String, Vec<Action>)>, p: Seq<char>)
    requires
        a.len() <= b.len(),
        forall|j: int| 0 <= j < a.len() ==> (#[trigger] a[j]).0@ == b[j].0@ && (a[j].0@ == p ==> a[j].1@ == b[j].1@),
        forall|j: int| a.len() <= j < b.len() ==> (#[trigger] b[j]).0@ != p,
    ensures
        lookup(a, p) == lookup(b, p),
    decreases a.len(),
{
    if a.len() == 0 {
        lemma_lookup_skip(b, p, b.len() as int);
        assert(b.skip(b.len() as int) =~= Seq::<(String, Vec<Action>)>::empty());
    } else {
        assert(a[0].0@ == b[0].0@);
        if a[0].0@ != p {
            let a1 = a.drop_first();
            let b1 = b.drop_first();
            assert forall|j: int| 0 <= j < a1.len() implies (#[trigger] a1[j]).0@ == b1[j].0@ && (a1[j].0@ == p ==> a1[j].1@ == b1[j].1@) by {
                assert(a1[j] == a[j + 1] && b1[j] == b[j + 1]);
            }
            assert forall|j: int| a1.len() <= j < b1.len() implies (#[trigger] b1[j]).0@ != p by {
                assert(b1[j] == b[j + 1]);
            }
            lemma_lookup_same(a1, b1, p);
        }
    }
}

/// Whether an optional position is `j`
pub open spec fn is_pos(pos: Option<usize>, j: int) -> bool {
    pos matches Some(i) && i as int == j
}

/// The lookups of a modifier after an action is added to a field
proof fn lemma_lookup_all(
    before: Seq<(String, Vec<Action>)>,
    after: Seq<(String, Vec<Action>)>,
    p: Seq<char>,
    field: Seq<char>,
    pos: Option<usize>,
    act: Action,
)
    requires
        pos matches Some(i) ==> i < before.len() && before[i as int].0@ == field
            && forall|j: int| 0 <= j < i ==> (#[trigger] before[j]).0@ != field,
        pos is None ==> forall|j: int| 0 <= j < before.len() ==> (#[trigger] before[j]).0@ != field,
        after.len() == before.len() + (if pos is None { 1int } else { 0int }),
        forall|j: int| 0 <= j < before.len() ==> (#[trigger] after[j]).0 == before[j].0,
        forall|j: int| 0 <= j < before.len() && !is_pos(pos, j) ==> (#[trigger] after[j]).1@ == before[j].1@,
        pos matches Some(i) ==> after[i as int].1@ == before[i as int].1@.push(act),
        pos is None ==> after[before.len() as int].0@ == field && after[before.len() as int].1@ == seq![act],
    ensures
        lookup(after, p) == if p == field { lookup(before, p).push(act) } else { lookup(before, p) },
{
    if p == field {
        match pos {
            Some(i) => {
                lemma_lookup_at(before, field, i as int);
                assert forall|j: int| 0 <= j < i implies (#[trigger] after[j]).0@ != field by {
                    assert(after[j].0 == before[j].0);
                }
                lemma_lookup_at(after, field, i as int);
            },
            None => {
                lemma_lookup_skip(before, field, before.len() as int);
                assert(before.skip(before.len() as int) =~= Seq::<(String, Vec<Action>)>::empty());
                assert forall|j: int| 0 <= j < before.len() implies (#[trigger] after[j]).0@ != field by {
                    assert(after[j].0 == before[j].0);
                }
                lemma_lookup_at(after, field, before.len() as int);
                assert(seq![act] =~= Seq::<Action>::empty().push(act));
            },
        }
    } else {
        assert forall|j: int| 0 <= j < before.len() implies (#[trigger] before[j]).0@ == after[j].0@ && (before[j].0@ == p ==> before[j].1@ == after[j].1@) by {
            if before[j].0@ == p {
                if let Some(i) = pos {
                    if j == i as int {
                        assert(before[j].0@ == field);
                    }
                }
            }
        }
        lemma_lookup_same(before, after, p);
    }
}

impl Default for Modify {
    fn default() -> (m: Self)
        ensures
            m.0@ == Seq::<(String, Vec<Action>)>::empty(),
    {
        Modify(Vec::new())
    }
}

impl Modify {
    /// The actions that the modifier holds for the field `field`
    pub open spec fn actions_for(&self, field: Seq<char>) -> Seq<Action> {
        lookup(self.0@, field)
    }

    /// Create empty modifier
    pub fn new() -> (m: Self)
        ensures
            forall|p: Seq<char>| #[trigger] m.actions_for(p) == Seq::<Action>::empty(),
    {
        Modify(Vec::new())
    }

    /// The position of the entry of a field
    fn position(&self, field: &str) -> (r: Option<usize>)
        ensures
            r matches Some(i) ==> i < self.0@.len() && self.0@[i as int].0@ == field@
                && self.actions_for(field@) == self.0@[i as int].1@
                && forall|j: int| 0 <= j < i ==> (#[trigger] self.0@[j]).0@ != field@,
            r is None ==> self.actions_for(field@) == Seq::<Action>::empty()
                && forall|j: int| 0 <= j < self.0@.len() ==> (#[trigger] self.0@[j]).0@ != field@,
    {
        let mut i: usize = 0;
        while i < self.0.len()
            invariant
                i <= self.0@.len(),
                forall|j: int| 0 <= j < i ==> (#[trigger] self.0@[j]).0@ != field@,
            decreases self.0@.len() - i,
        {
            if crate::types::str_eq(self.0[i].0.as_str(), field) {
                proof {
                    lemma_lookup_at(self.0@, field@, i as int);
                }
                return Some(i);
            }
            i = i + 1;
        }
        proof {
            lemma_lookup_skip(self.0@, field@, i as int);
        }
        None
    }

    /// Append modification to modifier
    pub fn add(&mut self, field: &str, action: Action)
        ensures
            final(self).actions_for(field@) == old(self).actions_for(field@).push(action),
            forall|p: Seq<char>| p != field@ ==> #[trigger] final(self).actions_for(p) == old(self).actions_for(p),
    {
        let pos = self.position(field);
        let ghost before = self.0@;
        let mut entries: Vec<(String, Vec<Action>)> = Vec::new();
        core::mem::swap(&mut entries, &mut self.0);
        let mut out: Vec<(String, Vec<Action>)> = Vec::new();
        let mut action = Some(action);
        let ghost act = action->0;
        let mut k: usize = 0;
        let count = entries.len();
        for entry in it: entries.into_iter()
            invariant
                count == before.len(),
                it.seq() == before,
                k == it.index(),
                k <= before.len(),
                out@.len() == k,
                pos matches Some(i) ==> (k <= i ==> action == Some(act)) && (k > i ==> action is None),
                pos is None ==> action == Some(act),
                forall|j: int| 0 <= j < k ==> (#[trigger] out@[j]).0 == before[j].0,
                forall|j: int| 0 <= j < k && !is_pos(pos, j) ==> (#[trigger] out@[j]).1@ == before[j].1@,
                pos matches Some(i) ==> (i < k ==> out@[i as int].1@ == before[i as int].1@.push(act)),
        {
            let (key, mut acts) = entry;
            if pos == Some(k) {
                if let Some(a) = action.take() {
                    acts.push(a);
                }
            }
            out.push((key, acts));
            k = k + 1;
        }
        if let Some(a) = action.take() {
            let mut acts: Vec<Action> = Vec::new();
            acts.push(a);
            out.push((crate::text::to_text(field), acts));
        }
        self.0 = out;
        proof {
            let after = self.0@;
            assert forall|p: Seq<char>| #[trigger] lookup(after, p) == if p == field@ {
                lookup(before, p).push(act)
            } else {
                lookup(before, p)
            } by {
                lemma_lookup_all(before, after, p, field@, pos, act);
            }
        }
    }

    /// Create single modifier
    pub fn one(field: &str, action: Action) -> (m: Self)
        ensures
            m.actions_for(field@) == seq![action],
            forall|p: Seq<char>| p != field@ ==> #[trigger] m.actions_for(p) == Seq::<Action>::empty(),
    {
        let mut m = Modify(Vec::new());
        m.add(field, action);
        m
    }

    /// Add modification to modifier
    pub fn with(self, field: &str, action: Action) -> (m: Self)
        ensures
            m.actions_for(field@) == self.actions_for(field@).push(action),
            forall|p: Seq<char>| p != field@ ==> #[trigger] m.actions_for(p) == self.actions_for(p),
    {
        let mut m = self;
        m.add(field, action);
        m
    }
}

/// The integer arithmetic of a modifier
fn int_op(op: ArithOp, p: i128, a: i128) -> (r: i128)
    requires
        int_arith(op, p as int, a as int) is Some,
    ensures
        r as int == int_arith(op, p as int, a as int).unwrap(),
{
    match op {
        ArithOp::Add => p + a,
        ArithOp::Sub => p - a,
        ArithOp::Mul => {
            assert(p * a == p as int * a as int);
            p * a
        },
        ArithOp::Div => {
            let mp: u128 = if p >= 0 { p as u128 } else if p == i128::MIN { 170141183460469231731687303715884105728u128 } else { (-p) as u128 };
            let ma: u128 = if a >= 0 { a as u128 } else if a == i128::MIN { 170141183460469231731687303715884105728u128 } else { (-a) as u128 };
            let q = mp / ma;
            assert(q as int == (if p >= 0 { p as int } else { -p }) / (if a >= 0 { a as int } else { -a }));
            if (p >= 0) == (a >= 0) {
                q as i128
            } else if q == 170141183460469231731687303715884105728u128 {
                i128::MIN
            } else {
                -(q as i128)
            }
        },
    }
}

/// Call the float arithmetic of a modifier
fn call_arith<F: Fn(ArithOp, Num, Num) -> u64, G: Fn(u64) -> Option<i128>>(arith: &F, whole: &G, op: ArithOp, a: Num, b: Num) -> (r: u64)
    requires
        float_ops_ready(*arith, *whole),
    ensures
        r == float_arith(*arith, op, a, b),
{
    let r = arith(op, a, b);
    assert(call_ensures(*arith, (op, a, b), r));
    r
}

/// Call the whole-number test of a modifier
fn call_whole<F: Fn(ArithOp, Num, Num) -> u64, G: Fn(u64) -> Option<i128>>(arith: &F, whole: &G, x: u64) -> (r: Option<i128>)
    requires
        float_ops_ready(*arith, *whole),
    ensures
        r == float_whole(*whole, x),
{
    let r = whole(x);
    assert(call_ensures(*whole, (x,), r));
    r
}

/// Apply one action to a primitive value
fn prim_apply_one<F: Fn(ArithOp, Num, Num) -> u64, G: Fn(u64) -> Option<i128>>(v: Value, act: &Action, arith: &F, whole: &G) -> (r: Value)
    requires
        float_ops_ready(*arith, *whole),
        prim_step(val_of(v), *act, *arith) is Some,
    ensures
        match prim_step(val_of(v), *act, *arith) {
            Some(Some(n)) => val_of(r) == n,
            _ => val_of(r) == val_of(v),
        },
{
    let ghost v0 = v;
    let op_x: Option<(ArithOp, &Value)> = match act {
        Action::Add(x) => Some((ArithOp::Add, x)),
        Action::Sub(x) => Some((ArithOp::Sub, x)),
        Action::Mul(x) => Some((ArithOp::Mul, x)),
        Action::Div(x) => Some((ArithOp::Div, x)),
        _ => None,
    };
    match op_x {
        Some((op, x)) => match (v, x) {
            (Value::Integer(p), Value::Integer(a)) => Value::Integer(int_op(op, p, *a)),
            (Value::Integer(p), Value::Float(a)) => Value::Float(call_arith(arith, whole, op, Num::Int(p), Num::Float(*a))),
            (Value::Float(p), Value::Integer(a)) => Value::Float(call_arith(arith, whole, op, Num::Float(p), Num::Int(*a))),
            (Value::Float(p), Value::Float(a)) => Value::Float(call_arith(arith, whole, op, Num::Float(p), Num::Float(*a))),
            (Value::Text(p), Value::Text(a)) => {
                if op == ArithOp::Add {
                    let mut t = p;
                    push_str(&mut t, a.as_str());
                    Value::Text(t)
                } else {
                    Value::Text(p)
                }
            },
            (Value::Bytes(p), Value::Bytes(a)) => {
                if op == ArithOp::Add {
                    let mut b = p;
                    let mut extra = a.clone();
                    b.append(&mut extra);
                    Value::Bytes(b)
                } else {
                    Value::Bytes(p)
                }
            },
            (w, _) => w,
        },
        None => match (v, act) {
            (Value::Bool(b), Action::Toggle) => Value::Bool(!b),
            (Value::Text(p), Action::Replace(re, subst)) => Value::Text(regex_replace(re, p.as_str(), subst.as_str())),
            (w, _) => w,
        },
    }
}

/// A prefix of actions that do not panic does not panic
proof fn lemma_prim_fold_prefix<F: Fn(ArithOp, Num, Num) -> u64>(v: Val, acts: Seq<Action>, arith: F, i: int)
    requires
        0 <= i <= acts.len(),
        prim_fold(v, acts, arith) is Some,
    ensures
        prim_fold(v, acts.take(i), arith) is Some,
    decreases acts.len() - i,
{
    if i < acts.len() {
        lemma_prim_fold_prefix(v, acts, arith, i + 1);
        assert(acts.take(i + 1).drop_last() =~= acts.take(i));
    } else {
        assert(acts.take(i) =~= acts);
    }
}

/// A float that stands for a whole number becomes that integer
fn normalize<F: Fn(ArithOp, Num, Num) -> u64, G: Fn(u64) -> Option<i128>>(v: Value, arith: &F, whole: &G) -> (r: Value)
    requires
        float_ops_ready(*arith, *whole),
    ensures
        val_of(r) == normalized(val_of(v), *whole),
{
    match v {
        Value::Float(x) => match call_whole(arith, whole, x) {
            Some(i) => Value::Integer(i),
            None => Value::Float(x),
        },
        w => w,
    }
}

/// Apply the assigning and deleting actions, in order
fn reset(v: Value, acts: &Vec<Action>) -> (r: Value)
    ensures
        val_of(r) == reset_fold(val_of(v), acts@),
{
    let ghost v0 = val_of(v);
    let mut w = v;
    let mut i: usize = 0;
    assert(acts@.take(0) =~= Seq::<Action>::empty());
    while i < acts.len()
        invariant
            i <= acts@.len(),
            reset_fold(v0, acts@.take(i as int)) == val_of(w),
        decreases acts@.len() - i,
    {
        proof {
            assert(acts@.take(i + 1).drop_last() =~= acts@.take(i as int));
            assert(acts@.take(i + 1).last() == acts@[i as int]);
        }
        match &acts[i] {
            Action::Assign(x) => {
                w = x.duplicate();
            },
            Action::Delete => {
                w = Value::Null;
            },
            _ => {},
        }
        i = i + 1;
    }
    assert(acts@.take(acts@.len() as int) =~= acts@);
    w
}

/// The first position of `e` in `s`, found past positions that hold other values
proof fn lemma_first_index(s: Seq<Val>, e: Val, i: int)
    requires
        0 <= i <= s.len(),
        forall|j: int| 0 <= j < i ==> !val_same(#[trigger] s[j], e),
    ensures
        i < s.len() && val_same(s[i], e) ==> first_index(s, e) == Some(i),
        i == s.len() ==> first_index(s, e) is None,
    decreases i,
{
    if i > 0 {
        lemma_first_index(s.drop_first(), e, i - 1);
    }
}

/// The first position of a value in an array
fn vals_position(vec: &Vec<Value>, e: &Value) -> (r: Option<usize>)
    ensures
        r matches Some(i) ==> i < vec@.len() && first_index(vals_of(vec@), val_of(*e)) == Some(i as int),
        r is None ==> first_index(vals_of(vec@), val_of(*e)) is None,
{
    proof {
        lemma_vals_of(vec@);
    }
    let mut i: usize = 0;
    while i < vec.len()
        invariant
            i <= vec@.len(),
            vals_of(vec@).len() == vec@.len(),
            forall|j: int| 0 <= j < vec@.len() ==> #[trigger] vals_of(vec@)[j] == val_of(vec@[j]),
            forall|j: int| 0 <= j < i ==> !val_same(#[trigger] vals_of(vec@)[j], val_of(*e)),
        decreases vec@.len() - i,
    {
        if vec[i].same(e) {
            proof {
                lemma_first_index(vals_of(vec@), val_of(*e), i as int);
            }
            return Some(i);
        }
        i = i + 1;
    }
    proof {
        lemma_first_index(vals_of(vec@), val_of(*e), i as int);
    }
    None
}

/// Add the values not yet present, in order
fn add_values(vec: Vec<Value>, elms: &Vec<Value>) -> (r: Vec<Value>)
    ensures
        vals_of(r@) == add_all(vals_of(vec@), vals_of(elms@)),
{
    proof {
        lemma_vals_of(elms@);
    }
    let ghost s0 = vals_of(vec@);
    let ghost es = vals_of(elms@);
    let mut w = vec;
    let mut j: usize = 0;
    assert(es.take(0) =~= Seq::<Val>::empty());
    while j < elms.len()
        invariant
            j <= elms@.len(),
            es == vals_of(elms@),
            es.len() == elms@.len(),
            forall|i: int| 0 <= i < elms@.len() ==> #[trigger] es[i] == val_of(elms@[i]),
            vals_of(w@) == add_all(s0, es.take(j as int)),
        decreases elms@.len() - j,
    {
        proof {
            assert(es.take(j + 1).drop_last() =~= es.take(j as int));
            assert(es.take(j + 1).last() == es[j as int]);
        }
        match vals_position(&w, &elms[j]) {
            Some(_) => {},
            None => {
                let ghost before = w@;
                w.push(elms[j].duplicate());
                proof {
                    assert(w@.drop_last() =~= before);
                }
            },
        }
        j = j + 1;
    }
    assert(es.take(elms@.len() as int) =~= es);
    w
}

/// Remove the first occurrence of each value, in order
fn sub_values(vec: Vec<Value>, elms: &Vec<Value>) -> (r: Vec<Value>)
    ensures
        vals_of(r@) == sub_all(vals_of(vec@), vals_of(elms@)),
{
    proof {
        lemma_vals_of(elms@);
    }
    let ghost s0 = vals_of(vec@);
    let ghost es = vals_of(elms@);
    let mut w = vec;
    let mut j: usize = 0;
    assert(es.take(0) =~= Seq::<Val>::empty());
    while j < elms.len()
        invariant
            j <= elms@.len(),
            es == vals_of(elms@),
            es.len() == elms@.len(),
            forall|i: int| 0 <= i < elms@.len() ==> #[trigger] es[i] == val_of(elms@[i]),
            vals_of(w@) == sub_all(s0, es.take(j as int)),
        decreases elms@.len() - j,
    {
        proof {
            assert(es.take(j + 1).drop_last() =~= es.take(j as int));
            assert(es.take(j + 1).last() == es[j as int]);
        }
        match vals_position(&w, &elms[j]) {
            Some(i) => {
                let ghost before = w@;
                w.remove(i);
                proof {
                    lemma_vals_of(before);
                    lemma_vals_eq(w@, vals_of(before).remove(i as int));
                }
            },
            None => {},
        }
        j = j + 1;
    }
    assert(es.take(elms@.len() as int) =~= es);
    w
}

/// The position that a splice bound names
fn splice_position(p: i32, len: usize) -> (r: usize)
    requires
        splice_pos(p, len as nat) is Some,
    ensures
        r as int == splice_pos(p, len as nat).unwrap(),
{
    if p >= 0 {
        if (p as usize) < len { p as usize } else { len }
    } else {
        let d: i64 = -1 - (p as i64);
        len - (d as usize)
    }
}

/// Push copies of the values of `ins` onto `out`
fn push_copies(out: &mut Vec<Value>, ins: &Vec<Value>)
    ensures
        vals_of(final(out)@) == vals_of(old(out)@) + vals_of(ins@),
{
    proof {
        lemma_vals_of(ins@);
        lemma_vals_of(old(out)@);
    }
    let ghost start = out@;
    let mut t: usize = 0;
    while t < ins.len()
        invariant
            t <= ins@.len(),
            out@.len() == start.len() + t,
            forall|i: int| 0 <= i < start.len() ==> #[trigger] out@[i] == start[i],
            forall|i: int| 0 <= i < t ==> val_of(#[trigger] out@[start.len() + i]) == val_of(ins@[i]),
        decreases ins@.len() - t,
    {
        out.push(ins[t].duplicate());
        t = t + 1;
    }
    proof {
        lemma_vals_of(start);
        assert forall|i: int| 0 <= i < out@.len() implies val_of(#[trigger] out@[i]) == (vals_of(start) + vals_of(ins@))[i] by {
            if i >= start.len() {
                assert(out@[start.len() + (i - start.len())] == out@[i]);
            }
        }
        lemma_vals_eq(out@, vals_of(start) + vals_of(ins@));
    }
}

/// The elements of a spliced array that come before position `k`
pub open spec fn spliced_prefix(s: Seq<Val>, b: int, e: int, ins: Seq<Val>, k: int) -> Seq<Val> {
    if k <= b {
        s.take(k)
    } else {
        s.take(b) + ins + s.subrange(if e < k { e } else { k }, k)
    }
}

/// Replace the elements between two splice bounds by copies of `ins`
fn splice_values(vec: Vec<Value>, off: i32, del: i32, ins: &Vec<Value>) -> (r: Vec<Value>)
    requires
        spliced(vals_of(vec@), off, del, vals_of(ins@)) is Some,
    ensures
        vals_of(r@) == spliced(vals_of(vec@), off, del, vals_of(ins@)).unwrap(),
{
    proof {
        lemma_vals_of(vec@);
    }
    let len = vec.len();
    let b = splice_position(off, len);
    let e = splice_position(del, len);
    let ghost s = vals_of(vec@);
    let ghost is = vals_of(ins@);
    let mut out: Vec<Value> = Vec::new();
    let mut k: usize = 0;
    for x in it: vec.into_iter()
        invariant
            it.seq() == vec@,
            k == it.index(),
            k <= len,
            len == vec@.len(),
            b <= e <= len,
            s == vals_of(vec@),
            s.len() == vec@.len(),
            forall|i: int| 0 <= i < vec@.len() ==> #[trigger] s[i] == val_of(vec@[i]),
            is == vals_of(ins@),
            vals_of(out@) == spliced_prefix(s, b as int, e as int, is, k as int),
    {
        if k == b {
            push_copies(&mut out, ins);
            proof {
                assert(s.take(k as int) + is =~= s.take(b as int) + is + s.subrange(k as int, k as int));
            }
        }
        if k < b || k >= e {
            let ghost before = out@;
            out.push(x);
            proof {
                assert(out@.drop_last() =~= before);
                assert(s[k as int] == val_of(x));
                if k < b {
                    assert(s.take(k + 1) =~= s.take(k as int).push(s[k as int]));
                } else {
                    assert(s.subrange(e as int, k + 1) =~= s.subrange(e as int, k as int).push(s[k as int]));
                    assert((s.take(b as int) + is + s.subrange(e as int, k as int)).push(s[k as int]) =~= s.take(b as int) + is + s.subrange(e as int, k + 1));
                }
            }
        } else {
            proof {
                assert(s.subrange(k + 1, k + 1) =~= s.subrange(k as int, k as int));
            }
        }
        k = k + 1;
    }
    if b == len {
        push_copies(&mut out, ins);
        proof {
            assert(s.take(len as int) + is =~= s.take(b as int) + is + s.skip(e as int));
        }
    } else {
        proof {
            assert(s.subrange(e as int, len as int) =~= s.skip(e as int));
        }
    }
    out
}

/// A prefix of array actions that do not panic does not panic
proof fn lemma_arr_fold_prefix(s: Seq<Val>, acts: Seq<Action>, i: int)
    requires
        0 <= i <= acts.len(),
        arr_fold(s, acts) is Some,
    ensures
        arr_fold(s, acts.take(i)) is Some,
    decreases acts.len() - i,
{
    if i < acts.len() {
        lemma_arr_fold_prefix(s, acts, i + 1);
        assert(acts.take(i + 1).drop_last() =~= acts.take(i));
    } else {
        assert(acts.take(i) =~= acts);
    }
}

/// Insert the entries of `obj`, in order, replacing the value of a key already present
fn merge_pairs(m: Vec<(Value, Value)>, obj: &Vec<(Value, Value)>) -> (r: Vec<(Value, Value)>)
    ensures
        pairs_of(r@) == merged(pairs_of(m@), pairs_of(obj@)),
{
    proof {
        lemma_pairs_of(obj@);
    }
    let ghost m0 = pairs_of(m@);
    let ghost os = pairs_of(obj@);
    let mut w = m;
    let mut j: usize = 0;
    assert(os.take(0) =~= Seq::<(Val, Val)>::empty());
    while j < obj.len()
        invariant
            j <= obj@.len(),
            os == pairs_of(obj@),
            os.len() == obj@.len(),
            forall|i: int| 0 <= i < obj@.len() ==> #[trigger] os[i] == (val_of(obj@[i].0), val_of(obj@[i].1)),
            pairs_of(w@) == merged(m0, os.take(j as int)),
        decreases obj@.len() - j,
    {
        proof {
            assert(os.take(j + 1).drop_last() =~= os.take(j as int));
            assert(os.take(j + 1).last() == os[j as int]);
        }
        let ghost before = w@;
        match key_position(&w, &obj[j].0) {
            Some(i) => {
                let k = w[i].0.duplicate();
                let v = obj[j].1.duplicate();
                w.set(i, (k, v));
                proof {
                    lemma_pairs_of(before);
                    lemma_pairs_eq(w@, pairs_of(before).update(i as int, (pairs_of(before)[i as int].0, os[j as int].1)));
                }
            },
            None => {
                let k = obj[j].0.duplicate();
                let v = obj[j].1.duplicate();
                w.push((k, v));
                proof {
                    lemma_pairs_of(before);
                    lemma_pairs_eq(w@, pairs_of(before).push(os[j as int]));
                }
            },
        }
        j = j + 1;
    }
    assert(os.take(obj@.len() as int) =~= os);
    w
}

/// Apply the merging actions, in order, to an object
fn obj_apply(m: Vec<(Value, Value)>, acts: &Vec<Action>) -> (r: Vec<(Value, Value)>)
    ensures
        pairs_of(r@) == obj_fold(pairs_of(m@), acts@),
{
    let ghost m0 = pairs_of(m@);
    let mut w = m;
    let mut i: usize = 0;
    assert(acts@.take(0) =~= Seq::<Action>::empty());
    while i < acts.len()
        invariant
            i <= acts@.len(),
            obj_fold(m0, acts@.take(i as int)) == pairs_of(w@),
        decreases acts@.len() - i,
    {
        proof {
            assert(acts@.take(i + 1).drop_last() =~= acts@.take(i as int));
            assert(acts@.take(i + 1).last() == acts@[i as int]);
        }
        match &acts[i] {
            Action::Merge(Value::Object(obj)) => {
                w = merge_pairs(w, obj);
            },
            _ => {},
        }
        i = i + 1;
    }
    assert(acts@.take(acts@.len() as int) =~= acts@);
    w
}

/// The path of the entry with key `key` in the object at path `pfx`
fn nested_field(pfx: &String, key: &Value) -> (r: String)
    ensures
        r@ == nested(pfx@, val_of(*key)),
{
    match key {
        Value::Text(t) => {
            let mut r = pfx.clone();
            if !pfx.as_str().is_empty() {
                push_char(&mut r, '.');
            }
            push_str(&mut r, t.as_str());
            proof {
                if pfx@.len() == 0 {
                    assert(pfx@ + Seq::<char>::empty() + t@ =~= pfx@ + t@);
                } else {
                    assert(pfx@ + seq!['.'] + t@ =~= pfx@.push('.') + t@);
                }
            }
            r
        },
        Value::Integer(i) => {
            let mut r = pfx.clone();
            push_char(&mut r, '[');
            let digits = integer_text(*i);
            push_str(&mut r, digits.as_str());
            push_char(&mut r, ']');
            assert(r@ =~= pfx@ + seq!['['] + decimal_text(*i as int) + seq![']']);
            r
        },
        _ => pfx.clone(),
    }
}

/// `modified_seq` is defined just where each element is, and holds each element modified
proof fn lemma_modified_seq<F: Fn(ArithOp, Num, Num) -> u64, G: Fn(u64) -> Option<i128>>(
    mods: Seq<(String, Vec<Action>)>,
    pfx: Seq<char>,
    s: Seq<Val>,
    arith: F,
    whole: G,
    fuel: nat,
)
    ensures
        modified_seq(mods, pfx, s, arith, whole, fuel) is Some <==> forall|i: int| 0 <= i < s.len() ==> #[trigger] modified(mods, pfx, s[i], arith, whole, fuel) is Some,
        modified_seq(mods, pfx, s, arith, whole, fuel) matches Some(r) ==> r.len() == s.len() && forall|i: int|
            0 <= i < s.len() ==> #[trigger] r[i] == modified(mods, pfx, s[i], arith, whole, fuel).unwrap(),
    decreases s.len(),
{
    if s.len() > 0 {
        let d = s.drop_last();
        let last = s.len() - 1;
        lemma_modified_seq(mods, pfx, d, arith, whole, fuel);
        assert(s.last() == s[last]);
        assert forall|i: int| 0 <= i < d.len() implies #[trigger] d[i] == s[i] by {}
        if forall|i: int| 0 <= i < s.len() ==> #[trigger] modified(mods, pfx, s[i], arith, whole, fuel) is Some {
            assert forall|i: int| 0 <= i < d.len() implies #[trigger] modified(mods, pfx, d[i], arith, whole, fuel) is Some by {
                assert(modified(mods, pfx, s[i], arith, whole, fuel) is Some);
            }
            assert(modified(mods, pfx, s[last], arith, whole, fuel) is Some);
        }
        if modified_seq(mods, pfx, s, arith, whole, fuel) is Some {
            assert forall|i: int| 0 <= i < s.len() implies #[trigger] modified(mods, pfx, s[i], arith, whole, fuel) is Some by {
                if i < last {
                    assert(modified(mods, pfx, d[i], arith, whole, fuel) is Some);
                }
            }
            let r = modified_seq(mods, pfx, s, arith, whole, fuel).unwrap();
            let rd = modified_seq(mods, pfx, d, arith, whole, fuel).unwrap();
            assert(r == rd.push(modified(mods, pfx, s.last(), arith, whole, fuel).unwrap()));
            assert forall|i: int| 0 <= i < s.len() implies #[trigger] r[i] == modified(mods, pfx, s[i], arith, whole, fuel).unwrap() by {
                if i < last {
                    assert(rd[i] == modified(mods, pfx, d[i], arith, whole, fuel).unwrap());
                }
            }
        }
    }
}

/// `modified_pairs` is defined just where each entry is, and holds each entry's value modified
proof fn lemma_modified_pairs<F: Fn(ArithOp, Num, Num) -> u64, G: Fn(u64) -> Option<i128>>(
    mods: Seq<(String, Vec<Action>)>,
    pfx: Seq<char>,
    m: Seq<(Val, Val)>,
    arith: F,
    whole: G,
    fuel: nat,
)
    ensures
        modified_pairs(mods, pfx, m, arith, whole, fuel) is Some <==> forall|i: int| 0 <= i < m.len() ==> #[trigger] modified(mods, nested(pfx, m[i].0), m[i].1, arith, whole, fuel) is Some,
        modified_pairs(mods, pfx, m, arith, whole, fuel) matches Some(r) ==> r.len() == m.len() && forall|i: int|
            0 <= i < m.len() ==> #[trigger] r[i] == (m[i].0, modified(mods, nested(pfx, m[i].0), m[i].1, arith, whole, fuel).unwrap()),
    decreases m.len(),
{
    if m.len() > 0 {
        let d = m.drop_last();
        let last = m.len() - 1;
        lemma_modified_pairs(mods, pfx, d, arith, whole, fuel);
        assert(m.last() == m[last]);
        assert forall|i: int| 0 <= i < d.len() implies #[trigger] d[i] == m[i] by {}
        if forall|i: int| 0 <= i < m.len() ==> #[trigger] modified(mods, nested(pfx, m[i].0), m[i].1, arith, whole, fuel) is Some {
            assert forall|i: int| 0 <= i < d.len() implies #[trigger] modified(mods, nested(pfx, d[i].0), d[i].1, arith, whole, fuel) is Some by {
                assert(modified(mods, nested(pfx, m[i].0), m[i].1, arith, whole, fuel) is Some);
            }
            assert(modified(mods, nested(pfx, m[last].0), m[last].1, arith, whole, fuel) is Some);
        }
        if modified_pairs(mods, pfx, m, arith, whole, fuel) is Some {
            assert forall|i: int| 0 <= i < m.len() implies #[trigger] modified(mods, nested(pfx, m[i].0), m[i].1, arith, whole, fuel) is Some by {
                if i < last {
                    assert(modified(mods, nested(pfx, d[i].0), d[i].1, arith, whole, fuel) is Some);
                }
            }
            let r = modified_pairs(mods, pfx, m, arith, whole, fuel).unwrap();
            let rd = modified_pairs(mods, pfx, d, arith, whole, fuel).unwrap();
            assert(r == rd.push((m.last().0, modified(mods, nested(pfx, m.last().0), m.last().1, arith, whole, fuel).unwrap())));
            assert forall|i: int| 0 <= i < m.len() implies #[trigger] r[i] == (m[i].0, modified(mods, nested(pfx, m[i].0), m[i].1, arith, whole, fuel).unwrap()) by {
                if i < last {
                    assert(rd[i] == (d[i].0, modified(mods, nested(pfx, d[i].0), d[i].1, arith, whole, fuel).unwrap()));
                }
            }
        }
    }
}

/// The integer arithmetic of a modifier, where it does not overflow or divide by zero
#[verifier::spinoff_prover]
fn int_op_checked(op: ArithOp, p: i128, a: i128) -> (r: Option<i128>)
    ensures
        r is Some <==> int_arith(op, p as int, a as int) is Some,
        r matches Some(x) ==> x as int == int_arith(op, p as int, a as int).unwrap(),
{
    match op {
        ArithOp::Add => {
            let r = p.checked_add(a);
            assert(int_arith(op, p as int, a as int) == (if p + a < i128::MIN || p + a > i128::MAX { None } else { Some(p + a) }));
            r
        },
        ArithOp::Sub => {
            let r = p.checked_sub(a);
            assert(int_arith(op, p as int, a as int) == (if p - a < i128::MIN || p - a > i128::MAX { None } else { Some(p - a) }));
            r
        },
        ArithOp::Mul => {
            let r = p.checked_mul(a);
            assert(int_arith(op, p as int, a as int) == (if p * a < i128::MIN || p * a > i128::MAX { None } else { Some(p * a) }));
            r
        },
        ArithOp::Div => {
            if a == 0 || (p == i128::MIN && a == -1) {
                None
            } else {
                proof {
                    let x: int = if p >= 0 { p as int } else { -p };
                    let y: int = if a >= 0 { a as int } else { -a };
                    assert(x / y <= x) by (nonlinear_arith)
                        requires
                            x >= 0,
                            y >= 1,
                    ;
                    if p == i128::MIN && y >= 2 {
                        assert(x / y <= x / 2) by (nonlinear_arith)
                            requires
                                x >= 0,
                                y >= 2,
                        ;
                    }
                    assert(x / y >= 0) by (nonlinear_arith)
                        requires
                            x >= 0,
                            y >= 1,
                    ;
                }
                Some(int_op(op, p, a))
            }
        },
    }
}

/// Whether one action on a primitive value goes through (does not panic)
fn prim_step_ok<F: Fn(ArithOp, Num, Num) -> u64>(v: &Value, act: &Action, arith: &F) -> (r: bool)
    ensures
        r == prim_step(val_of(*v), *act, *arith) is Some,
{
    let op_x: Option<(ArithOp, &Value)> = match act {
        Action::Add(x) => Some((ArithOp::Add, x)),
        Action::Sub(x) => Some((ArithOp::Sub, x)),
        Action::Mul(x) => Some((ArithOp::Mul, x)),
        Action::Div(x) => Some((ArithOp::Div, x)),
        _ => None,
    };
    match (v, op_x) {
        (Value::Integer(p), Some((op, Value::Integer(a)))) => int_op_checked(op, *p, *a).is_some(),
        _ => true,
    }
}

/// Apply the actions, in order, to a primitive value; `None` where one panics
fn prim_try<F: Fn(ArithOp, Num, Num) -> u64, G: Fn(u64) -> Option<i128>>(v: Value, acts: &Vec<Action>, arith: &F, whole: &G) -> (r: Option<Value>)
    requires
        float_ops_ready(*arith, *whole),
    ensures
        r is Some <==> prim_fold(val_of(v), acts@, *arith) is Some,
        r matches Some(x) ==> val_of(x) == prim_fold(val_of(v), acts@, *arith).unwrap(),
{
    let ghost v0 = val_of(v);
    let mut w = v;
    let mut i: usize = 0;
    assert(acts@.take(0) =~= Seq::<Action>::empty());
    while i < acts.len()
        invariant
            i <= acts@.len(),
            float_ops_ready(*arith, *whole),
            v0 == val_of(v),
            prim_fold(v0, acts@.take(i as int), *arith) == Some(val_of(w)),
        decreases acts@.len() - i,
    {
        proof {
            assert(acts@.take(i + 1).drop_last() =~= acts@.take(i as int));
            assert(acts@.take(i + 1).last() == acts@[i as int]);
        }
        if !prim_step_ok(&w, &acts[i], arith) {
            proof {
                assert(prim_fold(v0, acts@.take(i + 1), *arith) is None);
                if prim_fold(v0, acts@, *arith) is Some {
                    lemma_prim_fold_prefix(v0, acts@, *arith, i + 1);
                }
            }
            return None;
        }
        w = prim_apply_one(w, &acts[i], arith, whole);
        i = i + 1;
    }
    assert(acts@.take(acts@.len() as int) =~= acts@);
    Some(w)
}

/// The position that a splice bound names in an array of `len` elements, if any
fn splice_bound(p: i32, len: usize) -> (r: Option<u128>)
    ensures
        r == (match splice_pos(p, len as nat) {
            Some(x) => Some(x as u128),
            None => None::<u128>,
        }),
{
    let lu = len as u128;
    if p >= 0 {
        let pu = p as u128;
        Some(if pu < lu { pu } else { lu })
    } else {
        let back = (-1i64 - p as i64) as u128;
        if back > lu {
            None
        } else {
            Some(lu - back)
        }
    }
}

/// Whether a splice between the bounds fits an array of `len` elements
fn splice_fits(off: i32, del: i32, len: usize) -> (r: bool)
    ensures
        r == (splice_pos(off, len as nat) is Some && splice_pos(del, len as nat) is Some
            && splice_pos(off, len as nat).unwrap() <= splice_pos(del, len as nat).unwrap()),
{
    match (splice_bound(off, len), splice_bound(del, len)) {
        (Some(b), Some(e)) => b <= e,
        _ => false,
    }
}

/// Apply the actions, in order, to an array; `None` where one panics
fn arr_try(vec: Vec<Value>, acts: &Vec<Action>) -> (r: Option<Vec<Value>>)
    ensures
        r is Some <==> arr_fold(vals_of(vec@), acts@) is Some,
        r matches Some(x) ==> vals_of(x@) == arr_fold(vals_of(vec@), acts@).unwrap(),
{
    let ghost s0 = vals_of(vec@);
    let mut w = vec;
    let mut i: usize = 0;
    assert(acts@.take(0) =~= Seq::<Action>::empty());
    while i < acts.len()
        invariant
            i <= acts@.len(),
            s0 == vals_of(vec@),
            arr_fold(s0, acts@.take(i as int)) == Some(vals_of(w@)),
        decreases acts@.len() - i,
    {
        proof {
            assert(acts@.take(i + 1).drop_last() =~= acts@.take(i as int));
            assert(acts@.take(i + 1).last() == acts@[i as int]);
            lemma_vals_of(w@);
        }
        match &acts[i] {
            Action::Add(Value::Array(elms)) => {
                w = add_values(w, elms);
            },
            Action::Sub(Value::Array(elms)) => {
                w = sub_values(w, elms);
            },
            Action::Splice(off, del, ins) => {
                if !splice_fits(*off, *del, w.len()) {
                    proof {
                        assert(vals_of(w@).len() == w@.len());
                        assert(arr_fold(s0, acts@.take(i + 1)) is None);
                        if arr_fold(s0, acts@) is Some {
                            lemma_arr_fold_prefix(s0, acts@, i + 1);
                        }
                    }
                    return None;
                }
                w = splice_values(w, *off, *del, ins);
            },
            _ => {},
        }
        i = i + 1;
    }
    assert(acts@.take(acts@.len() as int) =~= acts@);
    Some(w)
}

/// Whether one of the actions assigns a new value
fn has_assign(acts: &Vec<Action>) -> (r: bool)
    ensures
        r == assigns(acts@),
{
    let mut i: usize = 0;
    while i < acts.len()
        invariant
            i <= acts@.len(),
            forall|j: int| 0 <= j < i ==> !(#[trigger] acts@[j] is Assign),
        decreases acts@.len() - i,
    {
        if let Action::Assign(_) = &acts[i] {
            return true;
        }
        i = i + 1;
    }
    false
}

impl Modify {
    /// The value at path `pfx` after the modifier, within `fuel` levels of
    /// nesting; `None` where an action panics or the fuel runs out
    #[verifier::loop_isolation(false)]
    fn modify_value<F: Fn(ArithOp, Num, Num) -> u64, G: Fn(u64) -> Option<i128>>(
        &self,
        pfx: &String,
        val: Value,
        arith: &F,
        whole: &G,
        fuel: usize,
    ) -> (r: Option<Value>)
        requires
            float_ops_ready(*arith, *whole),
        ensures
            r is Some <==> modified(self.0@, pfx@, val_of(val), *arith, *whole, fuel as nat) is Some,
            r matches Some(x) ==> val_of(x) == modified(self.0@, pfx@, val_of(val), *arith, *whole, fuel as nat).unwrap(),
        decreases fuel,
    {
        if fuel == 0 {
            return None;
        }
        let ghost mods = self.0@;
        let ghost f1 = (fuel - 1) as nat;
        let empty: Vec<Action> = Vec::new();
        let pos = self.position(pfx.as_str());
        let acts: &Vec<Action> = match pos {
            Some(i) => &self.0[i].1,
            None => &empty,
        };
        assert(acts@ == lookup(mods, pfx@));
        let w = reset(val, acts);
        match w {
            Value::Array(vec) => {
                let vec2 = match arr_try(vec, acts) {
                    Some(v) => v,
                    None => {
                        return None;
                    },
                };
                if has_assign(acts) {
                    return Some(Value::Array(vec2));
                }
                let ghost s2 = vals_of(vec2@);
                proof {
                    lemma_vals_of(vec2@);
                    lemma_modified_seq(mods, pfx@, s2, *arith, *whole, f1);
                }
                let mut out: Vec<Value> = Vec::new();
                let ghost mut n: int = 0;
                for x in it: vec2.into_iter()
                    invariant
                        it.seq() == vec2@,
                        n == it.index(),
                        0 <= n <= vec2@.len(),
                        fuel > 0,
                        f1 == fuel - 1,
                        mods == self.0@,
                        float_ops_ready(*arith, *whole),
                        s2 == vals_of(vec2@),
                        s2.len() == vec2@.len(),
                        forall|j: int| 0 <= j < vec2@.len() ==> #[trigger] s2[j] == val_of(vec2@[j]),
                        forall|j: int| 0 <= j < n ==> #[trigger] modified(mods, pfx@, s2[j], *arith, *whole, f1) is Some,
                        out@.len() == n,
                        forall|j: int| 0 <= j < n ==> val_of(#[trigger] out@[j]) == modified(mods, pfx@, s2[j], *arith, *whole, f1).unwrap(),
                {
                    assert(s2[n] == val_of(x));
                    let y = match self.modify_value(pfx, x, arith, whole, fuel - 1) {
                        Some(y) => y,
                        None => {
                            assert(modified(mods, pfx@, s2[n], *arith, *whole, f1) is None);
                            return None;
                        },
                    };
                    out.push(y);
                    proof { n = n + 1; }
                }
                proof {
                    lemma_vals_eq(out@, modified_seq(mods, pfx@, s2, *arith, *whole, f1).unwrap());
                }
                Some(Value::Array(out))
            },
            Value::Object(m) => {
                let m2 = obj_apply(m, acts);
                let ghost p2 = pairs_of(m2@);
                proof {
                    lemma_pairs_of(m2@);
                    lemma_modified_pairs(mods, pfx@, p2, *arith, *whole, f1);
                }
                let mut out: Vec<(Value, Value)> = Vec::new();
                let ghost mut n: int = 0;
                for entry in it: m2.into_iter()
                    invariant
                        it.seq() == m2@,
                        n == it.index(),
                        0 <= n <= m2@.len(),
                        fuel > 0,
                        f1 == fuel - 1,
                        mods == self.0@,
                        float_ops_ready(*arith, *whole),
                        p2 == pairs_of(m2@),
                        p2.len() == m2@.len(),
                        forall|j: int| 0 <= j < m2@.len() ==> #[trigger] p2[j] == (val_of(m2@[j].0), val_of(m2@[j].1)),
                        forall|j: int| 0 <= j < n ==> #[trigger] modified(mods, nested(pfx@, p2[j].0), p2[j].1, *arith, *whole, f1) is Some,
                        out@.len() == n,
                        forall|j: int| 0 <= j < n ==> (val_of(#[trigger] out@[j].0), val_of(out@[j].1)) == (p2[j].0, modified(mods, nested(pfx@, p2[j].0), p2[j].1, *arith, *whole, f1).unwrap()),
                {
                    let (k, v) = entry;
                    assert(p2[n] == (val_of(k), val_of(v)));
                    let path = nested_field(pfx, &k);
                    let y = match self.modify_value(&path, v, arith, whole, fuel - 1) {
                        Some(y) => y,
                        None => {
                            assert(modified(mods, nested(pfx@, p2[n].0), p2[n].1, *arith, *whole, f1) is None);
                            return None;
                        },
                    };
                    out.push((k, y));
                    proof { n = n + 1; }
                }
                proof {
                    lemma_pairs_eq(out@, modified_pairs(mods, pfx@, p2, *arith, *whole, f1).unwrap());
                }
                Some(Value::Object(out))
            },
            Value::Null => Some(Value::Null),
            other => match prim_try(other, acts, arith, whole) {
                Some(x) => Some(normalize(x, arith, whole)),
                None => None,
            },
        }
    }

    /// Apply modifier to generic data, or `None` where an action panics
    /// (an integer overflows or is divided by zero, a splice bound reaches
    /// before the start of an array or past its end bound) or the nesting goes
    /// deeper than `depth` levels
    pub fn try_apply<F: Fn(ArithOp, Num, Num) -> u64, G: Fn(u64) -> Option<i128>>(
        &self,
        val: Value,
        arith: &F,
        whole: &G,
        depth: usize,
    ) -> (r: Option<Value>)
        requires
            float_ops_ready(*arith, *whole),
        ensures
            r is Some <==> modified(self.0@, Seq::empty(), val_of(val), *arith, *whole, depth as nat) is Some,
            r matches Some(x) ==> val_of(x) == modified(self.0@, Seq::empty(), val_of(val), *arith, *whole, depth as nat).unwrap(),
    {
        let root = String::new();
        proof {
            reveal_strlit("");
        }
        assert(root@ =~= Seq::<char>::empty());
        self.modify_value(&root, val, arith, whole, depth)
    }

    /// Apply modifier to generic data
    ///
    /// The floating-point arithmetic that the actions perform on float data is
    /// made by `arith` (on the operands as integers or IEEE-754 bits, giving the
    /// bits of the result), and `whole` says which float stands for a whole
    /// number (its fraction is below the machine epsilon) and which integer it is.
    pub fn apply<F: Fn(ArithOp, Num, Num) -> u64, G: Fn(u64) -> Option<i128>>(&self, val: Value, arith: &F, whole: &G) -> (r: Value)
        requires
            float_ops_ready(*arith, *whole),
            applied(self.0@, val_of(val), *arith, *whole) is Some,
        ensures
            val_of(r) == applied(self.0@, val_of(val), *arith, *whole).unwrap(),
    {
        match self.try_apply(val, arith, whole, usize::MAX) {
            Some(x) => x,
            None => {
                proof {
                    assert(false);
                }
                Value::Null
            },
        }
    }
}


/// Whether two actions are the same: values compared as `val_same` says,
/// regular expressions by their patterns, the rest in place
pub open spec fn action_same(a: Action, b: Action) -> bool {
    match (a, b) {
        (Action::Assign(x), Action::Assign(y)) => val_same(val_of(x), val_of(y)),
        (Action::Delete, Action::Delete) => true,
        (Action::Add(x), Action::Add(y)) => val_same(val_of(x), val_of(y)),
        (Action::Sub(x), Action::Sub(y)) => val_same(val_of(x), val_of(y)),
        (Action::Mul(x), Action::Mul(y)) => val_same(val_of(x), val_of(y)),
        (Action::Div(x), Action::Div(y)) => val_same(val_of(x), val_of(y)),
        (Action::Toggle, Action::Toggle) => true,
        (Action::Replace(r, s), Action::Replace(q, t)) => r.spec_pattern() == q.spec_pattern() && s@ == t@,
        (Action::Splice(i, j, v), Action::Splice(k, l, w)) => i == k && j == l && val_same(
            Val::Array(vals_of(v@)),
            Val::Array(vals_of(w@)),
        ),
        (Action::Merge(x), Action::Merge(y)) => val_same(val_of(x), val_of(y)),
        _ => false,
    }
}

impl Action {
    /// Checks two actions are the same
    pub fn same(&self, other: &Action) -> (r: bool)
        ensures
            r == action_same(*self, *other),
    {
        match (self, other) {
            (Action::Assign(x), Action::Assign(y)) => x.same(y),
            (Action::Delete, Action::Delete) => true,
            (Action::Add(x), Action::Add(y)) => x.same(y),
            (Action::Sub(x), Action::Sub(y)) => x.same(y),
            (Action::Mul(x), Action::Mul(y)) => x.same(y),
            (Action::Div(x), Action::Div(y)) => x.same(y),
            (Action::Toggle, Action::Toggle) => true,
            (Action::Replace(r, s), Action::Replace(q, t)) => r.eq(q) && text_eq(s, t),
            (Action::Splice(i, j, v), Action::Splice(k, l, w)) => *i == *k && *j == *l && arrays_same(v, w),
            (Action::Merge(x), Action::Merge(y)) => x.same(y),
            _ => false,
        }
    }
}

impl PartialEq for Action {
    fn eq(&self, other: &Self) -> (r: bool) {
        self.same(other)
    }
}

impl vstd::std_specs::cmp::PartialEqSpecImpl for Action {
    open spec fn obeys_eq_spec() -> bool {
        true
    }

    open spec fn eq_spec(&self, other: &Self) -> bool {
        action_same(*self, *other)
    }
}

/// Whether some entry of the modifier is for the field
pub open spec fn holds_field(mods: Seq<(String, Vec<Action>)>, p: Seq<char>) -> bool {
    exists|j: int| 0 <= j < mods.len() && (#[trigger] mods[j]).0@ == p
}

/// Whether two lists of actions are the same, action by action
pub open spec fn actions_same(a: Seq<Action>, b: Seq<Action>) -> bool {
    a.len() == b.len() && forall|j: int| 0 <= j < a.len() ==> action_same(#[trigger] a[j], b[j])
}

/// Whether two modifiers hold the same fields with the same actions, in
/// whatever order their entries stand
pub open spec fn mods_same(a: Seq<(String, Vec<Action>)>, b: Seq<(String, Vec<Action>)>) -> bool {
    &&& forall|p: Seq<char>| #[trigger] holds_field(a, p) <==> holds_field(b, p)
    &&& forall|p: Seq<char>| #[trigger] holds_field(a, p) ==> actions_same(lookup(a, p), lookup(b, p))
}

/// Checks two lists of actions are the same, action by action
fn actions_eq(a: &Vec<Action>, b: &Vec<Action>) -> (r: bool)
    ensures
        r == actions_same(a@, b@),
{
    if a.len() != b.len() {
        return false;
    }
    let mut i: usize = 0;
    while i < a.len()
        invariant
            i <= a@.len(),
            a@.len() == b@.len(),
            forall|j: int| 0 <= j < i ==> action_same(#[trigger] a@[j], b@[j]),
        decreases a@.len() - i,
    {
        if !a[i].same(&b[i]) {
            return false;
        }
        i = i + 1;
    }
    true
}

impl Modify {
    /// Checks two modifiers hold the same fields with the same actions,
    /// whatever the order of their entries
    pub fn same(&self, other: &Modify) -> (r: bool)
        ensures
            r == mods_same(self.0@, other.0@),
    {
        let ghost a = self.0@;
        let ghost b = other.0@;
        let mut i: usize = 0;
        while i < self.0.len()
            invariant
                i <= a.len(),
                a == self.0@,
                b == other.0@,
                forall|j: int|
                    0 <= j < i ==> holds_field(b, #[trigger] a[j].0@) && actions_same(lookup(a, a[j].0@), lookup(b, a[j].0@)),
            decreases a.len() - i,
        {
            let p = self.0[i].0.as_str();
            assert(holds_field(a, p@)) by {
                assert(a[i as int].0@ == p@);
            }
            match other.position(p) {
                None => {
                    return false;
                },
                Some(k) => {
                    let mine = match self.position(p) {
                        Some(m) => m,
                        None => {
                            assert(a[i as int].0@ == p@);
                            return false;
                        },
                    };
                    if !actions_eq(&self.0[mine].1, &other.0[k].1) {
                        return false;
                    }
                    assert(holds_field(b, p@)) by {
                        assert(b[k as int].0@ == p@);
                    }
                },
            }
            i = i + 1;
        }
        let mut i: usize = 0;
        while i < other.0.len()
            invariant
                i <= b.len(),
                a == self.0@,
                b == other.0@,
                forall|j: int| 0 <= j < i ==> holds_field(a, #[trigger] b[j].0@),
            decreases b.len() - i,
        {
            let p = other.0[i].0.as_str();
            assert(holds_field(b, p@)) by {
                assert(b[i as int].0@ == p@);
            }
            match self.position(p) {
                None => {
                    assert(!holds_field(a, p@));
                    return false;
                },
                Some(k) => {
                    assert(holds_field(a, p@)) by {
                        assert(a[k as int].0@ == p@);
                    }
                },
            }
            i = i + 1;
        }
        assert forall|p: Seq<char>| #[trigger] holds_field(a, p) implies holds_field(b, p) && actions_same(lookup(a, p), lookup(b, p)) by {
            let j = choose|j: int| 0 <= j < a.len() && (#[trigger] a[j]).0@ == p;
            assert(a[j].0@ == p);
        }
        assert forall|p: Seq<char>| #[trigger] holds_field(b, p) implies holds_field(a, p) by {
            let j = choose|j: int| 0 <= j < b.len() && (#[trigger] b[j]).0@ == p;
            assert(b[j].0@ == p);
        }
        true
    }
}

impl PartialEq for Modify {
    fn eq(&self, other: &Self) -> (r: bool) {
        self.same(other)
    }
}

impl vstd::std_specs::cmp::PartialEqSpecImpl for Modify {
    open spec fn obeys_eq_spec() -> bool {
        true
    }

    open spec fn eq_spec(&self, other: &Self) -> bool {
        mods_same(self.0@, other.0@)
    }
}

} // verus!
