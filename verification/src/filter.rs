use vstd::prelude::*;

use crate::selection::{and_parts, or_parts, selected, Primary, Selection};
use crate::value::KeyData;

verus! {

/// Comparison operator of filter
#[derive(Debug, Clone, PartialEq, Eq)]
pub enum Comp {
    /// Equal
    Eq(KeyData),
    /// In set
    In(Vec<KeyData>),
    /// Less than
    Lt(KeyData),
    /// Less than or equal
    Le(KeyData),
    /// Greater than
    Gt(KeyData),
    /// Greater than or equal
    Ge(KeyData),
    /// Between (in range): start, start included, end, end included
    Bw(KeyData, bool, KeyData, bool),
    /// Has (the field holds some value)
    Has,
}

/// Condition operator of filter
#[derive(Debug, PartialEq, Eq)]
pub enum Cond {
    /// Not (sub-condition is false)
    Not(Box<Filter>),
    /// And (all of sub-conditions is true)
    And(Vec<Filter>),
    /// Or (any of sub-conditions is true)
    Or(Vec<Filter>),
}

/// Filter operator
#[derive(Debug, PartialEq, Eq)]
pub enum Filter {
    /// Condition operator
    Cond(Cond),
    /// Comparison operator on the indexed field at the path
    Comp(String, Comp),
}

/// The comparisons of a filter, in the order of evaluation
pub open spec fn leaves(f: Filter) -> Seq<(String, Comp)>
    decreases f, 0nat,
{
    match f {
        Filter::Comp(path, comp) => seq![(path, comp)],
        Filter::Cond(Cond::Not(b)) => leaves(*b),
        Filter::Cond(Cond::And(v)) => leaves_all(v@),
        Filter::Cond(Cond::Or(v)) => leaves_all(v@),
    }
}

/// The comparisons of a sequence of filters, in the order of evaluation
pub open spec fn leaves_all(fs: Seq<Filter>) -> Seq<(String, Comp)>
    decreases fs, 1nat,
{
    if fs.len() == 0 {
        Seq::empty()
    } else {
        leaves_all(fs.drop_last()) + leaves(fs.last())
    }
}

/// The parts of the complement selection
pub open spec fn not_parts(p: (Set<Primary>, bool)) -> (Set<Primary>, bool) {
    (p.0, !p.1)
}

/// The selection (as its parts) of a filter, given the selections of its
/// comparisons in the order of evaluation
pub open spec fn evaluated(f: Filter, rs: Seq<(Set<Primary>, bool)>) -> (Set<Primary>, bool)
    decreases f, 0nat,
{
    match f {
        Filter::Comp(_, _) => rs[0],
        Filter::Cond(Cond::Not(b)) => not_parts(evaluated(*b, rs)),
        Filter::Cond(Cond::And(v)) => evaluated_all(v@, rs, true),
        Filter::Cond(Cond::Or(v)) => evaluated_all(v@, rs, false),
    }
}

/// The conjunction (`conj`) or disjunction of a sequence of filters, starting
/// from the universe or the empty selection
pub open spec fn evaluated_all(fs: Seq<Filter>, rs: Seq<(Set<Primary>, bool)>, conj: bool) -> (Set<Primary>, bool)
    decreases fs, 1nat,
{
    if fs.len() == 0 {
        (Set::empty(), conj)
    } else {
        let n = leaves_all(fs.drop_last()).len() as int;
        let acc = evaluated_all(fs.drop_last(), rs, conj);
        let last = evaluated(fs.last(), rs.skip(n));
        if conj {
            and_parts(acc, last)
        } else {
            or_parts(acc, last)
        }
    }
}

/// The parts of each selection
pub open spec fn parts_of(s: Seq<Selection>) -> Seq<(Set<Primary>, bool)> {
    s.map_values(|x: Selection| x.parts())
}

/// Law: a negated filter selects just the identifiers that the filter does not
pub proof fn law_not_filter_complements(f: Filter, rs: Seq<(Set<Primary>, bool)>)
    ensures
        ({
            let p = evaluated(Filter::Cond(Cond::Not(Box::new(f))), rs);
            selected(p.0, p.1)
        }) == Set::<Primary>::full().difference(({
            let q = evaluated(f, rs);
            selected(q.0, q.1)
        })),
{
    let q = evaluated(f, rs);
    assert(selected(q.0, !q.1) =~= Set::<Primary>::full().difference(selected(q.0, q.1)));
}

/// The identifiers that a filter selects, given the selections (as their
/// parts) of its comparisons in the order of evaluation: a negation selects
/// the complement, a conjunction what all its sub-filters select, a
/// disjunction what any of them selects
pub open spec fn filter_selects(f: Filter, rs: Seq<(Set<Primary>, bool)>) -> Set<Primary>
    decreases f, 0nat,
{
    match f {
        Filter::Comp(_, _) => selected(rs[0].0, rs[0].1),
        Filter::Cond(Cond::Not(b)) => Set::full().difference(filter_selects(*b, rs)),
        Filter::Cond(Cond::And(v)) => filters_select(v@, rs, true),
        Filter::Cond(Cond::Or(v)) => filters_select(v@, rs, false),
    }
}

/// The identifiers that all (`conj`) or any of a sequence of filters select,
/// each filter given the selections of its own comparisons
pub open spec fn filters_select(fs: Seq<Filter>, rs: Seq<(Set<Primary>, bool)>, conj: bool) -> Set<Primary>
    decreases fs, 1nat,
{
    if fs.len() == 0 {
        if conj { Set::full() } else { Set::empty() }
    } else {
        let n = leaves_all(fs.drop_last()).len() as int;
        let acc = filters_select(fs.drop_last(), rs, conj);
        let last = filter_selects(fs.last(), rs.skip(n));
        if conj { acc.intersect(last) } else { acc.union(last) }
    }
}

/// Where the comparisons of the filter at `i` start among those of `fs`
pub open spec fn leaf_offset(fs: Seq<Filter>, i: int) -> int {
    leaves_all(fs.take(i)).len() as int
}

/// Law: the selection that a filter is evaluated to holds just the
/// identifiers that the filter selects
pub proof fn law_filter_selects(f: Filter, rs: Seq<(Set<Primary>, bool)>)
    ensures
        selected(evaluated(f, rs).0, evaluated(f, rs).1) == filter_selects(f, rs),
    decreases f, 0nat,
{
    match f {
        Filter::Comp(_, _) => {},
        Filter::Cond(Cond::Not(b)) => {
            law_filter_selects(*b, rs);
            let q = evaluated(*b, rs);
            assert(selected(q.0, !q.1) =~= Set::<Primary>::full().difference(selected(q.0, q.1)));
        },
        Filter::Cond(Cond::And(v)) => {
            lemma_filters_select(v@, rs, true);
        },
        Filter::Cond(Cond::Or(v)) => {
            lemma_filters_select(v@, rs, false);
        },
    }
}

/// The selection that a sequence of filters is evaluated to holds just the
/// identifiers that all (or any) of them select
proof fn lemma_filters_select(fs: Seq<Filter>, rs: Seq<(Set<Primary>, bool)>, conj: bool)
    ensures
        selected(evaluated_all(fs, rs, conj).0, evaluated_all(fs, rs, conj).1) == filters_select(fs, rs, conj),
    decreases fs, 1nat,
{
    if fs.len() == 0 {
        assert(selected(Set::<Primary>::empty(), true) =~= Set::<Primary>::full());
    } else {
        let n = leaves_all(fs.drop_last()).len() as int;
        lemma_filters_select(fs.drop_last(), rs, conj);
        law_filter_selects(fs.last(), rs.skip(n));
        let acc = evaluated_all(fs.drop_last(), rs, conj);
        let last = evaluated(fs.last(), rs.skip(n));
        if conj {
            crate::selection::law_and_intersects(acc, last);
        } else {
            crate::selection::law_or_unites(acc, last);
        }
    }
}

/// Whether the filter at `i` of `fs` selects `id`, given the selections of
/// its own comparisons
pub open spec fn picks(fs: Seq<Filter>, rs: Seq<(Set<Primary>, bool)>, i: int, id: Primary) -> bool {
    filter_selects(fs[i], rs.skip(leaf_offset(fs, i))).contains(id)
}

/// Dropping the last filter keeps what each of the others picks
proof fn lemma_picks_prefix(fs: Seq<Filter>, rs: Seq<(Set<Primary>, bool)>, id: Primary)
    requires
        fs.len() > 0,
    ensures
        forall|i: int| 0 <= i < fs.len() - 1 ==> #[trigger] picks(fs.drop_last(), rs, i, id) == picks(fs, rs, i, id),
        picks(fs, rs, fs.len() - 1, id) == filter_selects(fs.last(), rs.skip(leaves_all(fs.drop_last()).len() as int)).contains(id),
{
    let d = fs.drop_last();
    assert forall|i: int| 0 <= i < fs.len() - 1 implies #[trigger] picks(d, rs, i, id) == picks(fs, rs, i, id) by {
        assert(d.take(i) =~= fs.take(i));
    }
    assert(fs.take(fs.len() - 1) =~= d);
}

/// All of a sequence of filters select `id` just when each of them does
proof fn lemma_filters_select_all(fs: Seq<Filter>, rs: Seq<(Set<Primary>, bool)>, id: Primary)
    ensures
        filters_select(fs, rs, true).contains(id) <==> (forall|i: int| 0 <= i < fs.len() ==> #[trigger] picks(fs, rs, i, id)),
    decreases fs.len(),
{
    if fs.len() > 0 {
        let d = fs.drop_last();
        lemma_filters_select_all(d, rs, id);
        lemma_picks_prefix(fs, rs, id);
        if filters_select(fs, rs, true).contains(id) {
            assert forall|i: int| 0 <= i < fs.len() implies #[trigger] picks(fs, rs, i, id) by {
                if i < fs.len() - 1 {
                    assert(picks(d, rs, i, id));
                }
            }
        }
        if forall|i: int| 0 <= i < fs.len() ==> #[trigger] picks(fs, rs, i, id) {
            assert forall|i: int| 0 <= i < d.len() implies #[trigger] picks(d, rs, i, id) by {
                assert(picks(fs, rs, i, id));
            }
            assert(picks(fs, rs, fs.len() - 1, id));
        }
    }
}

/// Any of a sequence of filters selects `id` just when one of them does
proof fn lemma_filters_select_any(fs: Seq<Filter>, rs: Seq<(Set<Primary>, bool)>, id: Primary)
    ensures
        filters_select(fs, rs, false).contains(id) <==> (exists|i: int| 0 <= i < fs.len() && #[trigger] picks(fs, rs, i, id)),
    decreases fs.len(),
{
    if fs.len() > 0 {
        let d = fs.drop_last();
        lemma_filters_select_any(d, rs, id);
        lemma_picks_prefix(fs, rs, id);
        if filters_select(fs, rs, false).contains(id) {
            if filters_select(d, rs, false).contains(id) {
                let i = choose|i: int| 0 <= i < d.len() && #[trigger] picks(d, rs, i, id);
                assert(picks(fs, rs, i, id));
            } else {
                assert(picks(fs, rs, fs.len() - 1, id));
            }
        }
        if exists|i: int| 0 <= i < fs.len() && #[trigger] picks(fs, rs, i, id) {
            let i = choose|i: int| 0 <= i < fs.len() && #[trigger] picks(fs, rs, i, id);
            if i < fs.len() - 1 {
                assert(picks(d, rs, i, id));
            }
        }
    }
}

/// Law: a conjunction selects just the identifiers that every one of its
/// sub-filters selects, and a disjunction those that any of them selects;
/// each sub-filter is given the selections of its own comparisons
pub proof fn law_and_or_filters(v: Vec<Filter>, rs: Seq<(Set<Primary>, bool)>, id: Primary)
    ensures
        filter_selects(Filter::Cond(Cond::And(v)), rs).contains(id) <==> (forall|i: int| 0 <= i < v@.len()
            ==> #[trigger] picks(v@, rs, i, id)),
        filter_selects(Filter::Cond(Cond::Or(v)), rs).contains(id) <==> (exists|i: int| 0 <= i < v@.len()
            && #[trigger] picks(v@, rs, i, id)),
{
    lemma_filters_select_all(v@, rs, id);
    lemma_filters_select_any(v@, rs, id);
}

impl Filter {
    /// Make a comparison filter
    pub fn comp(path: &str, comp: Comp) -> (f: Self)
        ensures
            f matches Filter::Comp(p, c) && p@ == path@ && c == comp,
    {
        Filter::Comp(crate::text::to_text(path), comp)
    }

    /// Make a condition filter
    pub fn cond(cond: Cond) -> (f: Self)
        ensures
            f == Filter::Cond(cond),
    {
        Filter::Cond(cond)
    }

    /// The comparisons of the filter, in the order in which they are evaluated
    pub fn leaves(&self) -> (r: Vec<(&String, &Comp)>)
        ensures
            r@.len() == leaves(*self).len(),
            forall|i: int| 0 <= i < r@.len() ==> (*r@[i].0, *r@[i].1) == #[trigger] leaves(*self)[i],
        decreases self,
    {
        match self {
            Filter::Comp(path, comp) => {
                let mut r: Vec<(&String, &Comp)> = Vec::new();
                r.push((path, comp));
                r
            },
            Filter::Cond(Cond::Not(b)) => (&**b).leaves(),
            Filter::Cond(Cond::And(v)) => leaves_of(v),
            Filter::Cond(Cond::Or(v)) => leaves_of(v),
        }
    }

    /// The selection of the filter, from the selections of its comparisons
    /// (in the order of `leaves`) found at `answers[pos..]`
    fn eval_from(&self, answers: &Vec<Selection>, pos: usize) -> (r: (Selection, usize))
        requires
            pos + leaves(*self).len() <= answers@.len(),
        ensures
            r.0.parts() == evaluated(*self, parts_of(answers@).skip(pos as int)),
            r.1 == pos + leaves(*self).len(),
        decreases self,
    {
        match self {
            Filter::Comp(_, _) => {
                assert(leaves(*self).len() == 1);
                let total = answers.len();
                assert(pos < total);
                let s = answers[pos].clone();
                assert(parts_of(answers@).skip(pos as int)[0] == answers@[pos as int].parts());
                (s, pos + 1)
            },
            Filter::Cond(Cond::Not(b)) => {
                let (s, next) = (&**b).eval_from(answers, pos);
                (s.invert(), next)
            },
            Filter::Cond(Cond::And(v)) => eval_all(v, answers, pos, true),
            Filter::Cond(Cond::Or(v)) => eval_all(v, answers, pos, false),
        }
    }

    /// The selection of the filter, given the selection of each of its
    /// comparisons in the order of `leaves`
    pub fn combine(&self, answers: &Vec<Selection>) -> (r: Selection)
        requires
            answers@.len() == leaves(*self).len(),
        ensures
            r.parts() == evaluated(*self, parts_of(answers@)),
            r@ == filter_selects(*self, parts_of(answers@)),
    {
        let (r, _) = self.eval_from(answers, 0);
        assert(parts_of(answers@).skip(0) =~= parts_of(answers@));
        proof {
            law_filter_selects(*self, parts_of(answers@));
        }
        r
    }
}

/// The kind of order
#[derive(Debug, Clone, Copy, PartialEq, Eq, Structural)]
pub enum OrderKind {
    /// Ascending ordering
    Asc,
    /// Descending ordering
    Desc,
}

impl Default for OrderKind {
    fn default() -> (k: Self)
        ensures
            k == OrderKind::Asc,
    {
        OrderKind::Asc
    }
}

/// Ordering operator
#[derive(Debug, Clone, PartialEq, Eq)]
pub enum Order {
    /// Order by primary key/identifier of document (the default ordering)
    Primary(OrderKind),
    /// Order by the indexed field at the path
    Field(String, OrderKind),
}

impl Default for Order {
    fn default() -> (o: Self)
        ensures
            o == Order::Primary(OrderKind::Asc),
    {
        Order::Primary(OrderKind::Asc)
    }
}

impl Order {
    /// Order by primary key
    pub fn primary(kind: OrderKind) -> (o: Self)
        ensures
            o == Order::Primary(kind),
    {
        Order::Primary(kind)
    }

    /// Order by the indexed field at the path
    pub fn field(path: &str, kind: OrderKind) -> (o: Self)
        ensures
            o matches Order::Field(p, k) && p@ == path@ && k == kind,
    {
        Order::Field(crate::text::to_text(path), kind)
    }
}

/// Whether two sequences of key data hold the same keys, in order
pub open spec fn keys_same(a: Seq<KeyData>, b: Seq<KeyData>) -> bool {
    a.len() == b.len() && forall|i: int| 0 <= i < a.len() ==> (#[trigger] a[i])@ == b[i]@
}

/// Whether two comparisons are the same operator on the same keys
pub open spec fn comp_same(a: Comp, b: Comp) -> bool {
    match (a, b) {
        (Comp::Eq(x), Comp::Eq(y)) => x@ == y@,
        (Comp::In(xs), Comp::In(ys)) => keys_same(xs@, ys@),
        (Comp::Lt(x), Comp::Lt(y)) => x@ == y@,
        (Comp::Le(x), Comp::Le(y)) => x@ == y@,
        (Comp::Gt(x), Comp::Gt(y)) => x@ == y@,
        (Comp::Ge(x), Comp::Ge(y)) => x@ == y@,
        (Comp::Bw(x1, i1, x2, i2), Comp::Bw(y1, j1, y2, j2)) => x1@ == y1@ && i1 == j1 && x2@ == y2@ && i2 == j2,
        (Comp::Has, Comp::Has) => true,
        _ => false,
    }
}

/// Whether two filters have the same shape, with the same field paths and comparisons
pub open spec fn filter_same(a: Filter, b: Filter) -> bool
    decreases a, 0nat,
{
    match (a, b) {
        (Filter::Comp(p, c), Filter::Comp(q, d)) => p@ == q@ && comp_same(c, d),
        (Filter::Cond(Cond::Not(x)), Filter::Cond(Cond::Not(y))) => filter_same(*x, *y),
        (Filter::Cond(Cond::And(v)), Filter::Cond(Cond::And(w))) => filters_same(v@, w@),
        (Filter::Cond(Cond::Or(v)), Filter::Cond(Cond::Or(w))) => filters_same(v@, w@),
        _ => false,
    }
}

/// Whether two sequences of filters are the same, filter by filter
pub open spec fn filters_same(a: Seq<Filter>, b: Seq<Filter>) -> bool
    decreases a, 1nat,
{
    if a.len() == 0 {
        b.len() == 0
    } else {
        b.len() > 0 && filters_same(a.drop_last(), b.drop_last()) && filter_same(a.last(), b.last())
    }
}

/// A copy of each key
pub(crate) fn copy_keys(v: &Vec<KeyData>) -> (r: Vec<KeyData>)
    ensures
        keys_same(r@, v@),
{
    let mut r: Vec<KeyData> = Vec::new();
    let mut i: usize = 0;
    while i < v.len()
        invariant
            i <= v@.len(),
            r@.len() == i,
            forall|j: int| 0 <= j < i ==> (#[trigger] r@[j])@ == v@[j]@,
        decreases v@.len() - i,
    {
        r.push(v[i].copy());
        i = i + 1;
    }
    r
}

/// A copy of a comparison
fn copy_comp(c: &Comp) -> (r: Comp)
    ensures
        comp_same(r, *c),
{
    match c {
        Comp::Eq(x) => Comp::Eq(x.copy()),
        Comp::In(xs) => Comp::In(copy_keys(xs)),
        Comp::Lt(x) => Comp::Lt(x.copy()),
        Comp::Le(x) => Comp::Le(x.copy()),
        Comp::Gt(x) => Comp::Gt(x.copy()),
        Comp::Ge(x) => Comp::Ge(x.copy()),
        Comp::Bw(x1, i1, x2, i2) => Comp::Bw(x1.copy(), *i1, x2.copy(), *i2),
        Comp::Has => Comp::Has,
    }
}

/// A copy of each filter
fn copy_all(v: &Vec<Filter>) -> (r: Vec<Filter>)
    ensures
        filters_same(r@, v@),
    decreases v,
{
    let mut r: Vec<Filter> = Vec::new();
    let mut i: usize = 0;
    assert(v@.take(0) =~= Seq::<Filter>::empty());
    while i < v.len()
        invariant
            i <= v@.len(),
            filters_same(r@, v@.take(i as int)),
        decreases v@.len() - i,
    {
        proof {
            assert(decreases_to!(v => v@[i as int]));
        }
        let ghost before = r@;
        let c = v[i].copy();
        r.push(c);
        proof {
            assert(r@.drop_last() =~= before);
            assert(v@.take(i + 1).drop_last() =~= v@.take(i as int));
            assert(v@.take(i + 1).last() == v@[i as int]);
        }
        i = i + 1;
    }
    assert(v@.take(v@.len() as int) =~= v@);
    r
}

/// What an index is asked for a comparison: the documents of some keys, or
/// of the keys in a range (each bound with whether it is included)
pub enum IndexQuery {
    /// The documents of each key
    Keys(Vec<KeyData>),
    /// The documents of the keys from the start bound to the end bound
    Range(Option<(KeyData, bool)>, Option<(KeyData, bool)>),
}

/// Whether a range bound holds the key `k` with inclusion `inc`
pub open spec fn bound_is(b: Option<(KeyData, bool)>, k: KeyData, inc: bool) -> bool {
    b matches Some((x, i)) && x@ == k@ && i == inc
}

/// Whether the index query is the one that the comparison asks: `==` the key,
/// `in` the keys, `<`/`<=` up to the key, `>`/`>=` from it, between its two
/// bounds, and `?` every key
pub open spec fn query_for(c: Comp, q: IndexQuery) -> bool {
    match c {
        Comp::Eq(v) => q matches IndexQuery::Keys(ks) && ks@.len() == 1 && ks@[0]@ == v@,
        Comp::In(vs) => q matches IndexQuery::Keys(ks) && keys_same(ks@, vs@),
        Comp::Gt(v) => q matches IndexQuery::Range(b, e) && bound_is(b, v, false) && e is None,
        Comp::Ge(v) => q matches IndexQuery::Range(b, e) && bound_is(b, v, true) && e is None,
        Comp::Lt(v) => q matches IndexQuery::Range(b, e) && b is None && bound_is(e, v, false),
        Comp::Le(v) => q matches IndexQuery::Range(b, e) && b is None && bound_is(e, v, true),
        Comp::Bw(x, xi, y, yi) => q matches IndexQuery::Range(b, e) && bound_is(b, x, xi) && bound_is(e, y, yi),
        Comp::Has => q matches IndexQuery::Range(b, e) && b is None && e is None,
    }
}

impl Comp {
    /// What the index of the compared field is asked for this comparison
    pub fn index_query(&self) -> (q: IndexQuery)
        ensures
            query_for(*self, q),
    {
        match self {
            Comp::Eq(v) => {
                let mut ks: Vec<KeyData> = Vec::new();
                ks.push(v.copy());
                IndexQuery::Keys(ks)
            },
            Comp::In(vs) => IndexQuery::Keys(copy_keys(vs)),
            Comp::Gt(v) => IndexQuery::Range(Some((v.copy(), false)), None),
            Comp::Ge(v) => IndexQuery::Range(Some((v.copy(), true)), None),
            Comp::Lt(v) => IndexQuery::Range(None, Some((v.copy(), false))),
            Comp::Le(v) => IndexQuery::Range(None, Some((v.copy(), true))),
            Comp::Bw(x, xi, y, yi) => IndexQuery::Range(Some((x.copy(), *xi)), Some((y.copy(), *yi))),
            Comp::Has => IndexQuery::Range(None, None),
        }
    }
}

impl Filter {
    /// A copy of the filter: the same shape, field paths and comparisons
    fn copy(&self) -> (r: Filter)
        ensures
            filter_same(r, *self),
        decreases self,
    {
        match self {
            Filter::Comp(path, comp) => Filter::Comp(path.clone(), copy_comp(comp)),
            Filter::Cond(Cond::Not(b)) => Filter::Cond(Cond::Not(Box::new((&**b).copy()))),
            Filter::Cond(Cond::And(v)) => Filter::Cond(Cond::And(copy_all(v))),
            Filter::Cond(Cond::Or(v)) => Filter::Cond(Cond::Or(copy_all(v))),
        }
    }
}

impl Clone for Filter {
    fn clone(&self) -> (r: Self)
        ensures
            filter_same(r, *self),
    {
        self.copy()
    }
}

impl Clone for Cond {
    fn clone(&self) -> (r: Self)
        ensures
            filter_same(Filter::Cond(r), Filter::Cond(*self)),
    {
        match self {
            Cond::Not(b) => Cond::Not(Box::new((&**b).copy())),
            Cond::And(v) => Cond::And(copy_all(v)),
            Cond::Or(v) => Cond::Or(copy_all(v)),
        }
    }
}

/// The comparisons of a sequence of filters, in the order of evaluation
fn leaves_of(v: &Vec<Filter>) -> (r: Vec<(&String, &Comp)>)
    ensures
        r@.len() == leaves_all(v@).len(),
        forall|i: int| 0 <= i < r@.len() ==> (*r@[i].0, *r@[i].1) == #[trigger] leaves_all(v@)[i],
    decreases v,
{
    let mut r: Vec<(&String, &Comp)> = Vec::new();
    let mut i: usize = 0;
    while i < v.len()
        invariant
            i <= v@.len(),
            r@.len() == leaves_all(v@.take(i as int)).len(),
            forall|j: int| 0 <= j < r@.len() ==> (*r@[j].0, *r@[j].1) == #[trigger] leaves_all(v@.take(i as int))[j],
        decreases v@.len() - i,
    {
        proof {
            assert(v@.take(i + 1).drop_last() =~= v@.take(i as int));
            assert(v@.take(i + 1).last() == v@[i as int]);
            assert(decreases_to!(v => v@[i as int]));
        }
        let mut sub = v[i].leaves();
        let ghost before = r@;
        r.append(&mut sub);
        i = i + 1;
        proof {
            let whole = leaves_all(v@.take(i as int));
            assert(whole == leaves_all(v@.take(i - 1)) + leaves(v@[i - 1]));
            assert forall|j: int| 0 <= j < r@.len() implies (*r@[j].0, *r@[j].1) == #[trigger] whole[j] by {
                if j >= before.len() {
                    assert(whole[j] == leaves(v@[i - 1])[j - before.len()]);
                }
            }
        }
    }
    assert(v@.take(v@.len() as int) =~= v@);
    r
}

/// The leaves of a prefix of the filters come first among the leaves of all of them
proof fn lemma_leaves_all_take(fs: Seq<Filter>, k: int)
    requires
        0 <= k <= fs.len(),
    ensures
        leaves_all(fs.take(k)).len() <= leaves_all(fs).len(),
    decreases fs.len() - k,
{
    if k < fs.len() {
        lemma_leaves_all_take(fs, k + 1);
        assert(fs.take(k + 1).drop_last() =~= fs.take(k));
    } else {
        assert(fs.take(k) =~= fs);
    }
}

/// The conjunction (`conj`) or disjunction of the filters, with their
/// comparisons' selections found at `answers[pos..]`
fn eval_all(v: &Vec<Filter>, answers: &Vec<Selection>, pos: usize, conj: bool) -> (r: (Selection, usize))
    requires
        pos + leaves_all(v@).len() <= answers@.len(),
    ensures
        r.0.parts() == evaluated_all(v@, parts_of(answers@).skip(pos as int), conj),
        r.1 == pos + leaves_all(v@).len(),
    decreases v,
{
    let ghost rs = parts_of(answers@).skip(pos as int);
    let mut acc = if conj { Selection::empty().invert() } else { Selection::empty() };
    let mut at: usize = pos;
    let mut i: usize = 0;
    assert(v@.take(0) =~= Seq::<Filter>::empty());
    while i < v.len()
        invariant
            i <= v@.len(),
            pos + leaves_all(v@).len() <= answers@.len(),
            rs == parts_of(answers@).skip(pos as int),
            at == pos + leaves_all(v@.take(i as int)).len(),
            acc.parts() == evaluated_all(v@.take(i as int), rs, conj),
        decreases v@.len() - i,
    {
        let ghost n = leaves_all(v@.take(i as int)).len() as int;
        proof {
            assert(v@.take(i + 1).drop_last() =~= v@.take(i as int));
            assert(v@.take(i + 1).last() == v@[i as int]);
            assert(decreases_to!(v => v@[i as int]));
            lemma_leaves_all_take(v@, i + 1);
        }
        let (part, next) = v[i].eval_from(answers, at);
        proof {
            assert(parts_of(answers@).skip(pos + n) =~= rs.skip(n));
        }
        acc = if conj { acc.and(part) } else { acc.or(part) };
        at = next;
        i = i + 1;
    }
    assert(v@.take(v@.len() as int) =~= v@);
    (acc, at)
}

} // verus!
