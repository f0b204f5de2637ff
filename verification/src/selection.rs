use std::collections::HashSet;
use vstd::prelude::*;
use vstd::std_specs::iter::IteratorSpec;

verus! {

broadcast use vstd::std_specs::hash::group_hash_axioms;

/// Primary key (document identifier)
pub type Primary = u32;

/// A set of document identifiers, held either directly or as the complement
/// of the identifiers it holds (`inv`)
#[derive(Debug, Default, PartialEq, Eq)]
pub struct Selection {
    pub ids: HashSet<Primary>,
    pub inv: bool,
}

/// The identifiers that a selection made of `ids` and `inv` contains
pub open spec fn selected(ids: Set<Primary>, inv: bool) -> Set<Primary> {
    if inv {
        Set::full().difference(ids)
    } else {
        ids
    }
}

impl View for Selection {
    type V = Set<Primary>;

    open spec fn view(&self) -> Set<Primary> {
        selected(self.ids@, self.inv)
    }
}

/// The identifiers of `a` that are in `b` (when `within` holds) or not in `b` (otherwise)
fn set_sieve(a: &HashSet<Primary>, b: &HashSet<Primary>, within: bool) -> (r: HashSet<Primary>)
    ensures
        within ==> r@ == a@.intersect(b@),
        !within ==> r@ == a@.difference(b@),
{
    let mut r: HashSet<Primary> = HashSet::new();
    let ghost keys = IteratorSpec::remaining(&vstd::std_specs::hash::spec_hash_keys_iter(a)).unref();
    let ghost mut n: int = 0;
    for x in it: a.iter()
        invariant
            it.seq().unref() == keys,
            n == it.index(),
            within ==> r@ == keys.take(n).to_set().intersect(b@),
            !within ==> r@ == keys.take(n).to_set().difference(b@),
    {
        let ghost prev = keys.take(n);
        if b.contains(x) == within {
            r.insert(*x);
        }
        proof {
            assert(keys.take(n + 1) == prev.push(*x));
            prev.lemma_push_to_set_commute(*x);
            n = n + 1;
        }
    }
    assert(keys.take(n) == keys);
    r
}

/// Insert every identifier of `b` into `r`
fn set_extend(r: &mut HashSet<Primary>, b: &HashSet<Primary>)
    ensures
        final(r)@ == old(r)@.union(b@),
{
    let ghost start = r@;
    let ghost keys = IteratorSpec::remaining(&vstd::std_specs::hash::spec_hash_keys_iter(b)).unref();
    let ghost mut n: int = 0;
    for x in it: b.iter()
        invariant
            it.seq().unref() == keys,
            n == it.index(),
            r@ == start.union(keys.take(n).to_set()),
    {
        let ghost prev = keys.take(n);
        r.insert(*x);
        proof {
            assert(keys.take(n + 1) == prev.push(*x));
            prev.lemma_push_to_set_commute(*x);
            n = n + 1;
        }
    }
    assert(keys.take(n) == keys);
}

/// A copy of the identifiers of `a`
fn set_copy(a: &HashSet<Primary>) -> (r: HashSet<Primary>)
    ensures
        r@ == a@,
{
    let mut r: HashSet<Primary> = HashSet::new();
    set_extend(&mut r, a);
    r
}

/// The identifiers and inversion flag that `a & b` is made of, by the
/// inversion flags of the two operands
pub open spec fn and_parts(a: (Set<Primary>, bool), b: (Set<Primary>, bool)) -> (Set<Primary>, bool) {
    let (ai, ainv) = a;
    let (bi, binv) = b;
    if !ainv && !binv {
        (ai.intersect(bi), false)
    } else if !ainv && binv {
        (ai.difference(bi), false)
    } else if ainv && !binv {
        (bi.difference(ai), false)
    } else {
        (ai.union(bi), true)
    }
}

/// The identifiers and inversion flag that `a | b` is made of: the complement
/// of the `&` of the complements
pub open spec fn or_parts(a: (Set<Primary>, bool), b: (Set<Primary>, bool)) -> (Set<Primary>, bool) {
    let p = and_parts((a.0, !a.1), (b.0, !b.1));
    (p.0, !p.1)
}

impl Selection {
    /// The identifiers and the inversion flag of the selection
    pub open spec fn parts(&self) -> (Set<Primary>, bool) {
        (self.ids@, self.inv)
    }

    /// Create a selection from a set of identifiers and an inversion flag
    pub fn new(ids: HashSet<Primary>, inv: bool) -> (s: Self)
        ensures
            s.ids@ == ids@,
            s.inv == inv,
    {
        Selection { ids, inv }
    }

    /// The empty selection
    pub fn empty() -> (s: Self)
        ensures
            s.ids@ == Set::<Primary>::empty(),
            !s.inv,
            s@ == Set::<Primary>::empty(),
    {
        Selection { ids: HashSet::new(), inv: false }
    }

    /// A selection of the given identifiers
    pub fn from_ids(ids: &[Primary]) -> (s: Self)
        ensures
            s.ids@ == ids@.to_set(),
            !s.inv,
    {
        let mut set: HashSet<Primary> = HashSet::new();
        let mut i: usize = 0;
        while i < ids.len()
            invariant
                i <= ids.len(),
                set@ == ids@.take(i as int).to_set(),
            decreases ids.len() - i,
        {
            let ghost prev = ids@.take(i as int);
            set.insert(ids[i]);
            proof {
                assert(ids@.take(i + 1) == prev.push(ids@[i as int]));
                prev.lemma_push_to_set_commute(ids@[i as int]);
            }
            i = i + 1;
        }
        assert(ids@.take(ids.len() as int) == ids@);
        Selection { ids: set, inv: false }
    }

    /// Checks the selection contains the identifier
    pub fn has(&self, id: &Primary) -> (r: bool)
        ensures
            r == self@.contains(*id),
    {
        if self.inv {
            !self.ids.contains(id)
        } else {
            self.ids.contains(id)
        }
    }

    /// The selection of all identifiers that this one does not contain
    pub fn invert(self) -> (s: Self)
        ensures
            s.ids@ == self.ids@,
            s.inv == !self.inv,
            s@ == Set::<Primary>::full().difference(self@),
    {
        let Selection { ids, inv } = self;
        let s = Selection { ids, inv: !inv };
        assert(s@ =~= Set::<Primary>::full().difference(self@));
        s
    }

    /// The selection of the identifiers that both selections contain
    pub fn and(self, other: Self) -> (s: Self)
        ensures
            s.parts() == and_parts(self.parts(), other.parts()),
            s@ == self@.intersect(other@),
    {
        let (ids, inv) = if !self.inv && !other.inv {
            (set_sieve(&self.ids, &other.ids, true), false)
        } else if !self.inv {
            (set_sieve(&self.ids, &other.ids, false), false)
        } else if !other.inv {
            (set_sieve(&other.ids, &self.ids, false), false)
        } else {
            let mut u = set_copy(&self.ids);
            set_extend(&mut u, &other.ids);
            (u, true)
        };
        let s = Selection { ids, inv };
        proof {
            law_and_intersects(self.parts(), other.parts());
        }
        s
    }

    /// The selection of the identifiers that either selection contains
    pub fn or(self, other: Self) -> (s: Self)
        ensures
            s.parts() == or_parts(self.parts(), other.parts()),
            s@ == self@.union(other@),
    {
        let ghost a = self.parts();
        let ghost b = other.parts();
        let s = self.invert().and(other.invert()).invert();
        proof {
            law_or_unites(a, b);
        }
        s
    }

    /// Keep the identifiers that the selection contains, and every error
    pub fn filter<E>(&self, items: Vec<core::result::Result<Primary, E>>) -> (r: Vec<core::result::Result<Primary, E>>)
        ensures
            r@ == items@.filter(|item: core::result::Result<Primary, E>| keeps(self@, item)),
    {
        let ghost pred = |item: core::result::Result<Primary, E>| keeps(self@, item);
        let ghost all = items@;
        let mut r: Vec<core::result::Result<Primary, E>> = Vec::new();
        let ghost mut n: int = 0;
        for item in it: items.into_iter()
            invariant
                it.seq() == all,
                pred == (|item: core::result::Result<Primary, E>| keeps(self@, item)),
                n == it.index(),
                0 <= n <= all.len(),
                r@ == all.take(n).filter(pred),
        {
            proof {
                assert(all.take(n + 1).drop_last() == all.take(n));
                assert(all.take(n + 1).last() == item);
                assert(all.take(n + 1).filter(pred) == if pred(item) {
                    all.take(n).filter(pred).push(item)
                } else {
                    all.take(n).filter(pred)
                }) by {
                    reveal(Seq::filter);
                }
            }
            let keep = match &item {
                Ok(id) => self.has(id),
                Err(_) => true,
            };
            assert(keep == keeps(self@, item));
            if keep {
                r.push(item);
            }
            proof { n = n + 1; }
        }
        assert(all.take(n) == all);
        r
    }
}

/// Whether filtering by a selection of `ids` keeps the item
pub open spec fn keeps<E>(ids: Set<Primary>, item: core::result::Result<Primary, E>) -> bool {
    match item {
        Ok(id) => ids.contains(id),
        Err(_) => true,
    }
}

/// Law: `a & b` holds just the identifiers that both operands hold
pub proof fn law_and_intersects(a: (Set<Primary>, bool), b: (Set<Primary>, bool))
    ensures
        selected(and_parts(a, b).0, and_parts(a, b).1) == selected(a.0, a.1).intersect(selected(b.0, b.1)),
{
    let r = and_parts(a, b);
    assert(selected(r.0, r.1) =~= selected(a.0, a.1).intersect(selected(b.0, b.1)));
}

/// Law: `a | b` holds just the identifiers that either operand holds
pub proof fn law_or_unites(a: (Set<Primary>, bool), b: (Set<Primary>, bool))
    ensures
        selected(or_parts(a, b).0, or_parts(a, b).1) == selected(a.0, a.1).union(selected(b.0, b.1)),
{
    law_and_intersects((a.0, !a.1), (b.0, !b.1));
    let p = or_parts(a, b);
    assert(selected(p.0, p.1) =~= selected(a.0, a.1).union(selected(b.0, b.1)));
}

/// Law: the inverted selection holds just the identifiers that the selection
/// does not hold, and inverting twice gives the selection back
pub proof fn law_not_complements(a: (Set<Primary>, bool))
    ensures
        selected(a.0, !a.1) == Set::<Primary>::full().difference(selected(a.0, a.1)),
        selected(a.0, !!a.1) == selected(a.0, a.1),
{
    assert(selected(a.0, !a.1) =~= Set::<Primary>::full().difference(selected(a.0, a.1)));
}

impl core::ops::Not for Selection {
    type Output = Self;

    fn not(self) -> (s: Self)
        ensures
            s.ids@ == self.ids@,
            s.inv == !self.inv,
    {
        self.invert()
    }
}

impl core::ops::BitAnd for Selection {
    type Output = Self;

    fn bitand(self, other: Self) -> (s: Self)
        ensures
            s.parts() == and_parts(self.parts(), other.parts()),
            s@ == self@.intersect(other@),
    {
        self.and(other)
    }
}

impl core::ops::BitOr for Selection {
    type Output = Self;

    fn bitor(self, other: Self) -> (s: Self)
        ensures
            s.parts() == or_parts(self.parts(), other.parts()),
            s@ == self@.union(other@),
    {
        self.or(other)
    }
}

// The operators are described by the `ensures` of their impls above; the
// generic operator specifications are not claimed for selections.
impl vstd::std_specs::ops::NotSpecImpl for Selection {
    open spec fn obeys_not_spec() -> bool {
        false
    }

    open spec fn not_req(self) -> bool {
        true
    }

    open spec fn not_spec(self) -> Selection {
        self
    }
}

impl vstd::std_specs::ops::BitAndSpecImpl for Selection {
    open spec fn obeys_bitand_spec() -> bool {
        false
    }

    open spec fn bitand_req(self, rhs: Selection) -> bool {
        true
    }

    open spec fn bitand_spec(self, rhs: Selection) -> Selection {
        self
    }
}

impl vstd::std_specs::ops::BitOrSpecImpl for Selection {
    open spec fn obeys_bitor_spec() -> bool {
        false
    }

    open spec fn bitor_req(self, rhs: Selection) -> bool {
        true
    }

    open spec fn bitor_spec(self, rhs: Selection) -> Selection {
        self
    }
}

impl Clone for Selection {
    fn clone(&self) -> (s: Self)
        ensures
            s.ids@ == self.ids@,
            s.inv == self.inv,
    {
        Selection { ids: set_copy(&self.ids), inv: self.inv }
    }
}

impl<const N: usize> From<&[Primary; N]> for Selection {
    fn from(ids: &[Primary; N]) -> (s: Self)
        ensures
            s.ids@ == ids@.to_set(),
            !s.inv,
    {
        Selection::from_ids(ids.as_slice())
    }
}

// A selection holds a hash set, which no spec value names; the impl's own
// `ensures` above says what it holds.
impl<const N: usize> vstd::std_specs::convert::FromSpecImpl<&[Primary; N]> for Selection {
    open spec fn obeys_from_spec() -> bool {
        false
    }

    open spec fn from_spec(ids: &[Primary; N]) -> Self {
        Selection { ids: vstd::pervasive::arbitrary(), inv: false }
    }
}

} // verus!
