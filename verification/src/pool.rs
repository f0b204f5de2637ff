use vstd::prelude::*;

use crate::types::str_eq;

verus! {

/// Whether no two entries hold the same path
pub open spec fn paths_distinct<T>(e: Seq<(String, T)>) -> bool {
    forall|i: int, j: int| 0 <= i < e.len() && 0 <= j < e.len() && i != j ==> #[trigger] e[i].0@ != #[trigger] e[j].0@
}

/// Whether an entry holds the path
pub open spec fn has_path<T>(e: Seq<(String, T)>, k: Seq<char>) -> bool {
    exists|j: int| 0 <= j < e.len() && (#[trigger] e[j]).0@ == k
}

/// The handles that the entries hold, by their path
pub open spec fn entries_map<T>(e: Seq<(String, T)>) -> Map<Seq<char>, T> {
    Map::new(
        |k: Seq<char>| has_path(e, k),
        |k: Seq<char>| e[choose|j: int| 0 <= j < e.len() && (#[trigger] e[j]).0@ == k].1,
    )
}

/// The handle of an entry is the one that the map holds for its path
pub proof fn lemma_entry_value<T>(e: Seq<(String, T)>, j: int)
    requires
        paths_distinct(e),
        0 <= j < e.len(),
    ensures
        entries_map(e).dom().contains(e[j].0@),
        entries_map(e)[e[j].0@] == e[j].1,
{
    let k = e[j].0@;
    assert(has_path(e, k));
    let i = choose|i: int| 0 <= i < e.len() && (#[trigger] e[i]).0@ == k;
    assert(i == j);
}

/// The storages opened in this process: a handle of each, by its path
pub struct Pool<T> {
    entries: Vec<(String, T)>,
}

impl<T> Pool<T> {
    #[verifier::type_invariant]
    spec fn distinct(self) -> bool {
        paths_distinct(self.entries@)
    }
}

impl<T> View for Pool<T> {
    type V = Map<Seq<char>, T>;

    closed spec fn view(&self) -> Map<Seq<char>, T> {
        entries_map(self.entries@)
    }
}

impl<T> Pool<T> {
    /// A pool with no storage
    pub fn new() -> (r: Self)
        ensures
            r@ == Map::<Seq<char>, T>::empty(),
    {
        let r = Pool { entries: Vec::new() };
        assert(r@ =~= Map::<Seq<char>, T>::empty());
        r
    }

    /// The position of the entry of the path
    fn find(&self, path: &str) -> (r: Option<usize>)
        ensures
            r matches Some(j) ==> j < self.entries@.len() && self.entries@[j as int].0@ == path@,
            r is None ==> !has_path(self.entries@, path@),
    {
        let mut i: usize = 0;
        while i < self.entries.len()
            invariant
                i <= self.entries@.len(),
                forall|j: int| 0 <= j < i ==> (#[trigger] self.entries@[j]).0@ != path@,
            decreases self.entries@.len() - i,
        {
            if str_eq(self.entries[i].0.as_str(), path) {
                return Some(i);
            }
            i = i + 1;
        }
        None
    }

    /// The handle of the storage at the path, if the pool holds one
    pub fn get(&self, path: &str) -> (r: Option<&T>)
        ensures
            match r {
                Some(h) => self@.dom().contains(path@) && *h == self@[path@],
                None => !self@.dom().contains(path@),
            },
    {
        proof {
            use_type_invariant(self);
        }
        match self.find(path) {
            Some(j) => {
                proof {
                    lemma_entry_value(self.entries@, j as int);
                }
                Some(&self.entries[j].1)
            },
            None => None,
        }
    }

    /// Remember the handle of the storage at the path, in place of any other
    pub fn put(&mut self, path: String, handle: T)
        ensures
            final(self)@ == old(self)@.insert(path@, handle),
    {
        proof {
            use_type_invariant(&*self);
        }
        let ghost e = self.entries@;
        let ghost p = path@;
        match self.find(path.as_str()) {
            Some(j) => {
                let ghost e2 = e.update(j as int, (path, handle));
                proof {
                    assert forall|a: int, b: int| 0 <= a < e2.len() && 0 <= b < e2.len() && a != b implies #[trigger] e2[a].0@
                        != #[trigger] e2[b].0@ by {
                        assert(e2[a].0@ == e[a].0@);
                        assert(e2[b].0@ == e[b].0@);
                    }
                }
                let mut entries: Vec<(String, T)> = Vec::new();
                std::mem::swap(&mut entries, &mut self.entries);
                entries.set(j, (path, handle));
                self.entries = entries;
                proof {
                    assert(self.entries@ == e2);
                    assert forall|k: Seq<char>| #[trigger] has_path(e2, k) <==> has_path(e, k) by {
                        if has_path(e, k) {
                            let i = choose|i: int| 0 <= i < e.len() && (#[trigger] e[i]).0@ == k;
                            assert(e2[i].0@ == k);
                        }
                        if has_path(e2, k) {
                            let i = choose|i: int| 0 <= i < e2.len() && (#[trigger] e2[i]).0@ == k;
                            assert(e[i].0@ == k);
                        }
                    }
                    assert forall|k: Seq<char>| has_path(e, k) implies entries_map(e2)[k] == entries_map(e).insert(p, e2[j as int].1)[k] by {
                        let i = choose|i: int| 0 <= i < e.len() && (#[trigger] e[i]).0@ == k;
                        lemma_entry_value(e, i);
                        lemma_entry_value(e2, i);
                    }
                    lemma_entry_value(e, j as int);
                    assert(entries_map(e2) =~= entries_map(e).insert(p, e2[j as int].1));
                }
            },
            None => {
                let mut entries: Vec<(String, T)> = Vec::new();
                std::mem::swap(&mut entries, &mut self.entries);
                entries.push((path, handle));
                proof {
                    let e2 = entries@;
                    assert(e2 == e.push(e2.last()));
                    assert forall|a: int, b: int| 0 <= a < e2.len() && 0 <= b < e2.len() && a != b implies #[trigger] e2[a].0@
                        != #[trigger] e2[b].0@ by {
                        if a == e.len() {
                            assert(e[b].0@ == e2[b].0@);
                        } else if b == e.len() {
                            assert(e[a].0@ == e2[a].0@);
                        }
                    }
                    assert forall|k: Seq<char>| #[trigger] has_path(e2, k) <==> (has_path(e, k) || k == p) by {
                        if has_path(e, k) {
                            let i = choose|i: int| 0 <= i < e.len() && (#[trigger] e[i]).0@ == k;
                            assert(e2[i].0@ == k);
                        }
                        if k == p {
                            assert(e2[e.len() as int].0@ == k);
                        }
                    }
                    assert forall|k: Seq<char>| has_path(e, k) implies entries_map(e2)[k] == entries_map(e)[k] by {
                        let i = choose|i: int| 0 <= i < e.len() && (#[trigger] e[i]).0@ == k;
                        lemma_entry_value(e, i);
                        lemma_entry_value(e2, i);
                    }
                    lemma_entry_value(e2, e.len() as int);
                    assert(entries_map(e2) =~= entries_map(e).insert(p, e2.last().1));
                }
                self.entries = entries;
            },
        }
    }

    /// Forget the storage at the path
    pub fn del(&mut self, path: &str)
        ensures
            final(self)@ == old(self)@.remove(path@),
    {
        proof {
            use_type_invariant(&*self);
        }
        let ghost e = self.entries@;
        match self.find(path) {
            Some(j) => {
                let ghost e2 = e.remove(j as int);
                proof {
                    assert forall|a: int, b: int| 0 <= a < e2.len() && 0 <= b < e2.len() && a != b implies #[trigger] e2[a].0@
                        != #[trigger] e2[b].0@ by {
                        let a1 = if a < j { a } else { a + 1 };
                        let b1 = if b < j { b } else { b + 1 };
                        assert(e2[a] == e[a1]);
                        assert(e2[b] == e[b1]);
                    }
                }
                let mut entries: Vec<(String, T)> = Vec::new();
                std::mem::swap(&mut entries, &mut self.entries);
                let _gone = entries.remove(j);
                self.entries = entries;
                proof {
                    assert(self.entries@ == e2);
                    assert forall|k: Seq<char>| #[trigger] has_path(e2, k) <==> (has_path(e, k) && k != path@) by {
                        if has_path(e, k) && k != path@ {
                            let i = choose|i: int| 0 <= i < e.len() && (#[trigger] e[i]).0@ == k;
                            if i < j {
                                assert(e2[i] == e[i]);
                            } else {
                                assert(i != j);
                                assert(e2[i - 1] == e[i]);
                            }
                        }
                        if has_path(e2, k) {
                            let i = choose|i: int| 0 <= i < e2.len() && (#[trigger] e2[i]).0@ == k;
                            let i1 = if i < j { i } else { i + 1 };
                            assert(e2[i] == e[i1]);
                            assert(e[i1].0@ == k);
                        }
                    }
                    assert forall|k: Seq<char>| has_path(e2, k) implies entries_map(e2)[k] == entries_map(e)[k] by {
                        let i = choose|i: int| 0 <= i < e2.len() && (#[trigger] e2[i]).0@ == k;
                        let i1 = if i < j { i } else { i + 1 };
                        assert(e2[i] == e[i1]);
                        lemma_entry_value(e, i1);
                        lemma_entry_value(e2, i);
                    }
                    assert(entries_map(e2) =~= entries_map(e).remove(path@));
                }
            },
            None => {
                proof {
                    assert(entries_map(e) =~= entries_map(e).remove(path@));
                }
            },
        }
    }

    /// The paths of the storages that the pool holds, each once
    pub fn lst(&self) -> (r: Vec<String>)
        ensures
            forall|k: Seq<char>| self@.dom().contains(k) <==> exists|j: int| 0 <= j < r@.len() && (#[trigger] r@[j])@ == k,
            forall|a: int, b: int| 0 <= a < r@.len() && 0 <= b < r@.len() && a != b ==> (#[trigger] r@[a])@ != (#[trigger] r@[b])@,
    {
        proof {
            use_type_invariant(self);
        }
        let ghost e = self.entries@;
        let mut r: Vec<String> = Vec::new();
        let mut i: usize = 0;
        while i < self.entries.len()
            invariant
                i <= e.len(),
                e == self.entries@,
                paths_distinct(e),
                r@.len() == i,
                forall|j: int| 0 <= j < i ==> (#[trigger] r@[j])@ == e[j].0@,
            decreases e.len() - i,
        {
            r.push(self.entries[i].0.clone());
            i = i + 1;
        }
        proof {
            assert forall|k: Seq<char>| entries_map(e).dom().contains(k) implies exists|j: int| 0 <= j < r@.len() && (#[trigger] r@[j])@ == k by {
                let i = choose|i: int| 0 <= i < e.len() && (#[trigger] e[i]).0@ == k;
                assert(r@[i]@ == k);
            }
            assert forall|k: Seq<char>| (exists|j: int| 0 <= j < r@.len() && (#[trigger] r@[j])@ == k) implies entries_map(e).dom().contains(k) by {
                let i = choose|i: int| 0 <= i < r@.len() && (#[trigger] r@[i])@ == k;
                assert(e[i].0@ == k);
            }
            assert forall|a: int, b: int| 0 <= a < r@.len() && 0 <= b < r@.len() && a != b implies (#[trigger] r@[a])@ != (#[trigger] r@[b])@ by {
                assert(r@[a]@ == e[a].0@);
                assert(r@[b]@ == e[b].0@);
            }
        }
        r
    }
}

} // verus!
