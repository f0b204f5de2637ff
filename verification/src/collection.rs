use vstd::prelude::*;

use crate::enumerate::{Enumerable, Serial};
use crate::selection::Primary;
use crate::text::to_text;
use crate::types::{str_eq, IndexKind, KeyField, KeyType};

verus! {

/// The definition of collection
#[derive(Debug, Clone, PartialEq, Eq)]
pub struct CollectionDef(
    /// Unique serial
    pub Serial,
    /// Collection name
    pub String,
);

impl CollectionDef {
    /// The definition of a collection named `name`
    pub fn new(name: &str) -> (d: Self)
        ensures
            d.0 == 0,
            d.1@ == name@,
    {
        CollectionDef(0, to_text(name))
    }
}

impl Enumerable for CollectionDef {
    open spec fn serial(&self) -> Serial {
        self.0
    }

    open spec fn same_body(self, other: Self) -> bool {
        self.1@ == other.1@
    }

    fn enumerate(&mut self, new_serial: Serial) {
        self.0 = new_serial;
    }
}

/// What ensuring an index on a field does, given the index on that field
/// that the collection has, if any
#[derive(Debug, Clone, Copy, PartialEq, Eq, Structural)]
pub enum IndexChange {
    /// The index is there with the asked kind and key type: nothing to do
    Keep,
    /// An index of another kind or key type is there: remove it, then create the asked one
    Replace,
    /// No index is there: create it
    Create,
}

/// Decide what ensuring an index of `kind` and `key` on a field does, given
/// the kind and key type of the index that the field has, if any
pub fn index_change(current: Option<(IndexKind, KeyType)>, kind: IndexKind, key: KeyType) -> (r: IndexChange)
    ensures
        current is None ==> r == IndexChange::Create,
        current matches Some((k, t)) ==> r == (if k == kind && t == key {
            IndexChange::Keep
        } else {
            IndexChange::Replace
        }),
{
    match current {
        Some((k, t)) => if k == kind && t == key {
            IndexChange::Keep
        } else {
            IndexChange::Replace
        },
        None => IndexChange::Create,
    }
}

/// The identifier of a new document: one past the last identifier in use
/// (zero where the collection is empty), so identifiers increase as documents come
pub fn next_id(last_id: Primary) -> (id: Primary)
    requires
        last_id < u32::MAX,
    ensures
        id == last_id + 1,
        id > last_id,
{
    last_id + 1
}

/// Whether one of the wanted fields has the path
pub open spec fn wanted_path(wanted: Seq<KeyField>, p: Seq<char>) -> bool {
    exists|j: int| 0 <= j < wanted.len() && #[trigger] wanted[j].path@ == p
}

/// The paths of the current indexed fields that none of the wanted fields
/// has, in order: the indexes to drop when the wanted ones are set
pub open spec fn dropped(current: Seq<KeyField>, wanted: Seq<KeyField>) -> Seq<Seq<char>>
    decreases current.len(),
{
    if current.len() == 0 {
        Seq::empty()
    } else {
        let r = dropped(current.drop_last(), wanted);
        let p = current.last().path@;
        if wanted_path(wanted, p) { r } else { r.push(p) }
    }
}

/// Whether one of the wanted fields has the path
fn is_wanted(wanted: &Vec<KeyField>, p: &String) -> (r: bool)
    ensures
        r == wanted_path(wanted@, p@),
{
    let mut j: usize = 0;
    while j < wanted.len()
        invariant
            j <= wanted@.len(),
            forall|k: int| 0 <= k < j ==> #[trigger] wanted@[k].path@ != p@,
        decreases wanted@.len() - j,
    {
        if str_eq(wanted[j].path.as_str(), p.as_str()) {
            assert(wanted@[j as int].path@ == p@);
            return true;
        }
        j = j + 1;
    }
    false
}

/// The paths of the current indexes that setting the wanted ones drops
pub fn indexes_to_drop(current: &Vec<KeyField>, wanted: &Vec<KeyField>) -> (r: Vec<String>)
    ensures
        r@.map_values(|s: String| s@) == dropped(current@, wanted@),
{
    let mut r: Vec<String> = Vec::new();
    let mut i: usize = 0;
    assert(current@.take(0) =~= Seq::<KeyField>::empty());
    assert(r@.map_values(|s: String| s@) =~= Seq::<Seq<char>>::empty());
    while i < current.len()
        invariant
            i <= current@.len(),
            r@.map_values(|s: String| s@) == dropped(current@.take(i as int), wanted@),
        decreases current@.len() - i,
    {
        let ghost before = r@;
        proof {
            assert(current@.take(i + 1).drop_last() =~= current@.take(i as int));
            assert(current@.take(i + 1).last() == current@[i as int]);
        }
        if !is_wanted(wanted, &current[i].path) {
            r.push(current[i].path.clone());
            assert(r@.map_values(|s: String| s@) =~= before.map_values(|s: String| s@).push(current@[i as int].path@));
        }
        i = i + 1;
    }
    assert(current@.take(current@.len() as int) =~= current@);
    r
}

} // verus!
