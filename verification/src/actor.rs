use std::marker::PhantomData;
use vstd::prelude::*;

use crate::filter::{Filter, Order};
use crate::modify::Modify;
use crate::selection::Primary;
use crate::types::{Identifier, IndexKind, KeyFields, KeyType};

verus! {

/// Get database stats
#[derive(Debug, Clone, Copy, PartialEq, Eq)]
pub struct GetStats;

/// Get database info
#[derive(Debug, Clone, Copy, PartialEq, Eq)]
pub struct GetInfo;

/// Get collections request
#[derive(Debug, Clone, Copy, PartialEq, Eq)]
pub struct GetCollections;

/// Ensure collection in storage
#[allow(non_snake_case)]
pub fn EnsureCollection<C: Into<Identifier>>(coll: C) -> (m: EnsureCollectionMsg)
    ensures
        call_ensures(C::into, (coll,), m.0),
{
    EnsureCollectionMsg(coll.into())
}

/// Ensure collection in storage (made by `EnsureCollection`)
#[derive(Debug, Clone, PartialEq, Eq)]
pub struct EnsureCollectionMsg(pub Identifier);

/// Drop collection from storage
#[allow(non_snake_case)]
pub fn DropCollection<C: Into<Identifier>>(coll: C) -> (m: DropCollectionMsg)
    ensures
        call_ensures(C::into, (coll,), m.0),
{
    DropCollectionMsg(coll.into())
}

/// Drop collection from storage (made by `DropCollection`)
#[derive(Debug, Clone, PartialEq, Eq)]
pub struct DropCollectionMsg(pub Identifier);

/// Get indexes of collection
#[allow(non_snake_case)]
pub fn GetIndexes<C: Into<Identifier>>(coll: C) -> (m: GetIndexesMsg)
    ensures
        call_ensures(C::into, (coll,), m.0),
{
    GetIndexesMsg(coll.into())
}

/// Get indexes of collection (made by `GetIndexes`)
#[derive(Debug, Clone, PartialEq, Eq)]
pub struct GetIndexesMsg(pub Identifier);

/// Set indexes of collection
#[allow(non_snake_case)]
pub fn SetIndexes<C: Into<Identifier>, I: Into<KeyFields>>(coll: C, indexes: I) -> (m: SetIndexesMsg)
    ensures
        call_ensures(C::into, (coll,), m.0),
        call_ensures(I::into, (indexes,), m.1),
{
    SetIndexesMsg(coll.into(), indexes.into())
}

/// Set indexes of collection (made by `SetIndexes`)
#[derive(Debug, Clone, PartialEq, Eq)]
pub struct SetIndexesMsg(pub Identifier, pub KeyFields);

/// Ensure new index for collection
#[allow(non_snake_case)]
pub fn EnsureIndex<C: Into<Identifier>, F: Into<Identifier>>(coll: C, field: F, kind: IndexKind, key: KeyType) -> (m: EnsureIndexMsg)
    ensures
        call_ensures(C::into, (coll,), m.0),
        call_ensures(F::into, (field,), m.1),
        m.2 == kind,
        m.3 == key,
{
    EnsureIndexMsg(coll.into(), field.into(), kind, key)
}

/// Ensure new index for collection (made by `EnsureIndex`)
#[derive(Debug, Clone, PartialEq, Eq)]
pub struct EnsureIndexMsg(pub Identifier, pub Identifier, pub IndexKind, pub KeyType);

/// Drop specific index from collection
#[allow(non_snake_case)]
pub fn DropIndex<C: Into<Identifier>, F: Into<Identifier>>(coll: C, field: F) -> (m: DropIndexMsg)
    ensures
        call_ensures(C::into, (coll,), m.0),
        call_ensures(F::into, (field,), m.1),
{
    DropIndexMsg(coll.into(), field.into())
}

/// Drop specific index from collection (made by `DropIndex`)
#[derive(Debug, Clone, PartialEq, Eq)]
pub struct DropIndexMsg(pub Identifier, pub Identifier);

/// Insert new document into collection
#[allow(non_snake_case)]
pub fn Insert<C: Into<Identifier>, T>(coll: C, data: T) -> (m: InsertMsg<T>)
    ensures
        call_ensures(C::into, (coll,), m.0),
        m.1 == data,
{
    InsertMsg(coll.into(), data)
}

/// Insert new document into collection (made by `Insert`)
#[derive(Debug, Clone, PartialEq, Eq)]
pub struct InsertMsg<T>(pub Identifier, pub T);

/// Get the previously inserted document by primary key
#[allow(non_snake_case)]
pub fn Get<C: Into<Identifier>, T>(coll: C, id: Primary) -> (m: GetMsg<T>)
    ensures
        call_ensures(C::into, (coll,), m.0),
        m.1 == id,
{
    GetMsg(coll.into(), id, PhantomData)
}

/// Get the previously inserted document by primary key (made by `Get`)
#[derive(Debug, PartialEq, Eq)]
pub struct GetMsg<T>(pub Identifier, pub Primary, pub PhantomData<T>);

impl<T> Clone for GetMsg<T> {
    fn clone(&self) -> (m: Self)
        ensures
            m.0 == self.0,
            m.1 == self.1,
    {
        GetMsg(self.0.clone(), self.1, PhantomData)
    }
}

/// Put new version of the previously inserted document
#[allow(non_snake_case)]
pub fn Put<C: Into<Identifier>, T>(coll: C, data: T) -> (m: PutMsg<T>)
    ensures
        call_ensures(C::into, (coll,), m.0),
        m.1 == data,
{
    PutMsg(coll.into(), data)
}

/// Put new version of the previously inserted document (made by `Put`)
#[derive(Debug, Clone, PartialEq, Eq)]
pub struct PutMsg<T>(pub Identifier, pub T);

/// Delete the previously inserted document
#[allow(non_snake_case)]
pub fn Delete<C: Into<Identifier>>(coll: C, id: Primary) -> (m: DeleteMsg)
    ensures
        call_ensures(C::into, (coll,), m.0),
        m.1 == id,
{
    DeleteMsg(coll.into(), id)
}

/// Delete the previously inserted document (made by `Delete`)
#[derive(Debug, Clone, PartialEq, Eq)]
pub struct DeleteMsg(pub Identifier, pub Primary);

/// Update documents using filter and modifier
#[allow(non_snake_case)]
pub fn Update<C: Into<Identifier>>(coll: C, filter: Option<Filter>, modify: Modify) -> (m: UpdateMsg)
    ensures
        call_ensures(C::into, (coll,), m.0),
        m.1 == filter,
        m.2 == modify,
{
    UpdateMsg(coll.into(), filter, modify)
}

/// Update documents using filter and modifier (made by `Update`)
#[derive(Debug)]
pub struct UpdateMsg(pub Identifier, pub Option<Filter>, pub Modify);

/// Remove documents using filter
#[allow(non_snake_case)]
pub fn Remove<C: Into<Identifier>>(coll: C, filter: Option<Filter>) -> (m: RemoveMsg)
    ensures
        call_ensures(C::into, (coll,), m.0),
        m.1 == filter,
{
    RemoveMsg(coll.into(), filter)
}

/// Remove documents using filter (made by `Remove`)
#[derive(Debug)]
pub struct RemoveMsg(pub Identifier, pub Option<Filter>);

/// Find documents using filter and ordering
#[allow(non_snake_case)]
pub fn Find<C: Into<Identifier>, T>(coll: C, filter: Option<Filter>, order: Order) -> (m: FindMsg<T>)
    ensures
        call_ensures(C::into, (coll,), m.0),
        m.1 == filter,
        m.2 == order,
{
    FindMsg(coll.into(), filter, order, PhantomData)
}

/// Find documents using filter and ordering (made by `Find`)
#[derive(Debug)]
pub struct FindMsg<T>(pub Identifier, pub Option<Filter>, pub Order, pub PhantomData<T>);

} // verus!
