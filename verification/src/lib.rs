//! Lightweight embedded document storage: the verified core.
//!
//! This crate holds the logic of the document store: key data and its
//! binary layout and order, selections of document identifiers and their
//! algebra, filters, orderings and modifiers of documents, the keys that an
//! index holds for a document and how they change, the bookkeeping of
//! collection and index definitions, what the document derive records of
//! a struct, the text forms of filters, modifier actions and query
//! statements, storage options, the pool of opened storages, and the
//! messages of the storage actor.

pub mod actor;
pub mod collection;
pub mod derive;
pub mod document;
pub mod enumerate;
pub mod error;
pub mod filter;
pub mod index;
pub mod modify;
pub mod pool;
pub mod query;
pub mod refine;
pub mod scope;
pub mod selection;
pub mod statement;
pub mod storage;
pub mod text;
pub mod types;
pub mod value;

pub use actor::{
    Delete, DeleteMsg, DropCollection, DropCollectionMsg, DropIndex, DropIndexMsg, EnsureCollection,
    EnsureCollectionMsg, EnsureIndex, EnsureIndexMsg, Find, FindMsg, Get, GetCollections, GetIndexes,
    GetIndexesMsg, GetInfo, GetMsg, GetStats, Insert, InsertMsg, Put, PutMsg, Remove, RemoveMsg,
    SetIndexes, SetIndexesMsg, Update, UpdateMsg,
};
pub use collection::{index_change, indexes_to_drop, next_id, CollectionDef, IndexChange};
pub use derive::{derive_document, DocumentImpl, FieldDef, KeySource, StructInput, StructShape};
pub use document::{RawDocument, Value};
pub use enumerate::{Enumerable, Serial, SerialGenerator};
pub use error::{Error, Result};
pub use filter::{Comp, Cond, Filter, IndexQuery, Order, OrderKind};
pub use index::{index_keys, index_update, query_keys, range_accepts, range_bound, range_skips, split_path, IndexDef, IndexUpdate};
pub use modify::{Action, ArithOp, Modify, Num, WrappedRegex};
pub use query::{
    parse_action, parse_comp, parse_filter, parse_index_kind, parse_key_type, parse_modify, parse_order, parse_where,
    ActionSyntax, Bord, CompSyntax, Dir, FilterSyntax, OrderSyntax, Orig, PointSyntax, ValSyntax,
};
pub use pool::Pool;
pub use refine::refine;
pub use statement::{extract, parse_extract, parse_query, parse_wrapped, DocSyntax, Extract, QueryPart, QuerySyntax};
pub use scope::{CollectionParams, DocumentWithId};
pub use selection::{Primary, Selection};
pub use storage::{DatabaseDef, Definitions, EnvFlags, Info, Options, Stats};
pub use types::{Document, DocumentKeyType, Identifier, IndexKind, KeyField, KeyFields, KeyType};
pub use value::{FloatCast, KeyData};
