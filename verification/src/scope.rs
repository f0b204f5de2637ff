use vstd::prelude::*;

use crate::document::Value;
use crate::selection::Primary;
use crate::types::Document;

verus! {

/// Collection parameters of a request
#[derive(Debug, Clone, PartialEq, Eq)]
pub struct CollectionParams {
    pub name: String,
}

/// A document with its identifier, as a reply sends it
#[derive(Debug)]
pub struct DocumentWithId {
    pub id: Primary,
    pub val: Value,
}

impl Document for DocumentWithId {}

} // verus!
