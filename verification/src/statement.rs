use vstd::prelude::*;

use crate::error::Error;
use crate::filter::OrderKind;
use crate::query::{
    ch_is, expr_at, expr_at_pos, holds_at, ident_at, ident_at_pos, index_kind_at,
    index_kind_at_pos, key_type_at, key_type_at_pos, mod_items, mod_items_pos, mods_view, or_at, or_at_pos,
    order_kind_at, order_kind_at_pos, path_at, path_at_pos, skip_ws, skip_ws_at, soup_close, soup_close_at,
    syntax_error, text_range, word_at, word_at_pos, ActionSyntax, ActionTree, FilterSyntax, FilterTree,
    OrderSyntax, OrderTree,
};
use crate::text::{chars_of, to_text};
use crate::types::{IndexKind, KeyType};

verus! {

// The statements of the query language: `index for`, `find .. in`,
// `insert into`, `update in` and `remove from` a collection, each with the
// parts that its kind takes, and the part that a statement gives of a kind.

/// A document to insert: an object written out in braces, or an expression
pub enum DocTree {
    Json(Seq<char>),
    Expr(Seq<char>),
}

/// A statement of the query language
pub enum QueryTree {
    /// The collection, and its index fields: path, kind and key type each
    Index(Seq<char>, Seq<(Seq<char>, IndexKind, KeyType)>),
    /// The document type (`_` where none is named), the collection, the filter and the ordering
    Find(Seq<char>, Seq<char>, Option<FilterTree>, OrderTree),
    /// The collection and the document
    Insert(Seq<char>, DocTree),
    /// The collection, the filter and the modifier
    Update(Seq<char>, Option<FilterTree>, Seq<(Seq<char>, ActionTree)>),
    /// The collection and the filter
    Remove(Seq<char>, Option<FilterTree>),
}

/// Where the word `w` ends when it stands at `i`, after white space
pub open spec fn kw_at(s: Seq<char>, i: int, w: Seq<char>) -> Option<int> {
    let a = skip_ws(s, i);
    if word_at(s, a, w) {
        Some(a + w.len())
    } else {
        None
    }
}

/// The index fields from `i` on, after those in `acc`, and where they end:
/// a field path, a key type and an index kind (a plain index where none is
/// named) each, separated by commas; the list ends where no path follows
pub open spec fn index_fields(s: Seq<char>, i: int, acc: Seq<(Seq<char>, IndexKind, KeyType)>) -> Option<
    (Seq<(Seq<char>, IndexKind, KeyType)>, int),
>
    decreases s.len() - i,
{
    if i < 0 || i > s.len() {
        None
    } else {
        match path_at(s, i) {
            None => Some((acc, i)),
            Some((p, e)) => match key_type_at(s, e) {
                None => None,
                Some((k, e2)) => {
                    let (kind, e3) = match index_kind_at(s, e2) {
                        Some((x, e3)) => (x, e3),
                        None => (IndexKind::Index, e2),
                    };
                    let b = skip_ws(s, e3);
                    if b >= i && holds_at(s, b, ',') {
                        index_fields(s, b + 1, acc.push((p, kind, k)))
                    } else {
                        Some((acc.push((p, kind, k)), e3))
                    }
                },
            },
        }
    }
}

/// The ordering of a find statement at `i`: an order kind for the primary
/// key, or `by` a field path and an order kind, ascending where none is named
pub open spec fn find_order_at(s: Seq<char>, i: int) -> Option<(OrderTree, int)> {
    let a = skip_ws(s, i);
    if word_at(s, a, "by"@) {
        match path_at(s, a + 2) {
            Some((p, e)) => match order_kind_at(s, e) {
                Some((k, e2)) => Some((OrderTree::Field(p, k), e2)),
                None => Some((OrderTree::Field(p, OrderKind::Asc), e)),
            },
            None => None,
        }
    } else {
        match order_kind_at(s, a) {
            Some((k, e)) => Some((OrderTree::Primary(k), e)),
            None => None,
        }
    }
}

/// The ordering after `order` at `i`; by the primary key ascending where
/// no `order` stands there
pub open spec fn order_clause(s: Seq<char>, i: int) -> Option<(OrderTree, int)> {
    match kw_at(s, i, "order"@) {
        Some(b) => find_order_at(s, b),
        None => Some((OrderTree::Primary(OrderKind::Asc), i)),
    }
}

/// The filter after `where` at `i`; none where no `where` stands there
pub open spec fn where_clause(s: Seq<char>, i: int) -> Option<(Option<FilterTree>, int)> {
    match kw_at(s, i, "where"@) {
        Some(b) => match or_at(s, b) {
            Some((f, e)) => Some((Some(f), e)),
            None => None,
        },
        None => Some((None, i)),
    }
}

/// The modifier after `modify` at `i`: at least one field path with its action
pub open spec fn modify_clause(s: Seq<char>, i: int) -> Option<(Seq<(Seq<char>, ActionTree)>, int)> {
    match kw_at(s, i, "modify"@) {
        Some(b) => match mod_items(s, b, Seq::empty()) {
            Some((m, e)) => if m.len() > 0 {
                Some((m, e))
            } else {
                None
            },
            None => None,
        },
        None => None,
    }
}

/// The document at `i`: an object in braces, or an expression
pub open spec fn doc_at(s: Seq<char>, i: int) -> Option<(DocTree, int)> {
    let a = skip_ws(s, i);
    if holds_at(s, a, '{') {
        match soup_close(s, a + 1, 0) {
            Some(e) => Some((DocTree::Json(s.subrange(a, e)), e)),
            None => None,
        }
    } else {
        match expr_at(s, a, false, false) {
            Some((x, e)) => Some((DocTree::Expr(x), e)),
            None => None,
        }
    }
}

/// The rest of an index statement after `index` at `i`: `for`, the
/// collection and its index fields
pub open spec fn index_at(s: Seq<char>, i: int) -> Option<(QueryTree, int)> {
    match kw_at(s, i, "for"@) {
        Some(b) => match ident_at(s, b) {
            Some((c, e)) => match index_fields(s, e, Seq::empty()) {
                Some((fs, e2)) => Some((QueryTree::Index(c, fs), e2)),
                None => None,
            },
            None => None,
        },
        None => None,
    }
}

/// The rest of a find statement after `find` at `i`: an optional document
/// type, `in`, the collection, an optional `where` filter and an optional
/// `order` ordering
pub open spec fn find_at(s: Seq<char>, i: int) -> Option<(QueryTree, int)> {
    let head = match kw_at(s, i, "in"@) {
        Some(b) => Some(("_"@, b)),
        None => match ident_at(s, i) {
            Some((t, e)) => match kw_at(s, e, "in"@) {
                Some(b) => Some((t, b)),
                None => None,
            },
            None => None,
        },
    };
    match head {
        Some((t, b)) => match ident_at(s, b) {
            Some((c, e)) => match where_clause(s, e) {
                Some((f, e2)) => match order_clause(s, e2) {
                    Some((o, e3)) => Some((QueryTree::Find(t, c, f, o), e3)),
                    None => None,
                },
                None => None,
            },
            None => None,
        },
        None => None,
    }
}

/// The rest of an insert statement after `insert` at `i`: `into`, the
/// collection and the document
pub open spec fn insert_at(s: Seq<char>, i: int) -> Option<(QueryTree, int)> {
    match kw_at(s, i, "into"@) {
        Some(b) => match ident_at(s, b) {
            Some((c, e)) => match doc_at(s, e) {
                Some((d, e2)) => Some((QueryTree::Insert(c, d), e2)),
                None => None,
            },
            None => None,
        },
        None => None,
    }
}

/// The rest of an update statement after `update` at `i`: `in`, the
/// collection, and the `modify` modifier with an optional `where` filter,
/// in either order
pub open spec fn update_at(s: Seq<char>, i: int) -> Option<(QueryTree, int)> {
    match kw_at(s, i, "in"@) {
        Some(b) => match ident_at(s, b) {
            Some((c, e)) => if kw_at(s, e, "modify"@) is Some {
                match modify_clause(s, e) {
                    Some((m, e2)) => match where_clause(s, e2) {
                        Some((f, e3)) => Some((QueryTree::Update(c, f, m), e3)),
                        None => None,
                    },
                    None => None,
                }
            } else if kw_at(s, e, "where"@) is Some {
                match where_clause(s, e) {
                    Some((f, e2)) => match modify_clause(s, e2) {
                        Some((m, e3)) => Some((QueryTree::Update(c, f, m), e3)),
                        None => None,
                    },
                    None => None,
                }
            } else {
                None
            },
            None => None,
        },
        None => None,
    }
}

/// The rest of a remove statement after `remove` at `i`: `from`, the
/// collection and an optional `where` filter
pub open spec fn remove_at(s: Seq<char>, i: int) -> Option<(QueryTree, int)> {
    match kw_at(s, i, "from"@) {
        Some(b) => match ident_at(s, b) {
            Some((c, e)) => match where_clause(s, e) {
                Some((f, e2)) => Some((QueryTree::Remove(c, f), e2)),
                None => None,
            },
            None => None,
        },
        None => None,
    }
}

/// The statement at `i` and where it ends
pub open spec fn query_at(s: Seq<char>, i: int) -> Option<(QueryTree, int)> {
    if kw_at(s, i, "index"@) is Some {
        index_at(s, kw_at(s, i, "index"@).unwrap())
    } else if kw_at(s, i, "find"@) is Some {
        find_at(s, kw_at(s, i, "find"@).unwrap())
    } else if kw_at(s, i, "insert"@) is Some {
        insert_at(s, kw_at(s, i, "insert"@).unwrap())
    } else if kw_at(s, i, "update"@) is Some {
        update_at(s, kw_at(s, i, "update"@).unwrap())
    } else if kw_at(s, i, "remove"@) is Some {
        remove_at(s, kw_at(s, i, "remove"@).unwrap())
    } else {
        None
    }
}

/// The statement at the start of the text and where it ends: `index for`
/// a collection and its fields, `find` documents `in` a collection,
/// `insert into` a collection a document, `update in` a collection, or
/// `remove from` a collection
pub open spec fn query_grammar(s: Seq<char>) -> Option<(QueryTree, int)> {
    query_at(s, 0)
}

/// The part of a statement that is asked for
#[derive(Debug, Clone, Copy, PartialEq, Eq, Structural)]
pub enum Extract {
    DocumentType,
    Collection,
    CollectionName,
    Fields,
    Filter,
    Order,
    Modify,
    Document,
}

/// A part of a statement
pub enum PartTree {
    DocumentType(Seq<char>),
    Collection(Seq<char>),
    CollectionName(Seq<char>),
    Fields(Seq<(Seq<char>, IndexKind, KeyType)>),
    Filter(FilterTree),
    Order(OrderTree),
    Modify(Seq<(Seq<char>, ActionTree)>),
    Document(DocTree),
}

/// The filter part, where the statement has a filter
pub open spec fn filter_part(f: Option<FilterTree>) -> Option<PartTree> {
    match f {
        Some(g) => Some(PartTree::Filter(g)),
        None => None,
    }
}

/// The part of the kind asked for that the statement gives: the collection
/// and its name of every statement, the fields of an index statement, the
/// document type and ordering of a find statement, its filter where it has
/// one, the filter (where there is one) and the modifier of an update
/// statement, the filter of a remove statement (where there is one), and the
/// document of an insert statement; none of any other kind
pub open spec fn extracted(kind: Extract, q: QueryTree) -> Option<PartTree> {
    match q {
        QueryTree::Index(c, fs) => match kind {
            Extract::Collection => Some(PartTree::Collection(c)),
            Extract::CollectionName => Some(PartTree::CollectionName(c)),
            Extract::Fields => Some(PartTree::Fields(fs)),
            _ => None,
        },
        QueryTree::Find(t, c, f, o) => match kind {
            Extract::DocumentType => Some(PartTree::DocumentType(t)),
            Extract::Collection => Some(PartTree::Collection(c)),
            Extract::CollectionName => Some(PartTree::CollectionName(c)),
            Extract::Filter => filter_part(f),
            Extract::Order => Some(PartTree::Order(o)),
            _ => None,
        },
        QueryTree::Insert(c, d) => match kind {
            Extract::Collection => Some(PartTree::Collection(c)),
            Extract::CollectionName => Some(PartTree::CollectionName(c)),
            Extract::Document => Some(PartTree::Document(d)),
            _ => None,
        },
        QueryTree::Update(c, f, m) => match kind {
            Extract::Collection => Some(PartTree::Collection(c)),
            Extract::CollectionName => Some(PartTree::CollectionName(c)),
            Extract::Filter => filter_part(f),
            Extract::Modify => Some(PartTree::Modify(m)),
            _ => None,
        },
        QueryTree::Remove(c, f) => match kind {
            Extract::Collection => Some(PartTree::Collection(c)),
            Extract::CollectionName => Some(PartTree::CollectionName(c)),
            Extract::Filter => filter_part(f),
            _ => None,
        },
    }
}

/// The kind of part that the word at `i` names (`DOCUMENT_TYPE`,
/// `COLLECTION`, `COLLECTION_NAME`, `FIELDS`, `FILTER`, `ORDER`, `MODIFY`,
/// `DOCUMENT`) and where it ends
pub open spec fn extract_kind_at(s: Seq<char>, i: int) -> Option<(Extract, int)> {
    if kw_at(s, i, "DOCUMENT_TYPE"@) is Some {
        Some((Extract::DocumentType, kw_at(s, i, "DOCUMENT_TYPE"@).unwrap()))
    } else if kw_at(s, i, "COLLECTION"@) is Some {
        Some((Extract::Collection, kw_at(s, i, "COLLECTION"@).unwrap()))
    } else if kw_at(s, i, "COLLECTION_NAME"@) is Some {
        Some((Extract::CollectionName, kw_at(s, i, "COLLECTION_NAME"@).unwrap()))
    } else if kw_at(s, i, "FIELDS"@) is Some {
        Some((Extract::Fields, kw_at(s, i, "FIELDS"@).unwrap()))
    } else if kw_at(s, i, "FILTER"@) is Some {
        Some((Extract::Filter, kw_at(s, i, "FILTER"@).unwrap()))
    } else if kw_at(s, i, "ORDER"@) is Some {
        Some((Extract::Order, kw_at(s, i, "ORDER"@).unwrap()))
    } else if kw_at(s, i, "MODIFY"@) is Some {
        Some((Extract::Modify, kw_at(s, i, "MODIFY"@).unwrap()))
    } else if kw_at(s, i, "DOCUMENT"@) is Some {
        Some((Extract::Document, kw_at(s, i, "DOCUMENT"@).unwrap()))
    } else {
        None
    }
}

/// A kind of part, a comma and a statement at the start of the text, and
/// where they end
pub open spec fn extract_grammar(s: Seq<char>) -> Option<(Extract, QueryTree, int)> {
    match extract_kind_at(s, 0) {
        Some((k, e)) => {
            let b = skip_ws(s, e);
            if holds_at(s, b, ',') {
                match query_at(s, b + 1) {
                    Some((q, e2)) => Some((k, q, e2)),
                    None => None,
                }
            } else {
                None
            }
        },
        None => None,
    }
}


/// A callback's name, a comma and a statement at the start of the text, and
/// where they end
pub open spec fn wrapped_grammar(s: Seq<char>) -> Option<(Seq<char>, QueryTree, int)> {
    match ident_at(s, 0) {
        Some((cb, e)) => {
            let b = skip_ws(s, e);
            if holds_at(s, b, ',') {
                match query_at(s, b + 1) {
                    Some((q, e2)) => Some((cb, q, e2)),
                    None => None,
                }
            } else {
                None
            }
        },
        None => None,
    }
}

/// A document to insert, as text
#[derive(Debug, PartialEq, Eq)]
pub enum DocSyntax {
    Json(String),
    Expr(String),
}

impl View for DocSyntax {
    type V = DocTree;

    open spec fn view(&self) -> DocTree {
        match self {
            DocSyntax::Json(x) => DocTree::Json(x@),
            DocSyntax::Expr(x) => DocTree::Expr(x@),
        }
    }
}

/// The index fields that their text forms stand for
pub open spec fn fields_view(v: Seq<(String, IndexKind, KeyType)>) -> Seq<(Seq<char>, IndexKind, KeyType)> {
    v.map_values(|e: (String, IndexKind, KeyType)| (e.0@, e.1, e.2))
}

/// The filter that an optional text form stands for
pub open spec fn opt_filter(f: Option<FilterSyntax>) -> Option<FilterTree> {
    match f {
        Some(g) => Some(g@),
        None => None,
    }
}

/// A statement of the query language, as text
#[derive(Debug, PartialEq, Eq)]
pub enum QuerySyntax {
    /// The collection, and its index fields: path, kind and key type each
    Index(String, Vec<(String, IndexKind, KeyType)>),
    /// The document type, the collection, the filter and the ordering
    Find(String, String, Option<FilterSyntax>, OrderSyntax),
    /// The collection and the document
    Insert(String, DocSyntax),
    /// The collection, the filter and the modifier
    Update(String, Option<FilterSyntax>, Vec<(String, ActionSyntax)>),
    /// The collection and the filter
    Remove(String, Option<FilterSyntax>),
}

impl View for QuerySyntax {
    type V = QueryTree;

    open spec fn view(&self) -> QueryTree {
        match self {
            QuerySyntax::Index(c, fs) => QueryTree::Index(c@, fields_view(fs@)),
            QuerySyntax::Find(t, c, f, o) => QueryTree::Find(t@, c@, opt_filter(*f), o@),
            QuerySyntax::Insert(c, d) => QueryTree::Insert(c@, d@),
            QuerySyntax::Update(c, f, m) => QueryTree::Update(c@, opt_filter(*f), mods_view(m@)),
            QuerySyntax::Remove(c, f) => QueryTree::Remove(c@, opt_filter(*f)),
        }
    }
}

/// A part of a statement, as text
#[derive(Debug, PartialEq, Eq)]
pub enum QueryPart {
    DocumentType(String),
    Collection(String),
    CollectionName(String),
    Fields(Vec<(String, IndexKind, KeyType)>),
    Filter(FilterSyntax),
    Order(OrderSyntax),
    Modify(Vec<(String, ActionSyntax)>),
    Document(DocSyntax),
}

impl View for QueryPart {
    type V = PartTree;

    open spec fn view(&self) -> PartTree {
        match self {
            QueryPart::DocumentType(x) => PartTree::DocumentType(x@),
            QueryPart::Collection(x) => PartTree::Collection(x@),
            QueryPart::CollectionName(x) => PartTree::CollectionName(x@),
            QueryPart::Fields(fs) => PartTree::Fields(fields_view(fs@)),
            QueryPart::Filter(f) => PartTree::Filter(f@),
            QueryPart::Order(o) => PartTree::Order(o@),
            QueryPart::Modify(m) => PartTree::Modify(mods_view(m@)),
            QueryPart::Document(d) => PartTree::Document(d@),
        }
    }
}

/// The part that an optional text form stands for
pub open spec fn opt_part(p: Option<QueryPart>) -> Option<PartTree> {
    match p {
        Some(x) => Some(x@),
        None => None,
    }
}

/// Where the word `w` ends when it stands at `i`
fn kw_at_pos(v: &Vec<char>, i: usize, w: &str) -> (r: Option<usize>)
    requires
        i <= v@.len(),
    ensures
        r is Some <==> kw_at(v@, i as int, w@) is Some,
        r matches Some(e) ==> kw_at(v@, i as int, w@) == Some(e as int) && e <= v@.len(),
{
    let a = skip_ws_at(v, i);
    if word_at_pos(v, a, w) {
        let n = chars_of(w).len();
        Some(a + n)
    } else {
        None
    }
}

/// The index fields from `i` on, and where they end
fn index_fields_pos(v: &Vec<char>, i: usize) -> (r: Option<(Vec<(String, IndexKind, KeyType)>, usize)>)
    requires
        i <= v@.len(),
    ensures
        r is Some <==> index_fields(v@, i as int, Seq::empty()) is Some,
        r matches Some((fs, e)) ==> (fields_view(fs@), e as int) == index_fields(v@, i as int, Seq::empty()).unwrap()
            && e <= v@.len(),
{
    let mut acc: Vec<(String, IndexKind, KeyType)> = Vec::new();
    let mut j = i;
    assert(fields_view(acc@) =~= Seq::<(Seq<char>, IndexKind, KeyType)>::empty());
    loop
        invariant
            i <= j <= v@.len(),
            index_fields(v@, i as int, Seq::empty()) == index_fields(v@, j as int, fields_view(acc@)),
        decreases v@.len() - j,
    {
        let (p, e) = match path_at_pos(v, j) {
            Some(x) => x,
            None => {
                return Some((acc, j));
            },
        };
        let (k, e2) = match key_type_at_pos(v, e) {
            Some(x) => x,
            None => {
                return None;
            },
        };
        let (kind, e3) = match index_kind_at_pos(v, e2) {
            Some(x) => x,
            None => (IndexKind::Index, e2),
        };
        let b = skip_ws_at(v, e3);
        let ghost before = acc@;
        let ghost item = (p@, kind, k);
        acc.push((p, kind, k));
        assert(fields_view(acc@) =~= fields_view(before).push(item));
        if b >= j && ch_is(v, b, ',') {
            j = b + 1;
        } else {
            return Some((acc, e3));
        }
    }
}

/// The ordering of a find statement at `i` and where it ends
fn find_order_at_pos(v: &Vec<char>, i: usize) -> (r: Option<(OrderSyntax, usize)>)
    requires
        i <= v@.len(),
    ensures
        r is Some <==> find_order_at(v@, i as int) is Some,
        r matches Some((o, e)) ==> (o@, e as int) == find_order_at(v@, i as int).unwrap() && e <= v@.len(),
{
    let a = skip_ws_at(v, i);
    proof {
        reveal_strlit("by");
    }
    if word_at_pos(v, a, "by") {
        match path_at_pos(v, a + 2) {
            Some((p, e)) => match order_kind_at_pos(v, e) {
                Some((k, e2)) => Some((OrderSyntax::Field(p, k), e2)),
                None => Some((OrderSyntax::Field(p, OrderKind::Asc), e)),
            },
            None => None,
        }
    } else {
        match order_kind_at_pos(v, a) {
            Some((k, e)) => Some((OrderSyntax::Primary(k), e)),
            None => None,
        }
    }
}

/// The ordering after `order` at `i`, and where it ends
fn order_clause_pos(v: &Vec<char>, i: usize) -> (r: Option<(OrderSyntax, usize)>)
    requires
        i <= v@.len(),
    ensures
        r is Some <==> order_clause(v@, i as int) is Some,
        r matches Some((o, e)) ==> (o@, e as int) == order_clause(v@, i as int).unwrap() && e <= v@.len(),
{
    match kw_at_pos(v, i, "order") {
        Some(b) => find_order_at_pos(v, b),
        None => Some((OrderSyntax::Primary(OrderKind::Asc), i)),
    }
}

/// The filter after `where` at `i`, and where it ends
fn where_clause_pos(v: &Vec<char>, i: usize) -> (r: Option<(Option<FilterSyntax>, usize)>)
    requires
        i <= v@.len(),
    ensures
        r is Some <==> where_clause(v@, i as int) is Some,
        r matches Some((f, e)) ==> (opt_filter(f), e as int) == where_clause(v@, i as int).unwrap() && e <= v@.len(),
{
    match kw_at_pos(v, i, "where") {
        Some(b) => match or_at_pos(v, b) {
            Some((f, e)) => Some((Some(f), e)),
            None => None,
        },
        None => Some((None, i)),
    }
}

/// The modifier after `modify` at `i`, and where it ends
fn modify_clause_pos(v: &Vec<char>, i: usize) -> (r: Option<(Vec<(String, ActionSyntax)>, usize)>)
    requires
        i <= v@.len(),
    ensures
        r is Some <==> modify_clause(v@, i as int) is Some,
        r matches Some((m, e)) ==> (mods_view(m@), e as int) == modify_clause(v@, i as int).unwrap() && e <= v@.len(),
{
    match kw_at_pos(v, i, "modify") {
        Some(b) => match mod_items_pos(v, b) {
            Some((m, e)) => if m.len() > 0 {
                Some((m, e))
            } else {
                None
            },
            None => None,
        },
        None => None,
    }
}

/// The document at `i`, and where it ends
fn doc_at_pos(v: &Vec<char>, i: usize) -> (r: Option<(DocSyntax, usize)>)
    requires
        i <= v@.len(),
    ensures
        r is Some <==> doc_at(v@, i as int) is Some,
        r matches Some((d, e)) ==> (d@, e as int) == doc_at(v@, i as int).unwrap() && e <= v@.len(),
{
    let a = skip_ws_at(v, i);
    if ch_is(v, a, '{') {
        match soup_close_at(v, a + 1) {
            Some(e) => Some((DocSyntax::Json(text_range(v, a, e)), e)),
            None => None,
        }
    } else {
        match expr_at_pos(v, a, false, false) {
            Some((x, e)) => {
                proof {
                    lemma_skip_ws_again(v@, i as int);
                }
                Some((DocSyntax::Expr(x), e))
            },
            None => {
                proof {
                    lemma_skip_ws_again(v@, i as int);
                }
                None
            },
        }
    }
}

/// Skipping white space again past where it was skipped moves no further
proof fn lemma_skip_ws_again(s: Seq<char>, i: int)
    requires
        0 <= i <= s.len(),
    ensures
        skip_ws(s, skip_ws(s, i)) == skip_ws(s, i),
{
    crate::query::lemma_skip_ws_idem(s, i);
}

/// The rest of an index statement at `i`, and where it ends
fn index_at_pos(v: &Vec<char>, i: usize) -> (r: Option<(QuerySyntax, usize)>)
    requires
        i <= v@.len(),
    ensures
        r is Some <==> index_at(v@, i as int) is Some,
        r matches Some((q, e)) ==> (q@, e as int) == index_at(v@, i as int).unwrap() && e <= v@.len(),
{
    match kw_at_pos(v, i, "for") {
        Some(b) => match ident_at_pos(v, b) {
            Some((c, e)) => match index_fields_pos(v, e) {
                Some((fs, e2)) => Some((QuerySyntax::Index(c, fs), e2)),
                None => None,
            },
            None => None,
        },
        None => None,
    }
}

/// The rest of a find statement at `i`, and where it ends
fn find_at_pos(v: &Vec<char>, i: usize) -> (r: Option<(QuerySyntax, usize)>)
    requires
        i <= v@.len(),
    ensures
        r is Some <==> find_at(v@, i as int) is Some,
        r matches Some((q, e)) ==> (q@, e as int) == find_at(v@, i as int).unwrap() && e <= v@.len(),
{
    let head = match kw_at_pos(v, i, "in") {
        Some(b) => Some((to_text("_"), b)),
        None => match ident_at_pos(v, i) {
            Some((t, e)) => match kw_at_pos(v, e, "in") {
                Some(b) => Some((t, b)),
                None => None,
            },
            None => None,
        },
    };
    let (t, b) = match head {
        Some(x) => x,
        None => {
            return None;
        },
    };
    match ident_at_pos(v, b) {
        Some((c, e)) => match where_clause_pos(v, e) {
            Some((f, e2)) => match order_clause_pos(v, e2) {
                Some((o, e3)) => Some((QuerySyntax::Find(t, c, f, o), e3)),
                None => None,
            },
            None => None,
        },
        None => None,
    }
}

/// The rest of an insert statement at `i`, and where it ends
fn insert_at_pos(v: &Vec<char>, i: usize) -> (r: Option<(QuerySyntax, usize)>)
    requires
        i <= v@.len(),
    ensures
        r is Some <==> insert_at(v@, i as int) is Some,
        r matches Some((q, e)) ==> (q@, e as int) == insert_at(v@, i as int).unwrap() && e <= v@.len(),
{
    match kw_at_pos(v, i, "into") {
        Some(b) => match ident_at_pos(v, b) {
            Some((c, e)) => match doc_at_pos(v, e) {
                Some((d, e2)) => Some((QuerySyntax::Insert(c, d), e2)),
                None => None,
            },
            None => None,
        },
        None => None,
    }
}

/// The rest of an update statement at `i`, and where it ends
fn update_at_pos(v: &Vec<char>, i: usize) -> (r: Option<(QuerySyntax, usize)>)
    requires
        i <= v@.len(),
    ensures
        r is Some <==> update_at(v@, i as int) is Some,
        r matches Some((q, e)) ==> (q@, e as int) == update_at(v@, i as int).unwrap() && e <= v@.len(),
{
    let (c, e) = match kw_at_pos(v, i, "in") {
        Some(b) => match ident_at_pos(v, b) {
            Some(x) => x,
            None => {
                return None;
            },
        },
        None => {
            return None;
        },
    };
    if kw_at_pos(v, e, "modify").is_some() {
        match modify_clause_pos(v, e) {
            Some((m, e2)) => match where_clause_pos(v, e2) {
                Some((f, e3)) => Some((QuerySyntax::Update(c, f, m), e3)),
                None => None,
            },
            None => None,
        }
    } else if kw_at_pos(v, e, "where").is_some() {
        match where_clause_pos(v, e) {
            Some((f, e2)) => match modify_clause_pos(v, e2) {
                Some((m, e3)) => Some((QuerySyntax::Update(c, f, m), e3)),
                None => None,
            },
            None => None,
        }
    } else {
        None
    }
}

/// The rest of a remove statement at `i`, and where it ends
fn remove_at_pos(v: &Vec<char>, i: usize) -> (r: Option<(QuerySyntax, usize)>)
    requires
        i <= v@.len(),
    ensures
        r is Some <==> remove_at(v@, i as int) is Some,
        r matches Some((q, e)) ==> (q@, e as int) == remove_at(v@, i as int).unwrap() && e <= v@.len(),
{
    match kw_at_pos(v, i, "from") {
        Some(b) => match ident_at_pos(v, b) {
            Some((c, e)) => match where_clause_pos(v, e) {
                Some((f, e2)) => Some((QuerySyntax::Remove(c, f), e2)),
                None => None,
            },
            None => None,
        },
        None => None,
    }
}

/// The statement at `i`, and where it ends
fn query_at_pos(v: &Vec<char>, i: usize) -> (r: Option<(QuerySyntax, usize)>)
    requires
        i <= v@.len(),
    ensures
        r is Some <==> query_at(v@, i as int) is Some,
        r matches Some((q, e)) ==> (q@, e as int) == query_at(v@, i as int).unwrap() && e <= v@.len(),
{
    if let Some(b) = kw_at_pos(v, i, "index") {
        index_at_pos(v, b)
    } else if let Some(b) = kw_at_pos(v, i, "find") {
        find_at_pos(v, b)
    } else if let Some(b) = kw_at_pos(v, i, "insert") {
        insert_at_pos(v, b)
    } else if let Some(b) = kw_at_pos(v, i, "update") {
        update_at_pos(v, b)
    } else if let Some(b) = kw_at_pos(v, i, "remove") {
        remove_at_pos(v, b)
    } else {
        None
    }
}

/// The statement at the start of the text and the position where it ends;
/// an error where the text does not start with one
pub fn parse_query(src: &str) -> (r: Result<(QuerySyntax, usize), Error>)
    ensures
        r is Ok <==> query_grammar(src@) is Some,
        r matches Ok((q, n)) ==> (q@, n as int) == query_grammar(src@).unwrap() && n <= src@.len(),
        r matches Err(e) ==> e.message@ == "Invalid query"@,
{
    let v = chars_of(src);
    match query_at_pos(&v, 0) {
        Some(x) => Ok(x),
        None => Err(syntax_error("Invalid query")),
    }
}

/// The part of the kind asked for that the statement gives, where it gives one
pub fn extract(kind: Extract, q: QuerySyntax) -> (r: Option<QueryPart>)
    ensures
        opt_part(r) == extracted(kind, q@),
{
    match q {
        QuerySyntax::Index(c, fs) => match kind {
            Extract::Collection => Some(QueryPart::Collection(c)),
            Extract::CollectionName => Some(QueryPart::CollectionName(c)),
            Extract::Fields => Some(QueryPart::Fields(fs)),
            _ => None,
        },
        QuerySyntax::Find(t, c, f, o) => match kind {
            Extract::DocumentType => Some(QueryPart::DocumentType(t)),
            Extract::Collection => Some(QueryPart::Collection(c)),
            Extract::CollectionName => Some(QueryPart::CollectionName(c)),
            Extract::Filter => match f {
                Some(g) => Some(QueryPart::Filter(g)),
                None => None,
            },
            Extract::Order => Some(QueryPart::Order(o)),
            _ => None,
        },
        QuerySyntax::Insert(c, d) => match kind {
            Extract::Collection => Some(QueryPart::Collection(c)),
            Extract::CollectionName => Some(QueryPart::CollectionName(c)),
            Extract::Document => Some(QueryPart::Document(d)),
            _ => None,
        },
        QuerySyntax::Update(c, f, m) => match kind {
            Extract::Collection => Some(QueryPart::Collection(c)),
            Extract::CollectionName => Some(QueryPart::CollectionName(c)),
            Extract::Filter => match f {
                Some(g) => Some(QueryPart::Filter(g)),
                None => None,
            },
            Extract::Modify => Some(QueryPart::Modify(m)),
            _ => None,
        },
        QuerySyntax::Remove(c, f) => match kind {
            Extract::Collection => Some(QueryPart::Collection(c)),
            Extract::CollectionName => Some(QueryPart::CollectionName(c)),
            Extract::Filter => match f {
                Some(g) => Some(QueryPart::Filter(g)),
                None => None,
            },
            _ => None,
        },
    }
}

/// The kind of part that the word at `i` names, and where it ends
fn extract_kind_at_pos(v: &Vec<char>, i: usize) -> (r: Option<(Extract, usize)>)
    requires
        i <= v@.len(),
    ensures
        r is Some <==> extract_kind_at(v@, i as int) is Some,
        r matches Some((k, e)) ==> (k, e as int) == extract_kind_at(v@, i as int).unwrap() && e <= v@.len(),
{
    if let Some(e) = kw_at_pos(v, i, "DOCUMENT_TYPE") {
        Some((Extract::DocumentType, e))
    } else if let Some(e) = kw_at_pos(v, i, "COLLECTION") {
        Some((Extract::Collection, e))
    } else if let Some(e) = kw_at_pos(v, i, "COLLECTION_NAME") {
        Some((Extract::CollectionName, e))
    } else if let Some(e) = kw_at_pos(v, i, "FIELDS") {
        Some((Extract::Fields, e))
    } else if let Some(e) = kw_at_pos(v, i, "FILTER") {
        Some((Extract::Filter, e))
    } else if let Some(e) = kw_at_pos(v, i, "ORDER") {
        Some((Extract::Order, e))
    } else if let Some(e) = kw_at_pos(v, i, "MODIFY") {
        Some((Extract::Modify, e))
    } else if let Some(e) = kw_at_pos(v, i, "DOCUMENT") {
        Some((Extract::Document, e))
    } else {
        None
    }
}

/// The kind of part, a comma and the statement at the start of the text,
/// and the position where they end; an error where the text does not start
/// with them
pub fn parse_extract(src: &str) -> (r: Result<(Extract, QuerySyntax, usize), Error>)
    ensures
        r is Ok <==> extract_grammar(src@) is Some,
        r matches Ok((k, q, n)) ==> (k, q@, n as int) == extract_grammar(src@).unwrap() && n <= src@.len(),
        r matches Err(e) ==> e.message@ == "Invalid query"@,
{
    let v = chars_of(src);
    let (k, e) = match extract_kind_at_pos(&v, 0) {
        Some(x) => x,
        None => {
            return Err(syntax_error("Invalid query"));
        },
    };
    let b = skip_ws_at(&v, e);
    if !ch_is(&v, b, ',') {
        return Err(syntax_error("Invalid query"));
    }
    match query_at_pos(&v, b + 1) {
        Some((q, e2)) => Ok((k, q, e2)),
        None => Err(syntax_error("Invalid query")),
    }
}


/// A callback's name, a comma and the statement at the start of the text,
/// and the position where they end; an error where the text does not start
/// with them
pub fn parse_wrapped(src: &str) -> (r: Result<(String, QuerySyntax, usize), Error>)
    ensures
        r is Ok <==> wrapped_grammar(src@) is Some,
        r matches Ok((cb, q, n)) ==> (cb@, q@, n as int) == wrapped_grammar(src@).unwrap() && n <= src@.len(),
        r matches Err(e) ==> e.message@ == "Invalid query"@,
{
    let v = chars_of(src);
    let (cb, e) = match ident_at_pos(&v, 0) {
        Some(x) => x,
        None => {
            return Err(syntax_error("Invalid query"));
        },
    };
    let b = skip_ws_at(&v, e);
    if !ch_is(&v, b, ',') {
        return Err(syntax_error("Invalid query"));
    }
    match query_at_pos(&v, b + 1) {
        Some((q, e2)) => Ok((cb, q, e2)),
        None => Err(syntax_error("Invalid query")),
    }
}

} // verus!
