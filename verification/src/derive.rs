use vstd::prelude::*;

use crate::query::{is_ident_start, key_type_at, skip_ws, word_at};
use crate::text::to_text;
use crate::types::{str_eq, IndexKind, KeyType};

verus! {

/// A named field of a struct, as the `Document` derive reads it
pub struct FieldDef {
    /// The name of the field
    pub ident: String,
    /// The name that a `serde(rename = "..")` attribute of the field gives it
    pub serde_rename: Option<String>,
    /// The token groups of the field's `document` attributes, in order, each
    /// as the text of its tokens
    pub doc_groups: Vec<Vec<String>>,
    /// The type of the field, as text
    pub ty: String,
}

/// The shape of the item that the derive is applied to
pub enum StructShape {
    /// A struct with named fields
    Named(Vec<FieldDef>),
    /// A tuple struct
    Unnamed,
    /// A unit struct
    Unit,
    /// An enum or a union
    NotStruct,
}

/// The item that the derive is applied to
pub struct StructInput {
    /// The token groups of the item's own `document` attributes
    pub doc_groups: Vec<Vec<String>>,
    /// The shape of the item
    pub shape: StructShape,
}

/// Where the key type of an indexed field comes from
pub enum KeySource {
    /// The attribute names the key type
    Given(KeyType),
    /// The key type of the field's type (its text)
    OfType(String),
}

/// What the derived `Document` implementation says of the document
pub struct DocumentImpl {
    /// The primary key field, where the document has one
    pub primary: Option<String>,
    /// The indexed fields: name, key type source and index kind
    pub key_fields: Vec<(String, KeySource, IndexKind)>,
    /// The nested document fields: name and type text
    pub nested: Vec<(String, String)>,
}

/// The words of a token group
pub open spec fn words(g: Vec<String>) -> Seq<Seq<char>> {
    g@.map_values(|w: String| w@)
}

/// The token groups, word by word
pub open spec fn groups(gs: Vec<Vec<String>>) -> Seq<Seq<Seq<char>>> {
    gs@.map_values(|g: Vec<String>| words(g))
}

/// Whether a group marks the primary key: one of its words is `primary`
pub open spec fn marks_primary(g: Seq<Seq<char>>) -> bool {
    exists|i: int| 0 <= i < g.len() && g[i] == "primary"@
}

/// Whether a group marks a nested document: it is the word `nested` alone
pub open spec fn marks_nested(g: Seq<Seq<char>>) -> bool {
    g.len() == 1 && g[0] == "nested"@
}

/// The index kind that the first word of a group names
pub open spec fn index_word(w: Seq<char>) -> Option<IndexKind> {
    if w == "unique"@ {
        Some(IndexKind::Unique)
    } else if w == "index"@ {
        Some(IndexKind::Index)
    } else {
        None
    }
}

/// The key type that a word names
pub open spec fn key_word(w: Seq<char>) -> Option<KeyType> {
    if w == "int"@ || w == "integer"@ {
        Some(KeyType::Int)
    } else if w == "float"@ {
        Some(KeyType::Float)
    } else if w == "str"@ || w == "string"@ {
        Some(KeyType::String)
    } else if w == "bin"@ || w == "binary"@ {
        Some(KeyType::Binary)
    } else if w == "bool"@ || w == "boolean"@ {
        Some(KeyType::Bool)
    } else {
        None
    }
}

/// A word that differs from `v` at some place inside both is not `v` at the start
proof fn lemma_not_word(w: Seq<char>, v: Seq<char>, k: int)
    requires
        0 <= k < v.len(),
        k < w.len(),
        w[k] != v[k],
    ensures
        !word_at(w, 0, v),
{
    if word_at(w, 0, v) {
        assert(w.subrange(0, v.len() as int)[k] == w[k]);
    }
}

/// A word made of letters is itself at its start
proof fn lemma_whole_word(w: Seq<char>)
    requires
        w.len() > 0,
        is_ident_start(w[0]),
    ensures
        word_at(w, 0, w),
        skip_ws(w, 0) == 0,
{
    assert(w.subrange(0, w.len() as int) =~= w);
}

/// Law: a key word of the derive names the key type that the same word
/// names in the query language (`float` a float key, `int` an integer key,
/// and so on)
pub proof fn law_key_words_name_key_types(w: Seq<char>)
    requires
        key_word(w) is Some,
    ensures
        key_type_at(w, 0) == Some((key_word(w).unwrap(), w.len() as int)),
{
    reveal_strlit("integer");
    reveal_strlit("int");
    reveal_strlit("float");
    reveal_strlit("boolean");
    reveal_strlit("bool");
    reveal_strlit("string");
    reveal_strlit("str");
    reveal_strlit("text");
    reveal_strlit("binary");
    reveal_strlit("bin");
    lemma_whole_word(w);
    let i = "integer"@;
    let n = "int"@;
    let f = "float"@;
    let bo = "boolean"@;
    let b = "bool"@;
    let sg = "string"@;
    let st = "str"@;
    let t = "text"@;
    let by = "binary"@;
    let bi = "bin"@;
    if w == f {
        lemma_not_word(w, i, 0);
        lemma_not_word(w, n, 0);
    } else if w == st || w == sg {
        lemma_not_word(w, i, 0);
        lemma_not_word(w, n, 0);
        lemma_not_word(w, f, 0);
        lemma_not_word(w, bo, 0);
        lemma_not_word(w, b, 0);
    } else if w == bi || w == by {
        lemma_not_word(w, i, 0);
        lemma_not_word(w, n, 0);
        lemma_not_word(w, f, 0);
        lemma_not_word(w, b, 1);
        lemma_not_word(w, sg, 0);
        lemma_not_word(w, st, 0);
        lemma_not_word(w, t, 0);
    } else if w == b || w == bo {
        lemma_not_word(w, i, 0);
        lemma_not_word(w, n, 0);
        lemma_not_word(w, f, 0);
    }
}

/// The index that the first group starting with `unique` or `index` marks:
/// its kind, and the key type that its second word names (`None`: the key
/// type of the field's type)
pub open spec fn index_mark(gs: Seq<Seq<Seq<char>>>) -> Option<(Option<KeyType>, IndexKind)>
    decreases gs.len(),
{
    if gs.len() == 0 {
        None
    } else if gs[0].len() > 0 && index_word(gs[0][0]) is Some {
        let key = if gs[0].len() > 1 { key_word(gs[0][1]) } else { None };
        Some((key, index_word(gs[0][0]).unwrap()))
    } else {
        index_mark(gs.drop_first())
    }
}

/// The name that a field has in documents: its serde rename, or else its own
pub open spec fn field_name(f: FieldDef) -> Seq<char> {
    match f.serde_rename {
        Some(r) => r@,
        None => f.ident@,
    }
}

/// The primary field, the indexed fields (name, named key type, kind) and the
/// nested fields (name, type) that the fields mark; `None` where two fields
/// are marked primary
pub open spec fn marked(fs: Seq<FieldDef>) -> Option<(Option<Seq<char>>, Seq<(Seq<char>, Option<KeyType>, Seq<char>, IndexKind)>, Seq<(Seq<char>, Seq<char>)>)>
    decreases fs.len(),
{
    if fs.len() == 0 {
        Some((None, Seq::empty(), Seq::empty()))
    } else {
        match marked(fs.drop_last()) {
            None => None,
            Some((p, ks, ns)) => {
                let f = fs.last();
                let gs = groups(f.doc_groups);
                let primary = exists|i: int| 0 <= i < gs.len() && marks_primary(#[trigger] gs[i]);
                if primary && p is Some {
                    None
                } else {
                    let p2 = if primary { Some(field_name(f)) } else { p };
                    let ks2 = match index_mark(gs) {
                        Some((key, kind)) => ks.push((field_name(f), key, f.ty@, kind)),
                        None => ks,
                    };
                    let ns2 = if exists|i: int| 0 <= i < gs.len() && marks_nested(#[trigger] gs[i]) {
                        ns.push((field_name(f), f.ty@))
                    } else {
                        ns
                    };
                    Some((p2, ks2, ns2))
                }
            },
        }
    }
}

/// Where the fields up to some point have two marked primary, all of them do
proof fn lemma_marked_none(fs: Seq<FieldDef>, j: int)
    requires
        0 <= j <= fs.len(),
        marked(fs.take(j)) is None,
    ensures
        marked(fs) is None,
    decreases fs.len() - j,
{
    if j < fs.len() {
        assert(fs.take(j + 1).drop_last() =~= fs.take(j));
        lemma_marked_none(fs, j + 1);
    } else {
        assert(fs.take(j) =~= fs);
    }
}

/// The view of a key type source: the named key type, or the type text
pub open spec fn source_view(s: KeySource) -> (Option<KeyType>, Seq<char>) {
    match s {
        KeySource::Given(k) => (Some(k), Seq::empty()),
        KeySource::OfType(t) => (None, t@),
    }
}

/// The view of the indexed fields: name, named key type, type text (where
/// the key type comes from the type) and kind
pub open spec fn key_fields_view(v: Seq<(String, KeySource, IndexKind)>) -> Seq<(Seq<char>, Option<KeyType>, Seq<char>, IndexKind)> {
    v.map_values(|e: (String, KeySource, IndexKind)| (e.0@, source_view(e.1).0, source_view(e.1).1, e.2))
}

/// The view of the nested fields
pub open spec fn nested_view(v: Seq<(String, String)>) -> Seq<(Seq<char>, Seq<char>)> {
    v.map_values(|e: (String, String)| (e.0@, e.1@))
}

/// An indexed field as the derive records it: where the attribute names the
/// key type, the type text is not kept
pub open spec fn key_entry(name: Seq<char>, key: Option<KeyType>, ty: Seq<char>, kind: IndexKind) -> (Seq<char>, Option<KeyType>, Seq<char>, IndexKind) {
    (name, key, if key is Some { Seq::empty() } else { ty }, kind)
}

/// The indexed fields as the derive records them
pub open spec fn recorded(ks: Seq<(Seq<char>, Option<KeyType>, Seq<char>, IndexKind)>) -> Seq<(Seq<char>, Option<KeyType>, Seq<char>, IndexKind)> {
    ks.map_values(|e: (Seq<char>, Option<KeyType>, Seq<char>, IndexKind)| key_entry(e.0, e.1, e.2, e.3))
}

/// What the derive gives for an item: the primary field, the indexed fields
/// and the nested fields, or the error text
pub open spec fn derived(input: StructInput) -> Result<(Option<Seq<char>>, Seq<(Seq<char>, Option<KeyType>, Seq<char>, IndexKind)>, Seq<(Seq<char>, Seq<char>)>), Seq<char>> {
    match input.shape {
        StructShape::NotStruct => Err("Storable documents can be implemented using structs only"@),
        StructShape::Unnamed => Err("Only struct with named fields can be represented as document"@),
        StructShape::Unit => Err("Only struct with named fields can be represented as document"@),
        StructShape::Named(fs) => match marked(fs@) {
            None => Err("Only one primary key field per document allowed"@),
            Some((p, ks, ns)) => {
                let gs = groups(input.doc_groups);
                let nested = exists|i: int| 0 <= i < gs.len() && marks_nested(#[trigger] gs[i]);
                if p is None && !nested {
                    Err("Document must contain primary key field"@)
                } else {
                    Ok((p, recorded(ks), ns))
                }
            },
        },
    }
}

impl DocumentImpl {
    /// The primary field, the indexed fields and the nested fields
    pub open spec fn view_parts(&self) -> (Option<Seq<char>>, Seq<(Seq<char>, Option<KeyType>, Seq<char>, IndexKind)>, Seq<(Seq<char>, Seq<char>)>) {
        (
            match self.primary {
                Some(p) => Some(p@),
                None => None,
            },
            key_fields_view(self.key_fields@),
            nested_view(self.nested@),
        )
    }
}

/// Whether a group holds the word
fn has_word(g: &Vec<String>, w: &str) -> (r: bool)
    ensures
        r == exists|i: int| 0 <= i < words(*g).len() && words(*g)[i] == w@,
{
    let mut i: usize = 0;
    while i < g.len()
        invariant
            i <= g@.len(),
            words(*g).len() == g@.len(),
            forall|j: int| 0 <= j < i ==> words(*g)[j] != w@,
        decreases g@.len() - i,
    {
        if str_eq(g[i].as_str(), w) {
            assert(words(*g)[i as int] == w@);
            return true;
        }
        i = i + 1;
    }
    false
}

/// Whether one of the groups marks the primary key
fn marks_primary_any(gs: &Vec<Vec<String>>) -> (r: bool)
    ensures
        r == exists|i: int| 0 <= i < groups(*gs).len() && marks_primary(#[trigger] groups(*gs)[i]),
{
    let mut i: usize = 0;
    while i < gs.len()
        invariant
            i <= gs@.len(),
            groups(*gs).len() == gs@.len(),
            forall|j: int| 0 <= j < i ==> !marks_primary(#[trigger] groups(*gs)[j]),
        decreases gs@.len() - i,
    {
        assert(groups(*gs)[i as int] == words(gs@[i as int]));
        if has_word(&gs[i], "primary") {
            return true;
        }
        i = i + 1;
    }
    false
}

/// Whether one of the groups marks a nested document
fn marks_nested_any(gs: &Vec<Vec<String>>) -> (r: bool)
    ensures
        r == exists|i: int| 0 <= i < groups(*gs).len() && marks_nested(#[trigger] groups(*gs)[i]),
{
    let mut i: usize = 0;
    while i < gs.len()
        invariant
            i <= gs@.len(),
            groups(*gs).len() == gs@.len(),
            forall|j: int| 0 <= j < i ==> !marks_nested(#[trigger] groups(*gs)[j]),
        decreases gs@.len() - i,
    {
        let g = &gs[i];
        assert(groups(*gs)[i as int] == words(*g));
        if g.len() == 1 && str_eq(g[0].as_str(), "nested") {
            return true;
        }
        i = i + 1;
    }
    false
}

/// The index kind that a word names
fn index_word_of(w: &String) -> (r: Option<IndexKind>)
    ensures
        r == index_word(w@),
{
    if str_eq(w.as_str(), "unique") {
        Some(IndexKind::Unique)
    } else if str_eq(w.as_str(), "index") {
        Some(IndexKind::Index)
    } else {
        None
    }
}

/// The key type that a word names
fn key_word_of(w: &String) -> (r: Option<KeyType>)
    ensures
        r == key_word(w@),
{
    let t = w.as_str();
    if str_eq(t, "int") || str_eq(t, "integer") {
        Some(KeyType::Int)
    } else if str_eq(t, "float") {
        Some(KeyType::Float)
    } else if str_eq(t, "str") || str_eq(t, "string") {
        Some(KeyType::String)
    } else if str_eq(t, "bin") || str_eq(t, "binary") {
        Some(KeyType::Binary)
    } else if str_eq(t, "bool") || str_eq(t, "boolean") {
        Some(KeyType::Bool)
    } else {
        None
    }
}

/// The index that the groups mark
fn index_mark_of(gs: &Vec<Vec<String>>) -> (r: Option<(Option<KeyType>, IndexKind)>)
    ensures
        r == index_mark(groups(*gs)),
{
    let ghost all = groups(*gs);
    let mut i: usize = 0;
    assert(all.skip(0) =~= all);
    while i < gs.len()
        invariant
            i <= gs@.len(),
            all == groups(*gs),
            all.len() == gs@.len(),
            index_mark(all) == index_mark(all.skip(i as int)),
        decreases gs@.len() - i,
    {
        let g = &gs[i];
        let ghost rest = all.skip(i as int);
        assert(rest[0] == words(*g));
        assert(rest.drop_first() =~= all.skip(i + 1));
        if g.len() > 0 {
            let kind = index_word_of(&g[0]);
            if let Some(k) = kind {
                let key = if g.len() > 1 { key_word_of(&g[1]) } else { None };
                return Some((key, k));
            }
        }
        i = i + 1;
    }
    None
}

/// The `Document` implementation that the derive gives for an item: its
/// primary field (required unless the item is marked nested), its indexed
/// fields and its nested document fields, or the error that the derive
/// reports
pub fn derive_document(input: &StructInput) -> (r: Result<DocumentImpl, String>)
    ensures
        r is Ok <==> derived(*input) is Ok,
        r matches Ok(d) ==> d.view_parts() == derived(*input)->Ok_0,
        r matches Err(e) ==> e@ == derived(*input)->Err_0,
{
    let fs = match &input.shape {
        StructShape::NotStruct => {
            return Err(to_text("Storable documents can be implemented using structs only"));
        },
        StructShape::Unnamed | StructShape::Unit => {
            return Err(to_text("Only struct with named fields can be represented as document"));
        },
        StructShape::Named(fs) => fs,
    };
    let mut primary: Option<String> = None;
    let mut key_fields: Vec<(String, KeySource, IndexKind)> = Vec::new();
    let mut nested: Vec<(String, String)> = Vec::new();
    let ghost mut ks: Seq<(Seq<char>, Option<KeyType>, Seq<char>, IndexKind)> = Seq::empty();
    let mut k: usize = 0;
    assert(fs@.take(0) =~= Seq::<FieldDef>::empty());
    while k < fs.len()
        invariant
            k <= fs@.len(),
            input.shape == StructShape::Named(*fs),
            marked(fs@.take(k as int)) == Some((
                match primary {
                    Some(p) => Some(p@),
                    None => None,
                },
                ks,
                nested_view(nested@),
            )),
            key_fields_view(key_fields@) == recorded(ks),
        decreases fs@.len() - k,
    {
        let f = &fs[k];
        let ghost before = fs@.take(k as int);
        assert(fs@.take(k + 1).drop_last() =~= before);
        assert(fs@.take(k + 1).last() == *f);
        let name = match &f.serde_rename {
            Some(r) => r.clone(),
            None => f.ident.clone(),
        };
        assert(name@ == field_name(*f));
        if marks_primary_any(&f.doc_groups) {
            if primary.is_some() {
                proof {
                    assert(marked(fs@.take(k + 1)) is None);
                    lemma_marked_none(fs@, k + 1);
                }
                return Err(to_text("Only one primary key field per document allowed"));
            }
            primary = Some(name.clone());
        }
        match index_mark_of(&f.doc_groups) {
            Some((key, kind)) => {
                let src = match key {
                    Some(t) => KeySource::Given(t),
                    None => KeySource::OfType(f.ty.clone()),
                };
                let ghost old_kf = key_fields@;
                let ghost old_ks = ks;
                let entry = (name.clone(), src, kind);
                key_fields.push(entry);
                proof {
                    ks = ks.push((field_name(*f), key, f.ty@, kind));
                    assert(key_fields_view(key_fields@) =~= key_fields_view(old_kf).push((entry.0@, source_view(entry.1).0, source_view(entry.1).1, entry.2)));
                    assert(recorded(ks) =~= recorded(old_ks).push(key_entry(field_name(*f), key, f.ty@, kind)));
                }
            },
            None => {},
        }
        if marks_nested_any(&f.doc_groups) {
            let ghost old_ns = nested@;
            nested.push((name, f.ty.clone()));
            assert(nested_view(nested@) =~= nested_view(old_ns).push((field_name(*f), f.ty@)));
        }
        k = k + 1;
    }
    assert(fs@.take(fs@.len() as int) =~= fs@);
    if primary.is_none() && !marks_nested_any(&input.doc_groups) {
        return Err(to_text("Document must contain primary key field"));
    }
    Ok(DocumentImpl { primary, key_fields, nested })
}

} // verus!
