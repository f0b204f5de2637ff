use vstd::prelude::*;

use crate::text::{chars_of, push_char, push_str, to_text};

verus! {

/// Compare two string slices, character by character
pub(crate) fn str_eq(a: &str, b: &str) -> (r: bool)
    ensures
        r == (a@ == b@),
{
    let x = chars_of(a);
    let y = chars_of(b);
    if x.len() != y.len() {
        return false;
    }
    let mut i: usize = 0;
    while i < x.len()
        invariant
            i <= x@.len(),
            x@.len() == y@.len(),
            x@ == a@,
            y@ == b@,
            forall|j: int| 0 <= j < i ==> x@[j] == y@[j],
        decreases x@.len() - i,
    {
        if x[i] != y[i] {
            assert(a@[i as int] != b@[i as int]);
            return false;
        }
        i = i + 1;
    }
    assert(a@ =~= b@);
    true
}

/// The type of key
#[derive(Debug, Clone, Copy, PartialEq, Eq, Hash, Structural)]
pub enum KeyType {
    Int,
    Float,
    String,
    Binary,
    Bool,
}

impl Default for KeyType {
    fn default() -> (r: Self)
        ensures
            r == KeyType::Binary,
    {
        KeyType::Binary
    }
}

/// The kind of index
#[derive(Debug, Clone, Copy, PartialEq, Eq, Hash, Structural)]
pub enum IndexKind {
    /// Index which may contains duplicates
    Index,
    /// Index which contains unique keys only
    Unique,
}

impl Default for IndexKind {
    fn default() -> (r: Self)
        ensures
            r == IndexKind::Index,
    {
        IndexKind::Index
    }
}

/// Generic string identifier, used as the name of collections and fields
#[derive(Debug)]
pub enum Identifier {
    Owned(String),
    Refer(&'static str),
}

impl View for Identifier {
    type V = Seq<char>;

    open spec fn view(&self) -> Seq<char> {
        match self {
            Identifier::Owned(s) => s@,
            Identifier::Refer(s) => s@,
        }
    }
}

impl Identifier {
    /// The text of the identifier
    pub fn as_str(&self) -> (r: &str)
        ensures
            r@ == self@,
    {
        match self {
            Identifier::Owned(s) => s.as_str(),
            Identifier::Refer(s) => s,
        }
    }

    /// The text of the identifier as an owned string
    pub fn to_text(&self) -> (r: String)
        ensures
            r@ == self@,
    {
        to_text(self.as_str())
    }
}

impl Clone for Identifier {
    fn clone(&self) -> (r: Self)
        ensures
            r == *self,
    {
        match self {
            Identifier::Owned(s) => Identifier::Owned(s.clone()),
            Identifier::Refer(s) => Identifier::Refer(s),
        }
    }
}

impl Default for Identifier {
    fn default() -> (r: Self)
        ensures
            r@ == Seq::<char>::empty(),
    {
        proof {
            reveal_strlit("");
        }
        Identifier::Refer("")
    }
}

impl PartialEq for Identifier {
    fn eq(&self, other: &Self) -> (r: bool) {
        str_eq(self.as_str(), other.as_str())
    }
}

impl vstd::std_specs::cmp::PartialEqSpecImpl for Identifier {
    open spec fn obeys_eq_spec() -> bool {
        true
    }

    open spec fn eq_spec(&self, other: &Self) -> bool {
        self@ == other@
    }
}

impl Eq for Identifier {
}

impl From<&'static str> for Identifier {
    fn from(s: &'static str) -> (r: Self) {
        Identifier::Refer(s)
    }
}

impl vstd::std_specs::convert::FromSpecImpl<&'static str> for Identifier {
    open spec fn obeys_from_spec() -> bool {
        true
    }

    open spec fn from_spec(s: &'static str) -> Self {
        Identifier::Refer(s)
    }
}

impl From<String> for Identifier {
    fn from(s: String) -> (r: Self) {
        Identifier::Owned(s)
    }
}

impl vstd::std_specs::convert::FromSpecImpl<String> for Identifier {
    open spec fn obeys_from_spec() -> bool {
        true
    }

    open spec fn from_spec(s: String) -> Self {
        Identifier::Owned(s)
    }
}

/// Indexed field definition
#[derive(Debug, Clone, PartialEq, Eq)]
pub struct KeyField {
    pub path: String,
    pub key: KeyType,
    pub kind: IndexKind,
}

/// The path of a field nested into the field `parent`
pub open spec fn child_path(parent: Seq<char>, path: Seq<char>) -> Seq<char> {
    parent + seq!['.'] + path
}

impl KeyField {
    /// Create key field from field name, with the default key type and index kind
    pub fn new(path: &str) -> (f: Self)
        ensures
            f.path@ == path@,
            f.key == KeyType::Binary,
            f.kind == IndexKind::Index,
    {
        KeyField { path: to_text(path), key: KeyType::default(), kind: IndexKind::default() }
    }

    /// Add key type
    pub fn with_type(self, key: KeyType) -> (f: Self)
        ensures
            f.path@ == self.path@,
            f.key == key,
            f.kind == self.kind,
    {
        let mut f = self;
        f.key = key;
        f
    }

    /// Add index kind
    pub fn with_kind(self, kind: IndexKind) -> (f: Self)
        ensures
            f.path@ == self.path@,
            f.key == self.key,
            f.kind == kind,
    {
        let mut f = self;
        f.kind = kind;
        f
    }

    /// Set parent path
    ///
    /// This makes key field to be child for parent path
    pub fn set_parent(&mut self, parent: &str)
        ensures
            final(self).path@ == child_path(parent@, old(self).path@),
            final(self).key == old(self).key,
            final(self).kind == old(self).kind,
    {
        let mut path = to_text(parent);
        push_char(&mut path, '.');
        push_str(&mut path, self.path.as_str());
        self.path = path;
    }

    /// Add parent path
    ///
    /// This makes key field to be child for parent path
    pub fn with_parent(self, parent: &str) -> (f: Self)
        ensures
            f.path@ == child_path(parent@, self.path@),
            f.key == self.key,
            f.kind == self.kind,
    {
        let mut f = self;
        f.set_parent(parent);
        f
    }
}

impl<'a> From<(&'a str,)> for KeyField {
    /// A key field at the path, with the default key type and index kind
    fn from(t: (&'a str,)) -> (f: Self)
        ensures
            f.path@ == t.0@,
            f.key == KeyType::Binary,
            f.kind == IndexKind::Index,
    {
        KeyField::new(t.0)
    }
}

impl<'a> From<(&'a str, KeyType)> for KeyField {
    /// A key field at the path with the key type and the default index kind
    fn from(t: (&'a str, KeyType)) -> (f: Self)
        ensures
            f.path@ == t.0@,
            f.key == t.1,
            f.kind == IndexKind::Index,
    {
        KeyField::new(t.0).with_type(t.1)
    }
}

impl<'a> From<(&'a str, IndexKind)> for KeyField {
    /// A key field at the path with the default key type and the index kind
    fn from(t: (&'a str, IndexKind)) -> (f: Self)
        ensures
            f.path@ == t.0@,
            f.key == KeyType::Binary,
            f.kind == t.1,
    {
        KeyField::new(t.0).with_kind(t.1)
    }
}

impl<'a> From<(&'a str, KeyType, IndexKind)> for KeyField {
    /// A key field at the path with the key type and the index kind
    fn from(t: (&'a str, KeyType, IndexKind)) -> (f: Self)
        ensures
            f.path@ == t.0@,
            f.key == t.1,
            f.kind == t.2,
    {
        KeyField { path: to_text(t.0), key: t.1, kind: t.2 }
    }
}

// A key field holds a string, which no spec value builds; the impls' own
// `ensures` above say what each conversion gives.
impl<'a> vstd::std_specs::convert::FromSpecImpl<(&'a str,)> for KeyField {
    open spec fn obeys_from_spec() -> bool {
        false
    }

    open spec fn from_spec(t: (&'a str,)) -> Self {
        KeyField { path: vstd::pervasive::arbitrary(), key: KeyType::Binary, kind: IndexKind::Index }
    }
}

impl<'a> vstd::std_specs::convert::FromSpecImpl<(&'a str, KeyType)> for KeyField {
    open spec fn obeys_from_spec() -> bool {
        false
    }

    open spec fn from_spec(t: (&'a str, KeyType)) -> Self {
        KeyField { path: vstd::pervasive::arbitrary(), key: t.1, kind: IndexKind::Index }
    }
}

impl<'a> vstd::std_specs::convert::FromSpecImpl<(&'a str, IndexKind)> for KeyField {
    open spec fn obeys_from_spec() -> bool {
        false
    }

    open spec fn from_spec(t: (&'a str, IndexKind)) -> Self {
        KeyField { path: vstd::pervasive::arbitrary(), key: KeyType::Binary, kind: t.1 }
    }
}

impl<'a> vstd::std_specs::convert::FromSpecImpl<(&'a str, KeyType, IndexKind)> for KeyField {
    open spec fn obeys_from_spec() -> bool {
        false
    }

    open spec fn from_spec(t: (&'a str, KeyType, IndexKind)) -> Self {
        KeyField { path: vstd::pervasive::arbitrary(), key: t.1, kind: t.2 }
    }
}

/// Indexed fields definition
#[derive(Debug, Clone, PartialEq, Eq)]
pub struct KeyFields(pub Vec<KeyField>);

/// Whether `after` holds the fields of `before`, each moved under the parent path
pub open spec fn reparented(before: Seq<KeyField>, after: Seq<KeyField>, parent: Seq<char>) -> bool {
    &&& after.len() == before.len()
    &&& forall|i: int| 0 <= i < before.len() ==> {
        &&& (#[trigger] after[i]).path@ == child_path(parent, before[i].path@)
        &&& after[i].key == before[i].key
        &&& after[i].kind == before[i].kind
    }
}

impl KeyFields {
    /// Create new key fields set
    pub fn new() -> (f: Self)
        ensures
            f.0@ == Seq::<KeyField>::empty(),
    {
        KeyFields(Vec::new())
    }

    /// The number of fields in the set
    pub fn len(&self) -> (n: usize)
        ensures
            n == self.0@.len(),
    {
        self.0.len()
    }

    /// Add key field to set: a key field, or what one is made from
    pub fn with_field<T>(self, field: T) -> (f: Self)
        where
            KeyField: From<T>,
        ensures
            f.0@.len() == self.0@.len() + 1,
            f.0@.drop_last() == self.0@,
            call_ensures(KeyField::from, (field,), f.0@.last()),
    {
        let mut v = self.0;
        let k = KeyField::from(field);
        v.push(k);
        assert(v@.drop_last() =~= self.0@);
        KeyFields(v)
    }

    /// Add key fields to set
    pub fn with_fields(self, fields: KeyFields) -> (f: Self)
        ensures
            f.0@ == self.0@ + fields.0@,
    {
        let mut v = self.0;
        let mut w = fields.0;
        v.append(&mut w);
        KeyFields(v)
    }

    /// Set parent path
    ///
    /// This makes key fields in set to be children for parent path
    pub fn set_parent(&mut self, parent: &str)
        ensures
            reparented(old(self).0@, final(self).0@, parent@),
    {
        let mut out: Vec<KeyField> = Vec::new();
        let mut i: usize = 0;
        while i < self.0.len()
            invariant
                i <= self.0.len(),
                self.0@ == old(self).0@,
                out.len() == i,
                forall|j: int| 0 <= j < i ==> {
                    &&& (#[trigger] out@[j]).path@ == child_path(parent@, self.0@[j].path@)
                    &&& out@[j].key == self.0@[j].key
                    &&& out@[j].kind == self.0@[j].kind
                },
            decreases self.0.len() - i,
        {
            let field = KeyField {
                path: self.0[i].path.clone(),
                key: self.0[i].key,
                kind: self.0[i].kind,
            };
            out.push(field.with_parent(parent));
            i = i + 1;
        }
        self.0 = out;
    }

    /// Add parent path
    ///
    /// This makes key fields in set to be children for parent path
    pub fn with_parent(self, parent: &str) -> (f: Self)
        ensures
            reparented(self.0@, f.0@, parent@),
    {
        let mut f = self;
        f.set_parent(parent);
        f
    }
}

/// Identified document representation
///
/// Applications implement this for their document types to name the
/// primary field and to declare the indexed fields.
pub trait Document {
    /// Get the name of primary field: `$` unless the document names another
    fn primary_field() -> (r: Identifier)
        default_ensures
            r@ == seq!['$'],
    {
        proof {
            reveal_strlit("$");
        }
        Identifier::Refer("$")
    }

    /// Get other key fields (indexes): none unless the document declares some
    fn key_fields() -> (r: KeyFields)
        default_ensures
            r.0@ == Seq::<KeyField>::empty(),
    {
        KeyFields::new()
    }
}

impl<T: Document> Document for Vec<T> {
    /// The primary field of the element document type
    fn primary_field() -> (r: Identifier)
        ensures
            call_ensures(T::primary_field, (), r),
    {
        T::primary_field()
    }

    /// The key fields of the element document type
    fn key_fields() -> (r: KeyFields)
        ensures
            call_ensures(T::key_fields, (), r),
    {
        T::key_fields()
    }
}

impl<T: Document> Document for Option<T> {
    /// The primary field of the element document type
    fn primary_field() -> (r: Identifier)
        ensures
            call_ensures(T::primary_field, (), r),
    {
        T::primary_field()
    }

    /// The key fields of the element document type
    fn key_fields() -> (r: KeyFields)
        ensures
            call_ensures(T::key_fields, (), r),
    {
        T::key_fields()
    }
}

impl<T: Document> Document for Box<T> {
    /// The primary field of the element document type
    fn primary_field() -> (r: Identifier)
        ensures
            call_ensures(T::primary_field, (), r),
    {
        T::primary_field()
    }

    /// The key fields of the element document type
    fn key_fields() -> (r: KeyFields)
        ensures
            call_ensures(T::key_fields, (), r),
    {
        T::key_fields()
    }
}

/// Field key type inference
pub trait DocumentKeyType {
    /// Get type of field key by field type: binary unless the type names another
    fn key_type() -> (r: KeyType)
        default_ensures
            r == KeyType::Binary,
    {
        KeyType::Binary
    }
}

impl DocumentKeyType for bool {
    fn key_type() -> (r: KeyType)
        ensures
            r == KeyType::Bool,
    {
        KeyType::Bool
    }
}

impl DocumentKeyType for u8 {
    fn key_type() -> (r: KeyType)
        ensures
            r == KeyType::Int,
    {
        KeyType::Int
    }
}

impl DocumentKeyType for i8 {
    fn key_type() -> (r: KeyType)
        ensures
            r == KeyType::Int,
    {
        KeyType::Int
    }
}

impl DocumentKeyType for u16 {
    fn key_type() -> (r: KeyType)
        ensures
            r == KeyType::Int,
    {
        KeyType::Int
    }
}

impl DocumentKeyType for i16 {
    fn key_type() -> (r: KeyType)
        ensures
            r == KeyType::Int,
    {
        KeyType::Int
    }
}

impl DocumentKeyType for u32 {
    fn key_type() -> (r: KeyType)
        ensures
            r == KeyType::Int,
    {
        KeyType::Int
    }
}

impl DocumentKeyType for i32 {
    fn key_type() -> (r: KeyType)
        ensures
            r == KeyType::Int,
    {
        KeyType::Int
    }
}

impl DocumentKeyType for u64 {
    fn key_type() -> (r: KeyType)
        ensures
            r == KeyType::Int,
    {
        KeyType::Int
    }
}

impl DocumentKeyType for i64 {
    fn key_type() -> (r: KeyType)
        ensures
            r == KeyType::Int,
    {
        KeyType::Int
    }
}

impl DocumentKeyType for String {
    fn key_type() -> (r: KeyType)
        ensures
            r == KeyType::String,
    {
        KeyType::String
    }
}

impl<T: DocumentKeyType> DocumentKeyType for Vec<T> {
    /// The key type of the element type
    fn key_type() -> (r: KeyType)
        ensures
            call_ensures(T::key_type, (), r),
    {
        T::key_type()
    }
}

impl<T: DocumentKeyType> DocumentKeyType for Option<T> {
    /// The key type of the element type
    fn key_type() -> (r: KeyType)
        ensures
            call_ensures(T::key_type, (), r),
    {
        T::key_type()
    }
}

impl<T: DocumentKeyType> DocumentKeyType for Box<T> {
    /// The key type of the element type
    fn key_type() -> (r: KeyType)
        ensures
            call_ensures(T::key_type, (), r),
    {
        T::key_type()
    }
}

} // verus!
