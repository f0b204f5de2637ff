use vstd::prelude::*;

use crate::document::{bytes_eq, key_index, key_position, lemma_pairs_of, pairs_of, text_eq, val_of, RawDocument, Val, Value};
use crate::enumerate::{Enumerable, Serial};
use crate::error::{Error, Result};
use crate::selection::Primary;
use crate::text::{push_char, to_text};
use crate::types::{IndexKind, KeyType};
use crate::value::{converted, float_cast_ready, key_is_empty, FloatCast, Key, KeyData};

verus! {

/// The definition of index
#[derive(Debug, Clone, PartialEq, Eq)]
pub struct IndexDef(
    /// Unique serial
    pub Serial,
    /// Collection name
    pub String,
    /// Field path
    pub String,
    pub IndexKind,
    pub KeyType,
);

impl IndexDef {
    /// The definition of an index of the collection `coll` on the field at `path`
    pub fn new(coll: &str, path: &str, kind: IndexKind, key: KeyType) -> (d: Self)
        ensures
            d.0 == 0,
            d.1@ == coll@,
            d.2@ == path@,
            d.3 == kind,
            d.4 == key,
    {
        IndexDef(0, to_text(coll), to_text(path), kind, key)
    }
}

impl Enumerable for IndexDef {
    open spec fn serial(&self) -> Serial {
        self.0
    }

    open spec fn same_body(self, other: Self) -> bool {
        self.1@ == other.1@ && self.2@ == other.2@ && self.3 == other.3 && self.4 == other.4
    }

    fn enumerate(&mut self, new_serial: Serial) {
        self.0 = new_serial;
    }
}

/// The parts of a field path read so far, and the part being read, after
/// reading the path's characters in order
pub open spec fn split_fold(s: Seq<char>) -> (Seq<Seq<char>>, Seq<char>)
    decreases s.len(),
{
    if s.len() == 0 {
        (Seq::empty(), Seq::empty())
    } else {
        let (done, cur) = split_fold(s.drop_last());
        if s.last() == '.' {
            (done.push(cur), Seq::empty())
        } else {
            (done, cur.push(s.last()))
        }
    }
}

/// The parts of a field path, separated by dots
pub open spec fn path_parts(s: Seq<char>) -> Seq<Seq<char>> {
    split_fold(s).0.push(split_fold(s).1)
}

/// Parts joined back with dots between them
pub open spec fn joined(parts: Seq<Seq<char>>) -> Seq<char>
    decreases parts.len(),
{
    if parts.len() <= 1 {
        if parts.len() == 0 { Seq::empty() } else { parts[0] }
    } else {
        joined(parts.drop_last()) + seq!['.'] + parts.last()
    }
}

/// Law: the parts of a field path hold no dot, and joined with dots they give
/// the path back
pub proof fn law_path_parts_join(s: Seq<char>)
    ensures
        joined(path_parts(s)) == s,
        forall|i: int, j: int| 0 <= i < path_parts(s).len() && 0 <= j < path_parts(s)[i].len() ==> path_parts(s)[i][j] != '.',
    decreases s.len(),
{
    if s.len() > 0 {
        let t = s.drop_last();
        law_path_parts_join(t);
        assert(s =~= t.push(s.last()));
        let (d, cur) = split_fold(t);
        assert(path_parts(t) == d.push(cur));
        assert(d.push(cur).drop_last() =~= d);
        if s.last() == '.' {
            let ps = d.push(cur).push(Seq::<char>::empty());
            assert(path_parts(s) == ps);
            assert(ps.drop_last() =~= d.push(cur));
            assert(joined(ps) == joined(d.push(cur)) + seq!['.'] + Seq::<char>::empty());
            assert(joined(ps) =~= s);
            assert forall|i: int, j: int| 0 <= i < ps.len() && 0 <= j < ps[i].len() implies ps[i][j] != '.' by {
                if i < ps.len() - 1 {
                    assert(ps[i] == path_parts(t)[i]);
                }
            }
        } else {
            let c = s.last();
            let ps = d.push(cur.push(c));
            assert(path_parts(s) == ps);
            if d.len() == 0 {
                assert(joined(d.push(cur)) == cur);
                assert(joined(ps) == cur.push(c));
                assert(cur.push(c) =~= s);
            } else {
                assert(ps.drop_last() =~= d);
                assert(joined(d.push(cur)) == joined(d) + seq!['.'] + cur);
                assert(joined(ps) == joined(d) + seq!['.'] + cur.push(c));
                assert(joined(ps) =~= s);
            }
            assert forall|i: int, j: int| 0 <= i < ps.len() && 0 <= j < ps[i].len() implies ps[i][j] != '.' by {
                if i < ps.len() - 1 {
                    assert(ps[i] == path_parts(t)[i]);
                } else {
                    assert(cur == path_parts(t)[d.len() as int]);
                    if j < cur.len() {
                        assert(ps[i][j] == cur[j]);
                    }
                }
            }
        }
    } else {
        assert(path_parts(s) =~= seq![Seq::<char>::empty()]);
    }
}

/// Split a field path at its dots
pub fn split_path(path: &str) -> (r: Vec<String>)
    ensures
        r@.map_values(|p: String| p@) == path_parts(path@),
{
    let n = path.unicode_len();
    let mut done: Vec<String> = Vec::new();
    let mut cur = String::new();
    let mut i: usize = 0;
    proof {
        reveal_strlit("");
    }
    assert(path@.take(0) =~= Seq::<char>::empty());
    while i < n
        invariant
            n == path@.len(),
            i <= n,
            done@.map_values(|p: String| p@) == split_fold(path@.take(i as int)).0,
            cur@ == split_fold(path@.take(i as int)).1,
        decreases n - i,
    {
        let c = path.get_char(i);
        proof {
            assert(path@.take(i + 1).drop_last() =~= path@.take(i as int));
            assert(path@.take(i + 1).last() == c);
        }
        if c == '.' {
            let ghost before = done@;
            done.push(cur);
            cur = String::new();
            proof {
                reveal_strlit("");
                assert(done@.map_values(|p: String| p@) =~= before.map_values(|p: String| p@).push(split_fold(path@.take(i as int)).1));
            }
        } else {
            push_char(&mut cur, c);
        }
        i = i + 1;
    }
    let ghost before = done@;
    done.push(cur);
    proof {
        assert(path@.take(n as int) =~= path@);
        assert(done@.map_values(|p: String| p@) =~= before.map_values(|p: String| p@).push(split_fold(path@).1));
    }
    done
}

/// The keys that a sequence of key data holds
pub open spec fn key_views(ks: Seq<KeyData>) -> Set<Key> {
    ks.map_values(|k: KeyData| k@).to_set()
}

/// Whether no key occurs twice
pub open spec fn distinct_keys(ks: Seq<KeyData>) -> bool {
    forall|i: int, j: int| 0 <= i < j < ks.len() ==> ks[i]@ != ks[j]@
}

/// The key data that a value holds as a primitive
pub open spec fn key_data_of(v: Value) -> Option<KeyData> {
    match v {
        Value::Integer(i) => Some(KeyData::Int(i as i64)),
        Value::Float(f) => Some(KeyData::Float(f)),
        Value::Bytes(b) => Some(KeyData::Binary(b)),
        Value::Text(s) => Some(KeyData::String(s)),
        Value::Bool(b) => Some(KeyData::Bool(b)),
        _ => None,
    }
}

/// The key that a primitive value gives an index of type `typ`: none for
/// values of no key type, values that do not convert, and empty keys
pub open spec fn prim_key<C: Fn(FloatCast) -> Option<KeyData>>(v: Value, typ: KeyType, cast: C) -> Option<Key> {
    match key_data_of(v) {
        Some(k) => match converted(typ, k, cast) {
            Some(x) => if key_is_empty(x) { None } else { Some(x) },
            None => None,
        },
        None => None,
    }
}

/// The keys of a value: those of its elements, of its object keys, or the value's own
pub open spec fn value_keys<C: Fn(FloatCast) -> Option<KeyData>>(doc: Value, typ: KeyType, cast: C) -> Set<Key>
    decreases doc, 0nat,
{
    match doc {
        Value::Array(a) => values_keys(a@, typ, cast),
        Value::Object(m) => entry_keys(m@, typ, cast),
        _ => match prim_key(doc, typ, cast) {
            Some(x) => set![x],
            None => Set::empty(),
        },
    }
}

/// The keys of each value of a sequence
pub open spec fn values_keys<C: Fn(FloatCast) -> Option<KeyData>>(s: Seq<Value>, typ: KeyType, cast: C) -> Set<Key>
    decreases s, 1nat,
{
    if s.len() == 0 {
        Set::empty()
    } else {
        values_keys(s.drop_last(), typ, cast) + value_keys(s.last(), typ, cast)
    }
}

/// The keys of each object key of a sequence of entries
pub open spec fn entry_keys<C: Fn(FloatCast) -> Option<KeyData>>(m: Seq<(Value, Value)>, typ: KeyType, cast: C) -> Set<Key>
    decreases m, 1nat,
{
    if m.len() == 0 {
        Set::empty()
    } else {
        entry_keys(m.drop_last(), typ, cast) + value_keys(m.last().0, typ, cast)
    }
}

/// The keys of the field at `path` of a document: an array is searched
/// element by element, an object part `*` walks every member (with the same
/// path), another part names the member to descend into
pub open spec fn field_keys<C: Fn(FloatCast) -> Option<KeyData>>(doc: Value, typ: KeyType, path: Seq<Seq<char>>, cast: C) -> Set<Key>
    decreases doc, 0nat,
{
    if path.len() == 0 {
        value_keys(doc, typ, cast)
    } else {
        match doc {
            Value::Array(a) => fields_keys(a@, typ, path, cast),
            Value::Object(m) => if path[0] == seq!['*'] {
                members_keys(m@, typ, path, cast)
            } else {
                match key_index(pairs_of(m@), Val::Text(path[0])) {
                    Some(i) => if 0 <= i < m@.len() {
                        field_keys(m@[i].1, typ, path.drop_first(), cast)
                    } else {
                        Set::empty()
                    },
                    None => Set::empty(),
                }
            },
            _ => Set::empty(),
        }
    }
}

/// The keys of the field at `path` of each value of a sequence
pub open spec fn fields_keys<C: Fn(FloatCast) -> Option<KeyData>>(s: Seq<Value>, typ: KeyType, path: Seq<Seq<char>>, cast: C) -> Set<Key>
    decreases s, 1nat,
{
    if s.len() == 0 {
        Set::empty()
    } else {
        fields_keys(s.drop_last(), typ, path, cast) + field_keys(s.last(), typ, path, cast)
    }
}

/// The keys of the field at `path` of each member of an object
pub open spec fn members_keys<C: Fn(FloatCast) -> Option<KeyData>>(m: Seq<(Value, Value)>, typ: KeyType, path: Seq<Seq<char>>, cast: C) -> Set<Key>
    decreases m, 1nat,
{
    if m.len() == 0 {
        Set::empty()
    } else {
        members_keys(m.drop_last(), typ, path, cast) + field_keys(m.last().1, typ, path, cast)
    }
}

/// Whether two key data are the same key
fn key_equal(a: &KeyData, b: &KeyData) -> (r: bool)
    ensures
        r == (a@ == b@),
{
    match (a, b) {
        (KeyData::Int(x), KeyData::Int(y)) => *x == *y,
        (KeyData::Float(x), KeyData::Float(y)) => *x == *y,
        (KeyData::String(x), KeyData::String(y)) => text_eq(x, y),
        (KeyData::Binary(x), KeyData::Binary(y)) => bytes_eq(x, y),
        (KeyData::Bool(x), KeyData::Bool(y)) => *x == *y,
        _ => false,
    }
}

/// Whether the keys hold the key
fn has_key(keys: &Vec<KeyData>, k: &KeyData) -> (r: bool)
    ensures
        r == key_views(keys@).contains(k@),
{
    let mut i: usize = 0;
    while i < keys.len()
        invariant
            i <= keys@.len(),
            forall|j: int| 0 <= j < i ==> keys@[j]@ != k@,
        decreases keys@.len() - i,
    {
        if key_equal(&keys[i], k) {
            assert(keys@.map_values(|x: KeyData| x@)[i as int] == k@);
            return true;
        }
        i = i + 1;
    }
    proof {
        let ms = keys@.map_values(|x: KeyData| x@);
        if key_views(keys@).contains(k@) {
            assert(ms.contains(k@));
            let j = choose|j: int| 0 <= j < ms.len() && #[trigger] ms[j] == k@;
            assert(keys@[j]@ == k@);
        }
    }
    false
}

/// Add a key, unless the keys hold it already
fn insert_key(keys: &mut Vec<KeyData>, k: KeyData)
    requires
        distinct_keys(old(keys)@),
    ensures
        distinct_keys(final(keys)@),
        key_views(final(keys)@) == key_views(old(keys)@).insert(k@),
{
    if has_key(keys, &k) {
        assert(key_views(keys@).insert(k@) =~= key_views(keys@));
        return;
    }
    let ghost before = keys@;
    keys.push(k);
    proof {
        assert(keys@.map_values(|x: KeyData| x@) =~= before.map_values(|x: KeyData| x@).push(k@));
        before.map_values(|x: KeyData| x@).lemma_push_to_set_commute(k@);
        assert forall|i: int, j: int| 0 <= i < j < keys@.len() implies keys@[i]@ != keys@[j]@ by {
            if j == before.len() {
                assert(before.map_values(|x: KeyData| x@)[i] == keys@[i]@);
            }
        }
    }
}

/// Add the keys of a value: those of its elements, of its object keys, or the value's own
#[verifier::loop_isolation(false)]
fn extract_field_primitives<C: Fn(FloatCast) -> Option<KeyData>>(doc: &Value, typ: KeyType, keys: &mut Vec<KeyData>, cast: &C)
    requires
        float_cast_ready(*cast),
        distinct_keys(old(keys)@),
    ensures
        distinct_keys(final(keys)@),
        key_views(final(keys)@) == key_views(old(keys)@) + value_keys(*doc, typ, *cast),
    decreases doc,
{
    let ghost start = key_views(keys@);
    match doc {
        Value::Array(a) => {
            let mut i: usize = 0;
            assert(a@.take(0) =~= Seq::<Value>::empty());
            while i < a.len()
                invariant
                    i <= a@.len(),
                    float_cast_ready(*cast),
                    distinct_keys(keys@),
                    key_views(keys@) == start + values_keys(a@.take(i as int), typ, *cast),
                decreases a@.len() - i,
            {
                proof {
                    assert(decreases_to!(doc => a@[i as int]));
                    assert(a@.take(i + 1).drop_last() =~= a@.take(i as int));
                    assert(a@.take(i + 1).last() == a@[i as int]);
                }
                extract_field_primitives(&a[i], typ, keys, cast);
                i = i + 1;
                proof {
                    assert(key_views(keys@) =~= start + values_keys(a@.take(i as int), typ, *cast));
                }
            }
            assert(a@.take(a@.len() as int) =~= a@);
        },
        Value::Object(m) => {
            let mut i: usize = 0;
            assert(m@.take(0) =~= Seq::<(Value, Value)>::empty());
            while i < m.len()
                invariant
                    i <= m@.len(),
                    float_cast_ready(*cast),
                    distinct_keys(keys@),
                    key_views(keys@) == start + entry_keys(m@.take(i as int), typ, *cast),
                decreases m@.len() - i,
            {
                proof {
                    assert(decreases_to!(doc => m@[i as int].0));
                    assert(m@.take(i + 1).drop_last() =~= m@.take(i as int));
                    assert(m@.take(i + 1).last() == m@[i as int]);
                }
                extract_field_primitives(&m[i].0, typ, keys, cast);
                i = i + 1;
                proof {
                    assert(key_views(keys@) =~= start + entry_keys(m@.take(i as int), typ, *cast));
                }
            }
            assert(m@.take(m@.len() as int) =~= m@);
        },
        _ => {
            match KeyData::from_val(doc) {
                Some(k) => {
                    assert(key_data_of(*doc) is Some);
                    assert(converted(typ, k, *cast) == converted(typ, key_data_of(*doc).unwrap(), *cast));
                    match k.into_type(typ, cast) {
                        Some(x) => {
                            if !x.is_empty() {
                                insert_key(keys, x);
                                assert(key_views(keys@) =~= start + value_keys(*doc, typ, *cast));
                            } else {
                                assert(key_views(keys@) =~= start + value_keys(*doc, typ, *cast));
                            }
                        },
                        None => {
                            assert(key_views(keys@) =~= start + value_keys(*doc, typ, *cast));
                        },
                    }
                },
                None => {
                    assert(key_views(keys@) =~= start + value_keys(*doc, typ, *cast));
                },
            }
        },
    }
}

/// Add the keys of the field at `path[from..]` of a document
#[verifier::loop_isolation(false)]
fn extract_field_values<C: Fn(FloatCast) -> Option<KeyData>>(
    doc: &Value,
    typ: KeyType,
    path: &Vec<String>,
    from: usize,
    keys: &mut Vec<KeyData>,
    cast: &C,
)
    requires
        float_cast_ready(*cast),
        from <= path@.len(),
        distinct_keys(old(keys)@),
    ensures
        distinct_keys(final(keys)@),
        key_views(final(keys)@) == key_views(old(keys)@) + field_keys(
            *doc,
            typ,
            path@.map_values(|p: String| p@).skip(from as int),
            *cast,
        ),
    decreases doc,
{
    let ghost start = key_views(keys@);
    let ghost rest = path@.map_values(|p: String| p@).skip(from as int);
    if from == path.len() {
        assert(rest.len() == 0);
        extract_field_primitives(doc, typ, keys, cast);
        return;
    }
    assert(rest[0] == path@[from as int]@);
    match doc {
        Value::Array(a) => {
            let mut i: usize = 0;
            assert(a@.take(0) =~= Seq::<Value>::empty());
            while i < a.len()
                invariant
                    i <= a@.len(),
                    from < path@.len(),
                    rest == path@.map_values(|p: String| p@).skip(from as int),
                    float_cast_ready(*cast),
                    distinct_keys(keys@),
                    key_views(keys@) == start + fields_keys(a@.take(i as int), typ, rest, *cast),
                decreases a@.len() - i,
            {
                proof {
                    assert(decreases_to!(doc => a@[i as int]));
                    assert(a@.take(i + 1).drop_last() =~= a@.take(i as int));
                    assert(a@.take(i + 1).last() == a@[i as int]);
                }
                extract_field_values(&a[i], typ, path, from, keys, cast);
                i = i + 1;
                proof {
                    assert(key_views(keys@) =~= start + fields_keys(a@.take(i as int), typ, rest, *cast));
                }
            }
            assert(a@.take(a@.len() as int) =~= a@);
        },
        Value::Object(m) => {
            let star = to_text("*");
            proof {
                reveal_strlit("*");
                assert(star@ =~= seq!['*']);
            }
            if text_eq(&path[from], &star) {
                let mut i: usize = 0;
                assert(m@.take(0) =~= Seq::<(Value, Value)>::empty());
                while i < m.len()
                    invariant
                        i <= m@.len(),
                        from < path@.len(),
                        rest == path@.map_values(|p: String| p@).skip(from as int),
                        float_cast_ready(*cast),
                        distinct_keys(keys@),
                        key_views(keys@) == start + members_keys(m@.take(i as int), typ, rest, *cast),
                    decreases m@.len() - i,
                {
                    proof {
                        assert(decreases_to!(doc => m@[i as int].1));
                        assert(m@.take(i + 1).drop_last() =~= m@.take(i as int));
                        assert(m@.take(i + 1).last() == m@[i as int]);
                    }
                    extract_field_values(&m[i].1, typ, path, from, keys, cast);
                    i = i + 1;
                    proof {
                        assert(key_views(keys@) =~= start + members_keys(m@.take(i as int), typ, rest, *cast));
                    }
                }
                assert(m@.take(m@.len() as int) =~= m@);
            } else {
                let name = Value::Text(path[from].clone());
                assert(val_of(name) == Val::Text(rest[0]));
                match key_position(m, &name) {
                    Some(i) => {
                        proof {
                            assert(decreases_to!(doc => m@[i as int].1));
                            assert(path@.map_values(|p: String| p@).skip(from + 1) =~= rest.drop_first());
                        }
                        extract_field_values(&m[i].1, typ, path, from + 1, keys, cast);
                    },
                    None => {
                        assert(key_views(keys@) =~= start + field_keys(*doc, typ, rest, *cast));
                    },
                }
            }
        },
        _ => {
            assert(key_views(keys@) =~= start + field_keys(*doc, typ, rest, *cast));
        },
    }
}

/// The keys that an index on the field at `path`, of key type `typ`, holds
/// for a document
pub fn index_keys<C: Fn(FloatCast) -> Option<KeyData>>(doc: &Value, path: &str, typ: KeyType, cast: &C) -> (r: Vec<KeyData>)
    requires
        float_cast_ready(*cast),
    ensures
        distinct_keys(r@),
        key_views(r@) == field_keys(*doc, typ, path_parts(path@), *cast),
{
    let parts = split_path(path);
    let mut keys: Vec<KeyData> = Vec::new();
    assert(key_views(keys@) =~= Set::<Key>::empty());
    extract_field_values(doc, typ, &parts, 0, &mut keys, cast);
    assert(parts@.map_values(|p: String| p@).skip(0) =~= path_parts(path@));
    assert(key_views(keys@) =~= field_keys(*doc, typ, path_parts(path@), *cast));
    keys
}

/// The keys of `a` that `b` does not hold
fn keys_minus(a: &Vec<KeyData>, b: &Vec<KeyData>) -> (r: Vec<KeyData>)
    requires
        distinct_keys(a@),
    ensures
        distinct_keys(r@),
        key_views(r@) == key_views(a@).difference(key_views(b@)),
{
    let mut r: Vec<KeyData> = Vec::new();
    let mut i: usize = 0;
    assert(a@.take(0).map_values(|x: KeyData| x@) =~= Seq::<Key>::empty());
    while i < a.len()
        invariant
            i <= a@.len(),
            distinct_keys(a@),
            distinct_keys(r@),
            key_views(r@) == key_views(a@.take(i as int)).difference(key_views(b@)),
        decreases a@.len() - i,
    {
        let ghost prev = a@.take(i as int);
        proof {
            assert(a@.take(i + 1) =~= prev.push(a@[i as int]));
            assert(a@.take(i + 1).map_values(|x: KeyData| x@) =~= prev.map_values(|x: KeyData| x@).push(a@[i as int]@));
            prev.map_values(|x: KeyData| x@).lemma_push_to_set_commute(a@[i as int]@);
        }
        if !has_key(b, &a[i]) {
            insert_key(&mut r, a[i].copy());
        }
        i = i + 1;
        proof {
            assert(key_views(r@) =~= key_views(a@.take(i as int)).difference(key_views(b@)));
        }
    }
    assert(a@.take(a@.len() as int) =~= a@);
    r
}

/// The keys that an index on the field at `path` holds for a document, if any
pub open spec fn doc_keys<C: Fn(FloatCast) -> Option<KeyData>>(doc: Option<&RawDocument>, typ: KeyType, path: Seq<char>, cast: C) -> Set<Key> {
    match doc {
        Some(d) => field_keys(d.1, typ, path_parts(path), cast),
        None => Set::empty(),
    }
}

/// The document whose identifier an index change is made for: the old one,
/// or else the new one
pub open spec fn changed_doc<'a>(old_doc: Option<&'a RawDocument>, new_doc: Option<&'a RawDocument>) -> Option<&'a RawDocument> {
    match old_doc {
        Some(d) => Some(d),
        None => new_doc,
    }
}

/// What an index must do for a change of a document: the document's
/// identifier, the keys to remove and the keys to add
#[derive(Debug)]
pub struct IndexUpdate {
    pub id: Primary,
    pub remove: Vec<KeyData>,
    pub insert: Vec<KeyData>,
}

/// The change of an index on the field at `path`, of key type `typ`, when a
/// document changes from `old_doc` to `new_doc` (either may be missing): the
/// keys only the old document has go, the keys only the new one has come
pub fn index_update<C: Fn(FloatCast) -> Option<KeyData>>(
    old_doc: Option<&RawDocument>,
    new_doc: Option<&RawDocument>,
    path: &str,
    typ: KeyType,
    cast: &C,
) -> (r: Result<IndexUpdate>)
    requires
        float_cast_ready(*cast),
    ensures
        r is Ok <==> (changed_doc(old_doc, new_doc) matches Some(d) && d.0 is Some),
        r matches Ok(u) ==> {
            &&& Some(u.id) == changed_doc(old_doc, new_doc).unwrap().0
            &&& distinct_keys(u.remove@)
            &&& distinct_keys(u.insert@)
            &&& key_views(u.remove@) == doc_keys(old_doc, typ, path@, *cast).difference(doc_keys(new_doc, typ, path@, *cast))
            &&& key_views(u.insert@) == doc_keys(new_doc, typ, path@, *cast).difference(doc_keys(old_doc, typ, path@, *cast))
        },
{
    let doc = match old_doc {
        Some(d) => d,
        None => match new_doc {
            Some(d) => d,
            None => {
                return Err(Error::new(to_text("Either old_doc or new_doc or both must present")));
            },
        },
    };
    let id = doc.req_id()?;
    let old_keys = match old_doc {
        Some(d) => index_keys(&d.1, path, typ, cast),
        None => Vec::new(),
    };
    let new_keys = match new_doc {
        Some(d) => index_keys(&d.1, path, typ, cast),
        None => Vec::new(),
    };
    assert(key_views(Seq::<KeyData>::empty()) =~= Set::<Key>::empty());
    let remove = keys_minus(&old_keys, &new_keys);
    let insert = keys_minus(&new_keys, &old_keys);
    Ok(IndexUpdate { id, remove, insert })
}

/// Law: an index that held the old document's keys, after the keys that
/// `index_update` removes go and the keys it adds come, holds just the new
/// document's keys
pub proof fn law_update_gives_new_keys<C: Fn(FloatCast) -> Option<KeyData>>(
    old_doc: Option<&RawDocument>,
    new_doc: Option<&RawDocument>,
    path: Seq<char>,
    typ: KeyType,
    cast: C,
)
    ensures
        ({
            let o = doc_keys(old_doc, typ, path, cast);
            let n = doc_keys(new_doc, typ, path, cast);
            o.difference(o.difference(n)).union(n.difference(o))
        }) == doc_keys(new_doc, typ, path, cast),
{
    let o = doc_keys(old_doc, typ, path, cast);
    let n = doc_keys(new_doc, typ, path, cast);
    assert(o.difference(o.difference(n)).union(n.difference(o)) =~= n);
}

/// A bound of a range query brought to the index's key type: none where there
/// is no bound or the bound's key does not convert
pub fn range_bound<C: Fn(FloatCast) -> Option<KeyData>>(bound: Option<(&KeyData, bool)>, typ: KeyType, cast: &C) -> (r: Option<(KeyData, bool)>)
    requires
        float_cast_ready(*cast),
    ensures
        bound is None ==> r is None,
        bound matches Some((k, inc)) ==> (r is Some <==> converted(typ, *k, *cast) is Some) && (r matches Some((x, i))
            ==> x@ == converted(typ, *k, *cast).unwrap() && i == inc),
{
    match bound {
        Some((k, inc)) => match k.into_type(typ, cast) {
            Some(x) => Some((x, inc)),
            None => None,
        },
        None => None,
    }
}

/// Whether a key read from a range scan (as stored) is within the end bound:
/// always without a bound; else the stored bytes are read as the bound's
/// type, which fails where they do not fit it
pub fn range_accepts(end: &Option<(KeyData, bool)>, raw: &[u8]) -> (r: Result<bool>)
    ensures
        end is None ==> r == Ok::<bool, Error>(true),
        end matches Some((e, inc)) ==> (r is Ok <==> crate::value::key_from_raw(e.spec_type(), raw@) is Some) && (r matches Ok(b)
            ==> b == crate::value::key_within(crate::value::key_from_raw(e.spec_type(), raw@).unwrap(), e@, *inc)),
{
    match end {
        Some((e, inc)) => {
            let k = KeyData::from_raw(e.get_type(), raw)?;
            Ok(k.within(e, *inc))
        },
        None => Ok(true),
    }
}

/// Whether a key read at the start of a range scan (as stored; the scan
/// starts at the first key not before the start bound) is left out: only
/// where the start bound is exclusive and the key is not past it; the stored
/// bytes are read as the bound's type, which fails where they do not fit it
pub fn range_skips(beg: &Option<(KeyData, bool)>, raw: &[u8]) -> (r: Result<bool>)
    ensures
        beg is None ==> r == Ok::<bool, Error>(false),
        beg matches Some((b, inc)) ==> if *inc {
            r == Ok::<bool, Error>(false)
        } else {
            (r is Ok <==> crate::value::key_from_raw(b.spec_type(), raw@) is Some) && (r matches Ok(x)
                ==> x == crate::value::key_within(crate::value::key_from_raw(b.spec_type(), raw@).unwrap(), b@, true))
        },
{
    match beg {
        Some((b, inc)) => {
            if *inc {
                return Ok(false);
            }
            let k = KeyData::from_raw(b.get_type(), raw)?;
            Ok(k.within(b, true))
        },
        None => Ok(false),
    }
}

/// The keys brought to the index's key type, in order, leaving out those that do not convert
pub open spec fn converted_keys<C: Fn(FloatCast) -> Option<KeyData>>(ks: Seq<KeyData>, typ: KeyType, cast: C) -> Seq<Key>
    decreases ks.len(),
{
    if ks.len() == 0 {
        Seq::empty()
    } else {
        let rest = converted_keys(ks.drop_last(), typ, cast);
        match converted(typ, ks.last(), cast) {
            Some(x) => rest.push(x),
            None => rest,
        }
    }
}

/// The keys of a set query brought to the index's key type
pub fn query_keys<C: Fn(FloatCast) -> Option<KeyData>>(keys: &Vec<KeyData>, typ: KeyType, cast: &C) -> (r: Vec<KeyData>)
    requires
        float_cast_ready(*cast),
    ensures
        r@.map_values(|k: KeyData| k@) == converted_keys(keys@, typ, *cast),
{
    let mut r: Vec<KeyData> = Vec::new();
    let mut i: usize = 0;
    assert(keys@.take(0) =~= Seq::<KeyData>::empty());
    while i < keys.len()
        invariant
            i <= keys@.len(),
            float_cast_ready(*cast),
            r@.map_values(|k: KeyData| k@) == converted_keys(keys@.take(i as int), typ, *cast),
        decreases keys@.len() - i,
    {
        proof {
            assert(keys@.take(i + 1).drop_last() =~= keys@.take(i as int));
            assert(keys@.take(i + 1).last() == keys@[i as int]);
        }
        let ghost before = r@;
        match keys[i].into_type(typ, cast) {
            Some(x) => {
                r.push(x);
                assert(r@.map_values(|k: KeyData| k@) =~= before.map_values(|k: KeyData| k@).push(x@));
            },
            None => {},
        }
        i = i + 1;
    }
    assert(keys@.take(keys@.len() as int) =~= keys@);
    r
}

} // verus!
