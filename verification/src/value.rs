use byteorder::{ByteOrder, LittleEndian};
use vstd::prelude::*;

use crate::document::{val_of, Val, Value};
use crate::error::{Error, Result};
use crate::text::{decimal_text, integer_text, law_integer_text_round_trip, parse_i64, parsed_integer, to_text};
use crate::types::{str_eq, KeyType};

verus! {

/// The data of key
///
/// A float key holds the IEEE-754 bits of the 64-bit floating-point number.
#[derive(Debug, Clone, PartialEq, Eq, Hash)]
pub enum KeyData {
    Int(i64),
    Float(u64),
    String(String),
    Binary(Vec<u8>),
    Bool(bool),
}

/// The mathematical model of key data
pub enum Key {
    Int(int),
    Float(u64),
    Text(Seq<char>),
    Binary(Seq<u8>),
    Bool(bool),
}

impl View for KeyData {
    type V = Key;

    open spec fn view(&self) -> Key {
        match self {
            KeyData::Int(v) => Key::Int(*v as int),
            KeyData::Float(v) => Key::Float(*v),
            KeyData::String(v) => Key::Text(v@),
            KeyData::Binary(v) => Key::Binary(v@),
            KeyData::Bool(v) => Key::Bool(*v),
        }
    }
}

/// The bytes of a 64-bit word, least significant first
pub open spec fn le_bytes(x: u64) -> Seq<u8> {
    seq![
        (x & 0xff) as u8,
        ((x >> 8) & 0xff) as u8,
        ((x >> 16) & 0xff) as u8,
        ((x >> 24) & 0xff) as u8,
        ((x >> 32) & 0xff) as u8,
        ((x >> 40) & 0xff) as u8,
        ((x >> 48) & 0xff) as u8,
        ((x >> 56) & 0xff) as u8,
    ]
}

/// `byteorder::LittleEndian::read_u64`: the 64-bit word whose little-endian
/// bytes are the first eight bytes of `buf` (it panics on fewer than eight).
#[verifier::external_body]
fn read_u64_le(buf: &[u8]) -> (r: u64)
    requires
        buf@.len() >= 8,
    ensures
        le_bytes(r) == buf@.take(8),
{
    LittleEndian::read_u64(buf)
}

/// Decode a UTF-8 byte string, as `std::str::from_utf8` does
#[verifier::external_body]
fn utf8_text(buf: &[u8]) -> (r: Option<&str>)
    ensures
        r is Some <==> vstd::utf8::valid_utf8(buf@),
        r matches Some(s) ==> s@ == vstd::utf8::decode_utf8(buf@),
{
    std::str::from_utf8(buf).ok()
}

/// Two words with the same bytes are the same word
pub proof fn lemma_le_bytes_injective(x: u64, y: u64)
    requires
        le_bytes(x) == le_bytes(y),
    ensures
        x == y,
{
    let bx = le_bytes(x);
    let by = le_bytes(y);
    assert(bx[0] == by[0] && bx[1] == by[1] && bx[2] == by[2] && bx[3] == by[3]);
    assert(bx[4] == by[4] && bx[5] == by[5] && bx[6] == by[6] && bx[7] == by[7]);
    assert(x == y) by (bit_vector)
        requires
            (x & 0xff) as u8 == (y & 0xff) as u8,
            ((x >> 8) & 0xff) as u8 == ((y >> 8) & 0xff) as u8,
            ((x >> 16) & 0xff) as u8 == ((y >> 16) & 0xff) as u8,
            ((x >> 24) & 0xff) as u8 == ((y >> 24) & 0xff) as u8,
            ((x >> 32) & 0xff) as u8 == ((y >> 32) & 0xff) as u8,
            ((x >> 40) & 0xff) as u8 == ((y >> 40) & 0xff) as u8,
            ((x >> 48) & 0xff) as u8 == ((y >> 48) & 0xff) as u8,
            ((x >> 56) & 0xff) as u8 == ((y >> 56) & 0xff) as u8,
    ;
}

/// The little-endian bytes of a word
fn word_bytes(x: u64) -> (r: Vec<u8>)
    ensures
        r@ == le_bytes(x),
{
    let mut r: Vec<u8> = Vec::new();
    r.push((x & 0xff) as u8);
    r.push(((x >> 8) & 0xff) as u8);
    r.push(((x >> 16) & 0xff) as u8);
    r.push(((x >> 24) & 0xff) as u8);
    r.push(((x >> 32) & 0xff) as u8);
    r.push(((x >> 40) & 0xff) as u8);
    r.push(((x >> 48) & 0xff) as u8);
    r.push(((x >> 56) & 0xff) as u8);
    assert(r@ =~= le_bytes(x));
    r
}

/// The type of key data
pub open spec fn key_type_of(k: Key) -> KeyType {
    match k {
        Key::Int(_) => KeyType::Int,
        Key::Float(_) => KeyType::Float,
        Key::Text(_) => KeyType::String,
        Key::Binary(_) => KeyType::Binary,
        Key::Bool(_) => KeyType::Bool,
    }
}

/// The stored (binary) representation of key data: integers and floats as
/// their eight little-endian bytes, strings as UTF-8 and bytes as they are,
/// an empty string or byte string as a single zero byte, booleans as one byte
pub open spec fn raw_of(k: Key) -> Seq<u8> {
    match k {
        Key::Int(v) => le_bytes(v as i64 as u64),
        Key::Float(v) => le_bytes(v),
        Key::Text(s) => if s.len() == 0 { seq![0u8] } else { vstd::utf8::encode_utf8(s) },
        Key::Binary(b) => if b.len() == 0 { seq![0u8] } else { b },
        Key::Bool(b) => if b { seq![1u8] } else { seq![0u8] },
    }
}

/// Key data read back from its binary representation, or `None` where the
/// bytes do not fit the type
pub open spec fn key_from_raw(typ: KeyType, raw: Seq<u8>) -> Option<Key> {
    match typ {
        KeyType::Int => if raw.len() == 8 {
            Some(Key::Int((choose|w: u64| le_bytes(w) == raw) as i64 as int))
        } else {
            None
        },
        KeyType::Float => if raw.len() == 8 {
            Some(Key::Float(choose|w: u64| le_bytes(w) == raw))
        } else {
            None
        },
        KeyType::String => if vstd::utf8::valid_utf8(raw) {
            Some(Key::Text(vstd::utf8::decode_utf8(raw)))
        } else {
            None
        },
        KeyType::Binary => Some(Key::Binary(raw)),
        KeyType::Bool => if raw.len() == 1 {
            Some(Key::Bool(raw[0] != 0))
        } else {
            None
        },
    }
}

/// Whether key data holds nothing: an empty string or byte string
pub open spec fn key_is_empty(k: Key) -> bool {
    match k {
        Key::Text(s) => s.len() == 0,
        Key::Binary(b) => b.len() == 0,
        _ => false,
    }
}

/// Key data taken from generic data, where the data is a primitive that a key can hold
pub open spec fn key_of_val(v: Val) -> Option<Key> {
    match v {
        Val::Integer(i) => Some(Key::Int(i as i128 as i64 as int)),
        Val::Float(f) => Some(Key::Float(f)),
        Val::Bytes(b) => Some(Key::Binary(b)),
        Val::Text(s) => Some(Key::Text(s)),
        Val::Bool(b) => Some(Key::Bool(b)),
        _ => None,
    }
}

/// A conversion of key data that involves floating-point numbers
pub enum FloatCast {
    /// The float nearest to an integer
    IntToFloat(i64),
    /// The integer nearest to a float (rounding half away from zero)
    FloatToInt(u64),
    /// The decimal text of a float
    FloatToText(u64),
    /// The float that a text denotes, if it denotes one
    TextToFloat(String),
}

/// What the floating-point conversion `cast` gives for `c`
pub open spec fn float_cast<C: Fn(FloatCast) -> Option<KeyData>>(cast: C, c: FloatCast) -> Option<KeyData> {
    choose|r: Option<KeyData>| call_ensures(cast, (c,), r)
}

/// Whether a floating-point conversion can always be called and always gives one answer
pub open spec fn float_cast_ready<C: Fn(FloatCast) -> Option<KeyData>>(cast: C) -> bool {
    &&& forall|c: FloatCast| #[trigger] cast.requires((c,))
    &&& forall|c: FloatCast, r1: Option<KeyData>, r2: Option<KeyData>|
        #[trigger] call_ensures(cast, (c,), r1) && #[trigger] call_ensures(cast, (c,), r2) ==> r1 == r2
}

/// The boolean text that `bool::to_string` writes
pub open spec fn bool_text(b: bool) -> Seq<char> {
    if b { seq!['t', 'r', 'u', 'e'] } else { seq!['f', 'a', 'l', 's', 'e'] }
}

/// The key that `into_type` gives for a conversion between different types
/// that involves no floating-point number
pub open spec fn key_cast(typ: KeyType, k: Key) -> Option<Key> {
    match (typ, k) {
        (KeyType::String, Key::Int(v)) => Some(Key::Text(decimal_text(v))),
        (KeyType::String, Key::Bool(v)) => Some(Key::Text(bool_text(v))),
        (KeyType::Int, Key::Text(s)) => match parsed_integer(s) {
            Some(v) => if i64::MIN <= v <= i64::MAX { Some(Key::Int(v)) } else { None },
            None => None,
        },
        (KeyType::Bool, Key::Text(s)) => if s == bool_text(true) {
            Some(Key::Bool(true))
        } else if s == bool_text(false) {
            Some(Key::Bool(false))
        } else {
            None
        },
        _ => None,
    }
}

/// Whether converting key data of type `from` into type `to` involves a floating-point number
pub open spec fn is_float_cast(to: KeyType, from: KeyType) -> bool {
    ||| (to == KeyType::Float && from == KeyType::Int)
    ||| (to == KeyType::Int && from == KeyType::Float)
    ||| (to == KeyType::String && from == KeyType::Float)
    ||| (to == KeyType::Float && from == KeyType::String)
}

/// The floating-point conversion that `into_type` asks for, to bring `k` to type `typ`
pub open spec fn float_request(typ: KeyType, k: KeyData) -> FloatCast {
    match k {
        KeyData::Int(v) => FloatCast::IntToFloat(v),
        KeyData::Float(v) => if typ == KeyType::Int {
            FloatCast::FloatToInt(v)
        } else {
            FloatCast::FloatToText(v)
        },
        KeyData::String(v) => FloatCast::TextToFloat(v),
        _ => FloatCast::IntToFloat(0),
    }
}

/// The key that `into_type` gives for `k` in type `typ`, if any
pub open spec fn converted<C: Fn(FloatCast) -> Option<KeyData>>(typ: KeyType, k: KeyData, cast: C) -> Option<Key> {
    if k.spec_type() == typ {
        Some(k@)
    } else if is_float_cast(typ, k.spec_type()) {
        match float_cast(cast, float_request(typ, k)) {
            Some(r) => Some(r@),
            None => None,
        }
    } else {
        key_cast(typ, k@)
    }
}

impl KeyData {
    /// The type of the key data
    pub open spec fn spec_type(&self) -> KeyType {
        key_type_of(self@)
    }

    /// Converts binary representation into key data
    pub fn from_raw(typ: KeyType, raw: &[u8]) -> (r: Result<KeyData>)
        ensures
            r is Ok <==> key_from_raw(typ, raw@) is Some,
            r matches Ok(k) ==> k@ == key_from_raw(typ, raw@).unwrap(),
    {
        match typ {
            KeyType::Int => {
                if raw.len() != 8 {
                    return Err(Error::new(to_text("Int key must be 8 bytes length")));
                }
                let w = read_u64_le(raw);
                assert(raw@.take(8) == raw@);
                proof {
                    let c = choose|x: u64| le_bytes(x) == raw@;
                    lemma_le_bytes_injective(c, w);
                }
                Ok(KeyData::Int(w as i64))
            },
            KeyType::Float => {
                if raw.len() != 8 {
                    return Err(Error::new(to_text("Float key must be 8 bytes length")));
                }
                let w = read_u64_le(raw);
                assert(raw@.take(8) == raw@);
                proof {
                    let c = choose|x: u64| le_bytes(x) == raw@;
                    lemma_le_bytes_injective(c, w);
                }
                Ok(KeyData::Float(w))
            },
            KeyType::String => match utf8_text(raw) {
                Some(s) => Ok(KeyData::String(to_text(s))),
                None => Err(Error::new(to_text("String key must be valid UTF-8"))),
            },
            KeyType::Binary => Ok(KeyData::Binary(vstd::slice::slice_to_vec(raw))),
            KeyType::Bool => {
                if raw.len() != 1 {
                    return Err(Error::new(to_text("Bool key must be 1 byte length")));
                }
                Ok(KeyData::Bool(raw[0] != 0))
            },
        }
    }

    /// Converts key data into binary representation
    pub fn into_raw(&self) -> (r: Vec<u8>)
        ensures
            r@ == raw_of(self@),
    {
        match self {
            KeyData::Int(v) => word_bytes(*v as u64),
            KeyData::Float(v) => word_bytes(*v),
            KeyData::String(v) => {
                if v.as_str().is_empty() {
                    let mut r: Vec<u8> = Vec::new();
                    r.push(0u8);
                    assert(r@ =~= seq![0u8]);
                    r
                } else {
                    let b = v.as_str().as_bytes();
                    vstd::slice::slice_to_vec(b)
                }
            },
            KeyData::Binary(v) => {
                if v.len() == 0 {
                    let mut r: Vec<u8> = Vec::new();
                    r.push(0u8);
                    assert(r@ =~= seq![0u8]);
                    r
                } else {
                    v.clone()
                }
            },
            KeyData::Bool(v) => {
                let mut r: Vec<u8> = Vec::new();
                r.push(if *v { 1u8 } else { 0u8 });
                assert(r@ =~= raw_of(self@));
                r
            },
        }
    }

    /// Converts generic value into key data
    pub fn from_val(val: &Value) -> (r: Option<Self>)
        ensures
            r is Some <==> key_of_val(val_of(*val)) is Some,
            r matches Some(k) ==> k@ == key_of_val(val_of(*val)).unwrap(),
            val matches Value::Text(s) ==> r == Some(KeyData::String(*s)),
    {
        match val {
            Value::Integer(v) => Some(KeyData::Int(*v as i64)),
            Value::Float(v) => Some(KeyData::Float(*v)),
            Value::Bytes(v) => Some(KeyData::Binary(v.clone())),
            Value::Text(v) => Some(KeyData::String(v.clone())),
            Value::Bool(v) => Some(KeyData::Bool(*v)),
            _ => None,
        }
    }

    /// Value is empty
    pub fn is_empty(&self) -> (r: bool)
        ensures
            r == key_is_empty(self@),
    {
        match self {
            KeyData::String(v) => v.as_str().is_empty(),
            KeyData::Binary(v) => v.len() == 0,
            _ => false,
        }
    }

    /// Get the actual type of key data
    pub fn get_type(&self) -> (r: KeyType)
        ensures
            r == self.spec_type(),
    {
        match self {
            KeyData::Int(..) => KeyType::Int,
            KeyData::Float(..) => KeyType::Float,
            KeyData::String(..) => KeyType::String,
            KeyData::Binary(..) => KeyType::Binary,
            KeyData::Bool(..) => KeyType::Bool,
        }
    }

    /// Simple data type casting
    pub fn as_type(&self, typ: KeyType) -> (r: Option<&KeyData>)
        ensures
            r is Some <==> self.spec_type() == typ,
            r matches Some(k) ==> k == self,
    {
        if self.get_type() == typ {
            Some(self)
        } else {
            None
        }
    }

    /// A copy of the key data
    pub fn copy(&self) -> (r: KeyData)
        ensures
            r@ == self@,
    {
        match self {
            KeyData::Int(v) => KeyData::Int(*v),
            KeyData::Float(v) => KeyData::Float(*v),
            KeyData::String(v) => KeyData::String(v.clone()),
            KeyData::Binary(v) => KeyData::Binary(v.clone()),
            KeyData::Bool(v) => KeyData::Bool(*v),
        }
    }

    /// Convert key data into specified type
    ///
    /// Conversions that involve floating-point numbers are made by `cast`.
    pub fn into_type<C: Fn(FloatCast) -> Option<KeyData>>(&self, typ: KeyType, cast: &C) -> (r: Option<KeyData>)
        requires
            float_cast_ready(*cast),
        ensures
            self.spec_type() == typ ==> (r matches Some(k) && k@ == self@),
            self.spec_type() != typ && is_float_cast(typ, self.spec_type()) ==> r == float_cast(
                *cast,
                match self {
                    KeyData::Int(v) => FloatCast::IntToFloat(*v),
                    KeyData::Float(v) => if typ == KeyType::Int {
                        FloatCast::FloatToInt(*v)
                    } else {
                        FloatCast::FloatToText(*v)
                    },
                    KeyData::String(v) => FloatCast::TextToFloat(*v),
                    _ => FloatCast::IntToFloat(0),
                },
            ),
            self.spec_type() != typ && !is_float_cast(typ, self.spec_type()) ==> (r is Some <==> key_cast(typ, self@) is Some)
                && (r matches Some(k) ==> k@ == key_cast(typ, self@).unwrap()),
            r is Some <==> converted(typ, *self, *cast) is Some,
            r matches Some(k) ==> k@ == converted(typ, *self, *cast).unwrap(),
    {
        if self.get_type() == typ {
            return Some(self.copy());
        }
        match (typ, self) {
            (KeyType::Float, KeyData::Int(v)) => call_cast(cast, FloatCast::IntToFloat(*v)),
            (KeyType::Int, KeyData::Float(v)) => call_cast(cast, FloatCast::FloatToInt(*v)),
            (KeyType::String, KeyData::Float(v)) => call_cast(cast, FloatCast::FloatToText(*v)),
            (KeyType::Float, KeyData::String(v)) => call_cast(cast, FloatCast::TextToFloat(v.clone())),
            (KeyType::String, KeyData::Int(v)) => Some(KeyData::String(integer_text(*v as i128))),
            (KeyType::String, KeyData::Bool(v)) => {
                let t = if *v { to_text("true") } else { to_text("false") };
                proof {
                    reveal_strlit("true");
                    reveal_strlit("false");
                    assert(t@ =~= bool_text(*v));
                }
                Some(KeyData::String(t))
            },
            (KeyType::Int, KeyData::String(v)) => match parse_i64(v.as_str()) {
                Some(i) => Some(KeyData::Int(i)),
                None => None,
            },
            (KeyType::Bool, KeyData::String(v)) => {
                proof {
                    reveal_strlit("true");
                    reveal_strlit("false");
                    assert("true"@ =~= bool_text(true));
                    assert("false"@ =~= bool_text(false));
                }
                if str_eq(v.as_str(), "true") {
                    Some(KeyData::Bool(true))
                } else if str_eq(v.as_str(), "false") {
                    Some(KeyData::Bool(false))
                } else {
                    None
                }
            },
            _ => None,
        }
    }
}

/// Call a floating-point conversion
fn call_cast<C: Fn(FloatCast) -> Option<KeyData>>(cast: &C, c: FloatCast) -> (r: Option<KeyData>)
    requires
        float_cast_ready(*cast),
    ensures
        r == float_cast(*cast, c),
{
    let ghost cc = c;
    let r = cast(c);
    assert(call_ensures(*cast, (cc,), r));
    r
}

/// Lexicographic order of byte strings: the first differing byte decides,
/// and a proper prefix comes first
pub open spec fn bytes_before(a: Seq<u8>, b: Seq<u8>) -> bool {
    ||| exists|i: int| 0 <= i < a.len() && i < b.len() && a.take(i) == b.take(i) && #[trigger] a[i] < b[i]
    ||| (a.len() < b.len() && a == b.take(a.len() as int))
}

/// The place of a float in the order of ordered floats: numeric order, with
/// negative and positive zero in one place and NaN above every other float
pub open spec fn float_rank(bits: u64) -> int {
    let mag = bits & 0x7fff_ffff_ffff_ffffu64;
    if mag > 0x7ff0_0000_0000_0000u64 {
        0x1_0000_0000_0000_0000int
    } else if bits >= 0x8000_0000_0000_0000u64 {
        -(mag as int)
    } else {
        mag as int
    }
}

/// The place of a key's type in the order of key data
pub open spec fn type_rank(k: Key) -> int {
    match k {
        Key::Int(_) => 0,
        Key::Float(_) => 1,
        Key::Text(_) => 2,
        Key::Binary(_) => 3,
        Key::Bool(_) => 4,
    }
}

/// The order of key data: by type (integer, float, string, binary, boolean),
/// then by value; strings by their UTF-8 bytes
pub open spec fn key_before(a: Key, b: Key) -> bool {
    if type_rank(a) != type_rank(b) {
        type_rank(a) < type_rank(b)
    } else {
        match (a, b) {
            (Key::Int(x), Key::Int(y)) => x < y,
            (Key::Float(x), Key::Float(y)) => float_rank(x) < float_rank(y),
            (Key::Text(x), Key::Text(y)) => bytes_before(vstd::utf8::encode_utf8(x), vstd::utf8::encode_utf8(y)),
            (Key::Binary(x), Key::Binary(y)) => bytes_before(x, y),
            (Key::Bool(x), Key::Bool(y)) => !x && y,
            _ => false,
        }
    }
}

/// Whether key `k` is within the upper bound `end` (included when `inc`)
pub open spec fn key_within(k: Key, end: Key, inc: bool) -> bool {
    key_before(k, end) || (inc && !key_before(end, k))
}

/// Law: an integer key made a string key and back is the same integer key
pub proof fn law_int_text_cast_round_trip(v: i64)
    ensures
        key_cast(KeyType::String, Key::Int(v as int)) == Some(Key::Text(decimal_text(v as int))),
        key_cast(KeyType::Int, Key::Text(decimal_text(v as int))) == Some(Key::Int(v as int)),
{
    law_integer_text_round_trip(v as int);
}

/// Byte strings that agree on a prefix agree at each position in it
proof fn lemma_prefix_at(s: Seq<u8>, t: Seq<u8>, k: int, i: int)
    requires
        0 <= i < k <= s.len(),
        k <= t.len(),
        s.take(k) == t.take(k),
    ensures
        s[i] == t[i],
{
    assert(s.take(k)[i] == s[i]);
    assert(t.take(k)[i] == t[i]);
}

/// Agreement on a prefix carries over to a shorter prefix
proof fn lemma_prefix_shorter(s: Seq<u8>, t: Seq<u8>, k: int, j: int)
    requires
        0 <= j <= k <= s.len(),
        k <= t.len(),
        s.take(k) == t.take(k),
    ensures
        s.take(j) == t.take(j),
{
    assert forall|i: int| 0 <= i < j implies s.take(j)[i] == t.take(j)[i] by {
        lemma_prefix_at(s, t, k, i);
    }
    assert(s.take(j) =~= t.take(j));
}

/// No byte string comes before itself, and of two, at most one comes first
proof fn lemma_bytes_asymmetric(a: Seq<u8>, b: Seq<u8>)
    ensures
        !bytes_before(a, a),
        bytes_before(a, b) ==> !bytes_before(b, a),
{
    if bytes_before(a, b) && bytes_before(b, a) {
        if exists|i: int| 0 <= i < a.len() && i < b.len() && a.take(i) == b.take(i) && #[trigger] a[i] < b[i] {
            let i = choose|i: int| 0 <= i < a.len() && i < b.len() && a.take(i) == b.take(i) && #[trigger] a[i] < b[i];
            if exists|j: int| 0 <= j < b.len() && j < a.len() && b.take(j) == a.take(j) && #[trigger] b[j] < a[j] {
                let j = choose|j: int| 0 <= j < b.len() && j < a.len() && b.take(j) == a.take(j) && #[trigger] b[j] < a[j];
                if i < j {
                    lemma_prefix_at(a, b, j, i);
                } else if j < i {
                    lemma_prefix_at(a, b, i, j);
                }
            } else {
                assert(b == a.take(b.len() as int));
                assert(a.take(b.len() as int)[i] == a[i]);
            }
        } else {
            assert(a == b.take(a.len() as int));
            if exists|j: int| 0 <= j < b.len() && j < a.len() && b.take(j) == a.take(j) && #[trigger] b[j] < a[j] {
                let j = choose|j: int| 0 <= j < b.len() && j < a.len() && b.take(j) == a.take(j) && #[trigger] b[j] < a[j];
                assert(b.take(a.len() as int)[j] == b[j]);
            }
        }
    }
}

/// The order of byte strings is transitive
proof fn lemma_bytes_transitive(a: Seq<u8>, b: Seq<u8>, c: Seq<u8>)
    requires
        bytes_before(a, b),
        bytes_before(b, c),
    ensures
        bytes_before(a, c),
{
    let ab = exists|i: int| 0 <= i < a.len() && i < b.len() && a.take(i) == b.take(i) && #[trigger] a[i] < b[i];
    let bc = exists|j: int| 0 <= j < b.len() && j < c.len() && b.take(j) == c.take(j) && #[trigger] b[j] < c[j];
    if ab {
        let i = choose|i: int| 0 <= i < a.len() && i < b.len() && a.take(i) == b.take(i) && #[trigger] a[i] < b[i];
        if bc {
            let j = choose|j: int| 0 <= j < b.len() && j < c.len() && b.take(j) == c.take(j) && #[trigger] b[j] < c[j];
            if i <= j {
                lemma_prefix_shorter(b, c, j, i);
                assert(a.take(i) =~= c.take(i));
                if i < j {
                    lemma_prefix_at(b, c, j, i);
                }
                assert(a[i] < c[i]);
            } else {
                lemma_prefix_shorter(a, b, i, j);
                lemma_prefix_at(a, b, i, j);
                assert(a.take(j) =~= c.take(j));
                assert(a[j] < c[j]);
            }
        } else {
            assert(b == c.take(b.len() as int));
            assert(c.take(b.len() as int)[i] == c[i]);
            lemma_prefix_shorter(b, c.take(b.len() as int), b.len() as int, i);
            assert(c.take(b.len() as int).take(i) =~= c.take(i));
            assert(a.take(i) =~= c.take(i));
            assert(a[i] < c[i]);
        }
    } else {
        assert(a == b.take(a.len() as int));
        if bc {
            let j = choose|j: int| 0 <= j < b.len() && j < c.len() && b.take(j) == c.take(j) && #[trigger] b[j] < c[j];
            if j < a.len() {
                assert(b.take(a.len() as int)[j] == b[j]);
                assert(b.take(a.len() as int).take(j) =~= b.take(j));
                assert(a.take(j) =~= c.take(j));
                assert(a[j] < c[j]);
            } else {
                lemma_prefix_shorter(b, c, j, a.len() as int);
                assert(a =~= c.take(a.len() as int));
            }
        } else {
            assert(b == c.take(b.len() as int));
            assert(a =~= c.take(a.len() as int));
        }
    }
}

/// Law: the order of key data is a strict order: no key comes before itself,
/// of two keys at most one comes first, and it is transitive
pub proof fn law_key_order(a: Key, b: Key, c: Key)
    ensures
        !key_before(a, a),
        key_before(a, b) ==> !key_before(b, a),
        key_before(a, b) && key_before(b, c) ==> key_before(a, c),
{
    match (a, b) {
        (Key::Text(x), Key::Text(y)) => {
            lemma_bytes_asymmetric(vstd::utf8::encode_utf8(x), vstd::utf8::encode_utf8(y));
        },
        (Key::Binary(x), Key::Binary(y)) => {
            lemma_bytes_asymmetric(x, y);
        },
        (Key::Text(x), _) => {
            lemma_bytes_asymmetric(vstd::utf8::encode_utf8(x), vstd::utf8::encode_utf8(x));
        },
        (Key::Binary(x), _) => {
            lemma_bytes_asymmetric(x, x);
        },
        _ => {},
    }
    if key_before(a, b) && key_before(b, c) {
        match (a, b, c) {
            (Key::Text(x), Key::Text(y), Key::Text(z)) => {
                lemma_bytes_transitive(vstd::utf8::encode_utf8(x), vstd::utf8::encode_utf8(y), vstd::utf8::encode_utf8(z));
            },
            (Key::Binary(x), Key::Binary(y), Key::Binary(z)) => {
                lemma_bytes_transitive(x, y, z);
            },
            _ => {},
        }
    }
}

/// Compare two byte strings lexicographically
fn bytes_less(a: &[u8], b: &[u8]) -> (r: bool)
    ensures
        r == bytes_before(a@, b@),
{
    let mut i: usize = 0;
    while i < a.len() && i < b.len()
        invariant
            i <= a@.len(),
            i <= b@.len(),
            a@.take(i as int) == b@.take(i as int),
        decreases a@.len() - i,
    {
        if a[i] != b[i] {
            let r = a[i] < b[i];
            proof {
                if !r {
                    assert forall|j: int| 0 <= j < a@.len() && j < b@.len() && a@.take(j) == b@.take(j) implies !(#[trigger] a@[j] < b@[j]) by {
                        if j < i {
                            assert(a@[j] == a@.take(i as int)[j]);
                            assert(b@[j] == b@.take(i as int)[j]);
                        } else if j > i {
                            assert(a@[i as int] == a@.take(j)[i as int]);
                            assert(b@[i as int] == b@.take(j)[i as int]);
                        }
                    }
                    if a@.len() < b@.len() && a@ == b@.take(a@.len() as int) {
                        assert(a@[i as int] == b@.take(a@.len() as int)[i as int]);
                    }
                }
            }
            return r;
        }
        proof {
            assert(a@.take(i + 1) =~= a@.take(i as int).push(a@[i as int]));
            assert(b@.take(i + 1) =~= b@.take(i as int).push(b@[i as int]));
        }
        i = i + 1;
    }
    let r = a.len() < b.len();
    proof {
        assert forall|j: int| 0 <= j < a@.len() && j < b@.len() && a@.take(j) == b@.take(j) implies !(#[trigger] a@[j] < b@[j]) by {
            assert(a@[j] == a@.take(i as int)[j]);
            assert(b@[j] == b@.take(i as int)[j]);
        }
        if r {
            assert(a@.take(i as int) =~= a@);
        }
    }
    r
}

/// The place of a float in the order of ordered floats
fn float_place(bits: u64) -> (r: i128)
    ensures
        r as int == float_rank(bits),
{
    let mag = bits & 0x7fff_ffff_ffff_ffffu64;
    if mag > 0x7ff0_0000_0000_0000u64 {
        0x1_0000_0000_0000_0000i128
    } else if bits >= 0x8000_0000_0000_0000u64 {
        -(mag as i128)
    } else {
        mag as i128
    }
}

/// The place of a key's type in the order of key data
fn type_place(k: &KeyData) -> (r: u8)
    ensures
        r as int == type_rank(k@),
{
    match k {
        KeyData::Int(_) => 0,
        KeyData::Float(_) => 1,
        KeyData::String(_) => 2,
        KeyData::Binary(_) => 3,
        KeyData::Bool(_) => 4,
    }
}

impl KeyData {
    /// Whether the key data comes before `other` in the order of key data
    pub fn before(&self, other: &KeyData) -> (r: bool)
        ensures
            r == key_before(self@, other@),
    {
        let ta = type_place(self);
        let tb = type_place(other);
        if ta != tb {
            return ta < tb;
        }
        match (self, other) {
            (KeyData::Int(x), KeyData::Int(y)) => *x < *y,
            (KeyData::Float(x), KeyData::Float(y)) => float_place(*x) < float_place(*y),
            (KeyData::String(x), KeyData::String(y)) => bytes_less(x.as_str().as_bytes(), y.as_str().as_bytes()),
            (KeyData::Binary(x), KeyData::Binary(y)) => bytes_less(x.as_slice(), y.as_slice()),
            (KeyData::Bool(x), KeyData::Bool(y)) => !*x && *y,
            _ => false,
        }
    }

    /// Whether the key data is within the upper bound `end`, included when `inc`
    pub fn within(&self, end: &KeyData, inc: bool) -> (r: bool)
        ensures
            r == key_within(self@, end@, inc),
    {
        self.before(end) || (inc && !end.before(self))
    }
}

/// Reading key data back from its binary representation, as the type it
/// has, gives the same key data: for every key but an empty string or byte
/// string, which are stored as a single zero byte
pub proof fn law_raw_round_trip(k: KeyData)
    requires
        !key_is_empty(k@),
    ensures
        key_from_raw(k.spec_type(), raw_of(k@)) == Some(k@),
{
    match k {
        KeyData::Int(v) => {
            let w = choose|x: u64| #[trigger] le_bytes(x) == le_bytes(v as u64);
            lemma_le_bytes_injective(w, v as u64);
            assert((w as i64) == v) by (bit_vector)
                requires
                    w == v as u64,
            ;
        },
        KeyData::Float(v) => {
            let w = choose|x: u64| #[trigger] le_bytes(x) == le_bytes(v);
            lemma_le_bytes_injective(w, v);
        },
        KeyData::String(s) => {
            vstd::utf8::encode_utf8_valid_utf8(s@);
            vstd::utf8::encode_utf8_decode_utf8(s@);
        },
        KeyData::Binary(b) => {},
        KeyData::Bool(b) => {},
    }
}

impl From<i64> for KeyData {
    fn from(v: i64) -> (k: Self) {
        KeyData::Int(v)
    }
}

impl vstd::std_specs::convert::FromSpecImpl<i64> for KeyData {
    open spec fn obeys_from_spec() -> bool {
        true
    }

    open spec fn from_spec(v: i64) -> Self {
        KeyData::Int(v)
    }
}

impl From<bool> for KeyData {
    fn from(v: bool) -> (k: Self) {
        KeyData::Bool(v)
    }
}

impl vstd::std_specs::convert::FromSpecImpl<bool> for KeyData {
    open spec fn obeys_from_spec() -> bool {
        true
    }

    open spec fn from_spec(v: bool) -> Self {
        KeyData::Bool(v)
    }
}

impl From<String> for KeyData {
    fn from(v: String) -> (k: Self) {
        KeyData::String(v)
    }
}

impl vstd::std_specs::convert::FromSpecImpl<String> for KeyData {
    open spec fn obeys_from_spec() -> bool {
        true
    }

    open spec fn from_spec(v: String) -> Self {
        KeyData::String(v)
    }
}

impl From<Vec<u8>> for KeyData {
    fn from(v: Vec<u8>) -> (k: Self) {
        KeyData::Binary(v)
    }
}

impl vstd::std_specs::convert::FromSpecImpl<Vec<u8>> for KeyData {
    open spec fn obeys_from_spec() -> bool {
        true
    }

    open spec fn from_spec(v: Vec<u8>) -> Self {
        KeyData::Binary(v)
    }
}

impl<'a> From<&'a str> for KeyData {
    fn from(v: &'a str) -> (k: Self)
        ensures
            k@ == Key::Text(v@),
    {
        KeyData::String(to_text(v))
    }
}

// A string key is made of a copy of the slice, which no spec value names;
// the impl's own `ensures` above says what it holds.
impl<'a> vstd::std_specs::convert::FromSpecImpl<&'a str> for KeyData {
    open spec fn obeys_from_spec() -> bool {
        false
    }

    open spec fn from_spec(v: &'a str) -> Self {
        KeyData::Bool(false)
    }
}

} // verus!
