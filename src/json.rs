//! The parts of `serde_json` that the library relies on, and the names that
//! state what they return.
use vstd::prelude::*;

verus! {

#[verifier::external_type_specification]
#[verifier::external_body]
pub struct ExJsonValue(serde_json::Value);

#[verifier::external_type_specification]
#[verifier::external_body]
#[verifier::reject_recursive_types(K)]
#[verifier::reject_recursive_types(V)]
pub struct ExJsonMap<K, V>(serde_json::Map<K, V>);

/// A JSON object, as `serde_json` holds it.
pub type JsonObject = serde_json::Map<String, serde_json::Value>;

/// What the library reads of one JSON value.
pub enum JsonKind {
    Bool(bool),
    Str(Seq<char>),
    Other,
}

/// The fields of an object that the library reads, in plain values.
pub enum Scalar {
    Bool(bool),
    Str(String),
    Other,
}

impl Scalar {
    pub open spec fn kind(&self) -> JsonKind {
        match self {
            Scalar::Bool(b) => JsonKind::Bool(*b),
            Scalar::Str(s) => JsonKind::Str(s@),
            Scalar::Other => JsonKind::Other,
        }
    }
}

/// A value to store under a key of an object.
pub enum Field {
    Str(String),
    Bool(bool),
    Json(serde_json::Value),
}

/// The entries of an object, each key with the kind of its value.
pub uninterp spec fn entries_of(m: JsonObject) -> Map<Seq<char>, JsonKind>;

/// Relies on `serde_json::Map::new`: a map without entries.
#[verifier::external_body]
pub(crate) fn new_object() -> (r: JsonObject)
    ensures
        entries_of(r).dom() == Set::<Seq<char>>::empty(),
{
    serde_json::Map::new()
}

/// Relies on `serde_json::Map::insert`: the key then maps to the new value,
/// and every other entry stays as it was.
#[verifier::external_body]
pub(crate) fn insert_field(m: &mut JsonObject, key: String, value: Field)
    ensures
        entries_of(*final(m)).dom() == entries_of(*old(m)).dom().insert(key@),
        forall|k: Seq<char>|
            k != key@ ==> #[trigger] entries_of(*final(m))[k] == entries_of(*old(m))[k],
        value matches Field::Str(s) ==> entries_of(*final(m))[key@] == JsonKind::Str(s@),
        value matches Field::Bool(b) ==> entries_of(*final(m))[key@] == JsonKind::Bool(b),
{
    let v = match value {
        Field::Str(s) => serde_json::Value::String(s),
        Field::Bool(b) => serde_json::Value::Bool(b),
        Field::Json(j) => j,
    };
    m.insert(key, v);
}

/// Relies on `serde_json::Map::get`: the value stored under the key, if any.
#[verifier::external_body]
pub(crate) fn get_field(m: &JsonObject, key: &str) -> (r: Option<Scalar>)
    ensures
        r.is_some() == entries_of(*m).contains_key(key@),
        r matches Some(s) ==> entries_of(*m)[key@] == s.kind(),
{
    match m.get(key) {
        None => None,
        Some(serde_json::Value::Bool(b)) => Some(Scalar::Bool(*b)),
        Some(serde_json::Value::String(s)) => Some(Scalar::Str(s.clone())),
        Some(_) => Some(Scalar::Other),
    }
}

/// Relies on `serde_json::Map::remove`: takes the value stored under the key
/// out of the map.
#[verifier::external_body]
pub(crate) fn take_field(m: &mut JsonObject, key: &str) -> (r: Option<serde_json::Value>)
    ensures
        r.is_some() == entries_of(*old(m)).contains_key(key@),
        entries_of(*final(m)) == entries_of(*old(m)).remove(key@),
{
    m.remove(key)
}

/// How the front of a byte buffer reads as JSON.
pub enum Front {
    /// Nothing but whitespace, or the start of a value that the bytes cut
    /// short: more bytes may complete it.
    Truncated,
    /// Bytes that no continuation can turn into an object.
    Invalid,
    /// An object, read from the first `len` bytes.
    Record { len: nat, entries: Map<Seq<char>, JsonKind> },
}

/// How `serde_json` reads the front of `b` as an object.
pub uninterp spec fn json_front(b: Seq<u8>) -> Front;

/// Whether `serde_json` reads all of `s` as one JSON value.
pub uninterp spec fn json_text_valid(s: Seq<char>) -> bool;

/// The outcome of reading one object from the front of a buffer.
pub enum FrontParse {
    Truncated,
    Invalid,
    Record(JsonObject, usize),
}

impl FrontParse {
    pub open spec fn view(&self) -> Front {
        match self {
            FrontParse::Truncated => Front::Truncated,
            FrontParse::Invalid => Front::Invalid,
            FrontParse::Record(m, n) => Front::Record { len: *n as nat, entries: entries_of(*m) },
        }
    }
}

/// Relies on `serde_json::StreamDeserializer`: reads one object from the
/// front of the bytes, and how many bytes it took (leading whitespace
/// included); an error that `is_eof` reports means the bytes ended early.
#[verifier::external_body]
pub(crate) fn parse_front(buf: &[u8]) -> (r: FrontParse)
    ensures
        r@ == json_front(buf@),
        r matches FrontParse::Record(_, n) ==> 0 < n <= buf@.len(),
{
    let mut values = serde_json::Deserializer::from_slice(buf).into_iter::<JsonObject>();
    match values.next() {
        Some(Ok(m)) => FrontParse::Record(m, values.byte_offset()),
        Some(Err(e)) => if e.is_eof() { FrontParse::Truncated } else { FrontParse::Invalid },
        None => FrontParse::Truncated,
    }
}

/// Relies on `serde_json::from_str`: parses the whole text as one JSON value.
#[verifier::external_body]
pub(crate) fn parse_json(text: &str) -> (r: Option<serde_json::Value>)
    ensures
        r.is_some() == json_text_valid(text@),
{
    serde_json::from_str::<serde_json::Value>(text).ok()
}

} // verus!
