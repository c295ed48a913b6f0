//! JSON documents as plain data, and the trusted bridge to serde_json that
//! reads and writes them as text.
use vstd::prelude::*;

verus! {

#[verifier::external_type_specification]
#[verifier::external_body]
pub struct ExNumber(serde_json::Number);

#[verifier::external_type_specification]
#[verifier::external_body]
pub struct ExValue(serde_json::Value);

#[verifier::external_type_specification]
#[verifier::external_body]
pub struct ExJsonError(serde_json::Error);

/// A JSON value. An object keeps its members in the order of the text.
pub enum Json {
    Null,
    Bool(bool),
    Number(serde_json::Number),
    Str(String),
    Array(Vec<Json>),
    Object(Vec<(String, Json)>),
}

/// The members of an object, in order.
pub type Members = Vec<(String, Json)>;

/// `i` is the first position of `key` among the members.
pub open spec fn first_key_at(ms: Seq<(String, Json)>, key: Seq<char>, i: int) -> bool {
    0 <= i < ms.len() && ms[i].0@ == key && forall|j: int| 0 <= j < i ==> ms[j].0@ != key
}

pub open spec fn has_key(ms: Seq<(String, Json)>, key: Seq<char>) -> bool {
    exists|i: int| first_key_at(ms, key, i)
}

/// The value of the first member named `key`, as a JSON reader looks it up.
pub open spec fn member(ms: Seq<(String, Json)>, key: Seq<char>) -> Option<Json> {
    if has_key(ms, key) {
        Some(ms[choose|i: int| first_key_at(ms, key, i)].1)
    } else {
        None
    }
}

pub proof fn lemma_first_key_unique(ms: Seq<(String, Json)>, key: Seq<char>, i: int)
    requires
        first_key_at(ms, key, i),
    ensures
        has_key(ms, key),
        member(ms, key) == Some(ms[i].1),
{
    let k = choose|k: int| first_key_at(ms, key, k);
    assert(first_key_at(ms, key, k));
    if k < i {
        assert(ms[k].0@ != key);
    } else if i < k {
        assert(ms[i].0@ != key);
    }
}

/// Finds the first member named `key`.
pub fn find_key(ms: &Members, key: &String) -> (r: Option<usize>)
    ensures
        match r {
            Some(i) => first_key_at(ms@, key@, i as int) && member(ms@, key@) == Some(ms@[i as int].1),
            None => !has_key(ms@, key@) && member(ms@, key@) is None,
        },
{
    let mut i: usize = 0;
    while i < ms.len()
        invariant
            i <= ms@.len(),
            forall|j: int| 0 <= j < i ==> ms@[j].0@ != key@,
        decreases ms@.len() - i,
    {
        if ms[i].0 == *key {
            proof {
                lemma_first_key_unique(ms@, key@, i as int);
            }
            return Some(i);
        }
        i = i + 1;
    }
    proof {
        if has_key(ms@, key@) {
            let k = choose|k: int| first_key_at(ms@, key@, k);
            assert(ms@[k].0@ != key@);
        }
    }
    None
}

/// Puts `v` in place of the value of the member at `at`, keeping its name,
/// and hands back the value that stood there.
pub fn replace_member(ms: &mut Members, at: usize, v: Json) -> (r: Json)
    requires
        at < old(ms)@.len(),
    ensures
        final(ms)@ == old(ms)@.update(at as int, (old(ms)@[at as int].0, v)),
        r == old(ms)@[at as int].1,
{
    let (k, r) = ms.remove(at);
    ms.insert(at, (k, v));
    proof {
        old(ms)@.remove_ensures(at as int);
        assert(ms@ =~= old(ms)@.update(at as int, (old(ms)@[at as int].0, v)));
    }
    r
}

/// The document that serde_json reads from the text, if it reads one.
pub uninterp spec fn parsed_of(text: Seq<char>) -> Option<Json>;

/// The pretty-printed text that serde_json writes for a document.
pub uninterp spec fn pretty_of(j: Json) -> Seq<char>;

/// Relies on serde_json::from_str into a Value, whose result depends on the
/// text alone, and on the variants of serde_json::Value, each carried over
/// to the matching variant of `Json`.
#[verifier::external_body]
fn read_text(text: &str) -> (r: Result<Json, serde_json::Error>)
    ensures
        r is Ok <==> parsed_of(text@) is Some,
        r matches Ok(j) ==> parsed_of(text@) == Some(j),
{
    serde_json::from_str::<serde_json::Value>(text).map(json_from_value)
}

/// Converts a serde_json::Value variant for variant, object members in the
/// map's order (serde_json keeps insertion order with `preserve_order`).
#[verifier::external_body]
fn json_from_value(v: serde_json::Value) -> (r: Json) {
    match v {
        serde_json::Value::Null => Json::Null,
        serde_json::Value::Bool(b) => Json::Bool(b),
        serde_json::Value::Number(n) => Json::Number(n),
        serde_json::Value::String(s) => Json::Str(s),
        serde_json::Value::Array(a) => Json::Array(a.into_iter().map(json_from_value).collect()),
        serde_json::Value::Object(m) => Json::Object(
            m.into_iter().map(|(k, x)| (k, json_from_value(x))).collect(),
        ),
    }
}

/// Converts to a serde_json::Value variant for variant, collecting members
/// into a serde_json::Map, which keeps their order.
#[verifier::external_body]
fn value_from_json(j: &Json) -> (r: serde_json::Value) {
    match j {
        Json::Null => serde_json::Value::Null,
        Json::Bool(b) => serde_json::Value::Bool(*b),
        Json::Number(n) => serde_json::Value::Number(n.clone()),
        Json::Str(s) => serde_json::Value::String(s.clone()),
        Json::Array(a) => serde_json::Value::Array(a.iter().map(value_from_json).collect()),
        Json::Object(ms) => serde_json::Value::Object(
            ms.iter().map(|(k, x)| (k.clone(), value_from_json(x))).collect(),
        ),
    }
}

/// Relies on serde_json::to_string_pretty, whose text depends on the value
/// alone: two-space indentation, one member or element per line.
#[verifier::external_body]
fn write_pretty(j: &Json) -> (r: Result<String, serde_json::Error>)
    ensures
        r matches Ok(t) ==> t@ == pretty_of(*j),
{
    serde_json::to_string_pretty(&value_from_json(j))
}

/// Reads a JSON document from text.
pub fn parse_json(text: &str) -> (r: Result<Json, serde_json::Error>)
    ensures
        r is Ok <==> parsed_of(text@) is Some,
        r matches Ok(j) ==> parsed_of(text@) == Some(j),
{
    read_text(text)
}

/// Writes a JSON document as pretty-printed text.
pub fn to_pretty_text(j: &Json) -> (r: Result<String, serde_json::Error>)
    ensures
        r matches Ok(t) ==> t@ == pretty_of(*j),
{
    write_pretty(j)
}

} // verus!
