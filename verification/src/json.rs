//! A parsed JSON document, as the tools' machine-readable outputs (Cargo's
//! metadata and message stream, Nimble's dump) are read: the lookups the
//! ingestion code makes are a member of an object by key, a string, a
//! boolean and an array. The text is parsed by `serde_json`, whose
//! reading of a text is named, as a document, by [`json_parse`].

use vstd::prelude::*;

use crate::resource_scheduler::strings_view;
use crate::text::str_eq;

verus! {

/// A JSON value. Numbers keep their text.
#[derive(Debug)]
pub enum JsonValue {
    Null,
    Bool(bool),
    Number(String),
    Str(String),
    Array(Vec<JsonValue>),
    Object(Vec<JsonMember>),
}

/// One member of an object.
#[derive(Debug)]
pub struct JsonMember {
    pub key: String,
    pub value: JsonValue,
}

/// The value of the first member of `m` from position `k` on named `key`.
pub open spec fn member_from(m: Seq<JsonMember>, key: Seq<char>, k: int) -> Option<JsonValue>
    decreases m.len() - k,
{
    if k < 0 || k >= m.len() {
        None
    } else if m[k].key@ == key {
        Some(m[k].value)
    } else {
        member_from(m, key, k + 1)
    }
}

/// The member of object `v` named `key`; nothing for a non-object.
pub open spec fn member(v: JsonValue, key: Seq<char>) -> Option<JsonValue> {
    match v {
        JsonValue::Object(m) => member_from(m@, key, 0),
        _ => None,
    }
}

/// The text of a string value.
pub open spec fn str_of(v: Option<JsonValue>) -> Option<Seq<char>> {
    match v {
        Some(JsonValue::Str(s)) => Some(s@),
        _ => None,
    }
}

/// The items of an array value.
pub open spec fn array_of(v: Option<JsonValue>) -> Option<Seq<JsonValue>> {
    match v {
        Some(JsonValue::Array(items)) => Some(items@),
        _ => None,
    }
}

/// The value of a boolean.
pub open spec fn bool_of(v: Option<JsonValue>) -> Option<bool> {
    match v {
        Some(JsonValue::Bool(b)) => Some(b),
        _ => None,
    }
}

/// The members of an object value.
pub open spec fn object_of(v: Option<JsonValue>) -> Option<Seq<JsonMember>> {
    match v {
        Some(JsonValue::Object(m)) => Some(m@),
        _ => None,
    }
}

/// The texts of the string items, in order; other items are skipped.
pub open spec fn strs_of(items: Seq<JsonValue>) -> Seq<Seq<char>>
    decreases items.len(),
{
    if items.len() == 0 {
        Seq::empty()
    } else {
        let rest = strs_of(items.drop_last());
        match items.last() {
            JsonValue::Str(s) => rest.push(s@),
            _ => rest,
        }
    }
}

/// The first member of `m` named `key`.
pub fn lookup<'a>(m: &'a Vec<JsonMember>, key: &str) -> (r: Option<&'a JsonValue>)
    ensures
        match r {
            Some(x) => member_from(m@, key@, 0) == Some(*x),
            None => member_from(m@, key@, 0) is None,
        },
{
    let mut k: usize = 0;
    while k < m.len()
        invariant
            k <= m@.len(),
            member_from(m@, key@, 0) == member_from(m@, key@, k as int),
        decreases m@.len() - k,
    {
        if str_eq(m[k].key.as_str(), key) {
            proof {
                assert(m@[k as int].key@ == key@);
            }
            return Some(&m[k].value);
        }
        k = k + 1;
    }
    None
}

/// The member of `v` named `key`, if `v` is an object that has one.
pub fn get<'a>(v: &'a JsonValue, key: &str) -> (r: Option<&'a JsonValue>)
    ensures
        match r {
            Some(x) => member(*v, key@) == Some(*x),
            None => member(*v, key@) is None,
        },
{
    match v {
        JsonValue::Object(m) => lookup(m, key),
        _ => None,
    }
}

/// The text of a string value.
pub fn as_str(v: Option<&JsonValue>) -> (r: Option<&str>)
    ensures
        match r {
            Some(s) => v matches Some(x) && str_of(Some(*x)) == Some(s@),
            None => match v {
                Some(x) => str_of(Some(*x)) is None,
                None => true,
            },
        },
{
    match v {
        Some(JsonValue::Str(s)) => Some(s.as_str()),
        _ => None,
    }
}

/// The value of a boolean.
pub fn as_bool(v: Option<&JsonValue>) -> (r: Option<bool>)
    ensures
        r == match v {
            Some(x) => bool_of(Some(*x)),
            None => None,
        },
{
    match v {
        Some(JsonValue::Bool(b)) => Some(*b),
        _ => None,
    }
}

/// The texts of the string items of `items`, in order.
pub fn string_items(items: &Vec<JsonValue>) -> (r: Vec<String>)
    ensures
        strings_view(r@) == strs_of(items@),
{
    let mut out: Vec<String> = Vec::new();
    let mut k: usize = 0;
    while k < items.len()
        invariant
            k <= items@.len(),
            strings_view(out@) == strs_of(items@.take(k as int)),
        decreases items@.len() - k,
    {
        proof {
            assert(items@.take(k + 1).drop_last() =~= items@.take(k as int));
        }
        let ghost prev = out@;
        match &items[k] {
            JsonValue::Str(s) => {
                out.push(s.clone());
                proof {
                    assert(strings_view(out@) =~= strings_view(prev).push(s@));
                }
            },
            _ => {},
        }
        k = k + 1;
    }
    proof {
        assert(items@.take(items@.len() as int) =~= items@);
    }
    out
}

/// A JSON document as a value: what a text reads as.
pub enum JsonDoc {
    Null,
    Bool(bool),
    Number(Seq<char>),
    Str(Seq<char>),
    Array(Seq<JsonDoc>),
    Object(Seq<(Seq<char>, JsonDoc)>),
}

/// The document a value holds.
pub open spec fn doc_of(v: JsonValue) -> JsonDoc
    decreases v,
{
    match v {
        JsonValue::Null => JsonDoc::Null,
        JsonValue::Bool(b) => JsonDoc::Bool(b),
        JsonValue::Number(n) => JsonDoc::Number(n@),
        JsonValue::Str(s) => JsonDoc::Str(s@),
        JsonValue::Array(items) => JsonDoc::Array(
            Seq::new(
                items@.len(),
                |i: int|
                    if 0 <= i < items@.len() {
                        doc_of(items@[i])
                    } else {
                        JsonDoc::Null
                    },
            ),
        ),
        JsonValue::Object(m) => JsonDoc::Object(
            Seq::new(
                m@.len(),
                |i: int|
                    if 0 <= i < m@.len() {
                        (m@[i].key@, doc_of(m@[i].value))
                    } else {
                        (Seq::empty(), JsonDoc::Null)
                    },
            ),
        ),
    }
}

/// What `serde_json` reads `text` as: its document, or the text of its
/// error.
pub uninterp spec fn json_parse(text: Seq<char>) -> Result<JsonDoc, Seq<char>>;

#[verifier::external_type_specification]
#[verifier::external_body]
pub struct ExSerdeJsonValue(serde_json::Value);

/// A `serde_json` value as the library's value, one variant for one.
#[verifier::external_body]
fn value_of(v: &serde_json::Value) -> JsonValue {
    match v {
        serde_json::Value::Null => JsonValue::Null,
        serde_json::Value::Bool(b) => JsonValue::Bool(*b),
        serde_json::Value::Number(n) => JsonValue::Number(n.to_string()),
        serde_json::Value::String(s) => JsonValue::Str(s.clone()),
        serde_json::Value::Array(items) => JsonValue::Array(items.iter().map(value_of).collect()),
        serde_json::Value::Object(m) => JsonValue::Object(
            m.iter().map(|(k, x)| JsonMember { key: k.clone(), value: value_of(x) }).collect(),
        ),
    }
}

/// `serde_json::from_str` of `text` into a document, or the parser's
/// error message.
#[verifier::external_body]
pub(crate) fn parse_json_text(text: &str) -> (r: Result<JsonValue, String>)
    ensures
        match json_parse(text@) {
            Ok(d) => r matches Ok(v) && doc_of(v) == d,
            Err(m) => r matches Err(x) && x@ == m,
        },
{
    match serde_json::from_str::<serde_json::Value>(text) {
        Ok(v) => Ok(value_of(&v)),
        Err(e) => Err(e.to_string()),
    }
}

} // verus!
