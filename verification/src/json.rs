//! JSON documents as the library reads them. The text is parsed by
//! `serde_json`; the library decodes the values, with the rules that a
//! derived `Deserialize` applies.

use vstd::prelude::*;
use crate::text::str_eq;

verus! {

/// A JSON value. An object keeps its members in order; its keys are
/// distinct.
#[derive(Debug)]
pub enum JsonValue {
    Null,
    Bool(bool),
    /// A number, by its text.
    Number(String),
    Str(String),
    Array(Vec<JsonValue>),
    Object(Vec<(String, JsonValue)>),
}

#[verifier::external_type_specification]
#[verifier::external_body]
pub struct ExJsonError(serde_json::Error);

#[verifier::external_type_specification]
#[verifier::external_body]
pub struct ExJsonTree(serde_json::Value);

/// The document that `serde_json` reads from a text, or none where the text
/// is not JSON.
pub uninterp spec fn json_from_str(text: Seq<char>) -> Option<JsonValue>;

/// The document that `serde_json` reads from bytes, or none where they are
/// not UTF-8 JSON.
pub uninterp spec fn json_from_slice(bytes: Seq<u8>) -> Option<JsonValue>;

/// Converts `serde_json`'s tree into a `JsonValue` node for node; the
/// members of an object come in the order of `serde_json`'s map.
#[verifier::external_body]
fn json_of_tree(v: &serde_json::Value) -> JsonValue {
    match v {
        serde_json::Value::Null => JsonValue::Null,
        serde_json::Value::Bool(b) => JsonValue::Bool(*b),
        serde_json::Value::Number(n) => JsonValue::Number(n.to_string()),
        serde_json::Value::String(t) => JsonValue::Str(t.clone()),
        serde_json::Value::Array(a) => JsonValue::Array(a.iter().map(json_of_tree).collect()),
        serde_json::Value::Object(m) => {
            JsonValue::Object(m.iter().map(|(k, x)| (k.clone(), json_of_tree(x))).collect())
        },
    }
}

/// `serde_json::from_str` into a JSON tree: the document the text holds,
/// as `json_from_str` names it, or the parser's error.
#[verifier::external_body]
pub(crate) fn parse_json_str(text: &str) -> (r: Result<JsonValue, serde_json::Error>)
    ensures
        match json_from_str(text@) {
            Some(v) => r is Ok && r->Ok_0 == v,
            None => r is Err,
        },
{
    match serde_json::from_str::<serde_json::Value>(text) {
        Ok(v) => Ok(json_of_tree(&v)),
        Err(e) => Err(e),
    }
}

/// `serde_json::from_slice` into a JSON tree: the document the bytes hold,
/// as `json_from_slice` names it, or the parser's error.
#[verifier::external_body]
pub(crate) fn parse_json_slice(bytes: &[u8]) -> (r: Result<JsonValue, serde_json::Error>)
    ensures
        match json_from_slice(bytes@) {
            Some(v) => r is Ok && r->Ok_0 == v,
            None => r is Err,
        },
{
    match serde_json::from_slice::<serde_json::Value>(bytes) {
        Ok(v) => Ok(json_of_tree(&v)),
        Err(e) => Err(e),
    }
}

/// The value of the first member of `members` named `key`.
pub open spec fn member(members: Seq<(String, JsonValue)>, key: Seq<char>) -> Option<JsonValue>
    decreases members.len(),
{
    if members.len() == 0 {
        None
    } else if members[0].0@ == key {
        Some(members[0].1)
    } else {
        member(members.drop_first(), key)
    }
}

/// The value of the first member named `key`.
pub fn get_member<'a>(members: &'a Vec<(String, JsonValue)>, key: &str) -> (r: Option<&'a JsonValue>)
    ensures
        match member(members@, key@) {
            Some(v) => r is Some && *r->0 == v,
            None => r is None,
        },
{
    let mut i: usize = 0;
    assert(members@.subrange(0, members@.len() as int) =~= members@);
    while i < members.len()
        invariant
            i <= members@.len(),
            member(members@, key@) == member(members@.subrange(i as int, members@.len() as int), key@),
        decreases members@.len() - i,
    {
        assert(members@.subrange(i as int, members@.len() as int).drop_first() =~= members@.subrange(
            i + 1,
            members@.len() as int,
        ));
        if str_eq(members[i].0.as_str(), key) {
            return Some(&members[i].1);
        }
        i = i + 1;
    }
    None
}

/// What an optional string field decodes to: absent or `null` is none, a
/// string is itself, anything else is an error (outer `None`).
pub open spec fn decode_opt_string(v: Option<JsonValue>) -> Option<Option<Seq<char>>> {
    match v {
        None => Some(None),
        Some(JsonValue::Null) => Some(None),
        Some(JsonValue::Str(s)) => Some(Some(s@)),
        _ => None,
    }
}

/// What an optional boolean field decodes to.
pub open spec fn decode_opt_bool(v: Option<JsonValue>) -> Option<Option<bool>> {
    match v {
        None => Some(None),
        Some(JsonValue::Null) => Some(None),
        Some(JsonValue::Bool(b)) => Some(Some(b)),
        _ => None,
    }
}

/// Every member of the object has a string value.
pub open spec fn all_string_values(members: Seq<(String, JsonValue)>) -> bool {
    forall|i: int| 0 <= i < members.len() ==> (#[trigger] members[i]).1 is Str
}

/// The keys of the members.
pub open spec fn member_keys(members: Seq<(String, JsonValue)>) -> Seq<Seq<char>> {
    members.map_values(|m: (String, JsonValue)| m.0@)
}

/// What a string-to-string map field with a default decodes to, by its
/// keys: absent is empty, an object of strings gives its keys, anything else
/// (`null` too) is an error.
pub open spec fn decode_string_map_keys(v: Option<JsonValue>) -> Option<Seq<Seq<char>>> {
    match v {
        None => Some(seq![]),
        Some(JsonValue::Object(m)) => if all_string_values(m@) {
            Some(member_keys(m@))
        } else {
            None
        },
        _ => None,
    }
}

/// Copies a string.
pub fn copy_string(s: &String) -> (r: String)
    ensures
        r@ == s@,
{
    s.clone()
}

/// Decodes an optional string field.
pub fn opt_string(v: Option<&JsonValue>) -> (r: Result<Option<String>, ()>)
    ensures
        match decode_opt_string(
            match v {
                Some(x) => Some(*x),
                None => None,
            },
        ) {
            Some(Some(s)) => r matches Ok(Some(t)) && t@ == s,
            Some(None) => r matches Ok(None),
            None => r is Err,
        },
{
    match v {
        None => Ok(None),
        Some(JsonValue::Null) => Ok(None),
        Some(JsonValue::Str(s)) => Ok(Some(copy_string(s))),
        _ => Err(()),
    }
}

/// Decodes an optional boolean field.
pub fn opt_bool(v: Option<&JsonValue>) -> (r: Result<Option<bool>, ()>)
    ensures
        match decode_opt_bool(
            match v {
                Some(x) => Some(*x),
                None => None,
            },
        ) {
            Some(b) => r == Ok::<Option<bool>, ()>(b),
            None => r is Err,
        },
{
    match v {
        None => Ok(None),
        Some(JsonValue::Null) => Ok(None),
        Some(JsonValue::Bool(b)) => Ok(Some(*b)),
        _ => Err(()),
    }
}

/// Decodes the keys of a string-to-string map field with a default.
pub fn string_map_keys(v: Option<&JsonValue>) -> (r: Result<Vec<String>, ()>)
    ensures
        match decode_string_map_keys(
            match v {
                Some(x) => Some(*x),
                None => None,
            },
        ) {
            Some(keys) => r is Ok && r->Ok_0@.map_values(|s: String| s@) == keys,
            None => r is Err,
        },
{
    match v {
        None => {
            let r: Vec<String> = Vec::new();
            assert(r@.map_values(|s: String| s@) =~= Seq::<Seq<char>>::empty());
            Ok(r)
        },
        Some(JsonValue::Object(m)) => {
            let mut keys: Vec<String> = Vec::new();
            let mut i: usize = 0;
            while i < m.len()
                invariant
                    i <= m@.len(),
                    v is Some && *v->0 == JsonValue::Object(*m),
                    keys@.map_values(|s: String| s@) == member_keys(m@.take(i as int)),
                    forall|j: int| 0 <= j < i ==> (#[trigger] m@[j]).1 is Str,
                decreases m@.len() - i,
            {
                match &m[i].1 {
                    JsonValue::Str(_) => {},
                    _ => {
                        assert(!all_string_values(m@));
                        assert(decode_string_map_keys(Some(JsonValue::Object(*m))) is None);
                        return Err(());
                    },
                }
                keys.push(copy_string(&m[i].0));
                assert(member_keys(m@.take(i + 1)) =~= member_keys(m@.take(i as int)).push(
                    m@[i as int].0@,
                ));
                assert(keys@.map_values(|s: String| s@) =~= member_keys(m@.take(i as int)).push(
                    m@[i as int].0@,
                ));
                i = i + 1;
            }
            assert(m@.take(m@.len() as int) =~= m@);
            Ok(keys)
        },
        _ => Err(()),
    }
}

} // verus!
