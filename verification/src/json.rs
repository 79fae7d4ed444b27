//! JSON documents (`cargo metadata` output, Cargo fingerprints) held as plain
//! values, read with `serde_json`, and the lookups the library makes in them.
use vstd::prelude::*;

use crate::order::views;
use crate::text::str_eq;

verus! {

/// A JSON value. Numbers keep their text; objects keep their members in the
/// order `serde_json` gives them (each key once).
#[derive(Debug)]
pub enum Json {
    Null,
    Bool(bool),
    Number(String),
    Str(String),
    Array(Vec<Json>),
    Object(Vec<(String, Json)>),
}

#[verifier::external_type_specification]
#[verifier::external_body]
pub struct ExJsonValue(serde_json::Value);

/// Names what `serde_json::from_slice::<serde_json::Value>` makes of `bytes`:
/// the document, or `None` where the bytes are not JSON.
pub uninterp spec fn json_document(bytes: Seq<u8>) -> Option<Json>;

#[verifier::external_type_specification]
#[verifier::external_body]
pub struct ExJsonError(serde_json::Error);

/// Parses `bytes` with `serde_json::from_slice` into a `serde_json::Value`
/// and carries it over into a `Json`; `serde_json`'s error where the bytes
/// are not JSON. What document comes out of which bytes is left to the name
/// `json_document`.
#[verifier::external_body]
pub(crate) fn parse_json(bytes: &[u8]) -> (doc: Result<Json, serde_json::Error>)
    ensures
        doc is Ok <==> json_document(bytes@) is Some,
        doc matches Ok(d) ==> json_document(bytes@) == Some(d),
{
    serde_json::from_slice::<serde_json::Value>(bytes).map(|v| json_from_value(&v))
}

/// Reads a JSON document: `None` where the bytes are not JSON.
pub fn read_json(bytes: &[u8]) -> (doc: Option<Json>)
    ensures
        doc == json_document(bytes@),
{
    match parse_json(bytes) {
        Ok(d) => Some(d),
        Err(_) => None,
    }
}

/// Carries a `serde_json::Value` over, variant by variant.
#[verifier::external_body]
fn json_from_value(value: &serde_json::Value) -> Json {
    match value {
        serde_json::Value::Null => Json::Null,
        serde_json::Value::Bool(b) => Json::Bool(*b),
        serde_json::Value::Number(n) => Json::Number(n.to_string()),
        serde_json::Value::String(s) => Json::Str(s.clone()),
        serde_json::Value::Array(items) => Json::Array(items.iter().map(json_from_value).collect()),
        serde_json::Value::Object(map) => Json::Object(
            map.iter().map(|(k, v)| (k.clone(), json_from_value(v))).collect(),
        ),
    }
}

/// The value of the first member called `key` among `members`.
pub open spec fn member(members: Seq<(String, Json)>, key: Seq<char>) -> Option<Json>
    decreases members.len(),
{
    if members.len() == 0 {
        None
    } else if members[0].0@ == key {
        Some(members[0].1)
    } else {
        member(members.drop_first(), key)
    }
}

/// `Value::get` with a string key.
pub open spec fn json_get(j: Json, key: Seq<char>) -> Option<Json> {
    match j {
        Json::Object(members) => member(members@, key),
        _ => None,
    }
}

/// `Value::as_str`.
pub open spec fn json_str(j: Json) -> Option<Seq<char>> {
    match j {
        Json::Str(s) => Some(s@),
        _ => None,
    }
}

/// `Value::as_array`.
pub open spec fn json_array(j: Json) -> Option<Seq<Json>> {
    match j {
        Json::Array(items) => Some(items@),
        _ => None,
    }
}

/// `v.get(key).and_then(Value::as_str)`.
pub open spec fn str_at(j: Json, key: Seq<char>) -> Option<Seq<char>> {
    match json_get(j, key) {
        Some(v) => json_str(v),
        None => None,
    }
}

/// `v.get(key).and_then(Value::as_array)`.
pub open spec fn array_at(j: Json, key: Seq<char>) -> Option<Seq<Json>> {
    match json_get(j, key) {
        Some(v) => json_array(v),
        None => None,
    }
}

/// Whether any item of `items` is the string `s`.
pub open spec fn has_string(items: Seq<Json>, s: Seq<char>) -> bool {
    exists|i: int| 0 <= i < items.len() && json_str(items[i]) == Some(s)
}

/// A cargo-metadata target whose `kind` list holds `kind`.
pub open spec fn target_has_kind_spec(target: Json, kind: Seq<char>) -> bool {
    match array_at(target, "kind"@) {
        Some(kinds) => has_string(kinds, kind),
        None => false,
    }
}

impl Json {
    /// `Value::get` with a string key.
    pub fn get(&self, key: &str) -> (r: Option<&Json>)
        ensures
            match json_get(*self, key@) {
                Some(v) => r matches Some(x) && *x == v,
                None => r is None,
            },
    {
        match self {
            Json::Object(members) => {
                let mut i: usize = 0;
                assert(members@.skip(0) == members@);
                while i < members.len()
                    invariant
                        i <= members@.len(),
                        json_get(*self, key@) == member(members@.skip(i as int), key@),
                    decreases members@.len() - i,
                {
                    assert(members@.skip(i as int)[0] == members@[i as int]);
                    assert(members@.skip(i as int).drop_first() == members@.skip(i + 1));
                    if str_eq(members[i].0.as_str(), key) {
                        return Some(&members[i].1);
                    }
                    i = i + 1;
                }
                None
            },
            _ => None,
        }
    }

    /// `Value::as_str`.
    pub fn as_str(&self) -> (r: Option<&str>)
        ensures
            match json_str(*self) {
                Some(s) => r matches Some(x) && x@ == s,
                None => r is None,
            },
    {
        match self {
            Json::Str(s) => Some(s.as_str()),
            _ => None,
        }
    }

    /// `Value::as_array`.
    pub fn as_array(&self) -> (r: Option<&Vec<Json>>)
        ensures
            match json_array(*self) {
                Some(items) => r matches Some(x) && x@ == items,
                None => r is None,
            },
    {
        match self {
            Json::Array(items) => Some(items),
            _ => None,
        }
    }

    /// `self.get(key).and_then(Value::as_str)`.
    pub fn str_at(&self, key: &str) -> (r: Option<&str>)
        ensures
            match str_at(*self, key@) {
                Some(s) => r matches Some(x) && x@ == s,
                None => r is None,
            },
    {
        match self.get(key) {
            Some(v) => v.as_str(),
            None => None,
        }
    }

    /// `self.get(key).and_then(Value::as_array)`.
    pub fn array_at(&self, key: &str) -> (r: Option<&Vec<Json>>)
        ensures
            match array_at(*self, key@) {
                Some(items) => r matches Some(x) && x@ == items,
                None => r is None,
            },
    {
        match self.get(key) {
            Some(v) => v.as_array(),
            None => None,
        }
    }
}

/// Whether some item of `items` is the string `s`.
pub fn contains_string(items: &Vec<Json>, s: &str) -> (found: bool)
    ensures
        found == has_string(items@, s@),
{
    let mut i: usize = 0;
    while i < items.len()
        invariant
            i <= items@.len(),
            forall|k: int| 0 <= k < i ==> json_str(#[trigger] items@[k]) != Some(s@),
        decreases items@.len() - i,
    {
        match items[i].as_str() {
            Some(x) => {
                if str_eq(x, s) {
                    return true;
                }
            },
            None => {},
        }
        i = i + 1;
    }
    false
}

/// Whether a cargo-metadata target's `kind` list holds `kind`.
pub fn target_has_kind(target: &Json, kind: &str) -> (has: bool)
    ensures
        has == target_has_kind_spec(*target, kind@),
{
    match target.array_at("kind") {
        Some(kinds) => contains_string(kinds, kind),
        None => false,
    }
}


/// The string items of a JSON array (`filter_map(Value::as_str)`).
pub open spec fn strings_in(items: Seq<Json>) -> Seq<Seq<char>>
    decreases items.len(),
{
    if items.len() == 0 {
        seq![]
    } else {
        let rest = strings_in(items.drop_last());
        match json_str(items.last()) {
            Some(s) => rest.push(s),
            None => rest,
        }
    }
}

/// Appends the string items of `items`, in order.
pub fn push_strings(out: &mut Vec<String>, items: &Vec<Json>)
    ensures
        views(final(out)@) == views(old(out)@) + strings_in(items@),
{
    let ghost start = views(out@);
    let mut i: usize = 0;
    while i < items.len()
        invariant
            i <= items@.len(),
            views(out@) == start + strings_in(items@.take(i as int)),
        decreases items@.len() - i,
    {
        assert(items@.take(i + 1).drop_last() == items@.take(i as int));
        assert(items@.take(i + 1).last() == items@[i as int]);
        match items[i].as_str() {
            Some(s) => {
                let ghost before = views(out@);
                out.push(String::from_str(s));
                assert(views(out@) == before.push(s@));
            },
            None => {},
        }
        i = i + 1;
    }
    assert(items@.take(items@.len() as int) == items@);
}

} // verus!
