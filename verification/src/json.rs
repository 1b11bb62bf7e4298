//! JSON as the library sees it: a tagged value for the scalars the rules
//! read, and the three calls into `serde_json` that parse and quote text.

use vstd::prelude::*;
use vstd::string::StringExecFns;

verus! {

/// A JSON value reduced to what the event pipeline reads from it: scalars as
/// they are, a number by its decimal text, and an array or object by its
/// compact JSON text.
#[derive(Debug)]
pub enum JsonValue {
    Null,
    Bool(bool),
    Number(String),
    Text(String),
    Nested(String),
}

/// A `JsonValue` in contracts.
pub enum JsonModel {
    Null,
    Bool(bool),
    Number(Seq<char>),
    Text(Seq<char>),
    Nested(Seq<char>),
}

impl View for JsonValue {
    type V = JsonModel;

    open spec fn view(&self) -> JsonModel {
        match self {
            JsonValue::Null => JsonModel::Null,
            JsonValue::Bool(b) => JsonModel::Bool(*b),
            JsonValue::Number(s) => JsonModel::Number(s@),
            JsonValue::Text(s) => JsonModel::Text(s@),
            JsonValue::Nested(s) => JsonModel::Nested(s@),
        }
    }
}

/// One member of a JSON object in contracts: its key and its value.
pub type Member = (Seq<char>, JsonModel);

/// The members behind a list of key-value pairs.
pub open spec fn members_view(v: Seq<(String, JsonValue)>) -> Seq<Member> {
    Seq::new(v.len(), |i: int| (v[i].0@, v[i].1@))
}

/// The text a value is compared by: a string by its content, a number by its
/// decimal text, a boolean as `true` or `false`, null as the empty text, and
/// an array or object by its compact JSON text.
pub open spec fn rendered(v: JsonModel) -> Seq<char> {
    match v {
        JsonModel::Null => Seq::<char>::empty(),
        JsonModel::Bool(b) => if b {
            "true"@
        } else {
            "false"@
        },
        JsonModel::Number(s) => s,
        JsonModel::Text(s) => s,
        JsonModel::Nested(s) => s,
    }
}

/// A value written as JSON: a string as its literal, a number by its
/// decimal text, a boolean as `true` or `false`, null as `null`, and an
/// array or object by its compact JSON text.
pub open spec fn written(v: JsonModel) -> Seq<char> {
    match v {
        JsonModel::Null => "null"@,
        JsonModel::Bool(b) => if b {
            "true"@
        } else {
            "false"@
        },
        JsonModel::Number(s) => s,
        JsonModel::Text(s) => json_string_literal(s),
        JsonModel::Nested(s) => s,
    }
}

impl JsonValue {
    /// This value written as JSON.
    pub fn write(&self) -> (r: String)
        ensures
            r@ == written(self@),
    {
        match self {
            JsonValue::Null => String::from_str("null"),
            JsonValue::Bool(b) => if *b {
                String::from_str("true")
            } else {
                String::from_str("false")
            },
            JsonValue::Number(s) => s.clone(),
            JsonValue::Text(s) => quote(s.as_str()),
            JsonValue::Nested(s) => s.clone(),
        }
    }

    /// The text this value is compared by.
    pub fn render(&self) -> (r: String)
        ensures
            r@ == rendered(self@),
    {
        match self {
            JsonValue::Null => String::new(),
            JsonValue::Bool(b) => if *b {
                String::from_str("true")
            } else {
                String::from_str("false")
            },
            JsonValue::Number(s) => s.clone(),
            JsonValue::Text(s) => s.clone(),
            JsonValue::Nested(s) => s.clone(),
        }
    }

    /// A copy of the value.
    pub fn clone(&self) -> (r: JsonValue)
        ensures
            r@ == self@,
    {
        match self {
            JsonValue::Null => JsonValue::Null,
            JsonValue::Bool(b) => JsonValue::Bool(*b),
            JsonValue::Number(s) => JsonValue::Number(s.clone()),
            JsonValue::Text(s) => JsonValue::Text(s.clone()),
            JsonValue::Nested(s) => JsonValue::Nested(s.clone()),
        }
    }
}

/// What `serde_json` makes of a text read as one JSON object: its members in
/// rising order of their keys, one per key, or the parser's message.
pub uninterp spec fn json_object_of(text: Seq<char>) -> Result<Seq<Member>, Seq<char>>;

/// What `serde_json` makes of a text read as one JSON array: the compact
/// JSON text of each element in order, or the parser's message.
pub uninterp spec fn json_array_of(text: Seq<char>) -> Result<Seq<Seq<char>>, Seq<char>>;

/// The JSON string literal, quotes included, that `serde_json` writes for a text.
pub uninterp spec fn json_string_literal(s: Seq<char>) -> Seq<char>;

/// Calls `serde_json::from_str` for a `BTreeMap<String, Value>`, which
/// accepts a JSON object and nothing else and hands its members out sorted
/// by key. Each `Value` is moved into the matching `JsonValue`, a number
/// through `Number::to_string` and an array or object through
/// `Value::to_string`. The contract names the outcome and claims no more.
#[verifier::external_body]
pub(crate) fn parse_object(text: &str) -> (r: Result<Vec<(String, JsonValue)>, String>)
    ensures
        match r {
            Ok(members) => json_object_of(text@) == Ok::<Seq<Member>, Seq<char>>(
                members_view(members@),
            ),
            Err(message) => json_object_of(text@) == Err::<Seq<Member>, Seq<char>>(message@),
        },
{
    let parsed = serde_json::from_str::<std::collections::BTreeMap<String, serde_json::Value>>(text);
    match parsed {
        Ok(map) => Ok(map.into_iter().map(|(k, v)| (k, match v {
            serde_json::Value::Null => JsonValue::Null,
            serde_json::Value::Bool(b) => JsonValue::Bool(b),
            serde_json::Value::Number(n) => JsonValue::Number(n.to_string()),
            serde_json::Value::String(s) => JsonValue::Text(s),
            other => JsonValue::Nested(other.to_string()),
        })).collect()),
        Err(e) => Err(e.to_string()),
    }
}

/// Calls `serde_json::from_str` for a `Vec<Value>`, which accepts a JSON
/// array and nothing else, and `Value::to_string` on each element, which
/// writes it as compact JSON. The contract names the outcome and claims no more.
#[verifier::external_body]
pub(crate) fn parse_array(text: &str) -> (r: Result<Vec<String>, String>)
    ensures
        match r {
            Ok(items) => json_array_of(text@) == Ok::<Seq<Seq<char>>, Seq<char>>(
                crate::text::string_views(items@),
            ),
            Err(message) => json_array_of(text@) == Err::<Seq<Seq<char>>, Seq<char>>(message@),
        },
{
    match serde_json::from_str::<Vec<serde_json::Value>>(text) {
        Ok(items) => Ok(items.iter().map(|v| v.to_string()).collect()),
        Err(e) => Err(e.to_string()),
    }
}

/// Calls `serde_json::to_string` on a `str`, which writes it as a JSON string
/// literal. Its source reports no error for a `str`; were one reported, the
/// empty text would come back. The contract names the outcome and claims no more.
#[verifier::external_body]
pub(crate) fn quote(s: &str) -> (r: String)
    ensures
        r@ == json_string_literal(s@),
{
    match serde_json::to_string(s) {
        Ok(text) => text,
        Err(_) => String::new(),
    }
}

/// The first member with the given key.
pub open spec fn member_named(members: Seq<Member>, key: Seq<char>) -> Option<JsonModel>
    decreases members.len(),
{
    if members.len() == 0 {
        None
    } else if members[0].0 == key {
        Some(members[0].1)
    } else {
        member_named(members.skip(1), key)
    }
}

/// The first member with the given key.
pub fn find_member<'a>(members: &'a Vec<(String, JsonValue)>, key: &str) -> (r: Option<&'a JsonValue>)
    ensures
        match r {
            Some(v) => member_named(members_view(members@), key@) == Some(v@),
            None => member_named(members_view(members@), key@) is None,
        },
{
    let ghost s = members_view(members@);
    let mut i: usize = 0;
    assert(s.skip(0) == s);
    while i < members.len()
        invariant
            i <= members.len(),
            s == members_view(members@),
            member_named(s, key@) == member_named(s.skip(i as int), key@),
        decreases members.len() - i,
    {
        if crate::text::str_eq(members[i].0.as_str(), key) {
            return Some(&members[i].1);
        }
        assert(s.skip(i as int).skip(1) == s.skip(i as int + 1));
        i += 1;
    }
    None
}

} // verus!
