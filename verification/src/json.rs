//! JSON values, one level at a time: what a text holds, with the parts of
//! lists and objects as JSON texts of their own.

use crate::text::{opt_text, same_text, texts};
use vstd::prelude::*;
use vstd::string::*;

verus! {

/// A JSON value. The items of a list and the members of an object are JSON
/// texts.
#[derive(Debug)]
pub enum Json {
    Null,
    Bool(bool),
    /// A number, with its value where it is whole and fits.
    Number(Option<u64>),
    Text(String),
    List(Vec<String>),
    Object(Vec<(String, String)>),
}

/// A JSON value over character sequences.
pub ghost enum JsonText {
    Null,
    Bool(bool),
    Number(Option<u64>),
    Text(Seq<char>),
    List(Seq<Seq<char>>),
    Object(Seq<(Seq<char>, Seq<char>)>),
}

/// Pairs of texts over character sequences.
pub open spec fn pair_texts(v: Seq<(String, String)>) -> Seq<(Seq<char>, Seq<char>)> {
    Seq::new(v.len(), |i: int| (v[i].0@, v[i].1@))
}

impl Json {
    /// The value over character sequences.
    pub open spec fn texts(&self) -> JsonText {
        match self {
            Json::Null => JsonText::Null,
            Json::Bool(b) => JsonText::Bool(*b),
            Json::Number(n) => JsonText::Number(*n),
            Json::Text(s) => JsonText::Text(s@),
            Json::List(v) => JsonText::List(texts(v@)),
            Json::Object(v) => JsonText::Object(pair_texts(v@)),
        }
    }
}

/// The value that a JSON text holds; the reason where it is no JSON text.
pub uninterp spec fn json_of(text: Seq<char>) -> Result<JsonText, Seq<char>>;

/// `serde_json::from_str` for a `Value`: the value that the text holds, or the
/// error in words. The parts of a list or an object are written out again as
/// compact JSON by the `Display` of `Value`.
#[verifier::external_body]
pub(crate) fn parse_json(text: &str) -> (r: Result<Json, String>)
    ensures
        match r {
            Ok(v) => json_of(text@) == Ok::<JsonText, Seq<char>>(v.texts()),
            Err(e) => json_of(text@) == Err::<JsonText, Seq<char>>(e@),
        },
{
    let part = |v: serde_json::Value| v.to_string();
    match serde_json::from_str(text).map_err(|e| e.to_string())? {
        serde_json::Value::Null => Ok(Json::Null),
        serde_json::Value::Bool(b) => Ok(Json::Bool(b)),
        serde_json::Value::Number(n) => Ok(Json::Number(n.as_u64())),
        serde_json::Value::String(s) => Ok(Json::Text(s)),
        serde_json::Value::Array(a) => Ok(Json::List(a.into_iter().map(part).collect())),
        serde_json::Value::Object(m) => Ok(
            Json::Object(m.into_iter().map(|(k, v)| (k, part(v))).collect()),
        ),
    }
}

/// The first of the pairs with a key.
pub open spec fn pair_with(pairs: Seq<(Seq<char>, Seq<char>)>, key: Seq<char>) -> Option<Seq<char>>
    decreases pairs.len(),
{
    if pairs.len() == 0 {
        None
    } else if pairs[0].0 == key {
        Some(pairs[0].1)
    } else {
        pair_with(pairs.skip(1), key)
    }
}

/// The JSON text of an object's member; nothing for a value that is no object.
pub open spec fn member_text(value: JsonText, key: Seq<char>) -> Option<Seq<char>> {
    match value {
        JsonText::Object(pairs) => pair_with(pairs, key),
        _ => None,
    }
}

/// The JSON text of an object's member.
pub fn member(value: &Json, key: &str) -> (r: Option<String>)
    ensures
        opt_text(r) == member_text(value.texts(), key@),
{
    match value {
        Json::Object(v) => {
            let ghost pairs = pair_texts(v@);
            let mut i: usize = 0;
            proof {
                assert(pairs.skip(0) =~= pairs);
            }
            while i < v.len()
                invariant
                    i <= v@.len(),
                    pairs == pair_texts(v@),
                    value.texts() == JsonText::Object(pairs),
                    pair_with(pairs, key@) == pair_with(pairs.skip(i as int), key@),
                decreases v@.len() - i,
            {
                proof {
                    assert(pairs.skip(i as int)[0] == pairs[i as int]);
                    assert(pairs.skip(i as int).skip(1) =~= pairs.skip(i + 1));
                }
                if same_text(v[i].0.as_str(), key) {
                    return Some(v[i].1.clone());
                }
                i = i + 1;
            }
            None
        },
        _ => None,
    }
}

/// The text in a JSON string; nothing for any other JSON text.
pub open spec fn string_in(json: Seq<char>) -> Option<Seq<char>> {
    match json_of(json) {
        Ok(JsonText::Text(s)) => Some(s),
        _ => None,
    }
}

/// The text in a JSON string.
pub fn read_string(json: &str) -> (r: Option<String>)
    ensures
        opt_text(r) == string_in(json@),
{
    match parse_json(json) {
        Ok(Json::Text(s)) => Some(s),
        _ => None,
    }
}

/// The text of an object's member that is a string.
pub open spec fn string_member(value: JsonText, key: Seq<char>) -> Option<Seq<char>> {
    match member_text(value, key) {
        Some(t) => string_in(t),
        None => None,
    }
}

/// The text of an object's member that is a string.
pub fn read_member(value: &Json, key: &str) -> (r: Option<String>)
    ensures
        opt_text(r) == string_member(value.texts(), key@),
{
    match member(value, key) {
        Some(t) => read_string(t.as_str()),
        None => None,
    }
}

} // verus!
