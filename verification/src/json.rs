//! JSON documents, read one level at a time.
//!
//! A JSON value is handled as its bytes. `serde_json` decodes the top level of
//! a value into a `JsonNode`, whose array items and object members are again
//! JSON bytes (their compact serde_json serialization), so a parser descends
//! one level per decode. Objects list their members in key order, as
//! serde_json's default map does.

use vstd::prelude::*;
use crate::text::{copy_str, encode_utf8, str_eq, utf8_encode};
use serde_json::Value;

verus! {

/// The top level of a decoded JSON value.
#[derive(Debug)]
pub enum JsonNode {
    Null,
    Bool(bool),
    /// The number as serde_json writes it.
    Number(String),
    Text(String),
    /// The items, each as JSON bytes.
    Array(Vec<Vec<u8>>),
    /// The members in key order, each value as JSON bytes.
    Object(Vec<(String, Vec<u8>)>),
}

/// A decoded top level as plain values.
pub enum JsonModel {
    Null,
    Bool(bool),
    Number(Seq<char>),
    Text(Seq<char>),
    Array(Seq<Seq<u8>>),
    Object(Seq<(Seq<char>, Seq<u8>)>),
}

pub open spec fn item_views(v: Seq<Vec<u8>>) -> Seq<Seq<u8>> {
    v.map_values(|b: Vec<u8>| b@)
}

pub open spec fn member_views(v: Seq<(String, Vec<u8>)>) -> Seq<(Seq<char>, Seq<u8>)> {
    v.map_values(|m: (String, Vec<u8>)| (m.0@, m.1@))
}

impl View for JsonNode {
    type V = JsonModel;

    open spec fn view(&self) -> JsonModel {
        match self {
            JsonNode::Null => JsonModel::Null,
            JsonNode::Bool(b) => JsonModel::Bool(*b),
            JsonNode::Number(n) => JsonModel::Number(n@),
            JsonNode::Text(s) => JsonModel::Text(s@),
            JsonNode::Array(items) => JsonModel::Array(item_views(items@)),
            JsonNode::Object(members) => JsonModel::Object(member_views(members@)),
        }
    }
}

/// What `serde_json::from_slice::<serde_json::Value>` makes of the bytes: the
/// value's top level, or the error's message.
pub uninterp spec fn json_decode(bytes: Seq<u8>) -> Result<JsonModel, Seq<char>>;

/// Decodes the top level of a JSON value with `serde_json::from_slice`; the
/// outcome is named `json_decode`. Items and members are re-serialized with
/// `serde_json::to_vec`, numbers written with their `Display`.
#[verifier::external_body]
pub(crate) fn decode_json(bytes: &[u8]) -> (r: Result<JsonNode, String>)
    ensures
        match r {
            Ok(n) => json_decode(bytes@) == Ok::<JsonModel, Seq<char>>(n@),
            Err(e) => json_decode(bytes@) == Err::<JsonModel, Seq<char>>(e@),
        },
{
    let to_bytes = |v: &Value| serde_json::to_vec(v).unwrap_or_default();
    let value: Value = serde_json::from_slice(bytes).map_err(|e| e.to_string())?;
    Ok(match value {
        Value::Null => JsonNode::Null,
        Value::Bool(b) => JsonNode::Bool(b),
        Value::Number(n) => JsonNode::Number(n.to_string()),
        Value::String(s) => JsonNode::Text(s),
        Value::Array(a) => JsonNode::Array(a.iter().map(to_bytes).collect()),
        Value::Object(o) => JsonNode::Object(o.iter().map(|(k, v)| (k.clone(), to_bytes(v))).collect()),
    })
}

/// The compact JSON (`serde_json::to_vec`) of a value whose top level is the
/// node and whose items and member values are the given JSON bytes.
pub uninterp spec fn json_encode(node: JsonModel) -> Seq<u8>;

/// Builds the `serde_json::Value` of a node (items and member values parsed
/// with `serde_json::from_slice`, numbers with `serde_json::from_str`) and
/// writes it with `serde_json::to_vec`; the bytes are named `json_encode`.
#[verifier::external_body]
pub(crate) fn encode_json(node: &JsonNode) -> (r: Vec<u8>)
    ensures
        r@ == json_encode(node@),
{
    let parse = |b: &Vec<u8>| serde_json::from_slice(b).unwrap_or(Value::Null);
    let value = match node {
        JsonNode::Null => Value::Null,
        JsonNode::Bool(b) => Value::Bool(*b),
        JsonNode::Number(n) => serde_json::from_str(n).unwrap_or(Value::Null),
        JsonNode::Text(s) => Value::String(s.clone()),
        JsonNode::Array(items) => Value::Array(items.iter().map(parse).collect()),
        JsonNode::Object(ms) => Value::Object(ms.iter().map(|(k, v)| (k.clone(), parse(v))).collect()),
    };
    serde_json::to_vec(&value).unwrap_or_default()
}

/// The pretty-printed form (`serde_json::to_vec_pretty`) of a JSON value.
pub uninterp spec fn json_pretty(bytes: Seq<u8>) -> Seq<u8>;

/// Parses a JSON value with `serde_json::from_slice` and writes it again with
/// `serde_json::to_vec_pretty`; the bytes are named `json_pretty`.
#[verifier::external_body]
pub(crate) fn pretty_json(bytes: &[u8]) -> (r: Vec<u8>)
    ensures
        r@ == json_pretty(bytes@),
{
    let value = serde_json::from_slice::<Value>(bytes).unwrap_or_default();
    serde_json::to_vec_pretty(&value).unwrap_or_default()
}

// ---------------------------------------------------------------------------
// Reading values (the `serde_json::Value` accessors, over JSON bytes)
// ---------------------------------------------------------------------------

/// The decoded top level, if the bytes are JSON.
pub open spec fn decoded(b: Seq<u8>) -> Option<JsonModel> {
    match json_decode(b) {
        Ok(m) => Some(m),
        Err(_) => None,
    }
}

/// The value of the first member named `key`.
pub open spec fn find_member(ms: Seq<(Seq<char>, Seq<u8>)>, key: Seq<char>) -> Option<Seq<u8>>
    decreases ms.len(),
{
    if ms.len() == 0 {
        None
    } else if ms[0].0 == key {
        Some(ms[0].1)
    } else {
        find_member(ms.drop_first(), key)
    }
}

/// `Value::get(key)`: the member of an object, else nothing.
pub open spec fn get(b: Seq<u8>, key: Seq<char>) -> Option<Seq<u8>> {
    match decoded(b) {
        Some(JsonModel::Object(ms)) => find_member(ms, key),
        _ => None,
    }
}

/// `Value::as_str`.
pub open spec fn as_str(b: Seq<u8>) -> Option<Seq<char>> {
    match decoded(b) {
        Some(JsonModel::Text(s)) => Some(s),
        _ => None,
    }
}

/// `Value::as_array`.
pub open spec fn as_array(b: Seq<u8>) -> Option<Seq<Seq<u8>>> {
    match decoded(b) {
        Some(JsonModel::Array(items)) => Some(items),
        _ => None,
    }
}

/// `Value::as_object`, as members in key order.
pub open spec fn as_object(b: Seq<u8>) -> Option<Seq<(Seq<char>, Seq<u8>)>> {
    match decoded(b) {
        Some(JsonModel::Object(ms)) => Some(ms),
        _ => None,
    }
}

/// The text of a JSON number, if the value is one.
pub open spec fn number_text(b: Seq<u8>) -> Option<Seq<char>> {
    match decoded(b) {
        Some(JsonModel::Number(t)) => Some(t),
        _ => None,
    }
}

/// `Option::and_then(Value::get)`.
pub open spec fn get_opt(b: Option<Seq<u8>>, key: Seq<char>) -> Option<Seq<u8>> {
    match b {
        Some(v) => get(v, key),
        None => None,
    }
}

/// `Option::and_then(Value::as_str)`.
pub open spec fn str_opt(b: Option<Seq<u8>>) -> Option<Seq<char>> {
    match b {
        Some(v) => as_str(v),
        None => None,
    }
}

/// `Option::and_then(Value::as_array)`.
pub open spec fn array_opt(b: Option<Seq<u8>>) -> Option<Seq<Seq<u8>>> {
    match b {
        Some(v) => as_array(v),
        None => None,
    }
}

/// `Option::and_then(Value::as_object)`.
pub open spec fn object_opt(b: Option<Seq<u8>>) -> Option<Seq<(Seq<char>, Seq<u8>)>> {
    match b {
        Some(v) => as_object(v),
        None => None,
    }
}

pub fn decode(b: &[u8]) -> (r: Option<JsonNode>)
    ensures
        r is Some <==> decoded(b@) is Some,
        r matches Some(n) ==> decoded(b@) == Some(n@),
{
    match decode_json(b) {
        Ok(n) => Some(n),
        Err(_) => None,
    }
}

pub fn find_member_exec(ms: &Vec<(String, Vec<u8>)>, key: &str) -> (r: Option<Vec<u8>>)
    ensures
        match r {
            Some(v) => find_member(member_views(ms@), key@) == Some(v@),
            None => find_member(member_views(ms@), key@) is None,
        },
{
    let ghost mv = member_views(ms@);
    assert(mv.skip(0) =~= mv);
    for i in 0..ms.len()
        invariant
            mv == member_views(ms@),
            find_member(mv, key@) == find_member(mv.skip(i as int), key@),
    {
        proof {
            assert(mv.skip(i as int)[0] == mv[i as int]);
            assert(mv.skip(i as int).drop_first() =~= mv.skip(i + 1));
        }
        if str_eq(ms[i].0.as_str(), key) {
            return Some(ms[i].1.clone());
        }
    }
    proof {
        assert(mv.skip(ms.len() as int).len() == 0);
    }
    None
}

pub fn get_member(b: &[u8], key: &str) -> (r: Option<Vec<u8>>)
    ensures
        match r {
            Some(v) => get(b@, key@) == Some(v@),
            None => get(b@, key@) is None,
        },
{
    match decode(b) {
        Some(JsonNode::Object(ms)) => find_member_exec(&ms, key),
        _ => None,
    }
}

pub fn get_str(b: &[u8]) -> (r: Option<String>)
    ensures
        match r {
            Some(s) => as_str(b@) == Some(s@),
            None => as_str(b@) is None,
        },
{
    match decode(b) {
        Some(JsonNode::Text(s)) => Some(s),
        _ => None,
    }
}

pub fn get_array(b: &[u8]) -> (r: Option<Vec<Vec<u8>>>)
    ensures
        match r {
            Some(items) => as_array(b@) == Some(item_views(items@)),
            None => as_array(b@) is None,
        },
{
    match decode(b) {
        Some(JsonNode::Array(items)) => Some(items),
        _ => None,
    }
}

pub fn get_object(b: &[u8]) -> (r: Option<Vec<(String, Vec<u8>)>>)
    ensures
        match r {
            Some(ms) => as_object(b@) == Some(member_views(ms@)),
            None => as_object(b@) is None,
        },
{
    match decode(b) {
        Some(JsonNode::Object(ms)) => Some(ms),
        _ => None,
    }
}

pub fn get_number_text(b: &[u8]) -> (r: Option<String>)
    ensures
        match r {
            Some(s) => number_text(b@) == Some(s@),
            None => number_text(b@) is None,
        },
{
    match decode(b) {
        Some(JsonNode::Number(s)) => Some(s),
        _ => None,
    }
}

/// The member `key` of an optional value.
pub fn get_member_opt(b: &Option<Vec<u8>>, key: &str) -> (r: Option<Vec<u8>>)
    ensures
        match r {
            Some(v) => get_opt(opt_bytes(*b), key@) == Some(v@),
            None => get_opt(opt_bytes(*b), key@) is None,
        },
{
    match b {
        Some(v) => get_member(v.as_slice(), key),
        None => None,
    }
}

pub fn get_str_opt(b: &Option<Vec<u8>>) -> (r: Option<String>)
    ensures
        match r {
            Some(s) => str_opt(opt_bytes(*b)) == Some(s@),
            None => str_opt(opt_bytes(*b)) is None,
        },
{
    match b {
        Some(v) => get_str(v.as_slice()),
        None => None,
    }
}

pub open spec fn opt_bytes(b: Option<Vec<u8>>) -> Option<Seq<u8>> {
    match b {
        Some(v) => Some(v@),
        None => None,
    }
}

/// The text of member `key`, if it is a string.
pub open spec fn member_str(ms: Seq<(Seq<char>, Seq<u8>)>, key: Seq<char>) -> Option<Seq<char>> {
    match find_member(ms, key) {
        Some(b) => as_str(b),
        None => None,
    }
}

pub fn member_str_exec(ms: &Vec<(String, Vec<u8>)>, key: &str) -> (r: Option<String>)
    ensures
        match r {
            Some(s) => member_str(member_views(ms@), key@) == Some(s@),
            None => member_str(member_views(ms@), key@) is None,
        },
{
    match find_member_exec(ms, key) {
        Some(b) => get_str(b.as_slice()),
        None => None,
    }
}

pub fn copy_bytes_vec(bytes: &[u8]) -> (r: Vec<u8>)
    ensures
        r@ == bytes@,
{
    let mut out: Vec<u8> = Vec::new();
    for k in 0..bytes.len()
        invariant
            out@ == bytes@.take(k as int),
    {
        out.push(bytes[k]);
        assert(out@ =~= bytes@.take(k + 1));
    }
    assert(bytes@.take(bytes.len() as int) =~= bytes@);
    out
}

// ---------------------------------------------------------------------------
// Writing sample documents
// ---------------------------------------------------------------------------

/// The JSON string literal of a text, as serde_json writes it.
pub fn json_string(s: &str) -> (r: Vec<u8>)
    ensures
        r@ == json_encode(JsonModel::Text(s@)),
{
    let node = JsonNode::Text(copy_str(s));
    encode_json(&node)
}

/// Appends the UTF-8 bytes of a text.
pub fn push_text(out: &mut Vec<u8>, s: &str)
    ensures
        final(out)@ == old(out)@ + utf8_encode(s@),
{
    let mut bytes = encode_utf8(s);
    out.append(&mut bytes);
}

/// Appends bytes.
pub fn push_bytes(out: &mut Vec<u8>, b: &[u8])
    ensures
        final(out)@ == old(out)@ + b@,
{
    let mut bytes = copy_bytes_vec(b);
    out.append(&mut bytes);
}

/// The text of an optional argument, or a default.
pub open spec fn text_or(o: Option<Seq<char>>, d: Seq<char>) -> Seq<char> {
    match o {
        Some(s) => s,
        None => d,
    }
}

pub open spec fn opt_text(o: Option<&str>) -> Option<Seq<char>> {
    match o {
        Some(s) => Some(s@),
        None => None,
    }
}

pub fn str_or<'a>(o: Option<&'a str>, d: &'a str) -> (r: &'a str)
    ensures
        r@ == text_or(opt_text(o), d@),
{
    match o {
        Some(s) => s,
        None => d,
    }
}

} // verus!
