//! Snapshot values as text, and their fingerprints.

use serde_json::Value;
use vstd::prelude::*;

use crate::json::{self, Json, JsonObject, JsonView};
use crate::services::dump_text;
use crate::services::snapshot_hash;

verus! {

/// The value type of the JSON library.
#[verifier::external_type_specification]
#[verifier::external_body]
pub struct ExValue(Value);

/// What a value of the JSON library holds.
pub uninterp spec fn held(v: Value) -> JsonView;

/// The elements of the list that a JSON text denotes, if it denotes a list.
pub uninterp spec fn parsed_list(s: Seq<char>) -> Option<Seq<JsonView>>;

/// The compact JSON text of what a value of the JSON library holds.
pub uninterp spec fn compact_text(v: JsonView) -> Seq<char>;

/// The JSON text of what a value of the JSON library holds, laid out over lines.
pub uninterp spec fn laid_out_text(v: JsonView) -> Seq<char>;

/// The SHA-256 digest of bytes.
pub uninterp spec fn sha256_digest(s: Seq<u8>) -> Seq<u8>;

/// Takes a `Value` apart, variant for variant.
#[verifier::external_body]
fn from_value(v: &Value) -> (r: Json)
    ensures
        r@ == held(*v),
{
    match v {
        Value::Null => Json::Null,
        Value::Bool(b) => Json::Bool(*b),
        Value::Number(n) => Json::Number(n.clone()),
        Value::String(s) => Json::Text(s.clone()),
        Value::Array(a) => Json::Array(a.iter().map(from_value).collect()),
        Value::Object(o) => Json::Object(JsonObject {
            entries: o.iter().map(|(k, x)| (k.clone(), from_value(x))).collect() }),
    }
}

/// Makes a `Value`, variant for variant. The entries of an object are put into the
/// library's map, which files them by their keys; of two under one key the later stays.
#[verifier::external_body]
fn to_value(j: &Json) -> (r: Value)
    ensures
        held(r) == snapshot_hash::canonical(j@),
{
    match j {
        Json::Null => Value::Null,
        Json::Bool(b) => Value::Bool(*b),
        Json::Number(n) => Value::Number(n.clone()),
        Json::Text(s) => Value::String(s.clone()),
        Json::Array(a) => Value::Array(a.iter().map(to_value).collect()),
        Json::Object(o) => Value::Object(
            o.entries.iter().map(|(k, x)| (k.clone(), to_value(x))).collect()),
    }
}

/// `serde_json::to_string` for a value, which never fails: a function of what the value
/// holds.
#[verifier::external_body]
fn compact(v: &Value) -> (r: String)
    ensures
        r@ == compact_text(held(*v)),
{
    serde_json::to_string(v).unwrap_or_default()
}

/// `serde_json::to_string_pretty` for a value, which never fails: a function of what the
/// value holds.
#[verifier::external_body]
fn lay_out(v: &Value) -> (r: String)
    ensures
        r@ == laid_out_text(held(*v)),
{
    serde_json::to_string_pretty(v).unwrap_or_default()
}

/// `serde_json::from_str` for a list of values: whether the text denotes a list, and
/// which, is a function of the text.
#[verifier::external_body]
fn parse_values(text: &str) -> (r: Option<Vec<Value>>)
    ensures
        match r {
            Some(v) => parsed_list(text@) == Some(v@.map_values(|x: Value| held(x))),
            None => parsed_list(text@) is None,
        },
{
    serde_json::from_str(text).ok()
}

/// `sha2::Sha256::digest`: thirty-two bytes, a function of the bytes alone.
#[verifier::external_body]
fn sha256(data: &[u8]) -> (r: Vec<u8>)
    ensures
        r@ == sha256_digest(data@),
        r@.len() == 32,
{
    <sha2::Sha256 as sha2::Digest>::digest(data).to_vec()
}

/// `hex::encode`: two small hexadecimal digits for each byte.
#[verifier::external_body]
fn hex_encode(data: &[u8]) -> (r: String)
    ensures
        r@ == dump_text::hex_text(data@),
{
    hex::encode(data)
}

/// The compact JSON text of a value, its keys in order.
pub open spec fn json_text(v: JsonView) -> Seq<char> {
    compact_text(snapshot_hash::canonical(v))
}

/// The JSON text of a value, its keys in order, laid out over lines.
pub open spec fn pretty_text(v: JsonView) -> Seq<char> {
    laid_out_text(snapshot_hash::canonical(v))
}

/// The JSON text of a value, its keys in order, laid out over lines.
pub fn write_pretty(j: &Json) -> (r: String)
    ensures
        r@ == pretty_text(j@),
{
    lay_out(&to_value(j))
}

/// The compact JSON text of a value, its keys in order.
pub fn write_json(j: &Json) -> (r: String)
    ensures
        r@ == json_text(j@),
{
    compact(&to_value(j))
}

/// The elements of the list that a JSON text denotes.
pub fn read_json_list(text: &str) -> (r: Option<Vec<Json>>)
    ensures
        match r {
            Some(v) => parsed_list(text@) == Some(json::json_views(v@)),
            None => parsed_list(text@) is None,
        },
{
    match parse_values(text) {
        None => None,
        Some(values) => {
            let ghost all = values@.map_values(|x: Value| held(x));
            let mut out: Vec<Json> = Vec::new();
            assert(json::json_views(out@) =~= all.take(0));
            for i in 0..values.len()
                invariant
                    all == values@.map_values(|x: Value| held(x)),
                    json::json_views(out@) == all.take(i as int),
            {
                let x = from_value(&values[i]);
                proof {
                    json::lemma_json_views_push(out@, x);
                    assert(all.take(i + 1) =~= all.take(i as int).push(all[i as int]));
                }
                out.push(x);
            }
            assert(all.take(all.len() as int) =~= all);
            Some(out)
        },
    }
}

/// The SHA-256 digest of bytes, in hexadecimal digits: sixty-four small ones.
pub fn sha256_hex(data: &[u8]) -> (r: String)
    ensures
        r@ == dump_text::hex_text(sha256_digest(data@)),
        r@.len() == 64,
        forall|i: int| 0 <= i < r@.len() ==> dump_text::is_small_hex(#[trigger] r@[i]),
{
    let d = sha256(data);
    proof {
        dump_text::lemma_hex_text_small(d@);
    }
    hex_encode(&d)
}

} // verus!
