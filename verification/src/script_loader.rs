//! What an observer written in a scripting language hands back: a JSON
//! text with the members `metadata` and `content`.
use std::collections::HashMap;
use vstd::prelude::*;
use crate::event::{ObserverResult, ResultView};
use crate::fields::{distinct_keys, map_of, pair_views, FieldMap};
use crate::text::opt_text;

verus! {

/// Whether the text is a JSON document.
pub uninterp spec fn is_json(text: Seq<char>) -> bool;

/// The member `key` of the JSON object `text`, where it is a text.
pub uninterp spec fn json_string(text: Seq<char>, key: Seq<char>) -> Option<Seq<char>>;

/// The member `key` of the JSON object `text`, where it is an object of
/// text members.
pub uninterp spec fn json_map(text: Seq<char>, key: Seq<char>) -> Option<Map<Seq<char>, Seq<char>>>;

/// Whether `serde_json::from_str` reads the text as a JSON value.
#[verifier::external_body]
fn reads_as_json(text: &str) -> (r: bool)
    ensures
        r == is_json(text@),
{
    serde_json::from_str::<serde_json::Value>(text).is_ok()
}

/// Reads the text with `serde_json::from_str` as a value and hands out
/// its member `key` by `Value::get`, where `Value::as_str` gives a text.
#[verifier::external_body]
fn string_member(text: &str, key: &str) -> (r: Option<String>)
    ensures
        opt_text(r) == json_string(text@, key@),
{
    let value: serde_json::Value = serde_json::from_str(text).ok()?;
    value.get(key).and_then(|m| m.as_str()).map(|s| s.to_string())
}

/// Reads the text with `serde_json::from_str` as a value and hands out
/// the entries of its member `key`, where `serde_json::from_value` reads
/// the member as a map from strings to strings. The entries have distinct
/// keys.
#[verifier::external_body]
fn map_member(text: &str, key: &str) -> (r: Option<Vec<(String, String)>>)
    ensures
        match r {
            Some(pairs) => distinct_keys(pair_views(pairs@)) && json_map(text@, key@) == Some(
                map_of(pair_views(pairs@)),
            ),
            None => json_map(text@, key@) is None,
        },
{
    let value: serde_json::Value = serde_json::from_str(text).ok()?;
    let map: HashMap<String, String> = serde_json::from_value(value.get(key)?.clone()).ok()?;
    Some(map.into_iter().collect())
}

/// What the answer of a script observer says: nothing where the answer is
/// no JSON document; else its `metadata`, where that is an object of text
/// members, and its `content`, where that is a text.
pub open spec fn script_result(answer: Seq<char>) -> Option<ResultView> {
    if is_json(answer) {
        Some(
            ResultView {
                metadata: json_map(answer, "metadata"@),
                content: json_string(answer, "content"@),
            },
        )
    } else {
        None
    }
}

/// The view of a result that may be absent.
pub open spec fn opt_result(r: Option<ObserverResult>) -> Option<ResultView> {
    match r {
        Some(result) => Some(result@),
        None => None,
    }
}

/// Reads the answer of a script observer.
pub fn parse_script_result(answer: &str) -> (r: Option<ObserverResult>)
    ensures
        opt_result(r) == script_result(answer@),
{
    if !reads_as_json(answer) {
        return None;
    }
    let metadata = match map_member(answer, "metadata") {
        Some(pairs) => Some(FieldMap::from_pairs(&pairs)),
        None => None,
    };
    let content = string_member(answer, "content");
    Some(ObserverResult { metadata, content })
}

} // verus!
