//! JSON text of recorded fields, through `serde_json`.
use vstd::prelude::*;

verus! {

#[verifier::external_type_specification]
#[verifier::external_body]
pub struct ExJsonError(serde_json::Error);

/// The model of a list of text pairs.
pub open spec fn pairs_view(v: Seq<(String, String)>) -> Seq<(Seq<char>, Seq<char>)> {
    Seq::new(v.len(), |i: int| (v[i].0@, v[i].1@))
}

/// The compact JSON text of an object whose members are `entries`, in order.
pub uninterp spec fn json_object_text(entries: Seq<(Seq<char>, Seq<char>)>) -> Seq<char>;

/// The pretty-printed JSON text of an object whose members are `entries`, in
/// order.
pub uninterp spec fn json_object_pretty_text(entries: Seq<(Seq<char>, Seq<char>)>) -> Seq<char>;

/// Relies on `serde_json::to_string`: the compact JSON text of an object with
/// the given string members, which depends on the members alone.
#[verifier::external_body]
pub(crate) fn object_json(entries: &Vec<(String, String)>) -> (r: Result<
    String,
    serde_json::Error,
>)
    ensures
        r is Ok ==> r->Ok_0@ == json_object_text(pairs_view(entries@)),
{
    let map: serde_json::Map<String, serde_json::Value> = entries.iter().map(
        |(k, v)| (k.clone(), serde_json::Value::String(v.clone())),
    ).collect();
    serde_json::to_string(&map)
}

/// Relies on `serde_json::to_string_pretty`: the pretty-printed JSON text of
/// an object with the given string members, which depends on the members
/// alone.
#[verifier::external_body]
pub(crate) fn object_json_pretty(entries: &Vec<(String, String)>) -> (r: Result<
    String,
    serde_json::Error,
>)
    ensures
        r is Ok ==> r->Ok_0@ == json_object_pretty_text(pairs_view(entries@)),
{
    let map: serde_json::Map<String, serde_json::Value> = entries.iter().map(
        |(k, v)| (k.clone(), serde_json::Value::String(v.clone())),
    ).collect();
    serde_json::to_string_pretty(&map)
}

/// Relies on the `Display` impl of `serde_json::Error`: its message.
#[verifier::external_body]
pub(crate) fn json_error_message(e: &serde_json::Error) -> String {
    e.to_string()
}

} // verus!
