//! Reading JSON documents through `serde_json`.

use vstd::prelude::*;

verus! {

#[verifier::external_type_specification]
#[verifier::external_body]
pub struct ExValue(serde_json::Value);

#[verifier::external_type_specification]
#[verifier::external_body]
pub struct ExError(serde_json::Error);

/// What a JSON value holds, as far as this crate reads it.
pub ghost enum JsonView {
    /// A string.
    Text(Seq<char>),
    /// The members of an object, in the order in which they are walked.
    Object(Seq<(Seq<char>, JsonView)>),
    /// Anything else.
    Other,
}

/// The contents of a `serde_json::Value`.
pub uninterp spec fn json_view(value: serde_json::Value) -> JsonView;

/// What `serde_json::from_str` reads from a text; nothing if it fails.
pub uninterp spec fn json_of_text(text: Seq<char>) -> Option<JsonView>;

/// What `serde_json::from_slice` reads from bytes; nothing if it fails.
pub uninterp spec fn json_of_bytes(bytes: Seq<u8>) -> Option<JsonView>;

/// The first member with a name, from place `i` on.
pub open spec fn member_from(
    members: Seq<(Seq<char>, JsonView)>,
    key: Seq<char>,
    i: int,
) -> Option<JsonView>
    decreases members.len() - i,
{
    if i < 0 || i >= members.len() {
        None
    } else if members[i].0 == key {
        Some(members[i].1)
    } else {
        member_from(members, key, i + 1)
    }
}

/// The member of an object with a name.
pub open spec fn member(value: JsonView, key: Seq<char>) -> Option<JsonView> {
    match value {
        JsonView::Object(members) => member_from(members, key, 0),
        _ => None,
    }
}

/// The text of a string value.
pub open spec fn text_of(value: JsonView) -> Option<Seq<char>> {
    match value {
        JsonView::Text(text) => Some(text),
        _ => None,
    }
}

/// The text of a string member.
pub open spec fn text_member(value: JsonView, key: Seq<char>) -> Option<Seq<char>> {
    match member(value, key) {
        Some(found) => text_of(found),
        None => None,
    }
}

/// Calls `serde_json::from_str` for a `serde_json::Value`: the outcome is a
/// function of the text.
#[verifier::external_body]
pub(crate) fn parse_text(text: &str) -> (r: Result<serde_json::Value, serde_json::Error>)
    ensures
        match r {
            Ok(value) => json_of_text(text@) == Some(json_view(value)),
            Err(_) => json_of_text(text@) is None,
        },
{
    serde_json::from_str(text)
}

/// Calls `serde_json::from_slice` for a `serde_json::Value`: the outcome is a
/// function of the bytes.
#[verifier::external_body]
pub(crate) fn parse_bytes(bytes: &[u8]) -> (r: Result<serde_json::Value, serde_json::Error>)
    ensures
        match r {
            Ok(value) => json_of_bytes(bytes@) == Some(json_view(value)),
            Err(_) => json_of_bytes(bytes@) is None,
        },
{
    serde_json::from_slice(bytes)
}

/// Calls `serde_json::Value::get` with a name: the member of an object, and
/// nothing for any other value.
#[verifier::external_body]
pub(crate) fn get<'a>(value: &'a serde_json::Value, key: &str) -> (r: Option<&'a serde_json::Value>)
    ensures
        match r {
            Some(found) => member(json_view(*value), key@) == Some(json_view(*found)),
            None => member(json_view(*value), key@) is None,
        },
{
    value.get(key)
}

/// Calls `serde_json::Value::as_str`: the text of a string, and nothing for
/// any other value.
#[verifier::external_body]
pub(crate) fn as_text(value: &serde_json::Value) -> (r: Option<&str>)
    ensures
        match r {
            Some(text) => text_of(json_view(*value)) == Some(text@),
            None => text_of(json_view(*value)) is None,
        },
{
    value.as_str()
}

/// Calls `serde_json::Value::as_object`: the members of an object in the
/// order in which they are walked, and nothing for any other value.
#[verifier::external_body]
pub(crate) fn members(value: &serde_json::Value) -> (r: Option<Vec<(String, serde_json::Value)>>)
    ensures
        match r {
            Some(list) => json_view(*value) == JsonView::Object(
                list@.map_values(|m: (String, serde_json::Value)| (m.0@, json_view(m.1))),
            ),
            None => !(json_view(*value) is Object),
        },
{
    value.as_object().map(
        |map| map.iter().map(|(name, member)| (name.clone(), member.clone())).collect(),
    )
}

} // verus!
