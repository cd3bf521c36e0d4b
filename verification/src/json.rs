//! JSON values of `serde_json`, as far as the snapshot of a store needs
//! them: texts, arrays and objects.
//!
//! Nothing in this file is proved. Each function hands one call on to
//! `serde_json`, and its contract says what that call is relied on to do.

use vstd::prelude::*;

verus! {

/// `serde_json::Value`, a JSON value. Nothing of its inside is known here
/// but what `json_view` names.
#[verifier::external_type_specification]
#[verifier::external_body]
pub struct ExValue(serde_json::Value);

/// `serde_json::Error`, why a text could not be read or written as JSON.
#[verifier::external_type_specification]
#[verifier::external_body]
pub struct ExJsonError(serde_json::Error);

/// What a JSON value holds.
pub enum JsonView {
    /// A text.
    Str(Seq<char>),
    /// An array, with its items in order.
    Arr(Seq<JsonView>),
    /// An object, with its fields in the order in which it yields them.
    Obj(Seq<(Seq<char>, JsonView)>),
    /// Null, a boolean or a number.
    Other,
}

/// What the JSON value `v` holds.
pub uninterp spec fn json_view(v: serde_json::Value) -> JsonView;

/// The text that `serde_json::to_string_pretty` writes for `v`.
pub uninterp spec fn pretty_text(v: serde_json::Value) -> Seq<char>;

/// The value that `serde_json::from_str` reads from `text`; `None` where it
/// refuses the text.
pub uninterp spec fn parsed_json(text: Seq<char>) -> Option<serde_json::Value>;

/// The views of `items`, in order.
pub open spec fn json_views(items: Seq<serde_json::Value>) -> Seq<JsonView> {
    Seq::new(items.len(), |i: int| json_view(items[i]))
}

/// The names of `fields`, in order.
pub open spec fn field_names(fields: Seq<(Seq<char>, JsonView)>) -> Seq<Seq<char>> {
    Seq::new(fields.len(), |i: int| fields[i].0)
}

/// Fields as they are handed to `json_object`, in contracts.
pub open spec fn given_fields(fields: Seq<(String, serde_json::Value)>) -> Seq<
    (Seq<char>, JsonView),
> {
    Seq::new(fields.len(), |i: int| (fields[i].0@, json_view(fields[i].1)))
}

/// Fields as `object_fields` hands them out, in contracts.
pub open spec fn read_fields(fields: Seq<(&String, &serde_json::Value)>) -> Seq<
    (Seq<char>, JsonView),
> {
    Seq::new(fields.len(), |i: int| (fields[i].0@, json_view(*fields[i].1)))
}

/// `a` and `b` hold the same fields, in whatever order.
pub open spec fn same_fields(
    a: Seq<(Seq<char>, JsonView)>,
    b: Seq<(Seq<char>, JsonView)>,
) -> bool {
    &&& a.len() == b.len()
    &&& forall|i: int| 0 <= i < a.len() ==> b.contains(#[trigger] a[i])
    &&& forall|i: int| 0 <= i < b.len() ==> a.contains(#[trigger] b[i])
}

/// Makes `Value::String` of a copy of `text`: a JSON value that holds this
/// text.
#[verifier::external_body]
pub(crate) fn json_string(text: &str) -> (value: serde_json::Value)
    ensures
        json_view(value) == JsonView::Str(text@),
{
    serde_json::Value::String(text.to_string())
}

/// Makes `Value::Array` of `items`: a JSON array that holds these items in
/// this order.
#[verifier::external_body]
pub(crate) fn json_array(items: Vec<serde_json::Value>) -> (value: serde_json::Value)
    ensures
        json_view(value) == JsonView::Arr(json_views(items@)),
{
    serde_json::Value::Array(items)
}

/// Collects `fields`, whose names differ from one another, into a
/// `serde_json::Map` and makes `Value::Object` of it: a JSON object that
/// holds exactly these fields, each name once. The order in which the
/// object yields them is the map's own.
#[verifier::external_body]
pub(crate) fn json_object(fields: Vec<(String, serde_json::Value)>) -> (value: serde_json::Value)
    requires
        field_names(given_fields(fields@)).no_duplicates(),
    ensures
        json_view(value) is Obj,
        same_fields(json_view(value)->Obj_0, given_fields(fields@)),
        field_names(json_view(value)->Obj_0).no_duplicates(),
{
    serde_json::Value::Object(fields.into_iter().collect())
}

/// Calls `Value::as_str`: the text that `value` holds, if it holds a text.
#[verifier::external_body]
pub(crate) fn json_as_str(value: &serde_json::Value) -> (text: Option<&str>)
    ensures
        match text {
            Some(found) => json_view(*value) == JsonView::Str(found@),
            None => !(json_view(*value) is Str),
        },
{
    value.as_str()
}

/// Calls `Value::as_array`: the items that `value` holds, if it is an
/// array.
#[verifier::external_body]
pub(crate) fn json_as_array(value: &serde_json::Value) -> (items: Option<&Vec<serde_json::Value>>)
    ensures
        match items {
            Some(found) => json_view(*value) == JsonView::Arr(json_views(found@)),
            None => !(json_view(*value) is Arr),
        },
{
    value.as_array()
}

/// Calls `Value::as_object` and collects what the map's `iter` yields: the
/// fields that `value` holds, if it is an object. No two fields of an
/// object have the same name.
#[verifier::external_body]
pub(crate) fn json_object_fields(value: &serde_json::Value) -> (fields: Option<
    Vec<(&String, &serde_json::Value)>,
>)
    ensures
        match fields {
            Some(found) => json_view(*value) == JsonView::Obj(read_fields(found@))
                && field_names(read_fields(found@)).no_duplicates(),
            None => !(json_view(*value) is Obj),
        },
{
    match value.as_object() {
        Some(map) => Some(map.iter().collect()),
        None => None,
    }
}

/// Calls `serde_json::to_string_pretty` on `value`. For a `Value` the call
/// returns `Ok`: a value hands on only what the serializer reports, the
/// serializer reports nothing but what its writer reports for null,
/// booleans, numbers, texts, arrays and objects whose names are texts, and
/// the writer is a `Vec<u8>`. The text that is written depends on the value
/// alone and is given the name `pretty_text`.
#[verifier::external_body]
pub(crate) fn json_to_text(value: &serde_json::Value) -> (text: Result<String, serde_json::Error>)
    ensures
        text is Ok,
        text->Ok_0@ == pretty_text(*value),
{
    serde_json::to_string_pretty(value)
}

/// Calls `serde_json::from_str` for a `Value`. What it reads depends on
/// the text alone and is given the name `parsed_json`.
#[verifier::external_body]
pub(crate) fn json_from_text(text: &str) -> (value: Result<serde_json::Value, serde_json::Error>)
    ensures
        match value {
            Ok(read) => parsed_json(text@) == Some(read),
            Err(_) => parsed_json(text@) is None,
        },
{
    serde_json::from_str(text)
}

} // verus!
