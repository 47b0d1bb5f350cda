//! The items of a JSON snapshot (an array of JSON objects) as the
//! library sees them: the integer `"id"` field and the compact JSON text
//! of the whole object, next to the parsed value itself.

use vstd::prelude::*;
use crate::text::comma_joined;

verus! {

/// `serde_json::Value`, carried by the items as it was parsed.
#[verifier::external_type_specification]
#[verifier::external_body]
pub struct ExJsonValue(serde_json::Value);

/// `serde_json::Error`, the reason a snapshot did not parse.
#[verifier::external_type_specification]
#[verifier::external_body]
pub struct ExJsonError(serde_json::Error);

/// What the library knows of an item: its `"id"` field when that is an
/// integer that fits in `i64`, and the compact JSON text of the item.
pub type ItemView = (Option<i64>, Seq<char>);

/// One element of a snapshot array.
pub struct JsonItem {
    id: Option<i64>,
    text: String,
    value: serde_json::Value,
}

impl View for JsonItem {
    type V = ItemView;

    closed spec fn view(&self) -> ItemView {
        (self.id, self.text@)
    }
}

/// The views of a sequence of items.
pub open spec fn items_view(s: Seq<JsonItem>) -> Seq<ItemView> {
    s.map_values(|it: JsonItem| it@)
}

/// The compact texts of a sequence of item views.
pub open spec fn item_texts(s: Seq<ItemView>) -> Seq<Seq<char>> {
    s.map_values(|it: ItemView| it.1)
}

/// The compact JSON text of an array whose elements have the compact
/// texts `parts`.
pub open spec fn json_array_text(parts: Seq<Seq<char>>) -> Seq<char> {
    seq!['['] + comma_joined(parts) + seq![']']
}

/// What `serde_json::from_str::<Vec<serde_json::Value>>` gives for a text:
/// `None` where the text is not a JSON array, else, for each element in
/// order, its `"id"` field read with `as_i64` and its compact text.
pub uninterp spec fn parsed_json_array(text: Seq<char>) -> Option<Seq<ItemView>>;

/// Whether `serde_json::Value`'s `==` holds between the values whose
/// compact texts are `a` and `b`.
pub uninterp spec fn json_values_equal(a: Seq<char>, b: Seq<char>) -> bool;

/// Two items count as the same item when their values are equal.
pub open spec fn same_item(a: ItemView, b: ItemView) -> bool {
    a.1 == b.1 || json_values_equal(a.1, b.1)
}

/// Parses a snapshot with `serde_json::from_str` into a vector of
/// `serde_json::Value`, and keeps for each element its `"id"` field as an
/// `i64` (`Value::get` and `Value::as_i64`) and its compact text
/// (`Value`'s `Display`). Claimed: the call succeeds exactly where the
/// named parse is defined, and the items are the named ones.
#[verifier::external_body]
pub(crate) fn parse_json_array(text: &str) -> (r: Result<Vec<JsonItem>, serde_json::Error>)
    ensures
        r is Ok <==> parsed_json_array(text@) is Some,
        r matches Ok(items) ==> items_view(items@) == parsed_json_array(text@)->0,
{
    let values: Vec<serde_json::Value> = serde_json::from_str(text)?;
    Ok(values.into_iter().map(|value| JsonItem {
        id: value.get("id").and_then(serde_json::Value::as_i64),
        text: value.to_string(),
        value,
    }).collect())
}

/// Compares the two values with `serde_json::Value`'s `==`. Claimed: the
/// result is the named comparison of their texts, and two values with the
/// same compact text are equal (a parsed JSON number is never NaN).
#[verifier::external_body]
pub(crate) fn same_json_value(a: &JsonItem, b: &JsonItem) -> (r: bool)
    ensures
        r == json_values_equal(a@.1, b@.1),
        a@.1 == b@.1 ==> r,
{
    a.value == b.value
}

/// Serialises the values with `serde_json::to_string` as one JSON array.
/// Claimed: the compact form, `[` then the elements' compact texts
/// separated by `,` then `]`; serialising JSON values into memory does
/// not fail, so the error arm is never taken.
#[verifier::external_body]
pub(crate) fn write_json_array(items: &Vec<JsonItem>) -> (r: String)
    ensures
        r@ == json_array_text(item_texts(items_view(items@))),
{
    let values: Vec<&serde_json::Value> = items.iter().map(|it| &it.value).collect();
    match serde_json::to_string(&values) {
        Ok(text) => text,
        Err(_) => String::new(),
    }
}

/// Clones a value with `serde_json::Value`'s `Clone`.
#[verifier::external_body]
fn clone_json_value(v: &serde_json::Value) -> serde_json::Value {
    v.clone()
}

impl JsonItem {
    /// The items of a snapshot: the elements of the JSON array `text`.
    pub fn parse_array(text: &str) -> (r: Result<Vec<JsonItem>, serde_json::Error>)
        ensures
            r is Ok <==> parsed_json_array(text@) is Some,
            r matches Ok(items) ==> items_view(items@) == parsed_json_array(text@)->0,
    {
        parse_json_array(text)
    }

    /// The compact JSON text of the array of `items`.
    pub fn write_array(items: &Vec<JsonItem>) -> (r: String)
        ensures
            r@ == json_array_text(item_texts(items_view(items@))),
    {
        write_json_array(items)
    }

    /// The `"id"` field of the item, where it is an `i64`.
    pub fn id(&self) -> (r: Option<i64>)
        ensures
            r == self@.0,
    {
        self.id
    }

    /// The compact JSON text of the item.
    pub fn text(&self) -> (r: &str)
        ensures
            r@ == self@.1,
    {
        self.text.as_str()
    }

    /// The parsed JSON value of the item.
    pub fn into_value(self) -> serde_json::Value {
        self.value
    }

    /// A copy of the item.
    pub fn duplicate(&self) -> (r: JsonItem)
        ensures
            r@ == self@,
    {
        JsonItem { id: self.id, text: self.text.clone(), value: clone_json_value(&self.value) }
    }
}

} // verus!
