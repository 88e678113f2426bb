//! JSON values of `serde_json`, and what each call into that crate is trusted
//! to do.
//!
//! `serde_json::Value` is opaque to the verifier. `json_of` names the tree that
//! a value holds, and every item below speaks of that tree.

use vstd::prelude::*;

verus! {

/// A JSON document as a mathematical value.
pub enum JsonTree {
    Null,
    Bool(bool),
    /// An integer between `i64::MIN` and `u64::MAX`.
    Int(int),
    /// Any other number, by its JSON text.
    Float(Seq<char>),
    Text(Seq<char>),
    Array(Seq<JsonTree>),
    Object(Map<Seq<char>, JsonTree>),
}

impl JsonTree {
    /// The member of an object under a key; `Null` where there is none.
    pub open spec fn member(self, key: Seq<char>) -> JsonTree {
        match self {
            JsonTree::Object(m) => if m.dom().contains(key) {
                m[key]
            } else {
                JsonTree::Null
            },
            _ => JsonTree::Null,
        }
    }

    /// Whether this is an object with a member under the key.
    pub open spec fn has_member(self, key: Seq<char>) -> bool {
        match self {
            JsonTree::Object(m) => m.dom().contains(key),
            _ => false,
        }
    }

    /// The element of an array at an index; `Null` where there is none.
    pub open spec fn element(self, i: int) -> JsonTree {
        match self {
            JsonTree::Array(items) => if 0 <= i < items.len() {
                items[i]
            } else {
                JsonTree::Null
            },
            _ => JsonTree::Null,
        }
    }

    /// The number as a `u64`, for an integer that is one.
    pub open spec fn as_uint(self) -> Option<u64> {
        match self {
            JsonTree::Int(n) => if 0 <= n <= u64::MAX {
                Some(n as u64)
            } else {
                None
            },
            _ => None,
        }
    }

    /// The characters of a string.
    pub open spec fn as_text(self) -> Option<Seq<char>> {
        match self {
            JsonTree::Text(s) => Some(s),
            _ => None,
        }
    }

    /// The items of an array.
    pub open spec fn as_items(self) -> Option<Seq<JsonTree>> {
        match self {
            JsonTree::Array(items) => Some(items),
            _ => None,
        }
    }
}

/// `serde_json::Value`: any JSON value.
#[verifier::external_type_specification]
#[verifier::external_body]
pub struct ExJsonValue(serde_json::Value);

/// `serde_json::Map`: the members of a JSON object.
#[verifier::external_type_specification]
#[verifier::external_body]
#[verifier::reject_recursive_types(K)]
#[verifier::reject_recursive_types(V)]
pub struct ExJsonMap<K, V>(serde_json::Map<K, V>);

/// The tree that a `serde_json::Value` holds.
pub uninterp spec fn json_of(v: serde_json::Value) -> JsonTree;

/// The members that a `serde_json::Map` holds.
pub uninterp spec fn members_of(m: serde_json::Map<String, serde_json::Value>) -> Map<
    Seq<char>,
    JsonTree,
>;

/// The members of the empty object.
pub open spec fn no_members() -> Map<Seq<char>, JsonTree> {
    Map::empty()
}

/// The compact JSON text of a tree, as `serde_json` writes it.
pub uninterp spec fn json_text(t: JsonTree) -> Seq<char>;

/// `Value::as_u64`: the integer, where the value is a number between 0 and
/// `u64::MAX` without fraction or exponent.
pub assume_specification[ serde_json::Value::as_u64 ](v: &serde_json::Value) -> (r: Option<u64>)
    ensures
        r == json_of(*v).as_uint(),
;

/// `Value::as_str`: the characters, where the value is a string.
pub assume_specification[ serde_json::Value::as_str ](v: &serde_json::Value) -> (r: Option<&str>)
    ensures
        r is Some == json_of(*v).as_text() is Some,
        r is Some ==> json_of(*v).as_text() == Some(r->0@),
;

/// `Value::as_array`: the items in order, where the value is an array.
pub assume_specification[ serde_json::Value::as_array ](v: &serde_json::Value) -> (r: Option<
    &Vec<serde_json::Value>,
>)
    ensures
        r is Some == json_of(*v).as_items() is Some,
        r is Some ==> json_of(*v).as_items() == Some(
            r->0@.map_values(|item: serde_json::Value| json_of(item)),
        ),
;

/// `Value::get` with a string: the member under the key, where the value is an
/// object that has one.
#[verifier::external_body]
pub(crate) fn get<'a>(v: &'a serde_json::Value, key: &str) -> (r: Option<&'a serde_json::Value>)
    ensures
        r is Some == json_of(*v).has_member(key@),
        r is Some ==> json_of(*r->0) == json_of(*v).member(key@),
{
    v.get(key)
}

/// `Index` of a `Value` with a string: the member under the key, and null
/// where there is none or the value is no object.
#[verifier::external_body]
pub(crate) fn member<'a>(v: &'a serde_json::Value, key: &str) -> (r: &'a serde_json::Value)
    ensures
        json_of(*r) == json_of(*v).member(key@),
{
    &v[key]
}

/// `Index` of a `Value` with a number: the array element at that place, and
/// null where there is none or the value is no array.
#[verifier::external_body]
pub(crate) fn element(v: &serde_json::Value, i: usize) -> (r: &serde_json::Value)
    ensures
        json_of(*r) == json_of(*v).element(i as int),
{
    &v[i]
}

/// `==` between a `Value` and a `str`: whether the value is a string with
/// those characters.
#[verifier::external_body]
pub(crate) fn equals_text(v: &serde_json::Value, s: &str) -> (r: bool)
    ensures
        r == (json_of(*v).as_text() == Some(s@)),
{
    *v == *s
}

/// `Value::to_string`: the compact text of the value. Line breaks inside
/// strings are escaped and none are put between tokens, so the text is a single
/// line.
#[verifier::external_body]
pub(crate) fn value_text(v: &serde_json::Value) -> (r: String)
    ensures
        r@ == json_text(json_of(*v)),
        !r@.contains('\n'),
{
    v.to_string()
}

/// `Value::Null`: the JSON null.
#[verifier::external_body]
pub(crate) fn null_value() -> (r: serde_json::Value)
    ensures
        json_of(r) == JsonTree::Null,
{
    serde_json::Value::Null
}

/// `Value::from` a `bool`.
#[verifier::external_body]
pub(crate) fn bool_value(b: bool) -> (r: serde_json::Value)
    ensures
        json_of(r) == JsonTree::Bool(b),
{
    serde_json::Value::from(b)
}

/// `Value::from` a `u64`: the number as an integer.
#[verifier::external_body]
pub(crate) fn uint_value(n: u64) -> (r: serde_json::Value)
    ensures
        json_of(r) == JsonTree::Int(n as int),
{
    serde_json::Value::from(n)
}

/// `Value::from` an `i64`: the number as an integer.
#[verifier::external_body]
pub(crate) fn int_value(n: i64) -> (r: serde_json::Value)
    ensures
        json_of(r) == JsonTree::Int(n as int),
{
    serde_json::Value::from(n)
}

/// `Value::from` a `&str`: a string of the same characters.
#[verifier::external_body]
pub(crate) fn text_value(s: &str) -> (r: serde_json::Value)
    ensures
        json_of(r) == JsonTree::Text(s@),
{
    serde_json::Value::from(s)
}

/// `Value::Array`: an array of the items in order.
#[verifier::external_body]
pub(crate) fn array_value(items: Vec<serde_json::Value>) -> (r: serde_json::Value)
    ensures
        json_of(r) == JsonTree::Array(items@.map_values(|item: serde_json::Value| json_of(item))),
{
    serde_json::Value::Array(items)
}

/// `Value::Object`: an object with the members of the map.
#[verifier::external_body]
pub(crate) fn object_value(m: serde_json::Map<String, serde_json::Value>) -> (r: serde_json::Value)
    ensures
        json_of(r) == JsonTree::Object(members_of(m)),
{
    serde_json::Value::Object(m)
}

/// `Map::new`: no members.
#[verifier::external_body]
pub(crate) fn new_members() -> (r: serde_json::Map<String, serde_json::Value>)
    ensures
        members_of(r) == no_members(),
{
    serde_json::Map::new()
}

/// `Map::insert`: puts the value under the key, in place of what stood there.
#[verifier::external_body]
pub(crate) fn insert(
    m: &mut serde_json::Map<String, serde_json::Value>,
    key: &str,
    v: serde_json::Value,
)
    ensures
        members_of(*final(m)) == members_of(*old(m)).insert(key@, json_of(v)),
{
    m.insert(key.to_string(), v);
}

} // verus!
