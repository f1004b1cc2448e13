use serde_json::Value;
use vstd::prelude::*;

verus! {

/// The mathematical model of a JSON document.
pub enum Json {
    Null,
    Bool(bool),
    /// A number, as the text that `serde_json` writes for it.
    Number(Seq<char>),
    Str(Seq<char>),
    Array(Seq<Json>),
    Object(Map<Seq<char>, Json>),
}

#[verifier::external_type_specification]
#[verifier::external_body]
pub struct ExValue(serde_json::Value);

/// What a `serde_json::Value` holds, as a `Json` tree.
pub uninterp spec fn json_of(v: Value) -> Json;

/// The model of an optional value, `null` when absent.
pub open spec fn json_or_null(v: Option<Value>) -> Json {
    match v {
        Some(x) => json_of(x),
        None => Json::Null,
    }
}

/// Relies on `Value::Null`.
#[verifier::external_body]
pub(crate) fn json_null() -> (r: Value)
    ensures
        json_of(r) == Json::Null,
{
    Value::Null
}

/// Relies on `Value::String`: the string is held as it is.
#[verifier::external_body]
pub(crate) fn json_string(s: String) -> (r: Value)
    ensures
        json_of(r) == Json::Str(s@),
{
    Value::String(s)
}

/// Relies on `Value::Object` over `serde_json::Map::new`: an empty object.
#[verifier::external_body]
pub(crate) fn json_empty_object() -> (r: Value)
    ensures
        json_of(r) == Json::Object(Map::empty()),
{
    Value::Object(serde_json::Map::new())
}

/// Relies on `Value::Array` over `Vec::new`: an empty array.
#[verifier::external_body]
pub(crate) fn json_empty_array() -> (r: Value)
    ensures
        json_of(r) == Json::Array(Seq::empty()),
{
    Value::Array(Vec::new())
}

/// Relies on `Value::is_object`.
#[verifier::external_body]
pub(crate) fn is_object(v: &Value) -> (r: bool)
    ensures
        r == (json_of(*v) is Object),
{
    v.is_object()
}

/// Relies on `Value::is_array`.
#[verifier::external_body]
pub(crate) fn is_array(v: &Value) -> (r: bool)
    ensures
        r == (json_of(*v) is Array),
{
    v.is_array()
}

/// Relies on `Value::clone`: the copy holds the same document.
#[verifier::external_body]
pub(crate) fn clone_value(v: &Value) -> (r: Value)
    ensures
        json_of(r) == json_of(*v),
{
    v.clone()
}

/// Relies on `serde_json::Map::remove`: takes the member out of an object.
#[verifier::external_body]
pub(crate) fn object_take(v: &mut Value, key: &String) -> (r: Option<Value>)
    requires
        json_of(*old(v)) is Object,
    ensures
        ({
            let m = json_of(*old(v))->Object_0;
            match r {
                Some(c) => m.contains_key(key@) && json_of(c) == m[key@] && json_of(*final(v))
                    == Json::Object(m.remove(key@)),
                None => !m.contains_key(key@) && json_of(*final(v)) == json_of(*old(v)),
            }
        }),
{
    match v {
        Value::Object(m) => m.remove(key.as_str()),
        _ => None,
    }
}

/// Relies on `serde_json::Map::insert`: sets the member of an object.
#[verifier::external_body]
pub(crate) fn object_put(v: &mut Value, key: String, c: Value)
    requires
        json_of(*old(v)) is Object,
    ensures
        json_of(*final(v)) == Json::Object(json_of(*old(v))->Object_0.insert(key@, json_of(c))),
{
    if let Value::Object(m) = v {
        m.insert(key, c);
    }
}

/// Relies on `Vec::len` of an array's elements.
#[verifier::external_body]
pub(crate) fn array_len(v: &Value) -> (r: usize)
    requires
        json_of(*v) is Array,
    ensures
        r == json_of(*v)->Array_0.len(),
{
    match v {
        Value::Array(a) => a.len(),
        _ => 0,
    }
}

/// Relies on `Vec::resize`: grows an array to `n` elements with `null`s.
#[verifier::external_body]
pub(crate) fn array_grow(v: &mut Value, n: usize)
    requires
        json_of(*old(v)) is Array,
        json_of(*old(v))->Array_0.len() <= n,
    ensures
        json_of(*final(v)) == Json::Array(
            json_of(*old(v))->Array_0 + Seq::new(
                (n - json_of(*old(v))->Array_0.len()) as nat,
                |j: int| Json::Null,
            ),
        ),
{
    if let Value::Array(a) = v {
        a.resize(n, Value::Null);
    }
}

/// Relies on `std::mem::take` of an array element: the slot is left `null`.
#[verifier::external_body]
pub(crate) fn array_take(v: &mut Value, i: usize) -> (r: Value)
    requires
        json_of(*old(v)) is Array,
        i < json_of(*old(v))->Array_0.len(),
    ensures
        json_of(r) == json_of(*old(v))->Array_0[i as int],
        json_of(*final(v)) == Json::Array(json_of(*old(v))->Array_0.update(i as int, Json::Null)),
{
    match v {
        Value::Array(a) => std::mem::take(&mut a[i]),
        _ => Value::Null,
    }
}

/// Relies on indexed assignment into an array's elements.
#[verifier::external_body]
pub(crate) fn array_set(v: &mut Value, i: usize, c: Value)
    requires
        json_of(*old(v)) is Array,
        i < json_of(*old(v))->Array_0.len(),
    ensures
        json_of(*final(v)) == Json::Array(json_of(*old(v))->Array_0.update(i as int, json_of(c))),
{
    if let Value::Array(a) = v {
        a[i] = c;
    }
}

/// Relies on `Vec::push` of an array's elements.
#[verifier::external_body]
pub(crate) fn array_push(v: &mut Value, c: Value)
    requires
        json_of(*old(v)) is Array,
    ensures
        json_of(*final(v)) == Json::Array(json_of(*old(v))->Array_0.push(json_of(c))),
{
    if let Value::Array(a) = v {
        a.push(c);
    }
}

/// Relies on `Value::Array`: hands out the elements of an array, in order.
#[verifier::external_body]
pub(crate) fn into_elements(v: Value) -> (r: Vec<Value>)
    requires
        json_of(v) is Array,
    ensures
        r@.len() == json_of(v)->Array_0.len(),
        forall|i: int| 0 <= i < r@.len() ==> json_of(#[trigger] r@[i]) == json_of(v)->Array_0[i],
{
    match v {
        Value::Array(a) => a,
        _ => Vec::new(),
    }
}

/// Relies on `serde_json::Map::into_iter`: hands out each member of an object
/// once, its key with its value.
#[verifier::external_body]
pub(crate) fn into_members(v: Value) -> (r: Vec<(String, Value)>)
    requires
        json_of(v) is Object,
    ensures
        r@.len() == json_of(v)->Object_0.len(),
        json_of(v)->Object_0.dom() == r@.map_values(|e: (String, Value)| e.0@).to_set(),
        forall|i: int|
            0 <= i < r@.len() ==> json_of(v)->Object_0.contains_key((#[trigger] r@[i]).0@)
                && json_of(v)->Object_0[r@[i].0@] == json_of(r@[i].1),
        forall|i: int, j: int| 0 <= i < j < r@.len() ==> r@[i].0@ != r@[j].0@,
{
    match v {
        Value::Object(m) => m.into_iter().collect(),
        _ => Vec::new(),
    }
}

/// Relies on `std::mem::take`: moves the value out and leaves `null`.
#[verifier::external_body]
pub(crate) fn take_value(v: &mut Value) -> (r: Value)
    ensures
        json_of(r) == json_of(*old(v)),
        json_of(*final(v)) == Json::Null,
{
    std::mem::take(v)
}

} // verus!
