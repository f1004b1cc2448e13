use crate::json::{json_of, Json};
use crate::pointer::resolve_pointer_text;
use json_patch::{AddOperation, PatchOperation, RemoveOperation, ReplaceOperation};
use jsonptr::PointerBuf;
use serde_json::Value;
use vstd::prelude::*;

verus! {

/// What `json_patch::patch` makes of the document `doc` with the one RFC 6902
/// operation named `op` at the pointer text `path`: the patched document, or
/// `None` where the patch fails (a text that is no pointer fails too).
pub uninterp spec fn patched(doc: Json, op: Seq<char>, path: Seq<char>, value: Option<Json>) -> Option<Json>;

/// Whether two documents are equal by `serde_json::Value`'s `==`.
pub uninterp spec fn json_equal(a: Json, b: Json) -> bool;

/// Relies on `json_patch::patch` with one `add` operation, the pointer read
/// by `PointerBuf::parse`. A failed patch is undone by `patch`.
#[verifier::external_body]
pub(crate) fn patch_add(doc: &mut Value, path: &String, value: Value) -> (r: Result<(), String>)
    ensures
        match patched(json_of(*old(doc)), "add"@, path@, Some(json_of(value))) {
            Some(d) => r is Ok && json_of(*final(doc)) == d,
            None => r is Err && *final(doc) == *old(doc),
        },
{
    let path = match PointerBuf::parse(path.as_str()) {
        Ok(p) => p,
        Err(e) => return Err(e.to_string()),
    };
    let op = PatchOperation::Add(AddOperation { path, value });
    json_patch::patch(doc, &[op]).map_err(|e| e.to_string())
}

/// Relies on `json_patch::patch` with one `replace` operation, the pointer
/// read by `PointerBuf::parse`. A failed patch is undone by `patch`.
#[verifier::external_body]
pub(crate) fn patch_replace(doc: &mut Value, path: &String, value: Value) -> (r: Result<(), String>)
    ensures
        match patched(json_of(*old(doc)), "replace"@, path@, Some(json_of(value))) {
            Some(d) => r is Ok && json_of(*final(doc)) == d,
            None => r is Err && *final(doc) == *old(doc),
        },
{
    let path = match PointerBuf::parse(path.as_str()) {
        Ok(p) => p,
        Err(e) => return Err(e.to_string()),
    };
    let op = PatchOperation::Replace(ReplaceOperation { path, value });
    json_patch::patch(doc, &[op]).map_err(|e| e.to_string())
}

/// Relies on `json_patch::patch` with one `remove` operation, the pointer
/// read by `PointerBuf::parse`. A failed patch is undone by `patch`.
#[verifier::external_body]
pub(crate) fn patch_remove(doc: &mut Value, path: &String) -> (r: Result<(), String>)
    ensures
        match patched(json_of(*old(doc)), "remove"@, path@, None) {
            Some(d) => r is Ok && json_of(*final(doc)) == d,
            None => r is Err && *final(doc) == *old(doc),
        },
{
    let path = match PointerBuf::parse(path.as_str()) {
        Ok(p) => p,
        Err(e) => return Err(e.to_string()),
    };
    let op = PatchOperation::Remove(RemoveOperation { path });
    json_patch::patch(doc, &[op]).map_err(|e| e.to_string())
}

/// Relies on `PointerBuf::parse` (which accepts the texts `pointer_valid`
/// describes) and on `jsonptr`'s `Pointer::resolve` over `serde_json::Value`
/// (which steps through the tokens as `resolve_tokens` describes); the
/// target is handed out as a copy.
#[verifier::external_body]
pub(crate) fn resolve_pointer(doc: &Value, path: &String) -> (r: Result<Value, String>)
    ensures
        match resolve_pointer_text(json_of(*doc), path@) {
            Some(j) => r is Ok && json_of(r->Ok_0) == j,
            None => r is Err,
        },
{
    let path = match PointerBuf::parse(path.as_str()) {
        Ok(p) => p,
        Err(e) => return Err(e.to_string()),
    };
    match path.resolve(doc) {
        Ok(v) => Ok(v.clone()),
        Err(e) => Err(e.to_string()),
    }
}

/// Relies on `serde_json::Value`'s `==`, which holds of a document and itself.
#[verifier::external_body]
pub(crate) fn values_equal(a: &Value, b: &Value) -> (r: bool)
    ensures
        r == json_equal(json_of(*a), json_of(*b)),
        json_of(*a) == json_of(*b) ==> r,
{
    a == b
}

} // verus!
