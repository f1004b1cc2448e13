//! Single-line structured-document mutations: a jq-like path, an optional
//! operator prefix and a JSON value, parsed and applied to a JSON document.
//!
//! `json` models a `serde_json::Value` as a `Json` tree; `parse` holds the
//! grammar and its parser; `manipulators` the path-creating insert and the
//! deep merge; `pointer` the RFC 6901 pointer of a path; `patch` the RFC 6902
//! engine and pointer resolution that the library relies on; `query` what a
//! parsed query renders as and does to a document.
pub mod json;
pub mod manipulators;
pub mod parse;
pub mod patch;
pub mod pointer;
pub mod query;
pub mod types;

pub use json::Json;
pub use manipulators::{
    insert_value, lemma_insert_idempotent, lemma_merge_arrays,
    lemma_merge_keeps_untouched, merge_json,
};
pub use parse::parse_input;
pub use pointer::{escape_json_pointer_segment, lemma_escape_round_trip, lemma_insert_round_trip};
pub use types::{Jqesque, JqesqueError, Operation, PathToken, Separator, Step};
