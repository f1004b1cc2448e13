use crate::json::{
    array_push, clone_value, json_empty_array, json_empty_object, json_null, json_of, json_or_null,
    json_string, object_put, Json,
};
use crate::manipulators::{indices_fit, insert_spec, insert_value, merge_json, merge_spec};
use crate::parse::{parse_input, parse_spec, parsed_as};
use crate::patch::{
    json_equal, patch_add, patch_remove, patch_replace, patched, resolve_pointer,
    values_equal,
};
use crate::pointer::{pointer_spec, resolve_pointer_text, tokens_to_pointer};
use crate::types::{
    op_name, sep_char, steps_of, Jqesque, JqesqueError, Operation, PathToken, Separator, Step,
};
use serde_json::Value;
use vstd::prelude::*;
use vstd::string::StringExecFns;

verus! {

/// The model of an optional value.
pub open spec fn value_model(v: Option<Value>) -> Option<Json> {
    match v {
        Some(x) => Some(json_of(x)),
        None => None,
    }
}

/// The RFC 6902 operation object `{"op", "path"[, "value"]}`.
pub open spec fn patch_object(op: Operation, p: Seq<Step>, v: Option<Json>) -> Json {
    let base = Map::empty().insert("op"@, Json::Str(op_name(op))).insert(
        "path"@,
        Json::Str(pointer_spec(p)),
    );
    if op is Remove {
        Json::Object(base)
    } else {
        Json::Object(
            base.insert(
                "value"@,
                match v {
                    Some(j) => j,
                    None => Json::Null,
                },
            ),
        )
    }
}

/// What a query with a concrete operation `op` renders as.
pub open spec fn rendered_one(op: Operation, p: Seq<Step>, v: Option<Json>) -> Json {
    match op {
        Operation::Insert | Operation::Merge => insert_spec(
            Json::Null,
            p,
            match v {
                Some(j) => j,
                None => Json::Null,
            },
        ),
        Operation::Add | Operation::Replace | Operation::Remove | Operation::Test => Json::Array(
            seq![patch_object(op, p, v)],
        ),
        Operation::Auto => Json::Null,
    }
}

/// What a query with operation `op` renders as, without a document; `Auto`
/// renders as the list of its three stages.
pub open spec fn rendered(op: Operation, p: Seq<Step>, v: Option<Json>) -> Json {
    if op is Auto {
        Json::Array(
            seq![
                rendered_one(Operation::Replace, p, v),
                rendered_one(Operation::Add, p, v),
                rendered_one(Operation::Insert, p, v),
            ],
        )
    } else {
        rendered_one(op, p, v)
    }
}

/// The effect of an RFC 6902 operation handed to the patch engine: the
/// operation on success, `PatchError` (the document untouched) on failure.
pub open spec fn patch_outcome(
    op: Operation,
    d: Json,
    ptr: Seq<char>,
    v: Option<Json>,
    r: Result<Operation, JqesqueError>,
    after: Value,
    before: Value,
) -> bool {
    match patched(d, op_name(op), ptr, v) {
        Some(d2) => r == Ok::<Operation, JqesqueError>(op) && json_of(after) == d2,
        None => r is Err && r->Err_0 is PatchError && after == before,
    }
}

impl Jqesque {
    /// Every array position of the path leaves room to grow an array past it.
    pub open spec fn wf(&self) -> bool {
        indices_fit(steps_of(self.tokens@))
    }

    /// Parses `input` with `separator` between path segments.
    pub fn from_str_with_separator(input: &str, separator: Separator) -> (r: Result<
        Jqesque,
        JqesqueError,
    >)
        ensures
            match parse_spec(input@, sep_char(separator)) {
                Some((op, p, v)) => r is Ok && parsed_as(r->Ok_0, op, p, v) && r->Ok_0.wf(),
                None => r is Err && r->Err_0 is ParseError,
            },
    {
        parse_input(input, separator)
    }

    pub fn tokens(&self) -> (r: &[PathToken])
        ensures
            r@ == self.tokens@,
    {
        self.tokens.as_slice()
    }

    pub fn value(&self) -> (r: &Option<Value>)
        ensures
            *r == self.value,
    {
        &self.value
    }

    /// The RFC 6901 pointer text of the path.
    pub fn tokens_to_pointer(&self) -> (r: String)
        ensures
            r@ == pointer_spec(steps_of(self.tokens@)),
    {
        tokens_to_pointer(self.tokens.as_slice())
    }

    fn render(&self, op: Operation) -> (r: Value)
        requires
            self.wf(),
            op != Operation::Auto,
        ensures
            json_of(r) == rendered_one(op, steps_of(self.tokens@), value_model(self.value)),
    {
        match op {
            Operation::Insert | Operation::Merge => {
                let mut doc = json_null();
                insert_value(&mut doc, self.tokens.as_slice(), &self.value);
                proof {
                    assert(json_or_null(self.value) == match value_model(self.value) {
                        Some(j) => j,
                        None => Json::Null,
                    });
                }
                doc
            },
            _ => {
                let mut obj = json_empty_object();
                object_put(&mut obj, String::from_str("op"), json_string(op.to_string()));
                object_put(&mut obj, String::from_str("path"), json_string(self.tokens_to_pointer()));
                if op != Operation::Remove {
                    let v = match &self.value {
                        Some(v) => clone_value(v),
                        None => json_null(),
                    };
                    object_put(&mut obj, String::from_str("value"), v);
                }
                let mut list = json_empty_array();
                array_push(&mut list, obj);
                proof {
                    let p = steps_of(self.tokens@);
                    let v = value_model(self.value);
                    assert(json_of(list)->Array_0 =~= seq![patch_object(op, p, v)]);
                }
                list
            },
        }
    }

    /// What the query means, without a document: for `Insert` and `Merge` the
    /// smallest document that holds the value at the path; for the RFC 6902
    /// operations a one-element list of the operation object; for `Auto` the
    /// list of what `Replace`, `Add` and `Insert` render.
    pub fn as_json(&self) -> (r: Value)
        requires
            self.wf(),
        ensures
            json_of(r) == rendered(self.operation, steps_of(self.tokens@), value_model(self.value)),
    {
        if self.operation == Operation::Auto {
            let mut list = json_empty_array();
            array_push(&mut list, self.render(Operation::Replace));
            array_push(&mut list, self.render(Operation::Add));
            array_push(&mut list, self.render(Operation::Insert));
            proof {
                let p = steps_of(self.tokens@);
                let v = value_model(self.value);
                assert(json_of(list)->Array_0 =~= seq![
                    rendered_one(Operation::Replace, p, v),
                    rendered_one(Operation::Add, p, v),
                    rendered_one(Operation::Insert, p, v),
                ]);
            }
            list
        } else {
            self.render(self.operation)
        }
    }

    /// Performs the query on `json` and gives the operation that was done.
    ///
    /// `Insert` and `Merge` always succeed. `Add`, `Replace` and `Remove` go
    /// to the RFC 6902 patch engine at the path's pointer; `Test` compares
    /// what the pointer designates with the value. `Auto` tries `Replace`,
    /// then `Add`, then `Insert`, and never fails. A failure leaves `json` as
    /// it was.
    pub fn apply_to(&self, json: &mut Value) -> (r: Result<Operation, JqesqueError>)
        requires
            self.wf(),
        ensures
            ({
                let d = json_of(*old(json));
                let p = steps_of(self.tokens@);
                let ptr = pointer_spec(p);
                let v = value_model(self.value);
                let op = self.operation;
                match op {
                    Operation::Insert => r == Ok::<Operation, JqesqueError>(op) && json_of(
                        *final(json),
                    ) == insert_spec(d, p, json_or_null(self.value)),
                    Operation::Merge => r == Ok::<Operation, JqesqueError>(op) && json_of(
                        *final(json),
                    ) == merge_spec(d, insert_spec(Json::Null, p, json_or_null(self.value))),
                    Operation::Add | Operation::Replace => if v is None {
                        r == Err::<Operation, JqesqueError>(JqesqueError::MissingValueError(op))
                            && *final(json) == *old(json)
                    } else {
                        patch_outcome(op, d, ptr, v, r, *final(json), *old(json))
                    },
                    Operation::Remove => patch_outcome(op, d, ptr, None, r, *final(json), *old(json)),
                    Operation::Test => *final(json) == *old(json) && if v is None {
                        r == Err::<Operation, JqesqueError>(JqesqueError::MissingValueError(op))
                    } else {
                        match resolve_pointer_text(d, ptr) {
                            None => r is Err && r->Err_0 is InvalidPathError,
                            Some(a) => if json_equal(a, v->Some_0) {
                                r == Ok::<Operation, JqesqueError>(op)
                            } else {
                                r is Err && r->Err_0 is TestFailedError && json_of(
                                    r->Err_0->expected,
                                ) == v->Some_0 && json_of(r->Err_0->actual) == a
                            },
                        }
                    },
                    Operation::Auto => {
                        let replaced = patched(d, "replace"@, ptr, v);
                        let added = patched(d, "add"@, ptr, v);
                        if v is Some && replaced is Some {
                            r == Ok::<Operation, JqesqueError>(Operation::Replace) && json_of(
                                *final(json),
                            ) == replaced->Some_0
                        } else if v is Some && added is Some {
                            r == Ok::<Operation, JqesqueError>(Operation::Add) && json_of(
                                *final(json),
                            ) == added->Some_0
                        } else {
                            r == Ok::<Operation, JqesqueError>(Operation::Insert) && json_of(
                                *final(json),
                            ) == insert_spec(d, p, json_or_null(self.value))
                        }
                    },
                }
            }),
    {
        match self.operation {
            Operation::Insert => {
                insert_value(json, self.tokens.as_slice(), &self.value);
                Ok(Operation::Insert)
            },
            Operation::Merge => {
                let mut skeleton = json_null();
                insert_value(&mut skeleton, self.tokens.as_slice(), &self.value);
                merge_json(json, &mut skeleton);
                Ok(Operation::Merge)
            },
            Operation::Auto => {
                let stages = [Operation::Replace, Operation::Add];
                let mut k: usize = 0;
                while k < 2
                    invariant
                        0 <= k <= 2,
                        stages@ == seq![Operation::Replace, Operation::Add],
                        self.operation == Operation::Auto,
                        *json == *old(json),
                        k > 0 ==> self.value is None || patched(
                            json_of(*old(json)),
                            "replace"@,
                            pointer_spec(steps_of(self.tokens@)),
                            value_model(self.value),
                        ) is None,
                        k > 1 ==> self.value is None || patched(
                            json_of(*old(json)),
                            "add"@,
                            pointer_spec(steps_of(self.tokens@)),
                            value_model(self.value),
                        ) is None,
                    decreases 2 - k,
                {
                    let stage = stages[k];
                    assert(stage == if k == 0 {
                        Operation::Replace
                    } else {
                        Operation::Add
                    });
                    let attempt = self.apply_patch(json, stage);
                    if let Ok(done) = attempt {
                        assert(done == stage);
                        return Ok(done);
                    }
                    k = k + 1;
                }
                insert_value(json, self.tokens.as_slice(), &self.value);
                Ok(Operation::Insert)
            },
            Operation::Add | Operation::Replace | Operation::Remove => self.apply_patch(
                json,
                self.operation,
            ),
            Operation::Test => match &self.value {
                None => Err(JqesqueError::MissingValueError(Operation::Test)),
                Some(expected) => {
                    let ptr = self.tokens_to_pointer();
                    match resolve_pointer(json, &ptr) {
                        Err(e) => Err(JqesqueError::InvalidPathError(e)),
                        Ok(actual) => {
                            if values_equal(&actual, expected) {
                                Ok(Operation::Test)
                            } else {
                                Err(
                                    JqesqueError::TestFailedError {
                                        expected: clone_value(expected),
                                        actual,
                                    },
                                )
                            }
                        },
                    }
                },
            },
        }
    }

    /// One RFC 6902 operation through the patch engine.
    fn apply_patch(&self, json: &mut Value, op: Operation) -> (r: Result<Operation, JqesqueError>)
        requires
            op is Add || op is Replace || op is Remove,
        ensures
            ({
                let d = json_of(*old(json));
                let ptr = pointer_spec(steps_of(self.tokens@));
                let v = value_model(self.value);
                if op is Remove {
                    patch_outcome(op, d, ptr, None, r, *final(json), *old(json))
                } else if v is None {
                    r == Err::<Operation, JqesqueError>(JqesqueError::MissingValueError(op))
                        && *final(json) == *old(json)
                } else {
                    patch_outcome(op, d, ptr, v, r, *final(json), *old(json))
                }
            }),
    {
        let ptr = self.tokens_to_pointer();
        if op == Operation::Remove {
            return match patch_remove(json, &ptr) {
                Ok(()) => Ok(op),
                Err(e) => Err(JqesqueError::PatchError(e)),
            };
        }
        match &self.value {
            None => Err(JqesqueError::MissingValueError(op)),
            Some(v) => {
                let outcome = if op == Operation::Add {
                    patch_add(json, &ptr, clone_value(v))
                } else {
                    patch_replace(json, &ptr, clone_value(v))
                };
                match outcome {
                    Ok(()) => Ok(op),
                    Err(e) => Err(JqesqueError::PatchError(e)),
                }
            },
        }
    }
}

impl std::str::FromStr for Jqesque {
    type Err = JqesqueError;

    /// Parses `input` with `.` between path segments.
    fn from_str(input: &str) -> Result<Jqesque, JqesqueError> {
        parse_input(input, Separator::Dot)
    }
}

} // verus!
