use crate::json::{
    array_push, into_elements, into_members, take_value, array_grow, array_len, array_set, array_take, clone_value, is_array, is_object, json_empty_array,
    json_empty_object, json_null, json_of, json_or_null, object_put, object_take, Json,
};
use crate::types::{steps_of, PathToken, Step};
use serde_json::Value;
use vstd::prelude::*;

verus! {

/// A path whose array positions leave room to grow an array past them.
pub open spec fn indices_fit(p: Seq<Step>) -> bool {
    forall|j: int| 0 <= j < p.len() && (#[trigger] p[j]) is Index ==> p[j]->Index_0 < usize::MAX
}

/// The elements of `a`, padded with `null` so that position `i` exists.
pub open spec fn padded(a: Seq<Json>, i: nat) -> Seq<Json> {
    if i < a.len() {
        a
    } else {
        a + Seq::new((i + 1 - a.len()) as nat, |j: int| Json::Null)
    }
}

/// Path-creating insert: `v` is written at path `p` of `d`, each step turning
/// the node into an object or an array where it is not one, and creating the
/// member or the slot (padding arrays with `null`) where it is missing.
pub open spec fn insert_spec(d: Json, p: Seq<Step>, v: Json) -> Json
    decreases p.len(),
{
    if p.len() == 0 {
        v
    } else {
        let rest = p.drop_first();
        match p[0] {
            Step::Key(k) => {
                let m = if d is Object {
                    d->Object_0
                } else {
                    Map::empty()
                };
                let child = if m.contains_key(k) {
                    m[k]
                } else {
                    Json::Null
                };
                Json::Object(m.insert(k, insert_spec(child, rest, v)))
            },
            Step::Index(i) => {
                let a = padded(
                    if d is Array {
                        d->Array_0
                    } else {
                        Seq::empty()
                    },
                    i,
                );
                Json::Array(a.update(i as int, insert_spec(a[i as int], rest, v)))
            },
        }
    }
}

fn insert_from(node: &mut Value, tokens: &[PathToken], start: usize, value: &Value)
    requires
        start <= tokens@.len(),
        indices_fit(steps_of(tokens@)),
    ensures
        json_of(*final(node)) == insert_spec(
            json_of(*old(node)),
            steps_of(tokens@).subrange(start as int, tokens@.len() as int),
            json_of(*value),
        ),
    decreases tokens@.len() - start,
{
    let ghost p = steps_of(tokens@).subrange(start as int, tokens@.len() as int);
    if start == tokens.len() {
        *node = clone_value(value);
        return;
    }
    proof {
        assert(p.drop_first() =~= steps_of(tokens@).subrange(start + 1, tokens@.len() as int));
        assert(p[0] == tokens@[start as int]@);
    }
    match &tokens[start] {
        PathToken::Key(key) => {
            if !is_object(node) {
                *node = json_empty_object();
            }
            let mut child = match object_take(node, key) {
                Some(c) => c,
                None => json_null(),
            };
            insert_from(&mut child, tokens, start + 1, value);
            object_put(node, key.clone(), child);
            proof {
                let m = json_of(*old(node));
                assert(json_of(*final(node))->Object_0 =~= (if m is Object {
                    m->Object_0
                } else {
                    Map::empty()
                }).insert(key@, json_of(child)));
            }
        },
        PathToken::Index(index) => {
            let i = *index;
            proof {
                assert(steps_of(tokens@)[start as int] is Index);
            }
            if !is_array(node) {
                *node = json_empty_array();
            }
            if i >= array_len(node) {
                array_grow(node, i + 1);
            }
            proof {
                let d = json_of(*old(node));
                assert(json_of(*node)->Array_0 =~= padded(
                    if d is Array {
                        d->Array_0
                    } else {
                        Seq::empty()
                    },
                    i as nat,
                ));
            }
            let ghost a = json_of(*node)->Array_0;
            let mut child = array_take(node, i);
            insert_from(&mut child, tokens, start + 1, value);
            array_set(node, i, child);
            proof {
                assert(json_of(*final(node))->Array_0 =~= a.update(i as int, json_of(child)));
            }
        },
    }
}

/// Writes `value` (or `null` when absent) at the path `tokens` of `json_obj`,
/// creating and overwriting containers along the way.
pub fn insert_value(json_obj: &mut Value, tokens: &[PathToken], value: &Option<Value>)
    requires
        indices_fit(steps_of(tokens@)),
    ensures
        json_of(*final(json_obj)) == insert_spec(
            json_of(*old(json_obj)),
            steps_of(tokens@),
            json_or_null(*value),
        ),
{
    let v = match value {
        Some(v) => clone_value(v),
        None => json_null(),
    };
    proof {
        assert(steps_of(tokens@).subrange(0, tokens@.len() as int) =~= steps_of(tokens@));
    }
    insert_from(json_obj, tokens, 0, &v);
}

/// The member `k` of `m`, or `null` where `m` has none.
pub open spec fn member_or_null(m: Map<Seq<char>, Json>, k: Seq<char>) -> Json {
    if m.contains_key(k) {
        m[k]
    } else {
        Json::Null
    }
}

/// Deep merge of `b` into `a`: objects merge member by member, arrays element
/// by element (the longer one's tail kept), and anywhere else `b` wins.
pub open spec fn merge_spec(a: Json, b: Json) -> Json
    decreases b,
{
    match b {
        Json::Object(mb) => {
            if a is Object {
                let ma = a->Object_0;
                Json::Object(
                    Map::new(
                        |k: Seq<char>| ma.contains_key(k) || mb.contains_key(k),
                        |k: Seq<char>|
                            if mb.contains_key(k) {
                                merge_spec(member_or_null(ma, k), mb[k])
                            } else {
                                ma[k]
                            },
                    ),
                )
            } else {
                b
            }
        },
        Json::Array(xb) => {
            if a is Array {
                let xa = a->Array_0;
                let n = if xa.len() < xb.len() {
                    xb.len()
                } else {
                    xa.len()
                };
                Json::Array(
                    Seq::new(
                        n,
                        |i: int|
                            if 0 <= i < xb.len() {
                                if i < xa.len() {
                                    merge_spec(xa[i], xb[i])
                                } else {
                                    xb[i]
                                }
                            } else {
                                xa[i]
                            },
                    ),
                )
            } else {
                b
            }
        },
        _ => b,
    }
}

/// The keys of the members `members[n..]`.
pub open spec fn keys_from(members: Seq<(String, Value)>, n: int) -> Set<Seq<char>> {
    Set::new(|k: Seq<char>| exists|j: int| n <= j < members.len() && (#[trigger] members[j]).0@ == k)
}

/// `ma` with the members of `mb` whose keys are in `done` merged in.
pub open spec fn merged_members(
    ma: Map<Seq<char>, Json>,
    mb: Map<Seq<char>, Json>,
    done: Set<Seq<char>>,
) -> Map<Seq<char>, Json> {
    Map::new(
        |k: Seq<char>| ma.contains_key(k) || done.contains(k),
        |k: Seq<char>|
            if done.contains(k) {
                merge_spec(member_or_null(ma, k), mb[k])
            } else {
                ma[k]
            },
    )
}

/// `xa` with the first `n` elements of `xb` merged in.
pub open spec fn merged_prefix(xa: Seq<Json>, xb: Seq<Json>, n: int) -> Seq<Json> {
    Seq::new(
        if xa.len() < n {
            n as nat
        } else {
            xa.len()
        },
        |i: int|
            if i < n {
                if i < xa.len() {
                    merge_spec(xa[i], xb[i])
                } else {
                    xb[i]
                }
            } else {
                xa[i]
            },
    )
}

fn merge_owned(a: &mut Value, b: Value)
    ensures
        json_of(*final(a)) == merge_spec(json_of(*old(a)), json_of(b)),
    decreases json_of(b),
{
    let ghost jb = json_of(b);
    let ghost ja = json_of(*a);
    if is_object(&b) && is_object(a) {
        let ghost ma = ja->Object_0;
        let ghost mb = jb->Object_0;
        let mut members = into_members(b);
        let ghost all = members@;
        proof {
            broadcast use vstd::seq_lib::seq_to_set_is_finite;

            assert(mb.dom().finite());
            assert(merged_members(ma, mb, keys_from(all, all.len() as int)) =~= ma);
        }
        while members.len() > 0
            invariant
                all.len() == mb.len(),
                forall|i: int|
                    0 <= i < all.len() ==> mb.contains_key((#[trigger] all[i]).0@) && mb[all[i].0@]
                        == json_of(all[i].1),
                forall|i: int, j: int| 0 <= i < j < all.len() ==> all[i].0@ != all[j].0@,
                members@.len() <= all.len(),
                members@ == all.subrange(0, members@.len() as int),
                json_of(*a) == Json::Object(
                    merged_members(ma, mb, keys_from(all, members@.len() as int)),
                ),
                jb == Json::Object(mb),
                jb == json_of(b),
                ja == Json::Object(ma),
                mb.dom().finite(),
            decreases members.len(),
        {
            let ghost n = members@.len() as int;
            let popped = members.pop();
            let (k, v) = popped.unwrap();
            assert(all[n - 1].0 == k && all[n - 1].1 == v);
            let ghost before = json_of(*a)->Object_0;
            proof {
                assert(!keys_from(all, n).contains(k@)) by {
                    if keys_from(all, n).contains(k@) {
                        let j = choose|j: int| n <= j < all.len() && (#[trigger] all[j]).0@ == k@;
                        assert(all[n - 1].0@ != all[j].0@);
                    }
                }
                assert(member_or_null(before, k@) == member_or_null(ma, k@));
                broadcast use vstd::map::axiom_map_index_decreases_finite;

                assert(decreases_to!(jb => jb->Object_0));
                assert(decreases_to!(mb => mb[k@]));
                assert(json_of(v) == mb[k@]);
                assert(decreases_to!(jb => json_of(v)));
            }
            let mut child = match object_take(a, &k) {
                Some(c) => c,
                None => json_null(),
            };
            merge_owned(&mut child, v);
            object_put(a, k, child);
            proof {
                assert(keys_from(all, n - 1) =~= keys_from(all, n).insert(k@));
                assert(json_of(*a)->Object_0 =~= merged_members(ma, mb, keys_from(all, n - 1)));
            }
        }
        proof {
            assert forall|k: Seq<char>| mb.dom().contains(k) implies keys_from(all, 0).contains(k) by {
                let ks = all.map_values(|e: (String, Value)| e.0@);
                assert(ks.to_set().contains(k));
                let j = choose|j: int| 0 <= j < ks.len() && ks[j] == k;
                assert(all[j].0@ == k);
            }
            assert(keys_from(all, 0) =~= mb.dom());
            assert(json_of(*a)->Object_0 =~= merge_spec(ja, jb)->Object_0);
        }
    } else if is_array(&b) && is_array(a) {
        let ghost xa = ja->Array_0;
        let ghost xb = jb->Array_0;
        let mut elems = into_elements(b);
        let ghost all = elems@;
        let n = elems.len();
        let mut i: usize = 0;
        proof {
            assert(merged_prefix(xa, xb, 0) =~= xa);
        }
        while i < n
            invariant
                n == all.len() == xb.len(),
                forall|j: int| 0 <= j < all.len() ==> json_of(#[trigger] all[j]) == xb[j],
                i <= n,
                elems@ == all.subrange(i as int, n as int),
                json_of(*a) == Json::Array(merged_prefix(xa, xb, i as int)),
                jb == Json::Array(xb),
                jb == json_of(b),
                ja == Json::Array(xa),
            decreases n - i,
        {
            let v = elems.remove(0);
            assert(v == all[i as int]);
            if i < array_len(a) {
                proof {
                    broadcast use vstd::seq::axiom_seq_index_decreases;

                    assert(decreases_to!(jb => jb->Array_0));
                    assert(decreases_to!(xb => xb[i as int]));
                    assert(decreases_to!(jb => json_of(v)));
                }
                let mut child = array_take(a, i);
                merge_owned(&mut child, v);
                array_set(a, i, child);
            } else {
                array_push(a, v);
            }
            proof {
                assert(json_of(*a)->Array_0 =~= merged_prefix(xa, xb, i + 1));
            }
            i = i + 1;
        }
        proof {
            assert(json_of(*a)->Array_0 =~= merge_spec(ja, jb)->Array_0);
        }
    } else {
        *a = b;
    }
}

/// Deep-merges `b` into `a`; `b` is consumed and left `null`.
pub fn merge_json(a: &mut Value, b: &mut Value)
    ensures
        json_of(*final(a)) == merge_spec(json_of(*old(a)), json_of(*old(b))),
        json_of(*final(b)) == Json::Null,
{
    let v = take_value(b);
    merge_owned(a, v);
}

/// Inserting the same value at the same path twice gives what one insert gives.
pub proof fn lemma_insert_idempotent(d: Json, p: Seq<Step>, v: Json)
    ensures
        insert_spec(insert_spec(d, p, v), p, v) == insert_spec(d, p, v),
    decreases p.len(),
{
    if p.len() > 0 {
        let rest = p.drop_first();
        match p[0] {
            Step::Key(k) => {
                let m = if d is Object {
                    d->Object_0
                } else {
                    Map::empty()
                };
                let c = member_or_null(m, k);
                lemma_insert_idempotent(c, rest, v);
                let c1 = insert_spec(c, rest, v);
                assert(m.insert(k, c1).insert(k, c1) =~= m.insert(k, c1));
            },
            Step::Index(i) => {
                let a = padded(
                    if d is Array {
                        d->Array_0
                    } else {
                        Seq::empty()
                    },
                    i,
                );
                lemma_insert_idempotent(a[i as int], rest, v);
                let c1 = insert_spec(a[i as int], rest, v);
                let a1 = a.update(i as int, c1);
                assert(padded(a1, i) == a1);
                assert(a1.update(i as int, c1) =~= a1);
            },
        }
    }
}

/// Merging one object into another leaves each member that the merged
/// object lacks as it was.
pub proof fn lemma_merge_keeps_untouched(
    ma: Map<Seq<char>, Json>,
    mb: Map<Seq<char>, Json>,
    k: Seq<char>,
)
    requires
        ma.contains_key(k),
        !mb.contains_key(k),
    ensures
        merge_spec(Json::Object(ma), Json::Object(mb))->Object_0.contains_key(k),
        merge_spec(Json::Object(ma), Json::Object(mb))->Object_0[k] == ma[k],
{
}

/// Merging one array into another keeps the longer length: past the merged
/// array's end the elements stay, below it each element is merged.
pub proof fn lemma_merge_arrays(xa: Seq<Json>, xb: Seq<Json>, i: int)
    requires
        0 <= i < xa.len(),
    ensures
        merge_spec(Json::Array(xa), Json::Array(xb))->Array_0.len() >= xa.len(),
        merge_spec(Json::Array(xa), Json::Array(xb))->Array_0[i] == if i < xb.len() {
            merge_spec(xa[i], xb[i])
        } else {
            xa[i]
        },
{
}

} // verus!
