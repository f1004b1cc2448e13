use crate::json::{json_of, json_string, Json};
use crate::manipulators::indices_fit;
use crate::pointer::push_char;
use crate::types::{
    op_of_char, steps_of, Jqesque, JqesqueError, Operation, PathToken, Separator, Step, sep_char,
};
use serde_json::Value;
use vstd::prelude::*;
use vstd::string::{StrSliceExecFns, StringExecFns};

verus! {

/// Whether `char::is_alphanumeric` holds of `c`.
pub uninterp spec fn alnum(c: char) -> bool;

/// What `serde_json::from_str` reads from a text: the JSON value it spells out
/// in full, or `None` where it is not one.
pub uninterp spec fn literal_of(s: Seq<char>) -> Option<Json>;

/// Relies on `char::is_alphanumeric`.
#[verifier::external_body]
fn is_alphanumeric(c: char) -> (r: bool)
    ensures
        r == alnum(c),
{
    c.is_alphanumeric()
}

/// Relies on `serde_json::from_str`: the whole text read as one JSON value.
#[verifier::external_body]
fn read_literal(s: &str) -> (r: Option<Value>)
    ensures
        match r {
            Some(v) => literal_of(s@) == Some(json_of(v)),
            None => literal_of(s@) is None,
        },
{
    serde_json::from_str::<Value>(s).ok()
}

/// A character of an unquoted key.
pub open spec fn ident_char(c: char) -> bool {
    alnum(c) || c == '_' || c == '-'
}

pub open spec fn is_digit(c: char) -> bool {
    '0' <= c <= '9'
}

/// A character that may follow a backslash in a quoted key.
pub open spec fn escapable(c: char) -> bool {
    c == '\\' || c == '"' || c == 'n' || c == 'r' || c == 't'
}

/// The end of the run of key characters that starts at `i`.
pub open spec fn ident_end(s: Seq<char>, i: int) -> int
    decreases s.len() - i,
{
    if 0 <= i < s.len() && ident_char(s[i]) {
        ident_end(s, i + 1)
    } else {
        i
    }
}

/// The end of the run of decimal digits that starts at `i`.
pub open spec fn digits_end(s: Seq<char>, i: int) -> int
    decreases s.len() - i,
{
    if 0 <= i < s.len() && is_digit(s[i]) {
        digits_end(s, i + 1)
    } else {
        i
    }
}

/// The number that the digits `s[i..j]` spell.
pub open spec fn digits_value(s: Seq<char>, i: int, j: int) -> nat
    decreases j - i,
{
    if j <= i {
        0
    } else {
        digits_value(s, i, j - 1) * 10 + ((s[j - 1] as u32) - ('0' as u32)) as nat
    }
}

/// The rest of a quoted key from `i` (just after the opening quote): where
/// the closing quote ends it, and the text with each escape resolved to the
/// character after the backslash.
pub open spec fn quoted_body(s: Seq<char>, i: int) -> Option<(int, Seq<char>)>
    decreases s.len() - i,
{
    if i < 0 || i >= s.len() {
        None
    } else if s[i] == '"' {
        Some((i + 1, Seq::empty()))
    } else if s[i] == '\\' {
        if i + 1 < s.len() && escapable(s[i + 1]) {
            prepend(seq![s[i + 1]], quoted_body(s, i + 2))
        } else {
            None
        }
    } else {
        prepend(seq![s[i]], quoted_body(s, i + 1))
    }
}

/// `t` put before the text of a scan result.
pub open spec fn prepend(t: Seq<char>, r: Option<(int, Seq<char>)>) -> Option<(int, Seq<char>)> {
    match r {
        Some((e, u)) => Some((e, t + u)),
        None => None,
    }
}

/// A key at `i`: a non-empty quoted string, or a non-empty run of key
/// characters. Gives its end and its name.
pub open spec fn key_at(s: Seq<char>, i: int) -> Option<(int, Seq<char>)> {
    if 0 <= i < s.len() && s[i] == '"' {
        match quoted_body(s, i + 1) {
            Some((e, t)) => if t.len() > 0 {
                Some((e, t))
            } else {
                None
            },
            None => None,
        }
    } else {
        let e = ident_end(s, i);
        if e > i {
            Some((e, s.subrange(i, e)))
        } else {
            None
        }
    }
}

/// The bracketed indices `[d][d]...` from `i`, each below `usize::MAX`:
/// where they end, and their values.
pub open spec fn indices_at(s: Seq<char>, i: int) -> (int, Seq<nat>)
    decreases s.len() - i,
{
    if 0 <= i < s.len() && s[i] == '[' {
        let e = digits_end(s, i + 1);
        if e > i + 1 && e < s.len() && s[e] == ']' && digits_value(s, i + 1, e) < usize::MAX {
            let (end, rest) = indices_at(s, e + 1);
            (end, seq![digits_value(s, i + 1, e)] + rest)
        } else {
            (i, Seq::empty())
        }
    } else {
        (i, Seq::empty())
    }
}

/// The steps of a list of indices.
pub open spec fn index_steps(v: Seq<nat>) -> Seq<Step> {
    v.map_values(|n: nat| Step::Index(n))
}

/// One segment at `i`: a key, a key followed by indices, or indices alone.
pub open spec fn segment_at(s: Seq<char>, i: int) -> Option<(int, Seq<Step>)> {
    let k = key_at(s, i);
    let after = match k {
        Some((e, _)) => e,
        None => i,
    };
    let (end, idx) = indices_at(s, after);
    let key_steps = match k {
        Some((_, name)) => seq![Step::Key(name)],
        None => Seq::empty(),
    };
    if idx.len() > 0 || k is Some {
        Some((end, key_steps + index_steps(idx)))
    } else {
        None
    }
}

/// Further segments from `i`, each after a separator, added to `acc`; stops
/// before a separator that no segment follows.
pub open spec fn path_rest(s: Seq<char>, i: int, sep: char, acc: Seq<Step>) -> (int, Seq<Step>)
    decreases s.len() - i,
{
    if 0 <= i < s.len() && s[i] == sep {
        match segment_at(s, i + 1) {
            Some((e, t)) => if i < e <= s.len() {
                path_rest(s, e, sep, acc + t)
            } else {
                (i, acc)
            },
            None => (i, acc),
        }
    } else {
        (i, acc)
    }
}

/// A path at `i`: one segment or more, separated by `sep`.
pub open spec fn path_at(s: Seq<char>, i: int, sep: char) -> Option<(int, Seq<Step>)> {
    match segment_at(s, i) {
        Some((e, t)) => Some(path_rest(s, e, sep, t)),
        None => None,
    }
}

/// What follows a path that ends at `e`: nothing for `Remove`; else `=`, an
/// optional space and a non-empty value text, which runs to the end.
pub open spec fn assignment_at(s: Seq<char>, e: int, op: Operation) -> Option<Option<Seq<char>>> {
    if op is Remove {
        if e == s.len() {
            Some(None)
        } else {
            None
        }
    } else if 0 <= e < s.len() && s[e] == '=' {
        let v = if e + 1 < s.len() && s[e + 1] == ' ' {
            e + 2
        } else {
            e + 1
        };
        if v < s.len() {
            Some(Some(s.subrange(v, s.len() as int)))
        } else {
            None
        }
    } else {
        None
    }
}

/// The whole text from `start` as a path and an assignment for `op`.
pub open spec fn query_at(s: Seq<char>, start: int, sep: char, op: Operation) -> Option<
    (Seq<Step>, Option<Seq<char>>),
> {
    match path_at(s, start, sep) {
        Some((e, p)) => match assignment_at(s, e, op) {
            Some(v) => Some((p, v)),
            None => None,
        },
        None => None,
    }
}

/// The grammar: an operator prefix where the rest then parses, else the whole
/// text as an `Auto` query. Gives the operation, the path and the value text.
pub open spec fn parse_spec(s: Seq<char>, sep: char) -> Option<
    (Operation, Seq<Step>, Option<Seq<char>>),
> {
    let prefixed = if s.len() > 0 {
        match op_of_char(s[0]) {
            Some(op) => match query_at(s, 1, sep, op) {
                Some((p, v)) => Some((op, p, v)),
                None => None,
            },
            None => None,
        }
    } else {
        None
    };
    if prefixed is Some {
        prefixed
    } else {
        match query_at(s, 0, sep, Operation::Auto) {
            Some((p, v)) => Some((Operation::Auto, p, v)),
            None => None,
        }
    }
}

/// The value that a value text stands for: the JSON literal it spells, or
/// else the text itself as a string.
pub open spec fn value_of_text(t: Seq<char>) -> Json {
    match literal_of(t) {
        Some(j) => j,
        None => Json::Str(t),
    }
}

fn chars_of(input: &str) -> (r: Vec<char>)
    ensures
        r@ == input@,
{
    let n = input.unicode_len();
    let mut out: Vec<char> = Vec::new();
    let mut i: usize = 0;
    while i < n
        invariant
            n == input@.len(),
            i <= n,
            out@ == input@.subrange(0, i as int),
        decreases n - i,
    {
        out.push(input.get_char(i));
        proof {
            assert(out@ =~= input@.subrange(0, i + 1));
        }
        i = i + 1;
    }
    proof {
        assert(input@.subrange(0, n as int) =~= input@);
    }
    out
}

fn scan_ident(s: &Vec<char>, i: usize) -> (r: usize)
    requires
        i <= s@.len(),
    ensures
        r == ident_end(s@, i as int),
        i <= r <= s@.len(),
{
    let mut j = i;
    while j < s.len() && (s[j] == '_' || s[j] == '-' || is_alphanumeric(s[j]))
        invariant
            i <= j <= s@.len(),
            ident_end(s@, j as int) == ident_end(s@, i as int),
        decreases s@.len() - j,
    {
        j = j + 1;
    }
    j
}

fn scan_digits(s: &Vec<char>, i: usize) -> (r: usize)
    requires
        i <= s@.len(),
    ensures
        r == digits_end(s@, i as int),
        i <= r <= s@.len(),
{
    let mut j = i;
    while j < s.len() && '0' <= s[j] && s[j] <= '9'
        invariant
            i <= j <= s@.len(),
            digits_end(s@, j as int) == digits_end(s@, i as int),
        decreases s@.len() - j,
    {
        j = j + 1;
    }
    j
}

proof fn lemma_digits_end(s: Seq<char>, i: int)
    requires
        0 <= i,
    ensures
        i <= digits_end(s, i),
        i <= s.len() ==> digits_end(s, i) <= s.len(),
        forall|k: int| i <= k < digits_end(s, i) ==> is_digit(#[trigger] s[k]),
    decreases s.len() - i,
{
    if 0 <= i < s.len() && is_digit(s[i]) {
        lemma_digits_end(s, i + 1);
    }
}

/// The value of the digits `s[i..j]` if it is below `usize::MAX`.
fn digits_number(s: &Vec<char>, i: usize, j: usize) -> (r: Option<usize>)
    requires
        i <= j <= s@.len(),
        forall|k: int| i <= k < j ==> is_digit(#[trigger] s@[k]),
    ensures
        match r {
            Some(n) => n == digits_value(s@, i as int, j as int) && n < usize::MAX,
            None => digits_value(s@, i as int, j as int) >= usize::MAX,
        },
{
    let mut k = i;
    let mut val: usize = 0;
    let mut big = false;
    while k < j
        invariant
            i <= k <= j <= s@.len(),
            forall|m: int| i <= m < j ==> is_digit(#[trigger] s@[m]),
            !big ==> val == digits_value(s@, i as int, k as int) && val < usize::MAX,
            big ==> digits_value(s@, i as int, k as int) >= usize::MAX,
        decreases j - k,
    {
        let c = s[k];
        assert(is_digit(s@[k as int]));
        let d = (c as u32 - '0' as u32) as u128;
        if !big {
            let next: u128 = val as u128 * 10 + d;
            if next >= usize::MAX as u128 {
                big = true;
            } else {
                val = next as usize;
            }
        }
        k = k + 1;
    }
    if big {
        None
    } else {
        Some(val)
    }
}

fn scan_quoted(s: &Vec<char>, i: usize) -> (r: Option<(usize, String)>)
    requires
        i <= s@.len(),
    ensures
        match r {
            Some((e, t)) => quoted_body(s@, i as int) == Some((e as int, t@)) && i < e <= s@.len(),
            None => quoted_body(s@, i as int) is None,
        },
{
    let mut j = i;
    let mut text = String::new();
    while j < s.len()
        invariant
            i <= j <= s@.len(),
            quoted_body(s@, i as int) == prepend(text@, quoted_body(s@, j as int)),
        decreases s@.len() - j,
    {
        let c = s[j];
        if c == '"' {
            proof {
                assert(text@ + Seq::<char>::empty() =~= text@);
            }
            return Some((j + 1, text));
        } else if c == '\\' {
            if j + 1 < s.len() && (s[j + 1] == '\\' || s[j + 1] == '"' || s[j + 1] == 'n' || s[j
                + 1] == 'r' || s[j + 1] == 't') {
                let ghost before = text@;
                push_char(&mut text, s[j + 1]);
                proof {
                    let q = quoted_body(s@, j + 2);
                    assert(prepend(before, prepend(seq![s@[j + 1]], q)) == prepend(text@, q)) by {
                        if let Some((_, u)) = q {
                            assert(before + (seq![s@[j + 1]] + u) =~= text@ + u);
                        }
                    }
                }
                j = j + 2;
            } else {
                return None;
            }
        } else {
            let ghost before = text@;
            push_char(&mut text, c);
            proof {
                let q = quoted_body(s@, j + 1);
                assert(prepend(before, prepend(seq![c], q)) == prepend(text@, q)) by {
                    if let Some((_, u)) = q {
                        assert(before + (seq![c] + u) =~= text@ + u);
                    }
                }
            }
            j = j + 1;
        }
    }
    None
}

/// Copies `s[i..j]` into a new string.
fn string_of(s: &Vec<char>, i: usize, j: usize) -> (r: String)
    requires
        i <= j <= s@.len(),
    ensures
        r@ == s@.subrange(i as int, j as int),
{
    let mut out = String::new();
    let mut k = i;
    while k < j
        invariant
            i <= k <= j <= s@.len(),
            out@ == s@.subrange(i as int, k as int),
        decreases j - k,
    {
        push_char(&mut out, s[k]);
        proof {
            assert(out@ =~= s@.subrange(i as int, k + 1));
        }
        k = k + 1;
    }
    out
}

fn scan_key(s: &Vec<char>, i: usize) -> (r: Option<(usize, String)>)
    requires
        i <= s@.len(),
    ensures
        match r {
            Some((e, t)) => key_at(s@, i as int) == Some((e as int, t@)) && i < e <= s@.len(),
            None => key_at(s@, i as int) is None,
        },
{
    if i < s.len() && s[i] == '"' {
        match scan_quoted(s, i + 1) {
            Some((e, t)) => {
                if t.as_str().unicode_len() > 0 {
                    Some((e, t))
                } else {
                    None
                }
            },
            None => None,
        }
    } else {
        let e = scan_ident(s, i);
        if e > i {
            Some((e, string_of(s, i, e)))
        } else {
            None
        }
    }
}

proof fn lemma_indices_bounds(s: Seq<char>, i: int)
    requires
        0 <= i <= s.len(),
    ensures
        i <= indices_at(s, i).0 <= s.len(),
        indices_at(s, i).1.len() > 0 ==> i < indices_at(s, i).0,
    decreases s.len() - i,
{
    if 0 <= i < s.len() && s[i] == '[' {
        let e = digits_end(s, i + 1);
        if e > i + 1 && e < s.len() && s[e] == ']' && digits_value(s, i + 1, e) < usize::MAX {
            lemma_indices_bounds(s, e + 1);
        }
    }
}

/// Appends the indices `[d][d]...` found from `i` to `acc`; gives their end.
fn scan_indices(s: &Vec<char>, i: usize, acc: &mut Vec<PathToken>) -> (r: usize)
    requires
        i <= s@.len(),
        indices_fit(steps_of(old(acc)@)),
    ensures
        indices_fit(steps_of(final(acc)@)),
        r == indices_at(s@, i as int).0,
        steps_of(final(acc)@) == steps_of(old(acc)@) + index_steps(indices_at(s@, i as int).1),
{
    let ghost mut done: Seq<nat> = Seq::empty();
    let mut j = i;
    proof {
        assert(steps_of(acc@) =~= steps_of(old(acc)@) + index_steps(done));
        assert(indices_at(s@, i as int).1 =~= done + indices_at(s@, j as int).1);
    }
    while j < s.len() && s[j] == '['
        invariant
            i <= j <= s@.len(),
            indices_at(s@, i as int).0 == indices_at(s@, j as int).0,
            indices_at(s@, i as int).1 == done + indices_at(s@, j as int).1,
            steps_of(acc@) == steps_of(old(acc)@) + index_steps(done),
            indices_fit(steps_of(acc@)),
        decreases s@.len() - j,
    {
        let e = scan_digits(s, j + 1);
        proof {
            lemma_digits_end(s@, j + 1);
        }
        if e > j + 1 && e < s.len() && s[e] == ']' {
            match digits_number(s, j + 1, e) {
                Some(n) => {
                    let ghost old_steps = steps_of(acc@);
                    acc.push(PathToken::Index(n));
                    proof {
                        let rest = indices_at(s@, e + 1);
                        assert(indices_at(s@, j as int).1 == seq![n as nat] + rest.1);
                        assert(done + (seq![n as nat] + rest.1) =~= done.push(n as nat) + rest.1);
                        done = done.push(n as nat);
                        assert(steps_of(acc@) =~= old_steps.push(Step::Index(n as nat)));
                        assert(indices_fit(steps_of(acc@))) by {
                            assert forall|m: int|
                                0 <= m < steps_of(acc@).len() && (#[trigger] steps_of(
                                    acc@,
                                )[m]) is Index implies steps_of(acc@)[m]->Index_0
                                < usize::MAX by {
                                if m < old_steps.len() {
                                    assert(steps_of(acc@)[m] == old_steps[m]);
                                }
                            }
                        }
                        assert(index_steps(done) =~= index_steps(done.drop_last()).push(
                            Step::Index(n as nat),
                        ));
                        assert(steps_of(acc@) =~= steps_of(old(acc)@) + index_steps(done));
                    }
                    j = e + 1;
                },
                None => {
                    proof {
                        assert(indices_at(s@, j as int).1 =~= Seq::<nat>::empty());
                        assert(done + Seq::<nat>::empty() =~= done);
                    }
                    return j;
                },
            }
        } else {
            proof {
                assert(done + Seq::<nat>::empty() =~= done);
            }
            return j;
        }
    }
    proof {
        assert(done + Seq::<nat>::empty() =~= done);
    }
    j
}

/// Appends the steps of the segment at `i` to `acc`; gives its end.
fn scan_segment(s: &Vec<char>, i: usize, acc: &mut Vec<PathToken>) -> (r: Option<usize>)
    requires
        i <= s@.len(),
        indices_fit(steps_of(old(acc)@)),
    ensures
        indices_fit(steps_of(final(acc)@)),
        match segment_at(s@, i as int) {
            Some((e, t)) => r is Some && r->Some_0 as int == e && i < e <= s@.len() && steps_of(final(acc)@)
                == steps_of(old(acc)@) + t,
            None => r is None && final(acc)@ == old(acc)@,
        },
{
    let key = scan_key(s, i);
    let ghost k = key_at(s@, i as int);
    let after = match &key {
        Some((e, _)) => *e,
        None => i,
    };
    proof {
        lemma_indices_bounds(s@, after as int);
    }
    let ghost idx = indices_at(s@, after as int).1;
    match key {
        Some((_, name)) => {
            let ghost before = steps_of(acc@);
            acc.push(PathToken::Key(name));
            proof {
                assert(steps_of(acc@) =~= before + seq![Step::Key(name@)]) by {
                    assert(acc@.last()@ == Step::Key(name@));
                }
            }
            let ghost mid = steps_of(acc@);
            proof {
                assert forall|m: int|
                    0 <= m < mid.len() && (#[trigger] mid[m]) is Index implies mid[m]->Index_0
                    < usize::MAX by {
                    if m < before.len() {
                        assert(mid[m] == before[m]);
                    }
                }
            }
            let end = scan_indices(s, after, acc);
            proof {
                assert(before + seq![Step::Key(name@)] + index_steps(idx) =~= before + (seq![
                    Step::Key(name@),
                ] + index_steps(idx)));
            }
            Some(end)
        },
        None => {
            let ghost before = acc@;
            let mut more: Vec<PathToken> = Vec::new();
            let end = scan_indices(s, after, &mut more);
            let ghost got = more@;
            if end > i {
                acc.append(&mut more);
                proof {
                    assert(steps_of(Seq::<PathToken>::empty()) =~= Seq::<Step>::empty());
                    assert(Seq::<Step>::empty() + index_steps(idx) =~= index_steps(idx));
                    assert(acc@ =~= before + got);
                    assert(steps_of(acc@) =~= steps_of(before) + steps_of(got));
                    assert(Seq::<Step>::empty() + index_steps(idx) =~= index_steps(idx));
                    let all = steps_of(acc@);
                    assert forall|m: int|
                        0 <= m < all.len() && (#[trigger] all[m]) is Index implies all[m]->Index_0
                        < usize::MAX by {
                        if m < before.len() {
                            assert(all[m] == steps_of(before)[m]);
                        } else {
                            assert(all[m] == steps_of(got)[m - before.len()]);
                        }
                    }
                }
                Some(end)
            } else {
                None
            }
        },
    }
}

/// The path at `i`, with its end.
fn scan_path(s: &Vec<char>, i: usize, sep: char) -> (r: Option<(usize, Vec<PathToken>)>)
    requires
        i <= s@.len(),
    ensures
        match path_at(s@, i as int, sep) {
            Some((e, p)) => r is Some && r->Some_0.0 == e && steps_of(r->Some_0.1@) == p
                && e <= s@.len() && indices_fit(p),
            None => r is None,
        },
{
    let mut toks: Vec<PathToken> = Vec::new();
    let first = scan_segment(s, i, &mut toks);
    proof {
        assert(steps_of(Seq::<PathToken>::empty()) =~= Seq::<Step>::empty());
    }
    match first {
        None => None,
        Some(e) => {
            let ghost t0 = segment_at(s@, i as int)->Some_0.1;
            proof {
                assert(segment_at(s@, i as int) is Some);
                assert(segment_at(s@, i as int)->Some_0.0 == e as int);
                assert(Seq::<Step>::empty() + t0 =~= t0);
            }
            let mut j = e;
            while j < s.len() && s[j] == sep
                invariant
                    i < j <= s@.len(),
                    path_rest(s@, j as int, sep, steps_of(toks@)) == path_rest(
                        s@,
                        e as int,
                        sep,
                        t0,
                    ),
                    path_at(s@, i as int, sep) == Some(path_rest(s@, e as int, sep, t0)),
                    indices_fit(steps_of(toks@)),
                decreases s@.len() - j,
            {
                match scan_segment(s, j + 1, &mut toks) {
                    Some(e2) => {
                        j = e2;
                    },
                    None => {
                        return Some((j, toks));
                    },
                }
            }
            Some((j, toks))
        },
    }
}

/// The value text of an assignment at `e`, if the grammar finds one.
fn scan_assignment(s: &Vec<char>, e: usize, op: Operation) -> (r: Option<Option<String>>)
    requires
        e <= s@.len(),
    ensures
        match assignment_at(s@, e as int, op) {
            Some(None) => r == Some(None::<String>),
            Some(Some(t)) => r is Some && r->Some_0 is Some && r->Some_0->Some_0@ == t,
            None => r is None,
        },
{
    if op == Operation::Remove {
        if e == s.len() {
            Some(None)
        } else {
            None
        }
    } else if e < s.len() && s[e] == '=' {
        let v = if e + 1 < s.len() && s[e + 1] == ' ' {
            e + 2
        } else {
            e + 1
        };
        if v < s.len() {
            Some(Some(string_of(s, v, s.len())))
        } else {
            None
        }
    } else {
        None
    }
}

/// The query that the text spells from `start`, for operation `op`.
fn scan_query(s: &Vec<char>, start: usize, sep: char, op: Operation) -> (r: Option<Jqesque>)
    requires
        start <= s@.len(),
    ensures
        match query_at(s@, start as int, sep, op) {
            Some((p, v)) => r is Some && parsed_as(r->Some_0, op, p, v) && indices_fit(p),
            None => r is None,
        },
{
    match scan_path(s, start, sep) {
        None => None,
        Some((e, tokens)) => match scan_assignment(s, e, op) {
            None => None,
            Some(None) => Some(Jqesque { tokens, value: None, operation: op }),
            Some(Some(text)) => {
                let value = match read_literal(text.as_str()) {
                    Some(v) => v,
                    None => json_string(text),
                };
                Some(Jqesque { tokens, value: Some(value), operation: op })
            },
        },
    }
}

/// `q` holds operation `op`, path `p`, and the value that text `v` stands for.
pub open spec fn parsed_as(q: Jqesque, op: Operation, p: Seq<Step>, v: Option<Seq<char>>) -> bool {
    &&& q.operation == op
    &&& steps_of(q.tokens@) == p
    &&& match v {
        None => q.value is None,
        Some(t) => q.value is Some && json_of(q.value->Some_0) == value_of_text(t),
    }
}

/// Parses `[operator]path[=[ ]value]`, with `separator` between path segments.
///
/// A leading `> ~ + - = ?` selects the operation where the rest then parses
/// as a query for it; otherwise the whole text is read as an `Auto` query, so
/// `-a=1` sets the key `-a`. The value is the JSON literal that the text after
/// `=` (and one optional space) spells, or else that text as a string.
pub fn parse_input(input: &str, separator: Separator) -> (r: Result<Jqesque, JqesqueError>)
    ensures
        match parse_spec(input@, sep_char(separator)) {
            Some((op, p, v)) => r is Ok && parsed_as(r->Ok_0, op, p, v) && indices_fit(p),
            None => r is Err && r->Err_0 is ParseError,
        },
{
    let sep = separator.as_char();
    let s = chars_of(input);
    if s.len() > 0 {
        if let Some(op) = Operation::from_operator(s[0]) {
            if let Some(q) = scan_query(&s, 1, sep, op) {
                return Ok(q);
            }
        }
    }
    match scan_query(&s, 0, sep, Operation::Auto) {
        Some(q) => Ok(q),
        None => Err(
            JqesqueError::ParseError(
                String::from_str("malformed query: expected [operator]path[=value]"),
            ),
        ),
    }
}

} // verus!
