use crate::json::Json;
use crate::parse::{digits_value, is_digit};
use crate::manipulators::{indices_fit, insert_spec, member_or_null, padded};
use crate::types::{steps_of, PathToken, Step};
use vstd::prelude::*;
use vstd::string::StrSliceExecFns;

verus! {

/// A key as one RFC 6901 reference token: `~` becomes `~0` and `/` becomes `~1`.
pub open spec fn escape_seg(k: Seq<char>) -> Seq<char>
    decreases k.len(),
{
    if k.len() == 0 {
        Seq::empty()
    } else {
        escape_seg(k.drop_last()) + escape_char(k.last())
    }
}

/// The encoding of one character of a key.
pub open spec fn escape_char(c: char) -> Seq<char> {
    if c == '~' {
        seq!['~', '0']
    } else if c == '/' {
        seq!['~', '1']
    } else {
        seq![c]
    }
}

/// The key that an encoded reference token stands for.
pub open spec fn unescape_seg(t: Seq<char>) -> Seq<char>
    decreases t.len(),
{
    if t.len() == 0 {
        Seq::empty()
    } else if t.len() >= 2 && t[0] == '~' && t[1] == '0' {
        seq!['~'] + unescape_seg(t.subrange(2, t.len() as int))
    } else if t.len() >= 2 && t[0] == '~' && t[1] == '1' {
        seq!['/'] + unescape_seg(t.subrange(2, t.len() as int))
    } else {
        seq![t[0]] + unescape_seg(t.drop_first())
    }
}

/// The decimal digit for `d < 10`.
pub open spec fn digit_char(d: nat) -> char {
    if d == 0 {
        '0'
    } else if d == 1 {
        '1'
    } else if d == 2 {
        '2'
    } else if d == 3 {
        '3'
    } else if d == 4 {
        '4'
    } else if d == 5 {
        '5'
    } else if d == 6 {
        '6'
    } else if d == 7 {
        '7'
    } else if d == 8 {
        '8'
    } else {
        '9'
    }
}

/// The decimal text of `n`, without leading zeros.
pub open spec fn decimal(n: nat) -> Seq<char>
    decreases n,
{
    if n < 10 {
        seq![digit_char(n)]
    } else {
        decimal(n / 10).push(digit_char(n % 10))
    }
}

/// The reference token of one path step.
pub open spec fn step_text(s: Step) -> Seq<char> {
    match s {
        Step::Key(k) => escape_seg(k),
        Step::Index(i) => decimal(i),
    }
}

/// The RFC 6901 pointer of a path: `/` before each step's token.
pub open spec fn pointer_spec(p: Seq<Step>) -> Seq<char>
    decreases p.len(),
{
    if p.len() == 0 {
        Seq::empty()
    } else {
        pointer_spec(p.drop_last()) + seq!['/'] + step_text(p.last())
    }
}

proof fn lemma_escape_front(c: char, rest: Seq<char>)
    ensures
        escape_seg(seq![c] + rest) == escape_char(c) + escape_seg(rest),
    decreases rest.len(),
{
    if rest.len() == 0 {
        let s = seq![c] + rest;
        assert(s.drop_last() =~= Seq::<char>::empty());
        assert(s.last() == c);
        assert(escape_seg(s) == escape_seg(s.drop_last()) + escape_char(c));
        assert(Seq::<char>::empty() + escape_char(c) =~= escape_char(c));
        assert(escape_char(c) + Seq::<char>::empty() =~= escape_char(c));
    } else {
        let s = seq![c] + rest;
        assert(s.drop_last() =~= seq![c] + rest.drop_last());
        assert(s.last() == rest.last());
        lemma_escape_front(c, rest.drop_last());
        assert(escape_char(c) + escape_seg(rest.drop_last()) + escape_char(rest.last()) =~= escape_char(
            c,
        ) + (escape_seg(rest.drop_last()) + escape_char(rest.last())));
    }
}

/// The escaped form of a key holds no `/`, and unescaping it gives the key
/// back: a key with `/` or `~` survives the round trip through a pointer.
pub proof fn lemma_escape_round_trip(k: Seq<char>)
    ensures
        unescape_seg(escape_seg(k)) == k,
        !escape_seg(k).contains('/'),
    decreases k.len(),
{
    if k.len() > 0 {
        let c = k[0];
        let rest = k.drop_first();
        assert(k =~= seq![c] + rest);
        lemma_escape_front(c, rest);
        lemma_escape_round_trip(rest);
        let e = escape_char(c) + escape_seg(rest);
        if c == '~' || c == '/' {
            assert(e.subrange(2, e.len() as int) =~= escape_seg(rest));
        } else {
            assert(e.drop_first() =~= escape_seg(rest));
        }
        assert(seq![c] + rest =~= k);
        assert(!e.contains('/')) by {
            if e.contains('/') {
                let j = choose|j: int| 0 <= j < e.len() && e[j] == '/';
                if j >= escape_char(c).len() {
                    assert(escape_seg(rest)[j - escape_char(c).len()] == '/');
                }
            }
        }
    }
}

/// The pointer text of a list of encoded tokens: `/` before each.
pub open spec fn join_tokens(ts: Seq<Seq<char>>) -> Seq<char>
    decreases ts.len(),
{
    if ts.len() == 0 {
        Seq::empty()
    } else {
        seq!['/'] + ts[0] + join_tokens(ts.drop_first())
    }
}

/// The first position at or after `i` that holds `/`, or the length.
pub open spec fn slash_at(s: Seq<char>, i: int) -> int
    decreases s.len() - i,
{
    if i < 0 || i >= s.len() {
        s.len() as int
    } else if s[i] == '/' {
        i
    } else {
        slash_at(s, i + 1)
    }
}

/// The encoded tokens of a pointer text: the pieces between the `/`s.
pub open spec fn tokens_of(t: Seq<char>) -> Seq<Seq<char>>
    decreases t.len(),
{
    if t.len() == 0 {
        Seq::empty()
    } else {
        let body = t.drop_first();
        let j = slash_at(body, 0);
        if 0 <= j <= body.len() {
            seq![body.subrange(0, j)] + tokens_of(body.subrange(j, body.len() as int))
        } else {
            Seq::empty()
        }
    }
}

/// A text that `PointerBuf::parse` accepts: empty, or a leading `/` with each
/// `~` followed by `0` or `1`.
pub open spec fn pointer_valid(t: Seq<char>) -> bool {
    t.len() == 0 || (t[0] == '/' && encoding_valid(t))
}

/// Each `~` of `t` is followed by `0` or `1`.
pub open spec fn encoding_valid(t: Seq<char>) -> bool {
    forall|i: int| 0 <= i < t.len() && #[trigger] t[i] == '~' ==> i + 1 < t.len() && (t[i + 1]
        == '0' || t[i + 1] == '1')
}

/// The array position that an encoded token names, as `jsonptr` reads it:
/// `-` and a leading zero name none; else an optional `+` and decimal digits
/// whose value fits in `usize`.
pub open spec fn index_of_token(tok: Seq<char>) -> Option<nat> {
    let ds = if tok.len() > 0 && tok[0] == '+' {
        tok.drop_first()
    } else {
        tok
    };
    if tok == seq!['-'] || (tok.len() > 1 && tok[0] == '0') {
        None
    } else if ds.len() > 0 && (forall|k: int| 0 <= k < ds.len() ==> is_digit(#[trigger] ds[k]))
        && digits_value(ds, 0, ds.len() as int) <= usize::MAX {
        Some(digits_value(ds, 0, ds.len() as int))
    } else {
        None
    }
}

/// What the encoded tokens designate in `d`: arrays by position, objects by
/// the decoded key; `None` where a step finds nothing.
pub open spec fn resolve_tokens(d: Json, ts: Seq<Seq<char>>) -> Option<Json>
    decreases ts.len(),
{
    if ts.len() == 0 {
        Some(d)
    } else {
        match d {
            Json::Array(a) => match index_of_token(ts[0]) {
                Some(i) => if i < a.len() {
                    resolve_tokens(a[i as int], ts.drop_first())
                } else {
                    None
                },
                None => None,
            },
            Json::Object(m) => if m.contains_key(unescape_seg(ts[0])) {
                resolve_tokens(m[unescape_seg(ts[0])], ts.drop_first())
            } else {
                None
            },
            _ => None,
        }
    }
}

/// What the pointer text `t` designates in `d`; `None` for a text that is no
/// pointer.
pub open spec fn resolve_pointer_text(d: Json, t: Seq<char>) -> Option<Json> {
    if pointer_valid(t) {
        resolve_tokens(d, tokens_of(t))
    } else {
        None
    }
}

proof fn lemma_join_push(ts: Seq<Seq<char>>)
    requires
        ts.len() > 0,
    ensures
        join_tokens(ts) == join_tokens(ts.drop_last()) + seq!['/'] + ts.last(),
    decreases ts.len(),
{
    if ts.len() == 1 {
        assert(ts.drop_first() =~= Seq::<Seq<char>>::empty());
        assert(ts.drop_last() =~= Seq::<Seq<char>>::empty());
        assert(seq!['/'] + ts[0] + Seq::<char>::empty() =~= Seq::<char>::empty() + seq!['/']
            + ts.last());
    } else {
        let df = ts.drop_first();
        lemma_join_push(df);
        assert(df.drop_last() =~= ts.drop_last().drop_first());
        assert(ts.drop_last()[0] == ts[0]);
        assert(seq!['/'] + ts[0] + (join_tokens(df.drop_last()) + seq!['/'] + df.last()) =~= (
        seq!['/'] + ts[0] + join_tokens(df.drop_last())) + seq!['/'] + ts.last());
    }
}

/// The pointer of a path joins the tokens of its steps.
proof fn lemma_pointer_is_join(p: Seq<Step>)
    ensures
        pointer_spec(p) == join_tokens(p.map_values(|s: Step| step_text(s))),
    decreases p.len(),
{
    let ts = p.map_values(|s: Step| step_text(s));
    if p.len() == 0 {
        assert(ts =~= Seq::<Seq<char>>::empty());
    } else {
        lemma_pointer_is_join(p.drop_last());
        assert(ts.drop_last() =~= p.drop_last().map_values(|s: Step| step_text(s)));
        lemma_join_push(ts);
    }
}

proof fn lemma_slash_at(s: Seq<char>, i: int, m: int)
    requires
        0 <= i <= m <= s.len(),
        forall|k: int| i <= k < m ==> #[trigger] s[k] != '/',
        m == s.len() || s[m] == '/',
    ensures
        slash_at(s, i) == m,
    decreases m - i,
{
    if i < m {
        lemma_slash_at(s, i + 1, m);
    }
}

/// Splitting joined tokens that hold no `/` gives the tokens back.
proof fn lemma_tokens_of_join(ts: Seq<Seq<char>>)
    requires
        forall|j: int| 0 <= j < ts.len() ==> !(#[trigger] ts[j]).contains('/'),
    ensures
        tokens_of(join_tokens(ts)) == ts,
    decreases ts.len(),
{
    if ts.len() > 0 {
        let rest = ts.drop_first();
        let t = join_tokens(ts);
        let body = t.drop_first();
        let tail = join_tokens(rest);
        assert(body =~= ts[0] + tail);
        assert forall|k: int| 0 <= k < ts[0].len() implies #[trigger] body[k] != '/' by {
            assert(body[k] == ts[0][k]);
            if ts[0][k] == '/' {
                assert(ts[0].contains('/'));
            }
        }
        if rest.len() > 0 {
            assert(body[ts[0].len() as int] == '/');
        }
        lemma_slash_at(body, 0, ts[0].len() as int);
        assert(body.subrange(0, ts[0].len() as int) =~= ts[0]);
        assert(body.subrange(ts[0].len() as int, body.len() as int) =~= tail);
        assert forall|j: int| 0 <= j < rest.len() implies !(#[trigger] rest[j]).contains('/') by {
            assert(rest[j] == ts[j + 1]);
        }
        lemma_tokens_of_join(rest);
        assert(seq![ts[0]] + rest =~= ts);
    }
}

proof fn lemma_valid_concat(a: Seq<char>, b: Seq<char>)
    requires
        encoding_valid(a),
        encoding_valid(b),
    ensures
        encoding_valid(a + b),
{
    let c = a + b;
    assert forall|i: int| 0 <= i < c.len() && #[trigger] c[i] == '~' implies i + 1 < c.len() && (
    c[i + 1] == '0' || c[i + 1] == '1') by {
        if i < a.len() {
            assert(a[i] == '~');
        } else {
            assert(b[i - a.len()] == '~');
        }
    }
}

proof fn lemma_escape_valid(k: Seq<char>)
    ensures
        encoding_valid(escape_seg(k)),
    decreases k.len(),
{
    if k.len() > 0 {
        lemma_escape_valid(k.drop_last());
        let e = escape_char(k.last());
        assert(encoding_valid(e));
        lemma_valid_concat(escape_seg(k.drop_last()), e);
    }
}

proof fn lemma_join_valid(ts: Seq<Seq<char>>)
    requires
        forall|j: int| 0 <= j < ts.len() ==> encoding_valid(#[trigger] ts[j]),
    ensures
        pointer_valid(join_tokens(ts)),
        encoding_valid(join_tokens(ts)),
    decreases ts.len(),
{
    if ts.len() > 0 {
        let rest = ts.drop_first();
        assert forall|j: int| 0 <= j < rest.len() implies encoding_valid(#[trigger] rest[j]) by {
            assert(rest[j] == ts[j + 1]);
        }
        lemma_join_valid(rest);
        assert(encoding_valid(seq!['/']));
        assert(encoding_valid(ts[0]));
        lemma_valid_concat(seq!['/'], ts[0]);
        lemma_valid_concat(seq!['/'] + ts[0], join_tokens(rest));
    }
}

proof fn lemma_digits_prefix(s: Seq<char>, t: Seq<char>, j: int)
    requires
        0 <= j <= s.len(),
        j <= t.len(),
        s.subrange(0, j) == t.subrange(0, j),
    ensures
        digits_value(s, 0, j) == digits_value(t, 0, j),
    decreases j,
{
    if j > 0 {
        assert(s[j - 1] == s.subrange(0, j)[j - 1]);
        assert(t[j - 1] == t.subrange(0, j)[j - 1]);
        assert(s.subrange(0, j - 1) =~= s.subrange(0, j).subrange(0, j - 1));
        assert(t.subrange(0, j - 1) =~= t.subrange(0, j).subrange(0, j - 1));
        lemma_digits_prefix(s, t, j - 1);
    }
}

proof fn lemma_digit_char(d: nat)
    requires
        d < 10,
    ensures
        is_digit(digit_char(d)),
        ((digit_char(d) as u32) - ('0' as u32)) as nat == d,
{
    assert('0' as u32 == 48);
    if d == 0 {
        assert('0' as u32 == 48);
    } else if d == 1 {
        assert('1' as u32 == 49);
    } else if d == 2 {
        assert('2' as u32 == 50);
    } else if d == 3 {
        assert('3' as u32 == 51);
    } else if d == 4 {
        assert('4' as u32 == 52);
    } else if d == 5 {
        assert('5' as u32 == 53);
    } else if d == 6 {
        assert('6' as u32 == 54);
    } else if d == 7 {
        assert('7' as u32 == 55);
    } else if d == 8 {
        assert('8' as u32 == 56);
    } else {
        assert('9' as u32 == 57);
    }
}

/// The decimal text of `n` is digits without a leading zero, and spells `n`.
proof fn lemma_decimal(n: nat)
    ensures
        decimal(n).len() > 0,
        forall|k: int| 0 <= k < decimal(n).len() ==> is_digit(#[trigger] decimal(n)[k]),
        decimal(n).len() > 1 ==> decimal(n)[0] != '0',
        digits_value(decimal(n), 0, decimal(n).len() as int) == n,
    decreases n,
{
    if n < 10 {
        lemma_digit_char(n);
        assert(digits_value(decimal(n), 0, 0) == 0);
    } else {
        let s = decimal(n / 10);
        lemma_decimal(n / 10);
        lemma_digit_char(n % 10);
        let c = digit_char(n % 10);
        let t = s.push(c);
        assert(t.subrange(0, s.len() as int) =~= s.subrange(0, s.len() as int));
        lemma_digits_prefix(t, s, s.len() as int);
        assert(s.len() > 1 ==> t[0] == s[0]);
        assert(n / 10 > 0);
        if s.len() == 1 {
            assert(s[0] != '0') by {
                if s[0] == '0' {
                    assert(digits_value(s, 0, 1) == digits_value(s, 0, 0) * 10 + 0);
                }
            }
        }
    }
}

/// `jsonptr` reads the decimal text of a position back as that position.
proof fn lemma_index_of_decimal(i: nat)
    requires
        i <= usize::MAX,
    ensures
        index_of_token(decimal(i)) == Some(i),
{
    lemma_decimal(i);
    let t = decimal(i);
    assert(t[0] != '+' && t[0] != '-');
    assert(t != seq!['-']);
}

proof fn lemma_step_text_plain(s: Step)
    ensures
        !step_text(s).contains('/'),
        encoding_valid(step_text(s)),
{
    match s {
        Step::Key(k) => {
            lemma_escape_round_trip(k);
            lemma_escape_valid(k);
        },
        Step::Index(i) => {
            lemma_decimal(i);
            let t = decimal(i);
            if t.contains('/') {
                let j = choose|j: int| 0 <= j < t.len() && t[j] == '/';
                assert(is_digit(t[j]));
            }
            assert forall|j: int| 0 <= j < t.len() && #[trigger] t[j] == '~' implies false by {
                assert(is_digit(t[j]));
            }
        },
    }
}

proof fn lemma_resolve_inserted(d: Json, p: Seq<Step>, v: Json)
    requires
        forall|j: int| 0 <= j < p.len() && (#[trigger] p[j]) is Index ==> p[j]->Index_0
            <= usize::MAX,
    ensures
        resolve_tokens(insert_spec(d, p, v), p.map_values(|s: Step| step_text(s))) == Some(v),
    decreases p.len(),
{
    let ts = p.map_values(|s: Step| step_text(s));
    if p.len() > 0 {
        let rest = p.drop_first();
        assert(ts.drop_first() =~= rest.map_values(|s: Step| step_text(s)));
        assert forall|j: int| 0 <= j < rest.len() && (#[trigger] rest[j]) is Index implies rest[j]->Index_0
            <= usize::MAX by {
            assert(rest[j] == p[j + 1]);
        }
        match p[0] {
            Step::Key(k) => {
                lemma_escape_round_trip(k);
                let m = if d is Object {
                    d->Object_0
                } else {
                    Map::empty()
                };
                lemma_resolve_inserted(member_or_null(m, k), rest, v);
            },
            Step::Index(i) => {
                assert(p[0] is Index);
                lemma_index_of_decimal(i);
                let a = padded(
                    if d is Array {
                        d->Array_0
                    } else {
                        Seq::empty()
                    },
                    i,
                );
                lemma_resolve_inserted(a[i as int], rest, v);
            },
        }
    }
}

/// After an insert of `v` at path `p` into an empty (`null`) document, the
/// path's RFC 6901 pointer designates exactly `v`.
pub proof fn lemma_insert_round_trip(p: Seq<Step>, v: Json)
    requires
        indices_fit(p),
    ensures
        resolve_pointer_text(insert_spec(Json::Null, p, v), pointer_spec(p)) == Some(v),
{
    let ts = p.map_values(|s: Step| step_text(s));
    lemma_pointer_is_join(p);
    assert forall|j: int| 0 <= j < ts.len() implies !(#[trigger] ts[j]).contains('/')
        && encoding_valid(ts[j]) by {
        lemma_step_text_plain(p[j]);
    }
    lemma_tokens_of_join(ts);
    lemma_join_valid(ts);
    lemma_resolve_inserted(Json::Null, p, v);
}

/// Relies on `String::push`: appends one character.
#[verifier::external_body]
pub(crate) fn push_char(s: &mut String, c: char)
    ensures
        final(s)@ == old(s)@.push(c),
{
    s.push(c);
}

/// Relies on `usize`'s `to_string`: the decimal text of the number.
#[verifier::external_body]
fn decimal_text(n: usize) -> (r: String)
    ensures
        r@ == decimal(n as nat),
{
    n.to_string()
}

/// Appends the encoding of `segment` to `out`.
fn push_escaped(out: &mut String, segment: &str)
    ensures
        final(out)@ == old(out)@ + escape_seg(segment@),
{
    let n = segment.unicode_len();
    let mut i: usize = 0;
    while i < n
        invariant
            n == segment@.len(),
            i <= n,
            out@ == old(out)@ + escape_seg(segment@.subrange(0, i as int)),
        decreases n - i,
    {
        let c = segment.get_char(i);
        proof {
            let next = segment@.subrange(0, i + 1);
            assert(next.drop_last() =~= segment@.subrange(0, i as int));
            assert(next.last() == c);
        }
        if c == '~' {
            push_char(out, '~');
            push_char(out, '0');
        } else if c == '/' {
            push_char(out, '~');
            push_char(out, '1');
        } else {
            push_char(out, c);
        }
        proof {
            assert(out@ =~= old(out)@ + escape_seg(segment@.subrange(0, i + 1)));
        }
        i = i + 1;
    }
    proof {
        assert(segment@.subrange(0, n as int) =~= segment@);
    }
}

/// Escapes `~` and `/` in a key as RFC 6901 asks.
pub fn escape_json_pointer_segment(segment: &str) -> (r: String)
    ensures
        r@ == escape_seg(segment@),
{
    let mut out = String::new();
    push_escaped(&mut out, segment);
    proof {
        assert(out@ =~= escape_seg(segment@));
    }
    out
}

/// The RFC 6901 pointer text of a token path.
pub fn tokens_to_pointer(tokens: &[PathToken]) -> (r: String)
    ensures
        r@ == pointer_spec(steps_of(tokens@)),
{
    let mut out = String::new();
    let mut i: usize = 0;
    while i < tokens.len()
        invariant
            i <= tokens@.len(),
            out@ == pointer_spec(steps_of(tokens@).subrange(0, i as int)),
        decreases tokens@.len() - i,
    {
        proof {
            let next = steps_of(tokens@).subrange(0, i + 1);
            assert(next.drop_last() =~= steps_of(tokens@).subrange(0, i as int));
            assert(next.last() == tokens@[i as int]@);
        }
        push_char(&mut out, '/');
        match &tokens[i] {
            PathToken::Key(k) => {
                push_escaped(&mut out, k.as_str());
            },
            PathToken::Index(n) => {
                let d = decimal_text(*n);
                let mut j: usize = 0;
                let ghost start = out@;
                let len = d.as_str().unicode_len();
                while j < len
                    invariant
                        len == d@.len(),
                        j <= len,
                        out@ == start + d@.subrange(0, j as int),
                    decreases len - j,
                {
                    push_char(&mut out, d.as_str().get_char(j));
                    proof {
                        assert(out@ =~= start + d@.subrange(0, j + 1));
                    }
                    j = j + 1;
                }
                proof {
                    assert(d@.subrange(0, len as int) =~= d@);
                }
            },
        }
        proof {
            let next = steps_of(tokens@).subrange(0, i + 1);
            assert(out@ =~= pointer_spec(next));
        }
        i = i + 1;
    }
    proof {
        assert(steps_of(tokens@).subrange(0, tokens@.len() as int) =~= steps_of(tokens@));
    }
    out
}

} // verus!
