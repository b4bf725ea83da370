//! JSON values as the runtime's data plane holds them: numbers are kept as
//! the text serde_json writes for them, objects as their entries in order.

use vstd::prelude::*;
use vstd::string::*;
use crate::errors::RuntimeError;
use crate::text::{decimal, digit_char, owned, text_equal};

verus! {

/// A JSON value.
#[derive(Debug)]
pub enum JsonValue {
    /// `null`.
    Null,
    /// `true` or `false`.
    Bool(bool),
    /// A number, as the text it is written as.
    Number(String),
    /// A string.
    String(String),
    /// An array.
    Array(Vec<JsonValue>),
    /// An object: (key, value) entries, keys unique, in order.
    Object(Vec<(String, JsonValue)>),
}

/// Stable name of a value's JSON type.
pub open spec fn json_kind(v: JsonValue) -> Seq<char> {
    match v {
        JsonValue::Null => "null"@,
        JsonValue::Bool(_) => "boolean"@,
        JsonValue::Number(_) => "number"@,
        JsonValue::String(_) => "string"@,
        JsonValue::Array(_) => "array"@,
        JsonValue::Object(_) => "object"@,
    }
}

/// Names the JSON type of a value for runtime errors.
pub fn json_type_name(v: &JsonValue) -> (r: String)
    ensures
        r@ == json_kind(*v),
{
    match v {
        JsonValue::Null => owned("null"),
        JsonValue::Bool(_) => owned("boolean"),
        JsonValue::Number(_) => owned("number"),
        JsonValue::String(_) => owned("string"),
        JsonValue::Array(_) => owned("array"),
        JsonValue::Object(_) => owned("object"),
    }
}

/// `r` is a type mismatch between `expected` and the type of `actual`.
pub open spec fn mismatch<T>(r: Result<T, RuntimeError>, expected: Seq<char>, actual: JsonValue) -> bool {
    match r {
        Err(RuntimeError::ValueTypeMismatch { expected: e, actual: a }) => e@ == expected && a@ == json_kind(actual),
        _ => false,
    }
}

/// The value of `key` in object entries: the first entry with that key.
pub open spec fn lookup(entries: Seq<(String, JsonValue)>, key: Seq<char>) -> Option<JsonValue>
    decreases entries.len(),
{
    if entries.len() == 0 {
        None
    } else if entries[0].0@ == key {
        Some(entries[0].1)
    } else {
        lookup(entries.drop_first(), key)
    }
}

/// Finds the value of `key` among object entries.
pub fn get_entry<'a>(entries: &'a Vec<(String, JsonValue)>, key: &str) -> (r: Option<&'a JsonValue>)
    ensures
        match r {
            Some(v) => lookup(entries@, key@) == Some(*v),
            None => lookup(entries@, key@) is None,
        },
{
    let mut i: usize = 0;
    assert(entries@.skip(0) =~= entries@);
    while i < entries.len()
        invariant
            i <= entries@.len(),
            lookup(entries@, key@) == lookup(entries@.skip(i as int), key@),
        decreases entries@.len() - i,
    {
        assert(entries@.skip(i as int)[0] == entries@[i as int]);
        assert(entries@.skip(i as int).drop_first() =~= entries@.skip(i + 1));
        if text_equal(entries[i].0.as_str(), key) {
            return Some(&entries[i].1);
        }
        i += 1;
    }
    None
}

/// Text of a scalar cell: `null` is empty, booleans and numbers as JSON
/// writes them, strings as they are; arrays and objects are refused.
pub open spec fn scalar_cell(v: JsonValue) -> Option<Seq<char>> {
    match v {
        JsonValue::Null => Some(Seq::empty()),
        JsonValue::Bool(b) => Some(if b { "true"@ } else { "false"@ }),
        JsonValue::Number(n) => Some(n@),
        JsonValue::String(s) => Some(s@),
        _ => None,
    }
}

/// Renders a scalar without implicitly serialising objects or arrays.
pub fn scalar_text(v: &JsonValue) -> (r: Result<String, RuntimeError>)
    ensures
        match scalar_cell(*v) {
            Some(t) => r matches Ok(s) && s@ == t,
            None => mismatch(r, "scalar"@, *v),
        },
{
    match v {
        JsonValue::Null => Ok(String::new()),
        JsonValue::Bool(b) => Ok(if *b { owned("true") } else { owned("false") }),
        JsonValue::Number(n) => Ok(n.clone()),
        JsonValue::String(s) => Ok(s.clone()),
        _ => Err(RuntimeError::ValueTypeMismatch { expected: owned("scalar"), actual: json_type_name(v) }),
    }
}

/// Mathematical value of a JSON value.
pub enum JsonView {
    /// `null`.
    Null,
    /// A boolean.
    Bool(bool),
    /// A number's text.
    Number(Seq<char>),
    /// A string.
    String(Seq<char>),
    /// An array.
    Array(Seq<JsonView>),
    /// An object's entries in order.
    Object(Seq<(Seq<char>, JsonView)>),
}

/// The mathematical value of `v`.
pub open spec fn jview(v: JsonValue) -> JsonView
    decreases v,
{
    match v {
        JsonValue::Null => JsonView::Null,
        JsonValue::Bool(b) => JsonView::Bool(b),
        JsonValue::Number(n) => JsonView::Number(n@),
        JsonValue::String(t) => JsonView::String(t@),
        JsonValue::Array(list) => JsonView::Array(Seq::new(list@.len(), |i: int| {
            if 0 <= i < list@.len() {
                proof { vstd::std_specs::vec::axiom_vec_index_decreases(list, i); }
                jview(list@[i])
            } else {
                JsonView::Null
            }
        })),
        JsonValue::Object(entries) => JsonView::Object(Seq::new(entries@.len(), |i: int| {
            if 0 <= i < entries@.len() {
                proof { vstd::std_specs::vec::axiom_vec_index_decreases(entries, i); }
                (entries@[i].0@, jview(entries@[i].1))
            } else {
                (Seq::empty(), JsonView::Null)
            }
        })),
    }
}

/// Keys of object entries are pairwise distinct.
pub open spec fn keys_distinct(entries: Seq<(String, JsonValue)>) -> bool {
    forall|i: int, j: int| 0 <= i < j < entries.len() ==> #[trigger] entries[i].0@ != #[trigger] entries[j].0@
}

proof fn lemma_lookup_at(entries: Seq<(String, JsonValue)>, key: Seq<char>, i: int)
    requires
        0 <= i < entries.len(),
        entries[i].0@ == key,
        forall|j: int| 0 <= j < i ==> (#[trigger] entries[j]).0@ != key,
    ensures
        lookup(entries, key) == Some(entries[i].1),
    decreases i,
{
    if i > 0 {
        let d = entries.drop_first();
        assert forall|j: int| 0 <= j < i - 1 implies (#[trigger] d[j]).0@ != key by {
            assert(d[j] == entries[j + 1]);
        }
        assert(entries[0].0@ != key);
        lemma_lookup_at(d, key, i - 1);
    }
}

proof fn lemma_lookup_absent(entries: Seq<(String, JsonValue)>, key: Seq<char>)
    requires
        forall|j: int| 0 <= j < entries.len() ==> (#[trigger] entries[j]).0@ != key,
    ensures
        lookup(entries, key) is None,
    decreases entries.len(),
{
    if entries.len() > 0 {
        let d = entries.drop_first();
        assert forall|j: int| 0 <= j < d.len() implies (#[trigger] d[j]).0@ != key by {
            assert(d[j] == entries[j + 1]);
        }
        assert(entries[0].0@ != key);
        lemma_lookup_absent(d, key);
    }
}

/// With distinct keys, the entry `lookup` finds for a key is its only one:
/// it is there exactly when some entry has the key, and it is that entry.
pub proof fn lemma_lookup_finds_the_entry(entries: Seq<(String, JsonValue)>, key: Seq<char>, i: int)
    requires
        keys_distinct(entries),
        0 <= i < entries.len(),
        entries[i].0@ == key,
    ensures
        lookup(entries, key) == Some(entries[i].1),
        forall|j: int| 0 <= j < entries.len() && j != i ==> (#[trigger] entries[j]).0@ != key,
{
    assert forall|j: int| 0 <= j < entries.len() && j != i implies (#[trigger] entries[j]).0@ != key by {
        if j < i {
            assert(entries[j].0@ != entries[i].0@);
        } else {
            assert(entries[i].0@ != entries[j].0@);
        }
    }
    lemma_lookup_at(entries, key, i);
}

/// A key no entry has is not found.
pub proof fn lemma_lookup_missing(entries: Seq<(String, JsonValue)>, key: Seq<char>)
    requires
        forall|j: int| 0 <= j < entries.len() ==> (#[trigger] entries[j]).0@ != key,
    ensures
        lookup(entries, key) is None,
{
    lemma_lookup_absent(entries, key);
}

/// Keys of viewed object entries are pairwise distinct.
pub open spec fn view_keys_distinct(entries: Seq<(Seq<char>, JsonView)>) -> bool {
    forall|i: int, j: int| 0 <= i < j < entries.len() ==> #[trigger] entries[i].0 != #[trigger] entries[j].0
}

/// Every object inside a viewed value, at any depth, has distinct keys,
/// as a JSON object read from a document has.
pub open spec fn view_wf(v: JsonView) -> bool
    decreases v,
{
    match v {
        JsonView::Array(items) => forall|i: int| 0 <= i < items.len() ==> view_wf(#[trigger] items[i]),
        JsonView::Object(entries) => view_keys_distinct(entries)
            && forall|i: int| 0 <= i < entries.len() ==> view_wf(#[trigger] entries[i].1),
        _ => true,
    }
}

/// Every object inside `v` has distinct keys.
pub open spec fn json_wf(v: JsonValue) -> bool {
    view_wf(jview(v))
}

/// A deep copy of a value.
pub fn copy_json(v: &JsonValue) -> (r: JsonValue)
    ensures
        jview(r) == jview(*v),
    decreases v,
{
    match v {
        JsonValue::Null => JsonValue::Null,
        JsonValue::Bool(b) => JsonValue::Bool(*b),
        JsonValue::Number(n) => JsonValue::Number(n.clone()),
        JsonValue::String(t) => JsonValue::String(t.clone()),
        JsonValue::Array(list) => {
            let mut out: Vec<JsonValue> = Vec::new();
            let mut i: usize = 0;
            while i < list.len()
                invariant
                    *v == JsonValue::Array(*list),
                    i <= list@.len(),
                    out@.len() == i,
                    forall|k: int| 0 <= k < i ==> jview(#[trigger] out@[k]) == jview(list@[k]),
                decreases list@.len() - i,
            {
                proof {
                    vstd::std_specs::vec::axiom_vec_index_decreases(*list, i as int);
                    assert(decreases_to!(*v => (*v)->Array_0));
                    assert((*v)->Array_0 == *list);
                    assert(decreases_to!(*list => list[i as int]));
                    assert(decreases_to!(*v => list[i as int]));
                }
                out.push(copy_json(&list[i]));
                i += 1;
            }
            let r = JsonValue::Array(out);
            assert(jview(r) == jview(*v)) by {
                if let JsonView::Array(a) = jview(r) {
                    if let JsonView::Array(b) = jview(*v) {
                        assert(a =~= b);
                    }
                }
            }
            r
        },
        JsonValue::Object(entries) => {
            let mut out: Vec<(String, JsonValue)> = Vec::new();
            let mut i: usize = 0;
            while i < entries.len()
                invariant
                    *v == JsonValue::Object(*entries),
                    i <= entries@.len(),
                    out@.len() == i,
                    forall|k: int| 0 <= k < i ==> (#[trigger] out@[k]).0@ == entries@[k].0@ && jview(out@[k].1) == jview(entries@[k].1),
                decreases entries@.len() - i,
            {
                proof {
                    vstd::std_specs::vec::axiom_vec_index_decreases(*entries, i as int);
                    assert(decreases_to!(*v => (*v)->Object_0));
                    assert((*v)->Object_0 == *entries);
                    assert(decreases_to!(*entries => entries[i as int]));
                    assert(decreases_to!(entries[i as int] => entries[i as int].1));
                    assert(decreases_to!(*v => entries[i as int].1));
                }
                let key = entries[i].0.clone();
                let value = copy_json(&entries[i].1);
                out.push((key, value));
                i += 1;
            }
            let r = JsonValue::Object(out);
            assert(jview(r) == jview(*v)) by {
                if let JsonView::Object(a) = jview(r) {
                    if let JsonView::Object(b) = jview(*v) {
                        assert(a =~= b);
                    }
                }
            }
            r
        },
    }
}

/// The value of `key` among viewed object entries: the first entry with it.
pub open spec fn view_lookup(entries: Seq<(Seq<char>, JsonView)>, key: Seq<char>) -> Option<JsonView>
    decreases entries.len(),
{
    if entries.len() == 0 {
        None
    } else if entries[0].0 == key {
        Some(entries[0].1)
    } else {
        view_lookup(entries.drop_first(), key)
    }
}

/// The text after a pointer's leading `/`, cut at every `/` into tokens.
pub open spec fn split_slash(s: Seq<char>) -> Seq<Seq<char>>
    decreases s.len(),
{
    if s.len() == 0 {
        seq![Seq::empty()]
    } else {
        let t = split_slash(s.drop_last());
        if s.last() == '/' {
            t.push(Seq::empty())
        } else {
            t.update(t.len() - 1, t.last().push(s.last()))
        }
    }
}

proof fn lemma_split_nonempty(s: Seq<char>)
    ensures
        split_slash(s).len() >= 1,
    decreases s.len(),
{
    if s.len() > 0 {
        lemma_split_nonempty(s.drop_last());
    }
}

/// Every occurrence of the pair `a b`, scanned from the left without
/// overlap, replaced by `r`, as `str::replace` does.
pub open spec fn replace_pair(s: Seq<char>, a: char, b: char, r: char) -> Seq<char>
    decreases s.len(),
{
    if s.len() < 2 {
        s
    } else if s[0] == a && s[1] == b {
        seq![r] + replace_pair(s.skip(2), a, b, r)
    } else {
        seq![s[0]] + replace_pair(s.skip(1), a, b, r)
    }
}

/// A pointer token with its escapes undone: `~1` becomes `/`, then `~0`
/// becomes `~`.
pub open spec fn unescape(t: Seq<char>) -> Seq<char> {
    replace_pair(replace_pair(t, '~', '1', '/'), '~', '0', '~')
}

/// Whether every character is an ASCII digit.
pub open spec fn all_digits(t: Seq<char>) -> bool {
    forall|i: int| 0 <= i < t.len() ==> '0' <= #[trigger] t[i] && t[i] <= '9'
}

/// Decimal value of a run of digits.
pub open spec fn digits_value(t: Seq<char>) -> int
    decreases t.len(),
{
    if t.len() == 0 { 0 } else { digits_value(t.drop_last()) * 10 + ((t.last() as int) - ('0' as int)) }
}

/// The array index a token names: a non-empty run of digits without a
/// leading zero (but `0` itself) that fits in `usize`.
pub open spec fn token_index(t: Seq<char>) -> Option<int> {
    if t.len() == 0 || !all_digits(t) || (t[0] == '0' && t.len() != 1) || digits_value(t) > usize::MAX {
        None
    } else {
        Some(digits_value(t))
    }
}

proof fn lemma_split_joined(a: Seq<char>, b: Seq<char>)
    ensures
        split_slash(a + seq!['/'] + b) == split_slash(a) + split_slash(b),
    decreases b.len(),
{
    let x = a + seq!['/'] + b;
    if b.len() == 0 {
        assert(x.drop_last() =~= a);
        assert(x.last() == '/');
        assert(split_slash(a) + split_slash(b) =~= split_slash(a).push(Seq::empty()));
    } else {
        let b2 = b.drop_last();
        lemma_split_joined(a, b2);
        lemma_split_nonempty(b2);
        assert(x.drop_last() =~= a + seq!['/'] + b2);
        assert(x.last() == b.last());
        let aa = split_slash(a);
        let bb = split_slash(b2);
        if b.last() == '/' {
            assert((aa + bb).push(Seq::empty()) =~= aa + bb.push(Seq::empty()));
        } else {
            let c = b.last();
            assert((aa + bb).last() == bb.last());
            assert((aa + bb).update((aa + bb).len() - 1, (aa + bb).last().push(c))
                =~= aa + bb.update(bb.len() - 1, bb.last().push(c)));
        }
    }
}

proof fn lemma_walk_joined(v: JsonView, a: Seq<Seq<char>>, b: Seq<Seq<char>>)
    ensures
        pointer_walk(v, a + b) == match pointer_walk(v, a) {
            Some(w) => pointer_walk(w, b),
            None => None,
        },
    decreases b.len(),
{
    if b.len() == 0 {
        assert(a + b =~= a);
    } else {
        lemma_walk_joined(v, a, b.drop_last());
        assert((a + b).drop_last() =~= a + b.drop_last());
        assert((a + b).last() == b.last());
    }
}

/// Law: a JSON Pointer followed by another selects what the second selects
/// inside what the first selects, when the first is empty or starts with
/// `/` and the second starts with `/`.
pub proof fn lemma_pointer_joined(v: JsonView, p: Seq<char>, q: Seq<char>)
    requires
        p.len() == 0 || p[0] == '/',
        q.len() > 0 && q[0] == '/',
    ensures
        pointer_target(v, p + q) == match pointer_target(v, p) {
            Some(w) => pointer_target(w, q),
            None => None,
        },
{
    if p.len() == 0 {
        assert(p + q =~= q);
    } else {
        let pq = p + q;
        assert(pq[0] == '/');
        assert(pq.skip(1) =~= p.skip(1) + seq!['/'] + q.skip(1));
        lemma_split_joined(p.skip(1), q.skip(1));
        lemma_walk_joined(v, split_slash(p.skip(1)), split_slash(q.skip(1)));
    }
}

proof fn lemma_split_plain(k: Seq<char>)
    requires
        forall|i: int| 0 <= i < k.len() ==> k[i] != '/',
    ensures
        split_slash(k) == seq![k],
    decreases k.len(),
{
    if k.len() > 0 {
        let d = k.drop_last();
        assert forall|i: int| 0 <= i < d.len() implies d[i] != '/' by {
            assert(d[i] == k[i]);
        }
        lemma_split_plain(d);
        assert(k.last() == k[k.len() - 1]);
        assert(d.push(k.last()) =~= k);
        assert(seq![d].update(0, d.push(k.last())) =~= seq![k]);
    } else {
        assert(k =~= Seq::<char>::empty());
    }
}

proof fn lemma_replace_absent(t: Seq<char>, a: char, b: char, r: char)
    requires
        forall|i: int| 0 <= i < t.len() ==> t[i] != a,
    ensures
        replace_pair(t, a, b, r) == t,
    decreases t.len(),
{
    if t.len() >= 2 {
        let rest = t.skip(1);
        assert forall|i: int| 0 <= i < rest.len() implies rest[i] != a by {
            assert(rest[i] == t[i + 1]);
        }
        lemma_replace_absent(rest, a, b, r);
        assert(seq![t[0]] + rest =~= t);
    }
}

/// Law: a one-token pointer `/k`, where `k` holds neither `/` nor `~`,
/// selects the member `k` of an object or the element that `k` names in an
/// array, exactly as one pointer step does.
pub proof fn lemma_single_token_pointer(v: JsonView, k: Seq<char>)
    requires
        forall|i: int| 0 <= i < k.len() ==> k[i] != '/' && k[i] != '~',
    ensures
        pointer_target(v, seq!['/'] + k) == pointer_step(v, k),
{
    let p = seq!['/'] + k;
    assert(p.skip(1) =~= k);
    lemma_split_plain(k);
    lemma_replace_absent(k, '~', '1', '/');
    lemma_replace_absent(k, '~', '0', '~');
    assert(unescape(k) == k);
    let toks = split_slash(p.skip(1));
    assert(toks.drop_last() =~= Seq::<Seq<char>>::empty());
    assert(toks.last() == k);
    assert(pointer_walk(v, toks.drop_last()) == Some(v));
    assert(pointer_walk(v, toks) == pointer_step(v, unescape(k)));
    assert(p[0] == '/');
}

proof fn lemma_digit_char(d: nat)
    requires
        d < 10,
    ensures
        '0' <= digit_char(d as u8) <= '9',
        (digit_char(d as u8) as int) - ('0' as int) == d,
        digit_char(d as u8) == '0' <==> d == 0,
{
    let x: u8 = (d + 48) as u8;
    assert(x == d + 48);
    assert((x as char) as int == x as int);
}

proof fn lemma_decimal_token(n: nat)
    ensures
        decimal(n).len() >= 1,
        all_digits(decimal(n)),
        digits_value(decimal(n)) == n,
        decimal(n)[0] == '0' ==> n == 0 && decimal(n).len() == 1,
    decreases n,
{
    lemma_digit_char(n % 10);
    if n < 10 {
        let s = decimal(n);
        assert(s == seq![digit_char((n % 10) as u8)]);
        assert(s.drop_last() =~= Seq::<char>::empty());
        assert(digits_value(s.drop_last()) == 0);
        assert(s.last() == digit_char((n % 10) as u8));
        assert(n % 10 == n);
        assert(digits_value(s) == digits_value(s.drop_last()) * 10 + ((s.last() as int) - ('0' as int)));
    } else {
        lemma_decimal_token(n / 10);
        let t = decimal(n / 10);
        let s = decimal(n);
        assert(s == t.push(digit_char((n % 10) as u8)));
        assert(s.drop_last() =~= t);
        assert(s[0] == t[0]);
        assert forall|i: int| 0 <= i < s.len() implies '0' <= #[trigger] s[i] && s[i] <= '9' by {
            if i < t.len() {
                assert(s[i] == t[i]);
            }
        }
        assert(s.last() == digit_char((n % 10) as u8));
        assert(digits_value(s) == digits_value(t) * 10 + ((s.last() as int) - ('0' as int)));
        assert(n == (n / 10) * 10 + n % 10);
    }
}

/// Law: an array token written as the decimal digits of an index, as
/// `u64::to_string` writes it, names exactly that index, and selects the
/// array element at that index when there is one.
pub proof fn lemma_decimal_tokens_name_their_index(n: nat, items: Seq<JsonView>)
    requires
        n <= usize::MAX,
    ensures
        token_index(decimal(n)) == Some(n as int),
        n < items.len() ==> pointer_step(JsonView::Array(items), decimal(n)) == Some(items[n as int]),
        n >= items.len() ==> pointer_step(JsonView::Array(items), decimal(n)) is None,
        n < items.len() ==> pointer_target(JsonView::Array(items), seq!['/'] + decimal(n)) == Some(items[n as int]),
{
    lemma_decimal_token(n);
    lemma_single_token_pointer(JsonView::Array(items), decimal(n));
}

/// One step of a pointer: an object's member or an array's element.
pub open spec fn pointer_step(v: JsonView, token: Seq<char>) -> Option<JsonView> {
    match v {
        JsonView::Object(e) => view_lookup(e, token),
        JsonView::Array(a) => match token_index(token) {
            Some(i) => if i < a.len() { Some(a[i]) } else { None },
            None => None,
        },
        _ => None,
    }
}

/// Walks the tokens in order.
pub open spec fn pointer_walk(v: JsonView, tokens: Seq<Seq<char>>) -> Option<JsonView>
    decreases tokens.len(),
{
    if tokens.len() == 0 {
        Some(v)
    } else {
        match pointer_walk(v, tokens.drop_last()) {
            Some(w) => pointer_step(w, unescape(tokens.last())),
            None => None,
        }
    }
}

/// The value a JSON Pointer (RFC 6901) selects, as `serde_json::Value::pointer`
/// resolves it: the empty pointer selects the whole value, any other must
/// start with `/`.
pub open spec fn pointer_target(v: JsonView, p: Seq<char>) -> Option<JsonView> {
    if p.len() == 0 {
        Some(v)
    } else if p[0] != '/' {
        None
    } else {
        pointer_walk(v, split_slash(p.skip(1)))
    }
}

proof fn lemma_digits_grow(t: Seq<char>, k: int)
    requires
        0 <= k <= t.len(),
        all_digits(t),
    ensures
        digits_value(t.take(k)) <= digits_value(t),
        digits_value(t.take(k)) >= 0,
    decreases t.len() - k,
{
    if k < t.len() {
        lemma_digits_grow(t, k + 1);
        assert(t.take(k + 1).drop_last() =~= t.take(k));
        assert(t.take(k + 1).last() == t[k]);
    } else {
        assert(t.take(k) =~= t);
    }
    lemma_digits_nonneg(t.take(k));
}

proof fn lemma_digits_nonneg(t: Seq<char>)
    requires
        all_digits(t),
    ensures
        digits_value(t) >= 0,
    decreases t.len(),
{
    if t.len() > 0 {
        assert(all_digits(t.drop_last())) by {
            assert forall|i: int| 0 <= i < t.drop_last().len() implies '0' <= #[trigger] t.drop_last()[i] && t.drop_last()[i] <= '9' by {
                assert(t.drop_last()[i] == t[i]);
            }
        }
        lemma_digits_nonneg(t.drop_last());
        assert('0' <= t[t.len() - 1]);
    }
}

/// Parses a token as an array index the way serde_json does.
fn parse_index(t: &Vec<char>) -> (r: Option<usize>)
    ensures
        match r {
            Some(i) => token_index(t@) == Some(i as int),
            None => token_index(t@) is None,
        },
{
    let n = t.len();
    if n == 0 || (t[0] == '0' && n != 1) {
        return None;
    }
    let mut value: usize = 0;
    let mut k: usize = 0;
    while k < n
        invariant
            n == t@.len(),
            k <= n,
            forall|j: int| 0 <= j < k ==> '0' <= #[trigger] t@[j] && t@[j] <= '9',
            value as int == digits_value(t@.take(k as int)),
        decreases n - k,
    {
        let c = t[k];
        if !('0' <= c && c <= '9') {
            return None;
        }
        let d = (c as u32 - '0' as u32) as usize;
        assert(t@.take(k + 1).drop_last() =~= t@.take(k as int));
        assert(t@.take(k + 1).last() == c);
        let next = match value.checked_mul(10) {
            Some(m) => m.checked_add(d),
            None => None,
        };
        match next {
            Some(v2) => { value = v2; },
            None => {
                proof {
                    if all_digits(t@) {
                        lemma_digits_grow(t@, k + 1);
                    }
                }
                return None;
            },
        }
        k += 1;
    }
    assert(t@.take(n as int) =~= t@);
    Some(value)
}

/// Replaces every pair `a b`, scanned from the left, by `r`.
fn replace_pair_in(s: &Vec<char>, a: char, b: char, r: char) -> (out: Vec<char>)
    ensures
        out@ == replace_pair(s@, a, b, r),
{
    let mut out: Vec<char> = Vec::new();
    let mut i: usize = 0;
    let n = s.len();
    assert(s@.skip(0) =~= s@);
    while i < n
        invariant
            n == s@.len(),
            i <= n,
            out@ + replace_pair(s@.skip(i as int), a, b, r) == replace_pair(s@, a, b, r),
        decreases n - i,
    {
        let ghost rest = s@.skip(i as int);
        if i + 1 < n && s[i] == a && s[i + 1] == b {
            assert(rest[0] == a && rest[1] == b);
            assert(rest.skip(2) =~= s@.skip(i + 2));
            out.push(r);
            assert(out@ + replace_pair(s@.skip(i + 2), a, b, r) =~= out@.drop_last() + (seq![r] + replace_pair(rest.skip(2), a, b, r)));
            i += 2;
        } else if i + 1 < n {
            assert(rest[0] == s@[i as int]);
            assert(rest.skip(1) =~= s@.skip(i + 1));
            out.push(s[i]);
            assert(out@ + replace_pair(s@.skip(i + 1), a, b, r) =~= out@.drop_last() + (seq![s@[i as int]] + replace_pair(rest.skip(1), a, b, r)));
            i += 1;
        } else {
            assert(rest.len() == 1);
            assert(replace_pair(rest, a, b, r) == rest);
            assert(rest =~= seq![s@[i as int]]);
            out.push(s[i]);
            assert(s@.skip(i + 1).len() == 0);
            assert(replace_pair(s@.skip(i + 1), a, b, r) =~= Seq::<char>::empty());
            assert(out@ + replace_pair(s@.skip(i + 1), a, b, r) =~= out@.drop_last() + rest);
            i += 1;
        }
    }
    assert(s@.skip(n as int).len() == 0);
    assert(out@ + replace_pair(s@.skip(n as int), a, b, r) =~= out@);
    out
}

/// A pointer token with its escapes undone.
fn unescape_token(t: &Vec<char>) -> (u: Vec<char>)
    ensures
        u@ == unescape(t@),
{
    let once = replace_pair_in(t, '~', '1', '/');
    replace_pair_in(&once, '~', '0', '~')
}

/// Whether `key` spells the characters `t`.
fn key_is(key: &str, t: &Vec<char>) -> (b: bool)
    ensures
        b == (key@ == t@),
{
    let n = key.unicode_len();
    if n != t.len() {
        return false;
    }
    let mut k: usize = 0;
    while k < n
        invariant
            n == key@.len(),
            n == t@.len(),
            k <= n,
            forall|j: int| 0 <= j < k ==> key@[j] == t@[j],
        decreases n - k,
    {
        if key.get_char(k) != t[k] {
            return false;
        }
        k += 1;
    }
    assert(key@ =~= t@);
    true
}

/// Views of object entries.
pub open spec fn entry_views(entries: Seq<(String, JsonValue)>) -> Seq<(Seq<char>, JsonView)> {
    Seq::new(entries.len(), |i: int| (entries[i].0@, jview(entries[i].1)))
}

/// An object value is viewed entry by entry.
pub proof fn lemma_object_view(v: JsonValue)
    requires
        v is Object,
    ensures
        jview(v) == JsonView::Object(entry_views(v->Object_0@)),
{
    assert(jview(v)->Object_0 =~= entry_views(v->Object_0@));
}

/// An array value is viewed element by element.
pub proof fn lemma_array_view(v: JsonValue)
    requires
        v is Array,
    ensures
        jview(v) is Array,
        jview(v)->Array_0.len() == v->Array_0@.len(),
        forall|i: int| 0 <= i < v->Array_0@.len() ==> jview(v)->Array_0[i] == jview(#[trigger] v->Array_0@[i]),
{
}

/// One pointer step from `v`.
fn step<'a>(v: &'a JsonValue, token: &Vec<char>) -> (r: Option<&'a JsonValue>)
    ensures
        match r {
            Some(t) => pointer_step(jview(*v), token@) == Some(jview(*t)),
            None => pointer_step(jview(*v), token@) is None,
        },
{
    match v {
        JsonValue::Object(entries) => {
            proof { lemma_object_view(*v); }
            let ghost ev = entry_views(entries@);
            let mut i: usize = 0;
            assert(ev.skip(0) =~= ev);
            while i < entries.len()
                invariant
                    i <= entries@.len(),
                    ev == entry_views(entries@),
                    jview(*v) == JsonView::Object(ev),
                    view_lookup(ev, token@) == view_lookup(ev.skip(i as int), token@),
                decreases entries@.len() - i,
            {
                assert(ev.skip(i as int)[0] == ev[i as int]);
                assert(ev.skip(i as int).drop_first() =~= ev.skip(i + 1));
                if key_is(entries[i].0.as_str(), token) {
                    return Some(&entries[i].1);
                }
                i += 1;
            }
            None
        },
        JsonValue::Array(list) => {
            proof { lemma_array_view(*v); }
            match parse_index(token) {
                Some(i) => if i < list.len() { Some(&list[i]) } else { None },
                None => None,
            }
        },
        _ => None,
    }
}

/// Resolves a JSON Pointer (RFC 6901) the way `serde_json::Value::pointer`
/// does.
pub fn json_pointer<'a>(v: &'a JsonValue, p: &str) -> (r: Option<&'a JsonValue>)
    ensures
        match r {
            Some(t) => pointer_target(jview(*v), p@) == Some(jview(*t)),
            None => pointer_target(jview(*v), p@) is None,
        },
{
    let n = p.unicode_len();
    if n == 0 {
        return Some(v);
    }
    if p.get_char(0) != '/' {
        return None;
    }
    let ghost body = p@.skip(1);
    let mut cur: &JsonValue = v;
    let mut token: Vec<char> = Vec::new();
    let mut k: usize = 1;
    proof {
        assert(body.take(0) =~= Seq::<char>::empty());
        assert(split_slash(body.take(0)) == seq![Seq::<char>::empty()]);
        assert(split_slash(body.take(0)).drop_last() =~= Seq::<Seq<char>>::empty());
    }
    while k < n
        invariant
            n == p@.len(),
            1 <= k <= n,
            body == p@.skip(1),
            split_slash(body.take(k - 1)).len() >= 1,
            pointer_walk(jview(*v), split_slash(body.take(k - 1)).drop_last()) == Some(jview(*cur)),
            token@ == split_slash(body.take(k - 1)).last(),
        decreases n - k,
    {
        let c = p.get_char(k);
        let ghost q = body.take(k - 1);
        assert(body.take(k as int) =~= q.push(c));
        assert(body.take(k as int).drop_last() =~= q);
        proof { lemma_split_nonempty(q); }
        if c == '/' {
            let u = unescape_token(&token);
            match step(cur, &u) {
                Some(next) => { cur = next; },
                None => {
                    proof {
                        let t2 = split_slash(body.take(k as int));
                        assert(t2 == split_slash(q).push(Seq::empty()));
                        assert(t2.drop_last() =~= split_slash(q));
                        assert(split_slash(q) =~= split_slash(q).drop_last().push(split_slash(q).last()));
                        assert(pointer_walk(jview(*v), split_slash(q)) is None);
                        lemma_walk_none_extends(jview(*v), split_slash(q), body, k as int, n as int);
                    }
                    return None;
                },
            }
            proof {
                let t2 = split_slash(body.take(k as int));
                assert(t2 == split_slash(q).push(Seq::empty()));
                assert(t2.drop_last() =~= split_slash(q));
                assert(split_slash(q) =~= split_slash(q).drop_last().push(split_slash(q).last()));
            }
            token = Vec::new();
            proof {
                let t2 = split_slash(body.take(k as int));
                assert(token@ =~= t2.last());
            }
        } else {
            token.push(c);
            proof {
                let t = split_slash(q);
                let t2 = split_slash(body.take(k as int));
                assert(t2 == t.update(t.len() - 1, t.last().push(c)));
                assert(t2.drop_last() =~= t.drop_last());
                assert(token@ =~= t2.last());
            }
        }
        k += 1;
    }
    assert(body.take(n - 1) =~= body);
    let u = unescape_token(&token);
    proof {
        let t = split_slash(body);
        lemma_split_nonempty(body);
        assert(t =~= t.drop_last().push(t.last()));
    }
    step(cur, &u)
}

/// Once a walk fails, walking more tokens fails too.
proof fn lemma_walk_none_extends(v: JsonView, prefix: Seq<Seq<char>>, body: Seq<char>, k: int, n: int)
    requires
        pointer_walk(v, prefix) is None,
        1 <= k < n,
        body.len() == n - 1,
        prefix == split_slash(body.take(k - 1)),
        body[k - 1] == '/',
    ensures
        pointer_walk(v, split_slash(body)) is None,
{
    lemma_split_prefix(body, k - 1);
    let whole = split_slash(body);
    lemma_walk_prefix_none(v, prefix.len() as int, whole);
}

/// Tokens before a `/` at `j` are a prefix of all tokens.
proof fn lemma_split_prefix(body: Seq<char>, j: int)
    requires
        0 <= j < body.len(),
        body[j] == '/',
    ensures
        split_slash(body).len() > split_slash(body.take(j)).len(),
        split_slash(body).take(split_slash(body.take(j)).len() as int) == split_slash(body.take(j)),
    decreases body.len(),
{
    lemma_split_nonempty(body.take(j));
    if body.len() == j + 1 {
        assert(body.drop_last() =~= body.take(j));
        assert(split_slash(body) == split_slash(body.take(j)).push(Seq::empty()));
        assert(split_slash(body).take(split_slash(body.take(j)).len() as int) =~= split_slash(body.take(j)));
    } else {
        let b2 = body.drop_last();
        assert(b2[j] == '/');
        assert(b2.take(j) =~= body.take(j));
        lemma_split_prefix(b2, j);
        lemma_split_nonempty(b2);
        let t = split_slash(b2);
        let m = split_slash(body.take(j)).len() as int;
        if body.last() == '/' {
            assert(split_slash(body) == t.push(Seq::empty()));
            assert(split_slash(body).take(m) =~= t.take(m));
        } else {
            let t3 = t.update(t.len() - 1, t.last().push(body.last()));
            assert(split_slash(body) == t3);
            assert(t3.take(m) =~= t.take(m));
        }
    }
}

/// A failed walk of the first `m` tokens makes the whole walk fail.
proof fn lemma_walk_prefix_none(v: JsonView, m: int, tokens: Seq<Seq<char>>)
    requires
        0 <= m <= tokens.len(),
        pointer_walk(v, tokens.take(m)) is None,
    ensures
        pointer_walk(v, tokens) is None,
    decreases tokens.len() - m,
{
    if m < tokens.len() {
        assert(tokens.take(m + 1).drop_last() =~= tokens.take(m));
        lemma_walk_prefix_none(v, m + 1, tokens);
    } else {
        assert(tokens.take(m) =~= tokens);
    }
}

} // verus!
