//! Rewriting of component payloads on expansion: input placeholders are
//! replaced by the instance's bindings (with their JSON Pointers composed)
//! and references to inner nodes follow the nodes' expanded IDs.

use vstd::prelude::*;
use vstd::string::*;
use crate::component::ComponentExpansionError;
use crate::json::{
    copy_json, entry_views, json_pointer, jview, lemma_array_view, lemma_object_view, lemma_pointer_joined, pointer_target,
    view_lookup, JsonValue, JsonView,
};
use crate::text::{joined, owned, text_equal};

verus! {

/// The text value of `key` in viewed object entries.
pub open spec fn str_field(entries: Seq<(Seq<char>, JsonView)>, key: Seq<char>) -> Option<Seq<char>> {
    match view_lookup(entries, key) {
        Some(JsonView::String(s)) => Some(s),
        _ => None,
    }
}

/// The object value of `key` in viewed object entries.
pub open spec fn obj_field(entries: Seq<(Seq<char>, JsonView)>, key: Seq<char>) -> Option<Seq<(Seq<char>, JsonView)>> {
    match view_lookup(entries, key) {
        Some(JsonView::Object(e)) => Some(e),
        _ => None,
    }
}

/// Entries with the first entry of `key` set to `v`, or `(key, v)` appended.
pub open spec fn set_field(entries: Seq<(Seq<char>, JsonView)>, key: Seq<char>, v: JsonView) -> Seq<(Seq<char>, JsonView)>
    decreases entries.len(),
{
    if entries.len() == 0 {
        seq![(key, v)]
    } else if entries[0].0 == key {
        entries.update(0, (key, v))
    } else {
        seq![entries[0]] + set_field(entries.drop_first(), key, v)
    }
}

proof fn lemma_set_field_read(entries: Seq<(Seq<char>, JsonView)>, key: Seq<char>, v: JsonView)
    ensures
        view_lookup(set_field(entries, key, v), key) == Some(v),
    decreases entries.len(),
{
    if entries.len() > 0 && entries[0].0 != key {
        lemma_set_field_read(entries.drop_first(), key, v);
        let s = set_field(entries, key, v);
        assert(s.drop_first() =~= set_field(entries.drop_first(), key, v));
    }
}

/// Law: composing a pointer that starts with `/` onto a reference whose own
/// pointer is empty or starts with `/` gives a reference whose pointer
/// begins with the reference's own pointer and ends with the composed one,
/// so on every value it selects what the composed pointer selects inside
/// what the reference selected before.
pub proof fn lemma_composed_reference_selects_in_turn(binding: JsonView, pointer: Seq<char>, root: JsonView)
    requires
        binding matches JsonView::Object(e) && str_field(e, "type"@) == Some("ref"@)
            && (str_field(e, "pointer"@) matches Some(p) ==> p.len() == 0 || p[0] == '/'),
        pointer.len() > 0 && pointer[0] == '/',
    ensures
        binding matches JsonView::Object(e) && ({
            let parent = match str_field(e, "pointer"@) { Some(p) => p, None => Seq::<char>::empty() };
            compose_spec(binding, pointer) matches Ok(JsonView::Object(e2))
                && str_field(e2, "pointer"@) matches Some(composed)
                && composed.len() == parent.len() + pointer.len()
                && composed.take(parent.len() as int) == parent
                && composed.skip(parent.len() as int) == pointer
                && pointer_target(root, composed) == match pointer_target(root, parent) {
                    Some(w) => pointer_target(w, pointer),
                    None => None,
                }
        }),
{
    if let JsonView::Object(e) = binding {
        let parent = match str_field(e, "pointer"@) { Some(p) => p, None => Seq::<char>::empty() };
        lemma_set_field_read(e, "pointer"@, JsonView::String(parent + pointer));
        lemma_pointer_joined(root, parent, pointer);
        assert((parent + pointer).take(parent.len() as int) =~= parent);
        assert((parent + pointer).skip(parent.len() as int) =~= pointer);
    }
}

/// Texts of (from, to) ID pairs.
pub open spec fn pairs_view(map: Seq<(String, String)>) -> Seq<(Seq<char>, Seq<char>)> {
    Seq::new(map.len(), |i: int| (map[i].0@, map[i].1@))
}

/// The expanded ID `map` gives `id`; the latest mapping of an ID wins.
pub open spec fn id_lookup(map: Seq<(Seq<char>, Seq<char>)>, id: Seq<char>) -> Option<Seq<char>>
    decreases map.len(),
{
    if map.len() == 0 {
        None
    } else if map.last().0 == id {
        Some(map.last().1)
    } else {
        id_lookup(map.drop_last(), id)
    }
}

/// A binding with a JSON Pointer composed onto it: a reference gets the
/// pointer appended to its own, a literal is replaced by the part the
/// pointer selects, and an expression cannot take a pointer.
pub open spec fn compose_spec(binding: JsonView, pointer: Seq<char>) -> Result<JsonView, Seq<char>> {
    if pointer.len() == 0 {
        Ok(binding)
    } else {
        match binding {
            JsonView::Object(e) => if str_field(e, "type"@) == Some("ref"@) {
                let parent = match str_field(e, "pointer"@) { Some(p) => p, None => Seq::empty() };
                Ok(JsonView::Object(set_field(e, "pointer"@, JsonView::String(parent + pointer))))
            } else if str_field(e, "type"@) == Some("literal"@) {
                let value = match view_lookup(e, "value"@) { Some(v) => v, None => JsonView::Null };
                match pointer_target(value, pointer) {
                    Some(t) => Ok(JsonView::Object(set_field(e, "value"@, t))),
                    None => Err("组件输入字面量不存在路径 '"@ + pointer + "'"@),
                }
            } else {
                Err("组件输入的表达式绑定不能继续附加 JSON Pointer"@)
            },
            _ => Err("组件输入的表达式绑定不能继续附加 JSON Pointer"@),
        }
    }
}

/// What replaces an object when it is a reference to a component input:
/// `None` when it is not one, else the composed binding or the failure.
pub open spec fn replacement_spec(entries: Seq<(Seq<char>, JsonView)>, inputs: Seq<(Seq<char>, JsonView)>)
    -> Result<Option<JsonView>, Seq<char>> {
    if str_field(entries, "type"@) != Some("ref"@) {
        Ok(None)
    } else {
        match obj_field(entries, "source"@) {
            None => Ok(None),
            Some(source) => if str_field(source, "type"@) != Some("workflow_input"@) {
                Ok(None)
            } else {
                match str_field(source, "key"@) {
                    None => Err("组件输入引用缺少 key"@),
                    Some(key) => match view_lookup(inputs, key) {
                        None => Err("组件输入 '"@ + key + "' 没有实例绑定"@),
                        Some(binding) => {
                            let pointer = match str_field(entries, "pointer"@) { Some(p) => p, None => Seq::empty() };
                            match compose_spec(binding, pointer) {
                                Ok(r) => Ok(Some(r)),
                                Err(m) => Err(m),
                            }
                        },
                    },
                }
            },
        }
    }
}

/// Index of the first entry with `key`, or the length when there is none.
pub open spec fn first_key(entries: Seq<(Seq<char>, JsonView)>, key: Seq<char>) -> int
    decreases entries.len(),
{
    if entries.len() == 0 {
        0
    } else if entries[0].0 == key {
        0
    } else {
        1 + first_key(entries.drop_first(), key)
    }
}

/// The entry at `i` after following expanded node IDs: the `node_id` of a
/// `node` reference and any `producer_node_id` take their mapped IDs.
pub open spec fn follow_id(entries: Seq<(Seq<char>, JsonView)>, i: int, map: Seq<(Seq<char>, Seq<char>)>) -> Option<JsonView> {
    let (k, v) = entries[i];
    let key_ok = (k == "node_id"@ && str_field(entries, "type"@) == Some("node"@)) || k == "producer_node_id"@;
    if key_ok && i == first_key(entries, k) {
        match v {
            JsonView::String(s) => match id_lookup(map, s) {
                Some(t) => Some(JsonView::String(t)),
                None => None,
            },
            _ => None,
        }
    } else {
        None
    }
}

/// The rewrite of a value: arrays element by element, objects replaced
/// when they reference a component input (the replacement is rewritten
/// without inputs) and otherwise entry by entry; the first failure wins.
pub open spec fn rewrite_spec(v: JsonView, inputs: Seq<(Seq<char>, JsonView)>, map: Seq<(Seq<char>, Seq<char>)>) -> Result<JsonView, Seq<char>>
    decreases inputs.len(), v, 0int,
{
    match v {
        JsonView::Array(items) => match rewrite_items(items, items.len() as int, inputs, map) {
            Ok(s) => Ok(JsonView::Array(s)),
            Err(m) => Err(m),
        },
        JsonView::Object(entries) => match replacement_spec(entries, inputs) {
            Err(m) => Err(m),
            Ok(Some(r)) => if inputs.len() > 0 { rewrite_spec(r, Seq::empty(), map) } else { Err(Seq::empty()) },
            Ok(None) => match rewrite_entries(entries, entries.len() as int, inputs, map) {
                Ok(s) => Ok(JsonView::Object(s)),
                Err(m) => Err(m),
            },
        },
        other => Ok(other),
    }
}

/// The rewrite of the first `n` items.
pub open spec fn rewrite_items(items: Seq<JsonView>, n: int, inputs: Seq<(Seq<char>, JsonView)>, map: Seq<(Seq<char>, Seq<char>)>)
    -> Result<Seq<JsonView>, Seq<char>>
    decreases inputs.len(), items, n,
{
    if n <= 0 || n > items.len() {
        Ok(Seq::empty())
    } else {
        match rewrite_items(items, n - 1, inputs, map) {
            Err(m) => Err(m),
            Ok(prefix) => match rewrite_spec(items[n - 1], inputs, map) {
                Ok(x) => Ok(prefix.push(x)),
                Err(m) => Err(m),
            },
        }
    }
}

/// The rewrite of the first `n` entries of an object that is no input
/// reference.
pub open spec fn rewrite_entries(entries: Seq<(Seq<char>, JsonView)>, n: int, inputs: Seq<(Seq<char>, JsonView)>,
    map: Seq<(Seq<char>, Seq<char>)>) -> Result<Seq<(Seq<char>, JsonView)>, Seq<char>>
    decreases inputs.len(), entries, n,
{
    if n <= 0 || n > entries.len() {
        Ok(Seq::empty())
    } else {
        match rewrite_entries(entries, n - 1, inputs, map) {
            Err(m) => Err(m),
            Ok(prefix) => match follow_id(entries, n - 1, map) {
                Some(t) => Ok(prefix.push((entries[n - 1].0, t))),
                None => match rewrite_spec(entries[n - 1].1, inputs, map) {
                    Ok(x) => Ok(prefix.push((entries[n - 1].0, x))),
                    Err(m) => Err(m),
                },
            },
        }
    }
}

/// `e` is an unlocated rewrite failure with exactly `m`.
pub open spec fn rewrite_error(e: ComponentExpansionError, m: Seq<char>) -> bool {
    e.node_id is None && e.message@ == m
}

/// An unlocated rewrite failure.
fn failure(message: String) -> (e: ComponentExpansionError)
    ensures
        rewrite_error(e, message@),
{
    ComponentExpansionError { node_id: None, message }
}

/// Index of the first entry with `key`.
pub fn find_field(entries: &Vec<(String, JsonValue)>, key: &str) -> (r: Option<usize>)
    ensures
        match r {
            Some(i) => i < entries@.len() && entries@[i as int].0@ == key@
                && view_lookup(entry_views(entries@), key@) == Some(jview(entries@[i as int].1))
                && first_key(entry_views(entries@), key@) == i,
            None => view_lookup(entry_views(entries@), key@) is None
                && first_key(entry_views(entries@), key@) == entries@.len(),
        },
{
    let ghost ev = entry_views(entries@);
    let mut i: usize = 0;
    assert(ev.skip(0) =~= ev);
    while i < entries.len()
        invariant
            i <= entries@.len(),
            ev == entry_views(entries@),
            view_lookup(ev, key@) == view_lookup(ev.skip(i as int), key@),
            first_key(ev, key@) == i + first_key(ev.skip(i as int), key@),
        decreases entries@.len() - i,
    {
        assert(ev.skip(i as int)[0] == ev[i as int]);
        assert(ev.skip(i as int).drop_first() =~= ev.skip(i + 1));
        if text_equal(entries[i].0.as_str(), key) {
            return Some(i);
        }
        i += 1;
    }
    assert(ev.skip(i as int).len() == 0);
    None
}

/// The text value of `key`, if it is a string.
pub fn field_text<'a>(entries: &'a Vec<(String, JsonValue)>, key: &str) -> (r: Option<&'a String>)
    ensures
        match r {
            Some(t) => str_field(entry_views(entries@), key@) == Some(t@),
            None => str_field(entry_views(entries@), key@) is None,
        },
{
    match find_field(entries, key) {
        Some(i) => match &entries[i].1 {
            JsonValue::String(t) => Some(t),
            _ => None,
        },
        None => None,
    }
}

/// Whether the text value of `key` is exactly `expected`.
fn field_is(entries: &Vec<(String, JsonValue)>, key: &str, expected: &str) -> (b: bool)
    ensures
        b == (str_field(entry_views(entries@), key@) == Some(expected@)),
{
    match field_text(entries, key) {
        Some(t) => text_equal(t.as_str(), expected),
        None => false,
    }
}

/// Entries with the first entry of `key` set to `v`, or appended.
fn set_entry(entries: &Vec<(String, JsonValue)>, key: &str, v: JsonValue) -> (r: Vec<(String, JsonValue)>)
    ensures
        entry_views(r@) == set_field(entry_views(entries@), key@, jview(v)),
{
    let ghost ev = entry_views(entries@);
    let ghost target = set_field(ev, key@, jview(v));
    let mut out: Vec<(String, JsonValue)> = Vec::new();
    let mut i: usize = 0;
    let mut value = Some(v);
    let ghost vv = jview(value->0);
    assert(ev.skip(0) =~= ev);
    while i < entries.len()
        invariant
            i <= entries@.len(),
            ev == entry_views(entries@),
            value is Some ==> jview(value->0) == vv,
            target == set_field(ev, key@, vv),
            value is Some ==> entry_views(out@) + set_field(ev.skip(i as int), key@, vv) == target,
            value is None ==> entry_views(out@) + ev.skip(i as int) == target,
        decreases entries@.len() - i,
    {
        assert(ev.skip(i as int)[0] == ev[i as int]);
        assert(ev.skip(i as int).drop_first() =~= ev.skip(i + 1));
        let ghost before = out@;
        if value.is_some() && text_equal(entries[i].0.as_str(), key) {
            let x = value.take().unwrap();
            out.push((entries[i].0.clone(), x));
            proof {
                assert(entry_views(out@) =~= entry_views(before).push((key@, vv)));
                assert(set_field(ev.skip(i as int), key@, vv) =~= seq![(key@, vv)] + ev.skip(i + 1));
                assert(entry_views(out@) + ev.skip(i + 1) =~= entry_views(before) + set_field(ev.skip(i as int), key@, vv));
            }
        } else {
            let copy = copy_json(&entries[i].1);
            out.push((entries[i].0.clone(), copy));
            proof {
                assert(entry_views(out@) =~= entry_views(before).push(ev[i as int]));
                if value is Some {
                    assert(set_field(ev.skip(i as int), key@, vv) =~= seq![ev[i as int]] + set_field(ev.skip(i + 1), key@, vv));
                    assert(entry_views(out@) + set_field(ev.skip(i + 1), key@, vv)
                        =~= entry_views(before) + set_field(ev.skip(i as int), key@, vv));
                } else {
                    assert(entry_views(out@) + ev.skip(i + 1) =~= entry_views(before) + ev.skip(i as int));
                }
            }
        }
        i += 1;
    }
    match value {
        Some(x) => {
            let ghost before = out@;
            out.push((owned(key), x));
            proof {
                assert(ev.skip(i as int).len() == 0);
                assert(set_field(ev.skip(i as int), key@, vv) == seq![(key@, vv)]);
                assert(entry_views(out@) =~= entry_views(before) + seq![(key@, vv)]);
            }
        },
        None => {
            assert(entry_views(out@) + ev.skip(i as int) =~= entry_views(out@));
        },
    }
    out
}

/// Composes a JSON Pointer onto a component input binding.
pub fn compose_pointer(binding: &JsonValue, pointer: &str) -> (r: Result<JsonValue, ComponentExpansionError>)
    ensures
        match compose_spec(jview(*binding), pointer@) {
            Ok(v) => r matches Ok(x) && jview(x) == v,
            Err(m) => r matches Err(e) && rewrite_error(e, m),
        },
{
    if pointer.unicode_len() == 0 {
        return Ok(copy_json(binding));
    }
    let expression_message = "组件输入的表达式绑定不能继续附加 JSON Pointer";
    match binding {
        JsonValue::Object(entries) => {
            proof { lemma_object_view(*binding); }
            if field_is(entries, "type", "ref") {
                let parent = match field_text(entries, "pointer") {
                    Some(p) => p.clone(),
                    None => String::new(),
                };
                let joined_pointer = joined(parent.as_str(), pointer);
                let res = JsonValue::Object(set_entry(entries, "pointer", JsonValue::String(joined_pointer)));
                proof { lemma_object_view(res); }
                Ok(res)
            } else if field_is(entries, "type", "literal") {
                let null = JsonValue::Null;
                let value = match find_field(entries, "value") {
                    Some(i) => &entries[i].1,
                    None => &null,
                };
                match json_pointer(value, pointer) {
                    Some(t) => {
                        let res = JsonValue::Object(set_entry(entries, "value", copy_json(t)));
                        proof { lemma_object_view(res); }
                        Ok(res)
                    },
                    None => {
                        let m = joined(joined("组件输入字面量不存在路径 '", pointer).as_str(), "'");
                        Err(failure(m))
                    },
                }
            } else {
                Err(failure(owned(expression_message)))
            }
        },
        _ => Err(failure(owned(expression_message))),
    }
}

/// What replaces an object that references a component input.
pub fn replace_input_reference(entries: &Vec<(String, JsonValue)>, inputs: &Vec<(String, JsonValue)>)
    -> (r: Result<Option<JsonValue>, ComponentExpansionError>)
    ensures
        match replacement_spec(entry_views(entries@), entry_views(inputs@)) {
            Ok(None) => r matches Ok(None),
            Ok(Some(v)) => r matches Ok(Some(x)) && jview(x) == v,
            Err(m) => r matches Err(e) && rewrite_error(e, m),
        },
{
    if !field_is(entries, "type", "ref") {
        return Ok(None);
    }
    let source = match find_field(entries, "source") {
        Some(i) => match &entries[i].1 {
            JsonValue::Object(source) => {
                proof { lemma_object_view(entries@[i as int].1); }
                source
            },
            _ => { return Ok(None); },
        },
        None => { return Ok(None); },
    };
    if !field_is(source, "type", "workflow_input") {
        return Ok(None);
    }
    let key = match field_text(source, "key") {
        Some(k) => k,
        None => { return Err(failure(owned("组件输入引用缺少 key"))); },
    };
    let binding = match find_field(inputs, key.as_str()) {
        Some(i) => &inputs[i].1,
        None => {
            let m = joined(joined("组件输入 '", key.as_str()).as_str(), "' 没有实例绑定");
            return Err(failure(m));
        },
    };
    let pointer = match field_text(entries, "pointer") {
        Some(p) => p.clone(),
        None => String::new(),
    };
    match compose_pointer(binding, pointer.as_str()) {
        Ok(v) => Ok(Some(v)),
        Err(e) => Err(e),
    }
}

/// The expanded ID of `id`: the latest mapping wins.
pub fn lookup_id<'a>(map: &'a Vec<(String, String)>, id: &str) -> (r: Option<&'a String>)
    ensures
        match r {
            Some(t) => id_lookup(pairs_view(map@), id@) == Some(t@),
            None => id_lookup(pairs_view(map@), id@) is None,
        },
{
    let mut i = map.len();
    let ghost pv = pairs_view(map@);
    assert(pv.take(i as int) =~= pv);
    while i > 0
        invariant
            i <= map@.len(),
            pv == pairs_view(map@),
            id_lookup(pv, id@) == id_lookup(pv.take(i as int), id@),
        decreases i,
    {
        let ghost t = pv.take(i as int);
        assert(t.last() == pv[i - 1]);
        assert(t.drop_last() =~= pv.take(i - 1));
        i -= 1;
        if text_equal(map[i].0.as_str(), id) {
            return Some(&map[i].1);
        }
    }
    assert(pv.take(0).len() == 0);
    None
}

proof fn lemma_items_err_stays(items: Seq<JsonView>, n: int, inputs: Seq<(Seq<char>, JsonView)>, map: Seq<(Seq<char>, Seq<char>)>)
    requires
        0 <= n <= items.len(),
        rewrite_items(items, n, inputs, map) is Err,
    ensures
        rewrite_items(items, items.len() as int, inputs, map) == rewrite_items(items, n, inputs, map),
    decreases items.len() - n,
{
    if n < items.len() {
        assert(rewrite_items(items, n + 1, inputs, map) == rewrite_items(items, n, inputs, map));
        lemma_items_err_stays(items, n + 1, inputs, map);
    }
}

proof fn lemma_entries_err_stays(entries: Seq<(Seq<char>, JsonView)>, n: int, inputs: Seq<(Seq<char>, JsonView)>, map: Seq<(Seq<char>, Seq<char>)>)
    requires
        0 <= n <= entries.len(),
        rewrite_entries(entries, n, inputs, map) is Err,
    ensures
        rewrite_entries(entries, entries.len() as int, inputs, map) == rewrite_entries(entries, n, inputs, map),
    decreases entries.len() - n,
{
    if n < entries.len() {
        assert(rewrite_entries(entries, n + 1, inputs, map) == rewrite_entries(entries, n, inputs, map));
        lemma_entries_err_stays(entries, n + 1, inputs, map);
    }
}

/// Views of a list of values.
pub open spec fn item_views(items: Seq<JsonValue>) -> Seq<JsonView> {
    Seq::new(items.len(), |i: int| jview(items[i]))
}

/// The entry at `i` after following its expanded ID, when it is one.
fn followed_entry(entries: &Vec<(String, JsonValue)>, i: usize, map: &Vec<(String, String)>) -> (r: Option<JsonValue>)
    requires
        i < entries@.len(),
    ensures
        match follow_id(entry_views(entries@), i as int, pairs_view(map@)) {
            Some(t) => r matches Some(x) && jview(x) == t,
            None => r is None,
        },
{
    let key = entries[i].0.as_str();
    let key_ok = (text_equal(key, "node_id") && field_is(entries, "type", "node")) || text_equal(key, "producer_node_id");
    if !key_ok {
        return None;
    }
    match find_field(entries, key) {
        Some(j) => {
            if j != i {
                return None;
            }
        },
        None => { return None; },
    }
    match &entries[i].1 {
        JsonValue::String(s) => match lookup_id(map, s.as_str()) {
            Some(t) => Some(JsonValue::String(t.clone())),
            None => None,
        },
        _ => None,
    }
}

/// Rewrites a component payload: input placeholders are replaced by the
/// instance's bindings and inner node references follow `map`.
pub fn rewrite_json(v: &JsonValue, inputs: &Vec<(String, JsonValue)>, map: &Vec<(String, String)>)
    -> (r: Result<JsonValue, ComponentExpansionError>)
    ensures
        match rewrite_spec(jview(*v), entry_views(inputs@), pairs_view(map@)) {
            Ok(x) => r matches Ok(y) && jview(y) == x,
            Err(m) => r matches Err(e) && rewrite_error(e, m),
        },
    decreases inputs@.len(), v,
{
    let ghost iv = entry_views(inputs@);
    match v {
        JsonValue::Array(items) => {
            proof { lemma_array_view(*v); }
            let ghost views = jview(*v)->Array_0;
            let mut out: Vec<JsonValue> = Vec::new();
            let mut i: usize = 0;
            assert(item_views(out@) =~= Seq::<JsonView>::empty());
            while i < items.len()
                invariant
                    *v == JsonValue::Array(*items),
                    iv == entry_views(inputs@),
                    views == jview(*v)->Array_0,
                    views.len() == items@.len(),
                    forall|k: int| 0 <= k < items@.len() ==> views[k] == jview(#[trigger] items@[k]),
                    i <= items@.len(),
                    rewrite_items(views, i as int, iv, pairs_view(map@)) == Ok::<Seq<JsonView>, Seq<char>>(item_views(out@)),
                decreases items@.len() - i,
            {
                proof {
                    vstd::std_specs::vec::axiom_vec_index_decreases(*items, i as int);
                    assert(decreases_to!(*v => (*v)->Array_0));
                    assert((*v)->Array_0 == *items);
                }
                match rewrite_json(&items[i], inputs, map) {
                    Ok(x) => {
                        let ghost before = out@;
                        out.push(x);
                        assert(item_views(out@) =~= item_views(before).push(jview(x)));
                    },
                    Err(e) => {
                        proof { lemma_items_err_stays(views, i + 1, iv, pairs_view(map@)); }
                        return Err(e);
                    },
                }
                i += 1;
            }
            let res = JsonValue::Array(out);
            proof {
                lemma_array_view(res);
                assert(jview(res)->Array_0 =~= item_views(out@));
            }
            Ok(res)
        },
        JsonValue::Object(entries) => {
            proof { lemma_object_view(*v); }
            let ghost ev = entry_views(entries@);
            match replace_input_reference(entries, inputs) {
                Err(e) => Err(e),
                Ok(Some(rep)) => {
                    let empty: Vec<(String, JsonValue)> = Vec::new();
                    proof {
                        assert(entry_views(empty@) =~= Seq::<(Seq<char>, JsonView)>::empty());
                        assert(iv.len() > 0);
                    }
                    rewrite_json(&rep, &empty, map)
                },
                Ok(None) => {
                    let mut out: Vec<(String, JsonValue)> = Vec::new();
                    let mut i: usize = 0;
                    assert(entry_views(out@) =~= Seq::<(Seq<char>, JsonView)>::empty());
                    while i < entries.len()
                        invariant
                            *v == JsonValue::Object(*entries),
                            iv == entry_views(inputs@),
                            ev == entry_views(entries@),
                            jview(*v) == JsonView::Object(ev),
                            replacement_spec(ev, iv) == Ok::<Option<JsonView>, Seq<char>>(None),
                            i <= entries@.len(),
                            rewrite_entries(ev, i as int, iv, pairs_view(map@)) == Ok::<Seq<(Seq<char>, JsonView)>, Seq<char>>(entry_views(out@)),
                        decreases entries@.len() - i,
                    {
                        let ghost before = out@;
                        match followed_entry(entries, i, map) {
                            Some(t) => {
                                out.push((entries[i].0.clone(), t));
                                assert(entry_views(out@) =~= entry_views(before).push((ev[i as int].0, jview(t))));
                            },
                            None => {
                                proof {
                                    vstd::std_specs::vec::axiom_vec_index_decreases(*entries, i as int);
                                    assert(decreases_to!(*v => (*v)->Object_0));
                                    assert((*v)->Object_0 == *entries);
                                    assert(decreases_to!(entries@[i as int] => entries@[i as int].1));
                                }
                                match rewrite_json(&entries[i].1, inputs, map) {
                                    Ok(x) => {
                                        out.push((entries[i].0.clone(), x));
                                        assert(entry_views(out@) =~= entry_views(before).push((ev[i as int].0, jview(x))));
                                    },
                                    Err(e) => {
                                        proof { lemma_entries_err_stays(ev, i + 1, iv, pairs_view(map@)); }
                                        return Err(e);
                                    },
                                }
                            },
                        }
                        i += 1;
                    }
                    let res = JsonValue::Object(out);
                    proof {
                        lemma_object_view(res);
                    }
                    Ok(res)
                },
            }
        },
        _ => Ok(copy_json(v)),
    }
}

} // verus!
