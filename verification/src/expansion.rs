//! Expansion of one component instance into its containing workflow: the
//! definition's contract is checked, its root graph is spliced into the
//! instance's scope behind an output proxy, and its child scopes are
//! imported under namespaced IDs, every expanded node keeping its source.

use vstd::prelude::*;
use vstd::string::*;
use crate::component::{
    located_at, validate_component_ports, ComponentDefinition, ComponentExpansionError, ComponentOutput,
    admission_spec, catalogue_wf, check_admission, copy_path, holds_key, def_key, path_lookup, target_spec,
    boundary_target, root_edge_step, rewrite_root_edges, text_result, ComponentRegistry, ComponentSourceMap,
};
use crate::graph::{
    boundary_view, edge_view, edge_views, node_view, node_views, scope_view, BoundaryView, EdgeView, FlowScope, NodeView,
    ScopeBoundary, ScopeParent, ScopeView, WorkflowEdge, WorkflowNode, scopes_view, branch_view,
};
use crate::json::{copy_json, jview, lemma_object_view, JsonValue, JsonView};
use crate::rewrite::{rewrite_json, rewrite_spec};
use crate::json::entry_views;
use crate::text::{joined, compare_text, is_blank, is_blank_text, lemma_text_order_total, owned, text_equal, text_lt, TextOrder};
use crate::component::{
    boundary_spec, collect, edges_result, err_view, has_text, lemma_collect_all, lemma_collect_err_stays,
    lemma_collect_step, mapped, mapped_spec, namespace, namespaced, path_view, ports_spec, records_view, rewrite_boundary,
    source_entry, ComponentSourceFrame, MAX_COMPONENT_DEPTH, attribution,
};
use crate::rewrite::{field_text, find_field, id_lookup, pairs_view, rewrite_error, str_field};
use crate::json::view_lookup;

verus! {

/// A decoded component instance: the locked component and its input
/// bindings (each a value expression as JSON).
#[derive(Debug)]
pub struct ComponentInstance {
    /// Stable component ID.
    pub component_id: u128,
    /// Exact locked version.
    pub component_version: String,
    /// Input bindings, by input name.
    pub inputs: Vec<(String, JsonValue)>,
}

/// Index of the first scope with ID `id`.
pub open spec fn first_scope(scopes: Seq<FlowScope>, id: Seq<char>, i: int) -> bool {
    0 <= i < scopes.len() && scopes[i].id@ == id && forall|j: int| 0 <= j < i ==> (#[trigger] scopes[j]).id@ != id
}

/// Some node before node `n` of scope `s`, in document order, has `id`.
pub open spec fn inner_seen(scopes: Seq<FlowScope>, s: int, n: int, id: Seq<char>) -> bool {
    exists|t: int, m: int| 0 <= t <= s && 0 <= m < scopes[t].nodes@.len() && (t < s || m < n)
        && (#[trigger] scopes[t].nodes@[m]).id@ == id
}

/// Every inner node ID occurs once over all scopes.
pub open spec fn inner_ids_unique(scopes: Seq<FlowScope>) -> bool {
    forall|s: int, n: int| 0 <= s < scopes.len() && 0 <= n < scopes[s].nodes@.len()
        ==> !inner_seen(scopes, s, n, (#[trigger] scopes[s].nodes@[n]).id@)
}

/// The first node of `nodes` with ID `id` has type `type_id`.
pub open spec fn first_node_has_type(nodes: Seq<WorkflowNode>, id: Seq<char>, type_id: Seq<char>) -> bool {
    exists|i: int| 0 <= i < nodes.len() && nodes[i].id@ == id && nodes[i].type_id@ == type_id
        && forall|j: int| 0 <= j < i ==> (#[trigger] nodes[j]).id@ != id
}

/// Names of the declared outputs.
pub open spec fn output_names(outputs: Seq<ComponentOutput>) -> Seq<String> {
    outputs.map_values(|o: ComponentOutput| o.name)
}

/// Names of the bound inputs.
pub open spec fn binding_names(inputs: Seq<(String, JsonValue)>) -> Seq<String> {
    inputs.map_values(|b: (String, JsonValue)| b.0)
}

/// Finds the first scope with ID `id`.
fn find_scope(scopes: &Vec<FlowScope>, id: &str) -> (r: Option<usize>)
    ensures
        match r {
            Some(i) => first_scope(scopes@, id@, i as int),
            None => forall|j: int| 0 <= j < scopes@.len() ==> (#[trigger] scopes@[j]).id@ != id@,
        },
{
    let mut i: usize = 0;
    while i < scopes.len()
        invariant
            i <= scopes@.len(),
            forall|j: int| 0 <= j < i ==> (#[trigger] scopes@[j]).id@ != id@,
        decreases scopes@.len() - i,
    {
        if text_equal(scopes[i].id.as_str(), id) {
            return Some(i);
        }
        i += 1;
    }
    None
}

/// Checks that the first node with ID `id` has type `type_id`.
fn first_node_typed(nodes: &Vec<WorkflowNode>, id: &str, type_id: &str) -> (b: bool)
    ensures
        b == first_node_has_type(nodes@, id@, type_id@),
{
    let mut i: usize = 0;
    while i < nodes.len()
        invariant
            i <= nodes@.len(),
            forall|j: int| 0 <= j < i ==> (#[trigger] nodes@[j]).id@ != id@,
        decreases nodes@.len() - i,
    {
        if text_equal(nodes[i].id.as_str(), id) {
            let b = text_equal(nodes[i].type_id.as_str(), type_id);
            proof {
                if !b && first_node_has_type(nodes@, id@, type_id@) {
                    let k = choose|k: int| 0 <= k < nodes@.len() && nodes@[k].id@ == id@ && nodes@[k].type_id@ == type_id@
                        && forall|j: int| 0 <= j < k ==> (#[trigger] nodes@[j]).id@ != id@;
                    if k < i { assert(nodes@[k].id@ != id@); }
                    if k > i { assert(nodes@[i as int].id@ != id@); }
                }
            }
            return b;
        }
        i += 1;
    }
    false
}

/// Checks that inner node IDs are unique over all scopes.
fn inner_ids_distinct(scopes: &Vec<FlowScope>) -> (b: bool)
    ensures
        b == inner_ids_unique(scopes@),
{
    let mut seen: Vec<String> = Vec::new();
    let mut s: usize = 0;
    while s < scopes.len()
        invariant
            s <= scopes@.len(),
            forall|t: int, n: int| 0 <= t < s && 0 <= n < scopes@[t].nodes@.len()
                ==> !inner_seen(scopes@, t, n, (#[trigger] scopes@[t].nodes@[n]).id@),
            forall|x: Seq<char>| has_text(seen@, x) <==> inner_seen(scopes@, s as int, 0, x),
        decreases scopes@.len() - s,
    {
        let scope = &scopes[s];
        let mut n: usize = 0;
        while n < scope.nodes.len()
            invariant
                s < scopes@.len(),
                *scope == scopes@[s as int],
                n <= scope.nodes@.len(),
                forall|t: int, m: int| 0 <= t < s && 0 <= m < scopes@[t].nodes@.len()
                    ==> !inner_seen(scopes@, t, m, (#[trigger] scopes@[t].nodes@[m]).id@),
                forall|m: int| 0 <= m < n ==> !inner_seen(scopes@, s as int, m, (#[trigger] scopes@[s as int].nodes@[m]).id@),
                forall|x: Seq<char>| has_text(seen@, x) <==> inner_seen(scopes@, s as int, n as int, x),
            decreases scope.nodes@.len() - n,
        {
            let id = &scope.nodes[n].id;
            if crate::component::contains_text(&seen, id.as_str()) {
                assert(inner_seen(scopes@, s as int, n as int, scopes@[s as int].nodes@[n as int].id@));
                return false;
            }
            let ghost before = seen@;
            seen.push(id.clone());
            proof {
                assert forall|x: Seq<char>| has_text(seen@, x) <==> inner_seen(scopes@, s as int, n + 1, x) by {
                    if has_text(seen@, x) {
                        let k = choose|k: int| 0 <= k < seen@.len() && (#[trigger] seen@[k])@ == x;
                        if k < before.len() {
                            assert(before[k] == seen@[k]);
                            assert(has_text(before, x));
                            let (t, m) = choose|t: int, m: int| 0 <= t <= s && 0 <= m < scopes@[t].nodes@.len() && (t < s || m < n)
                                && (#[trigger] scopes@[t].nodes@[m]).id@ == x;
                            assert(0 <= t <= s && 0 <= m < scopes@[t].nodes@.len() && (t < s || m < n + 1) && scopes@[t].nodes@[m].id@ == x);
                        } else {
                            assert(scopes@[s as int].nodes@[n as int].id@ == x);
                        }
                    }
                    if inner_seen(scopes@, s as int, n + 1, x) {
                        let (t, m) = choose|t: int, m: int| 0 <= t <= s && 0 <= m < scopes@[t].nodes@.len() && (t < s || m < n + 1)
                            && (#[trigger] scopes@[t].nodes@[m]).id@ == x;
                        if t < s || m < n {
                            assert(inner_seen(scopes@, s as int, n as int, x));
                            assert(has_text(before, x));
                            let k = choose|k: int| 0 <= k < before.len() && (#[trigger] before[k])@ == x;
                            assert(seen@[k] == before[k]);
                        } else {
                            assert(seen@[before.len() as int]@ == x);
                        }
                    }
                }
            }
            n += 1;
        }
        proof {
            assert forall|x: Seq<char>| inner_seen(scopes@, s as int, scopes@[s as int].nodes@.len() as int, x)
                <==> inner_seen(scopes@, s + 1, 0, x) by {
                if inner_seen(scopes@, s + 1, 0, x) {
                    let (t, m) = choose|t: int, m: int| 0 <= t <= s + 1 && 0 <= m < scopes@[t].nodes@.len() && (t < s + 1 || m < 0)
                        && (#[trigger] scopes@[t].nodes@[m]).id@ == x;
                    assert(t < s + 1);
                    assert(0 <= t <= s && 0 <= m < scopes@[t].nodes@.len()
                        && (t < s || m < scopes@[s as int].nodes@.len()) && scopes@[t].nodes@[m].id@ == x);
                }
                if inner_seen(scopes@, s as int, scopes@[s as int].nodes@.len() as int, x) {
                    let (t, m) = choose|t: int, m: int| 0 <= t <= s && 0 <= m < scopes@[t].nodes@.len()
                        && (t < s || m < scopes@[s as int].nodes@.len()) && (#[trigger] scopes@[t].nodes@[m]).id@ == x;
                    assert(0 <= t <= s + 1 && 0 <= m < scopes@[t].nodes@.len() && (t < s + 1 || m < 0) && scopes@[t].nodes@[m].id@ == x);
                }
            }
        }
        s += 1;
    }
    true
}

/// The root contract of a definition used by an instance, checked in
/// order: format version 2, a non-blank name, an existing root scope with
/// a Component boundary, globally unique inner node IDs, an entry of type
/// `argus.start` and an exit of type `argus.end`, then the ports. Gives the
/// root scope's index and its entry and exit node IDs.
pub open spec fn definition_check(inst: Seq<char>, d: ComponentDefinition, bound: Seq<String>)
    -> Result<(int, Seq<char>, Seq<char>), (Option<Seq<char>>, Seq<char>)> {
    if d.schema_version != 2 {
        Err((Some(inst), "组合步骤的格式版本必须为 2"@))
    } else if is_blank_text(d.name@) {
        Err((Some(inst), "组件名称不能为空"@))
    } else if !exists|i: int| first_scope(d.scopes@, d.root_scope_id@, i) {
        Err((Some(inst), "组件根作用域不存在"@))
    } else {
        let root = choose|i: int| first_scope(d.scopes@, d.root_scope_id@, i);
        match d.scopes@[root].boundary {
            ScopeBoundary::Component { entry_node_id, exit_node_id } => if !inner_ids_unique(d.scopes@) {
                Err((Some(inst), "组件内部节点 ID 必须全局唯一"@))
            } else if !first_node_has_type(d.scopes@[root].nodes@, entry_node_id@, "argus.start"@)
                || !first_node_has_type(d.scopes@[root].nodes@, exit_node_id@, "argus.end"@) {
                Err((Some(inst), "组件入口和出口必须分别引用 argus.start 与 argus.end 边界节点"@))
            } else {
                match ports_spec(inst, d.inputs@, bound, output_names(d.outputs@)) {
                    Ok(()) => Ok((root, entry_node_id@, exit_node_id@)),
                    Err(v) => Err(v),
                }
            },
            _ => Err((Some(inst), "组件根作用域必须使用 Component 边界"@)),
        }
    }
}

/// The first scope with an ID is unique.
proof fn lemma_first_scope_unique(scopes: Seq<FlowScope>, id: Seq<char>, i: int, j: int)
    requires
        first_scope(scopes, id, i),
        first_scope(scopes, id, j),
    ensures
        i == j,
{
    if i < j {
        assert(scopes[i].id@ != id);
    }
    if j < i {
        assert(scopes[j].id@ != id);
    }
}

/// Names of a list of outputs.
fn collect_output_names(outputs: &Vec<ComponentOutput>) -> (r: Vec<String>)
    ensures
        r@ == output_names(outputs@),
{
    let mut out: Vec<String> = Vec::new();
    let mut i: usize = 0;
    while i < outputs.len()
        invariant
            i <= outputs@.len(),
            out@ == output_names(outputs@).take(i as int),
        decreases outputs@.len() - i,
    {
        out.push(outputs[i].name.clone());
        assert(out@ =~= output_names(outputs@).take(i + 1));
        i += 1;
    }
    assert(output_names(outputs@).take(outputs@.len() as int) =~= output_names(outputs@));
    out
}

/// Names of a list of bindings.
fn collect_binding_names(inputs: &Vec<(String, JsonValue)>) -> (r: Vec<String>)
    ensures
        r@ == binding_names(inputs@),
{
    let mut out: Vec<String> = Vec::new();
    let mut i: usize = 0;
    while i < inputs.len()
        invariant
            i <= inputs@.len(),
            out@ == binding_names(inputs@).take(i as int),
        decreases inputs@.len() - i,
    {
        out.push(inputs[i].0.clone());
        assert(out@ =~= binding_names(inputs@).take(i + 1));
        i += 1;
    }
    assert(binding_names(inputs@).take(inputs@.len() as int) =~= binding_names(inputs@));
    out
}

/// Checks a definition's root contract for an instance; returns the root
/// scope's index and its entry and exit node IDs.
pub fn validate_component_definition(instance_node_id: &str, definition: &ComponentDefinition, instance: &ComponentInstance)
    -> (r: Result<(usize, String, String), ComponentExpansionError>)
    ensures
        match definition_check(instance_node_id@, *definition, binding_names(instance.inputs@)) {
            Ok((i, e, x)) => r matches Ok((ri, re, rx)) && ri == i && re@ == e && rx@ == x,
            Err(v) => r matches Err(er) && err_view(er) == v,
        },
{
    let ghost inst = instance_node_id@;
    let ghost bound_names = binding_names(instance.inputs@);
    if definition.schema_version != 2 {
        return Err(ComponentExpansionError::at(instance_node_id, owned("组合步骤的格式版本必须为 2")));
    }
    if is_blank(definition.name.as_str()) {
        return Err(ComponentExpansionError::at(instance_node_id, owned("组件名称不能为空")));
    }
    let root = match find_scope(&definition.scopes, definition.root_scope_id.as_str()) {
        Some(i) => i,
        None => { return Err(ComponentExpansionError::at(instance_node_id, owned("组件根作用域不存在"))); },
    };
    proof {
        let k = choose|k: int| first_scope(definition.scopes@, definition.root_scope_id@, k);
        lemma_first_scope_unique(definition.scopes@, definition.root_scope_id@, k, root as int);
    }
    let (entry, exit) = match &definition.scopes[root].boundary {
        ScopeBoundary::Component { entry_node_id, exit_node_id } => (entry_node_id, exit_node_id),
        _ => {
            return Err(ComponentExpansionError::at(instance_node_id, owned("组件根作用域必须使用 Component 边界")));
        },
    };
    if !inner_ids_distinct(&definition.scopes) {
        return Err(ComponentExpansionError::at(instance_node_id, owned("组件内部节点 ID 必须全局唯一")));
    }
    let nodes = &definition.scopes[root].nodes;
    if !first_node_typed(nodes, entry.as_str(), "argus.start") || !first_node_typed(nodes, exit.as_str(), "argus.end") {
        return Err(ComponentExpansionError::at(instance_node_id,
            owned("组件入口和出口必须分别引用 argus.start 与 argus.end 边界节点")));
    }
    let bound = collect_binding_names(&instance.inputs);
    let outputs = collect_output_names(&definition.outputs);
    match validate_component_ports(instance_node_id, &definition.inputs, &bound, &outputs) {
        Ok(()) => Ok((root, entry.clone(), exit.clone())),
        Err(e) => Err(e),
    }
}

/// One level of a component path: instance node, component ID, version
/// and inner node.
pub type FrameValue = (Seq<char>, u128, Seq<char>, Seq<char>);

/// An expanded node with its component path.
pub type SourceRecord = (Seq<char>, Seq<FrameValue>);

/// An expansion failure: the instance it is located at, if any, and its message.
pub type Failure = (Option<Seq<char>>, Seq<char>);

/// First components of a sequence of pairs.
pub open spec fn firsts<A, B>(s: Seq<(A, B)>) -> Seq<A> {
    s.map_values(|p: (A, B)| p.0)
}

/// Second components of a sequence of pairs.
pub open spec fn seconds<A, B>(s: Seq<(A, B)>) -> Seq<B> {
    s.map_values(|p: (A, B)| p.1)
}

/// Node IDs of a list of nodes.
pub open spec fn node_ids(nodes: Seq<WorkflowNode>) -> Seq<Seq<char>> {
    nodes.map_values(|n: WorkflowNode| n.id@)
}

/// Node IDs of all scopes, scope by scope in document order.
pub open spec fn all_node_ids(scopes: Seq<FlowScope>) -> Seq<Seq<char>>
    decreases scopes.len(),
{
    if scopes.len() == 0 {
        Seq::empty()
    } else {
        all_node_ids(scopes.drop_last()) + node_ids(scopes.last().nodes@)
    }
}

/// Each inner node ID other than the root's entry and exit, with its
/// namespaced expanded ID.
pub open spec fn node_id_pairs(ids: Seq<Seq<char>>, inst: Seq<char>, entry: Seq<char>, exit: Seq<char>)
    -> Seq<(Seq<char>, Seq<char>)>
    decreases ids.len(),
{
    if ids.len() == 0 {
        Seq::empty()
    } else {
        let p = node_id_pairs(ids.drop_last(), inst, entry, exit);
        let x = ids.last();
        if x == entry || x == exit { p } else { p.push((x, namespaced(inst, x))) }
    }
}

/// Each inner scope ID with its namespaced expanded ID.
pub open spec fn scope_id_pairs(scopes: Seq<FlowScope>, inst: Seq<char>) -> Seq<(Seq<char>, Seq<char>)> {
    Seq::new(scopes.len(), |i: int| (scopes[i].id@, namespaced(inst, scopes[i].id@)))
}

/// The expanded IDs of an instance's inner nodes, the root's entry and
/// exit left out.
pub fn build_node_id_map(scopes: &Vec<FlowScope>, instance_node_id: &str, entry: &str, exit: &str)
    -> (r: Vec<(String, String)>)
    ensures
        pairs_view(r@) == node_id_pairs(all_node_ids(scopes@), instance_node_id@, entry@, exit@),
{
    let ghost inst = instance_node_id@;
    let mut out: Vec<(String, String)> = Vec::new();
    let mut s: usize = 0;
    assert(pairs_view(out@) =~= Seq::<(Seq<char>, Seq<char>)>::empty());
    assert(all_node_ids(scopes@.take(0)) =~= Seq::<Seq<char>>::empty());
    while s < scopes.len()
        invariant
            s <= scopes@.len(),
            inst == instance_node_id@,
            pairs_view(out@) == node_id_pairs(all_node_ids(scopes@.take(s as int)), inst, entry@, exit@),
        decreases scopes@.len() - s,
    {
        let nodes = &scopes[s].nodes;
        let ghost head = all_node_ids(scopes@.take(s as int));
        let mut n: usize = 0;
        assert(head + node_ids(nodes@.take(0)) =~= head);
        while n < nodes.len()
            invariant
                s < scopes@.len(),
                inst == instance_node_id@,
                *nodes == scopes@[s as int].nodes,
                n <= nodes@.len(),
                head == all_node_ids(scopes@.take(s as int)),
                pairs_view(out@) == node_id_pairs(head + node_ids(nodes@.take(n as int)), inst, entry@, exit@),
            decreases nodes@.len() - n,
        {
            let id = &nodes[n].id;
            let ghost before = out@;
            let ghost ids = head + node_ids(nodes@.take(n + 1));
            assert(ids.drop_last() =~= head + node_ids(nodes@.take(n as int)));
            assert(ids.last() == id@);
            if !text_equal(id.as_str(), entry) && !text_equal(id.as_str(), exit) {
                let key = id.clone();
                let value = namespace(instance_node_id, id.as_str());
                out.push((key, value));
                assert(out@.last() == (key, value));
                assert(pairs_view(out@) =~= pairs_view(before).push((key@, value@)));
            }
            n += 1;
        }
        proof {
            assert(nodes@.take(nodes@.len() as int) =~= nodes@);
            let t = scopes@.take(s + 1);
            assert(t.drop_last() =~= scopes@.take(s as int));
            assert(t.last() == scopes@[s as int]);
        }
        s += 1;
    }
    assert(scopes@.take(scopes@.len() as int) =~= scopes@);
    out
}

/// The expanded IDs of an instance's inner scopes.
pub fn build_scope_id_map(scopes: &Vec<FlowScope>, instance_node_id: &str) -> (r: Vec<(String, String)>)
    ensures
        pairs_view(r@) == scope_id_pairs(scopes@, instance_node_id@),
{
    let mut out: Vec<(String, String)> = Vec::new();
    let mut s: usize = 0;
    while s < scopes.len()
        invariant
            s <= scopes@.len(),
            pairs_view(out@) =~= scope_id_pairs(scopes@.take(s as int), instance_node_id@),
        decreases scopes@.len() - s,
    {
        let key = scopes[s].id.clone();
        let value = namespace(instance_node_id, scopes[s].id.as_str());
        let ghost before = out@;
        out.push((key, value));
        assert(out@.last() == (key, value));
        assert(scope_id_pairs(scopes@.take(s + 1), instance_node_id@)
            =~= scope_id_pairs(scopes@.take(s as int), instance_node_id@).push((key@, value@)));
        assert(pairs_view(out@) =~= pairs_view(before).push((key@, value@)));
        s += 1;
    }
    assert(scopes@.take(scopes@.len() as int) =~= scopes@);
    out
}

/// A node rewritten for its expanded ID: its payload, then its output
/// mappings, are rewritten; type and version stay.
pub open spec fn node_rewrite(n: NodeView, id: Seq<char>, binds: Seq<(Seq<char>, JsonView)>, map: Seq<(Seq<char>, Seq<char>)>)
    -> Result<NodeView, Seq<char>> {
    match rewrite_spec(n.payload, binds, map) {
        Err(m) => Err(m),
        Ok(payload) => match rewrite_spec(n.output_bindings, binds, map) {
            Err(m) => Err(m),
            Ok(output_bindings) => Ok(NodeView { id, type_id: n.type_id, version: n.version, payload, output_bindings }),
        },
    }
}

/// Rewrites a component node's payload and output mappings for its
/// expanded ID.
pub fn rewrite_node(node: &WorkflowNode, expanded_id: &str, inputs: &Vec<(String, JsonValue)>, id_map: &Vec<(String, String)>)
    -> (r: Result<WorkflowNode, ComponentExpansionError>)
    ensures
        match node_rewrite(node_view(*node), expanded_id@, entry_views(inputs@), pairs_view(id_map@)) {
            Ok(v) => r matches Ok(x) && node_view(x) == v,
            Err(m) => r matches Err(e) && rewrite_error(e, m),
        },
{
    let payload = match rewrite_json(&node.payload, inputs, id_map) {
        Ok(p) => p,
        Err(e) => { return Err(e); },
    };
    let output_bindings = match rewrite_json(&node.output_bindings, inputs, id_map) {
        Ok(o) => o,
        Err(e) => { return Err(e); },
    };
    Ok(WorkflowNode { id: owned(expanded_id), type_id: node.type_id.clone(), version: node.version, payload, output_bindings })
}

/// Everything that decides how one instance's inner parts are expanded.
pub struct Site {
    /// Instance node.
    pub inst: Seq<char>,
    /// Instance input bindings.
    pub binds: Seq<(Seq<char>, JsonView)>,
    /// Expanded node IDs.
    pub node_map: Seq<(Seq<char>, Seq<char>)>,
    /// Expanded scope IDs.
    pub scope_map: Seq<(Seq<char>, Seq<char>)>,
    /// Component path inherited by the instance.
    pub path: Seq<FrameValue>,
    /// Component ID.
    pub cid: u128,
    /// Component version.
    pub cver: Seq<char>,
}

/// The site of an expansion, from its executable parts.
pub open spec fn site_of(inst: Seq<char>, inputs: Seq<(String, JsonValue)>, node_map: Seq<(String, String)>,
    scope_map: Seq<(String, String)>, inherited: Seq<ComponentSourceFrame>, cid: u128, cver: Seq<char>) -> Site {
    Site {
        inst,
        binds: entry_views(inputs),
        node_map: pairs_view(node_map),
        scope_map: pairs_view(scope_map),
        path: path_view(inherited),
        cid,
        cver,
    }
}

/// The node is one of the boundary nodes left out.
pub open spec fn skipped(skip: Option<(Seq<char>, Seq<char>)>, id: Seq<char>) -> bool {
    match skip {
        Some((entry, exit)) => id == entry || id == exit,
        None => false,
    }
}

/// One inner node expanded: its mapped ID, its rewrite and its source record.
pub open spec fn node_step(site: Site, skip: Option<(Seq<char>, Seq<char>)>)
    -> spec_fn(NodeView) -> Option<Result<(NodeView, SourceRecord), Failure>> {
    |n: NodeView| if skipped(skip, n.id) {
        None
    } else {
        Some(match mapped_spec(site.node_map, n.id, site.inst) {
            Err(v) => Err(v),
            Ok(t) => match node_rewrite(n, t, site.binds, site.node_map) {
                Err(m) => Err((None, m)),
                Ok(y) => Ok((y, (t, site.path.push((site.inst, site.cid, site.cver, n.id))))),
            },
        })
    }
}

/// Values of an optional pair of texts.
pub open spec fn skip_view(skip: Option<(&str, &str)>) -> Option<(Seq<char>, Seq<char>)> {
    match skip {
        Some((a, b)) => Some((a@, b@)),
        None => None,
    }
}

/// Expands the nodes of one component scope, leaving out the boundary
/// nodes `skip` names; returns the nodes and their source records.
pub fn rewrite_nodes(
    nodes: &Vec<WorkflowNode>,
    skip: Option<(&str, &str)>,
    instance_node_id: &str,
    inputs: &Vec<(String, JsonValue)>,
    node_id_map: &Vec<(String, String)>,
    scope_id_map: &Vec<(String, String)>,
    inherited_path: &Vec<ComponentSourceFrame>,
    component_id: u128,
    component_version: &str,
) -> (r: Result<(Vec<WorkflowNode>, Vec<(String, Vec<ComponentSourceFrame>)>), ComponentExpansionError>)
    ensures
        match collect(node_views(nodes@), node_step(site_of(instance_node_id@, inputs@, node_id_map@, scope_id_map@,
            inherited_path@, component_id, component_version@), skip_view(skip))) {
            Ok(v) => r matches Ok((ns, rs)) && node_views(ns@) == firsts(v) && records_view(rs@) == seconds(v),
            Err(x) => r matches Err(e) && err_view(e) == x,
        },
{
    let ghost site = site_of(instance_node_id@, inputs@, node_id_map@, scope_id_map@, inherited_path@, component_id, component_version@);
    let ghost step = node_step(site, skip_view(skip));
    let ghost nv = node_views(nodes@);
    let mut ns: Vec<WorkflowNode> = Vec::new();
    let mut rs: Vec<(String, Vec<ComponentSourceFrame>)> = Vec::new();
    let ghost mut acc: Seq<(NodeView, SourceRecord)> = Seq::empty();
    let mut i: usize = 0;
    assert(node_views(ns@) =~= firsts(acc));
    assert(records_view(rs@) =~= seconds(acc));
    while i < nodes.len()
        invariant
            i <= nodes@.len(),
            nv == node_views(nodes@),
            site == site_of(instance_node_id@, inputs@, node_id_map@, scope_id_map@, inherited_path@, component_id, component_version@),
            step == node_step(site, skip_view(skip)),
            collect(nv.take(i as int), step) == Ok::<Seq<(NodeView, SourceRecord)>, Failure>(acc),
            node_views(ns@) == firsts(acc),
            records_view(rs@) == seconds(acc),
        decreases nodes@.len() - i,
    {
        let node = &nodes[i];
        proof { lemma_collect_step(nv, step, i as int); }
        assert(nv[i as int] == node_view(*node));
        let skip_it = match skip {
            Some((entry, exit)) => text_equal(node.id.as_str(), entry) || text_equal(node.id.as_str(), exit),
            None => false,
        };
        if !skip_it {
            let expanded_id = match mapped(node_id_map, node.id.as_str(), instance_node_id) {
                Ok(t) => t,
                Err(e) => {
                    proof { lemma_collect_err_stays(nv, step, i + 1); }
                    return Err(e);
                },
            };
            let rewritten = match rewrite_node(node, expanded_id.as_str(), inputs, node_id_map) {
                Ok(x) => x,
                Err(e) => {
                    proof { lemma_collect_err_stays(nv, step, i + 1); }
                    return Err(e);
                },
            };
            let record = source_entry(expanded_id.as_str(), inherited_path, instance_node_id, component_id,
                component_version, node.id.as_str());
            let ghost y = (node_view(rewritten), (record.0@, path_view(record.1@)));
            let ghost ns0 = ns@;
            let ghost rs0 = rs@;
            ns.push(rewritten);
            rs.push(record);
            proof {
                assert(node_views(ns@) =~= node_views(ns0).push(y.0));
                assert(records_view(rs@) =~= records_view(rs0).push(y.1));
                assert(firsts(acc.push(y)) =~= firsts(acc).push(y.0));
                assert(seconds(acc.push(y)) =~= seconds(acc).push(y.1));
                acc = acc.push(y);
            }
        }
        i += 1;
    }
    proof { lemma_collect_all(nv, step); }
    Ok((ns, rs))
}

/// One control edge of an imported child scope: namespaced ID, mapped
/// source and target.
pub open spec fn child_edge(e: EdgeView, inst: Seq<char>, map: Seq<(Seq<char>, Seq<char>)>) -> Result<EdgeView, Failure> {
    match mapped_spec(map, e.source, inst) {
        Err(v) => Err(v),
        Ok(source) => match mapped_spec(map, e.target, inst) {
            Err(v) => Err(v),
            Ok(target) => Ok(EdgeView { id: namespaced(inst, e.id), source, target, branch: e.branch }),
        },
    }
}

/// Every child-scope edge is rewritten.
pub open spec fn child_edge_step(inst: Seq<char>, map: Seq<(Seq<char>, Seq<char>)>)
    -> spec_fn(EdgeView) -> Option<Result<EdgeView, Failure>> {
    |e: EdgeView| Some(child_edge(e, inst, map))
}

/// Copies an optional branch label.
fn copy_label(b: &Option<String>) -> (c: Option<String>)
    ensures
        crate::graph::branch_view(c) == crate::graph::branch_view(*b),
{
    match b {
        Some(s) => Some(s.clone()),
        None => None,
    }
}

/// Rewrites the control edges of an imported child scope.
fn rewrite_child_edges(edges: &Vec<WorkflowEdge>, instance_node_id: &str, node_id_map: &Vec<(String, String)>)
    -> (r: Result<Vec<WorkflowEdge>, ComponentExpansionError>)
    ensures
        edges_result(r, collect(edge_views(edges@), child_edge_step(instance_node_id@, pairs_view(node_id_map@)))),
{
    let ghost step = child_edge_step(instance_node_id@, pairs_view(node_id_map@));
    let ghost ev = edge_views(edges@);
    let mut out: Vec<WorkflowEdge> = Vec::new();
    let mut i: usize = 0;
    assert(edge_views(out@) =~= Seq::<EdgeView>::empty());
    while i < edges.len()
        invariant
            i <= edges@.len(),
            ev == edge_views(edges@),
            step == child_edge_step(instance_node_id@, pairs_view(node_id_map@)),
            collect(ev.take(i as int), step) == Ok::<Seq<EdgeView>, Failure>(edge_views(out@)),
        decreases edges@.len() - i,
    {
        let edge = &edges[i];
        proof { lemma_collect_step(ev, step, i as int); }
        assert(ev[i as int] == edge_view(*edge));
        let source = match mapped(node_id_map, edge.source.as_str(), instance_node_id) {
            Ok(t) => t.clone(),
            Err(e) => {
                proof { lemma_collect_err_stays(ev, step, i + 1); }
                return Err(e);
            },
        };
        let target = match mapped(node_id_map, edge.target.as_str(), instance_node_id) {
            Ok(t) => t.clone(),
            Err(e) => {
                proof { lemma_collect_err_stays(ev, step, i + 1); }
                return Err(e);
            },
        };
        let rewritten = WorkflowEdge {
            id: namespace(instance_node_id, edge.id.as_str()),
            source,
            target,
            branch: copy_label(&edge.branch),
        };
        let ghost before = out@;
        out.push(rewritten);
        assert(edge_views(out@) =~= edge_views(before).push(edge_view(rewritten)));
        i += 1;
    }
    proof { lemma_collect_all(ev, step); }
    Ok(out)
}

/// An imported child scope: it must have a parent container; a parent in
/// the component's root scope becomes the scope holding the instance,
/// another parent scope is mapped; then its nodes, edges, own ID, parent
/// container and boundary are rewritten, in that order.
pub open spec fn child_scope_spec(sc: ScopeView, containing: Seq<char>, root_id: Seq<char>, site: Site)
    -> Result<(ScopeView, Seq<SourceRecord>), Failure> {
    match sc.parent {
        None => Err((Some(site.inst), "组件子作用域缺少父容器"@)),
        Some((parent_scope, parent_node)) => {
            let ps = if parent_scope == root_id { Ok(containing) } else { mapped_spec(site.scope_map, parent_scope, site.inst) };
            match ps {
                Err(v) => Err(v),
                Ok(ps) => match collect(sc.nodes, node_step(site, None)) {
                    Err(v) => Err(v),
                    Ok(nr) => match collect(sc.edges, child_edge_step(site.inst, site.node_map)) {
                        Err(v) => Err(v),
                        Ok(edges) => match mapped_spec(site.scope_map, sc.id, site.inst) {
                            Err(v) => Err(v),
                            Ok(id) => match mapped_spec(site.node_map, parent_node, site.inst) {
                                Err(v) => Err(v),
                                Ok(pn) => match boundary_spec(sc.boundary, site.node_map, site.inst) {
                                    Err(v) => Err(v),
                                    Ok(boundary) => Ok((
                                        ScopeView { id, parent: Some((ps, pn)), boundary, nodes: firsts(nr), edges },
                                        seconds(nr),
                                    )),
                                },
                            },
                        },
                    },
                },
            }
        },
    }
}

/// Imports one child scope of a component under the instance.
pub fn rewrite_child_scope(
    scope: &FlowScope,
    containing_scope_id: &str,
    root_scope_id: &str,
    instance_node_id: &str,
    inputs: &Vec<(String, JsonValue)>,
    node_id_map: &Vec<(String, String)>,
    scope_id_map: &Vec<(String, String)>,
    inherited_path: &Vec<ComponentSourceFrame>,
    component_id: u128,
    component_version: &str,
) -> (r: Result<(FlowScope, Vec<(String, Vec<ComponentSourceFrame>)>), ComponentExpansionError>)
    ensures
        match child_scope_spec(scope_view(*scope), containing_scope_id@, root_scope_id@, site_of(instance_node_id@, inputs@,
            node_id_map@, scope_id_map@, inherited_path@, component_id, component_version@)) {
            Ok((sv, recs)) => r matches Ok((x, rs)) && scope_view(x) == sv && records_view(rs@) == recs,
            Err(v) => r matches Err(e) && err_view(e) == v,
        },
{
    let parent = match &scope.parent {
        Some(p) => p,
        None => { return Err(ComponentExpansionError::at(instance_node_id, owned("组件子作用域缺少父容器"))); },
    };
    let parent_scope_id = if text_equal(parent.scope_id.as_str(), root_scope_id) {
        owned(containing_scope_id)
    } else {
        match mapped(scope_id_map, parent.scope_id.as_str(), instance_node_id) {
            Ok(t) => t.clone(),
            Err(e) => { return Err(e); },
        }
    };
    let (nodes, records) = match rewrite_nodes(&scope.nodes, None, instance_node_id, inputs, node_id_map, scope_id_map,
        inherited_path, component_id, component_version) {
        Ok(x) => x,
        Err(e) => { return Err(e); },
    };
    let edges = match rewrite_child_edges(&scope.edges, instance_node_id, node_id_map) {
        Ok(x) => x,
        Err(e) => { return Err(e); },
    };
    let id = match mapped(scope_id_map, scope.id.as_str(), instance_node_id) {
        Ok(t) => t.clone(),
        Err(e) => { return Err(e); },
    };
    let parent_node = match mapped(node_id_map, parent.node_id.as_str(), instance_node_id) {
        Ok(t) => t.clone(),
        Err(e) => { return Err(e); },
    };
    let boundary = match rewrite_boundary(&scope.boundary, node_id_map, instance_node_id) {
        Ok(b) => b,
        Err(e) => { return Err(e); },
    };
    let out = FlowScope {
        id,
        parent: Some(ScopeParent { scope_id: parent_scope_id, node_id: parent_node }),
        boundary,
        nodes,
        edges,
    };
    Ok((out, records))
}

/// Entries kept in key order, as a sorted map keeps them: `e` goes before
/// the first greater key, and replaces an entry with its own key.
pub open spec fn keyed_insert(s: Seq<(Seq<char>, JsonView)>, e: (Seq<char>, JsonView)) -> Seq<(Seq<char>, JsonView)>
    decreases s.len(),
{
    if s.len() == 0 {
        seq![e]
    } else if e.0 == s[0].0 {
        seq![e] + s.drop_first()
    } else if text_lt(e.0, s[0].0) {
        seq![e] + s
    } else {
        seq![s[0]] + keyed_insert(s.drop_first(), e)
    }
}

/// The sorted map of a list of entries, later entries winning.
pub open spec fn keyed(s: Seq<(Seq<char>, JsonView)>) -> Seq<(Seq<char>, JsonView)>
    decreases s.len(),
{
    if s.len() == 0 {
        Seq::empty()
    } else {
        keyed_insert(keyed(s.drop_last()), s.last())
    }
}

/// Where `keyed_insert` puts an entry, given the first position whose key
/// is not smaller.
proof fn lemma_keyed_insert_at(s: Seq<(Seq<char>, JsonView)>, e: (Seq<char>, JsonView), i: int)
    requires
        0 <= i <= s.len(),
        forall|j: int| 0 <= j < i ==> text_lt((#[trigger] s[j]).0, e.0),
        i < s.len() ==> !text_lt(s[i].0, e.0),
    ensures
        keyed_insert(s, e) == if i < s.len() && s[i].0 == e.0 {
            s.take(i) + seq![e] + s.skip(i + 1)
        } else {
            s.take(i) + seq![e] + s.skip(i)
        },
    decreases i,
{
    if i == 0 {
        if s.len() > 0 {
            lemma_text_order_total(s[0].0, e.0);
            assert(s.drop_first() =~= s.skip(1));
        }
        assert(s.take(0) + seq![e] + s.skip(0) =~= seq![e] + s);
        assert(s.take(0) + seq![e] + s.skip(1) =~= seq![e] + s.skip(1));
    } else {
        lemma_text_order_total(s[0].0, e.0);
        lemma_text_order_total(e.0, e.0);
        assert(s[0].0 != e.0);
        let t = s.drop_first();
        assert forall|j: int| 0 <= j < i - 1 implies text_lt((#[trigger] t[j]).0, e.0) by {
            assert(t[j] == s[j + 1]);
        }
        lemma_keyed_insert_at(t, e, i - 1);
        assert(s.take(i) =~= seq![s[0]] + t.take(i - 1));
        assert(s.skip(i) =~= t.skip(i - 1));
        if i < s.len() {
            assert(s.skip(i + 1) =~= t.skip(i));
        }
        if i < s.len() && s[i].0 == e.0 {
            assert(t[i - 1] == s[i]);
            assert(seq![s[0]] + (t.take(i - 1) + seq![e] + t.skip(i)) =~= s.take(i) + seq![e] + s.skip(i + 1));
        } else {
            if i < s.len() { assert(t[i - 1] == s[i]); }
            assert(seq![s[0]] + (t.take(i - 1) + seq![e] + t.skip(i - 1)) =~= s.take(i) + seq![e] + s.skip(i));
        }
    }
}

/// Puts an entry into a key-ordered list, replacing one with the same key.
fn insert_keyed(out: &mut Vec<(String, JsonValue)>, key: String, value: JsonValue)
    ensures
        entry_views(final(out)@) == keyed_insert(entry_views(old(out)@), (key@, jview(value))),
{
    let ghost e = (key@, jview(value));
    let ghost s = entry_views(out@);
    let mut i: usize = 0;
    while i < out.len() && compare_text(out[i].0.as_str(), key.as_str()) == TextOrder::Less
        invariant
            i <= out@.len(),
            s == entry_views(out@),
            e == (key@, jview(value)),
            forall|j: int| 0 <= j < i ==> text_lt((#[trigger] s[j]).0, e.0),
        decreases out@.len() - i,
    {
        i += 1;
    }
    proof { lemma_keyed_insert_at(s, e, i as int); }
    if i < out.len() && text_equal(out[i].0.as_str(), key.as_str()) {
        let _old = out.remove(i);
        out.insert(i, (key, value));
        assert(entry_views(out@) =~= s.take(i as int) + seq![e] + s.skip(i + 1));
    } else {
        out.insert(i, (key, value));
        assert(entry_views(out@) =~= s.take(i as int) + seq![e] + s.skip(i as int));
    }
}

/// Values of declared outputs: name and value expression.
pub open spec fn output_views(outputs: Seq<ComponentOutput>) -> Seq<(Seq<char>, JsonView)> {
    outputs.map_values(|o: ComponentOutput| (o.name@, jview(o.value)))
}

/// One output's expression rewritten for the instance.
pub open spec fn output_step(binds: Seq<(Seq<char>, JsonView)>, map: Seq<(Seq<char>, Seq<char>)>)
    -> spec_fn((Seq<char>, JsonView)) -> Option<Result<(Seq<char>, JsonView), Failure>> {
    |o: (Seq<char>, JsonView)| Some(match rewrite_spec(o.1, binds, map) {
        Ok(v) => Ok((o.0, v)),
        Err(m) => Err((None, m)),
    })
}

/// Rewrites the component's output expressions for the instance; they
/// come out ordered by name.
pub fn rewrite_outputs(outputs: &Vec<ComponentOutput>, inputs: &Vec<(String, JsonValue)>, node_id_map: &Vec<(String, String)>)
    -> (r: Result<Vec<(String, JsonValue)>, ComponentExpansionError>)
    ensures
        match collect(output_views(outputs@), output_step(entry_views(inputs@), pairs_view(node_id_map@))) {
            Ok(v) => r matches Ok(es) && entry_views(es@) == keyed(v),
            Err(x) => r matches Err(e) && err_view(e) == x,
        },
{
    let ghost step = output_step(entry_views(inputs@), pairs_view(node_id_map@));
    let ghost ov = output_views(outputs@);
    let ghost mut acc: Seq<(Seq<char>, JsonView)> = Seq::empty();
    let mut out: Vec<(String, JsonValue)> = Vec::new();
    let mut i: usize = 0;
    assert(entry_views(out@) =~= keyed(acc));
    while i < outputs.len()
        invariant
            i <= outputs@.len(),
            ov == output_views(outputs@),
            step == output_step(entry_views(inputs@), pairs_view(node_id_map@)),
            collect(ov.take(i as int), step) == Ok::<Seq<(Seq<char>, JsonView)>, Failure>(acc),
            entry_views(out@) == keyed(acc),
        decreases outputs@.len() - i,
    {
        proof { lemma_collect_step(ov, step, i as int); }
        assert(ov[i as int] == (outputs@[i as int].name@, jview(outputs@[i as int].value)));
        let value = match rewrite_json(&outputs[i].value, inputs, node_id_map) {
            Ok(v) => v,
            Err(e) => {
                proof { lemma_collect_err_stays(ov, step, i + 1); }
                return Err(e);
            },
        };
        let ghost y = (outputs@[i as int].name@, jview(value));
        insert_keyed(&mut out, outputs[i].name.clone(), value);
        proof {
            assert(acc.push(y).drop_last() =~= acc);
            acc = acc.push(y);
        }
        i += 1;
    }
    proof { lemma_collect_all(ov, step); }
    Ok(out)
}

/// Lower-case hexadecimal digit of a value below sixteen.
pub open spec fn hex_digit(d: int) -> char {
    if d < 10 { (d + 48) as char } else { (d + 87) as char }
}

/// Hexadecimal digit `i` of a 128-bit value, the most significant first.
pub open spec fn nibble(id: u128, i: int) -> int {
    ((id as int) / vstd::arithmetic::power::pow(16, (31 - i) as nat)) % 16
}

/// The hyphenated lower-case form of a UUID: its 32 hexadecimal digits,
/// big-endian, grouped 8-4-4-4-12.
pub open spec fn hyphenated(id: u128) -> Seq<char> {
    Seq::new(36, |k: int| if k == 8 || k == 13 || k == 18 || k == 23 {
        '-'
    } else {
        let skipped = if k < 8 { 0int } else if k < 13 { 1int } else if k < 18 { 2int } else if k < 23 { 3int } else { 4int };
        hex_digit(nibble(id, k - skipped))
    })
}

/// The text of a component ID as `uuid::Uuid::from_u128` displays it: the
/// hyphenated lower-case form.
#[verifier::external_body]
fn uuid_text(id: u128) -> (r: String)
    ensures
        r@ == hyphenated(id),
{
    uuid::Uuid::from_u128(id).to_string()
}

/// The definition a catalogue holds under an exact ID and version.
pub open spec fn resolved(defs: Seq<ComponentDefinition>, id: u128, version: Seq<char>) -> Option<ComponentDefinition> {
    if exists|i: int| holds_key(defs, (id, version), i) {
        Some(defs[choose|i: int| holds_key(defs, (id, version), i)])
    } else {
        None
    }
}

/// The failure when the locked version is not in the catalogue.
pub open spec fn missing_version(inst: Seq<char>, id: u128, version: Seq<char>) -> Failure {
    (Some(inst), "找不到锁定组件版本 '"@ + hyphenated(id) + "@"@ + version + "'"@)
}

/// Resolves the exact version an instance is locked to.
pub fn resolve_locked<'a>(registry: &'a ComponentRegistry, instance_node_id: &str, component_id: u128, version: &str)
    -> (r: Result<&'a ComponentDefinition, ComponentExpansionError>)
    requires
        catalogue_wf(registry@),
    ensures
        match resolved(registry@, component_id, version@) {
            Some(d) => r matches Ok(x) && *x == d,
            None => r matches Err(e) && err_view(e) == missing_version(instance_node_id@, component_id, version@),
        },
{
    match registry.resolve(component_id, version) {
        Some(d) => {
            proof {
                let i = choose|i: int| holds_key(registry@, (component_id, version@), i) && registry@[i] == *d;
                let k = choose|k: int| holds_key(registry@, (component_id, version@), k);
                if k < i {
                    assert(def_key(registry@[k]) != def_key(registry@[i]));
                } else if i < k {
                    assert(def_key(registry@[i]) != def_key(registry@[k]));
                }
            }
            Ok(d)
        },
        None => {
            let text = uuid_text(component_id);
            let m = joined(joined(joined(joined("找不到锁定组件版本 '", text.as_str()).as_str(), "@").as_str(), version).as_str(), "'");
            Err(ComponentExpansionError::at(instance_node_id, m))
        },
    }
}

/// Targets of the root edges leaving the entry.
pub open spec fn entry_step(entry: Seq<char>, exit: Seq<char>, inst: Seq<char>, map: Seq<(Seq<char>, Seq<char>)>)
    -> spec_fn(EdgeView) -> Option<Result<Seq<char>, Failure>> {
    |e: EdgeView| if e.source == entry { Some(target_spec(e.target, exit, map, inst)) } else { None }
}

/// The one node the entry leads to; the entry must have exactly one edge.
pub open spec fn entry_target_spec(edges: Seq<EdgeView>, entry: Seq<char>, exit: Seq<char>, inst: Seq<char>,
    map: Seq<(Seq<char>, Seq<char>)>) -> Result<Seq<char>, Failure> {
    match collect(edges, entry_step(entry, exit, inst, map)) {
        Err(v) => Err(v),
        Ok(ts) => if ts.len() == 1 { Ok(ts[0]) } else { Err((Some(inst), "组件入口必须且只能有一条出边"@)) },
    }
}

/// Texts of a list of strings.
pub open spec fn texts_view(s: Seq<String>) -> Seq<Seq<char>> {
    s.map_values(|t: String| t@)
}

/// Finds where the component's entry leads.
pub fn entry_target(edges: &Vec<WorkflowEdge>, entry: &str, exit: &str, instance_node_id: &str, node_id_map: &Vec<(String, String)>)
    -> (r: Result<String, ComponentExpansionError>)
    ensures
        text_result(r, entry_target_spec(edge_views(edges@), entry@, exit@, instance_node_id@, pairs_view(node_id_map@))),
{
    let ghost step = entry_step(entry@, exit@, instance_node_id@, pairs_view(node_id_map@));
    let ghost ev = edge_views(edges@);
    let mut targets: Vec<String> = Vec::new();
    let mut i: usize = 0;
    assert(texts_view(targets@) =~= Seq::<Seq<char>>::empty());
    while i < edges.len()
        invariant
            i <= edges@.len(),
            ev == edge_views(edges@),
            step == entry_step(entry@, exit@, instance_node_id@, pairs_view(node_id_map@)),
            collect(ev.take(i as int), step) == Ok::<Seq<Seq<char>>, Failure>(texts_view(targets@)),
        decreases edges@.len() - i,
    {
        proof { lemma_collect_step(ev, step, i as int); }
        assert(ev[i as int] == edge_view(edges@[i as int]));
        if text_equal(edges[i].source.as_str(), entry) {
            match boundary_target(&edges[i], exit, node_id_map, instance_node_id) {
                Ok(t) => {
                    let ghost before = targets@;
                    targets.push(t);
                    assert(texts_view(targets@) =~= texts_view(before).push(t@));
                },
                Err(e) => {
                    proof { lemma_collect_err_stays(ev, step, i + 1); }
                    return Err(e);
                },
            }
        }
        i += 1;
    }
    proof { lemma_collect_all(ev, step); }
    if targets.len() == 1 {
        Ok(targets[0].clone())
    } else {
        Err(ComponentExpansionError::at(instance_node_id, owned("组件入口必须且只能有一条出边")))
    }
}

/// Existing edges into the instance now enter the component's first node.
pub open spec fn retarget(edges: Seq<EdgeView>, inst: Seq<char>, t: Seq<char>) -> Seq<EdgeView> {
    edges.map_values(|e: EdgeView| if e.target == inst {
        EdgeView { id: e.id, source: e.source, target: t, branch: e.branch }
    } else {
        e
    })
}

/// Copies the edges of the instance's scope, retargeting those into the instance.
pub fn retarget_edges(edges: &Vec<WorkflowEdge>, instance_node_id: &str, target: &str) -> (r: Vec<WorkflowEdge>)
    ensures
        edge_views(r@) == retarget(edge_views(edges@), instance_node_id@, target@),
{
    let mut out: Vec<WorkflowEdge> = Vec::new();
    let mut i: usize = 0;
    while i < edges.len()
        invariant
            i <= edges@.len(),
            edge_views(out@) =~= retarget(edge_views(edges@), instance_node_id@, target@).take(i as int),
        decreases edges@.len() - i,
    {
        let e = &edges[i];
        let to = if text_equal(e.target.as_str(), instance_node_id) { owned(target) } else { e.target.clone() };
        let copy = WorkflowEdge { id: e.id.clone(), source: e.source.clone(), target: to, branch: copy_label(&e.branch) };
        let ghost before = out@;
        out.push(copy);
        assert(edge_views(out@) =~= edge_views(before).push(edge_view(copy)));
        i += 1;
    }
    assert(retarget(edge_views(edges@), instance_node_id@, target@).take(i as int)
        =~= retarget(edge_views(edges@), instance_node_id@, target@));
    out
}

/// Every scope of the component but its root is imported.
pub open spec fn child_step(containing: Seq<char>, root_id: Seq<char>, site: Site)
    -> spec_fn(ScopeView) -> Option<Result<(ScopeView, Seq<SourceRecord>), Failure>> {
    |sc: ScopeView| if sc.id == root_id { None } else { Some(child_scope_spec(sc, containing, root_id, site)) }
}

/// Records of several scopes, one after another.
pub open spec fn flatten_records(s: Seq<Seq<SourceRecord>>) -> Seq<SourceRecord>
    decreases s.len(),
{
    if s.len() == 0 {
        Seq::empty()
    } else {
        flatten_records(s.drop_last()) + s.last()
    }
}

/// Imports the component's child scopes under the instance.
pub fn import_child_scopes(
    scopes: &Vec<FlowScope>,
    containing_scope_id: &str,
    root_scope_id: &str,
    instance_node_id: &str,
    inputs: &Vec<(String, JsonValue)>,
    node_id_map: &Vec<(String, String)>,
    scope_id_map: &Vec<(String, String)>,
    inherited_path: &Vec<ComponentSourceFrame>,
    component_id: u128,
    component_version: &str,
) -> (r: Result<(Vec<FlowScope>, Vec<(String, Vec<ComponentSourceFrame>)>), ComponentExpansionError>)
    ensures
        match collect(scopes_view(scopes@), child_step(containing_scope_id@, root_scope_id@, site_of(instance_node_id@,
            inputs@, node_id_map@, scope_id_map@, inherited_path@, component_id, component_version@))) {
            Ok(v) => r matches Ok((ss, rs)) && scopes_view(ss@) == firsts(v) && records_view(rs@) == flatten_records(seconds(v)),
            Err(x) => r matches Err(e) && err_view(e) == x,
        },
{
    let ghost site = site_of(instance_node_id@, inputs@, node_id_map@, scope_id_map@, inherited_path@, component_id, component_version@);
    let ghost step = child_step(containing_scope_id@, root_scope_id@, site);
    let ghost sv = scopes_view(scopes@);
    let ghost mut acc: Seq<(ScopeView, Seq<SourceRecord>)> = Seq::empty();
    let mut out: Vec<FlowScope> = Vec::new();
    let mut recs: Vec<(String, Vec<ComponentSourceFrame>)> = Vec::new();
    let mut i: usize = 0;
    assert(scopes_view(out@) =~= firsts(acc));
    assert(records_view(recs@) =~= flatten_records(seconds(acc)));
    while i < scopes.len()
        invariant
            i <= scopes@.len(),
            sv == scopes_view(scopes@),
            site == site_of(instance_node_id@, inputs@, node_id_map@, scope_id_map@, inherited_path@, component_id, component_version@),
            step == child_step(containing_scope_id@, root_scope_id@, site),
            collect(sv.take(i as int), step) == Ok::<Seq<(ScopeView, Seq<SourceRecord>)>, Failure>(acc),
            scopes_view(out@) == firsts(acc),
            records_view(recs@) == flatten_records(seconds(acc)),
        decreases scopes@.len() - i,
    {
        proof { lemma_collect_step(sv, step, i as int); }
        assert(sv[i as int] == scope_view(scopes@[i as int]));
        if !text_equal(scopes[i].id.as_str(), root_scope_id) {
            match rewrite_child_scope(&scopes[i], containing_scope_id, root_scope_id, instance_node_id, inputs, node_id_map,
                scope_id_map, inherited_path, component_id, component_version) {
                Ok((scope, mut more)) => {
                    let ghost y = (scope_view(scope), records_view(more@));
                    let ghost out0 = out@;
                    let ghost recs0 = recs@;
                    out.push(scope);
                    recs.append(&mut more);
                    proof {
                        assert(scopes_view(out@) =~= scopes_view(out0).push(y.0));
                        assert(records_view(recs@) =~= records_view(recs0) + y.1);
                        assert(firsts(acc.push(y)) =~= firsts(acc).push(y.0));
                        assert(seconds(acc.push(y)) =~= seconds(acc).push(y.1));
                        assert(seconds(acc).push(y.1).drop_last() =~= seconds(acc));
                        acc = acc.push(y);
                    }
                },
                Err(e) => {
                    proof { lemma_collect_err_stays(sv, step, i + 1); }
                    return Err(e);
                },
            }
        }
        i += 1;
    }
    proof { lemma_collect_all(sv, step); }
    Ok((out, recs))
}

/// The output proxy that takes the instance's place: same ID and output
/// mappings, type `argus.component.output` version 1, its payload the
/// rewritten outputs by name.
pub open spec fn output_proxy(instance: NodeView, outputs: Seq<(Seq<char>, JsonView)>) -> NodeView {
    NodeView {
        id: instance.id,
        type_id: "argus.component.output"@,
        version: 1,
        payload: JsonView::Object(seq![("outputs"@, JsonView::Object(outputs))]),
        output_bindings: instance.output_bindings,
    }
}

/// The site of an instance whose definition passed its checks.
pub open spec fn instance_site(inst: Seq<char>, instance: ComponentInstance, d: ComponentDefinition, entry: Seq<char>,
    exit: Seq<char>, path: Seq<FrameValue>) -> Site {
    Site {
        inst,
        binds: entry_views(instance.inputs@),
        node_map: node_id_pairs(all_node_ids(d.scopes@), inst, entry, exit),
        scope_map: scope_id_pairs(d.scopes@, inst),
        path,
        cid: instance.component_id,
        cver: instance.component_version@,
    }
}

/// The splice of a checked definition into scope `si` in place of its node
/// `ni`: the root's inner nodes then the output proxy replace the instance,
/// edges into the instance enter the node the component's entry leads to,
/// the root's other edges are added, and the child scopes are appended.
/// The records are those of the root nodes, the proxy (as the exit) and
/// the child scopes' nodes. The first failure, in that order, decides.
pub open spec fn splice_spec(scopes: Seq<ScopeView>, si: int, ni: int, d: ComponentDefinition, ri: int, entry: Seq<char>,
    exit: Seq<char>, site: Site) -> Result<(Seq<ScopeView>, Seq<SourceRecord>), Failure> {
    let cur = scopes[si];
    let inst = site.inst;
    let root = scope_view(d.scopes@[ri]);
    match collect(root.nodes, node_step(site, Some((entry, exit)))) {
        Err(v) => Err(v),
        Ok(nr) => match collect(output_views(d.outputs@), output_step(site.binds, site.node_map)) {
            Err(v) => Err(v),
            Ok(outs) => match entry_target_spec(root.edges, entry, exit, inst, site.node_map) {
                Err(v) => Err(v),
                Ok(t) => match collect(root.edges, root_edge_step(entry, exit, inst, site.node_map)) {
                    Err(v) => Err(v),
                    Ok(re) => match collect(scopes_view(d.scopes@), child_step(cur.id, d.root_scope_id@, site)) {
                        Err(v) => Err(v),
                        Ok(children) => {
                            let updated = ScopeView {
                                id: cur.id,
                                parent: cur.parent,
                                boundary: cur.boundary,
                                nodes: cur.nodes.remove(ni) + firsts(nr).push(output_proxy(cur.nodes[ni], keyed(outs))),
                                edges: retarget(cur.edges, inst, t) + re,
                            };
                            Ok((
                                scopes.update(si, updated) + firsts(children),
                                seconds(nr).push((inst, site.path.push((inst, site.cid, site.cver, exit))))
                                    + flatten_records(seconds(children)),
                            ))
                        },
                    },
                },
            },
        },
    }
}

/// The expansion of the component instance at node `ni` of scope `si`: the
/// instance inherits the path recorded for it, must be admissible, its
/// locked version must be in the catalogue and pass the definition checks,
/// then the definition is spliced in.
pub open spec fn expand_spec(scopes: Seq<ScopeView>, si: int, ni: int, records: Seq<SourceRecord>, instance: ComponentInstance,
    found: Option<ComponentDefinition>) -> Result<(Seq<ScopeView>, Seq<SourceRecord>), Failure> {
    let inst = scopes[si].nodes[ni].id;
    let path = match path_lookup(records, inst) { Some(p) => p, None => Seq::empty() };
    match admission_spec(path, instance.component_id, inst) {
        Err(v) => Err(v),
        Ok(()) => match found {
            None => Err(missing_version(inst, instance.component_id, instance.component_version@)),
            Some(d) => match definition_check(inst, d, binding_names(instance.inputs@)) {
                Err(v) => Err(v),
                Ok((ri, entry, exit)) => splice_spec(scopes, si, ni, d, ri, entry, exit,
                    instance_site(inst, instance, d, entry, exit, path)),
            },
        },
    }
}

/// Expands the component instance at node `node_index` of scope
/// `scope_index` with its decoded settings; on failure nothing changes.
pub fn expand_instance(
    scopes: &mut Vec<FlowScope>,
    scope_index: usize,
    node_index: usize,
    instance: &ComponentInstance,
    registry: &ComponentRegistry,
    source_map: &mut ComponentSourceMap,
) -> (r: Result<(), ComponentExpansionError>)
    requires
        scope_index < old(scopes)@.len(),
        node_index < old(scopes)@[scope_index as int].nodes@.len(),
        catalogue_wf(registry@),
    ensures
        match expand_spec(scopes_view(old(scopes)@), scope_index as int, node_index as int, records_view(old(source_map).nodes@),
            *instance, resolved(registry@, instance.component_id, instance.component_version@)) {
            Ok((sv, added)) => r is Ok && scopes_view(final(scopes)@) == sv
                && records_view(final(source_map).nodes@) == records_view(old(source_map).nodes@) + added,
            Err(v) => r matches Err(e) && err_view(e) == v && final(scopes)@ == old(scopes)@
                && final(source_map).nodes@ == old(source_map).nodes@,
        },
{
    let ghost sv0 = scopes_view(scopes@);
    let ghost cur_view = sv0[scope_index as int];
    let instance_id = scopes[scope_index].nodes[node_index].id.clone();
    let instance_bindings = copy_json(&scopes[scope_index].nodes[node_index].output_bindings);
    assert(cur_view.nodes[node_index as int] == node_view(scopes@[scope_index as int].nodes@[node_index as int]));
    let inherited = match source_map.get(instance_id.as_str()) {
        Some(p) => copy_path(p),
        None => Vec::new(),
    };
    assert(path_view(inherited@) == match path_lookup(records_view(source_map.nodes@), instance_id@) {
        Some(p) => p,
        None => Seq::empty(),
    });
    match check_admission(&inherited, instance.component_id, instance_id.as_str()) {
        Ok(()) => {},
        Err(e) => { return Err(e); },
    }
    let definition = match resolve_locked(registry, instance_id.as_str(), instance.component_id, instance.component_version.as_str()) {
        Ok(d) => d,
        Err(e) => { return Err(e); },
    };
    let (root_index, entry, exit) = match validate_component_definition(instance_id.as_str(), definition, instance) {
        Ok(x) => x,
        Err(e) => { return Err(e); },
    };
    let scope_id_map = build_scope_id_map(&definition.scopes, instance_id.as_str());
    let node_id_map = build_node_id_map(&definition.scopes, instance_id.as_str(), entry.as_str(), exit.as_str());
    let ghost site = instance_site(instance_id@, *instance, *definition, entry@, exit@, path_view(inherited@));
    assert(site == site_of(instance_id@, instance.inputs@, node_id_map@, scope_id_map@, inherited@,
        instance.component_id, instance.component_version@));
    let root = &definition.scopes[root_index];
    let (mut root_nodes, mut records) = match rewrite_nodes(&root.nodes, Some((entry.as_str(), exit.as_str())),
        instance_id.as_str(), &instance.inputs, &node_id_map, &scope_id_map, &inherited, instance.component_id,
        instance.component_version.as_str()) {
        Ok(x) => x,
        Err(e) => { return Err(e); },
    };
    let outputs = match rewrite_outputs(&definition.outputs, &instance.inputs, &node_id_map) {
        Ok(x) => x,
        Err(e) => { return Err(e); },
    };
    let target = match entry_target(&root.edges, entry.as_str(), exit.as_str(), instance_id.as_str(), &node_id_map) {
        Ok(t) => t,
        Err(e) => { return Err(e); },
    };
    let root_edges = match rewrite_root_edges(&root.edges, entry.as_str(), exit.as_str(), instance_id.as_str(), &node_id_map) {
        Ok(x) => x,
        Err(e) => { return Err(e); },
    };
    let containing = scopes[scope_index].id.clone();
    let (mut imported, mut child_records) = match import_child_scopes(&definition.scopes, containing.as_str(),
        definition.root_scope_id.as_str(), instance_id.as_str(), &instance.inputs, &node_id_map, &scope_id_map, &inherited,
        instance.component_id, instance.component_version.as_str()) {
        Ok(x) => x,
        Err(e) => { return Err(e); },
    };
    let outputs_object = JsonValue::Object(outputs);
    let payload = JsonValue::Object(vec![(owned("outputs"), outputs_object)]);
    proof {
        lemma_object_view(outputs_object);
        lemma_object_view(payload);
        assert(entry_views(payload->Object_0@) =~= seq![("outputs"@, jview(outputs_object))]);
    }
    let proxy = WorkflowNode {
        id: instance_id.clone(),
        type_id: owned("argus.component.output"),
        version: 1,
        payload,
        output_bindings: instance_bindings,
    };
    let ghost root_views = node_views(root_nodes@);
    root_nodes.push(proxy);
    assert(node_views(root_nodes@) =~= root_views.push(node_view(proxy)));
    let proxy_record = source_entry(instance_id.as_str(), &inherited, instance_id.as_str(), instance.component_id,
        instance.component_version.as_str(), exit.as_str());
    let ghost rec_views = records_view(records@);
    records.push(proxy_record);
    assert(records_view(records@) =~= rec_views.push((proxy_record.0@, path_view(proxy_record.1@))));
    let mut edges = retarget_edges(&scopes[scope_index].edges, instance_id.as_str(), target.as_str());
    let ghost edge_views0 = edge_views(edges@);
    let mut root_edges = root_edges;
    let ghost re_views = edge_views(root_edges@);
    edges.append(&mut root_edges);
    assert(edge_views(edges@) =~= edge_views0 + re_views);
    let ghost old_scopes = scopes@;
    let ghost imported_views = scopes_view(imported@);
    let ghost child_recs = records_view(child_records@);
    let ghost root_node_views = node_views(root_nodes@);
    let current = scopes.remove(scope_index);
    let FlowScope { id, parent, boundary, nodes, edges: _ } = current;
    let mut nodes = nodes;
    let ghost nodes0 = nodes@;
    let _instance_node = nodes.remove(node_index);
    let ghost nodes1 = nodes@;
    nodes.append(&mut root_nodes);
    assert(node_views(nodes@) =~= node_views(nodes0).remove(node_index as int) + root_node_views);
    let updated = FlowScope { id, parent, boundary, nodes, edges };
    scopes.insert(scope_index, updated);
    assert(scopes@ =~= old_scopes.update(scope_index as int, updated));
    let ghost scopes1 = scopes@;
    scopes.append(&mut imported);
    assert(scopes_view(scopes@) =~= scopes_view(scopes1) + imported_views);
    assert(scopes_view(scopes1) =~= sv0.update(scope_index as int, scope_view(updated)));
    let ghost recs0 = records_view(source_map.nodes@);
    let ghost recs_views = records_view(records@);
    records.append(&mut child_records);
    assert(records_view(records@) =~= recs_views + child_recs);
    let ghost all_recs = records_view(records@);
    source_map.nodes.append(&mut records);
    assert(records_view(source_map.nodes@) =~= recs0 + all_recs);
    Ok(())
}

/// The node is a component instance still waiting for expansion.
pub open spec fn is_instance(n: WorkflowNode) -> bool {
    n.type_id@ == "argus.component"@
}

/// The next instance to expand: the first instance node of the first scope
/// that has one.
pub fn next_component_instance(scopes: &Vec<FlowScope>) -> (r: Option<(usize, usize)>)
    ensures
        match r {
            Some((si, ni)) => si < scopes@.len() && ni < scopes@[si as int].nodes@.len()
                && is_instance(scopes@[si as int].nodes@[ni as int])
                && (forall|t: int, m: int| 0 <= t < si && 0 <= m < scopes@[t].nodes@.len()
                    ==> !is_instance(#[trigger] scopes@[t].nodes@[m]))
                && (forall|m: int| 0 <= m < ni ==> !is_instance(#[trigger] scopes@[si as int].nodes@[m])),
            None => forall|t: int, m: int| 0 <= t < scopes@.len() && 0 <= m < scopes@[t].nodes@.len()
                ==> !is_instance(#[trigger] scopes@[t].nodes@[m]),
        },
{
    let mut s: usize = 0;
    while s < scopes.len()
        invariant
            s <= scopes@.len(),
            forall|t: int, m: int| 0 <= t < s && 0 <= m < scopes@[t].nodes@.len() ==> !is_instance(#[trigger] scopes@[t].nodes@[m]),
        decreases scopes@.len() - s,
    {
        let nodes = &scopes[s].nodes;
        let mut n: usize = 0;
        while n < nodes.len()
            invariant
                s < scopes@.len(),
                *nodes == scopes@[s as int].nodes,
                n <= nodes@.len(),
                forall|t: int, m: int| 0 <= t < s && 0 <= m < scopes@[t].nodes@.len() ==> !is_instance(#[trigger] scopes@[t].nodes@[m]),
                forall|m: int| 0 <= m < n ==> !is_instance(#[trigger] scopes@[s as int].nodes@[m]),
            decreases nodes@.len() - n,
        {
            if text_equal(nodes[n].type_id.as_str(), "argus.component") {
                return Some((s, n));
            }
            n += 1;
        }
        s += 1;
    }
    None
}

/// An instance's settings must be of version 2 before they are decoded.
pub fn check_instance_version(node: &WorkflowNode) -> (r: Result<(), ComponentExpansionError>)
    ensures
        r is Ok <==> node.version == 2,
        r matches Err(e) ==> err_view(e) == (Some(node.id@), "组合步骤的设置版本必须为 2"@),
{
    if node.version != 2 {
        return Err(ComponentExpansionError::at(node.id.as_str(), owned("组合步骤的设置版本必须为 2")));
    }
    Ok(())
}

/// A mapped element, if there is one, has the property.
pub open spec fn yields<B>(r: Option<Result<B, Failure>>, p: spec_fn(B) -> bool) -> bool {
    match r {
        Some(Ok(y)) => p(y),
        _ => true,
    }
}

/// A collection keeps a property every mapped element has.
pub proof fn lemma_collect_preserves<A, B>(s: Seq<A>, f: spec_fn(A) -> Option<Result<B, Failure>>, p: spec_fn(B) -> bool)
    requires
        forall|a: A| yields(#[trigger] f(a), p),
    ensures
        collect(s, f) matches Ok(v) ==> forall|i: int| 0 <= i < v.len() ==> p(#[trigger] v[i]),
    decreases s.len(),
{
    if s.len() > 0 {
        lemma_collect_preserves(s.drop_last(), f, p);
        if let Ok(v) = collect(s, f) {
            let prefix = collect(s.drop_last(), f)->Ok_0;
            assert forall|i: int| 0 <= i < v.len() implies p(#[trigger] v[i]) by {
                if i < prefix.len() {
                    match f(s.last()) {
                        Some(Ok(y)) => { assert(v[i] == prefix.push(y)[i]); },
                        _ => {},
                    }
                } else {
                    assert(f(s.last()) matches Some(Ok(_)));
                }
            }
        }
    }
}

/// Flattened records keep a property every record has.
proof fn lemma_flatten_preserves(s: Seq<Seq<SourceRecord>>, p: spec_fn(SourceRecord) -> bool)
    requires
        forall|k: int, j: int| 0 <= k < s.len() && 0 <= j < s[k].len() ==> p(#[trigger] s[k][j]),
    ensures
        forall|i: int| 0 <= i < flatten_records(s).len() ==> p(#[trigger] flatten_records(s)[i]),
    decreases s.len(),
{
    if s.len() > 0 {
        assert forall|k: int, j: int| 0 <= k < s.drop_last().len() && 0 <= j < s.drop_last()[k].len()
            implies p(#[trigger] s.drop_last()[k][j]) by {
            assert(s.drop_last()[k] == s[k]);
        }
        lemma_flatten_preserves(s.drop_last(), p);
        let head = flatten_records(s.drop_last());
        assert forall|i: int| 0 <= i < flatten_records(s).len() implies p(#[trigger] flatten_records(s)[i]) by {
            if i < head.len() {
                assert(flatten_records(s)[i] == head[i]);
            } else {
                assert(flatten_records(s)[i] == s.last()[i - head.len()]);
                assert(s[s.len() - 1][i - head.len()] == s.last()[i - head.len()]);
            }
        }
    }
}

/// The record is one frame below `path`, in the instance `inst` of component `cid`.
pub open spec fn nested_below(rec: SourceRecord, path: Seq<FrameValue>, inst: Seq<char>, cid: u128) -> bool {
    &&& rec.1.len() == path.len() + 1
    &&& rec.1.drop_last() == path
    &&& rec.1.last().0 == inst
    &&& rec.1.last().1 == cid
}

/// Law: every node a successful expansion adds to the source map records the
/// instance's inherited component path, one frame deeper, that frame naming
/// the instance and its component; and no recorded path is deeper than the
/// component nesting limit.
pub proof fn lemma_expansion_nests_one_level(scopes: Seq<ScopeView>, si: int, ni: int, records: Seq<SourceRecord>,
    instance: ComponentInstance, found: Option<ComponentDefinition>)
    requires
        0 <= si < scopes.len(),
        0 <= ni < scopes[si].nodes.len(),
        expand_spec(scopes, si, ni, records, instance, found) is Ok,
    ensures
        ({
            let inst = scopes[si].nodes[ni].id;
            let path = match path_lookup(records, inst) { Some(p) => p, None => Seq::empty() };
            let added = expand_spec(scopes, si, ni, records, instance, found)->Ok_0.1;
            forall|i: int| 0 <= i < added.len() ==> nested_below(#[trigger] added[i], path, inst, instance.component_id)
                && added[i].1.len() <= MAX_COMPONENT_DEPTH
        }),
{
    let inst = scopes[si].nodes[ni].id;
    let path = match path_lookup(records, inst) { Some(p) => p, None => Seq::empty() };
    let d = found->Some_0;
    let (ri, entry, exit) = definition_check(inst, d, binding_names(instance.inputs@))->Ok_0;
    let site = instance_site(inst, instance, d, entry, exit, path);
    let cid = instance.component_id;
    let p = |rec: SourceRecord| nested_below(rec, path, inst, cid);
    let pn = |y: (NodeView, SourceRecord)| nested_below(y.1, path, inst, cid);
    assert forall|n: NodeView| yields(#[trigger] node_step(site, Some((entry, exit)))(n), pn) by {
        assert(site.path.push((site.inst, site.cid, site.cver, n.id)).drop_last() =~= site.path);
    }
    assert forall|n: NodeView| yields(#[trigger] node_step(site, None)(n), pn) by {
        assert(site.path.push((site.inst, site.cid, site.cver, n.id)).drop_last() =~= site.path);
    }
    let root = scope_view(d.scopes@[ri]);
    lemma_collect_preserves(root.nodes, node_step(site, Some((entry, exit))), pn);
    let pc = |y: (ScopeView, Seq<SourceRecord>)| forall|j: int| 0 <= j < y.1.len() ==> nested_below(#[trigger] y.1[j], path, inst, cid);
    assert forall|sc: ScopeView| yields(#[trigger] child_step(scopes[si].id, d.root_scope_id@, site)(sc), pc) by {
        lemma_collect_preserves(sc.nodes, node_step(site, None), pn);
        if let Some(Ok(y)) = child_step(scopes[si].id, d.root_scope_id@, site)(sc) {
            let nr = collect(sc.nodes, node_step(site, None))->Ok_0;
            assert forall|j: int| 0 <= j < y.1.len() implies nested_below(#[trigger] y.1[j], path, inst, cid) by {
                assert(y.1[j] == nr[j].1);
                assert(pn(nr[j]));
            }
        }
    }
    lemma_collect_preserves(scopes_view(d.scopes@), child_step(scopes[si].id, d.root_scope_id@, site), pc);
    let nr = collect(root.nodes, node_step(site, Some((entry, exit))))->Ok_0;
    let children = collect(scopes_view(d.scopes@), child_step(scopes[si].id, d.root_scope_id@, site))->Ok_0;
    assert forall|k: int, j: int| 0 <= k < seconds(children).len() && 0 <= j < seconds(children)[k].len()
        implies p(#[trigger] seconds(children)[k][j]) by {
        assert(seconds(children)[k] == children[k].1);
        assert(pc(children[k]));
    }
    lemma_flatten_preserves(seconds(children), p);
    let head = seconds(nr).push((inst, site.path.push((inst, site.cid, site.cver, exit))));
    assert(site.path.push((inst, site.cid, site.cver, exit)).drop_last() =~= site.path);
    let added = expand_spec(scopes, si, ni, records, instance, found)->Ok_0.1;
    assert(added == head + flatten_records(seconds(children)));
    assert(path.len() < MAX_COMPONENT_DEPTH);
    assert forall|i: int| 0 <= i < added.len() implies nested_below(#[trigger] added[i], path, inst, cid)
        && added[i].1.len() <= MAX_COMPONENT_DEPTH by {
        if i < seconds(nr).len() {
            assert(added[i] == nr[i].1);
            assert(pn(nr[i]));
        } else if i == seconds(nr).len() {
            assert(added[i] == head.last());
        } else {
            assert(added[i] == flatten_records(seconds(children))[i - head.len()]);
        }
    }
}

/// A node recorded in a later part of the records is looked up there.
proof fn lemma_lookup_in_suffix(r1: Seq<SourceRecord>, r2: Seq<SourceRecord>, x: Seq<char>, i: int)
    requires
        0 <= i < r2.len(),
        r2[i].0 == x,
    ensures
        exists|j: int| i <= j < r2.len() && r2[j].0 == x && path_lookup(r1 + r2, x) == Some(r2[j].1),
    decreases r2.len(),
{
    let all = r1 + r2;
    assert(all.last() == r2.last());
    if r2.last().0 == x {
        assert(path_lookup(all, x) == Some(r2[r2.len() - 1].1));
    } else {
        assert(i < r2.len() - 1);
        assert(all.drop_last() =~= r1 + r2.drop_last());
        lemma_lookup_in_suffix(r1, r2.drop_last(), x, i);
        let j = choose|j: int| i <= j < r2.drop_last().len() && r2.drop_last()[j].0 == x
            && path_lookup(r1 + r2.drop_last(), x) == Some(r2.drop_last()[j].1);
        assert(r2.drop_last()[j] == r2[j]);
    }
}

/// Law: once an instance is expanded, an execution event on any node the
/// expansion added is shown on the outermost component instance around it
/// (the first instance of the inherited path, or the expanded instance
/// itself at top level), keeping the expanded node it happened on.
pub proof fn lemma_expanded_events_show_outermost_instance(scopes: Seq<ScopeView>, si: int, ni: int,
    records: Seq<SourceRecord>, instance: ComponentInstance, found: Option<ComponentDefinition>, i: int)
    requires
        0 <= si < scopes.len(),
        0 <= ni < scopes[si].nodes.len(),
        expand_spec(scopes, si, ni, records, instance, found) is Ok,
        0 <= i < expand_spec(scopes, si, ni, records, instance, found)->Ok_0.1.len(),
    ensures
        ({
            let inst = scopes[si].nodes[ni].id;
            let path = match path_lookup(records, inst) { Some(p) => p, None => Seq::empty() };
            let added = expand_spec(scopes, si, ni, records, instance, found)->Ok_0.1;
            let shown = attribution(Some(added[i].0), records + added);
            &&& shown.0 == Some(if path.len() > 0 { path[0].0 } else { inst })
            &&& shown.1 == Some(added[i].0)
        }),
{
    let inst = scopes[si].nodes[ni].id;
    let path = match path_lookup(records, inst) { Some(p) => p, None => Seq::empty() };
    let added = expand_spec(scopes, si, ni, records, instance, found)->Ok_0.1;
    lemma_expansion_nests_one_level(scopes, si, ni, records, instance, found);
    lemma_lookup_in_suffix(records, added, added[i].0, i);
    let j = choose|j: int| i <= j < added.len() && added[j].0 == added[i].0
        && path_lookup(records + added, added[i].0) == Some(added[j].1);
    assert(nested_below(added[j], path, inst, instance.component_id));
    let p = added[j].1;
    assert(p.len() > 0);
    if path.len() > 0 {
        assert(p[0] == p.drop_last()[0]);
    } else {
        assert(p.len() == 1);
        assert(p[0] == p.last());
    }
}

/// The component ID that `uuid::Uuid::parse_str` reads from a text, if it
/// reads one.
pub uninterp spec fn uuid_value(text: Seq<char>) -> Option<u128>;

/// Calls `uuid::Uuid::parse_str`, which reads the simple, hyphenated, URN
/// and braced forms; its result, a function of the text alone, is named by
/// `uuid_value`.
#[verifier::external_body]
fn parse_uuid(text: &str) -> (r: Option<u128>)
    ensures
        r == uuid_value(text@),
{
    match uuid::Uuid::parse_str(text) {
        Ok(id) => Some(id.as_u128()),
        Err(_) => None,
    }
}

/// Failure of malformed instance settings.
pub open spec fn settings_failure(node: Seq<char>, detail: Seq<char>) -> Failure {
    (Some(node), "组合步骤的设置格式不正确："@ + detail)
}

/// Decoded instance settings: component ID, locked version and input
/// bindings.
pub type InstanceValue = (u128, Seq<char>, Seq<(Seq<char>, JsonView)>);

/// Value of a decoded instance.
pub open spec fn instance_view(i: ComponentInstance) -> InstanceValue {
    (i.component_id, i.component_version@, entry_views(i.inputs@))
}

/// The settings of an instance once its component ID text was read as
/// `parsed`: the ID must be a UUID, the version a text, and the inputs, when
/// present, an object of bindings.
pub open spec fn settings_spec(node: Seq<char>, entries: Seq<(Seq<char>, JsonView)>, parsed: Option<u128>)
    -> Result<InstanceValue, Failure> {
    match parsed {
        None => Err(settings_failure(node, "component_id 不是 UUID"@)),
        Some(cid) => match str_field(entries, "component_version"@) {
            None => Err(settings_failure(node, "缺少文本字段 component_version"@)),
            Some(v) => match view_lookup(entries, "inputs"@) {
                None => Ok((cid, v, Seq::empty())),
                Some(JsonView::Object(ins)) => Ok((cid, v, ins)),
                Some(_) => Err(settings_failure(node, "inputs 必须是对象"@)),
            },
        },
    }
}

/// Decoding an instance node: settings of version 2, an object payload
/// with a text `component_id`, then `settings_spec`.
pub open spec fn decode_spec(n: NodeView) -> Result<InstanceValue, Failure> {
    if n.version != 2 {
        Err((Some(n.id), "组合步骤的设置版本必须为 2"@))
    } else {
        match n.payload {
            JsonView::Object(e) => match str_field(e, "component_id"@) {
                None => Err(settings_failure(n.id, "缺少文本字段 component_id"@)),
                Some(t) => settings_spec(n.id, e, uuid_value(t)),
            },
            _ => Err(settings_failure(n.id, "设置必须是对象"@)),
        }
    }
}

/// An instance result agrees with its specified value.
pub open spec fn instance_result(r: Result<ComponentInstance, ComponentExpansionError>, s: Result<InstanceValue, Failure>) -> bool {
    match s {
        Ok(v) => r matches Ok(i) && instance_view(i) == v,
        Err(v) => r matches Err(e) && err_view(e) == v,
    }
}

/// Builds an instance from its settings once the component ID was read.
pub fn instance_from_settings(node_id: &str, entries: &Vec<(String, JsonValue)>, parsed: Option<u128>)
    -> (r: Result<ComponentInstance, ComponentExpansionError>)
    ensures
        instance_result(r, settings_spec(node_id@, entry_views(entries@), parsed)),
{
    let fail = "组合步骤的设置格式不正确：";
    let component_id = match parsed {
        Some(id) => id,
        None => { return Err(ComponentExpansionError::at(node_id, joined(fail, "component_id 不是 UUID"))); },
    };
    let version = match field_text(entries, "component_version") {
        Some(v) => v.clone(),
        None => { return Err(ComponentExpansionError::at(node_id, joined(fail, "缺少文本字段 component_version"))); },
    };
    let mut inputs: Vec<(String, JsonValue)> = Vec::new();
    match find_field(entries, "inputs") {
        None => {
            assert(entry_views(inputs@) =~= Seq::<(Seq<char>, JsonView)>::empty());
        },
        Some(i) => match &entries[i].1 {
            JsonValue::Object(bindings) => {
                proof { lemma_object_view(entries@[i as int].1); }
                let mut k: usize = 0;
                while k < bindings.len()
                    invariant
                        k <= bindings@.len(),
                        entry_views(inputs@) =~= entry_views(bindings@).take(k as int),
                    decreases bindings@.len() - k,
                {
                    let ghost before = inputs@;
                    let value = copy_json(&bindings[k].1);
                    inputs.push((bindings[k].0.clone(), value));
                    assert(entry_views(inputs@) =~= entry_views(before).push((bindings@[k as int].0@, jview(bindings@[k as int].1))));
                    k += 1;
                }
                assert(entry_views(bindings@).take(k as int) =~= entry_views(bindings@));
            },
            _ => { return Err(ComponentExpansionError::at(node_id, joined(fail, "inputs 必须是对象"))); },
        },
    }
    Ok(ComponentInstance { component_id, component_version: version, inputs })
}

/// Decodes the settings of a component instance node.
pub fn decode_instance(node: &WorkflowNode) -> (r: Result<ComponentInstance, ComponentExpansionError>)
    ensures
        instance_result(r, decode_spec(node_view(*node))),
{
    if node.version != 2 {
        return Err(ComponentExpansionError::at(node.id.as_str(), owned("组合步骤的设置版本必须为 2")));
    }
    match &node.payload {
        JsonValue::Object(entries) => {
            proof { lemma_object_view(node.payload); }
            let text = match field_text(entries, "component_id") {
                Some(t) => t,
                None => {
                    return Err(ComponentExpansionError::at(node.id.as_str(),
                        joined("组合步骤的设置格式不正确：", "缺少文本字段 component_id")));
                },
            };
            let parsed = parse_uuid(text.as_str());
            instance_from_settings(node.id.as_str(), entries, parsed)
        },
        _ => Err(ComponentExpansionError::at(node.id.as_str(), joined("组合步骤的设置格式不正确：", "设置必须是对象"))),
    }
}

/// A successful expansion records at least the output proxy.
proof fn lemma_expansion_adds_records(scopes: Seq<ScopeView>, si: int, ni: int, records: Seq<SourceRecord>,
    instance: ComponentInstance, found: Option<ComponentDefinition>)
    requires
        expand_spec(scopes, si, ni, records, instance, found) is Ok,
    ensures
        expand_spec(scopes, si, ni, records, instance, found)->Ok_0.1.len() >= 1,
{
}

/// No node of any scope is a component instance.
pub open spec fn no_instances(scopes: Seq<FlowScope>) -> bool {
    forall|t: int, m: int| 0 <= t < scopes.len() && 0 <= m < scopes[t].nodes@.len()
        ==> !is_instance(#[trigger] scopes[t].nodes@[m])
}

/// Every recorded component path is at most the nesting limit deep.
pub open spec fn paths_bounded(records: Seq<SourceRecord>) -> bool {
    forall|i: int| 0 <= i < records.len() ==> (#[trigger] records[i]).1.len() <= MAX_COMPONENT_DEPTH
}

/// Expands every component instance of all scopes, one at a time and
/// without recursion, always the first instance left; the first failure
/// stops it. The result holds no instance, and every expanded node is
/// mapped to its component path, never deeper than the nesting limit.
pub fn expand_components(scopes: Vec<FlowScope>, registry: &ComponentRegistry)
    -> (r: Result<(Vec<FlowScope>, ComponentSourceMap), ComponentExpansionError>)
    requires
        catalogue_wf(registry@),
    ensures
        r matches Ok((s, m)) ==> no_instances(s@) && paths_bounded(records_view(m.nodes@)),
{
    let mut scopes = scopes;
    let mut source_map = ComponentSourceMap::new();
    assert(records_view(source_map.nodes@) =~= Seq::<SourceRecord>::empty());
    loop
        invariant
            catalogue_wf(registry@),
            source_map.nodes@.len() <= usize::MAX,
            paths_bounded(records_view(source_map.nodes@)),
        decreases usize::MAX - source_map.nodes@.len(),
    {
        let (scope_index, node_index) = match next_component_instance(&scopes) {
            None => { return Ok((scopes, source_map)); },
            Some(at) => at,
        };
        let instance = match decode_instance(&scopes[scope_index].nodes[node_index]) {
            Ok(i) => i,
            Err(e) => { return Err(e); },
        };
        let ghost before = records_view(source_map.nodes@);
        let ghost sv = scopes_view(scopes@);
        let ghost found = resolved(registry@, instance.component_id, instance.component_version@);
        match expand_instance(&mut scopes, scope_index, node_index, &instance, registry, &mut source_map) {
            Ok(()) => {},
            Err(e) => { return Err(e); },
        }
        proof {
            lemma_expansion_nests_one_level(sv, scope_index as int, node_index as int, before, instance, found);
            let added = expand_spec(sv, scope_index as int, node_index as int, before, instance, found)->Ok_0.1;
            assert(records_view(source_map.nodes@) == before + added);
            assert forall|i: int| 0 <= i < (before + added).len() implies (#[trigger] (before + added)[i]).1.len()
                <= MAX_COMPONENT_DEPTH by {
                if i < before.len() {
                    assert((before + added)[i] == before[i]);
                } else {
                    assert((before + added)[i] == added[i - before.len()]);
                }
            }
            lemma_expansion_adds_records(sv, scope_index as int, node_index as int, before, instance, found);
        }
        let n = source_map.nodes.len();
    }
}

} // verus!
