//! Reusable workflow components: an exact-version catalogue and the
//! structural bookkeeping of expanding a component instance into its
//! containing workflow, with stable source frames for every expanded node.

use vstd::prelude::*;
use vstd::string::*;
use crate::graph::{ScopeBoundary, WorkflowEdge, FlowScope};
use crate::json::JsonValue;
use crate::text::{is_blank, is_blank_text, joined, owned, text_equal};
use crate::rewrite::{id_lookup, pairs_view};
use crate::graph::{boundary_view, edge_view, edge_views, BoundaryView, EdgeView};

verus! {

/// Most levels of nested components; While nesting does not count.
pub const MAX_COMPONENT_DEPTH: usize = 8;

/// Whether a character is an ASCII digit.
pub open spec fn is_ascii_digit(c: char) -> bool {
    '0' <= c && c <= '9'
}

/// `i` and `j` are the two dots of an exact `major.minor.patch` version:
/// three non-empty runs of ASCII digits around them.
pub open spec fn version_dots(s: Seq<char>, i: int, j: int) -> bool {
    &&& 0 < i && i + 1 < j && j + 1 < s.len()
    &&& s[i] == '.' && s[j] == '.'
    &&& forall|k: int| 0 <= k < s.len() && k != i && k != j ==> is_ascii_digit(#[trigger] s[k])
}

/// An exact `major.minor.patch` version; ranges, tags and an implicit
/// latest are refused.
pub open spec fn exact_version(s: Seq<char>) -> bool {
    exists|i: int, j: int| version_dots(s, i, j)
}

/// Checks that a version is an exact `major.minor.patch` triple.
pub fn is_exact_version(value: &str) -> (b: bool)
    ensures
        b == exact_version(value@),
{
    let s = value;
    let n = s.unicode_len();
    let mut dots: usize = 0;
    let mut first: usize = 0;
    let mut second: usize = 0;
    let mut k: usize = 0;
    while k < n
        invariant
            s@ == value@,
            n == s@.len(),
            k <= n,
            dots <= 2,
            dots >= 1 ==> first < k && s@[first as int] == '.',
            dots >= 2 ==> first < second && second < k && s@[second as int] == '.',
            forall|m: int| 0 <= m < k && !(dots >= 1 && m == first) && !(dots >= 2 && m == second)
                ==> is_ascii_digit(#[trigger] s@[m]),
        decreases n - k,
    {
        let c = s.get_char(k);
        if c == '.' {
            if dots == 0 {
                first = k;
                dots = 1;
            } else if dots == 1 {
                second = k;
                dots = 2;
            } else {
                proof {
                    if exact_version(s@) {
                        let (i, j) = choose|i: int, j: int| version_dots(s@, i, j);
                        assert(!is_ascii_digit(s@[k as int]));
                        assert(!is_ascii_digit(s@[first as int]));
                        assert(!is_ascii_digit(s@[second as int]));
                    }
                }
                return false;
            }
        } else if !('0' <= c && c <= '9') {
            proof {
                if exact_version(s@) {
                    let (i, j) = choose|i: int, j: int| version_dots(s@, i, j);
                    assert(!is_ascii_digit(s@[k as int]));
                }
            }
            return false;
        }
        k += 1;
    }
    let ok = dots == 2 && first > 0 && first + 1 < second && second + 1 < n;
    proof {
        if ok {
            assert(version_dots(s@, first as int, second as int));
            assert(exact_version(s@));
        } else if exact_version(s@) {
            let (i, j) = choose|i: int, j: int| version_dots(s@, i, j);
            assert(!is_ascii_digit(s@[i]));
            assert(!is_ascii_digit(s@[j]));
            if dots >= 1 {
                assert(!is_ascii_digit(s@[first as int]));
            }
            if dots >= 2 {
                assert(!is_ascii_digit(s@[second as int]));
            }
        }
    }
    ok
}

/// A published component output: name and value expression.
#[derive(Debug)]
pub struct ComponentOutput {
    /// Public output name.
    pub name: String,
    /// Value expression over the component's inner nodes, as JSON.
    pub value: JsonValue,
}

/// A frozen reusable component.
#[derive(Debug)]
pub struct ComponentDefinition {
    /// Stable component ID.
    pub id: u128,
    /// Exact published version.
    pub version: String,
    /// Persisted format version; 2 is supported.
    pub schema_version: u32,
    /// Display name.
    pub name: String,
    /// Root scope of the component graph.
    pub root_scope_id: String,
    /// Scopes of the component graph.
    pub scopes: Vec<FlowScope>,
    /// Declared input keys.
    pub inputs: Vec<String>,
    /// Declared outputs.
    pub outputs: Vec<ComponentOutput>,
}

/// Catalogue key of a definition: stable ID and exact version.
pub open spec fn def_key(d: ComponentDefinition) -> (u128, Seq<char>) {
    (d.id, d.version@)
}

/// `i` is the position of the definition registered under `key`.
pub open spec fn holds_key(defs: Seq<ComponentDefinition>, key: (u128, Seq<char>), i: int) -> bool {
    0 <= i < defs.len() && def_key(defs[i]) == key
}

/// Every key is registered at most once and every version is exact.
pub open spec fn catalogue_wf(defs: Seq<ComponentDefinition>) -> bool {
    &&& forall|i: int, j: int| 0 <= i < j < defs.len() ==> def_key(#[trigger] defs[i]) != def_key(#[trigger] defs[j])
    &&& forall|i: int| 0 <= i < defs.len() ==> exact_version((#[trigger] defs[i]).version@)
}

/// Why a catalogue cannot give every instance one exact definition.
#[derive(Debug)]
pub enum ComponentRegistryError {
    /// The published version is not a strict `major.minor.patch` triple.
    InvalidVersion {
        /// The refused version.
        version: String,
    },
    /// The same ID and exact version were defined more than once.
    DuplicateDefinition {
        /// Conflicting component.
        component_id: u128,
        /// Conflicting version.
        version: String,
    },
}

/// Read-only catalogue keyed by stable component ID and exact version.
#[derive(Debug)]
pub struct ComponentRegistry {
    /// Registered definitions in registration order.
    definitions: Vec<ComponentDefinition>,
}

impl View for ComponentRegistry {
    type V = Seq<ComponentDefinition>;

    closed spec fn view(&self) -> Seq<ComponentDefinition> {
        self.definitions@
    }
}

impl ComponentRegistry {
    /// An empty catalogue; workflows without components need nothing more.
    pub fn new() -> (r: ComponentRegistry)
        ensures
            r@.len() == 0,
            catalogue_wf(r@),
    {
        ComponentRegistry { definitions: Vec::new() }
    }

    /// Builds the catalogue of the frozen definitions shipped with one run;
    /// the first refused definition decides the error.
    pub fn from_definitions(definitions: Vec<ComponentDefinition>) -> (r: Result<ComponentRegistry, ComponentRegistryError>)
        ensures
            match r {
                Ok(reg) => reg@ == definitions@ && catalogue_wf(reg@),
                Err(_) => !catalogue_wf(definitions@),
            },
    {
        let mut registry = ComponentRegistry::new();
        let mut rest = definitions;
        let ghost all = rest@;
        let mut taken: usize = 0;
        let total = rest.len();
        assert(all.skip(0) =~= all);
        while rest.len() > 0
            invariant
                total == all.len(),
                taken + rest@.len() == all.len(),
                rest@ == all.skip(taken as int),
                all == definitions@,
                registry@ == all.take(taken as int),
                catalogue_wf(registry@),
            decreases rest@.len(),
        {
            let definition = rest.remove(0);
            assert(all.skip(taken as int)[0] == all[taken as int]);
            assert(all.skip(taken as int).drop_first() =~= all.skip(taken + 1));
            let ghost d = definition;
            match registry.register(definition) {
                Ok(()) => {},
                Err(e) => {
                    proof {
                        if catalogue_wf(all) {
                            if !exact_version(d.version@) {
                                assert(all[taken as int] == d);
                            } else {
                                let i = choose|i: int| holds_key(all.take(taken as int), def_key(d), i);
                                assert(all.take(taken as int)[i] == all[i]);
                                assert(all[taken as int] == d);
                                assert(def_key(all[i]) != def_key(all[taken as int]));
                            }
                        }
                    }
                    return Err(e);
                },
            }
            assert(all.take(taken + 1) =~= all.take(taken as int).push(d));
            taken += 1;
        }
        assert(all.take(all.len() as int) =~= all);
        Ok(registry)
    }

    /// Registers one exact version; the same ID and version may not be
    /// replaced by later content.
    pub fn register(&mut self, definition: ComponentDefinition) -> (r: Result<(), ComponentRegistryError>)
        requires
            catalogue_wf(old(self)@),
        ensures
            catalogue_wf(final(self)@),
            match r {
                Ok(()) => final(self)@ == old(self)@.push(definition) && exact_version(definition.version@)
                    && forall|i: int| 0 <= i < old(self)@.len() ==> def_key(#[trigger] old(self)@[i]) != def_key(definition),
                Err(ComponentRegistryError::InvalidVersion { version }) => final(self)@ == old(self)@
                    && !exact_version(definition.version@) && version@ == definition.version@,
                Err(ComponentRegistryError::DuplicateDefinition { component_id, version }) => final(self)@ == old(self)@
                    && exact_version(definition.version@) && component_id == definition.id
                    && version@ == definition.version@
                    && exists|i: int| holds_key(old(self)@, def_key(definition), i),
            },
    {
        if !is_exact_version(definition.version.as_str()) {
            return Err(ComponentRegistryError::InvalidVersion { version: definition.version });
        }
        match self.position(definition.id, definition.version.as_str()) {
            Some(i) => {
                assert(holds_key(self@, def_key(definition), i as int));
                return Err(ComponentRegistryError::DuplicateDefinition {
                    component_id: definition.id,
                    version: definition.version,
                });
            },
            None => {},
        }
        self.definitions.push(definition);
        proof {
            assert forall|i: int, j: int| 0 <= i < j < self@.len() implies def_key(#[trigger] self@[i]) != def_key(#[trigger] self@[j]) by {
                if j == old(self)@.len() {
                    assert(self@[i] == old(self)@[i]);
                } else {
                    assert(self@[i] == old(self)@[i]);
                    assert(self@[j] == old(self)@[j]);
                }
            }
            assert forall|i: int| 0 <= i < self@.len() implies exact_version((#[trigger] self@[i]).version@) by {
                if i < old(self)@.len() {
                    assert(self@[i] == old(self)@[i]);
                }
            }
        }
        Ok(())
    }

    /// Position of the definition registered under `(id, version)`.
    fn position(&self, id: u128, version: &str) -> (r: Option<usize>)
        ensures
            match r {
                Some(i) => holds_key(self@, (id, version@), i as int),
                None => forall|i: int| 0 <= i < self@.len() ==> def_key(#[trigger] self@[i]) != (id, version@),
            },
    {
        let mut i: usize = 0;
        while i < self.definitions.len()
            invariant
                i <= self@.len(),
                self@ == self.definitions@,
                forall|j: int| 0 <= j < i ==> def_key(#[trigger] self@[j]) != (id, version@),
            decreases self@.len() - i,
        {
            let d = &self.definitions[i];
            if d.id == id && text_equal(d.version.as_str(), version) {
                return Some(i);
            }
            i += 1;
        }
        None
    }

    /// Resolves exactly the version an instance is locked to; no ranges and
    /// no latest.
    pub fn resolve(&self, component_id: u128, version: &str) -> (r: Option<&ComponentDefinition>)
        ensures
            match r {
                Some(d) => exists|i: int| holds_key(self@, (component_id, version@), i) && self@[i] == *d,
                None => forall|i: int| 0 <= i < self@.len() ==> def_key(#[trigger] self@[i]) != (component_id, version@),
            },
    {
        match self.position(component_id, version) {
            Some(i) => Some(&self.definitions[i]),
            None => None,
        }
    }
}

/// Law: once a definition is registered, resolving its ID and version
/// finds exactly it, and it stays the only definition under that key.
pub proof fn lemma_resolve_after_register(before: Seq<ComponentDefinition>, d: ComponentDefinition, after: Seq<ComponentDefinition>)
    requires
        catalogue_wf(before),
        after == before.push(d),
        forall|i: int| 0 <= i < before.len() ==> def_key(#[trigger] before[i]) != def_key(d),
    ensures
        holds_key(after, def_key(d), before.len() as int),
        after[before.len() as int] == d,
        forall|i: int| holds_key(after, def_key(d), i) ==> i == before.len(),
{
    assert forall|i: int| holds_key(after, def_key(d), i) implies i == before.len() by {
        if i < before.len() {
            assert(after[i] == before[i]);
        }
    }
}

/// One nesting level a node was expanded through.
#[derive(Debug, Clone)]
pub struct ComponentSourceFrame {
    /// Node ID of this level's component instance in the expanded graph.
    pub instance_node_id: String,
    /// Stable ID of this level's component.
    pub component_id: u128,
    /// Exact version this level's instance is locked to.
    pub component_version: String,
    /// The node's direct inner ID in this level's component definition.
    pub inner_node_id: String,
}

/// Read-only map from each expanded node to its component path, outermost first.
#[derive(Debug)]
pub struct ComponentSourceMap {
    /// (expanded node ID, component path) entries in recording order.
    pub nodes: Vec<(String, Vec<ComponentSourceFrame>)>,
}

/// The path recorded for `node`: the most recent record wins.
pub open spec fn path_lookup(records: Seq<(Seq<char>, Seq<(Seq<char>, u128, Seq<char>, Seq<char>)>)>, node: Seq<char>)
    -> Option<Seq<(Seq<char>, u128, Seq<char>, Seq<char>)>>
    decreases records.len(),
{
    if records.len() == 0 {
        None
    } else if records.last().0 == node {
        Some(records.last().1)
    } else {
        path_lookup(records.drop_last(), node)
    }
}

impl ComponentSourceMap {
    /// An empty map.
    pub fn new() -> (m: ComponentSourceMap)
        ensures
            m.nodes@.len() == 0,
    {
        ComponentSourceMap { nodes: Vec::new() }
    }

    /// The component path of an expanded node, outermost first.
    pub fn get(&self, expanded_node_id: &str) -> (r: Option<&Vec<ComponentSourceFrame>>)
        ensures
            match path_lookup(records_view(self.nodes@), expanded_node_id@) {
                Some(p) => r matches Some(x) && path_view(x@) == p,
                None => r is None,
            },
    {
        let ghost rv = records_view(self.nodes@);
        let mut i = self.nodes.len();
        assert(rv.take(i as int) =~= rv);
        while i > 0
            invariant
                i <= self.nodes@.len(),
                rv == records_view(self.nodes@),
                path_lookup(rv, expanded_node_id@) == path_lookup(rv.take(i as int), expanded_node_id@),
            decreases i,
        {
            let ghost t = rv.take(i as int);
            assert(t.last() == rv[i - 1]);
            assert(t.drop_last() =~= rv.take(i - 1));
            i -= 1;
            if text_equal(self.nodes[i].0.as_str(), expanded_node_id) {
                return Some(&self.nodes[i].1);
            }
        }
        assert(rv.take(0).len() == 0);
        None
    }
}

/// Where an execution event is shown in the nested editor.
#[derive(Debug)]
pub struct EventSource {
    /// Node the event is shown on: the outermost component instance when
    /// the event happened on an expanded node.
    pub node_id: Option<String>,
    /// The expanded node the event happened on, when it is shown on an instance.
    pub expanded_node_id: Option<String>,
    /// Component path of that expanded node, outermost first.
    pub component_path: Vec<ComponentSourceFrame>,
}

/// Text of an optional text.
pub open spec fn opt_text(t: Option<&str>) -> Option<Seq<char>> {
    match t {
        Some(x) => Some(x@),
        None => None,
    }
}

/// Text of an optional owned text.
pub open spec fn opt_string(t: Option<String>) -> Option<Seq<char>> {
    match t {
        Some(x) => Some(x@),
        None => None,
    }
}

/// An event on a node with a recorded, non-empty component path is shown on
/// the outermost instance of that path, keeping the expanded node and the
/// path; any other event stays where it happened.
pub open spec fn attribution(node: Option<Seq<char>>, records: Seq<(Seq<char>, Seq<(Seq<char>, u128, Seq<char>, Seq<char>)>)>)
    -> (Option<Seq<char>>, Option<Seq<char>>, Seq<(Seq<char>, u128, Seq<char>, Seq<char>)>) {
    match node {
        Some(id) => match path_lookup(records, id) {
            Some(p) => if p.len() > 0 { (Some(p[0].0), Some(id), p) } else { (Some(id), None, Seq::empty()) },
            None => (Some(id), None, Seq::empty()),
        },
        None => (None, None, Seq::empty()),
    }
}

/// Value of an event source.
pub open spec fn event_source_view(e: EventSource)
    -> (Option<Seq<char>>, Option<Seq<char>>, Seq<(Seq<char>, u128, Seq<char>, Seq<char>)>) {
    (opt_string(e.node_id), opt_string(e.expanded_node_id), path_view(e.component_path@))
}

/// An event shown on the node it happened on.
fn unattributed(id: &str) -> (e: EventSource)
    ensures
        event_source_view(e) == (Some(id@), None::<Seq<char>>, Seq::<(Seq<char>, u128, Seq<char>, Seq<char>)>::empty()),
{
    let e = EventSource { node_id: Some(owned(id)), expanded_node_id: None, component_path: Vec::new() };
    assert(path_view(e.component_path@) =~= Seq::<(Seq<char>, u128, Seq<char>, Seq<char>)>::empty());
    e
}

/// Maps an event's node back to the nested editor through the source map.
pub fn attribute_event(node_id: Option<&str>, source_map: &ComponentSourceMap) -> (r: EventSource)
    ensures
        event_source_view(r) == attribution(opt_text(node_id), records_view(source_map.nodes@)),
{
    match node_id {
        None => {
            let e = EventSource { node_id: None, expanded_node_id: None, component_path: Vec::new() };
            assert(path_view(e.component_path@) =~= Seq::<(Seq<char>, u128, Seq<char>, Seq<char>)>::empty());
            e
        },
        Some(id) => match source_map.get(id) {
            Some(path) => {
                if path.len() > 0 {
                    assert(path_view(path@)[0] == frame_view(path@[0]));
                    EventSource {
                        node_id: Some(path[0].instance_node_id.clone()),
                        expanded_node_id: Some(owned(id)),
                        component_path: copy_path(path),
                    }
                } else {
                    unattributed(id)
                }
            },
            None => unattributed(id),
        },
    }
}

/// Copies a source frame.
fn copy_frame(f: &ComponentSourceFrame) -> (c: ComponentSourceFrame)
    ensures
        c.instance_node_id@ == f.instance_node_id@,
        c.component_id == f.component_id,
        c.component_version@ == f.component_version@,
        c.inner_node_id@ == f.inner_node_id@,
{
    ComponentSourceFrame {
        instance_node_id: f.instance_node_id.clone(),
        component_id: f.component_id,
        component_version: f.component_version.clone(),
        inner_node_id: f.inner_node_id.clone(),
    }
}

/// Copies a component path.
pub fn copy_path(p: &Vec<ComponentSourceFrame>) -> (c: Vec<ComponentSourceFrame>)
    ensures
        path_view(c@) == path_view(p@),
{
    let mut out: Vec<ComponentSourceFrame> = Vec::new();
    let mut i: usize = 0;
    while i < p.len()
        invariant
            i <= p@.len(),
            path_view(out@) == path_view(p@).take(i as int),
        decreases p@.len() - i,
    {
        let ghost before = out@;
        out.push(copy_frame(&p[i]));
        assert(path_view(out@) =~= path_view(before).push(frame_view(p@[i as int])));
        assert(path_view(p@).take(i + 1) =~= path_view(p@).take(i as int).push(frame_view(p@[i as int])));
        i += 1;
    }
    assert(path_view(p@).take(i as int) =~= path_view(p@));
    out
}

/// Value of a source frame: instance node, component ID, version, inner node.
pub open spec fn frame_view(f: ComponentSourceFrame) -> (Seq<char>, u128, Seq<char>, Seq<char>) {
    (f.instance_node_id@, f.component_id, f.component_version@, f.inner_node_id@)
}

/// Value of a component path.
pub open spec fn path_view(p: Seq<ComponentSourceFrame>) -> Seq<(Seq<char>, u128, Seq<char>, Seq<char>)> {
    p.map_values(|f: ComponentSourceFrame| frame_view(f))
}

/// Value of source records: each expanded node with its path.
pub open spec fn records_view(r: Seq<(String, Vec<ComponentSourceFrame>)>)
    -> Seq<(Seq<char>, Seq<(Seq<char>, u128, Seq<char>, Seq<char>)>)> {
    r.map_values(|e: (String, Vec<ComponentSourceFrame>)| (e.0@, path_view(e.1@)))
}

/// The record of `expanded_id`: the inherited outer path, then the frame of
/// `inner_node_id` in the instance of the component.
pub fn source_entry(
    expanded_id: &str,
    inherited_path: &Vec<ComponentSourceFrame>,
    instance_node_id: &str,
    component_id: u128,
    component_version: &str,
    inner_node_id: &str,
) -> (r: (String, Vec<ComponentSourceFrame>))
    ensures
        r.0@ == expanded_id@,
        path_view(r.1@) == path_view(inherited_path@).push(
            (instance_node_id@, component_id, component_version@, inner_node_id@)),
{
    let mut path: Vec<ComponentSourceFrame> = Vec::new();
    let mut i: usize = 0;
    while i < inherited_path.len()
        invariant
            i <= inherited_path@.len(),
            path_view(path@) == path_view(inherited_path@).take(i as int),
        decreases inherited_path@.len() - i,
    {
        let ghost before = path@;
        path.push(copy_frame(&inherited_path[i]));
        assert(path_view(path@) =~= path_view(before).push(frame_view(inherited_path@[i as int])));
        assert(path_view(inherited_path@).take(i + 1) =~= path_view(inherited_path@).take(i as int).push(frame_view(inherited_path@[i as int])));
        i += 1;
    }
    assert(path_view(inherited_path@).take(i as int) =~= path_view(inherited_path@));
    let ghost before = path@;
    let frame = ComponentSourceFrame {
        instance_node_id: owned(instance_node_id),
        component_id,
        component_version: owned(component_version),
        inner_node_id: owned(inner_node_id),
    };
    path.push(frame);
    assert(path_view(path@) =~= path_view(before).push(frame_view(frame)));
    (owned(expanded_id), path)
}

/// Records that `expanded_id` comes from `inner_node_id` of the instance
/// `instance_node_id` of component `(component_id, component_version)`,
/// below the inherited outer path.
pub fn record_source(
    source_map: &mut ComponentSourceMap,
    expanded_id: &str,
    inherited_path: &Vec<ComponentSourceFrame>,
    instance_node_id: &str,
    component_id: u128,
    component_version: &str,
    inner_node_id: &str,
)
    ensures
        records_view(final(source_map).nodes@) == records_view(old(source_map).nodes@).push(
            (expanded_id@, path_view(inherited_path@).push((instance_node_id@, component_id, component_version@, inner_node_id@)))),
{
    let entry = source_entry(expanded_id, inherited_path, instance_node_id, component_id, component_version, inner_node_id);
    let ghost before = source_map.nodes@;
    source_map.nodes.push(entry);
    assert(records_view(source_map.nodes@) =~= records_view(before).push((entry.0@, path_view(entry.1@))));
}

/// A locatable expansion failure.
#[derive(Debug, Clone)]
pub struct ComponentExpansionError {
    /// Component instance node in the parent graph, if known.
    pub node_id: Option<String>,
    /// Safe explanation without business values.
    pub message: String,
}

/// The error is located at the given component instance.
pub open spec fn located_at(e: ComponentExpansionError, node: Seq<char>) -> bool {
    match e.node_id {
        Some(n) => n@ == node,
        None => false,
    }
}

impl ComponentExpansionError {
    /// An expansion error located at a component instance.
    pub fn at(node_id: &str, message: String) -> (e: ComponentExpansionError)
        ensures
            located_at(e, node_id@),
            e.message@ == message@,
    {
        ComponentExpansionError { node_id: Some(owned(node_id)), message }
    }
}

/// ID of an inner scope, node or edge once nested under an instance.
pub open spec fn namespaced(instance: Seq<char>, inner: Seq<char>) -> Seq<char> {
    instance + "::"@ + inner
}

/// Builds the nested ID `instance::inner`.
pub fn namespace(instance_node_id: &str, inner_id: &str) -> (r: String)
    ensures
        r@ == namespaced(instance_node_id@, inner_id@),
{
    let head = joined(instance_node_id, "::");
    joined(head.as_str(), inner_id)
}

/// Value of an expansion failure: the instance it is located at, if any,
/// and its message.
pub open spec fn err_view(e: ComponentExpansionError) -> (Option<Seq<char>>, Seq<char>) {
    (match e.node_id { Some(n) => Some(n@), None => None }, e.message@)
}

/// The failure of a structural reference to an ID the component does not have.
pub open spec fn unknown_id(inst: Seq<char>, id: Seq<char>) -> (Option<Seq<char>>, Seq<char>) {
    (Some(inst), "组件结构引用未知 ID '"@ + id + "'"@)
}

/// A required ID mapping: the expanded ID, or a failure at the instance.
pub open spec fn mapped_spec(map: Seq<(Seq<char>, Seq<char>)>, id: Seq<char>, inst: Seq<char>)
    -> Result<Seq<char>, (Option<Seq<char>>, Seq<char>)> {
    match id_lookup(map, id) {
        Some(t) => Ok(t),
        None => Err(unknown_id(inst, id)),
    }
}

/// A text result agrees with its specified value.
pub open spec fn text_result(r: Result<String, ComponentExpansionError>, s: Result<Seq<char>, (Option<Seq<char>>, Seq<char>)>) -> bool {
    match s {
        Ok(t) => r matches Ok(x) && x@ == t,
        Err(v) => r matches Err(e) && err_view(e) == v,
    }
}

/// Maps every element of `s` with `f`, skipping those `f` leaves out; the
/// first failure in order decides.
pub open spec fn collect<A, B>(s: Seq<A>, f: spec_fn(A) -> Option<Result<B, (Option<Seq<char>>, Seq<char>)>>)
    -> Result<Seq<B>, (Option<Seq<char>>, Seq<char>)>
    decreases s.len(),
{
    if s.len() == 0 {
        Ok(Seq::empty())
    } else {
        match collect(s.drop_last(), f) {
            Err(x) => Err(x),
            Ok(p) => match f(s.last()) {
                None => Ok(p),
                Some(Err(x)) => Err(x),
                Some(Ok(y)) => Ok(p.push(y)),
            },
        }
    }
}

/// One more element of a collection.
pub proof fn lemma_collect_step<A, B>(s: Seq<A>, f: spec_fn(A) -> Option<Result<B, (Option<Seq<char>>, Seq<char>)>>, i: int)
    requires
        0 <= i < s.len(),
    ensures
        collect(s.take(i + 1), f) == match collect(s.take(i), f) {
            Err(x) => Err(x),
            Ok(p) => match f(s[i]) {
                None => Ok(p),
                Some(Err(x)) => Err(x),
                Some(Ok(y)) => Ok(p.push(y)),
            },
        },
{
    assert(s.take(i + 1).drop_last() =~= s.take(i));
    assert(s.take(i + 1).last() == s[i]);
}

/// A failure in a prefix decides the whole collection.
pub proof fn lemma_collect_err_stays<A, B>(s: Seq<A>, f: spec_fn(A) -> Option<Result<B, (Option<Seq<char>>, Seq<char>)>>, i: int)
    requires
        0 <= i <= s.len(),
        collect(s.take(i), f) is Err,
    ensures
        collect(s, f) == collect(s.take(i), f),
    decreases s.len() - i,
{
    if i < s.len() {
        lemma_collect_step(s, f, i);
        lemma_collect_err_stays(s, f, i + 1);
    } else {
        assert(s.take(i) =~= s);
    }
}

/// The whole sequence is its longest prefix.
pub proof fn lemma_collect_all<A, B>(s: Seq<A>, f: spec_fn(A) -> Option<Result<B, (Option<Seq<char>>, Seq<char>)>>)
    ensures
        collect(s.take(s.len() as int), f) == collect(s, f),
{
    assert(s.take(s.len() as int) =~= s);
}

/// Mapping from inner IDs to their expanded IDs, in insertion order; the
/// latest entry for a key wins.
pub open spec fn maps_to(map: Seq<(String, String)>, id: Seq<char>, i: int) -> bool {
    0 <= i < map.len() && map[i].0@ == id
        && forall|j: int| i < j < map.len() ==> (#[trigger] map[j]).0@ != id
}

/// The latest mapping of an ID is what the lookup finds.
pub proof fn lemma_maps_to_lookup(map: Seq<(String, String)>, id: Seq<char>, i: int)
    requires
        maps_to(map, id, i),
    ensures
        id_lookup(pairs_view(map), id) == Some(map[i].1@),
    decreases map.len(),
{
    assert(pairs_view(map).drop_last() =~= pairs_view(map.drop_last()));
    if i < map.len() - 1 {
        assert(map[map.len() - 1].0@ != id);
        assert(maps_to(map.drop_last(), id, i));
        lemma_maps_to_lookup(map.drop_last(), id, i);
    }
}

/// An ID that no entry maps has no lookup.
pub proof fn lemma_absent_lookup(map: Seq<(String, String)>, id: Seq<char>)
    requires
        forall|i: int| 0 <= i < map.len() ==> (#[trigger] map[i]).0@ != id,
    ensures
        id_lookup(pairs_view(map), id) is None,
    decreases map.len(),
{
    if map.len() > 0 {
        assert(pairs_view(map).drop_last() =~= pairs_view(map.drop_last()));
        assert(map[map.len() - 1].0@ != id);
        assert forall|i: int| 0 <= i < map.drop_last().len() implies (#[trigger] map.drop_last()[i]).0@ != id by {
            assert(map.drop_last()[i] == map[i]);
        }
        lemma_absent_lookup(map.drop_last(), id);
    }
}

/// Looks up a required ID mapping; a missing ID is located at the instance.
pub fn mapped<'a>(map: &'a Vec<(String, String)>, id: &str, instance_node_id: &str) -> (r: Result<&'a String, ComponentExpansionError>)
    ensures
        match mapped_spec(pairs_view(map@), id@, instance_node_id@) {
            Ok(t) => r matches Ok(x) && x@ == t,
            Err(v) => r matches Err(e) && err_view(e) == v,
        },
{
    let mut i = map.len();
    while i > 0
        invariant
            i <= map@.len(),
            forall|j: int| i <= j < map@.len() ==> (#[trigger] map@[j]).0@ != id@,
        decreases i,
    {
        i -= 1;
        if text_equal(map[i].0.as_str(), id) {
            assert(maps_to(map@, id@, i as int));
            proof { lemma_maps_to_lookup(map@, id@, i as int); }
            return Ok(&map[i].1);
        }
    }
    proof { lemma_absent_lookup(map@, id@); }
    let m = joined(joined("组件结构引用未知 ID '", id).as_str(), "'");
    Err(ComponentExpansionError::at(instance_node_id, m))
}

/// Where an inner edge lands after expansion: an edge into the exit goes to
/// the instance, which then hosts the output proxy; others to the mapped node.
pub open spec fn target_spec(target: Seq<char>, exit: Seq<char>, map: Seq<(Seq<char>, Seq<char>)>, inst: Seq<char>)
    -> Result<Seq<char>, (Option<Seq<char>>, Seq<char>)> {
    if target == exit {
        Ok(inst)
    } else {
        mapped_spec(map, target, inst)
    }
}

/// The expanded target of an inner edge.
pub fn boundary_target(edge: &WorkflowEdge, exit_node_id: &str, node_id_map: &Vec<(String, String)>, instance_node_id: &str)
    -> (r: Result<String, ComponentExpansionError>)
    ensures
        text_result(r, target_spec(edge.target@, exit_node_id@, pairs_view(node_id_map@), instance_node_id@)),
{
    if text_equal(edge.target.as_str(), exit_node_id) {
        return Ok(owned(instance_node_id));
    }
    match mapped(node_id_map, edge.target.as_str(), instance_node_id) {
        Ok(t) => Ok(t.clone()),
        Err(e) => Err(e),
    }
}

/// Copies an optional branch label.
fn copy_branch(b: &Option<String>) -> (c: Option<String>)
    ensures
        crate::graph::branch_view(c) == crate::graph::branch_view(*b),
{
    match b {
        Some(s) => Some(s.clone()),
        None => None,
    }
}

/// An edge list result agrees with its specified value.
pub open spec fn edges_result(r: Result<Vec<WorkflowEdge>, ComponentExpansionError>,
    s: Result<Seq<EdgeView>, (Option<Seq<char>>, Seq<char>)>) -> bool {
    match s {
        Ok(v) => r matches Ok(out) && edge_views(out@) == v,
        Err(v) => r matches Err(e) && err_view(e) == v,
    }
}

/// One control edge of a component's root scope once expanded: it may
/// neither enter the entry nor leave the exit; its ID is namespaced, its
/// source mapped and its target taken as `target_spec` says.
pub open spec fn root_edge(e: EdgeView, entry: Seq<char>, exit: Seq<char>, inst: Seq<char>, map: Seq<(Seq<char>, Seq<char>)>)
    -> Result<EdgeView, (Option<Seq<char>>, Seq<char>)> {
    if e.target == entry || e.source == exit {
        Err((Some(inst), "组件边不能进入入口或离开出口"@))
    } else {
        match mapped_spec(map, e.source, inst) {
            Err(v) => Err(v),
            Ok(source) => match target_spec(e.target, exit, map, inst) {
                Err(v) => Err(v),
                Ok(target) => Ok(EdgeView { id: namespaced(inst, e.id), source, target, branch: e.branch }),
            },
        }
    }
}

/// Root edges leaving the entry are handled apart; the others are rewritten.
pub open spec fn root_edge_step(entry: Seq<char>, exit: Seq<char>, inst: Seq<char>, map: Seq<(Seq<char>, Seq<char>)>)
    -> spec_fn(EdgeView) -> Option<Result<EdgeView, (Option<Seq<char>>, Seq<char>)>> {
    |e: EdgeView| if e.source == entry { None } else { Some(root_edge(e, entry, exit, inst, map)) }
}

/// Rewrites the control edges of a component's root scope, except those
/// leaving the entry; the first refused edge decides.
pub fn rewrite_root_edges(
    edges: &Vec<WorkflowEdge>,
    entry_node_id: &str,
    exit_node_id: &str,
    instance_node_id: &str,
    node_id_map: &Vec<(String, String)>,
) -> (r: Result<Vec<WorkflowEdge>, ComponentExpansionError>)
    ensures
        edges_result(r, collect(edge_views(edges@),
            root_edge_step(entry_node_id@, exit_node_id@, instance_node_id@, pairs_view(node_id_map@)))),
{
    let ghost step = root_edge_step(entry_node_id@, exit_node_id@, instance_node_id@, pairs_view(node_id_map@));
    let ghost ev = edge_views(edges@);
    let mut out: Vec<WorkflowEdge> = Vec::new();
    let mut i: usize = 0;
    assert(ev.take(0).len() == 0);
    assert(edge_views(out@) =~= Seq::<EdgeView>::empty());
    while i < edges.len()
        invariant
            i <= edges@.len(),
            ev == edge_views(edges@),
            step == root_edge_step(entry_node_id@, exit_node_id@, instance_node_id@, pairs_view(node_id_map@)),
            collect(ev.take(i as int), step) == Ok::<Seq<EdgeView>, (Option<Seq<char>>, Seq<char>)>(edge_views(out@)),
        decreases edges@.len() - i,
    {
        let edge = &edges[i];
        proof { lemma_collect_step(ev, step, i as int); }
        assert(ev[i as int] == edge_view(*edge));
        if !text_equal(edge.source.as_str(), entry_node_id) {
            if text_equal(edge.target.as_str(), entry_node_id) || text_equal(edge.source.as_str(), exit_node_id) {
                let e = ComponentExpansionError::at(instance_node_id, owned("组件边不能进入入口或离开出口"));
                proof { lemma_collect_err_stays(ev, step, i + 1); }
                return Err(e);
            }
            let source = match mapped(node_id_map, edge.source.as_str(), instance_node_id) {
                Ok(s) => s.clone(),
                Err(e) => {
                    proof { lemma_collect_err_stays(ev, step, i + 1); }
                    return Err(e);
                },
            };
            let target = match boundary_target(edge, exit_node_id, node_id_map, instance_node_id) {
                Ok(t) => t,
                Err(e) => {
                    proof { lemma_collect_err_stays(ev, step, i + 1); }
                    return Err(e);
                },
            };
            let rewritten = WorkflowEdge {
                id: namespace(instance_node_id, edge.id.as_str()),
                source,
                target,
                branch: copy_branch(&edge.branch),
            };
            let ghost before = out@;
            out.push(rewritten);
            assert(edge_views(out@) =~= edge_views(before).push(edge_view(rewritten)));
        }
        i += 1;
    }
    proof { lemma_collect_all(ev, step); }
    Ok(out)
}

/// Fixed boundary nodes of an imported child scope, mapped in order.
pub open spec fn boundary_spec(b: BoundaryView, map: Seq<(Seq<char>, Seq<char>)>, inst: Seq<char>)
    -> Result<BoundaryView, (Option<Seq<char>>, Seq<char>)> {
    match b {
        BoundaryView::Workflow(e) => match mapped_spec(map, e, inst) {
            Err(v) => Err(v),
            Ok(e2) => Ok(BoundaryView::Workflow(e2)),
        },
        BoundaryView::Component(e, x) => match mapped_spec(map, e, inst) {
            Err(v) => Err(v),
            Ok(e2) => match mapped_spec(map, x, inst) {
                Err(v) => Err(v),
                Ok(x2) => Ok(BoundaryView::Component(e2, x2)),
            },
        },
        BoundaryView::Loop(e, c, d) => match mapped_spec(map, e, inst) {
            Err(v) => Err(v),
            Ok(e2) => match mapped_spec(map, c, inst) {
                Err(v) => Err(v),
                Ok(c2) => match mapped_spec(map, d, inst) {
                    Err(v) => Err(v),
                    Ok(d2) => Ok(BoundaryView::Loop(e2, c2, d2)),
                },
            },
        },
    }
}

/// Rewrites the fixed boundary nodes of an imported child scope.
pub fn rewrite_boundary(boundary: &ScopeBoundary, node_id_map: &Vec<(String, String)>, instance_node_id: &str)
    -> (r: Result<ScopeBoundary, ComponentExpansionError>)
    ensures
        match boundary_spec(boundary_view(*boundary), pairs_view(node_id_map@), instance_node_id@) {
            Ok(v) => r matches Ok(b) && boundary_view(b) == v,
            Err(v) => r matches Err(e) && err_view(e) == v,
        },
{
    match boundary {
        ScopeBoundary::Workflow { entry_node_id } => {
            let e = match mapped(node_id_map, entry_node_id.as_str(), instance_node_id) {
                Ok(e) => e,
                Err(x) => { return Err(x); },
            };
            Ok(ScopeBoundary::Workflow { entry_node_id: e.clone() })
        },
        ScopeBoundary::Component { entry_node_id, exit_node_id } => {
            let e = match mapped(node_id_map, entry_node_id.as_str(), instance_node_id) {
                Ok(e) => e,
                Err(x) => { return Err(x); },
            };
            let x = match mapped(node_id_map, exit_node_id.as_str(), instance_node_id) {
                Ok(x) => x,
                Err(x) => { return Err(x); },
            };
            Ok(ScopeBoundary::Component { entry_node_id: e.clone(), exit_node_id: x.clone() })
        },
        ScopeBoundary::Loop { entry_node_id, continue_node_id, complete_node_id } => {
            let e = match mapped(node_id_map, entry_node_id.as_str(), instance_node_id) {
                Ok(e) => e,
                Err(x) => { return Err(x); },
            };
            let c = match mapped(node_id_map, continue_node_id.as_str(), instance_node_id) {
                Ok(c) => c,
                Err(x) => { return Err(x); },
            };
            let d = match mapped(node_id_map, complete_node_id.as_str(), instance_node_id) {
                Ok(d) => d,
                Err(x) => { return Err(x); },
            };
            Ok(ScopeBoundary::Loop { entry_node_id: e.clone(), continue_node_id: c.clone(), complete_node_id: d.clone() })
        },
    }
}

/// An instance may be expanded below an inherited outer path only while
/// fewer than eight levels surround it and no outer level is the same
/// component, directly or indirectly.
pub open spec fn admission_spec(path: Seq<(Seq<char>, u128, Seq<char>, Seq<char>)>, component_id: u128, inst: Seq<char>)
    -> Result<(), (Option<Seq<char>>, Seq<char>)> {
    if path.len() >= MAX_COMPONENT_DEPTH {
        Err((Some(inst), "组件嵌套深度不能超过 8"@))
    } else if exists|i: int| 0 <= i < path.len() && (#[trigger] path[i]).1 == component_id {
        Err((Some(inst), "组件不能直接或间接递归引用自身"@))
    } else {
        Ok(())
    }
}

/// Refuses instances nested too deep or recursing into their own component.
pub fn check_admission(inherited: &Vec<ComponentSourceFrame>, component_id: u128, instance_node_id: &str)
    -> (r: Result<(), ComponentExpansionError>)
    ensures
        match admission_spec(path_view(inherited@), component_id, instance_node_id@) {
            Ok(()) => r is Ok,
            Err(v) => r matches Err(e) && err_view(e) == v,
        },
{
    let ghost pv = path_view(inherited@);
    if inherited.len() >= MAX_COMPONENT_DEPTH {
        return Err(ComponentExpansionError::at(instance_node_id, owned("组件嵌套深度不能超过 8")));
    }
    let mut i: usize = 0;
    while i < inherited.len()
        invariant
            i <= inherited@.len(),
            inherited@.len() < MAX_COMPONENT_DEPTH,
            pv == path_view(inherited@),
            forall|j: int| 0 <= j < i ==> (#[trigger] pv[j]).1 != component_id,
        decreases inherited@.len() - i,
    {
        assert(pv[i as int] == frame_view(inherited@[i as int]));
        if inherited[i].component_id == component_id {
            assert(0 <= i < pv.len() && pv[i as int].1 == component_id);
            return Err(ComponentExpansionError::at(instance_node_id, owned("组件不能直接或间接递归引用自身")));
        }
        i += 1;
    }
    Ok(())
}

/// Whether all texts are pairwise different.
pub open spec fn distinct_texts(s: Seq<String>) -> bool {
    forall|i: int, j: int| 0 <= i < j < s.len() ==> (#[trigger] s[i])@ != (#[trigger] s[j])@
}

/// Checks that the texts are pairwise different.
pub fn all_distinct(s: &Vec<String>) -> (b: bool)
    ensures
        b == distinct_texts(s@),
{
    let mut i: usize = 0;
    while i < s.len()
        invariant
            i <= s@.len(),
            forall|a: int, b: int| 0 <= a < b < s@.len() && a < i ==> (#[trigger] s@[a])@ != (#[trigger] s@[b])@,
        decreases s@.len() - i,
    {
        let mut j: usize = i + 1;
        while j < s.len()
            invariant
                i < s@.len(),
                i + 1 <= j <= s@.len(),
                forall|a: int, b: int| 0 <= a < b < s@.len() && a < i ==> (#[trigger] s@[a])@ != (#[trigger] s@[b])@,
                forall|b: int| i < b < j ==> s@[i as int]@ != (#[trigger] s@[b])@,
            decreases s@.len() - j,
        {
            if text_equal(s[i].as_str(), s[j].as_str()) {
                return false;
            }
            j += 1;
        }
        i += 1;
    }
    true
}

/// Whether `t` occurs among the texts of `s`.
pub open spec fn has_text(s: Seq<String>, t: Seq<char>) -> bool {
    exists|i: int| 0 <= i < s.len() && (#[trigger] s[i])@ == t
}

/// Checks whether `t` occurs among `s`.
pub fn contains_text(s: &Vec<String>, t: &str) -> (b: bool)
    ensures
        b == has_text(s@, t@),
{
    let mut i: usize = 0;
    while i < s.len()
        invariant
            i <= s@.len(),
            forall|j: int| 0 <= j < i ==> (#[trigger] s@[j])@ != t@,
        decreases s@.len() - i,
    {
        if text_equal(s[i].as_str(), t) {
            return true;
        }
        i += 1;
    }
    false
}

/// Whether no text of `s` is blank.
pub open spec fn none_blank(s: Seq<String>) -> bool {
    forall|i: int| 0 <= i < s.len() ==> !is_blank_text((#[trigger] s[i])@)
}

/// Checks that no text of `s` is blank.
pub fn no_blank(s: &Vec<String>) -> (b: bool)
    ensures
        b == none_blank(s@),
{
    let mut i: usize = 0;
    while i < s.len()
        invariant
            i <= s@.len(),
            forall|j: int| 0 <= j < i ==> !is_blank_text((#[trigger] s@[j])@),
        decreases s@.len() - i,
    {
        if is_blank(s[i].as_str()) {
            return false;
        }
        i += 1;
    }
    true
}

/// An instance binds exactly the declared inputs when the declared keys are
/// unique and non-blank, every bound name is declared and every declared key
/// is bound.
pub open spec fn inputs_bound_exactly(declared: Seq<String>, bound: Seq<String>) -> bool {
    &&& distinct_texts(declared)
    &&& none_blank(declared)
    &&& forall|i: int| 0 <= i < bound.len() ==> has_text(declared, (#[trigger] bound[i])@)
    &&& forall|i: int| 0 <= i < declared.len() ==> has_text(bound, (#[trigger] declared[i])@)
}

/// Whether every text of `a` occurs among `b`.
pub open spec fn all_among(a: Seq<String>, b: Seq<String>) -> bool {
    forall|i: int| 0 <= i < a.len() ==> has_text(b, (#[trigger] a[i])@)
}

/// Checks that every text of `a` occurs among `b`.
fn every_among(a: &Vec<String>, b: &Vec<String>) -> (r: bool)
    ensures
        r == all_among(a@, b@),
{
    let mut i: usize = 0;
    while i < a.len()
        invariant
            i <= a@.len(),
            forall|j: int| 0 <= j < i ==> has_text(b@, (#[trigger] a@[j])@),
        decreases a@.len() - i,
    {
        if !contains_text(b, a[i].as_str()) {
            return false;
        }
        i += 1;
    }
    true
}

/// The verdict on an instance's ports: inputs must be bound exactly as
/// declared (checked first), output names must be unique and non-blank;
/// a refusal is located at the instance.
pub open spec fn ports_checked(inst: Seq<char>, declared: Seq<String>, bound: Seq<String>, outputs: Seq<String>,
    r: Result<(), ComponentExpansionError>) -> bool {
    match r {
        Ok(()) => inputs_bound_exactly(declared, bound) && distinct_texts(outputs) && none_blank(outputs),
        Err(e) => located_at(e, inst) && if !inputs_bound_exactly(declared, bound) {
            e.message@ == "组件实例必须且只能绑定定义声明的全部输入"@
        } else {
            !(distinct_texts(outputs) && none_blank(outputs)) && e.message@ == "组件输出名称必须非空且唯一"@
        },
    }
}

/// The ports verdict as a value.
pub open spec fn ports_spec(inst: Seq<char>, declared: Seq<String>, bound: Seq<String>, outputs: Seq<String>)
    -> Result<(), (Option<Seq<char>>, Seq<char>)> {
    if !inputs_bound_exactly(declared, bound) {
        Err((Some(inst), "组件实例必须且只能绑定定义声明的全部输入"@))
    } else if !(distinct_texts(outputs) && none_blank(outputs)) {
        Err((Some(inst), "组件输出名称必须非空且唯一"@))
    } else {
        Ok(())
    }
}

/// Checks an instance's input bindings and the component's output names:
/// inputs must be bound exactly as declared, output names must be unique
/// and non-blank.
pub fn validate_component_ports(instance_node_id: &str, declared_inputs: &Vec<String>, bound_inputs: &Vec<String>,
    output_names: &Vec<String>) -> (r: Result<(), ComponentExpansionError>)
    ensures
        ports_checked(instance_node_id@, declared_inputs@, bound_inputs@, output_names@, r),
        match ports_spec(instance_node_id@, declared_inputs@, bound_inputs@, output_names@) {
            Ok(()) => r is Ok,
            Err(v) => r matches Err(e) && err_view(e) == v,
        },
{
    let inputs_ok = all_distinct(declared_inputs) && no_blank(declared_inputs)
        && every_among(bound_inputs, declared_inputs) && every_among(declared_inputs, bound_inputs);
    proof {
        reveal_strlit("组件实例必须且只能绑定定义声明的全部输入");
        reveal_strlit("组件输出名称必须非空且唯一");
        assert("组件实例必须且只能绑定定义声明的全部输入"@[2] != "组件输出名称必须非空且唯一"@[2]);
    }
    if !inputs_ok {
        return Err(ComponentExpansionError::at(instance_node_id, owned("组件实例必须且只能绑定定义声明的全部输入")));
    }
    if !all_distinct(output_names) || !no_blank(output_names) {
        return Err(ComponentExpansionError::at(instance_node_id, owned("组件输出名称必须非空且唯一")));
    }
    Ok(())
}

} // verus!
