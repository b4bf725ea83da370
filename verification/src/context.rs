//! The data plane of one run: frozen inputs, transactional variables,
//! published node outputs and loop gate counters, and the resolution of
//! structured value references against them.

use vstd::prelude::*;
use vstd::string::*;
use crate::errors::RuntimeError;
use crate::json::{
    copy_json, json_pointer, json_type_name, jview, keys_distinct, lemma_lookup_finds_the_entry, lemma_lookup_missing, lookup,
    pointer_target, JsonValue, JsonView,
};
use crate::options::TimeSpan;
use crate::text::{joined, owned, text_equal};

verus! {

/// Where a reference reads from.
#[derive(Debug)]
pub enum ValueSource {
    /// A run input.
    WorkflowInput {
        /// Input key.
        key: String,
    },
    /// A runtime variable.
    Variable {
        /// Variable name.
        name: String,
    },
    /// The published outputs of a node.
    Node {
        /// Node ID.
        node_id: String,
    },
}

/// A value operand: a literal, or a reference with a JSON Pointer.
#[derive(Debug)]
pub enum ValueExpr {
    /// A fixed value.
    Literal {
        /// The value.
        value: JsonValue,
    },
    /// A value read from the run.
    Ref {
        /// Source.
        source: ValueSource,
        /// RFC 6901 pointer into the source value.
        pointer: String,
    },
}

impl ValueExpr {
    /// A reference into the outputs of `node_id`.
    pub fn node(node_id: &str, pointer: &str) -> (e: ValueExpr)
        ensures
            e matches ValueExpr::Ref { source: ValueSource::Node { node_id: n }, pointer: p }
                && n@ == node_id@ && p@ == pointer@,
    {
        ValueExpr::Ref { source: ValueSource::Node { node_id: owned(node_id) }, pointer: owned(pointer) }
    }
}

/// Structured result of a successful node.
#[derive(Debug)]
pub struct NodeOutcome {
    /// Published outputs, by name.
    pub outputs: Vec<(String, JsonValue)>,
    /// Logical resource outputs the node produced.
    pub resources: Vec<String>,
}

impl NodeOutcome {
    /// An outcome holding only value outputs.
    pub fn values(outputs: Vec<(String, JsonValue)>) -> (o: NodeOutcome)
        ensures
            o.outputs@ == outputs@,
            o.resources@.len() == 0,
    {
        NodeOutcome { outputs, resources: Vec::new() }
    }
}

/// Keyed entries read as a map; a later entry replaces an earlier one.
pub open spec fn map_of(entries: Seq<(String, JsonValue)>) -> Map<Seq<char>, JsonView>
    decreases entries.len(),
{
    if entries.len() == 0 {
        Map::empty()
    } else {
        map_of(entries.drop_last()).insert(entries.last().0@, jview(entries.last().1))
    }
}

/// The whole value of a node's outputs: an object of its outputs.
pub open spec fn outputs_view(outputs: Seq<(String, JsonValue)>) -> JsonView {
    JsonView::Object(Seq::new(outputs.len(), |i: int| (outputs[i].0@, jview(outputs[i].1))))
}

/// Node records read as a map from node ID to the object of its outputs;
/// a later record replaces an earlier one.
pub open spec fn nodes_of(records: Seq<(String, NodeOutcome)>) -> Map<Seq<char>, JsonView>
    decreases records.len(),
{
    if records.len() == 0 {
        Map::empty()
    } else {
        nodes_of(records.drop_last()).insert(records.last().0@, outputs_view(records.last().1.outputs@))
    }
}

/// Loop gate records read as a map from gate ID to (clock at first entry,
/// iterations started); a later record replaces an earlier one.
pub open spec fn loops_of(records: Seq<(String, (u128, u32))>) -> Map<Seq<char>, (u128, u32)>
    decreases records.len(),
{
    if records.len() == 0 {
        Map::empty()
    } else {
        loops_of(records.drop_last()).insert(records.last().0@, records.last().1)
    }
}

/// The data plane of one run.
#[derive(Debug)]
pub struct RunContext {
    /// Stable ID of the run.
    run_id: u128,
    /// Read-only inputs frozen at start.
    workflow_inputs: Vec<(String, JsonValue)>,
    /// Published outputs of succeeded nodes, in recording order.
    node_outputs: Vec<(String, NodeOutcome)>,
    /// Runtime variables, in assignment order.
    variables: Vec<(String, JsonValue)>,
    /// Loop gate counters: (gate, (clock at first entry in ns, iterations)).
    loop_states: Vec<(String, (u128, u32))>,
}

/// Whether an RFC 6901 pointer is well formed: empty, or starting with `/`
/// with every `~` followed by `0` or `1`.
pub open spec fn pointer_well_formed(p: Seq<char>) -> bool {
    p.len() == 0 || (p[0] == '/' && forall|i: int| 0 <= i < p.len() && #[trigger] p[i] == '~'
        ==> i + 1 < p.len() && (p[i + 1] == '0' || p[i + 1] == '1'))
}

/// Checks that a pointer is well formed.
pub fn validate_json_pointer(p: &str) -> (b: bool)
    ensures
        b == pointer_well_formed(p@),
{
    let n = p.unicode_len();
    if n == 0 {
        return true;
    }
    if p.get_char(0) != '/' {
        return false;
    }
    let mut k: usize = 0;
    while k < n
        invariant
            n == p@.len(),
            k <= n,
            p@[0] == '/',
            forall|i: int| 0 <= i < k && #[trigger] p@[i] == '~' ==> i + 1 < n && (p@[i + 1] == '0' || p@[i + 1] == '1'),
        decreases n - k,
    {
        if p.get_char(k) == '~' {
            if k + 1 >= n {
                return false;
            }
            let next = p.get_char(k + 1);
            if next != '0' && next != '1' {
                return false;
            }
        }
        k += 1;
    }
    true
}

/// What resolving an expression gives: a value, or the failure.
pub enum Resolved {
    /// The value.
    Value(JsonView),
    /// The pointer is malformed; the pointer as written.
    InvalidPointer(Seq<char>),
    /// The source is not available; its description.
    Unavailable(Seq<char>),
    /// The pointer selects nothing in the source; the pointer as written.
    NotFound(Seq<char>),
}

/// What resolving `e` against (inputs, variables, nodes) gives.
pub open spec fn resolve_spec(e: ValueExpr, inputs: Map<Seq<char>, JsonView>, vars: Map<Seq<char>, JsonView>,
    nodes: Map<Seq<char>, JsonView>) -> Resolved {
    match e {
        ValueExpr::Literal { value } => Resolved::Value(jview(value)),
        ValueExpr::Ref { source, pointer } => {
            if !pointer_well_formed(pointer@) {
                Resolved::InvalidPointer(pointer@)
            } else {
                let (found, root, description) = match source {
                    ValueSource::WorkflowInput { key } => (inputs.contains_key(key@), inputs[key@],
                        "workflow input '"@ + key@ + "' is unavailable"@),
                    ValueSource::Variable { name } => (vars.contains_key(name@), vars[name@],
                        "runtime variable '"@ + name@ + "' is unavailable"@),
                    ValueSource::Node { node_id } => (nodes.contains_key(node_id@), nodes[node_id@],
                        "published outputs for node '"@ + node_id@ + "' are unavailable"@),
                };
                if !found {
                    Resolved::Unavailable(description)
                } else {
                    match pointer_target(root, pointer@) {
                        Some(t) => Resolved::Value(t),
                        None => Resolved::NotFound(pointer@),
                    }
                }
            }
        },
    }
}

/// What an executed resolution returned, read as a `Resolved`; `None` for
/// errors resolution never produces.
pub open spec fn resolved_of(r: Result<JsonValue, RuntimeError>) -> Option<Resolved> {
    match r {
        Ok(v) => Some(Resolved::Value(jview(v))),
        Err(RuntimeError::InvalidValuePointer { pointer }) => Some(Resolved::InvalidPointer(pointer@)),
        Err(RuntimeError::ValueUnavailable { description }) => Some(Resolved::Unavailable(description@)),
        Err(RuntimeError::ValuePointerNotFound { pointer }) => Some(Resolved::NotFound(pointer@)),
        Err(_) => None,
    }
}

/// The error a failed resolution is reported with.
pub open spec fn resolution_error(r: Resolved, e: RuntimeError) -> bool {
    match r {
        Resolved::InvalidPointer(p) => e matches RuntimeError::InvalidValuePointer { pointer } && pointer@ == p,
        Resolved::Unavailable(d) => e matches RuntimeError::ValueUnavailable { description } && description@ == d,
        Resolved::NotFound(p) => e matches RuntimeError::ValuePointerNotFound { pointer } && pointer@ == p,
        Resolved::Value(_) => false,
    }
}

/// What resolving a text operand gives: the text, or the error.
pub open spec fn text_of(r: Resolved, out: Result<String, RuntimeError>) -> bool {
    match r {
        Resolved::Value(JsonView::String(t)) => out matches Ok(s) && s@ == t,
        Resolved::Value(v) => out matches Err(RuntimeError::ValueTypeMismatch { expected, actual })
            && expected@ == "string"@ && actual@ == view_kind(v),
        _ => out matches Err(e) && resolution_error(r, e),
    }
}

/// Stable name of a viewed value's JSON type.
pub open spec fn view_kind(v: JsonView) -> Seq<char> {
    match v {
        JsonView::Null => "null"@,
        JsonView::Bool(_) => "boolean"@,
        JsonView::Number(_) => "number"@,
        JsonView::String(_) => "string"@,
        JsonView::Array(_) => "array"@,
        JsonView::Object(_) => "object"@,
    }
}

/// Finds the latest entry of `key`.
fn latest<'a>(entries: &'a Vec<(String, JsonValue)>, key: &str) -> (r: Option<&'a JsonValue>)
    ensures
        match r {
            Some(v) => map_of(entries@).contains_key(key@) && map_of(entries@)[key@] == jview(*v),
            None => !map_of(entries@).contains_key(key@),
        },
{
    let mut i = entries.len();
    while i > 0
        invariant
            i <= entries@.len(),
            forall|j: int| i <= j < entries@.len() ==> (#[trigger] entries@[j]).0@ != key@,
        decreases i,
    {
        i -= 1;
        if text_equal(entries[i].0.as_str(), key) {
            proof { lemma_map_of_latest(entries@, key@, i as int); }
            return Some(&entries[i].1);
        }
    }
    proof { lemma_map_of_absent(entries@, key@); }
    None
}

proof fn lemma_map_of_latest(entries: Seq<(String, JsonValue)>, key: Seq<char>, i: int)
    requires
        0 <= i < entries.len(),
        entries[i].0@ == key,
        forall|j: int| i < j < entries.len() ==> (#[trigger] entries[j]).0@ != key,
    ensures
        map_of(entries).contains_key(key),
        map_of(entries)[key] == jview(entries[i].1),
    decreases entries.len(),
{
    if i < entries.len() - 1 {
        let d = entries.drop_last();
        assert forall|j: int| i < j < d.len() implies (#[trigger] d[j]).0@ != key by {
            assert(d[j] == entries[j]);
        }
        assert(d[i] == entries[i]);
        lemma_map_of_latest(d, key, i);
        assert(entries.last() == entries[entries.len() - 1]);
    }
}

proof fn lemma_map_of_absent(entries: Seq<(String, JsonValue)>, key: Seq<char>)
    requires
        forall|j: int| 0 <= j < entries.len() ==> (#[trigger] entries[j]).0@ != key,
    ensures
        !map_of(entries).contains_key(key),
    decreases entries.len(),
{
    if entries.len() > 0 {
        let d = entries.drop_last();
        assert forall|j: int| 0 <= j < d.len() implies (#[trigger] d[j]).0@ != key by {
            assert(d[j] == entries[j]);
        }
        lemma_map_of_absent(d, key);
        assert(entries.last() == entries[entries.len() - 1]);
    }
}

/// For entries with distinct keys, reading an object by its first entry
/// with a key and reading it as a map, where a later entry would win, give
/// the same value for every key.
pub proof fn lemma_distinct_keys_read_alike(entries: Seq<(String, JsonValue)>, key: Seq<char>)
    requires
        keys_distinct(entries),
    ensures
        match lookup(entries, key) {
            Some(v) => map_of(entries).contains_key(key) && map_of(entries)[key] == jview(v),
            None => !map_of(entries).contains_key(key),
        },
{
    if exists|i: int| 0 <= i < entries.len() && (#[trigger] entries[i]).0@ == key {
        let i = choose|i: int| 0 <= i < entries.len() && (#[trigger] entries[i]).0@ == key;
        lemma_lookup_finds_the_entry(entries, key, i);
        lemma_map_of_latest(entries, key, i);
    } else {
        lemma_lookup_missing(entries, key);
        lemma_map_of_absent(entries, key);
    }
}

/// Builds the object of a node's outputs.
fn outputs_object(outputs: &Vec<(String, JsonValue)>) -> (r: JsonValue)
    ensures
        jview(r) == outputs_view(outputs@),
{
    let mut out: Vec<(String, JsonValue)> = Vec::new();
    let mut i: usize = 0;
    while i < outputs.len()
        invariant
            i <= outputs@.len(),
            out@.len() == i,
            forall|k: int| 0 <= k < i ==> (#[trigger] out@[k]).0@ == outputs@[k].0@ && jview(out@[k].1) == jview(outputs@[k].1),
        decreases outputs@.len() - i,
    {
        out.push((outputs[i].0.clone(), copy_json(&outputs[i].1)));
        i += 1;
    }
    let r = JsonValue::Object(out);
    assert(jview(r) == outputs_view(outputs@)) by {
        assert(jview(r)->Object_0 =~= outputs_view(outputs@)->Object_0);
    }
    r
}

impl RunContext {
    /// Inputs of the run, by key.
    pub closed spec fn inputs(&self) -> Map<Seq<char>, JsonView> {
        map_of(self.workflow_inputs@)
    }

    /// Runtime variables, by name.
    pub closed spec fn vars(&self) -> Map<Seq<char>, JsonView> {
        map_of(self.variables@)
    }

    /// Published outputs of the succeeded nodes, by node ID, each as one object.
    pub closed spec fn nodes(&self) -> Map<Seq<char>, JsonView> {
        nodes_of(self.node_outputs@)
    }

    /// Loop gate counters, by gate ID.
    pub closed spec fn loops(&self) -> Map<Seq<char>, (u128, u32)> {
        loops_of(self.loop_states@)
    }

    /// Stable ID of the run.
    pub closed spec fn id(&self) -> u128 {
        self.run_id
    }

    /// A fresh data plane: inputs and initial variables as given (a later
    /// entry of the same key replaces an earlier one), no node outputs and
    /// no loop counters.
    pub fn new(run_id: u128, workflow_inputs: Vec<(String, JsonValue)>, variables: Vec<(String, JsonValue)>) -> (c: RunContext)
        ensures
            c.id() == run_id,
            c.inputs() == map_of(workflow_inputs@),
            c.vars() == map_of(variables@),
            c.nodes() == Map::<Seq<char>, JsonView>::empty(),
            c.loops() == Map::<Seq<char>, (u128, u32)>::empty(),
    {
        RunContext { run_id, workflow_inputs, node_outputs: Vec::new(), variables, loop_states: Vec::new() }
    }

    /// Stable ID of the run.
    pub fn run_id(&self) -> (id: u128)
        ensures
            id == self.id(),
    {
        self.run_id
    }

    /// Saves the result of a succeeded node; a retried node's new result
    /// replaces its earlier one.
    pub fn record_outcome(&mut self, node_id: String, outcome: NodeOutcome)
        ensures
            final(self).nodes() == old(self).nodes().insert(node_id@, outputs_view(outcome.outputs@)),
            final(self).inputs() == old(self).inputs(),
            final(self).vars() == old(self).vars(),
            final(self).loops() == old(self).loops(),
            final(self).id() == old(self).id(),
    {
        let ghost before = self.node_outputs@;
        self.node_outputs.push((node_id, outcome));
        assert(self.node_outputs@.drop_last() =~= before);
    }

    /// Commits the values of a Set Variables node at once; assignments are
    /// applied in order.
    pub fn commit_variables(&mut self, assignments: Vec<(String, JsonValue)>)
        ensures
            final(self).vars() == committed(old(self).vars(), assignments@),
            final(self).inputs() == old(self).inputs(),
            final(self).nodes() == old(self).nodes(),
            final(self).loops() == old(self).loops(),
            final(self).id() == old(self).id(),
    {
        let ghost start = self.variables@;
        let ghost all = assignments@;
        let mut rest = assignments;
        let mut taken: usize = 0;
        let total = rest.len();
        assert(all.skip(0) =~= all);
        assert(all.take(0) =~= Seq::<(String, JsonValue)>::empty());
        while rest.len() > 0
            invariant
                total == all.len(),
                taken + rest@.len() == all.len(),
                rest@ == all.skip(taken as int),
                map_of(self.variables@) == committed(map_of(start), all.take(taken as int)),
                self.workflow_inputs == old(self).workflow_inputs,
                self.node_outputs == old(self).node_outputs,
                self.loop_states == old(self).loop_states,
                self.run_id == old(self).run_id,
                start == old(self).variables@,
            decreases rest@.len(),
        {
            let a = rest.remove(0);
            assert(all.skip(taken as int)[0] == all[taken as int]);
            assert(all.skip(taken as int).drop_first() =~= all.skip(taken + 1));
            let ghost before = self.variables@;
            self.variables.push(a);
            proof {
                assert(self.variables@.drop_last() =~= before);
                assert(all.take(taken + 1).drop_last() =~= all.take(taken as int));
                assert(all.take(taken + 1).last() == all[taken as int]);
            }
            taken += 1;
        }
        assert(all.take(all.len() as int) =~= all);
    }

    /// The counters of gate `node_id`, if it was entered.
    fn loop_state(&self, node_id: &str) -> (r: Option<(u128, u32)>)
        ensures
            match r {
                Some(st) => self.loops().contains_key(node_id@) && self.loops()[node_id@] == st,
                None => !self.loops().contains_key(node_id@),
            },
    {
        let mut i = self.loop_states.len();
        while i > 0
            invariant
                i <= self.loop_states@.len(),
                forall|j: int| i <= j < self.loop_states@.len() ==> (#[trigger] self.loop_states@[j]).0@ != node_id@,
            decreases i,
        {
            i -= 1;
            if text_equal(self.loop_states[i].0.as_str(), node_id) {
                proof { lemma_loops_latest(self.loop_states@, node_id@, i as int); }
                return Some(self.loop_states[i].1);
            }
        }
        proof { lemma_loops_absent(self.loop_states@, node_id@); }
        None
    }

    /// Iterations gate `node_id` has started; zero before its first entry.
    pub fn loop_iterations(&self, node_id: &str) -> (n: u32)
        ensures
            n == (if self.loops().contains_key(node_id@) { self.loops()[node_id@].1 } else { 0 }),
    {
        match self.loop_state(node_id) {
            Some(st) => st.1,
            None => 0,
        }
    }

    /// Starts the next iteration of gate `node_id` within its iteration and
    /// time budgets, `now` being the monotonic clock; the clock of the first
    /// entry is kept. On exhaustion the iterations completed are returned.
    pub fn begin_loop_iteration(&mut self, node_id: &str, max_iterations: u32, timeout: TimeSpan, now: TimeSpan)
        -> (r: Result<u32, u32>)
        ensures
            (final(self).loops(), r) == gate_step(old(self).loops(), node_id@, max_iterations, timeout, now),
            final(self).inputs() == old(self).inputs(),
            final(self).vars() == old(self).vars(),
            final(self).nodes() == old(self).nodes(),
            final(self).id() == old(self).id(),
    {
        let found = self.loop_state(node_id);
        let (started, done) = match found {
            Some(s) => s,
            None => (now.nanos, 0u32),
        };
        let elapsed = if now.nanos >= started { now.nanos - started } else { 0 };
        let ghost before = self.loop_states@;
        if done >= max_iterations || elapsed >= timeout.nanos {
            self.loop_states.push((owned(node_id), (started, done)));
            assert(self.loop_states@.drop_last() =~= before);
            return Err(done);
        }
        let next = done + 1;
        self.loop_states.push((owned(node_id), (started, next)));
        assert(self.loop_states@.drop_last() =~= before);
        Ok(next)
    }

    /// The latest published outputs of `node_id`.
    fn published(&self, node_id: &str) -> (r: Option<&Vec<(String, JsonValue)>>)
        ensures
            match r {
                Some(o) => self.nodes().contains_key(node_id@) && self.nodes()[node_id@] == outputs_view(o@),
                None => !self.nodes().contains_key(node_id@),
            },
    {
        let mut i = self.node_outputs.len();
        while i > 0
            invariant
                i <= self.node_outputs@.len(),
                forall|j: int| i <= j < self.node_outputs@.len() ==> (#[trigger] self.node_outputs@[j]).0@ != node_id@,
            decreases i,
        {
            i -= 1;
            if text_equal(self.node_outputs[i].0.as_str(), node_id) {
                proof { lemma_nodes_latest(self.node_outputs@, node_id@, i as int); }
                return Some(&self.node_outputs[i].1.outputs);
            }
        }
        proof { lemma_nodes_absent(self.node_outputs@, node_id@); }
        None
    }

    /// Resolves an expression into an owned JSON value.
    pub fn resolve_value(&self, expression: &ValueExpr) -> (r: Result<JsonValue, RuntimeError>)
        ensures
            resolved_of(r) == Some(resolve_spec(*expression, self.inputs(), self.vars(), self.nodes())),
    {
        match expression {
            ValueExpr::Literal { value } => Ok(copy_json(value)),
            ValueExpr::Ref { source, pointer } => {
                if !validate_json_pointer(pointer.as_str()) {
                    return Err(RuntimeError::InvalidValuePointer { pointer: pointer.clone() });
                }
                match source {
                    ValueSource::WorkflowInput { key } => match latest(&self.workflow_inputs, key.as_str()) {
                        None => {
                            let d = joined(joined("workflow input '", key.as_str()).as_str(), "' is unavailable");
                            Err(RuntimeError::ValueUnavailable { description: d })
                        },
                        Some(root) => match json_pointer(root, pointer.as_str()) {
                            Some(t) => Ok(copy_json(t)),
                            None => Err(RuntimeError::ValuePointerNotFound { pointer: pointer.clone() }),
                        },
                    },
                    ValueSource::Variable { name } => match latest(&self.variables, name.as_str()) {
                        None => {
                            let d = joined(joined("runtime variable '", name.as_str()).as_str(), "' is unavailable");
                            Err(RuntimeError::ValueUnavailable { description: d })
                        },
                        Some(root) => match json_pointer(root, pointer.as_str()) {
                            Some(t) => Ok(copy_json(t)),
                            None => Err(RuntimeError::ValuePointerNotFound { pointer: pointer.clone() }),
                        },
                    },
                    ValueSource::Node { node_id } => match self.published(node_id.as_str()) {
                        None => {
                            let d = joined(joined("published outputs for node '", node_id.as_str()).as_str(), "' are unavailable");
                            Err(RuntimeError::ValueUnavailable { description: d })
                        },
                        Some(outputs) => {
                            let root = outputs_object(outputs);
                            match json_pointer(&root, pointer.as_str()) {
                                Some(t) => Ok(copy_json(t)),
                                None => Err(RuntimeError::ValuePointerNotFound { pointer: pointer.clone() }),
                            }
                        },
                    },
                }
            },
        }
    }

    /// Resolves a reference that may be missing: a value that is not
    /// available or a pointer that selects nothing gives `None`; other
    /// failures stay failures.
    pub fn resolve_optional_value(&self, expression: &ValueExpr) -> (r: Result<Option<JsonValue>, RuntimeError>)
        ensures
            match resolve_spec(*expression, self.inputs(), self.vars(), self.nodes()) {
                Resolved::Value(v) => r matches Ok(Some(w)) && jview(w) == v,
                Resolved::Unavailable(_) => r matches Ok(None),
                Resolved::NotFound(_) => r matches Ok(None),
                other => r matches Err(e) && resolution_error(other, e),
            },
    {
        match self.resolve_value(expression) {
            Ok(v) => Ok(Some(v)),
            Err(RuntimeError::ValuePointerNotFound { pointer }) => Ok(None),
            Err(RuntimeError::ValueUnavailable { description }) => Ok(None),
            Err(e) => Err(e),
        }
    }

    /// Resolves a text parameter; other JSON types are not converted.
    pub fn resolve_text(&self, expression: &ValueExpr) -> (r: Result<String, RuntimeError>)
        ensures
            text_of(resolve_spec(*expression, self.inputs(), self.vars(), self.nodes()), r),
    {
        match self.resolve_value(expression) {
            Ok(JsonValue::String(s)) => Ok(s),
            Ok(other) => Err(RuntimeError::ValueTypeMismatch { expected: owned("string"), actual: json_type_name(&other) }),
            Err(e) => Err(e),
        }
    }
}

proof fn lemma_nodes_latest(records: Seq<(String, NodeOutcome)>, key: Seq<char>, i: int)
    requires
        0 <= i < records.len(),
        records[i].0@ == key,
        forall|j: int| i < j < records.len() ==> (#[trigger] records[j]).0@ != key,
    ensures
        nodes_of(records).contains_key(key),
        nodes_of(records)[key] == outputs_view(records[i].1.outputs@),
    decreases records.len(),
{
    if i < records.len() - 1 {
        let d = records.drop_last();
        assert forall|j: int| i < j < d.len() implies (#[trigger] d[j]).0@ != key by {
            assert(d[j] == records[j]);
        }
        assert(d[i] == records[i]);
        lemma_nodes_latest(d, key, i);
        assert(records.last() == records[records.len() - 1]);
    }
}

proof fn lemma_nodes_absent(records: Seq<(String, NodeOutcome)>, key: Seq<char>)
    requires
        forall|j: int| 0 <= j < records.len() ==> (#[trigger] records[j]).0@ != key,
    ensures
        !nodes_of(records).contains_key(key),
    decreases records.len(),
{
    if records.len() > 0 {
        let d = records.drop_last();
        assert forall|j: int| 0 <= j < d.len() implies (#[trigger] d[j]).0@ != key by {
            assert(d[j] == records[j]);
        }
        lemma_nodes_absent(d, key);
        assert(records.last() == records[records.len() - 1]);
    }
}

proof fn lemma_loops_latest(records: Seq<(String, (u128, u32))>, key: Seq<char>, i: int)
    requires
        0 <= i < records.len(),
        records[i].0@ == key,
        forall|j: int| i < j < records.len() ==> (#[trigger] records[j]).0@ != key,
    ensures
        loops_of(records).contains_key(key),
        loops_of(records)[key] == records[i].1,
    decreases records.len(),
{
    if i < records.len() - 1 {
        let d = records.drop_last();
        assert forall|j: int| i < j < d.len() implies (#[trigger] d[j]).0@ != key by {
            assert(d[j] == records[j]);
        }
        assert(d[i] == records[i]);
        lemma_loops_latest(d, key, i);
        assert(records.last() == records[records.len() - 1]);
    }
}

proof fn lemma_loops_absent(records: Seq<(String, (u128, u32))>, key: Seq<char>)
    requires
        forall|j: int| 0 <= j < records.len() ==> (#[trigger] records[j]).0@ != key,
    ensures
        !loops_of(records).contains_key(key),
    decreases records.len(),
{
    if records.len() > 0 {
        let d = records.drop_last();
        assert forall|j: int| 0 <= j < d.len() implies (#[trigger] d[j]).0@ != key by {
            assert(d[j] == records[j]);
        }
        lemma_loops_absent(d, key);
        assert(records.last() == records[records.len() - 1]);
    }
}

/// Law: reading a node's outputs right after recording them gives exactly
/// the recorded outputs (a retry's outcome replaces the earlier one), and
/// the whole-output reference is their object.
pub proof fn lemma_read_after_record(before: Map<Seq<char>, JsonView>, node_id: Seq<char>, outputs: Seq<(String, JsonValue)>,
    other: Seq<char>)
    ensures
        before.insert(node_id, outputs_view(outputs)).contains_key(node_id),
        before.insert(node_id, outputs_view(outputs))[node_id] == outputs_view(outputs),
        pointer_target(before.insert(node_id, outputs_view(outputs))[node_id], Seq::empty()) == Some(outputs_view(outputs)),
        other != node_id ==> before.insert(node_id, outputs_view(outputs)).contains_key(other) == before.contains_key(other),
        other != node_id && before.contains_key(other) ==> before.insert(node_id, outputs_view(outputs))[other] == before[other],
{
}

/// The variables after committing `assignments` in order onto `before`.
pub open spec fn committed(before: Map<Seq<char>, JsonView>, assignments: Seq<(String, JsonValue)>) -> Map<Seq<char>, JsonView> {
    assignments.fold_left(before, |m: Map<Seq<char>, JsonView>, a: (String, JsonValue)| m.insert(a.0@, jview(a.1)))
}

/// Law: a committed variable reads back as the value of the last
/// assignment to it in the commit.
pub proof fn lemma_commit_then_read(before: Map<Seq<char>, JsonView>, assignments: Seq<(String, JsonValue)>, i: int)
    requires
        0 <= i < assignments.len(),
        forall|j: int| i < j < assignments.len() ==> (#[trigger] assignments[j]).0@ != assignments[i].0@,
    ensures
        committed(before, assignments).contains_key(assignments[i].0@),
        committed(before, assignments)[assignments[i].0@] == jview(assignments[i].1),
    decreases assignments.len(),
{
    let d = assignments.drop_last();
    if i < assignments.len() - 1 {
        assert forall|j: int| i < j < d.len() implies (#[trigger] d[j]).0@ != d[i].0@ by {
            assert(d[j] == assignments[j]);
        }
        lemma_commit_then_read(before, d, i);
        assert(assignments.last() == assignments[assignments.len() - 1]);
        assert(d[i] == assignments[i]);
    }
}

/// Law: a commit leaves every variable it does not assign as it was.
pub proof fn lemma_commit_keeps_others(before: Map<Seq<char>, JsonView>, assignments: Seq<(String, JsonValue)>, name: Seq<char>)
    requires
        forall|j: int| 0 <= j < assignments.len() ==> (#[trigger] assignments[j]).0@ != name,
    ensures
        committed(before, assignments).contains_key(name) == before.contains_key(name),
        before.contains_key(name) ==> committed(before, assignments)[name] == before[name],
    decreases assignments.len(),
{
    if assignments.len() > 0 {
        let d = assignments.drop_last();
        assert forall|j: int| 0 <= j < d.len() implies (#[trigger] d[j]).0@ != name by {
            assert(d[j] == assignments[j]);
        }
        lemma_commit_keeps_others(before, d, name);
        assert(assignments.last() == assignments[assignments.len() - 1]);
    }
}

/// One entry of a loop gate at clock `now`: its (first entry clock,
/// iterations) after it, and the iteration started or, on exhaustion, the
/// iterations completed. The clock of the first entry is kept; the count
/// grows only while both the iteration and the time budget remain.
pub open spec fn gate_step(loops: Map<Seq<char>, (u128, u32)>, node: Seq<char>, max_iterations: u32, timeout: TimeSpan,
    now: TimeSpan) -> (Map<Seq<char>, (u128, u32)>, Result<u32, u32>) {
    let (started, done) = if loops.contains_key(node) { loops[node] } else { (now.nanos, 0u32) };
    let elapsed = if now.nanos >= started { now.nanos - started } else { 0 };
    if done >= max_iterations || elapsed >= timeout.nanos {
        (loops.insert(node, (started, done)), Err(done))
    } else {
        (loops.insert(node, (started, (done + 1) as u32)), Ok((done + 1) as u32))
    }
}

/// Successive entries of one gate at the clocks `nows`: its states in
/// the end and each entry's result, in call order.
pub open spec fn gate_run(loops: Map<Seq<char>, (u128, u32)>, node: Seq<char>, max_iterations: u32, timeout: TimeSpan,
    nows: Seq<TimeSpan>) -> (Map<Seq<char>, (u128, u32)>, Seq<Result<u32, u32>>)
    decreases nows.len(),
{
    if nows.len() == 0 {
        (loops, Seq::empty())
    } else {
        let (l, rs) = gate_run(loops, node, max_iterations, timeout, nows.drop_last());
        let (l2, r) = gate_step(l, node, max_iterations, timeout, nows.last());
        (l2, rs.push(r))
    }
}

/// Law: entering a gate that was never begun, with the same iteration limit
/// and a clock that never goes backwards, the entries return 1, 2, ..., f
/// in order while the limit and the time since the first entry allow, and
/// every later entry returns f without counting further; it then
/// holds the first entry's clock and f iterations, and no other gate
/// changes.
pub proof fn lemma_gate_counts_up(loops: Map<Seq<char>, (u128, u32)>, node: Seq<char>, max_iterations: u32,
    timeout: TimeSpan, nows: Seq<TimeSpan>) -> (f: nat)
    requires
        !loops.contains_key(node),
        nows.len() > 0,
        forall|i: int, j: int| 0 <= i <= j < nows.len() ==> (#[trigger] nows[i]).nanos <= (#[trigger] nows[j]).nanos,
    ensures
        f <= nows.len(),
        f <= max_iterations,
        gate_run(loops, node, max_iterations, timeout, nows).1.len() == nows.len(),
        forall|i: int| 0 <= i < f ==> i < max_iterations && nows[i].nanos - nows[0].nanos < timeout.nanos
            && gate_run(loops, node, max_iterations, timeout, nows).1[i] == Ok::<u32, u32>((i + 1) as u32),
        forall|i: int| f <= i < nows.len() ==> gate_run(loops, node, max_iterations, timeout, nows).1[i] == Err::<u32, u32>(f as u32),
        f < nows.len() ==> (f >= max_iterations || nows[f as int].nanos - nows[0].nanos >= timeout.nanos),
        gate_run(loops, node, max_iterations, timeout, nows).0.contains_key(node),
        gate_run(loops, node, max_iterations, timeout, nows).0[node] == (nows[0].nanos, f as u32),
        gate_run(loops, node, max_iterations, timeout, nows).0.remove(node) == loops.remove(node),
    decreases nows.len(),
{
    let d = nows.drop_last();
    let last = nows.len() - 1;
    assert(nows.last() == nows[last]);
    if d.len() == 0 {
        assert(gate_run(loops, node, max_iterations, timeout, d).0 == loops);
        assert(loops.insert(node, (nows[0].nanos, 0u32)).remove(node) =~= loops.remove(node));
        assert(loops.insert(node, (nows[0].nanos, 1u32)).remove(node) =~= loops.remove(node));
        if 0 >= max_iterations || 0 >= timeout.nanos { 0 } else { 1 }
    } else {
        assert forall|i: int, j: int| 0 <= i <= j < d.len() implies (#[trigger] d[i]).nanos <= (#[trigger] d[j]).nanos by {
            assert(d[i] == nows[i] && d[j] == nows[j]);
        }
        let f0 = lemma_gate_counts_up(loops, node, max_iterations, timeout, d);
        let l = gate_run(loops, node, max_iterations, timeout, d).0;
        assert(d[0] == nows[0]);
        assert(nows[0].nanos <= nows[last].nanos);
        assert(l.insert(node, (nows[0].nanos, f0 as u32)).remove(node) =~= l.remove(node));
        assert(l.insert(node, (nows[0].nanos, (f0 + 1) as u32)).remove(node) =~= l.remove(node));
        if f0 < d.len() {
            assert(d[f0 as int] == nows[f0 as int]);
            assert(nows[f0 as int].nanos <= nows[last].nanos);
            f0
        } else if f0 >= max_iterations || nows[last].nanos - nows[0].nanos >= timeout.nanos {
            f0
        } else {
            f0 + 1
        }
    }
}

/// Number of gate entries that started an iteration.
pub open spec fn ok_count(rs: Seq<Result<u32, u32>>) -> nat
    decreases rs.len(),
{
    if rs.len() == 0 {
        0
    } else {
        ok_count(rs.drop_last()) + if rs.last() is Ok { 1nat } else { 0nat }
    }
}

/// Law: entering a gate that was never begun, whatever the clock readings,
/// an entry that starts an iteration returns one more than the iterations
/// started before it, a refused entry returns the iterations started so
/// far; afterwards it holds its first entry's clock and exactly the number
/// of started iterations, never more than the limit, and no other loop
/// counter changes.
pub proof fn lemma_gate_entries_numbered(loops: Map<Seq<char>, (u128, u32)>, node: Seq<char>, max_iterations: u32,
    timeout: TimeSpan, nows: Seq<TimeSpan>)
    requires
        !loops.contains_key(node),
        nows.len() > 0,
    ensures
        gate_run(loops, node, max_iterations, timeout, nows).1.len() == nows.len(),
        gate_run(loops, node, max_iterations, timeout, nows).0.contains_key(node),
        gate_run(loops, node, max_iterations, timeout, nows).0[node]
            == (nows[0].nanos, ok_count(gate_run(loops, node, max_iterations, timeout, nows).1) as u32),
        ok_count(gate_run(loops, node, max_iterations, timeout, nows).1) <= max_iterations,
        forall|i: int| 0 <= i < nows.len() ==> match #[trigger] gate_run(loops, node, max_iterations, timeout, nows).1[i] {
            Ok(v) => v == ok_count(gate_run(loops, node, max_iterations, timeout, nows).1.take(i)) + 1,
            Err(v) => v == ok_count(gate_run(loops, node, max_iterations, timeout, nows).1.take(i)),
        },
        gate_run(loops, node, max_iterations, timeout, nows).0.remove(node) == loops.remove(node),
    decreases nows.len(),
{
    let d = nows.drop_last();
    let (l, rs) = gate_run(loops, node, max_iterations, timeout, d);
    let (l2, r) = gate_step(l, node, max_iterations, timeout, nows.last());
    let all = rs.push(r);
    assert(all.drop_last() =~= rs);
    if d.len() == 0 {
        assert(l == loops);
        assert(rs.len() == 0);
        assert(loops.insert(node, (nows[0].nanos, 0u32)).remove(node) =~= loops.remove(node));
        assert(loops.insert(node, (nows[0].nanos, 1u32)).remove(node) =~= loops.remove(node));
        assert(all.take(0) =~= rs);
        assert(nows.last() == nows[0]);
    } else {
        lemma_gate_entries_numbered(loops, node, max_iterations, timeout, d);
        assert(d[0] == nows[0]);
        let c = ok_count(rs);
        assert(l.insert(node, (nows[0].nanos, c as u32)).remove(node) =~= l.remove(node));
        assert(l.insert(node, (nows[0].nanos, (c + 1) as u32)).remove(node) =~= l.remove(node));
        assert forall|i: int| 0 <= i < nows.len() implies match #[trigger] all[i] {
            Ok(v) => v == ok_count(all.take(i)) + 1,
            Err(v) => v == ok_count(all.take(i)),
        } by {
            if i < rs.len() {
                assert(all[i] == rs[i]);
                assert(all.take(i) =~= rs.take(i));
            } else {
                assert(all.take(i) =~= rs);
            }
        }
    }
}

} // verus!
