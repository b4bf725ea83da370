//! Explicit-stack execution of the single taken path through a multi-scope
//! workflow. A While repetition only changes the frame stack; it never
//! recurses. Node execution, pauses and event delivery happen outside and
//! report back here; this module decides where control goes next.

use vstd::prelude::*;
use vstd::string::*;
use crate::errors::RuntimeError;
use crate::graph::{boundary_entry, branch_view, FlowScope, WorkflowEdge};
use crate::loops::LoopFrame;
use crate::options::{TimeSpan, NANOS_PER_MILLI};
use crate::text::{joined, owned, text_equal};

verus! {

/// The scope and node to execute next.
#[derive(Debug)]
pub struct Cursor {
    /// Scope the node belongs to.
    pub scope_id: String,
    /// Globally unique node ID.
    pub node_id: String,
}

/// All edges of all scopes, scope by scope in document order.
pub open spec fn flat_edges(scopes: Seq<FlowScope>) -> Seq<WorkflowEdge>
    decreases scopes.len(),
{
    if scopes.len() == 0 {
        Seq::empty()
    } else {
        flat_edges(scopes.drop_last()) + scopes.last().edges@
    }
}

/// (scope ID, node ID) of every node of every scope, in document order.
pub open spec fn flat_nodes(scopes: Seq<FlowScope>) -> Seq<(Seq<char>, Seq<char>)>
    decreases scopes.len(),
{
    if scopes.len() == 0 {
        Seq::empty()
    } else {
        flat_nodes(scopes.drop_last()) + scopes.last().nodes@.map_values(
            |n: crate::graph::WorkflowNode| (scopes.last().id@, n.id@),
        )
    }
}

/// Whether an edge leaves `node` from the control port `branch`.
pub open spec fn edge_selected(e: WorkflowEdge, node: Seq<char>, branch: Option<Seq<char>>) -> bool {
    e.source@ == node && branch_view(e.branch) == branch
}

/// `i` is the first edge leaving `node` from `branch`.
pub open spec fn first_selected(edges: Seq<WorkflowEdge>, node: Seq<char>, branch: Option<Seq<char>>, i: int) -> bool {
    0 <= i < edges.len() && edge_selected(edges[i], node, branch)
        && forall|j: int| 0 <= j < i ==> !edge_selected(#[trigger] edges[j], node, branch)
}

/// The scope that the node index maps `node` to: the last scope in document
/// order that holds it, as a later entry replaces an earlier one.
pub open spec fn last_holder(pairs: Seq<(Seq<char>, Seq<char>)>, node: Seq<char>, i: int) -> bool {
    0 <= i < pairs.len() && pairs[i].1 == node
        && forall|j: int| i < j < pairs.len() ==> (#[trigger] pairs[j]).1 != node
}

/// The node index maps `node` into `scope`: the last node with that ID
/// lies in a scope with ID `scope`.
pub open spec fn located_in(scopes: Seq<FlowScope>, node: Seq<char>, scope: Seq<char>) -> bool {
    exists|k: int| last_holder(flat_nodes(scopes), node, k) && flat_nodes(scopes)[k].0 == scope
}

/// The last holder of an ID is unique.
proof fn lemma_last_holder_unique(pairs: Seq<(Seq<char>, Seq<char>)>, node: Seq<char>, a: int, b: int)
    requires
        last_holder(pairs, node, a),
        last_holder(pairs, node, b),
    ensures
        a == b,
{
    if a < b {
        assert(pairs[b].1 != node);
    }
    if b < a {
        assert(pairs[a].1 != node);
    }
}

/// The flattened nodes of a prefix of the scopes are a prefix of all of them.
proof fn lemma_flat_nodes_prefix(scopes: Seq<FlowScope>, t: int)
    requires
        0 <= t <= scopes.len(),
    ensures
        flat_nodes(scopes.take(t)).len() <= flat_nodes(scopes).len(),
        forall|i: int| 0 <= i < flat_nodes(scopes.take(t)).len() ==> flat_nodes(scopes)[i] == #[trigger] flat_nodes(scopes.take(t))[i],
    decreases scopes.len(),
{
    if t == scopes.len() {
        assert(scopes.take(t) =~= scopes);
    } else {
        let d = scopes.drop_last();
        lemma_flat_nodes_prefix(d, t);
        assert(d.take(t) =~= scopes.take(t));
    }
}

/// Node `n` of scope `s` sits in the flattened nodes right after the nodes
/// of the scopes before it.
proof fn lemma_flat_nodes_at(scopes: Seq<FlowScope>, s: int, n: int)
    requires
        0 <= s < scopes.len(),
        0 <= n < scopes[s].nodes@.len(),
    ensures
        flat_nodes(scopes.take(s)).len() + n < flat_nodes(scopes).len(),
        flat_nodes(scopes)[flat_nodes(scopes.take(s)).len() + n] == (scopes[s].id@, scopes[s].nodes@[n].id@),
{
    lemma_flat_nodes_step(scopes, s);
    lemma_flat_nodes_prefix(scopes, s + 1);
    let k = flat_nodes(scopes.take(s)).len() + n;
    assert(flat_nodes(scopes.take(s + 1))[k] == (scopes[s].id@, scopes[s].nodes@[n].id@));
}

/// The entry the index maps `scope` to: the last scope with that ID wins.
pub open spec fn last_scope(scopes: Seq<FlowScope>, scope: Seq<char>, i: int) -> bool {
    0 <= i < scopes.len() && scopes[i].id@ == scope
        && forall|j: int| i < j < scopes.len() ==> (#[trigger] scopes[j]).id@ != scope
}

proof fn lemma_flat_edges_step(scopes: Seq<FlowScope>, s: int)
    requires
        0 <= s < scopes.len(),
    ensures
        flat_edges(scopes.take(s + 1)) == flat_edges(scopes.take(s)) + scopes[s].edges@,
{
    assert(scopes.take(s + 1).drop_last() =~= scopes.take(s));
}

proof fn lemma_flat_nodes_step(scopes: Seq<FlowScope>, s: int)
    requires
        0 <= s < scopes.len(),
    ensures
        flat_nodes(scopes.take(s + 1)) == flat_nodes(scopes.take(s)) + scopes[s].nodes@.map_values(
            |n: crate::graph::WorkflowNode| (scopes[s].id@, n.id@),
        ),
{
    assert(scopes.take(s + 1).drop_last() =~= scopes.take(s));
}

/// Whether an optional branch label equals an optional text.
fn branch_equal(a: &Option<String>, b: Option<&str>) -> (r: bool)
    ensures
        r == (branch_view(*a) == match b { Some(t) => Some(t@), None => None::<Seq<char>> }),
{
    match (a, b) {
        (Some(x), Some(y)) => text_equal(x.as_str(), y),
        (None, None) => true,
        _ => false,
    }
}

/// Spec view of an optional branch text.
pub open spec fn opt_text(b: Option<&str>) -> Option<Seq<char>> {
    match b {
        Some(t) => Some(t@),
        None => None,
    }
}

/// Finds the first edge leaving `node_id` from `branch`, as (scope, edge) indices.
pub fn select_edge(scopes: &Vec<FlowScope>, node_id: &str, branch: Option<&str>) -> (r: Option<(usize, usize)>)
    ensures
        match r {
            Some((s, e)) => s < scopes@.len() && e < scopes@[s as int].edges@.len()
                && first_selected(flat_edges(scopes@), node_id@, opt_text(branch),
                    flat_edges(scopes@.take(s as int)).len() + e)
                && flat_edges(scopes@)[flat_edges(scopes@.take(s as int)).len() + e] == scopes@[s as int].edges@[e as int],
            None => forall|i: int| 0 <= i < flat_edges(scopes@).len()
                ==> !edge_selected(#[trigger] flat_edges(scopes@)[i], node_id@, opt_text(branch)),
        },
{
    let mut s: usize = 0;
    while s < scopes.len()
        invariant
            s <= scopes@.len(),
            forall|i: int| 0 <= i < flat_edges(scopes@.take(s as int)).len()
                ==> !edge_selected(#[trigger] flat_edges(scopes@.take(s as int))[i], node_id@, opt_text(branch)),
        decreases scopes@.len() - s,
    {
        let edges = &scopes[s].edges;
        proof { lemma_flat_edges_step(scopes@, s as int); }
        let ghost prefix = flat_edges(scopes@.take(s as int));
        let mut e: usize = 0;
        while e < edges.len()
            invariant
                s < scopes@.len(),
                edges == scopes@[s as int].edges,
                prefix == flat_edges(scopes@.take(s as int)),
                flat_edges(scopes@.take(s + 1)) == prefix + edges@,
                e <= edges@.len(),
                forall|i: int| 0 <= i < prefix.len() ==> !edge_selected(#[trigger] prefix[i], node_id@, opt_text(branch)),
                forall|i: int| 0 <= i < e ==> !edge_selected(#[trigger] edges@[i], node_id@, opt_text(branch)),
            decreases edges@.len() - e,
        {
            let edge = &edges[e];
            if text_equal(edge.source.as_str(), node_id) && branch_equal(&edge.branch, branch) {
                proof { lemma_first_in_whole(scopes@, s as int, e as int, node_id@, opt_text(branch)); }
                return Some((s, e));
            }
            e += 1;
        }
        proof {
            let next = flat_edges(scopes@.take(s + 1));
            assert forall|i: int| 0 <= i < next.len() implies !edge_selected(#[trigger] next[i], node_id@, opt_text(branch)) by {
                if i >= prefix.len() {
                    assert(next[i] == edges@[i - prefix.len()]);
                } else {
                    assert(next[i] == prefix[i]);
                }
            }
        }
        s += 1;
    }
    assert(scopes@.take(scopes@.len() as int) =~= scopes@);
    None
}

proof fn lemma_flat_edges_prefix(scopes: Seq<FlowScope>, a: int, b: int)
    requires
        0 <= a <= b <= scopes.len(),
    ensures
        flat_edges(scopes.take(b)).subrange(0, flat_edges(scopes.take(a)).len() as int) == flat_edges(scopes.take(a)),
        flat_edges(scopes.take(a)).len() <= flat_edges(scopes.take(b)).len(),
    decreases b - a,
{
    if a < b {
        lemma_flat_edges_prefix(scopes, a, b - 1);
        lemma_flat_edges_step(scopes, b - 1);
        let fa = flat_edges(scopes.take(a));
        let fb1 = flat_edges(scopes.take(b - 1));
        let fb = flat_edges(scopes.take(b));
        assert(fb.subrange(0, fa.len() as int) =~= fb1.subrange(0, fa.len() as int));
    } else {
        assert(flat_edges(scopes.take(a)).subrange(0, flat_edges(scopes.take(a)).len() as int) =~= flat_edges(scopes.take(a)));
    }
}

proof fn lemma_first_in_whole(scopes: Seq<FlowScope>, s: int, e: int, node: Seq<char>, branch: Option<Seq<char>>)
    requires
        0 <= s < scopes.len(),
        0 <= e < scopes[s].edges@.len(),
        edge_selected(scopes[s].edges@[e], node, branch),
        forall|i: int| 0 <= i < flat_edges(scopes.take(s)).len() ==> !edge_selected(#[trigger] flat_edges(scopes.take(s))[i], node, branch),
        forall|i: int| 0 <= i < e ==> !edge_selected(#[trigger] scopes[s].edges@[i], node, branch),
    ensures
        first_selected(flat_edges(scopes), node, branch, flat_edges(scopes.take(s)).len() + e),
        flat_edges(scopes)[flat_edges(scopes.take(s)).len() + e] == scopes[s].edges@[e],
{
    lemma_flat_edges_step(scopes, s);
    lemma_flat_edges_prefix(scopes, s + 1, scopes.len() as int);
    assert(scopes.take(scopes.len() as int) =~= scopes);
    let whole = flat_edges(scopes);
    let prefix = flat_edges(scopes.take(s));
    let upto = flat_edges(scopes.take(s + 1));
    let k = prefix.len() + e;
    assert(upto[k] == scopes[s].edges@[e]);
    assert(whole[k] == upto[k]);
    assert forall|j: int| 0 <= j < k implies !edge_selected(#[trigger] whole[j], node, branch) by {
        assert(whole[j] == upto[j]);
        if j < prefix.len() {
            assert(upto[j] == prefix[j]);
        } else {
            assert(upto[j] == scopes[s].edges@[j - prefix.len()]);
        }
    }
}

/// Finds the scope that holds `node_id`, as (scope, node) indices of its last
/// occurrence in document order.
pub fn locate_node(scopes: &Vec<FlowScope>, node_id: &str) -> (r: Option<(usize, usize)>)
    ensures
        match r {
            Some((s, n)) => s < scopes@.len() && n < scopes@[s as int].nodes@.len()
                && scopes@[s as int].nodes@[n as int].id@ == node_id@
                && last_holder(flat_nodes(scopes@), node_id@, flat_nodes(scopes@.take(s as int)).len() + n),
            None => forall|i: int| 0 <= i < flat_nodes(scopes@).len() ==> (#[trigger] flat_nodes(scopes@)[i]).1 != node_id@,
        },
{
    let mut found: Option<(usize, usize)> = None;
    let mut s: usize = 0;
    while s < scopes.len()
        invariant
            s <= scopes@.len(),
            match found {
                Some((fs, fnode)) => fs < s && fnode < scopes@[fs as int].nodes@.len()
                    && scopes@[fs as int].nodes@[fnode as int].id@ == node_id@
                    && last_holder(flat_nodes(scopes@.take(s as int)), node_id@, flat_nodes(scopes@.take(fs as int)).len() + fnode),
                None => forall|i: int| 0 <= i < flat_nodes(scopes@.take(s as int)).len()
                    ==> (#[trigger] flat_nodes(scopes@.take(s as int))[i]).1 != node_id@,
            },
        decreases scopes@.len() - s,
    {
        let nodes = &scopes[s].nodes;
        proof { lemma_flat_nodes_step(scopes@, s as int); }
        let ghost before = flat_nodes(scopes@.take(s as int));
        let ghost block = scopes@[s as int].nodes@.map_values(|n: crate::graph::WorkflowNode| (scopes@[s as int].id@, n.id@));
        let mut n: usize = 0;
        while n < nodes.len()
            invariant
                s < scopes@.len(),
                nodes == scopes@[s as int].nodes,
                before == flat_nodes(scopes@.take(s as int)),
                block == scopes@[s as int].nodes@.map_values(|n: crate::graph::WorkflowNode| (scopes@[s as int].id@, n.id@)),
                flat_nodes(scopes@.take(s + 1)) == before + block,
                n <= nodes@.len(),
                match found {
                    Some((fs, fnode)) => fs <= s && fnode < scopes@[fs as int].nodes@.len()
                        && scopes@[fs as int].nodes@[fnode as int].id@ == node_id@
                        && (fs < s || fnode < n)
                        && last_holder(before + block.take(n as int), node_id@, flat_nodes(scopes@.take(fs as int)).len() + fnode),
                    None => forall|i: int| 0 <= i < (before + block.take(n as int)).len()
                        ==> (#[trigger] (before + block.take(n as int))[i]).1 != node_id@,
                },
            decreases nodes@.len() - n,
        {
            let ghost old_found = found;
            if text_equal(nodes[n].id.as_str(), node_id) {
                found = Some((s, n));
            }
            proof {
                let cur = before + block.take(n as int);
                let nxt = before + block.take(n + 1);
                assert(nxt =~= cur.push(block[n as int]));
                assert(block[n as int].1 == nodes@[n as int].id@);
                match found {
                    Some((fs, fnode)) => {
                        if fs == s && fnode == n {
                            assert(nxt[before.len() + n] == block[n as int]);
                        } else {
                            assert(old_found == found);
                            assert forall|j: int| flat_nodes(scopes@.take(fs as int)).len() + fnode < j < nxt.len()
                                implies (#[trigger] nxt[j]).1 != node_id@ by {
                                if j < cur.len() {
                                    assert(nxt[j] == cur[j]);
                                }
                            }
                        }
                    },
                    None => {
                        assert forall|i: int| 0 <= i < nxt.len() implies (#[trigger] nxt[i]).1 != node_id@ by {
                            if i < cur.len() {
                                assert(nxt[i] == cur[i]);
                            }
                        }
                    },
                }
            }
            n += 1;
        }
        assert(block.take(nodes@.len() as int) =~= block);
        s += 1;
    }
    assert(scopes@.take(scopes@.len() as int) =~= scopes@);
    found
}

/// Finds the entry node of `scope_id`, taking the last scope with that ID.
pub fn scope_entry(scopes: &Vec<FlowScope>, scope_id: &str) -> (r: Option<usize>)
    ensures
        match r {
            Some(s) => last_scope(scopes@, scope_id@, s as int),
            None => forall|i: int| 0 <= i < scopes@.len() ==> (#[trigger] scopes@[i]).id@ != scope_id@,
        },
{
    let mut found: Option<usize> = None;
    let mut s: usize = 0;
    while s < scopes.len()
        invariant
            s <= scopes@.len(),
            match found {
                Some(f) => f < s && scopes@[f as int].id@ == scope_id@
                    && forall|j: int| f < j < s ==> (#[trigger] scopes@[j]).id@ != scope_id@,
                None => forall|i: int| 0 <= i < s ==> (#[trigger] scopes@[i]).id@ != scope_id@,
            },
        decreases scopes@.len() - s,
    {
        if text_equal(scopes[s].id.as_str(), scope_id) {
            found = Some(s);
        }
        s += 1;
    }
    found
}

/// Whether the workflow has at least one node in some scope.
fn has_nodes(scopes: &Vec<FlowScope>) -> (b: bool)
    ensures
        b == exists|i: int| 0 <= i < scopes@.len() && (#[trigger] scopes@[i]).nodes@.len() > 0,
{
    let mut s: usize = 0;
    while s < scopes.len()
        invariant
            s <= scopes@.len(),
            forall|i: int| 0 <= i < s ==> (#[trigger] scopes@[i]).nodes@.len() == 0,
        decreases scopes@.len() - s,
    {
        if scopes[s].nodes.len() > 0 {
            return true;
        }
        s += 1;
    }
    false
}

/// Whether control is at `node` of `scope`.
pub open spec fn cursor_at(cur: Option<Cursor>, scope: Seq<char>, node: Seq<char>) -> bool {
    match cur {
        Some(c) => c.scope_id@ == scope && c.node_id@ == node,
        None => false,
    }
}

/// An edge that was taken: the event reports its ID, source and target.
#[derive(Debug)]
pub struct TakenEdge {
    /// Edge ID.
    pub id: String,
    /// Source node.
    pub source: String,
    /// Target node.
    pub target: String,
}

/// How the loop that was left ended.
#[derive(Debug, Clone, Copy, PartialEq, Eq, Structural)]
pub enum LoopEnd {
    /// The body reached its Complete boundary.
    Completed,
    /// The iteration or time budget ran out.
    Exhausted,
}

/// Outcome of leaving the innermost While container.
#[derive(Debug)]
pub struct LoopExit {
    /// Container node whose result is published now.
    pub container_node_id: String,
    /// Iterations the activation started.
    pub iterations: u32,
    /// How the loop ended; also the control port it leaves from.
    pub end: LoopEnd,
    /// Edge taken from that port in the parent scope, if any.
    pub edge: Option<TakenEdge>,
}

/// Name of the control port a loop leaves from.
pub open spec fn loop_port(end: LoopEnd) -> Seq<char> {
    match end {
        LoopEnd::Completed => "completed"@,
        LoopEnd::Exhausted => "exhausted"@,
    }
}

/// `after` and `r` are what leaving the innermost While of `before` by
/// port `port` gives: its frame is popped and the first edge leaving the
/// container by that port is taken in the parent scope, or the path ends
/// when there is none.
pub open spec fn left_by_port(before: PathRunner, after: PathRunner, end: LoopEnd, r: Result<LoopExit, RuntimeError>,
    port: Seq<char>) -> bool {
    match r {
        Ok(x) => {
            let top = before.loop_stack@.last();
            &&& before.loop_stack@.len() > 0
            &&& after.loop_stack@ == before.loop_stack@.drop_last()
            &&& x.container_node_id@ == top.container_node_id@
            &&& x.iterations == top.started()
            &&& x.end == end
            &&& match x.edge {
                Some(t) => t.source@ == top.container_node_id@
                    && (exists|s: int, e: int| 0 <= s < before.scopes@.len() && 0 <= e < before.scopes@[s].edges@.len()
                        && #[trigger] first_selected(flat_edges(before.scopes@), top.container_node_id@, Some(port),
                            flat_edges(before.scopes@.take(s)).len() + e)
                        && t.target@ == before.scopes@[s].edges@[e].target@)
                    && cursor_at(after.current, top.parent_scope_id@, t.target@),
                None => after.current is None
                    && forall|i: int| 0 <= i < flat_edges(before.scopes@).len()
                        ==> !edge_selected(#[trigger] flat_edges(before.scopes@)[i], top.container_node_id@, Some(port)),
            }
        },
        Err(e) => e is ExecutionInvariant && before.loop_stack@.len() == 0,
    }
}

/// What leaving the innermost While by `end` gives: it is left by the port
/// named after `end`.
pub open spec fn loop_left(before: PathRunner, after: PathRunner, end: LoopEnd, r: Result<LoopExit, RuntimeError>) -> bool {
    left_by_port(before, after, end, r, loop_port(end))
}

/// Law: a While left by `Completed` leaves by the port `completed` (the
/// first edge whose branch is `completed` is taken, or the path ends when
/// there is none), one left by `Exhausted` by the port `exhausted`, and the
/// two ports differ, so the two ends never take the same branch.
pub proof fn lemma_loop_leaves_by_its_end_port(before: PathRunner, after: PathRunner, end: LoopEnd,
    r: Result<LoopExit, RuntimeError>)
    requires
        loop_left(before, after, end, r),
    ensures
        "completed"@ != "exhausted"@,
        end == LoopEnd::Completed ==> left_by_port(before, after, end, r, "completed"@),
        end == LoopEnd::Exhausted ==> left_by_port(before, after, end, r, "exhausted"@),
{
    reveal_strlit("completed");
    reveal_strlit("exhausted");
    assert("completed"@[0] != "exhausted"@[0]);
}

/// The execution state of one path: where control is and the While stack.
#[derive(Debug)]
pub struct PathRunner {
    /// Validated scopes; never changed during the run.
    pub scopes: Vec<FlowScope>,
    /// Node to execute next; `None` once the path ended.
    pub current: Option<Cursor>,
    /// Active While activations, innermost last.
    pub loop_stack: Vec<LoopFrame>,
}

impl PathRunner {
    /// Every active activation keeps within its iteration budget.
    pub open spec fn wf(&self) -> bool {
        forall|i: int| 0 <= i < self.loop_stack@.len() ==> (#[trigger] self.loop_stack@[i]).wf()
    }

    /// Starts at the entry of the root scope; a workflow without nodes or
    /// without that root entry breaks a validated invariant.
    pub fn new(scopes: Vec<FlowScope>, root_scope_id: &str) -> (r: Result<PathRunner, RuntimeError>)
        ensures
            match r {
                Ok(p) => {
                    &&& p.wf()
                    &&& p.scopes@ == scopes@
                    &&& p.loop_stack@.len() == 0
                    &&& exists|s: int| last_scope(scopes@, root_scope_id@, s)
                            && cursor_at(p.current, root_scope_id@, boundary_entry(scopes@[s].boundary))
                    &&& exists|i: int| 0 <= i < scopes@.len() && (#[trigger] scopes@[i]).nodes@.len() > 0
                },
                Err(e) => e is ExecutionInvariant && ((forall|i: int| 0 <= i < scopes@.len() ==> (#[trigger] scopes@[i]).nodes@.len() == 0)
                    || (forall|i: int| 0 <= i < scopes@.len() ==> (#[trigger] scopes@[i]).id@ != root_scope_id@)),
            },
    {
        if !has_nodes(&scopes) {
            return Err(RuntimeError::ExecutionInvariant(owned("工作流没有可执行节点")));
        }
        match scope_entry(&scopes, root_scope_id) {
            None => Err(RuntimeError::ExecutionInvariant(owned("根作用域入口在校验后消失"))),
            Some(s) => {
                let entry = scopes[s].boundary.entry().clone();
                let current = Some(Cursor { scope_id: owned(root_scope_id), node_id: entry });
                Ok(PathRunner { scopes, current, loop_stack: Vec::new() })
            },
        }
    }

    /// Locates the current node and checks that it belongs to the scheduled
    /// scope; returns its (scope, node) indices.
    pub fn locate(&self) -> (r: Result<(usize, usize), RuntimeError>)
        ensures
            r is Ok <==> (self.current matches Some(c) && located_in(self.scopes@, c.node_id@, c.scope_id@)),
            match r {
                Ok((s, n)) => s < self.scopes@.len() && n < self.scopes@[s as int].nodes@.len()
                    && self.scopes@[s as int].nodes@[n as int].id@ == self.current->0.node_id@
                    && self.scopes@[s as int].id@ == self.current->0.scope_id@
                    && last_holder(flat_nodes(self.scopes@), self.current->0.node_id@,
                        flat_nodes(self.scopes@.take(s as int)).len() + n),
                Err(e) => e is ExecutionInvariant,
            },
    {
        let cursor = match &self.current { Some(c) => c, None => { return Err(RuntimeError::ExecutionInvariant(owned("执行游标缺失"))); } };
        let found = locate_node(&self.scopes, cursor.node_id.as_str());
        proof {
            if let Some((fs, fnode)) = found {
                lemma_flat_nodes_at(self.scopes@, fs as int, fnode as int);
                let k0 = flat_nodes(self.scopes@.take(fs as int)).len() + fnode;
                if located_in(self.scopes@, cursor.node_id@, cursor.scope_id@) {
                    let k = choose|k: int| last_holder(flat_nodes(self.scopes@), cursor.node_id@, k)
                        && flat_nodes(self.scopes@)[k].0 == cursor.scope_id@;
                    lemma_last_holder_unique(flat_nodes(self.scopes@), cursor.node_id@, k, k0);
                }
            }
        }
        match found {
            None => {
                let m = joined(joined("节点 '", cursor.node_id.as_str()).as_str(), "' 在校验后消失");
                Err(RuntimeError::ExecutionInvariant(m))
            },
            Some((s, n)) => {
                if text_equal(self.scopes[s].id.as_str(), cursor.scope_id.as_str()) {
                    Ok((s, n))
                } else {
                    let m = joined(joined(joined(joined("节点 '", cursor.node_id.as_str()).as_str(), "' 不属于调度作用域 '").as_str(),
                        cursor.scope_id.as_str()).as_str(), "'");
                    Err(RuntimeError::ExecutionInvariant(m))
                }
            },
        }
    }

    /// Follows the first edge that leaves `node_id` from `branch`; control
    /// stays in `scope_id`. Without such an edge the path ends.
    fn follow(&mut self, scope_id: String, node_id: &str, branch: Option<&str>) -> (taken: Option<TakenEdge>)
        ensures
            final(self).scopes@ == old(self).scopes@,
            final(self).loop_stack@ == old(self).loop_stack@,
            match taken {
                Some(t) => exists|s: int, e: int| 0 <= s < old(self).scopes@.len() && 0 <= e < old(self).scopes@[s].edges@.len()
                    && #[trigger] first_selected(flat_edges(old(self).scopes@), node_id@, opt_text(branch),
                        flat_edges(old(self).scopes@.take(s)).len() + e)
                    && t.id@ == old(self).scopes@[s].edges@[e].id@
                    && t.source@ == node_id@
                    && t.target@ == old(self).scopes@[s].edges@[e].target@
                    && cursor_at(final(self).current, scope_id@, t.target@),
                None => final(self).current is None
                    && forall|i: int| 0 <= i < flat_edges(old(self).scopes@).len()
                        ==> !edge_selected(#[trigger] flat_edges(old(self).scopes@)[i], node_id@, opt_text(branch)),
            },
    {
        match select_edge(&self.scopes, node_id, branch) {
            None => {
                self.current = None;
                None
            },
            Some((s, e)) => {
                let edge = &self.scopes[s].edges[e];
                assert(edge_selected(self.scopes@[s as int].edges@[e as int], node_id@, opt_text(branch)));
                let taken = TakenEdge { id: edge.id.clone(), source: edge.source.clone(), target: edge.target.clone() };
                let target = edge.target.clone();
                self.current = Some(Cursor { scope_id, node_id: target });
                Some(taken)
            },
        }
    }

    /// After a Start, Linear, Branch or LoopEntry node: take the edge of the
    /// selected control port in the node's scope, or end the path.
    pub fn advance(&mut self, branch: Option<&str>) -> (taken: Option<TakenEdge>)
        requires
            old(self).current is Some,
        ensures
            final(self).wf() == old(self).wf(),
            final(self).scopes@ == old(self).scopes@,
            final(self).loop_stack@ == old(self).loop_stack@,
            match taken {
                Some(t) => exists|s: int, e: int| 0 <= s < old(self).scopes@.len() && 0 <= e < old(self).scopes@[s].edges@.len()
                    && #[trigger] first_selected(flat_edges(old(self).scopes@), old(self).current->0.node_id@, opt_text(branch),
                        flat_edges(old(self).scopes@.take(s)).len() + e)
                    && t.id@ == old(self).scopes@[s].edges@[e].id@
                    && t.source@ == old(self).current->0.node_id@
                    && t.target@ == old(self).scopes@[s].edges@[e].target@
                    && cursor_at(final(self).current, old(self).current->0.scope_id@, t.target@),
                None => final(self).current is None
                    && forall|i: int| 0 <= i < flat_edges(old(self).scopes@).len()
                        ==> !edge_selected(#[trigger] flat_edges(old(self).scopes@)[i], old(self).current->0.node_id@, opt_text(branch)),
            },
    {
        let cursor = self.current.take().unwrap();
        self.follow(cursor.scope_id, cursor.node_id.as_str(), branch)
    }

    /// After an End node: the path ends here.
    pub fn end(&mut self)
        ensures
            final(self).current is None,
            final(self).scopes@ == old(self).scopes@,
            final(self).loop_stack@ == old(self).loop_stack@,
    {
        self.current = None;
    }

    /// Continue and Complete boundaries may only end the body scope of the
    /// innermost active While.
    pub fn verify_loop_boundary(&self, label: &str) -> (r: Result<(), RuntimeError>)
        requires
            self.current is Some,
        ensures
            r is Ok <==> (self.loop_stack@.len() > 0
                && self.loop_stack@.last().body_scope_id@ == self.current->0.scope_id@),
            r matches Err(e) ==> e is ExecutionInvariant,
    {
        let cursor = self.current.as_ref().unwrap();
        verify_loop_boundary(cursor, if self.loop_stack.len() > 0 { Some(&self.loop_stack[self.loop_stack.len() - 1]) } else { None }, label)
    }

    /// Enters a While container at the current node: pushes a fresh frame
    /// whose parent is the current scope.
    pub fn enter_loop(&mut self, body_scope_id: String, max_iterations: u32, timeout_ms: u64, interval_ms: u64)
        requires
            old(self).current is Some,
            old(self).wf(),
        ensures
            final(self).wf(),
            final(self).scopes@ == old(self).scopes@,
            final(self).current == old(self).current,
            final(self).loop_stack@.len() == old(self).loop_stack@.len() + 1,
            final(self).loop_stack@.drop_last() == old(self).loop_stack@,
            final(self).loop_stack@.last().parent_scope_id@ == old(self).current->0.scope_id@,
            final(self).loop_stack@.last().container_node_id@ == old(self).current->0.node_id@,
            final(self).loop_stack@.last().body_scope_id@ == body_scope_id@,
            final(self).loop_stack@.last().max_iterations == max_iterations,
            final(self).loop_stack@.last().limit() == max_iterations,
            final(self).loop_stack@.last().budget().nanos == timeout_ms * NANOS_PER_MILLI,
            final(self).loop_stack@.last().pause().nanos == interval_ms * NANOS_PER_MILLI,
            final(self).loop_stack@.last().started() == 0,
    {
        let cursor = self.current.as_ref().unwrap();
        let frame = LoopFrame::new(cursor.scope_id.clone(), cursor.node_id.clone(), body_scope_id,
            max_iterations, timeout_ms, interval_ms);
        self.loop_stack.push(frame);
        proof {
            assert(self.loop_stack@.drop_last() =~= old(self).loop_stack@);
            assert forall|i: int| 0 <= i < self.loop_stack@.len() implies (#[trigger] self.loop_stack@[i]).wf() by {
                if i < old(self).loop_stack@.len() {
                    assert(self.loop_stack@[i] == old(self).loop_stack@[i]);
                }
            }
        }
    }

    /// The pause to wait before trying the next iteration of the innermost loop.
    pub fn pause_before_next(&self) -> (p: Option<TimeSpan>)
        requires
            self.loop_stack@.len() > 0,
        ensures
            p == (if self.loop_stack@.last().started() > 0 && self.loop_stack@.last().pause().nanos != 0 {
                Some(self.loop_stack@.last().pause())
            } else {
                None::<TimeSpan>
            }),
    {
        self.loop_stack[self.loop_stack.len() - 1].pause_before_next()
    }

    /// Tries to start the next iteration of the innermost loop, `elapsed`
    /// being the time since the activation began. On success control moves
    /// to the entry of the body scope and the iteration number is returned.
    pub fn begin_next_iteration(&mut self, elapsed: TimeSpan) -> (r: Result<Option<u32>, RuntimeError>)
        requires
            old(self).wf(),
            old(self).loop_stack@.len() > 0,
        ensures
            final(self).wf(),
            final(self).scopes@ == old(self).scopes@,
            final(self).loop_stack@.len() == old(self).loop_stack@.len(),
            final(self).loop_stack@.drop_last() == old(self).loop_stack@.drop_last(),
            ({
                let top = old(self).loop_stack@.last();
                let stops = top.started() > 0 && (top.started() >= top.limit() || elapsed.nanos >= top.budget().nanos);
                match r {
                    Ok(None) => stops && final(self).current == old(self).current
                        && final(self).loop_stack@.last().started() == top.started(),
                    Ok(Some(n)) => !stops && n == top.started() + 1
                        && final(self).loop_stack@.last().started() == n
                        && exists|s: int| last_scope(old(self).scopes@, top.body_scope_id@, s)
                            && cursor_at(final(self).current, top.body_scope_id@, boundary_entry(old(self).scopes@[s].boundary)),
                    Err(e) => e is ExecutionInvariant && !stops
                        && forall|i: int| 0 <= i < old(self).scopes@.len() ==> (#[trigger] old(self).scopes@[i]).id@ != top.body_scope_id@,
                }
            }),
    {
        let last = self.loop_stack.len() - 1;
        let mut frame = self.loop_stack.remove(last);
        assert(old(self).loop_stack@[last as int].wf());
        let r = frame.begin_next_iteration(elapsed);
        let result = match r {
            None => Ok(None),
            Some(iteration) => {
                match scope_entry(&self.scopes, frame.body_scope_id.as_str()) {
                    None => {
                        let m = joined(joined("While 子作用域 '", frame.body_scope_id.as_str()).as_str(), "' 没有入口");
                        Err(RuntimeError::ExecutionInvariant(m))
                    },
                    Some(s) => {
                        let entry = self.scopes[s].boundary.entry().clone();
                        self.current = Some(Cursor { scope_id: frame.body_scope_id.clone(), node_id: entry });
                        Ok(Some(iteration))
                    },
                }
            },
        };
        self.loop_stack.push(frame);
        proof {
            assert(self.loop_stack@.drop_last() =~= old(self).loop_stack@.drop_last());
            assert forall|i: int| 0 <= i < self.loop_stack@.len() implies (#[trigger] self.loop_stack@[i]).wf() by {
                if i < last {
                    assert(self.loop_stack@[i] == old(self).loop_stack@[i]);
                }
            }
        }
        result
    }

    /// Leaves the innermost While by its `completed` or `exhausted` port:
    /// pops its frame and takes that port's edge from the container in the
    /// parent scope, or ends the path when there is none.
    pub fn finish_loop(&mut self, end: LoopEnd) -> (r: Result<LoopExit, RuntimeError>)
        requires
            old(self).wf(),
        ensures
            final(self).wf(),
            final(self).scopes@ == old(self).scopes@,
            loop_left(*old(self), *final(self), end, r),
    {
        if self.loop_stack.len() == 0 {
            return Err(RuntimeError::ExecutionInvariant(owned("结束 While 时缺少活动帧")));
        }
        let frame = self.loop_stack.pop().unwrap();
        proof {
            assert forall|i: int| 0 <= i < self.loop_stack@.len() implies (#[trigger] self.loop_stack@[i]).wf() by {
                assert(self.loop_stack@[i] == old(self).loop_stack@[i]);
            }
        }
        let port = match end { LoopEnd::Completed => "completed", LoopEnd::Exhausted => "exhausted" };
        proof {
            reveal_strlit("completed");
            reveal_strlit("exhausted");
        }
        assert(opt_text(Some(port)) == Some(loop_port(end)));
        assert(frame == old(self).loop_stack@.last());
        assert(self.loop_stack@ =~= old(self).loop_stack@.drop_last());
        let iterations = frame.iterations();
        let edge = self.follow(frame.parent_scope_id, frame.container_node_id.as_str(), Some(port));
        Ok(LoopExit { container_node_id: frame.container_node_id, iterations, end, edge })
    }

    /// The path may only end when no While is active any more.
    pub fn finish(&self) -> (r: Result<(), RuntimeError>)
        ensures
            r is Ok <==> self.loop_stack@.len() == 0,
            r matches Err(e) ==> e is ExecutionInvariant,
    {
        if self.loop_stack.len() == 0 {
            Ok(())
        } else {
            Err(RuntimeError::ExecutionInvariant(owned("执行路径在 While 子作用域中意外结束")))
        }
    }
}

/// Continue and Complete boundaries may only end the body scope of the
/// innermost active While frame.
pub fn verify_loop_boundary(cursor: &Cursor, frame: Option<&LoopFrame>, label: &str) -> (r: Result<(), RuntimeError>)
    ensures
        r is Ok <==> (frame matches Some(f) && f.body_scope_id@ == cursor.scope_id@),
        r matches Err(e) ==> (e matches RuntimeError::ExecutionInvariant(m) && m@ == label@ + "边界不属于当前 While 帧"@),
{
    match frame {
        Some(f) if text_equal(f.body_scope_id.as_str(), cursor.scope_id.as_str()) => Ok(()),
        _ => Err(RuntimeError::ExecutionInvariant(joined(label, "边界不属于当前 While 帧"))),
    }
}

} // verus!
