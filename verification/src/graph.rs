//! Multi-scope workflow graphs: scopes with typed boundaries, nodes and
//! document-ordered control edges.

use vstd::prelude::*;
use vstd::string::*;
use crate::json::{jview, JsonValue, JsonView};

verus! {

/// A directed control edge inside one scope.
#[derive(Debug, Clone)]
pub struct WorkflowEdge {
    /// Stable edge ID.
    pub id: String,
    /// Source node ID.
    pub source: String,
    /// Target node ID.
    pub target: String,
    /// Control port the edge leaves from; `None` for the default port.
    pub branch: Option<String>,
}

/// A node of a scope: its type, versioned payload and output mappings.
#[derive(Debug)]
pub struct WorkflowNode {
    /// Globally unique node ID.
    pub id: String,
    /// Registered node type.
    pub type_id: String,
    /// Payload schema version.
    pub version: u32,
    /// Payload.
    pub payload: JsonValue,
    /// Custom output mappings.
    pub output_bindings: JsonValue,
}

/// Typed fixed boundary nodes of a scope.
#[derive(Debug, Clone)]
pub enum ScopeBoundary {
    /// Root scope of a workflow.
    Workflow {
        /// Entry node.
        entry_node_id: String,
    },
    /// Root scope of a reusable component.
    Component {
        /// Entry node.
        entry_node_id: String,
        /// Exit node.
        exit_node_id: String,
    },
    /// Body of a While container.
    Loop {
        /// Entry node.
        entry_node_id: String,
        /// Exit that starts the next iteration.
        continue_node_id: String,
        /// Exit that completes the loop.
        complete_node_id: String,
    },
}

/// Owner of a child scope.
#[derive(Debug, Clone)]
pub struct ScopeParent {
    /// Scope holding the container.
    pub scope_id: String,
    /// Container node.
    pub node_id: String,
}

/// One scope of a workflow graph.
#[derive(Debug)]
pub struct FlowScope {
    /// Stable scope ID.
    pub id: String,
    /// Container owning the scope; `None` for a root scope.
    pub parent: Option<ScopeParent>,
    /// Fixed boundary nodes.
    pub boundary: ScopeBoundary,
    /// Nodes in document order.
    pub nodes: Vec<WorkflowNode>,
    /// Control edges in document order.
    pub edges: Vec<WorkflowEdge>,
}

/// Entry node of a boundary.
pub open spec fn boundary_entry(b: ScopeBoundary) -> Seq<char> {
    match b {
        ScopeBoundary::Workflow { entry_node_id } => entry_node_id@,
        ScopeBoundary::Component { entry_node_id, .. } => entry_node_id@,
        ScopeBoundary::Loop { entry_node_id, .. } => entry_node_id@,
    }
}

impl ScopeBoundary {
    /// Entry node of the scope.
    pub fn entry(&self) -> (e: &String)
        ensures
            e@ == boundary_entry(*self),
    {
        match self {
            ScopeBoundary::Workflow { entry_node_id } => entry_node_id,
            ScopeBoundary::Component { entry_node_id, .. } => entry_node_id,
            ScopeBoundary::Loop { entry_node_id, .. } => entry_node_id,
        }
    }
}

/// Branch label of an edge as text, if any.
pub open spec fn branch_view(b: Option<String>) -> Option<Seq<char>> {
    match b {
        Some(s) => Some(s@),
        None => None,
    }
}

/// Mathematical value of a node.
pub struct NodeView {
    /// Node ID.
    pub id: Seq<char>,
    /// Node type.
    pub type_id: Seq<char>,
    /// Payload version.
    pub version: u32,
    /// Payload.
    pub payload: JsonView,
    /// Output mappings.
    pub output_bindings: JsonView,
}

/// The value of a node.
pub open spec fn node_view(n: WorkflowNode) -> NodeView {
    NodeView { id: n.id@, type_id: n.type_id@, version: n.version, payload: jview(n.payload), output_bindings: jview(n.output_bindings) }
}

/// Mathematical value of an edge.
pub struct EdgeView {
    /// Edge ID.
    pub id: Seq<char>,
    /// Source node.
    pub source: Seq<char>,
    /// Target node.
    pub target: Seq<char>,
    /// Control port.
    pub branch: Option<Seq<char>>,
}

/// The value of an edge.
pub open spec fn edge_view(e: WorkflowEdge) -> EdgeView {
    EdgeView { id: e.id@, source: e.source@, target: e.target@, branch: branch_view(e.branch) }
}

/// Mathematical value of a boundary.
pub enum BoundaryView {
    /// Root of a workflow.
    Workflow(Seq<char>),
    /// Root of a component: entry and exit.
    Component(Seq<char>, Seq<char>),
    /// While body: entry, continue and complete.
    Loop(Seq<char>, Seq<char>, Seq<char>),
}

/// The value of a boundary.
pub open spec fn boundary_view(b: ScopeBoundary) -> BoundaryView {
    match b {
        ScopeBoundary::Workflow { entry_node_id } => BoundaryView::Workflow(entry_node_id@),
        ScopeBoundary::Component { entry_node_id, exit_node_id } => BoundaryView::Component(entry_node_id@, exit_node_id@),
        ScopeBoundary::Loop { entry_node_id, continue_node_id, complete_node_id } =>
            BoundaryView::Loop(entry_node_id@, continue_node_id@, complete_node_id@),
    }
}

/// Values of a list of nodes.
pub open spec fn node_views(s: Seq<WorkflowNode>) -> Seq<NodeView> {
    s.map_values(|n: WorkflowNode| node_view(n))
}

/// Values of a list of edges.
pub open spec fn edge_views(s: Seq<WorkflowEdge>) -> Seq<EdgeView> {
    s.map_values(|e: WorkflowEdge| edge_view(e))
}

/// Mathematical value of a scope.
pub struct ScopeView {
    /// Scope ID.
    pub id: Seq<char>,
    /// Owning (scope, container node), if any.
    pub parent: Option<(Seq<char>, Seq<char>)>,
    /// Boundary.
    pub boundary: BoundaryView,
    /// Nodes in order.
    pub nodes: Seq<NodeView>,
    /// Edges in order.
    pub edges: Seq<EdgeView>,
}

/// The value of a scope.
pub open spec fn scope_view(s: FlowScope) -> ScopeView {
    ScopeView {
        id: s.id@,
        parent: match s.parent { Some(p) => Some((p.scope_id@, p.node_id@)), None => None },
        boundary: boundary_view(s.boundary),
        nodes: node_views(s.nodes@),
        edges: edge_views(s.edges@),
    }
}

/// Values of a list of scopes.
pub open spec fn scopes_view(s: Seq<FlowScope>) -> Seq<ScopeView> {
    s.map_values(|x: FlowScope| scope_view(x))
}

} // verus!
