//! Execution events: strictly increasing sequence numbers, attribution of
//! expanded nodes to the nested editor, and the events one path step emits.

use vstd::prelude::*;
use vstd::string::*;
use crate::component::{
    attribute_event, attribution, opt_string, path_view, records_view, ComponentSourceFrame, ComponentSourceMap,
};
use crate::graph::WorkflowEdge;
use crate::nodes::{NodeEvent, NodeEventKind};
use crate::path::LoopEnd;
use crate::text::{decimal, decimal_text, joined, owned};

verus! {

/// What an execution event reports.
#[derive(Debug, Clone, Copy, PartialEq, Eq, Structural)]
pub enum ExecutionEventKind {
    WorkflowStarted,
    WorkflowCompleted,
    WorkflowFailed,
    WorkflowFailureDeclared,
    NodeStarted,
    NodeSucceeded,
    NodeFailed,
    NodeOutputProduced,
    EdgeTraversed,
    Log,
    LoopStarted,
    LoopIteration,
    LoopCompleted,
    LoopExhausted,
    ResourceAcquired,
    CommandExited,
    BackendSelected,
    ObservationEvaluated,
    DiagnosticEvidenceCaptured,
}

/// Structured data attached to an event.
#[derive(Debug)]
pub enum EventPayload {
    NodeOutputsProduced { output_names: Vec<String> },
    WorkflowFailureDeclared { code: String },
    CommandExited { exit_code: i32 },
    LoopStarted { scope_id: String, max_iterations: u32 },
    LoopIteration { iteration: u32, max_iterations: u32 },
    LoopCompleted { iterations: u32 },
    LoopExhausted { iterations: u32 },
}

/// One execution event of a run.
#[derive(Debug)]
pub struct ExecutionEvent {
    pub run_id: u128,
    pub workflow_id: u128,
    /// Position of the event in its run, counted from 0.
    pub sequence: u64,
    /// Node the event is shown on.
    pub node_id: Option<String>,
    /// The expanded node the event happened on, when it is shown on a component instance.
    pub expanded_node_id: Option<String>,
    /// Component path of the expanded node, outermost first.
    pub component_path: Vec<ComponentSourceFrame>,
    pub edge_id: Option<String>,
    pub kind: ExecutionEventKind,
    pub message: Option<String>,
    pub payload: Option<EventPayload>,
}

/// Kind of the execution event that reports a node's own event.
pub open spec fn kind_of(k: NodeEventKind) -> ExecutionEventKind {
    match k {
        NodeEventKind::Log => ExecutionEventKind::Log,
        NodeEventKind::WorkflowFailureDeclared { .. } => ExecutionEventKind::WorkflowFailureDeclared,
        NodeEventKind::CommandExited { .. } => ExecutionEventKind::CommandExited,
    }
}

/// Payload of the execution event that reports a node's own event.
pub open spec fn payload_of(k: NodeEventKind) -> Option<EventPayload> {
    match k {
        NodeEventKind::Log => None,
        NodeEventKind::WorkflowFailureDeclared { code } => Some(EventPayload::WorkflowFailureDeclared { code }),
        NodeEventKind::CommandExited { exit_code } => Some(EventPayload::CommandExited { exit_code }),
    }
}

fn convert_kind(k: NodeEventKind) -> (r: (ExecutionEventKind, Option<EventPayload>))
    ensures
        r == (kind_of(k), payload_of(k)),
{
    match k {
        NodeEventKind::Log => (ExecutionEventKind::Log, None),
        NodeEventKind::WorkflowFailureDeclared { code } => (ExecutionEventKind::WorkflowFailureDeclared,
            Some(EventPayload::WorkflowFailureDeclared { code })),
        NodeEventKind::CommandExited { exit_code } => (ExecutionEventKind::CommandExited,
            Some(EventPayload::CommandExited { exit_code })),
    }
}

/// `e` was built as event number `before` of run `run_id`, and the counter
/// then stood at `after`.
pub open spec fn numbered(e: ExecutionEvent, run_id: u128, workflow_id: u128, before: u64, after: u64) -> bool {
    &&& e.sequence == before
    &&& after == before + 1
    &&& e.run_id == run_id
    &&& e.workflow_id == workflow_id
    &&& e.expanded_node_id is None
    &&& e.component_path@.len() == 0
}

/// Builds the next event of a run and advances the run's counter.
pub fn build_event(run_id: u128, workflow_id: u128, sequence: &mut u64, node_id: Option<String>,
    edge_id: Option<String>, kind: ExecutionEventKind, message: Option<String>, payload: Option<EventPayload>)
    -> (e: ExecutionEvent)
    requires
        *old(sequence) < u64::MAX,
    ensures
        numbered(e, run_id, workflow_id, *old(sequence), *final(sequence)),
        e.node_id == node_id,
        e.edge_id == edge_id,
        e.kind == kind,
        e.message == message,
        e.payload == payload,
{
    let e = ExecutionEvent {
        run_id,
        workflow_id,
        sequence: *sequence,
        node_id,
        expanded_node_id: None,
        component_path: Vec::new(),
        edge_id,
        kind,
        message,
        payload,
    };
    *sequence = *sequence + 1;
    e
}

/// Events built one after another on the same counter carry strictly
/// increasing sequence numbers, each one more than the last.
pub proof fn lemma_sequence_increases(first: ExecutionEvent, second: ExecutionEvent, run_id: u128,
    workflow_id: u128, s0: u64, s1: u64, s2: u64)
    requires
        numbered(first, run_id, workflow_id, s0, s1),
        numbered(second, run_id, workflow_id, s1, s2),
    ensures
        first.sequence < second.sequence,
        second.sequence == first.sequence + 1,
        s2 == s0 + 2,
{
}

/// Everything of `r` but where it is shown is that of `e`.
pub open spec fn same_content(r: ExecutionEvent, e: ExecutionEvent) -> bool {
    &&& r.run_id == e.run_id
    &&& r.workflow_id == e.workflow_id
    &&& r.sequence == e.sequence
    &&& r.edge_id == e.edge_id
    &&& r.kind == e.kind
    &&& r.message == e.message
    &&& r.payload == e.payload
}

/// Shows an event on the outermost component instance when it happened on
/// an expanded node with a recorded, non-empty component path, keeping the
/// expanded node and the path; any other event is left as it is.
pub fn attribute(event: ExecutionEvent, source_map: &ComponentSourceMap) -> (r: ExecutionEvent)
    ensures
        same_content(r, event),
        (match opt_string(event.node_id) {
            Some(id) => attribution(Some(id), records_view(source_map.nodes@)).1 is Some,
            None => false,
        }) ==> (opt_string(r.node_id), opt_string(r.expanded_node_id), path_view(r.component_path@))
            == attribution(opt_string(event.node_id), records_view(source_map.nodes@)),
        !(match opt_string(event.node_id) {
            Some(id) => attribution(Some(id), records_view(source_map.nodes@)).1 is Some,
            None => false,
        }) ==> r.node_id == event.node_id && r.expanded_node_id == event.expanded_node_id
            && r.component_path == event.component_path,
{
    let attributed = match &event.node_id {
        Some(id) => {
            let source = attribute_event(Some(id.as_str()), source_map);
            if source.expanded_node_id.is_some() { Some(source) } else { None }
        },
        None => None,
    };
    match attributed {
        Some(source) => ExecutionEvent {
            run_id: event.run_id,
            workflow_id: event.workflow_id,
            sequence: event.sequence,
            node_id: source.node_id,
            expanded_node_id: source.expanded_node_id,
            component_path: source.component_path,
            edge_id: event.edge_id,
            kind: event.kind,
            message: event.message,
            payload: event.payload,
        },
        None => event,
    }
}

/// Message of the event that announces published outputs.
pub open spec fn outputs_message(count: nat) -> Seq<char> {
    "已产生 "@ + decimal(count) + " 个公开值输出"@
}

/// Message of the event that announces a traversed edge.
pub open spec fn edge_message(source: Seq<char>, target: Seq<char>) -> Seq<char> {
    source + " → "@ + target
}

/// The events after a node succeeded, numbered from `start`: the node's
/// own events in order, a published-outputs event when the node published
/// any, the success, and the traversed edge when one was chosen.
pub open spec fn finish_events_are(r: Seq<ExecutionEvent>, run_id: u128, workflow_id: u128, start: u64,
    node_id: Seq<char>, node_events: Seq<NodeEvent>, output_names: Vec<String>,
    edge: Option<(Seq<char>, Seq<char>, Seq<char>)>) -> bool {
    let n: int = node_events.len() as int;
    let o: int = if output_names@.len() > 0 { 1 } else { 0 };
    let t: int = if edge is Some { 1 } else { 0 };
    &&& r.len() == 1 + n + o + t
    &&& forall|i: int| 0 <= i < r.len() ==> (#[trigger] r[i]).sequence == start + i && r[i].run_id == run_id
        && r[i].workflow_id == workflow_id && r[i].expanded_node_id is None && r[i].component_path@.len() == 0
    &&& forall|i: int| 0 <= i < n ==> {
        &&& (#[trigger] r[i]).kind == kind_of(node_events[i].kind)
        &&& opt_string(r[i].node_id) == Some(node_id)
        &&& r[i].edge_id is None
        &&& r[i].message == node_events[i].message
        &&& r[i].payload == payload_of(node_events[i].kind)
    }
    &&& o == 1 ==> {
        let e = r[n];
        &&& e.kind == ExecutionEventKind::NodeOutputProduced
        &&& opt_string(e.node_id) == Some(node_id)
        &&& e.edge_id is None
        &&& opt_string(e.message) == Some(outputs_message(output_names@.len()))
        &&& e.payload == Some(EventPayload::NodeOutputsProduced { output_names })
    }
    &&& r[n + o].kind == ExecutionEventKind::NodeSucceeded && opt_string(r[n + o].node_id) == Some(node_id)
        && r[n + o].edge_id is None && r[n + o].message is None && r[n + o].payload is None
    &&& match edge {
        Some((id, source, target)) => {
            let e = r[1 + n + o];
            &&& e.kind == ExecutionEventKind::EdgeTraversed
            &&& e.node_id is None
            &&& opt_string(e.edge_id) == Some(id)
            &&& opt_string(e.message) == Some(edge_message(source, target))
            &&& e.payload is None
        },
        None => true,
    }
}

/// Law: each of a node's own events is reported, in its place, as the
/// execution event of the same kind with the same message: a log line as a
/// `Log` without payload, a declared workflow failure as
/// `WorkflowFailureDeclared` carrying its code, a command exit as
/// `CommandExited` carrying its exit code; no two node event kinds are
/// reported with the same execution event kind.
pub proof fn lemma_node_events_keep_their_kind(r: Seq<ExecutionEvent>, run_id: u128, workflow_id: u128, start: u64,
    node_id: Seq<char>, node_events: Seq<NodeEvent>, output_names: Vec<String>,
    edge: Option<(Seq<char>, Seq<char>, Seq<char>)>, i: int)
    requires
        finish_events_are(r, run_id, workflow_id, start, node_id, node_events, output_names, edge),
        0 <= i < node_events.len(),
    ensures
        r[i].message == node_events[i].message,
        r[i].sequence == start + i,
        opt_string(r[i].node_id) == Some(node_id),
        node_events[i].kind is Log ==> r[i].kind == ExecutionEventKind::Log && r[i].payload is None,
        node_events[i].kind matches NodeEventKind::WorkflowFailureDeclared { code } ==>
            r[i].kind == ExecutionEventKind::WorkflowFailureDeclared
            && r[i].payload == Some(EventPayload::WorkflowFailureDeclared { code }),
        node_events[i].kind matches NodeEventKind::CommandExited { exit_code } ==>
            r[i].kind == ExecutionEventKind::CommandExited
            && r[i].payload == Some(EventPayload::CommandExited { exit_code }),
        r[i].kind == ExecutionEventKind::Log ==> node_events[i].kind is Log,
        r[i].kind == ExecutionEventKind::WorkflowFailureDeclared ==> node_events[i].kind is WorkflowFailureDeclared,
        r[i].kind == ExecutionEventKind::CommandExited ==> node_events[i].kind is CommandExited,
{
    assert(r[i].kind == kind_of(node_events[i].kind));
    assert(r[i].sequence == start + i);
}

/// Law: the message of a traversed edge reads from its source to its
/// target: the source first, then ` → `, then the target.
pub proof fn lemma_edge_message_reads_forward(source: Seq<char>, target: Seq<char>)
    ensures
        edge_message(source, target).len() == source.len() + 3 + target.len(),
        edge_message(source, target).take(source.len() as int) == source,
        edge_message(source, target).subrange(source.len() as int, source.len() + 3int) == " → "@,
        edge_message(source, target).skip(source.len() + 3int) == target,
{
    reveal_strlit(" → ");
    let m = edge_message(source, target);
    assert(m.take(source.len() as int) =~= source);
    assert(m.subrange(source.len() as int, source.len() + 3int) =~= " → "@);
    assert(m.skip(source.len() + 3int) =~= target);
}

/// Law: the message announcing published outputs carries their count in
/// decimal between its fixed words.
pub proof fn lemma_outputs_message_counts(count: nat)
    ensures
        outputs_message(count).subrange(4, 4 + decimal(count).len() as int) == decimal(count),
        outputs_message(count).take(4) == "已产生 "@,
        outputs_message(count).skip(4 + decimal(count).len() as int) == " 个公开值输出"@,
{
    reveal_strlit("已产生 ");
    let m = outputs_message(count);
    assert(m.subrange(4, 4 + decimal(count).len() as int) =~= decimal(count));
    assert(m.take(4) =~= "已产生 "@);
    assert(m.skip(4 + decimal(count).len() as int) =~= " 个公开值输出"@);
}

/// Identity, source and target of an edge.
pub open spec fn edge_view(edge: Option<&WorkflowEdge>) -> Option<(Seq<char>, Seq<char>, Seq<char>)> {
    match edge {
        Some(e) => Some((e.id@, e.source@, e.target@)),
        None => None,
    }
}

/// The event that announces a node before it runs, with its label.
pub fn node_started(run_id: u128, workflow_id: u128, sequence: &mut u64, node_id: &str, label: String)
    -> (e: ExecutionEvent)
    requires
        *old(sequence) < u64::MAX,
    ensures
        numbered(e, run_id, workflow_id, *old(sequence), *final(sequence)),
        e.kind == ExecutionEventKind::NodeStarted,
        opt_string(e.node_id) == Some(node_id@) && e.edge_id is None && e.payload is None,
        opt_string(e.message) == Some(label@),
{
    build_event(run_id, workflow_id, sequence, Some(owned(node_id)), None, ExecutionEventKind::NodeStarted,
        Some(label), None)
}

/// Builds, in order, the events of a node that executed and published its
/// outcome, followed by the edge chosen after it, if any.
pub fn node_finished_events(run_id: u128, workflow_id: u128, sequence: &mut u64, node_id: &str,
    node_events: Vec<NodeEvent>, output_names: Vec<String>, edge: Option<&WorkflowEdge>)
    -> (r: Vec<ExecutionEvent>)
    requires
        *old(sequence) + node_events@.len() + 3 <= u64::MAX,
    ensures
        finish_events_are(r@, run_id, workflow_id, *old(sequence), node_id@, node_events@, output_names,
            edge_view(edge)),
        *final(sequence) == *old(sequence) + r@.len(),
{
    let ghost start = *sequence;
    let ghost own = node_events@;
    let mut out: Vec<ExecutionEvent> = Vec::new();
    let mut rest = node_events;
    let total: usize = rest.len();
    let mut i: usize = 0;
    while rest.len() > 0
        invariant
            i + rest@.len() == own.len(),
            own.len() == total,
            rest@ == own.skip(i as int),
            start + own.len() + 3 <= u64::MAX,
            *sequence == start + i,
            out@.len() == i,
            forall|k: int| 0 <= k < out@.len() ==> (#[trigger] out@[k]).sequence == start + k && out@[k].run_id == run_id
                && out@[k].workflow_id == workflow_id && out@[k].expanded_node_id is None
                && out@[k].component_path@.len() == 0,
            forall|k: int| 0 <= k < i ==> {
                &&& (#[trigger] out@[k]).kind == kind_of(own[k].kind)
                &&& opt_string(out@[k].node_id) == Some(node_id@)
                &&& out@[k].edge_id is None
                &&& out@[k].message == own[k].message
                &&& out@[k].payload == payload_of(own[k].kind)
            },
        decreases rest@.len(),
    {
        let ev = rest.remove(0);
        assert(ev == own[i as int]);
        assert(rest@ =~= own.skip(i + 1));
        let (kind, payload) = convert_kind(ev.kind);
        let e = build_event(run_id, workflow_id, sequence, Some(owned(node_id)), None, kind, ev.message, payload);
        out.push(e);
        i += 1;
    }
    let count = output_names.len();
    if count > 0 {
        let digits = decimal_text(count as u64);
        let head = joined("已产生 ", digits.as_str());
        let message = joined(head.as_str(), " 个公开值输出");
        proof {
            reveal_strlit("已产生 ");
            reveal_strlit(" 个公开值输出");
        }
        let e = build_event(run_id, workflow_id, sequence, Some(owned(node_id)), None,
            ExecutionEventKind::NodeOutputProduced, Some(message),
            Some(EventPayload::NodeOutputsProduced { output_names }));
        out.push(e);
    }
    let done = build_event(run_id, workflow_id, sequence, Some(owned(node_id)), None,
        ExecutionEventKind::NodeSucceeded, None, None);
    out.push(done);
    match edge {
        Some(edge) => {
            let arrow = joined(edge.source.as_str(), " → ");
            let message = joined(arrow.as_str(), edge.target.as_str());
            let e = build_event(run_id, workflow_id, sequence, None, Some(edge.id.clone()),
                ExecutionEventKind::EdgeTraversed, Some(message), None);
            out.push(e);
        },
        None => {},
    }
    out
}

/// The event of a traversed edge.
pub fn edge_traversed(run_id: u128, workflow_id: u128, sequence: &mut u64, edge_id: &str, source: &str, target: &str)
    -> (e: ExecutionEvent)
    requires
        *old(sequence) < u64::MAX,
    ensures
        numbered(e, run_id, workflow_id, *old(sequence), *final(sequence)),
        e.kind == ExecutionEventKind::EdgeTraversed,
        e.node_id is None && opt_string(e.edge_id) == Some(edge_id@) && e.payload is None,
        opt_string(e.message) == Some(edge_message(source@, target@)),
{
    let arrow = joined(source, " → ");
    let message = joined(arrow.as_str(), target);
    build_event(run_id, workflow_id, sequence, None, Some(owned(edge_id)), ExecutionEventKind::EdgeTraversed,
        Some(message), None)
}

/// The event of a While container that starts, with its body scope and budget.
pub fn loop_started(run_id: u128, workflow_id: u128, sequence: &mut u64, container_node_id: &str, body_scope_id: &str,
    max_iterations: u32) -> (e: ExecutionEvent)
    requires
        *old(sequence) < u64::MAX,
    ensures
        numbered(e, run_id, workflow_id, *old(sequence), *final(sequence)),
        e.kind == ExecutionEventKind::LoopStarted,
        opt_string(e.node_id) == Some(container_node_id@) && e.edge_id is None,
        opt_string(e.message) == Some("开始执行 While 容器"@),
        e.payload matches Some(EventPayload::LoopStarted { scope_id, max_iterations: m })
            && scope_id@ == body_scope_id@ && m == max_iterations,
{
    build_event(run_id, workflow_id, sequence, Some(owned(container_node_id)), None, ExecutionEventKind::LoopStarted,
        Some(String::from_str("开始执行 While 容器")),
        Some(EventPayload::LoopStarted { scope_id: owned(body_scope_id), max_iterations }))
}

/// Message of the event that starts iteration `iteration`.
pub open spec fn iteration_message(iteration: u32) -> Seq<char> {
    "开始第 "@ + decimal(iteration as nat) + " 次重复"@
}

/// The event of a While iteration that starts.
pub fn loop_iteration(run_id: u128, workflow_id: u128, sequence: &mut u64, container_node_id: &str, iteration: u32,
    max_iterations: u32) -> (e: ExecutionEvent)
    requires
        *old(sequence) < u64::MAX,
    ensures
        numbered(e, run_id, workflow_id, *old(sequence), *final(sequence)),
        e.kind == ExecutionEventKind::LoopIteration,
        opt_string(e.node_id) == Some(container_node_id@) && e.edge_id is None,
        opt_string(e.message) == Some(iteration_message(iteration)),
        e.payload == Some(EventPayload::LoopIteration { iteration, max_iterations }),
{
    let digits = decimal_text(iteration as u64);
    let head = joined("开始第 ", digits.as_str());
    let message = joined(head.as_str(), " 次重复");
    build_event(run_id, workflow_id, sequence, Some(owned(container_node_id)), None, ExecutionEventKind::LoopIteration,
        Some(message), Some(EventPayload::LoopIteration { iteration, max_iterations }))
}

/// The event of a While container that was left, normally or at its budget.
pub fn loop_finished(run_id: u128, workflow_id: u128, sequence: &mut u64, container_node_id: &str, end: LoopEnd,
    iterations: u32) -> (e: ExecutionEvent)
    requires
        *old(sequence) < u64::MAX,
    ensures
        numbered(e, run_id, workflow_id, *old(sequence), *final(sequence)),
        opt_string(e.node_id) == Some(container_node_id@) && e.edge_id is None,
        end == LoopEnd::Completed ==> e.kind == ExecutionEventKind::LoopCompleted
            && opt_string(e.message) == Some("While 已正常完成"@)
            && e.payload == Some(EventPayload::LoopCompleted { iterations }),
        end == LoopEnd::Exhausted ==> e.kind == ExecutionEventKind::LoopExhausted
            && opt_string(e.message) == Some("While 已达到次数或时间上限"@)
            && e.payload == Some(EventPayload::LoopExhausted { iterations }),
{
    match end {
        LoopEnd::Completed => build_event(run_id, workflow_id, sequence, Some(owned(container_node_id)), None,
            ExecutionEventKind::LoopCompleted, Some(String::from_str("While 已正常完成")),
            Some(EventPayload::LoopCompleted { iterations })),
        LoopEnd::Exhausted => build_event(run_id, workflow_id, sequence, Some(owned(container_node_id)), None,
            ExecutionEventKind::LoopExhausted, Some(String::from_str("While 已达到次数或时间上限")),
            Some(EventPayload::LoopExhausted { iterations })),
    }
}

/// The event that opens a run.
pub fn workflow_started(run_id: u128, workflow_id: u128, sequence: &mut u64, name: &str) -> (e: ExecutionEvent)
    requires
        *old(sequence) < u64::MAX,
    ensures
        numbered(e, run_id, workflow_id, *old(sequence), *final(sequence)),
        e.kind == ExecutionEventKind::WorkflowStarted,
        e.node_id is None && e.edge_id is None && e.payload is None,
        opt_string(e.message) == Some("开始执行工作流："@ + name@),
{
    let message = joined("开始执行工作流：", name);
    build_event(run_id, workflow_id, sequence, None, None, ExecutionEventKind::WorkflowStarted, Some(message), None)
}

/// The event that closes a run: completion, or failure with the text of
/// the run's error.
pub fn workflow_finished(run_id: u128, workflow_id: u128, sequence: &mut u64, failure: Option<String>)
    -> (e: ExecutionEvent)
    requires
        *old(sequence) < u64::MAX,
    ensures
        numbered(e, run_id, workflow_id, *old(sequence), *final(sequence)),
        e.node_id is None && e.edge_id is None && e.payload is None,
        match failure {
            Some(text) => e.kind == ExecutionEventKind::WorkflowFailed && opt_string(e.message) == Some(text@),
            None => e.kind == ExecutionEventKind::WorkflowCompleted && opt_string(e.message) == Some("工作流执行完成"@),
        },
{
    match failure {
        Some(text) => build_event(run_id, workflow_id, sequence, None, None, ExecutionEventKind::WorkflowFailed,
            Some(text), None),
        None => build_event(run_id, workflow_id, sequence, None, None, ExecutionEventKind::WorkflowCompleted,
            Some(String::from_str("工作流执行完成")), None),
    }
}

/// The event of a node that failed, with the text of its error.
pub fn node_failed(run_id: u128, workflow_id: u128, sequence: &mut u64, node_id: &str, error_text: String)
    -> (e: ExecutionEvent)
    requires
        *old(sequence) < u64::MAX,
    ensures
        numbered(e, run_id, workflow_id, *old(sequence), *final(sequence)),
        e.kind == ExecutionEventKind::NodeFailed,
        opt_string(e.node_id) == Some(node_id@) && e.edge_id is None && e.payload is None,
        opt_string(e.message) == Some(error_text@),
{
    build_event(run_id, workflow_id, sequence, Some(owned(node_id)), None, ExecutionEventKind::NodeFailed,
        Some(error_text), None)
}

} // verus!
