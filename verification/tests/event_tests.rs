use argusflow_runtime::component::{ComponentSourceFrame, ComponentSourceMap};
use argusflow_runtime::events::{
    attribute, build_event, edge_traversed, loop_finished, loop_iteration, loop_started, node_failed, node_finished_events, node_started, workflow_finished, workflow_started, EventPayload,
    ExecutionEventKind,
};
use argusflow_runtime::nodes::{NodeEvent, NodeEventKind};
use argusflow_runtime::graph::WorkflowEdge;
use argusflow_runtime::path::LoopEnd;

#[test]
fn events_are_numbered_in_strictly_increasing_order() {
    let mut seq = 0u64;
    let a = build_event(1, 2, &mut seq, None, None, ExecutionEventKind::Log, None, None);
    let b = build_event(1, 2, &mut seq, Some("n".to_string()), None, ExecutionEventKind::Log, None, None);
    assert_eq!(a.sequence, 0);
    assert_eq!(b.sequence, 1);
    assert_eq!(seq, 2);
    assert_eq!(b.node_id.as_deref(), Some("n"));
    let started = workflow_started(1, 2, &mut seq, "流程");
    assert_eq!(started.sequence, 2);
    assert_eq!(started.message.as_deref(), Some("开始执行工作流：流程"));
    let done = workflow_finished(1, 2, &mut seq, None);
    assert_eq!(done.kind, ExecutionEventKind::WorkflowCompleted);
    assert_eq!(done.message.as_deref(), Some("工作流执行完成"));
    let failed = workflow_finished(1, 2, &mut seq, Some("坏了".to_string()));
    assert_eq!(failed.kind, ExecutionEventKind::WorkflowFailed);
    assert_eq!(failed.message.as_deref(), Some("坏了"));
    let node = node_failed(1, 2, &mut seq, "n", "错误".to_string());
    assert_eq!(node.sequence, 5);
    assert_eq!(node.kind, ExecutionEventKind::NodeFailed);
    assert_eq!(seq, 6);
}

#[test]
fn a_node_step_emits_start_own_events_outputs_success_and_edge() {
    let mut seq = 7u64;
    let own = vec![
        NodeEvent { kind: NodeEventKind::Log, message: Some("日志".to_string()) },
        NodeEvent { kind: NodeEventKind::CommandExited { exit_code: 3 }, message: None },
    ];
    let edge = WorkflowEdge { id: "e1".to_string(), source: "a".to_string(), target: "b".to_string(), branch: None };
    let start = node_started(9, 10, &mut seq, "a", "标签".to_string());
    let mut events = vec![start];
    events.extend(node_finished_events(9, 10, &mut seq, "a", own, vec!["x".to_string(), "y".to_string()], Some(&edge)));
    let kinds: Vec<_> = events.iter().map(|e| e.kind).collect();
    assert_eq!(kinds, vec![
        ExecutionEventKind::NodeStarted,
        ExecutionEventKind::Log,
        ExecutionEventKind::CommandExited,
        ExecutionEventKind::NodeOutputProduced,
        ExecutionEventKind::NodeSucceeded,
        ExecutionEventKind::EdgeTraversed,
    ]);
    let numbers: Vec<u64> = events.iter().map(|e| e.sequence).collect();
    assert_eq!(numbers, vec![7, 8, 9, 10, 11, 12]);
    assert_eq!(seq, 13);
    assert_eq!(events[0].message.as_deref(), Some("标签"));
    assert!(events[1].payload.is_none());
    assert!(matches!(events[2].payload, Some(EventPayload::CommandExited { exit_code: 3 })));
    assert_eq!(events[3].message.as_deref(), Some("已产生 2 个公开值输出"));
    assert!(matches!(&events[3].payload, Some(EventPayload::NodeOutputsProduced { output_names }) if output_names.len() == 2));
    assert_eq!(events[5].message.as_deref(), Some("a → b"));
    assert_eq!(events[5].edge_id.as_deref(), Some("e1"));
    assert!(events[5].node_id.is_none());

    let quiet = node_finished_events(0, 0, &mut seq, "b", Vec::new(), Vec::new(), None);
    let kinds: Vec<_> = quiet.iter().map(|e| e.kind).collect();
    assert_eq!(kinds, vec![ExecutionEventKind::NodeSucceeded]);
    assert_eq!(quiet[0].sequence, 13);
    let hop = edge_traversed(0, 0, &mut seq, "e2", "b", "c");
    assert_eq!(hop.sequence, 14);
    assert_eq!(hop.message.as_deref(), Some("b → c"));
}

#[test]
fn events_on_expanded_nodes_are_shown_on_the_outermost_instance() {
    let frame = ComponentSourceFrame {
        instance_node_id: "inst".to_string(),
        component_id: 5,
        component_version: "1.0.0".to_string(),
        inner_node_id: "inner".to_string(),
    };
    let map = ComponentSourceMap { nodes: vec![("inst__inner".to_string(), vec![frame])] };
    let mut seq = 0u64;
    let e = build_event(1, 2, &mut seq, Some("inst__inner".to_string()), None, ExecutionEventKind::NodeStarted,
        Some("m".to_string()), None);
    let shown = attribute(e, &map);
    assert_eq!(shown.node_id.as_deref(), Some("inst"));
    assert_eq!(shown.expanded_node_id.as_deref(), Some("inst__inner"));
    assert_eq!(shown.component_path.len(), 1);
    assert_eq!(shown.sequence, 0);
    assert_eq!(shown.message.as_deref(), Some("m"));
    let plain = build_event(1, 2, &mut seq, Some("other".to_string()), None, ExecutionEventKind::NodeStarted,
        None, None);
    let kept = attribute(plain, &map);
    assert_eq!(kept.node_id.as_deref(), Some("other"));
    assert!(kept.expanded_node_id.is_none());
    assert!(kept.component_path.is_empty());
}

#[test]
fn while_containers_report_start_iterations_and_end() {
    let mut seq = 3u64;
    let s = loop_started(1, 1, &mut seq, "w", "body", 5);
    assert_eq!(s.kind, ExecutionEventKind::LoopStarted);
    assert_eq!(s.message.as_deref(), Some("开始执行 While 容器"));
    assert!(matches!(&s.payload, Some(EventPayload::LoopStarted { scope_id, max_iterations: 5 }) if scope_id == "body"));
    let i = loop_iteration(1, 1, &mut seq, "w", 12, 50);
    assert_eq!(i.message.as_deref(), Some("开始第 12 次重复"));
    assert!(matches!(i.payload, Some(EventPayload::LoopIteration { iteration: 12, max_iterations: 50 })));
    let done = loop_finished(1, 1, &mut seq, "w", LoopEnd::Completed, 2);
    assert_eq!(done.kind, ExecutionEventKind::LoopCompleted);
    assert_eq!(done.message.as_deref(), Some("While 已正常完成"));
    let out = loop_finished(1, 1, &mut seq, "w", LoopEnd::Exhausted, 5);
    assert_eq!(out.kind, ExecutionEventKind::LoopExhausted);
    assert_eq!(out.message.as_deref(), Some("While 已达到次数或时间上限"));
    assert!(matches!(out.payload, Some(EventPayload::LoopExhausted { iterations: 5 })));
    assert_eq!(seq, 7);
}
