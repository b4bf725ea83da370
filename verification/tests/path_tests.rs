use argusflow_runtime::errors::RuntimeError;
use argusflow_runtime::json::JsonValue;
use argusflow_runtime::graph::{FlowScope, ScopeBoundary, ScopeParent, WorkflowEdge, WorkflowNode};
use argusflow_runtime::loops::LoopFrame;
use argusflow_runtime::options::TimeSpan;
use argusflow_runtime::path::{locate_node, scope_entry, select_edge, verify_loop_boundary, Cursor, LoopEnd, PathRunner};

fn node(id: &str, type_id: &str) -> WorkflowNode {
    WorkflowNode {
        id: id.to_owned(),
        type_id: type_id.to_owned(),
        version: 1,
        payload: JsonValue::Object(vec![]),
        output_bindings: JsonValue::Object(vec![]),
    }
}

fn edge(id: &str, source: &str, target: &str, branch: Option<&str>) -> WorkflowEdge {
    WorkflowEdge { id: id.to_owned(), source: source.to_owned(), target: target.to_owned(), branch: branch.map(str::to_owned) }
}

fn workflow() -> Vec<FlowScope> {
    vec![
        FlowScope {
            id: "root".to_owned(),
            parent: None,
            boundary: ScopeBoundary::Workflow { entry_node_id: "start".to_owned() },
            nodes: vec![node("start", "argus.start"), node("loop", "argus.loop"), node("end", "argus.end")],
            edges: vec![
                edge("e1", "start", "loop", None),
                edge("e2", "loop", "end", Some("completed")),
                edge("e3", "loop", "end", Some("exhausted")),
            ],
        },
        FlowScope {
            id: "body".to_owned(),
            parent: Some(ScopeParent { scope_id: "root".to_owned(), node_id: "loop".to_owned() }),
            boundary: ScopeBoundary::Loop {
                entry_node_id: "entry".to_owned(),
                continue_node_id: "next".to_owned(),
                complete_node_id: "done".to_owned(),
            },
            nodes: vec![node("entry", "argus.loop.entry"), node("next", "argus.loop.continue"), node("done", "argus.loop.complete")],
            edges: vec![edge("b1", "entry", "next", None)],
        },
    ]
}

#[test]
fn runner_starts_at_the_root_entry() {
    let runner = PathRunner::new(workflow(), "root").unwrap();
    let c = runner.current.as_ref().unwrap();
    assert_eq!((c.scope_id.as_str(), c.node_id.as_str()), ("root", "start"));
    assert!(matches!(PathRunner::new(workflow(), "missing"), Err(RuntimeError::ExecutionInvariant(_))));
    assert!(matches!(PathRunner::new(vec![], "root"), Err(RuntimeError::ExecutionInvariant(_))));
}

#[test]
fn edges_are_selected_by_port_in_document_order() {
    let scopes = workflow();
    assert_eq!(select_edge(&scopes, "loop", Some("exhausted")), Some((0, 2)));
    assert_eq!(select_edge(&scopes, "loop", Some("completed")), Some((0, 1)));
    assert_eq!(select_edge(&scopes, "loop", None), None);
    assert_eq!(select_edge(&scopes, "entry", None), Some((1, 0)));
    assert_eq!(locate_node(&scopes, "next"), Some((1, 1)));
    assert_eq!(locate_node(&scopes, "ghost"), None);
    assert_eq!(scope_entry(&scopes, "body"), Some(1));
}

#[test]
fn a_while_runs_its_body_and_leaves_by_its_port() {
    let mut runner = PathRunner::new(workflow(), "root").unwrap();
    let taken = runner.advance(None).unwrap();
    assert_eq!((taken.id.as_str(), taken.target.as_str()), ("e1", "loop"));
    assert_eq!(runner.locate().unwrap(), (0, 1));
    runner.enter_loop("body".to_owned(), 2, 1000, 0);
    assert_eq!(runner.begin_next_iteration(TimeSpan::from_millis(0)).unwrap(), Some(1));
    assert_eq!(runner.current.as_ref().unwrap().node_id, "entry");
    runner.advance(None);
    assert_eq!(runner.current.as_ref().unwrap().node_id, "next");
    assert!(runner.verify_loop_boundary("继续").is_ok());
    assert_eq!(runner.begin_next_iteration(TimeSpan::from_millis(1)).unwrap(), Some(2));
    assert_eq!(runner.begin_next_iteration(TimeSpan::from_millis(2)).unwrap(), None);
    assert!(runner.finish().is_err());
    let exit = runner.finish_loop(LoopEnd::Exhausted).unwrap();
    assert_eq!(exit.iterations, 2);
    assert_eq!(exit.edge.unwrap().id, "e3");
    assert_eq!(runner.current.as_ref().unwrap().node_id, "end");
    assert!(runner.finish().is_ok());
    runner.end();
    assert!(runner.current.is_none());
}

#[test]
fn loop_boundaries_belong_to_the_innermost_frame() {
    let cursor = Cursor { scope_id: "body".to_owned(), node_id: "next".to_owned() };
    let frame = LoopFrame::new("root".to_owned(), "loop".to_owned(), "body".to_owned(), 1, 1, 0);
    assert!(verify_loop_boundary(&cursor, Some(&frame), "继续").is_ok());
    match verify_loop_boundary(&cursor, None, "完成") {
        Err(RuntimeError::ExecutionInvariant(m)) => assert_eq!(m, "完成边界不属于当前 While 帧"),
        _ => panic!("expected an invariant failure"),
    }
    let other = LoopFrame::new("root".to_owned(), "loop".to_owned(), "other".to_owned(), 1, 1, 0);
    assert!(verify_loop_boundary(&cursor, Some(&other), "继续").is_err());
}

#[test]
fn finishing_a_loop_without_frame_is_an_invariant_failure() {
    let mut runner = PathRunner::new(workflow(), "root").unwrap();
    assert!(matches!(runner.finish_loop(LoopEnd::Completed), Err(RuntimeError::ExecutionInvariant(_))));
}
