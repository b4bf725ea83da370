use argusflow_runtime::context::{validate_json_pointer, NodeOutcome, RunContext, ValueExpr, ValueSource};
use argusflow_runtime::errors::RuntimeError;
use argusflow_runtime::json::{json_pointer, JsonValue};
use argusflow_runtime::nodes::{
    command_execution, execute_data_format, execute_fail, execute_log, execute_set_variables, DelimitedTextFormat,
    NodeEventKind, VariableAssignment,
};
use argusflow_runtime::command::CommandOutputs;
use argusflow_runtime::options::TimeSpan;

fn s(v: &str) -> JsonValue {
    JsonValue::String(v.to_owned())
}

fn n(v: &str) -> JsonValue {
    JsonValue::Number(v.to_owned())
}

fn obj(entries: Vec<(&str, JsonValue)>) -> JsonValue {
    JsonValue::Object(entries.into_iter().map(|(k, v)| (k.to_owned(), v)).collect())
}

fn entries(v: JsonValue) -> Vec<(String, JsonValue)> {
    match v {
        JsonValue::Object(e) => e,
        _ => panic!("fixture should be an object"),
    }
}

fn variable(name: &str, pointer: &str) -> ValueExpr {
    ValueExpr::Ref { source: ValueSource::Variable { name: name.to_owned() }, pointer: pointer.to_owned() }
}

fn same(a: &JsonValue, b: &JsonValue) -> bool {
    match (a, b) {
        (JsonValue::Null, JsonValue::Null) => true,
        (JsonValue::Bool(x), JsonValue::Bool(y)) => x == y,
        (JsonValue::Number(x), JsonValue::Number(y)) => x == y,
        (JsonValue::String(x), JsonValue::String(y)) => x == y,
        (JsonValue::Array(x), JsonValue::Array(y)) => x.len() == y.len() && x.iter().zip(y).all(|(p, q)| same(p, q)),
        (JsonValue::Object(x), JsonValue::Object(y)) => {
            x.len() == y.len() && x.iter().zip(y).all(|(p, q)| p.0 == q.0 && same(&p.1, &q.1))
        }
        _ => false,
    }
}

#[test]
fn resolves_whole_nodes_and_json_pointer_fields() {
    let inputs = entries(obj(vec![("order", obj(vec![("id", s("ACME-10086"))]))]));
    let variables = entries(obj(vec![("region", s("east"))]));
    let mut context = RunContext::new(7, inputs, variables);
    context.record_outcome(
        "read-order".to_owned(),
        NodeOutcome::values(vec![("count".to_owned(), n("1")), ("text".to_owned(), s("ACME-10086"))]),
    );
    let whole = context.resolve_value(&ValueExpr::node("read-order", "")).expect("whole node output should resolve");
    assert!(same(&whole, &obj(vec![("count", n("1")), ("text", s("ACME-10086"))])));
    assert_eq!(
        context
            .resolve_text(&ValueExpr::Ref { source: ValueSource::Node { node_id: "read-order".to_owned() }, pointer: "/text".to_owned() })
            .expect("node pointer should resolve"),
        "ACME-10086",
    );
}

#[test]
fn retry_outcomes_replace_previous_published_outputs() {
    let mut context = RunContext::new(1, vec![], vec![]);
    context.record_outcome("worker".to_owned(), NodeOutcome::values(vec![("attempt".to_owned(), n("1"))]));
    context.record_outcome("worker".to_owned(), NodeOutcome::values(vec![("attempt".to_owned(), n("2"))]));
    let v = context.resolve_value(&ValueExpr::node("worker", "")).unwrap();
    assert!(same(&v, &obj(vec![("attempt", n("2"))])));
}

#[test]
fn text_consumers_report_json_type_mismatches() {
    let context = RunContext::new(1, vec![], vec![]);
    let r = context.resolve_text(&ValueExpr::Literal { value: obj(vec![("not", s("text"))]) });
    assert!(matches!(r, Err(RuntimeError::ValueTypeMismatch { expected, .. }) if expected == "string"));
}

#[test]
fn references_report_missing_sources_and_pointers() {
    let context = RunContext::new(1, vec![("order".to_owned(), obj(vec![("items", JsonValue::Array(vec![s("a"), s("b")]))]))], vec![]);
    let input = |p: &str| ValueExpr::Ref { source: ValueSource::WorkflowInput { key: "order".to_owned() }, pointer: p.to_owned() };
    assert_eq!(context.resolve_text(&input("/items/1")).unwrap(), "b");
    assert!(matches!(context.resolve_value(&input("/items/2")), Err(RuntimeError::ValuePointerNotFound { pointer }) if pointer == "/items/2"));
    assert!(matches!(context.resolve_value(&input("/items/01")), Err(RuntimeError::ValuePointerNotFound { .. })));
    assert!(matches!(context.resolve_value(&input("items")), Err(RuntimeError::InvalidValuePointer { pointer }) if pointer == "items"));
    assert!(matches!(context.resolve_value(&input("/a~2")), Err(RuntimeError::InvalidValuePointer { .. })));
    match context.resolve_value(&variable("state", "")) {
        Err(RuntimeError::ValueUnavailable { description }) => assert_eq!(description, "runtime variable 'state' is unavailable"),
        other => panic!("unexpected {:?}", other),
    }
    match context.resolve_value(&ValueExpr::node("ghost", "")) {
        Err(RuntimeError::ValueUnavailable { description }) => assert_eq!(description, "published outputs for node 'ghost' are unavailable"),
        other => panic!("unexpected {:?}", other),
    }
    assert!(matches!(context.resolve_optional_value(&ValueExpr::node("ghost", "")), Ok(None)));
    assert!(matches!(context.resolve_optional_value(&input("/items/9")), Ok(None)));
    assert!(matches!(context.resolve_optional_value(&input("x")), Err(RuntimeError::InvalidValuePointer { .. })));
    assert!(matches!(context.resolve_optional_value(&input("/items/0")), Ok(Some(JsonValue::String(t))) if t == "a"));
}

#[test]
fn pointers_follow_rfc_6901_escapes() {
    let v = obj(vec![("a/b", n("1")), ("m~n", n("2")), ("", n("3"))]);
    assert!(matches!(json_pointer(&v, "/a~1b"), Some(JsonValue::Number(t)) if t == "1"));
    assert!(matches!(json_pointer(&v, "/m~0n"), Some(JsonValue::Number(t)) if t == "2"));
    assert!(matches!(json_pointer(&v, "/"), Some(JsonValue::Number(t)) if t == "3"));
    assert!(json_pointer(&v, "/a/b").is_none());
    assert!(json_pointer(&v, "a").is_none());
    assert!(validate_json_pointer(""));
    assert!(validate_json_pointer("/a~0~1"));
    assert!(!validate_json_pointer("/a~"));
    assert!(!validate_json_pointer("a"));
}

#[test]
fn loop_gates_count_iterations_within_their_budgets() {
    let mut context = RunContext::new(1, vec![], vec![]);
    assert_eq!(context.loop_iterations("gate"), 0);
    let timeout = TimeSpan::from_millis(100);
    assert_eq!(context.begin_loop_iteration("gate", 2, timeout, TimeSpan::from_millis(1000)), Ok(1));
    assert_eq!(context.begin_loop_iteration("gate", 2, timeout, TimeSpan::from_millis(1050)), Ok(2));
    assert_eq!(context.begin_loop_iteration("gate", 2, timeout, TimeSpan::from_millis(1060)), Err(2));
    assert_eq!(context.loop_iterations("gate"), 2);
    assert_eq!(context.begin_loop_iteration("slow", 5, timeout, TimeSpan::from_millis(0)), Ok(1));
    assert_eq!(context.begin_loop_iteration("slow", 5, timeout, TimeSpan::from_millis(100)), Err(1));
}

#[test]
fn failed_assignment_rolls_back_the_entire_variable_transaction() {
    let assignments = vec![
        VariableAssignment { name: "state".to_owned(), value: ValueExpr::Literal { value: obj(vec![("changed", JsonValue::Bool(true))]) } },
        VariableAssignment { name: "missing".to_owned(), value: variable("unknown", "") },
    ];
    let mut context = RunContext::new(1, vec![], entries(obj(vec![("state", n("1"))])));
    match execute_set_variables("set-vars", &assignments, &mut context) {
        Err(RuntimeError::VariableAssignmentFailed { variable, node_id, message }) => {
            assert_eq!(variable, "missing");
            assert_eq!(node_id, "set-vars");
            assert_eq!(message, "runtime value is unavailable: runtime variable 'unknown' is unavailable");
        }
        other => panic!("unexpected {:?}", other),
    }
    let state = context.resolve_value(&variable("state", "")).unwrap();
    assert!(same(&state, &n("1")));
}

#[test]
fn variable_values_can_change_json_category() {
    let assignments = vec![VariableAssignment {
        name: "state".to_owned(),
        value: ValueExpr::Literal { value: obj(vec![("phase", s("done"))]) },
    }];
    let mut context = RunContext::new(1, vec![], entries(obj(vec![("state", n("1"))])));
    execute_set_variables("set-vars", &assignments, &mut context).unwrap();
    let state = context.resolve_value(&variable("state", "")).unwrap();
    assert!(same(&state, &obj(vec![("phase", s("done"))])));
}

#[test]
fn assignments_read_the_snapshot_taken_before_the_node() {
    let assignments = vec![
        VariableAssignment { name: "a".to_owned(), value: ValueExpr::Literal { value: n("5") } },
        VariableAssignment { name: "b".to_owned(), value: variable("a", "") },
    ];
    let mut context = RunContext::new(1, vec![], entries(obj(vec![("a", n("1"))])));
    execute_set_variables("n", &assignments, &mut context).unwrap();
    assert!(same(&context.resolve_value(&variable("b", "")).unwrap(), &n("1")));
    assert!(same(&context.resolve_value(&variable("a", "")).unwrap(), &n("5")));
}

#[test]
fn log_fail_format_and_command_results() {
    let log = execute_log(&"hello".to_owned());
    assert!(matches!(log.events[0].kind, NodeEventKind::Log));
    assert_eq!(log.events[0].message.as_deref(), Some("hello"));

    let context = RunContext::new(1, vec![("why".to_owned(), s("quota reached"))], vec![]);
    let why = ValueExpr::Ref { source: ValueSource::WorkflowInput { key: "why".to_owned() }, pointer: String::new() };
    let fail = execute_fail(&"E_QUOTA".to_owned(), &why, &context).unwrap();
    let t = fail.termination.unwrap();
    assert_eq!((t.code.as_str(), t.message.as_str()), ("E_QUOTA", "quota reached"));
    assert!(matches!(&fail.events[0].kind, NodeEventKind::WorkflowFailureDeclared { code } if code == "E_QUOTA"));
    assert!(execute_fail(&"E".to_owned(), &ValueExpr::Literal { value: n("1") }, &context).is_err());

    let op = DelimitedTextFormat {
        items: ValueExpr::Literal { value: JsonValue::Array(vec![obj(vec![("a", n("1"))])]) },
        fields: vec!["a".to_owned()],
        column_separator: ",".to_owned(),
        row_separator: "\n".to_owned(),
        include_header: true,
    };
    let out = execute_data_format(&op, &context).unwrap();
    assert_eq!(out.outcome.outputs[0].0, "text");
    assert!(matches!(&out.outcome.outputs[0].1, JsonValue::String(t) if t == "a\n1\n"));

    let done = command_execution(CommandOutputs { exit_code: -1, stdout: "o".to_owned(), stderr: "e".to_owned() });
    assert_eq!(done.events[0].message.as_deref(), Some("命令执行完成，退出代码 -1"));
    assert!(matches!(&done.outcome.outputs[0].1, JsonValue::Number(t) if t == "-1"));
    assert!(matches!(done.events[0].kind, NodeEventKind::CommandExited { exit_code: -1 }));
}
