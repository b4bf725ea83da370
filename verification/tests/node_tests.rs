use argusflow_runtime::command::{CommandOperation, CommandRunner, EnvironmentBinding, WorkflowPermissions};
use argusflow_runtime::nodes::{
    is_http_url, prepare_command_node, prepare_data_format, prepare_debug, prepare_delay, prepare_end, prepare_fail,
    prepare_log, prepare_loop, prepare_loop_complete, prepare_loop_continue, prepare_loop_entry, prepare_set_variables,
    prepare_start, CommandPayload, DataFormatPayload, DebugPayload, DelayPayload, DelimitedTextFormat, EndPayload,
    FailPayload, LogPayload, LoopCompletePayload, LoopContinuePayload, LoopEntryPayload, LoopPayload, NodeFlow,
    NodeValidationContext, SetVariablesPayload, StartPayload, VariableAssignment,
    execute_component_output, prepare_component_output, ComponentOutputPayload,
    termination_failure, WorkflowTermination,
};
use argusflow_runtime::context::{NodeOutcome, RunContext, ValueSource};
use argusflow_runtime::errors::RuntimeError;
use argusflow_runtime::context::ValueExpr;
use argusflow_runtime::json::JsonValue;
use argusflow_runtime::report::{ValidationIssue, ValidationIssueCode};

fn text(s: &str) -> ValueExpr {
    ValueExpr::Literal { value: JsonValue::String(s.to_owned()) }
}

fn context() -> NodeValidationContext {
    NodeValidationContext {
        node_id: "n1".to_owned(),
        declared_variables: Some(vec!["state".to_owned(), "count".to_owned()]),
        permissions: WorkflowPermissions { process_spawn: true, powershell: false, cmd: true },
    }
}

fn codes(issues: &[ValidationIssue]) -> Vec<ValidationIssueCode> {
    issues.iter().map(|i| i.code).collect()
}

fn loop_payload(max_iterations: u32, timeout_ms: u64, interval_ms: u64) -> LoopPayload {
    LoopPayload { body_scope_id: "body".to_owned(), max_iterations, timeout_ms, interval_ms }
}

#[test]
fn fixed_nodes_have_their_flow_and_label() {
    let start = prepare_start(StartPayload {});
    assert!(matches!(start.flow(), NodeFlow::Start));
    assert_eq!(start.label(), "Start");
    let end = prepare_end(EndPayload {});
    assert!(matches!(end.flow(), NodeFlow::End));
    assert_eq!(end.label(), "End");
    assert!(matches!(prepare_loop_entry(LoopEntryPayload {}).flow(), NodeFlow::LoopEntry));
    assert_eq!(prepare_loop_entry(LoopEntryPayload {}).label(), "循环开始");
    assert!(matches!(prepare_loop_continue(LoopContinuePayload {}).flow(), NodeFlow::LoopContinue));
    assert_eq!(prepare_loop_continue(LoopContinuePayload {}).label(), "继续下一轮");
    assert!(matches!(prepare_loop_complete(LoopCompletePayload {}).flow(), NodeFlow::LoopComplete));
    assert_eq!(prepare_loop_complete(LoopCompletePayload {}).label(), "完成循环");
    assert!(start.validate(&context()).is_empty());
}

#[test]
fn loop_gate_carries_its_configuration() {
    let node = prepare_loop(loop_payload(5, 1000, 10));
    assert_eq!(node.label(), "重复执行");
    match node.flow() {
        NodeFlow::Loop { ports, body_scope_id, max_iterations, timeout_ms, interval_ms } => {
            assert_eq!(ports, vec!["completed".to_owned(), "exhausted".to_owned()]);
            assert_eq!(body_scope_id, "body");
            assert_eq!((max_iterations, timeout_ms, interval_ms), (5, 1000, 10));
        }
        other => panic!("unexpected {:?}", other),
    }
    assert!(node.validate(&context()).is_empty());
    let bad = prepare_loop(loop_payload(0, 1000, 10)).validate(&context());
    assert_eq!(codes(&bad), vec![ValidationIssueCode::InvalidLoop]);
    assert_eq!(bad[0].node_id.as_deref(), Some("n1"));
    assert_eq!(codes(&prepare_loop(loop_payload(1, 600_001, 0)).validate(&context())), vec![ValidationIssueCode::InvalidLoop]);
    assert_eq!(codes(&prepare_loop(loop_payload(1, 1, 60_001)).validate(&context())), vec![ValidationIssueCode::InvalidLoop]);
}

#[test]
fn log_fail_debug_and_delay_nodes() {
    let log = prepare_log(LogPayload { message: "hello".to_owned() });
    assert!(matches!(log.flow(), NodeFlow::Linear));
    assert_eq!(log.label(), "Log");
    assert!(log.validate(&context()).is_empty());
    let blank = prepare_log(LogPayload { message: " \t".to_owned() }).validate(&context());
    assert_eq!(codes(&blank), vec![ValidationIssueCode::EmptyLogMessage]);
    assert_eq!(blank[0].message, "Log 节点的消息不能为空");

    let fail = prepare_fail(FailPayload { code: "E1".to_owned(), message: text("m") });
    assert!(matches!(fail.flow(), NodeFlow::End));
    assert_eq!(fail.label(), "Fail");
    assert!(fail.validate(&context()).is_empty());
    let no_code = prepare_fail(FailPayload { code: "".to_owned(), message: text("m") }).validate(&context());
    assert_eq!(codes(&no_code), vec![ValidationIssueCode::InvalidFailure]);

    let debug = prepare_debug(DebugPayload { value: text("v") });
    assert_eq!(debug.label(), "Debug Output");
    assert!(matches!(debug.flow(), NodeFlow::Linear));

    let delay = prepare_delay(DelayPayload { milliseconds: 250 });
    assert_eq!(delay.label(), "Delay 250ms");
    assert!(delay.validate(&context()).is_empty());
    assert_eq!(codes(&prepare_delay(DelayPayload { milliseconds: 0 }).validate(&context())), vec![ValidationIssueCode::InvalidDelay]);
    assert_eq!(codes(&prepare_delay(DelayPayload { milliseconds: 60_001 }).validate(&context())), vec![ValidationIssueCode::InvalidDelay]);
    assert!(prepare_delay(DelayPayload { milliseconds: 60_000 }).validate(&context()).is_empty());
}

fn assign(name: &str) -> VariableAssignment {
    VariableAssignment { name: name.to_owned(), value: text("v") }
}

#[test]
fn variable_assignments_must_be_unique_and_declared() {
    let node = prepare_set_variables(SetVariablesPayload { assignments: vec![assign("state"), assign("count")] });
    assert_eq!(node.label(), "Set 2 Variables");
    assert!(node.validate(&context()).is_empty());

    let empty = prepare_set_variables(SetVariablesPayload { assignments: vec![] }).validate(&context());
    assert_eq!(codes(&empty), vec![ValidationIssueCode::InvalidVariableAssignment]);
    assert_eq!(empty[0].message, "设置变量节点至少需要一项赋值");

    let node = prepare_set_variables(SetVariablesPayload {
        assignments: vec![assign("state"), assign("state"), assign(" "), assign("other")],
    });
    let issues = node.validate(&context());
    assert_eq!(
        codes(&issues),
        vec![
            ValidationIssueCode::InvalidVariableAssignment,
            ValidationIssueCode::InvalidVariableAssignment,
            ValidationIssueCode::UndeclaredVariable,
        ]
    );
    assert_eq!(issues[2].message, "变量 'other' 未声明");

    let no_object = NodeValidationContext { declared_variables: None, ..context() };
    let issues = prepare_set_variables(SetVariablesPayload { assignments: vec![assign("state")] }).validate(&no_object);
    assert_eq!(codes(&issues), vec![ValidationIssueCode::UndeclaredVariable]);
}

fn format(fields: &[&str], row_separator: &str) -> DelimitedTextFormat {
    DelimitedTextFormat {
        items: text("items"),
        fields: fields.iter().map(|s| s.to_string()).collect(),
        column_separator: ",".to_owned(),
        row_separator: row_separator.to_owned(),
        include_header: true,
    }
}

#[test]
fn delimited_text_needs_unique_fields_and_a_row_separator() {
    let node = prepare_data_format(DataFormatPayload { operation: format(&["a", "b"], "\n") });
    assert_eq!(node.label(), "Format Delimited Text");
    assert!(node.validate(&context()).is_empty());
    let issues = prepare_data_format(DataFormatPayload { operation: format(&["a", "a"], "") }).validate(&context());
    assert_eq!(issues.len(), 2);
    assert_eq!(issues[0].message, "文本格式化字段必须非空且唯一");
    assert_eq!(issues[1].message, "文本格式化行分隔符不能为空");
    let issues = prepare_data_format(DataFormatPayload { operation: format(&[], "\n") }).validate(&context());
    assert_eq!(codes(&issues), vec![ValidationIssueCode::InvalidDataFormat]);
}

fn command(runner: CommandRunner) -> CommandOperation {
    CommandOperation {
        runner,
        program: Some(text("git")),
        arguments: vec![],
        script: None,
        working_directory: None,
        environment: vec![],
        stdin: None,
        timeout_ms: 1000,
        accepted_exit_codes: vec![0],
        max_stdout_bytes: 1024,
        max_stderr_bytes: 1024,
    }
}

#[test]
fn command_nodes_are_checked_against_runner_bounds_and_permissions() {
    let node = prepare_command_node(CommandPayload { operation: command(CommandRunner::Direct) });
    assert_eq!(node.label(), "Command Direct");
    assert!(node.validate(&context()).is_empty());

    let mut op = command(CommandRunner::PowerShell);
    op.timeout_ms = 0;
    op.accepted_exit_codes = vec![];
    op.max_stderr_bytes = 16 * 1024 * 1024 + 1;
    op.environment = vec![
        EnvironmentBinding { name: "Path".to_owned(), value: text("v") },
        EnvironmentBinding { name: "PATH".to_owned(), value: text("v") },
        EnvironmentBinding { name: "A=B".to_owned(), value: text("v") },
        EnvironmentBinding { name: "HOME".to_owned(), value: text("v") },
    ];
    let node = prepare_command_node(CommandPayload { operation: op });
    assert_eq!(node.label(), "Command PowerShell");
    let issues = node.validate(&context());
    let messages: Vec<&str> = issues.iter().map(|i| i.message.as_str()).collect();
    assert_eq!(
        messages,
        vec![
            "命令字段与所选运行方式不匹配",
            "命令超时必须在 1 到 3600000 毫秒之间",
            "命令至少需要一个可接受退出代码",
            "stdout/stderr 上限必须在 1 字节到 16 MiB 之间",
            "环境变量名称必须非空、不含等号且忽略大小写后唯一",
            "环境变量名称必须非空、不含等号且忽略大小写后唯一",
            "工作流权限未授权所选命令运行方式",
        ]
    );
    assert_eq!(issues[6].code, ValidationIssueCode::CommandPermissionDenied);

    let mut shell = command(CommandRunner::Cmd);
    shell.program = None;
    shell.script = Some(text("dir"));
    assert!(prepare_command_node(CommandPayload { operation: shell }).validate(&context()).is_empty());
}

#[test]
fn navigation_targets_are_absolute_http_urls() {
    assert!(is_http_url("https://example.com"));
    assert!(is_http_url("http://x"));
    assert!(!is_http_url("http://"));
    assert!(!is_http_url("https://   "));
    assert!(!is_http_url("ftp://example.com"));
    assert!(!is_http_url("example.com"));
    assert!(!is_http_url("HTTP://example.com"));
    assert!(!is_http_url("http:/x"));
}

#[test]
fn component_output_proxies_publish_resolved_outputs() {
    let node_ref = |pointer: &str| ValueExpr::Ref {
        source: ValueSource::Node { node_id: "c1::a".to_owned() },
        pointer: pointer.to_owned(),
    };
    let outputs = vec![("alpha".to_owned(), node_ref("/value")), ("zeta".to_owned(), text("z"))];
    let proxy = prepare_component_output(ComponentOutputPayload { outputs });
    assert!(matches!(proxy.flow(), NodeFlow::Linear));
    assert_eq!(proxy.label(), "Component Output");
    assert!(proxy.validate(&context()).is_empty());
    let mut run = RunContext::new(1, vec![], vec![]);
    let outputs = vec![("alpha".to_owned(), node_ref("/value")), ("zeta".to_owned(), text("z"))];
    match execute_component_output(&outputs, &run) {
        Err(RuntimeError::ValueUnavailable { description }) => {
            assert_eq!(description, "published outputs for node 'c1::a' are unavailable")
        }
        other => panic!("unexpected {:?}", other),
    }
    run.record_outcome("c1::a".to_owned(), NodeOutcome::values(vec![("value".to_owned(), JsonValue::Number("7".to_owned()))]));
    let done = execute_component_output(&outputs, &run).unwrap();
    assert_eq!(done.outcome.outputs.len(), 2);
    assert_eq!(done.outcome.outputs[0].0, "alpha");
    assert!(matches!(&done.outcome.outputs[0].1, JsonValue::Number(n) if n == "7"));
    assert!(matches!(&done.outcome.outputs[1].1, JsonValue::String(t) if t == "z"));
    assert!(done.events.is_empty());
}

#[test]
fn declared_ends_fail_the_run_with_their_code() {
    assert!(termination_failure(None).is_ok());
    let t = WorkflowTermination { code: "E42".to_owned(), message: "stop".to_owned() };
    match termination_failure(Some(t)) {
        Err(RuntimeError::WorkflowFailure { code, message }) => {
            assert_eq!(code, "E42");
            assert_eq!(message, "stop");
        }
        other => panic!("unexpected {:?}", other),
    }
}
