//! Built-in node types: their decoded payloads, the frozen nodes prepared
//! from them, their control flow, labels and validation findings.

use vstd::prelude::*;
use vstd::string::*;
use crate::command::{allows_command, signed_decimal, signed_decimal_text, CommandOperation, CommandOutputs, CommandRunner, WorkflowPermissions};
use crate::component::{all_distinct, contains_text, distinct_texts, has_text, no_blank, none_blank};
use crate::loops::{loop_config_accepted, loop_config_valid};
use crate::report::{ValidationIssue, ValidationIssueCode};
use crate::errors::RuntimeError;
use crate::context::{committed, resolution_error, resolve_spec, resolved_of, text_of, NodeOutcome, Resolved, RunContext, ValueExpr};
use crate::errors::runtime_error_text;
use crate::json::jview;
use crate::json::{get_entry, json_type_name, lookup, mismatch, scalar_cell, scalar_text, JsonValue};
use crate::text::{contains_char, decimal, decimal_text, has_char, is_blank, is_blank_text, joined, owned, text_equal};

verus! {

/// How control leaves a node.
#[derive(Debug, Clone)]
pub enum NodeFlow {
    /// The single entry of a workflow.
    Start,
    /// An end of a workflow.
    End,
    /// One default successor.
    Linear,
    /// One successor per named port.
    Branch {
        /// Port names.
        ports: Vec<String>,
    },
    /// A bounded While gate owning a body scope.
    Loop {
        /// Ports left when the loop completes or runs out of budget.
        ports: Vec<String>,
        /// Body scope.
        body_scope_id: String,
        /// Most body iterations.
        max_iterations: u32,
        /// Whole time budget in milliseconds.
        timeout_ms: u64,
        /// Pause before every iteration after the first, in milliseconds.
        interval_ms: u64,
    },
    /// Entry of a While body.
    LoopEntry,
    /// Exit of a While body that starts the next iteration.
    LoopContinue,
    /// Exit of a While body that completes the loop.
    LoopComplete,
}

/// Where a node's findings are reported, and what of the workflow a node's
/// validation reads.
#[derive(Debug, Clone)]
pub struct NodeValidationContext {
    /// Node being validated.
    pub node_id: String,
    /// Top-level variable names the workflow declares, when its variables
    /// are an object.
    pub declared_variables: Option<Vec<String>>,
    /// Capabilities the workflow grants.
    pub permissions: WorkflowPermissions,
}

/// (code, message) of a finding.
pub open spec fn issue_view(i: ValidationIssue) -> (ValidationIssueCode, Seq<char>) {
    (i.code, i.message@)
}

/// (code, message) of every finding, in order.
pub open spec fn issue_views(s: Seq<ValidationIssue>) -> Seq<(ValidationIssueCode, Seq<char>)> {
    s.map_values(|i: ValidationIssue| issue_view(i))
}

/// The finding concerns exactly the node `node`.
pub open spec fn at_node(i: ValidationIssue, node: Seq<char>) -> bool {
    &&& match i.node_id {
        Some(n) => n@ == node,
        None => false,
    }
    &&& i.edge_id is None
    &&& i.scope_id is None
}

/// Every finding concerns exactly the node `node`.
pub open spec fn all_at_node(s: Seq<ValidationIssue>, node: Seq<char>) -> bool {
    forall|k: int| 0 <= k < s.len() ==> at_node(#[trigger] s[k], node)
}

impl NodeValidationContext {
    /// A finding about this node.
    pub fn issue(&self, code: ValidationIssueCode, message: String) -> (i: ValidationIssue)
        ensures
            issue_view(i) == (code, message@),
            at_node(i, self.node_id@),
    {
        ValidationIssue { code, message, node_id: Some(self.node_id.clone()), edge_id: None, scope_id: None }
    }

    /// A list holding one finding about this node.
    fn single(&self, code: ValidationIssueCode, message: &str) -> (r: Vec<ValidationIssue>)
        ensures
            issue_views(r@) == seq![(code, message@)],
            all_at_node(r@, self.node_id@),
    {
        let v = vec![self.issue(code, owned(message))];
        assert(issue_views(v@) =~= seq![(code, message@)]);
        v
    }
}

/// Appends a finding about the context's node.
fn push_issue(issues: &mut Vec<ValidationIssue>, context: &NodeValidationContext, code: ValidationIssueCode, message: String)
    requires
        all_at_node(old(issues)@, context.node_id@),
    ensures
        issue_views(final(issues)@) == issue_views(old(issues)@).push((code, message@)),
        all_at_node(final(issues)@, context.node_id@),
{
    let i = context.issue(code, message);
    issues.push(i);
    assert(issue_views(issues@) =~= issue_views(old(issues)@).push((code, message@)));
}

/// Empty payload of the workflow entry.
#[derive(Debug, Clone)]
pub struct StartPayload {}

/// Empty payload of the workflow exit.
#[derive(Debug, Clone)]
pub struct EndPayload {}

/// Payload of a bounded While gate.
#[derive(Debug, Clone)]
pub struct LoopPayload {
    /// Scope of the While body.
    pub body_scope_id: String,
    /// Most body iterations started.
    pub max_iterations: u32,
    /// Whole time budget from the first entry, in milliseconds.
    pub timeout_ms: u64,
    /// Pause before each iteration after the first, in milliseconds.
    pub interval_ms: u64,
}

/// Empty payload of a While body entry.
#[derive(Debug, Clone)]
pub struct LoopEntryPayload {}

/// Empty payload of a While body continue exit.
#[derive(Debug, Clone)]
pub struct LoopContinuePayload {}

/// Empty payload of a While body complete exit.
#[derive(Debug, Clone)]
pub struct LoopCompletePayload {}

/// Payload of an explicit failure end.
#[derive(Debug)]
pub struct FailPayload {
    /// Stable error code declared by the author.
    pub code: String,
    /// Message, resolved when the node runs.
    pub message: ValueExpr,
}

/// Payload of a Log node.
#[derive(Debug, Clone)]
pub struct LogPayload {
    /// Static message written to the event stream.
    pub message: String,
}

/// Payload of a Debug node.
#[derive(Debug)]
pub struct DebugPayload {
    /// Value shown when the node runs.
    pub value: ValueExpr,
}

/// Payload of a Delay node.
#[derive(Debug, Clone)]
pub struct DelayPayload {
    /// Pause in milliseconds.
    pub milliseconds: u64,
}

/// One assignment of a Set Variables node.
#[derive(Debug)]
pub struct VariableAssignment {
    /// Top-level variable written.
    pub name: String,
    /// Value, resolved on the data plane as it was when the transaction
    /// started.
    pub value: ValueExpr,
}

/// Payload of a Set Variables node.
#[derive(Debug)]
pub struct SetVariablesPayload {
    /// Assignments committed together once all succeeded.
    pub assignments: Vec<VariableAssignment>,
}

/// Formatting of an array of objects as delimited text.
#[derive(Debug)]
pub struct DelimitedTextFormat {
    /// Items: an array of objects.
    pub items: ValueExpr,
    /// Fields written per row, in order.
    pub fields: Vec<String>,
    /// Separator between the cells of a row.
    pub column_separator: String,
    /// Separator written after every row.
    pub row_separator: String,
    /// Whether a header row of field names comes first.
    pub include_header: bool,
}

/// Payload of a Format Delimited Text node.
#[derive(Debug)]
pub struct DataFormatPayload {
    /// The formatting.
    pub operation: DelimitedTextFormat,
}

/// Payload of a Command node.
#[derive(Debug)]
pub struct CommandPayload {
    /// The command.
    pub operation: CommandOperation,
}

/// A node frozen from its decoded payload.
#[derive(Debug)]
pub enum PreparedNode {
    /// Workflow entry.
    Start,
    /// Workflow exit.
    End,
    /// Bounded While gate.
    Loop {
        /// Body scope.
        body_scope_id: String,
        /// Most body iterations.
        max_iterations: u32,
        /// Whole time budget in milliseconds.
        timeout_ms: u64,
        /// Pause between iterations in milliseconds.
        interval_ms: u64,
    },
    /// While body entry.
    LoopEntry,
    /// While body continue exit.
    LoopContinue,
    /// While body complete exit.
    LoopComplete,
    /// Explicit failure end.
    Fail {
        /// Declared error code.
        code: String,
        /// Message.
        message: ValueExpr,
    },
    /// Static log message.
    Log {
        /// The message.
        message: String,
    },
    /// Debug output of a value.
    Debug {
        /// Value shown.
        value: ValueExpr,
    },
    /// Pause of the current path.
    Delay {
        /// Pause in milliseconds.
        milliseconds: u64,
    },
    /// Transactional variable assignments.
    SetVariables {
        /// The assignments.
        assignments: Vec<VariableAssignment>,
    },
    /// Delimited text formatting.
    DataFormat {
        /// The formatting.
        operation: DelimitedTextFormat,
    },
    /// A command.
    Command {
        /// The command.
        operation: CommandOperation,
    },
    /// Hidden proxy of an expanded component that publishes its outputs.
    ComponentOutput {
        /// Output names with their expressions over the inner nodes, by name.
        outputs: Vec<(String, ValueExpr)>,
    },
}

/// Freezes the workflow entry.
pub fn prepare_start(payload: StartPayload) -> (n: PreparedNode)
    ensures
        n is Start,
{
    PreparedNode::Start
}

/// Freezes the workflow exit.
pub fn prepare_end(payload: EndPayload) -> (n: PreparedNode)
    ensures
        n is End,
{
    PreparedNode::End
}

/// Freezes a While gate with its configuration.
pub fn prepare_loop(payload: LoopPayload) -> (n: PreparedNode)
    ensures
        n matches PreparedNode::Loop { body_scope_id, max_iterations, timeout_ms, interval_ms }
            && body_scope_id@ == payload.body_scope_id@ && max_iterations == payload.max_iterations
            && timeout_ms == payload.timeout_ms && interval_ms == payload.interval_ms,
{
    PreparedNode::Loop {
        body_scope_id: payload.body_scope_id,
        max_iterations: payload.max_iterations,
        timeout_ms: payload.timeout_ms,
        interval_ms: payload.interval_ms,
    }
}

/// Freezes a While body entry.
pub fn prepare_loop_entry(payload: LoopEntryPayload) -> (n: PreparedNode)
    ensures
        n is LoopEntry,
{
    PreparedNode::LoopEntry
}

/// Freezes a While body continue exit.
pub fn prepare_loop_continue(payload: LoopContinuePayload) -> (n: PreparedNode)
    ensures
        n is LoopContinue,
{
    PreparedNode::LoopContinue
}

/// Freezes a While body complete exit.
pub fn prepare_loop_complete(payload: LoopCompletePayload) -> (n: PreparedNode)
    ensures
        n is LoopComplete,
{
    PreparedNode::LoopComplete
}

/// Freezes an explicit failure end.
pub fn prepare_fail(payload: FailPayload) -> (n: PreparedNode)
    ensures
        n matches PreparedNode::Fail { code, message } && code@ == payload.code@ && message == payload.message,
{
    PreparedNode::Fail { code: payload.code, message: payload.message }
}

/// Freezes a Log node.
pub fn prepare_log(payload: LogPayload) -> (n: PreparedNode)
    ensures
        n matches PreparedNode::Log { message } && message@ == payload.message@,
{
    PreparedNode::Log { message: payload.message }
}

/// Freezes a Debug node.
pub fn prepare_debug(payload: DebugPayload) -> (n: PreparedNode)
    ensures
        n matches PreparedNode::Debug { value } && value == payload.value,
{
    PreparedNode::Debug { value: payload.value }
}

/// Freezes a Delay node.
pub fn prepare_delay(payload: DelayPayload) -> (n: PreparedNode)
    ensures
        n matches PreparedNode::Delay { milliseconds } && milliseconds == payload.milliseconds,
{
    PreparedNode::Delay { milliseconds: payload.milliseconds }
}

/// Freezes a Set Variables node.
pub fn prepare_set_variables(payload: SetVariablesPayload) -> (n: PreparedNode)
    ensures
        n matches PreparedNode::SetVariables { assignments } && assignments@ == payload.assignments@,
{
    PreparedNode::SetVariables { assignments: payload.assignments }
}

/// Freezes a Format Delimited Text node.
pub fn prepare_data_format(payload: DataFormatPayload) -> (n: PreparedNode)
    ensures
        n matches PreparedNode::DataFormat { operation } && operation == payload.operation,
{
    PreparedNode::DataFormat { operation: payload.operation }
}

/// Payload of a component output proxy.
#[derive(Debug)]
pub struct ComponentOutputPayload {
    /// Output names with their expressions, by name.
    pub outputs: Vec<(String, ValueExpr)>,
}

/// Freezes a component output proxy.
pub fn prepare_component_output(payload: ComponentOutputPayload) -> (n: PreparedNode)
    ensures
        n matches PreparedNode::ComponentOutput { outputs } && outputs == payload.outputs,
{
    PreparedNode::ComponentOutput { outputs: payload.outputs }
}

/// Freezes a Command node.
pub fn prepare_command_node(payload: CommandPayload) -> (n: PreparedNode)
    ensures
        n matches PreparedNode::Command { operation } && operation == payload.operation,
{
    PreparedNode::Command { operation: payload.operation }
}


/// Texts of a list of owned strings.
pub open spec fn port_texts(s: Seq<String>) -> Seq<Seq<char>> {
    s.map_values(|t: String| t@)
}

/// Whether `f` is the control flow of `n`: a Start or End node starts or
/// ends the workflow (a Fail node ends it too), a While gate leaves by
/// `completed` or `exhausted` and carries its configuration, the While
/// boundaries keep their roles, and every other node has one successor.
pub open spec fn flow_of(n: PreparedNode, f: NodeFlow) -> bool {
    match n {
        PreparedNode::Start => f is Start,
        PreparedNode::End => f is End,
        PreparedNode::Fail { .. } => f is End,
        PreparedNode::Loop { body_scope_id, max_iterations, timeout_ms, interval_ms } => match f {
            NodeFlow::Loop { ports, body_scope_id: b, max_iterations: m, timeout_ms: t, interval_ms: i } =>
                port_texts(ports@) == seq!["completed"@, "exhausted"@] && b@ == body_scope_id@
                    && m == max_iterations && t == timeout_ms && i == interval_ms,
            _ => false,
        },
        PreparedNode::LoopEntry => f is LoopEntry,
        PreparedNode::LoopContinue => f is LoopContinue,
        PreparedNode::LoopComplete => f is LoopComplete,
        _ => f is Linear,
    }
}

/// Name of a command runner as `Debug` writes it.
pub open spec fn runner_name(r: CommandRunner) -> Seq<char> {
    match r {
        CommandRunner::Direct => "Direct"@,
        CommandRunner::PowerShell => "PowerShell"@,
        CommandRunner::Cmd => "Cmd"@,
    }
}

/// Display label of a node.
pub open spec fn node_label(n: PreparedNode) -> Seq<char> {
    match n {
        PreparedNode::Start => "Start"@,
        PreparedNode::End => "End"@,
        PreparedNode::Loop { .. } => "重复执行"@,
        PreparedNode::LoopEntry => "循环开始"@,
        PreparedNode::LoopContinue => "继续下一轮"@,
        PreparedNode::LoopComplete => "完成循环"@,
        PreparedNode::Fail { .. } => "Fail"@,
        PreparedNode::Log { .. } => "Log"@,
        PreparedNode::Debug { .. } => "Debug Output"@,
        PreparedNode::Delay { milliseconds } => "Delay "@ + decimal(milliseconds as nat) + "ms"@,
        PreparedNode::SetVariables { assignments } => "Set "@ + decimal(assignments@.len()) + " Variables"@,
        PreparedNode::DataFormat { .. } => "Format Delimited Text"@,
        PreparedNode::Command { operation } => "Command "@ + runner_name(operation.runner),
        PreparedNode::ComponentOutput { .. } => "Component Output"@,
    }
}

/// One finding, or none.
pub open spec fn finding_if(cond: bool, code: ValidationIssueCode, message: Seq<char>) -> Seq<(ValidationIssueCode, Seq<char>)> {
    if cond { seq![(code, message)] } else { Seq::empty() }
}

/// Whether the workflow declares the variable `name`.
pub open spec fn declares(vars: Option<Vec<String>>, name: Seq<char>) -> bool {
    match vars {
        Some(v) => has_text(v@, name),
        None => false,
    }
}

/// Assignment `i` repeats the name of an earlier non-blank assignment.
pub open spec fn name_taken(a: Seq<VariableAssignment>, i: int) -> bool {
    exists|j: int| 0 <= j < i && !is_blank_text(#[trigger] a[j].name@) && a[j].name@ == a[i].name@
}

/// Findings of the first `n` assignments, in order: a blank or repeated
/// name, then an undeclared non-blank name.
pub open spec fn assignment_issues(a: Seq<VariableAssignment>, vars: Option<Vec<String>>, n: nat)
    -> Seq<(ValidationIssueCode, Seq<char>)>
    decreases n,
{
    if n == 0 || n > a.len() {
        Seq::empty()
    } else {
        let i = n - 1;
        let name = a[i].name@;
        assignment_issues(a, vars, (n - 1) as nat)
            + finding_if(is_blank_text(name) || name_taken(a, i), ValidationIssueCode::InvalidVariableAssignment,
                "变量名称必须非空且在同一节点内唯一"@)
            + finding_if(!is_blank_text(name) && !declares(vars, name), ValidationIssueCode::UndeclaredVariable,
                "变量 '"@ + name + "' 未声明"@)
    }
}

/// Findings of a formatting: fields must be present, non-blank and
/// unique; rows need a separator.
pub open spec fn format_issues(op: DelimitedTextFormat) -> Seq<(ValidationIssueCode, Seq<char>)> {
    finding_if(op.fields@.len() == 0 || !none_blank(op.fields@) || !distinct_texts(op.fields@),
        ValidationIssueCode::InvalidDataFormat, "文本格式化字段必须非空且唯一"@)
    + finding_if(op.row_separator@.len() == 0, ValidationIssueCode::InvalidDataFormat, "文本格式化行分隔符不能为空"@)
}

/// Most bytes a command may capture per stream: 16 MiB.
pub const MAX_CAPTURE_BYTES: usize = 16777216;

/// Upper-case form of a text, as `str::to_uppercase` computes it.
pub uninterp spec fn uppercase(s: Seq<char>) -> Seq<char>;

/// Calls `str::to_uppercase`; its result, a function of the text alone
/// (Unicode case mapping), is named by `uppercase`.
#[verifier::external_body]
fn to_uppercase(s: &str) -> (r: String)
    ensures
        r@ == uppercase(s@),
{
    s.to_uppercase()
}

/// An environment name is refused for itself: blank or holding `=`.
pub open spec fn env_name_malformed(name: Seq<char>) -> bool {
    is_blank_text(name) || has_char(name, '=')
}

/// Binding `i` repeats, ignoring case, the name of an earlier well-formed binding.
pub open spec fn env_name_taken(env: Seq<crate::command::EnvironmentBinding>, i: int) -> bool {
    exists|j: int| 0 <= j < i && !env_name_malformed(#[trigger] env[j].name@)
        && uppercase(env[j].name@) == uppercase(env[i].name@)
}

/// One finding per malformed or repeated environment name, in order.
pub open spec fn env_issues(env: Seq<crate::command::EnvironmentBinding>, n: nat) -> Seq<(ValidationIssueCode, Seq<char>)>
    decreases n,
{
    if n == 0 || n > env.len() {
        Seq::empty()
    } else {
        env_issues(env, (n - 1) as nat) + finding_if(
            env_name_malformed(env[n - 1].name@) || env_name_taken(env, n - 1),
            ValidationIssueCode::InvalidCommand, "环境变量名称必须非空、不含等号且忽略大小写后唯一"@)
    }
}

/// The operands fit the runner: a Direct command has a program and no
/// script; a shell command has a script and neither program nor arguments.
pub open spec fn command_shape_ok(op: CommandOperation) -> bool {
    match op.runner {
        CommandRunner::Direct => op.program is Some && op.script is None,
        _ => op.program is None && op.arguments@.len() == 0 && op.script is Some,
    }
}

/// Findings of a command, in order: shape, time limit, accepted codes,
/// capture limits, environment names, permission.
pub open spec fn command_issues(op: CommandOperation, permissions: WorkflowPermissions) -> Seq<(ValidationIssueCode, Seq<char>)> {
    finding_if(!command_shape_ok(op), ValidationIssueCode::InvalidCommand, "命令字段与所选运行方式不匹配"@)
    + finding_if(!(1 <= op.timeout_ms <= 3600000), ValidationIssueCode::InvalidCommand, "命令超时必须在 1 到 3600000 毫秒之间"@)
    + finding_if(op.accepted_exit_codes@.len() == 0, ValidationIssueCode::InvalidCommand, "命令至少需要一个可接受退出代码"@)
    + finding_if(!(1 <= op.max_stdout_bytes <= MAX_CAPTURE_BYTES) || !(1 <= op.max_stderr_bytes <= MAX_CAPTURE_BYTES),
        ValidationIssueCode::InvalidCommand, "stdout/stderr 上限必须在 1 字节到 16 MiB 之间"@)
    + env_issues(op.environment@, op.environment@.len())
    + finding_if(!allows_command(op.runner, permissions), ValidationIssueCode::CommandPermissionDenied,
        "工作流权限未授权所选命令运行方式"@)
}

/// Findings of a node, in order.
pub open spec fn node_issues(n: PreparedNode, ctx: NodeValidationContext) -> Seq<(ValidationIssueCode, Seq<char>)> {
    match n {
        PreparedNode::Loop { max_iterations, timeout_ms, interval_ms, .. } =>
            finding_if(!loop_config_accepted(max_iterations, timeout_ms, interval_ms), ValidationIssueCode::InvalidLoop,
                "最多重复次数应为 1 到 10000，最长运行时间应为 1 到 600000 毫秒，每次间隔应为 0 到 60000 毫秒"@),
        PreparedNode::Fail { code, .. } =>
            finding_if(is_blank_text(code@), ValidationIssueCode::InvalidFailure, "请填写错误标识，方便在日志中找到这次问题"@),
        PreparedNode::Log { message } =>
            finding_if(is_blank_text(message@), ValidationIssueCode::EmptyLogMessage, "Log 节点的消息不能为空"@),
        PreparedNode::Delay { milliseconds } =>
            finding_if(!(1 <= milliseconds <= 60000), ValidationIssueCode::InvalidDelay, "Delay 节点必须在 1 到 60000 毫秒之间"@),
        PreparedNode::SetVariables { assignments } =>
            if assignments@.len() == 0 {
                seq![(ValidationIssueCode::InvalidVariableAssignment, "设置变量节点至少需要一项赋值"@)]
            } else {
                assignment_issues(assignments@, ctx.declared_variables, assignments@.len())
            },
        PreparedNode::DataFormat { operation } => format_issues(operation),
        PreparedNode::Command { operation } => command_issues(operation, ctx.permissions),
        _ => Seq::empty(),
    }
}

/// Appends a finding when `cond` holds.
fn push_if(issues: &mut Vec<ValidationIssue>, context: &NodeValidationContext, cond: bool, code: ValidationIssueCode, message: &str)
    requires
        all_at_node(old(issues)@, context.node_id@),
    ensures
        issue_views(final(issues)@) == issue_views(old(issues)@) + finding_if(cond, code, message@),
        all_at_node(final(issues)@, context.node_id@),
{
    if cond {
        push_issue(issues, context, code, owned(message));
        assert(issue_views(old(issues)@).push((code, message@)) =~= issue_views(old(issues)@) + finding_if(cond, code, message@));
    } else {
        assert(issue_views(old(issues)@) =~= issue_views(old(issues)@) + finding_if(cond, code, message@));
    }
}

/// Findings of a Set Variables node with at least one assignment.
fn validate_assignments(assignments: &Vec<VariableAssignment>, context: &NodeValidationContext) -> (r: Vec<ValidationIssue>)
    ensures
        issue_views(r@) == assignment_issues(assignments@, context.declared_variables, assignments@.len()),
        all_at_node(r@, context.node_id@),
{
    let mut issues: Vec<ValidationIssue> = Vec::new();
    let mut seen: Vec<String> = Vec::new();
    let mut i: usize = 0;
    assert(issue_views(issues@) =~= assignment_issues(assignments@, context.declared_variables, 0));
    while i < assignments.len()
        invariant
            i <= assignments@.len(),
            issue_views(issues@) == assignment_issues(assignments@, context.declared_variables, i as nat),
            all_at_node(issues@, context.node_id@),
            forall|t: Seq<char>| has_text(seen@, t) <==>
                (exists|j: int| 0 <= j < i && !is_blank_text(#[trigger] assignments@[j].name@) && assignments@[j].name@ == t),
        decreases assignments@.len() - i,
    {
        let name = &assignments[i].name;
        let blank = is_blank(name.as_str());
        let taken = !blank && contains_text(&seen, name.as_str());
        proof {
            if !blank {
                assert(taken == name_taken(assignments@, i as int));
            }
        }
        let declared = match &context.declared_variables {
            Some(v) => contains_text(v, name.as_str()),
            None => false,
        };
        push_if(&mut issues, context, blank || taken, ValidationIssueCode::InvalidVariableAssignment,
            "变量名称必须非空且在同一节点内唯一");
        if !blank && !declared {
            let m1 = joined("变量 '", name.as_str());
            let m = joined(m1.as_str(), "' 未声明");
            push_issue(&mut issues, context, ValidationIssueCode::UndeclaredVariable, m);
        }
        if !blank && !taken {
            let ghost before = seen@;
            seen.push(name.clone());
            proof {
                assert forall|t: Seq<char>| has_text(seen@, t) <==>
                    (exists|j: int| 0 <= j < i + 1 && !is_blank_text(#[trigger] assignments@[j].name@) && assignments@[j].name@ == t) by {
                    if has_text(seen@, t) {
                        let k = choose|k: int| 0 <= k < seen@.len() && (#[trigger] seen@[k])@ == t;
                        if k < before.len() {
                            assert(before[k] == seen@[k]);
                            assert(has_text(before, t));
                        }
                    }
                    if exists|j: int| 0 <= j < i + 1 && !is_blank_text(#[trigger] assignments@[j].name@) && assignments@[j].name@ == t {
                        let j = choose|j: int| 0 <= j < i + 1 && !is_blank_text(#[trigger] assignments@[j].name@) && assignments@[j].name@ == t;
                        if j < i {
                            assert(has_text(before, t));
                            let k = choose|k: int| 0 <= k < before.len() && (#[trigger] before[k])@ == t;
                            assert(seen@[k] == before[k]);
                        } else {
                            assert(seen@[before.len() as int]@ == t);
                        }
                    }
                }
            }
        } else {
            proof {
                assert forall|t: Seq<char>| has_text(seen@, t) <==>
                    (exists|j: int| 0 <= j < i + 1 && !is_blank_text(#[trigger] assignments@[j].name@) && assignments@[j].name@ == t) by {
                    if exists|j: int| 0 <= j < i + 1 && !is_blank_text(#[trigger] assignments@[j].name@) && assignments@[j].name@ == t {
                        let j = choose|j: int| 0 <= j < i + 1 && !is_blank_text(#[trigger] assignments@[j].name@) && assignments@[j].name@ == t;
                        if j == i {
                            let j2 = choose|j2: int| 0 <= j2 < i && !is_blank_text(#[trigger] assignments@[j2].name@) && assignments@[j2].name@ == assignments@[i as int].name@;
                            assert(0 <= j2 < i && !is_blank_text(assignments@[j2].name@) && assignments@[j2].name@ == t);
                        }
                    }
                }
            }
        }
        proof {
            assert(assignment_issues(assignments@, context.declared_variables, (i + 1) as nat) ==
                assignment_issues(assignments@, context.declared_variables, i as nat)
                + finding_if(blank || taken, ValidationIssueCode::InvalidVariableAssignment, "变量名称必须非空且在同一节点内唯一"@)
                + finding_if(!blank && !declared, ValidationIssueCode::UndeclaredVariable, "变量 '"@ + name@ + "' 未声明"@));
        }
        i += 1;
    }
    issues
}


/// Findings of a formatting.
fn validate_format(op: &DelimitedTextFormat, context: &NodeValidationContext) -> (r: Vec<ValidationIssue>)
    ensures
        issue_views(r@) == format_issues(*op),
        all_at_node(r@, context.node_id@),
{
    let mut issues: Vec<ValidationIssue> = Vec::new();
    let bad_fields = op.fields.len() == 0 || !no_blank(&op.fields) || !all_distinct(&op.fields);
    assert(issue_views(issues@) =~= Seq::empty());
    push_if(&mut issues, context, bad_fields, ValidationIssueCode::InvalidDataFormat, "文本格式化字段必须非空且唯一");
    let no_row_separator = op.row_separator.unicode_len() == 0;
    push_if(&mut issues, context, no_row_separator, ValidationIssueCode::InvalidDataFormat, "文本格式化行分隔符不能为空");
    assert(issue_views(issues@) =~= format_issues(*op));
    issues
}

/// Findings of the environment names of a command.
fn validate_environment(env: &Vec<crate::command::EnvironmentBinding>, context: &NodeValidationContext, issues: &mut Vec<ValidationIssue>)
    requires
        all_at_node(old(issues)@, context.node_id@),
    ensures
        issue_views(final(issues)@) == issue_views(old(issues)@) + env_issues(env@, env@.len()),
        all_at_node(final(issues)@, context.node_id@),
{
    let mut seen: Vec<String> = Vec::new();
    let mut i: usize = 0;
    let ghost start = issue_views(issues@);
    assert(start + env_issues(env@, 0) =~= start);
    while i < env.len()
        invariant
            i <= env@.len(),
            start == issue_views(old(issues)@),
            issue_views(issues@) == start + env_issues(env@, i as nat),
            all_at_node(issues@, context.node_id@),
            forall|t: Seq<char>| has_text(seen@, t) <==>
                (exists|j: int| 0 <= j < i && !env_name_malformed(#[trigger] env@[j].name@) && uppercase(env@[j].name@) == t),
        decreases env@.len() - i,
    {
        let name = &env[i].name;
        let malformed = is_blank(name.as_str()) || contains_char(name.as_str(), '=');
        let upper = to_uppercase(name.as_str());
        let taken = !malformed && contains_text(&seen, upper.as_str());
        proof {
            if !malformed {
                if taken {
                    let j = choose|j: int| 0 <= j < i && !env_name_malformed(#[trigger] env@[j].name@) && uppercase(env@[j].name@) == upper@;
                    assert(env_name_taken(env@, i as int));
                } else if env_name_taken(env@, i as int) {
                    let j = choose|j: int| 0 <= j < i && !env_name_malformed(#[trigger] env@[j].name@)
                        && uppercase(env@[j].name@) == uppercase(env@[i as int].name@);
                    assert(has_text(seen@, upper@));
                }
            }
        }
        push_if(issues, context, malformed || taken, ValidationIssueCode::InvalidCommand,
            "环境变量名称必须非空、不含等号且忽略大小写后唯一");
        if !malformed && !taken {
            let ghost before = seen@;
            seen.push(upper);
            proof {
                assert forall|t: Seq<char>| has_text(seen@, t) <==>
                    (exists|j: int| 0 <= j < i + 1 && !env_name_malformed(#[trigger] env@[j].name@) && uppercase(env@[j].name@) == t) by {
                    if has_text(seen@, t) {
                        let k = choose|k: int| 0 <= k < seen@.len() && (#[trigger] seen@[k])@ == t;
                        if k < before.len() {
                            assert(before[k] == seen@[k]);
                            assert(has_text(before, t));
                        }
                    }
                    if exists|j: int| 0 <= j < i + 1 && !env_name_malformed(#[trigger] env@[j].name@) && uppercase(env@[j].name@) == t {
                        let j = choose|j: int| 0 <= j < i + 1 && !env_name_malformed(#[trigger] env@[j].name@) && uppercase(env@[j].name@) == t;
                        if j < i {
                            assert(has_text(before, t));
                            let k = choose|k: int| 0 <= k < before.len() && (#[trigger] before[k])@ == t;
                            assert(seen@[k] == before[k]);
                        } else {
                            assert(seen@[before.len() as int]@ == t);
                        }
                    }
                }
            }
        } else {
            proof {
                assert forall|t: Seq<char>| has_text(seen@, t) <==>
                    (exists|j: int| 0 <= j < i + 1 && !env_name_malformed(#[trigger] env@[j].name@) && uppercase(env@[j].name@) == t) by {
                    if exists|j: int| 0 <= j < i + 1 && !env_name_malformed(#[trigger] env@[j].name@) && uppercase(env@[j].name@) == t {
                        let j = choose|j: int| 0 <= j < i + 1 && !env_name_malformed(#[trigger] env@[j].name@) && uppercase(env@[j].name@) == t;
                        if j == i {
                            assert(has_text(seen@, upper@));
                        }
                    }
                }
            }
        }
        proof {
            assert(env_issues(env@, (i + 1) as nat) == env_issues(env@, i as nat) + finding_if(
                env_name_malformed(env@[i as int].name@) || env_name_taken(env@, i as int),
                ValidationIssueCode::InvalidCommand, "环境变量名称必须非空、不含等号且忽略大小写后唯一"@));
            assert(start + env_issues(env@, (i + 1) as nat) =~= start + env_issues(env@, i as nat) + finding_if(
                env_name_malformed(env@[i as int].name@) || env_name_taken(env@, i as int),
                ValidationIssueCode::InvalidCommand, "环境变量名称必须非空、不含等号且忽略大小写后唯一"@));
        }
        i += 1;
    }
}

/// Findings of a command.
fn validate_command(op: &CommandOperation, context: &NodeValidationContext) -> (r: Vec<ValidationIssue>)
    ensures
        issue_views(r@) == command_issues(*op, context.permissions),
        all_at_node(r@, context.node_id@),
{
    let mut issues: Vec<ValidationIssue> = Vec::new();
    let shape_ok = match op.runner {
        CommandRunner::Direct => op.program.is_some() && op.script.is_none(),
        _ => op.program.is_none() && op.arguments.len() == 0 && op.script.is_some(),
    };
    assert(issue_views(issues@) =~= Seq::empty());
    push_if(&mut issues, context, !shape_ok, ValidationIssueCode::InvalidCommand, "命令字段与所选运行方式不匹配");
    push_if(&mut issues, context, !(1 <= op.timeout_ms && op.timeout_ms <= 3600000), ValidationIssueCode::InvalidCommand,
        "命令超时必须在 1 到 3600000 毫秒之间");
    push_if(&mut issues, context, op.accepted_exit_codes.len() == 0, ValidationIssueCode::InvalidCommand,
        "命令至少需要一个可接受退出代码");
    let capture_ok = 1 <= op.max_stdout_bytes && op.max_stdout_bytes <= MAX_CAPTURE_BYTES
        && 1 <= op.max_stderr_bytes && op.max_stderr_bytes <= MAX_CAPTURE_BYTES;
    push_if(&mut issues, context, !capture_ok, ValidationIssueCode::InvalidCommand, "stdout/stderr 上限必须在 1 字节到 16 MiB 之间");
    validate_environment(&op.environment, context, &mut issues);
    let p = context.permissions;
    let allowed = p.process_spawn && (op.runner != CommandRunner::PowerShell || p.powershell)
        && (op.runner != CommandRunner::Cmd || p.cmd);
    push_if(&mut issues, context, !allowed, ValidationIssueCode::CommandPermissionDenied, "工作流权限未授权所选命令运行方式");
    assert(issue_views(issues@) =~= command_issues(*op, context.permissions));
    issues
}

impl PreparedNode {
    /// How control leaves this node.
    pub fn flow(&self) -> (f: NodeFlow)
        ensures
            flow_of(*self, f),
    {
        match self {
            PreparedNode::Start => NodeFlow::Start,
            PreparedNode::End => NodeFlow::End,
            PreparedNode::Fail { .. } => NodeFlow::End,
            PreparedNode::Loop { body_scope_id, max_iterations, timeout_ms, interval_ms } => {
                let ports = vec![owned("completed"), owned("exhausted")];
                assert(port_texts(ports@) =~= seq!["completed"@, "exhausted"@]);
                NodeFlow::Loop {
                    ports,
                    body_scope_id: body_scope_id.clone(),
                    max_iterations: *max_iterations,
                    timeout_ms: *timeout_ms,
                    interval_ms: *interval_ms,
                }
            },
            PreparedNode::LoopEntry => NodeFlow::LoopEntry,
            PreparedNode::LoopContinue => NodeFlow::LoopContinue,
            PreparedNode::LoopComplete => NodeFlow::LoopComplete,
            _ => NodeFlow::Linear,
        }
    }

    /// Display label of this node.
    pub fn label(&self) -> (r: String)
        ensures
            r@ == node_label(*self),
    {
        match self {
            PreparedNode::Start => owned("Start"),
            PreparedNode::End => owned("End"),
            PreparedNode::Loop { .. } => owned("重复执行"),
            PreparedNode::LoopEntry => owned("循环开始"),
            PreparedNode::LoopContinue => owned("继续下一轮"),
            PreparedNode::LoopComplete => owned("完成循环"),
            PreparedNode::Fail { .. } => owned("Fail"),
            PreparedNode::Log { .. } => owned("Log"),
            PreparedNode::Debug { .. } => owned("Debug Output"),
            PreparedNode::Delay { milliseconds } => {
                let head = joined("Delay ", decimal_text(*milliseconds).as_str());
                joined(head.as_str(), "ms")
            },
            PreparedNode::SetVariables { assignments } => {
                let head = joined("Set ", decimal_text(assignments.len() as u64).as_str());
                joined(head.as_str(), " Variables")
            },
            PreparedNode::DataFormat { .. } => owned("Format Delimited Text"),
            PreparedNode::Command { operation } => {
                let name = match operation.runner {
                    CommandRunner::Direct => "Direct",
                    CommandRunner::PowerShell => "PowerShell",
                    CommandRunner::Cmd => "Cmd",
                };
                joined("Command ", name)
            },
            PreparedNode::ComponentOutput { .. } => owned("Component Output"),
        }
    }

    /// Findings of this node's own configuration, in order; none means the
    /// node is valid.
    pub fn validate(&self, context: &NodeValidationContext) -> (r: Vec<ValidationIssue>)
        ensures
            issue_views(r@) == node_issues(*self, *context),
            all_at_node(r@, context.node_id@),
    {
        let empty: Vec<ValidationIssue> = Vec::new();
        assert(issue_views(empty@) =~= Seq::empty());
        match self {
            PreparedNode::Loop { max_iterations, timeout_ms, interval_ms, .. } => {
                if loop_config_valid(*max_iterations, *timeout_ms, *interval_ms) {
                    empty
                } else {
                    context.single(ValidationIssueCode::InvalidLoop,
                        "最多重复次数应为 1 到 10000，最长运行时间应为 1 到 600000 毫秒，每次间隔应为 0 到 60000 毫秒")
                }
            },
            PreparedNode::Fail { code, .. } => {
                if is_blank(code.as_str()) {
                    context.single(ValidationIssueCode::InvalidFailure, "请填写错误标识，方便在日志中找到这次问题")
                } else {
                    empty
                }
            },
            PreparedNode::Log { message } => {
                if is_blank(message.as_str()) {
                    context.single(ValidationIssueCode::EmptyLogMessage, "Log 节点的消息不能为空")
                } else {
                    empty
                }
            },
            PreparedNode::Delay { milliseconds } => {
                if 1 <= *milliseconds && *milliseconds <= 60000 {
                    empty
                } else {
                    context.single(ValidationIssueCode::InvalidDelay, "Delay 节点必须在 1 到 60000 毫秒之间")
                }
            },
            PreparedNode::SetVariables { assignments } => {
                if assignments.len() == 0 {
                    context.single(ValidationIssueCode::InvalidVariableAssignment, "设置变量节点至少需要一项赋值")
                } else {
                    validate_assignments(assignments, context)
                }
            },
            PreparedNode::DataFormat { operation } => validate_format(operation, context),
            PreparedNode::Command { operation } => validate_command(operation, context),
            _ => empty,
        }
    }
}

/// Whether `s` begins with `prefix`.
pub open spec fn starts_with(s: Seq<char>, prefix: Seq<char>) -> bool {
    prefix.len() <= s.len() && s.subrange(0, prefix.len() as int) == prefix
}

/// A navigation target is a non-empty absolute HTTP(S) URL: the text
/// before the first `://` is `http` or `https` and the rest is not blank.
pub open spec fn http_url(s: Seq<char>) -> bool {
    ||| starts_with(s, "http://"@) && !is_blank_text(s.subrange(7, s.len() as int))
    ||| starts_with(s, "https://"@) && !is_blank_text(s.subrange(8, s.len() as int))
}

/// Checks whether `s` begins with `prefix`.
fn has_prefix(s: &str, prefix: &str) -> (b: bool)
    ensures
        b == starts_with(s@, prefix@),
{
    let n = s.unicode_len();
    let m = prefix.unicode_len();
    if m > n {
        return false;
    }
    let mut k: usize = 0;
    while k < m
        invariant
            n == s@.len(),
            m == prefix@.len(),
            m <= n,
            k <= m,
            forall|j: int| 0 <= j < k ==> s@[j] == prefix@[j],
        decreases m - k,
    {
        if s.get_char(k) != prefix.get_char(k) {
            assert(s@.subrange(0, m as int)[k as int] == s@[k as int]);
            return false;
        }
        k += 1;
    }
    assert(s@.subrange(0, m as int) =~= prefix@);
    true
}

/// Checks whether the text from `start` on is blank.
fn blank_from(s: &str, start: usize) -> (b: bool)
    requires
        start <= s@.len(),
    ensures
        b == is_blank_text(s@.subrange(start as int, s@.len() as int)),
{
    let n = s.unicode_len();
    let mut k: usize = start;
    while k < n
        invariant
            n == s@.len(),
            start <= k <= n,
            forall|j: int| start <= j < k ==> crate::text::is_white_space(#[trigger] s@[j]),
        decreases n - k,
    {
        if !crate::text::white_space(s.get_char(k)) {
            assert(s@.subrange(start as int, n as int)[k - start] == s@[k as int]);
            return false;
        }
        k += 1;
    }
    assert forall|j: int| 0 <= j < s@.subrange(start as int, n as int).len()
        implies crate::text::is_white_space(#[trigger] s@.subrange(start as int, n as int)[j]) by {
        assert(s@.subrange(start as int, n as int)[j] == s@[start + j]);
    }
    true
}

/// Whether `value` is a non-empty absolute HTTP(S) URL.
pub fn is_http_url(value: &str) -> (b: bool)
    ensures
        b == http_url(value@),
{
    proof {
        reveal_strlit("http://");
        reveal_strlit("https://");
        if starts_with(value@, "http://"@) && starts_with(value@, "https://"@) {
            assert(value@.subrange(0, 7)[4] == value@[4]);
            assert(value@.subrange(0, 8)[4] == value@[4]);
        }
    }
    if has_prefix(value, "http://") {
        !blank_from(value, 7)
    } else if has_prefix(value, "https://") {
        !blank_from(value, 8)
    } else {
        false
    }
}
/// Parts joined by a separator.
pub open spec fn join_with(parts: Seq<Seq<char>>, sep: Seq<char>) -> Seq<char>
    decreases parts.len(),
{
    if parts.len() == 0 {
        Seq::empty()
    } else if parts.len() == 1 {
        parts[0]
    } else {
        join_with(parts.drop_last(), sep) + sep + parts.last()
    }
}

/// Rows each followed by the row separator.
pub open spec fn terminated(rows: Seq<Seq<char>>, sep: Seq<char>) -> Seq<char>
    decreases rows.len(),
{
    if rows.len() == 0 { Seq::empty() } else { terminated(rows.drop_last(), sep) + rows.last() + sep }
}

/// Cell of `field` in an object: a missing field reads as `null`.
pub open spec fn cell_of(entries: Seq<(String, JsonValue)>, field: Seq<char>) -> Option<Seq<char>> {
    match lookup(entries, field) {
        Some(v) => scalar_cell(v),
        None => Some(Seq::empty()),
    }
}

/// Value of `field` in an object, `null` when missing.
pub open spec fn field_value(entries: Seq<(String, JsonValue)>, field: Seq<char>) -> JsonValue {
    match lookup(entries, field) {
        Some(v) => v,
        None => JsonValue::Null,
    }
}

/// Texts of a list of owned strings.
pub open spec fn field_texts(s: Seq<String>) -> Seq<Seq<char>> {
    s.map_values(|t: String| t@)
}

/// Every field of the first `n` fields renders as a scalar cell.
pub open spec fn cells_ok(entries: Seq<(String, JsonValue)>, fields: Seq<String>, n: int) -> bool {
    forall|k: int| 0 <= k < n ==> (#[trigger] cell_of(entries, fields[k]@)) is Some
}

/// The cells of an object's row, in field order.
pub open spec fn row_cells(entries: Seq<(String, JsonValue)>, fields: Seq<String>) -> Seq<Seq<char>> {
    Seq::new(fields.len(), |k: int| cell_of(entries, fields[k]@)->0)
}

/// Item `i` is an object all of whose fields render as scalars.
pub open spec fn item_ok(items: Seq<JsonValue>, fields: Seq<String>, i: int) -> bool {
    match items[i] {
        JsonValue::Object(entries) => cells_ok(entries@, fields, fields.len() as int),
        _ => false,
    }
}

/// The row of a well-formed item.
pub open spec fn item_row(item: JsonValue, fields: Seq<String>, sep: Seq<char>) -> Seq<char> {
    match item {
        JsonValue::Object(entries) => join_with(row_cells(entries@, fields), sep),
        _ => Seq::empty(),
    }
}

/// Rows of the first `n` items, after the header row when there is one.
pub open spec fn format_rows(op: DelimitedTextFormat, items: Seq<JsonValue>, n: nat) -> Seq<Seq<char>>
    decreases n,
{
    if n == 0 || n > items.len() {
        if op.include_header { seq![join_with(field_texts(op.fields@), op.column_separator@)] } else { Seq::empty() }
    } else {
        format_rows(op, items, (n - 1) as nat).push(item_row(items[n - 1], op.fields@, op.column_separator@))
    }
}

/// The failure formatting stops at: the first item, in order, that is not
/// an object or has a field that is not a scalar; within an item, the first
/// such field.
pub open spec fn format_failure(op: DelimitedTextFormat, items: Seq<JsonValue>, r: Result<String, RuntimeError>) -> bool {
    exists|i: int| 0 <= i < items.len() && !item_ok(items, op.fields@, i)
        && (forall|j: int| 0 <= j < i ==> item_ok(items, op.fields@, j))
        && match items[i] {
            JsonValue::Object(entries) => exists|k: int| 0 <= k < op.fields@.len()
                && cells_ok(entries@, op.fields@, k) && cell_of(entries@, op.fields@[k]@) is None
                && mismatch(r, "scalar"@, field_value(entries@, op.fields@[k]@)),
            other => mismatch(r, "object"@, other),
        }
}

/// Renders one field of an object as a cell.
fn field_cell(entries: &Vec<(String, JsonValue)>, field: &str) -> (r: Result<String, RuntimeError>)
    ensures
        match cell_of(entries@, field@) {
            Some(t) => r matches Ok(s) && s@ == t,
            None => mismatch(r, "scalar"@, field_value(entries@, field@)),
        },
{
    match get_entry(entries, field) {
        Some(v) => scalar_text(v),
        None => Ok(String::new()),
    }
}

/// Joins the cells of one object in field order.
fn object_row(entries: &Vec<(String, JsonValue)>, fields: &Vec<String>, sep: &str) -> (r: Result<String, RuntimeError>)
    ensures
        cells_ok(entries@, fields@, fields@.len() as int) ==> (r matches Ok(s) && s@ == join_with(row_cells(entries@, fields@), sep@)),
        !cells_ok(entries@, fields@, fields@.len() as int) ==> exists|k: int| 0 <= k < fields@.len()
            && cells_ok(entries@, fields@, k) && cell_of(entries@, fields@[k]@) is None
            && mismatch(r, "scalar"@, field_value(entries@, fields@[k]@)),
{
    let mut out = String::new();
    let mut k: usize = 0;
    while k < fields.len()
        invariant
            k <= fields@.len(),
            cells_ok(entries@, fields@, k as int),
            out@ == join_with(row_cells(entries@, fields@).take(k as int), sep@),
        decreases fields@.len() - k,
    {
        let cell = match field_cell(entries, fields[k].as_str()) {
            Ok(c) => c,
            Err(e) => {
                assert(cell_of(entries@, fields@[k as int]@) is None);
                return Err(e);
            },
        };
        proof {
            let cells = row_cells(entries@, fields@);
            assert(cells.take(k + 1).drop_last() =~= cells.take(k as int));
            assert(cells.take(k + 1).last() == cell@);
        }
        if k > 0 {
            out.append(sep);
        }
        out.append(cell.as_str());
        proof {
            let cells = row_cells(entries@, fields@);
            if k == 0 {
                assert(cells.take(1) =~= seq![cell@]);
            }
        }
        k += 1;
    }
    assert(row_cells(entries@, fields@).take(fields@.len() as int) =~= row_cells(entries@, fields@));
    Ok(out)
}

/// Joins the field names as the header row.
fn header_row(fields: &Vec<String>, sep: &str) -> (r: String)
    ensures
        r@ == join_with(field_texts(fields@), sep@),
{
    let mut out = String::new();
    let mut k: usize = 0;
    while k < fields.len()
        invariant
            k <= fields@.len(),
            out@ == join_with(field_texts(fields@).take(k as int), sep@),
        decreases fields@.len() - k,
    {
        proof {
            let names = field_texts(fields@);
            assert(names.take(k + 1).drop_last() =~= names.take(k as int));
            if k == 0 {
                assert(names.take(1) =~= seq![fields@[0]@]);
            }
        }
        if k > 0 {
            out.append(sep);
        }
        out.append(fields[k].as_str());
        k += 1;
    }
    assert(field_texts(fields@).take(fields@.len() as int) =~= field_texts(fields@));
    out
}

/// The outcome of formatting `items`: a refused non-array, the first
/// failing item, or the text of all rows.
pub open spec fn formatted(op: DelimitedTextFormat, items: JsonValue, r: Result<String, RuntimeError>) -> bool {
    match items {
        JsonValue::Array(list) => if forall|i: int| 0 <= i < list@.len() ==> item_ok(list@, op.fields@, i) {
            r matches Ok(s) && s@ == terminated(format_rows(op, list@, list@.len()), op.row_separator@)
        } else {
            format_failure(op, list@, r)
        },
        other => mismatch(r, "array"@, other),
    }
}

/// Formats resolved items, an array of objects, as delimited text: an
/// optional header row of field names, then one row per object with its
/// fields' scalar values in field order, every row followed by the row
/// separator.
pub fn format_delimited(op: &DelimitedTextFormat, items: &JsonValue) -> (r: Result<String, RuntimeError>)
    ensures
        formatted(*op, *items, r),
{
    let list = match items {
        JsonValue::Array(list) => list,
        _ => {
            return Err(RuntimeError::ValueTypeMismatch { expected: owned("array"), actual: json_type_name(items) });
        },
    };
    let sep = op.row_separator.as_str();
    let mut text = String::new();
    if op.include_header {
        let header = header_row(&op.fields, op.column_separator.as_str());
        text.append(header.as_str());
        text.append(sep);
    }
    proof {
        let rows0 = format_rows(*op, list@, 0);
        if op.include_header {
            let h = join_with(field_texts(op.fields@), op.column_separator@);
            assert(rows0 == seq![h]);
            assert(rows0.drop_last() =~= Seq::<Seq<char>>::empty());
            assert(terminated(rows0, op.row_separator@) == terminated(Seq::<Seq<char>>::empty(), op.row_separator@) + h + op.row_separator@);
            assert(text@ =~= terminated(rows0, op.row_separator@));
        } else {
            assert(rows0 == Seq::<Seq<char>>::empty());
            assert(text@ =~= terminated(rows0, op.row_separator@));
        }
    }
    let mut i: usize = 0;
    while i < list.len()
        invariant
            *items == JsonValue::Array(*list),
            i <= list@.len(),
            sep@ == op.row_separator@,
            forall|j: int| 0 <= j < i ==> item_ok(list@, op.fields@, j),
            text@ == terminated(format_rows(*op, list@, i as nat), op.row_separator@),
        decreases list@.len() - i,
    {
        let entries = match &list[i] {
            JsonValue::Object(entries) => entries,
            other => {
                assert(!item_ok(list@, op.fields@, i as int));
                let r = Err(RuntimeError::ValueTypeMismatch { expected: owned("object"), actual: json_type_name(other) });
                assert(mismatch(r, "object"@, list@[i as int]));
                assert(format_failure(*op, list@, r));
                assert(!(forall|j: int| 0 <= j < list@.len() ==> item_ok(list@, op.fields@, j)));
                assert(formatted(*op, *items, r));
                return r;
            },
        };
        let row = match object_row(entries, &op.fields, op.column_separator.as_str()) {
            Ok(row) => row,
            Err(e) => {
                assert(!item_ok(list@, op.fields@, i as int));
                let r: Result<String, RuntimeError> = Err(e);
                assert(format_failure(*op, list@, r));
                assert(!(forall|j: int| 0 <= j < list@.len() ==> item_ok(list@, op.fields@, j)));
                assert(formatted(*op, *items, r));
                return r;
            },
        };
        assert(item_ok(list@, op.fields@, i as int));
        text.append(row.as_str());
        text.append(sep);
        proof {
            assert(format_rows(*op, list@, (i + 1) as nat).drop_last() =~= format_rows(*op, list@, i as nat));
        }
        i += 1;
    }
    Ok(text)
}

/// Kind of an event a node emits before it succeeds.
#[derive(Debug)]
pub enum NodeEventKind {
    /// A log line.
    Log,
    /// The workflow ends with a declared failure.
    WorkflowFailureDeclared {
        /// Declared error code.
        code: String,
    },
    /// A command exited.
    CommandExited {
        /// Exit code.
        exit_code: i32,
    },
}

/// An event a node emits, in order, before it succeeds.
#[derive(Debug)]
pub struct NodeEvent {
    /// Kind and payload.
    pub kind: NodeEventKind,
    /// Optional explanation.
    pub message: Option<String>,
}

/// An explicit end of the workflow with a declared failure.
#[derive(Debug)]
pub struct WorkflowTermination {
    /// Declared error code.
    pub code: String,
    /// Resolved message.
    pub message: String,
}

/// Result of one node.
#[derive(Debug)]
pub struct NodeExecution {
    /// Published outputs.
    pub outcome: NodeOutcome,
    /// Events emitted before success, in order.
    pub events: Vec<NodeEvent>,
    /// Control port chosen, for branching nodes.
    pub branch: Option<String>,
    /// Declared end of the workflow, for a Fail node.
    pub termination: Option<WorkflowTermination>,
}

/// A declared end of the workflow fails the run with its code and message;
/// without one the path goes on.
pub fn termination_failure(termination: Option<WorkflowTermination>) -> (r: Result<(), RuntimeError>)
    ensures
        match termination {
            None => r is Ok,
            Some(w) => r matches Err(RuntimeError::WorkflowFailure { code, message }) && code@ == w.code@
                && message@ == w.message@,
        },
{
    match termination {
        None => Ok(()),
        Some(w) => Err(RuntimeError::WorkflowFailure { code: w.code, message: w.message }),
    }
}

/// A node result without outputs, events, branch or termination.
pub open spec fn is_plain(e: NodeExecution) -> bool {
    e.outcome.outputs@.len() == 0 && e.outcome.resources@.len() == 0 && e.events@.len() == 0
        && e.branch is None && e.termination is None
}

/// A result without outputs, events, branch or termination.
pub fn plain_execution() -> (e: NodeExecution)
    ensures
        is_plain(e),
{
    NodeExecution { outcome: NodeOutcome::values(Vec::new()), events: Vec::new(), branch: None, termination: None }
}

/// A Log node emits its message as one log event.
pub fn execute_log(message: &String) -> (e: NodeExecution)
    ensures
        e.outcome.outputs@.len() == 0,
        e.branch is None && e.termination is None,
        e.events@.len() == 1,
        e.events@[0].kind is Log,
        e.events@[0].message matches Some(m) && m@ == message@,
{
    NodeExecution {
        outcome: NodeOutcome::values(Vec::new()),
        events: vec![NodeEvent { kind: NodeEventKind::Log, message: Some(message.clone()) }],
        branch: None,
        termination: None,
    }
}

/// A Fail node resolves its message and ends the workflow with its code,
/// announcing the declared failure first.
pub fn execute_fail(code: &String, message: &ValueExpr, context: &RunContext) -> (r: Result<NodeExecution, RuntimeError>)
    ensures
        match resolve_spec(*message, context.inputs(), context.vars(), context.nodes()) {
            Resolved::Value(crate::json::JsonView::String(t)) => r matches Ok(e) && e.outcome.outputs@.len() == 0
                && e.events@.len() == 1
                && (e.events@[0].kind matches NodeEventKind::WorkflowFailureDeclared { code: c } && c@ == code@)
                && (e.events@[0].message matches Some(m) && m@ == t)
                && (e.termination matches Some(w) && w.code@ == code@ && w.message@ == t),
            other => r matches Err(err) && exists|s: Result<String, RuntimeError>| text_of(other, s) && s == Err::<String, RuntimeError>(err),
        },
{
    let text = match context.resolve_text(message) {
        Ok(t) => t,
        Err(e) => { return Err(e); },
    };
    Ok(NodeExecution {
        outcome: NodeOutcome::values(Vec::new()),
        events: vec![NodeEvent {
            kind: NodeEventKind::WorkflowFailureDeclared { code: code.clone() },
            message: Some(text.clone()),
        }],
        branch: None,
        termination: Some(WorkflowTermination { code: code.clone(), message: text }),
    })
}

/// The first assignment, in order, whose value does not resolve on the
/// data plane `(inputs, vars, nodes)`.
pub open spec fn first_unresolved(a: Seq<VariableAssignment>, inputs: Map<Seq<char>, crate::json::JsonView>,
    vars: Map<Seq<char>, crate::json::JsonView>, nodes: Map<Seq<char>, crate::json::JsonView>, i: int) -> bool {
    0 <= i < a.len() && !(resolve_spec(a[i].value, inputs, vars, nodes) is Value)
        && forall|j: int| 0 <= j < i ==> (#[trigger] resolve_spec(a[j].value, inputs, vars, nodes)) is Value
}

/// A Set Variables node resolves every assignment on the data plane as it
/// was before the node, then commits them all at once; if one fails,
/// nothing is committed and the failure names the variable.
pub fn execute_set_variables(node_id: &str, assignments: &Vec<VariableAssignment>, context: &mut RunContext)
    -> (r: Result<NodeExecution, RuntimeError>)
    ensures
        final(context).inputs() == old(context).inputs(),
        final(context).nodes() == old(context).nodes(),
        final(context).loops() == old(context).loops(),
        match r {
            Ok(e) => is_plain(e)
                && (forall|j: int| 0 <= j < assignments@.len()
                    ==> (#[trigger] resolve_spec(assignments@[j].value, old(context).inputs(), old(context).vars(), old(context).nodes())) is Value)
                && final(context).vars() == assignments@.fold_left(old(context).vars(),
                    |m: Map<Seq<char>, crate::json::JsonView>, a: VariableAssignment|
                        m.insert(a.name@, resolve_spec(a.value, old(context).inputs(), old(context).vars(), old(context).nodes())->Value_0)),
            Err(err) => final(context).vars() == old(context).vars()
                && exists|i: int| first_unresolved(assignments@, old(context).inputs(), old(context).vars(), old(context).nodes(), i)
                    && (err matches RuntimeError::VariableAssignmentFailed { node_id: n, variable, message }
                        && n@ == node_id@ && variable@ == assignments@[i].name@
                        && exists|inner: RuntimeError| #[trigger] resolved_of(Err(inner)) == Some(resolve_spec(assignments@[i].value,
                            old(context).inputs(), old(context).vars(), old(context).nodes()))
                            && message@ == runtime_error_text(inner)),
        },
{
    let ghost inputs = context.inputs();
    let ghost vars = context.vars();
    let ghost nodes = context.nodes();
    let ghost f = |m: Map<Seq<char>, crate::json::JsonView>, a: VariableAssignment|
        m.insert(a.name@, resolve_spec(a.value, inputs, vars, nodes)->Value_0);
    let mut values: Vec<(String, JsonValue)> = Vec::new();
    let mut i: usize = 0;
    while i < assignments.len()
        invariant
            i <= assignments@.len(),
            context.inputs() == inputs && context.vars() == vars && context.nodes() == nodes,
            values@.len() == i,
            forall|j: int| 0 <= j < i ==> (#[trigger] resolve_spec(assignments@[j].value, inputs, vars, nodes)) is Value,
            forall|j: int| 0 <= j < i ==> (#[trigger] values@[j]).0@ == assignments@[j].name@
                && Resolved::Value(jview(values@[j].1)) == resolve_spec(assignments@[j].value, inputs, vars, nodes),
        decreases assignments@.len() - i,
    {
        let a = &assignments[i];
        match context.resolve_value(&a.value) {
            Ok(v) => { values.push((a.name.clone(), v)); },
            Err(e) => {
                let message = e.message();
                proof {
                    assert(first_unresolved(assignments@, inputs, vars, nodes, i as int));
                }
                return Err(RuntimeError::VariableAssignmentFailed {
                    node_id: owned(node_id),
                    variable: a.name.clone(),
                    message,
                });
            },
        }
        i += 1;
    }
    let ghost vals = values@;
    context.commit_variables(values);
    proof { lemma_commit_matches(vars, vals, assignments@, inputs, vars, nodes); }
    Ok(plain_execution())
}

proof fn lemma_commit_matches(start: Map<Seq<char>, crate::json::JsonView>, vals: Seq<(String, JsonValue)>, a: Seq<VariableAssignment>,
    inputs: Map<Seq<char>, crate::json::JsonView>, vars: Map<Seq<char>, crate::json::JsonView>, nodes: Map<Seq<char>, crate::json::JsonView>)
    requires
        vals.len() == a.len(),
        forall|j: int| 0 <= j < a.len() ==> (#[trigger] vals[j]).0@ == a[j].name@
            && Resolved::Value(jview(vals[j].1)) == resolve_spec(a[j].value, inputs, vars, nodes),
    ensures
        committed(start, vals) == a.fold_left(start, |m: Map<Seq<char>, crate::json::JsonView>, x: VariableAssignment|
            m.insert(x.name@, resolve_spec(x.value, inputs, vars, nodes)->Value_0)),
    decreases a.len(),
{
    if a.len() > 0 {
        let f = |m: Map<Seq<char>, crate::json::JsonView>, x: VariableAssignment| m.insert(x.name@, resolve_spec(x.value, inputs, vars, nodes)->Value_0);
        let g = |m: Map<Seq<char>, crate::json::JsonView>, x: (String, JsonValue)| m.insert(x.0@, jview(x.1));
        assert forall|j: int| 0 <= j < a.drop_last().len() implies (#[trigger] vals.drop_last()[j]).0@ == a.drop_last()[j].name@
            && Resolved::Value(jview(vals.drop_last()[j].1)) == resolve_spec(a.drop_last()[j].value, inputs, vars, nodes) by {
            assert(vals.drop_last()[j] == vals[j]);
            assert(a.drop_last()[j] == a[j]);
        }
        lemma_commit_matches(start, vals.drop_last(), a.drop_last(), inputs, vars, nodes);
        assert(vals.last() == vals[vals.len() - 1]);
        assert(a.last() == a[a.len() - 1]);
        assert(committed(start, vals) == g(committed(start, vals.drop_last()), vals.last()));
        assert(a.fold_left(start, f) == f(a.drop_last().fold_left(start, f), a.last()));
    }
}

/// A Format Delimited Text node resolves its items and publishes the text
/// as its `text` output.
pub fn execute_data_format(op: &DelimitedTextFormat, context: &RunContext) -> (r: Result<NodeExecution, RuntimeError>)
    ensures
        match resolve_spec(op.items, context.inputs(), context.vars(), context.nodes()) {
            Resolved::Value(v) => exists|items: JsonValue, f: Result<String, RuntimeError>| jview(items) == v && formatted(*op, items, f)
                && match f {
                    Ok(t) => r matches Ok(e) && e.outcome.outputs@.len() == 1 && e.outcome.outputs@[0].0@ == "text"@
                        && (e.outcome.outputs@[0].1 matches JsonValue::String(s) && s@ == t@)
                        && e.events@.len() == 0 && e.branch is None && e.termination is None,
                    Err(fe) => r == Err::<NodeExecution, RuntimeError>(fe),
                },
            other => r matches Err(err) && resolved_of(Err(err)) == Some(other),
        },
{
    let items = match context.resolve_value(&op.items) {
        Ok(v) => v,
        Err(e) => { return Err(e); },
    };
    let f = format_delimited(op, &items);
    let ghost g = f;
    match f {
        Ok(text) => {
            let outputs = vec![(owned("text"), JsonValue::String(text))];
            Ok(NodeExecution { outcome: NodeOutcome::values(outputs), events: Vec::new(), branch: None, termination: None })
        },
        Err(e) => Err(e),
    }
}

/// A finished command publishes `exit_code`, `stderr` and `stdout` (in
/// key order) and announces its exit code.
pub fn command_execution(out: CommandOutputs) -> (e: NodeExecution)
    ensures
        e.outcome.outputs@.len() == 3,
        e.outcome.outputs@[0].0@ == "exit_code"@,
        e.outcome.outputs@[0].1 matches JsonValue::Number(n) && n@ == signed_decimal(out.exit_code as int),
        e.outcome.outputs@[1].0@ == "stderr"@,
        e.outcome.outputs@[1].1 matches JsonValue::String(t) && t@ == out.stderr@,
        e.outcome.outputs@[2].0@ == "stdout"@,
        e.outcome.outputs@[2].1 matches JsonValue::String(t) && t@ == out.stdout@,
        e.events@.len() == 1,
        e.events@[0].kind matches NodeEventKind::CommandExited { exit_code } && exit_code == out.exit_code,
        e.events@[0].message matches Some(m) && m@ == "命令执行完成，退出代码 "@ + signed_decimal(out.exit_code as int),
        e.branch is None && e.termination is None,
{
    let code = out.exit_code;
    let message = joined("命令执行完成，退出代码 ", signed_decimal_text(code).as_str());
    let outputs = vec![
        (owned("exit_code"), JsonValue::Number(signed_decimal_text(code))),
        (owned("stderr"), JsonValue::String(out.stderr)),
        (owned("stdout"), JsonValue::String(out.stdout)),
    ];
    NodeExecution {
        outcome: NodeOutcome::values(outputs),
        events: vec![NodeEvent { kind: NodeEventKind::CommandExited { exit_code: code }, message: Some(message) }],
        branch: None,
        termination: None,
    }
}

/// The first output, in order, whose expression does not resolve on the
/// data plane `(inputs, vars, nodes)`.
pub open spec fn first_unresolved_output(o: Seq<(String, ValueExpr)>, inputs: Map<Seq<char>, crate::json::JsonView>,
    vars: Map<Seq<char>, crate::json::JsonView>, nodes: Map<Seq<char>, crate::json::JsonView>, i: int) -> bool {
    0 <= i < o.len() && !(resolve_spec(o[i].1, inputs, vars, nodes) is Value)
        && forall|j: int| 0 <= j < i ==> (#[trigger] resolve_spec(o[j].1, inputs, vars, nodes)) is Value
}

/// A component output proxy resolves every output expression in order and
/// publishes them under their names; the first expression that does not
/// resolve fails the node with its resolution error.
pub fn execute_component_output(outputs: &Vec<(String, ValueExpr)>, context: &RunContext) -> (r: Result<NodeExecution, RuntimeError>)
    ensures
        match r {
            Ok(e) => e.events@.len() == 0 && e.branch is None && e.termination is None
                && e.outcome.resources@.len() == 0
                && e.outcome.outputs@.len() == outputs@.len()
                && forall|j: int| 0 <= j < outputs@.len() ==> (#[trigger] e.outcome.outputs@[j]).0@ == outputs@[j].0@
                    && Resolved::Value(jview(e.outcome.outputs@[j].1))
                        == resolve_spec(outputs@[j].1, context.inputs(), context.vars(), context.nodes()),
            Err(err) => exists|i: int| first_unresolved_output(outputs@, context.inputs(), context.vars(), context.nodes(), i)
                && resolution_error(resolve_spec(outputs@[i].1, context.inputs(), context.vars(), context.nodes()), err),
        },
{
    let mut values: Vec<(String, JsonValue)> = Vec::new();
    let mut i: usize = 0;
    while i < outputs.len()
        invariant
            i <= outputs@.len(),
            values@.len() == i,
            forall|j: int| 0 <= j < i ==> (#[trigger] values@[j]).0@ == outputs@[j].0@
                && Resolved::Value(jview(values@[j].1)) == resolve_spec(outputs@[j].1, context.inputs(), context.vars(), context.nodes()),
        decreases outputs@.len() - i,
    {
        match context.resolve_value(&outputs[i].1) {
            Ok(v) => { values.push((outputs[i].0.clone(), v)); },
            Err(e) => {
                proof {
                    assert forall|j: int| 0 <= j < i implies
                        (#[trigger] resolve_spec(outputs@[j].1, context.inputs(), context.vars(), context.nodes())) is Value by {
                        assert(values@[j].0@ == outputs@[j].0@);
                    }
                    assert(first_unresolved_output(outputs@, context.inputs(), context.vars(), context.nodes(), i as int));
                }
                return Err(e);
            },
        }
        i += 1;
    }
    let outcome = NodeOutcome::values(values);
    Ok(NodeExecution { outcome, events: Vec::new(), branch: None, termination: None })
}

} // verus!
