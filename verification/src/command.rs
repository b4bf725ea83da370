//! Command nodes: the operation contract, permission checks, the plan handed
//! to the process host, bounded output capture and the final verdict on a
//! finished process.

use vstd::prelude::*;
use vstd::string::*;
use crate::context::{resolve_spec, text_of, Resolved, RunContext, ValueExpr};
use crate::errors::RuntimeError;
use crate::json::JsonView;
use crate::text::{decimal, decimal_text, is_blank, is_blank_text, joined, owned, text_equal};

verus! {

/// How a command is started.
#[derive(Debug, Clone, Copy, PartialEq, Eq, Structural)]
pub enum CommandRunner {
    /// A program with separate arguments, without a shell.
    Direct,
    /// A script run by Windows PowerShell.
    PowerShell,
    /// A script run by `cmd.exe`.
    Cmd,
}

/// System capabilities a workflow grants to its nodes.
#[derive(Debug, Clone, Copy, PartialEq, Eq, Structural)]
pub struct WorkflowPermissions {
    /// Child processes may be started.
    pub process_spawn: bool,
    /// PowerShell scripts may be run.
    pub powershell: bool,
    /// `cmd.exe` scripts may be run.
    pub cmd: bool,
}

/// One environment variable handed to the command.
#[derive(Debug)]
pub struct EnvironmentBinding {
    /// Variable name.
    pub name: String,
    /// Value, resolved as text when the command runs.
    pub value: ValueExpr,
}

/// A command node's operation; every text operand is resolved when the
/// command runs.
#[derive(Debug)]
pub struct CommandOperation {
    /// How the command is started.
    pub runner: CommandRunner,
    /// Program of a Direct command.
    pub program: Option<ValueExpr>,
    /// Arguments of a Direct command.
    pub arguments: Vec<ValueExpr>,
    /// Script of a shell command.
    pub script: Option<ValueExpr>,
    /// Working directory.
    pub working_directory: Option<ValueExpr>,
    /// Environment variables.
    pub environment: Vec<EnvironmentBinding>,
    /// Text written to standard input.
    pub stdin: Option<ValueExpr>,
    /// Whole execution limit in milliseconds.
    pub timeout_ms: u64,
    /// Exit codes that count as success.
    pub accepted_exit_codes: Vec<i32>,
    /// Most bytes of standard output kept.
    pub max_stdout_bytes: usize,
    /// Most bytes of standard error kept.
    pub max_stderr_bytes: usize,
}

/// Stable failures of preparing or running a command.
#[derive(Debug, Clone)]
pub enum CommandError {
    /// The workflow does not grant the chosen capability.
    PermissionDenied {
        /// Missing grant.
        message: String,
    },
    /// The operation does not fit its runner's contract.
    InvalidOperation {
        /// What is wrong.
        message: String,
    },
    /// The process could not be started or observed.
    ProcessFailed {
        /// I/O or system failure summary.
        message: String,
    },
    /// The command ran past its limit.
    Timeout {
        /// Configured limit.
        timeout_ms: u64,
    },
    /// An output stream went past its limit.
    OutputLimitExceeded {
        /// `stdout` or `stderr`.
        stream: String,
        /// Configured byte limit.
        limit: usize,
    },
    /// The process exited with a code the node does not accept.
    ExitCodeRejected {
        /// Actual exit code.
        exit_code: i32,
    },
}

/// Decimal rendering of a signed integer, as `i32::to_string` writes it.
pub open spec fn signed_decimal(i: int) -> Seq<char> {
    if i < 0 { seq!['-'] + decimal((-i) as nat) } else { decimal(i as nat) }
}

/// Renders a signed integer in decimal.
pub fn signed_decimal_text(i: i32) -> (r: String)
    ensures
        r@ == signed_decimal(i as int),
{
    if i < 0 {
        let magnitude: u64 = if i == i32::MIN { 2147483648u64 } else { (-i) as u64 };
        let digits = decimal_text(magnitude);
        proof {
            reveal_strlit("-");
            assert("-"@ =~= seq!['-']);
        }
        joined("-", digits.as_str())
    } else {
        decimal_text(i as u64)
    }
}

/// The sentence a command error reads as.
pub open spec fn command_error_text(e: CommandError) -> Seq<char> {
    match e {
        CommandError::PermissionDenied { message } => "command permission was denied: "@ + message@,
        CommandError::InvalidOperation { message } => "invalid command operation: "@ + message@,
        CommandError::ProcessFailed { message } => "command process failed: "@ + message@,
        CommandError::Timeout { timeout_ms } => "command timed out after "@ + decimal(timeout_ms as nat) + " ms"@,
        CommandError::OutputLimitExceeded { stream, limit } =>
            "command "@ + stream@ + " exceeded "@ + decimal(limit as nat) + " bytes"@,
        CommandError::ExitCodeRejected { exit_code } =>
            "command exited with unaccepted code "@ + signed_decimal(exit_code as int),
    }
}

impl CommandError {
    /// The error as a sentence.
    pub fn message(&self) -> (r: String)
        ensures
            r@ == command_error_text(*self),
    {
        match self {
            CommandError::PermissionDenied { message } => joined("command permission was denied: ", message.as_str()),
            CommandError::InvalidOperation { message } => joined("invalid command operation: ", message.as_str()),
            CommandError::ProcessFailed { message } => joined("command process failed: ", message.as_str()),
            CommandError::Timeout { timeout_ms } => {
                let head = joined("command timed out after ", decimal_text(*timeout_ms).as_str());
                joined(head.as_str(), " ms")
            },
            CommandError::OutputLimitExceeded { stream, limit } => {
                let a = joined("command ", stream.as_str());
                let b = joined(a.as_str(), " exceeded ");
                let c = joined(b.as_str(), decimal_text(*limit as u64).as_str());
                joined(c.as_str(), " bytes")
            },
            CommandError::ExitCodeRejected { exit_code } =>
                joined("command exited with unaccepted code ", signed_decimal_text(*exit_code).as_str()),
        }
    }
}

/// The workflow grants what `runner` needs: process spawning, and the shell
/// of a PowerShell or Cmd runner.
pub open spec fn allows_command(runner: CommandRunner, permissions: WorkflowPermissions) -> bool {
    &&& permissions.process_spawn
    &&& (runner == CommandRunner::PowerShell ==> permissions.powershell)
    &&& (runner == CommandRunner::Cmd ==> permissions.cmd)
}

/// `r` refuses the command for want of the grant described by `text`.
pub open spec fn denied_with(r: Result<(), CommandError>, text: Seq<char>) -> bool {
    match r {
        Err(CommandError::PermissionDenied { message }) => message@ == text,
        _ => false,
    }
}

/// Checks that the permissions cover the runner; process spawning is
/// checked first, then the shell.
pub fn ensure_permissions(runner: CommandRunner, permissions: WorkflowPermissions) -> (r: Result<(), CommandError>)
    ensures
        r is Ok <==> allows_command(runner, permissions),
        !permissions.process_spawn ==> denied_with(r, "process_spawn permission is required"@),
        permissions.process_spawn && runner == CommandRunner::PowerShell && !permissions.powershell
            ==> denied_with(r, "powershell permission is required"@),
        permissions.process_spawn && runner == CommandRunner::Cmd && !permissions.cmd
            ==> denied_with(r, "cmd permission is required"@),
{
    if !permissions.process_spawn {
        return Err(CommandError::PermissionDenied { message: owned("process_spawn permission is required") });
    }
    if runner == CommandRunner::PowerShell && !permissions.powershell {
        return Err(CommandError::PermissionDenied { message: owned("powershell permission is required") });
    }
    if runner == CommandRunner::Cmd && !permissions.cmd {
        return Err(CommandError::PermissionDenied { message: owned("cmd permission is required") });
    }
    Ok(())
}

/// Characters of `bytes` read as UTF-8, each invalid sequence replaced by
/// U+FFFD, as `String::from_utf8_lossy` computes them.
pub uninterp spec fn lossy_text(bytes: Seq<u8>) -> Seq<char>;

/// Calls `String::from_utf8_lossy`. The result is named by `lossy_text`;
/// std documents that valid UTF-8 is kept as it is, so bytes that are all
/// ASCII come back as the same characters.
#[verifier::external_body]
fn utf8_lossy(bytes: &Vec<u8>) -> (r: String)
    ensures
        r@ == lossy_text(bytes@),
        (forall|i: int| 0 <= i < bytes@.len() ==> bytes@[i] < 128)
            ==> r@ == bytes@.map_values(|b: u8| b as char),
{
    String::from_utf8_lossy(bytes.as_slice()).into_owned()
}

/// The program a plan starts.
#[derive(Debug, Clone)]
pub enum CommandProgram {
    /// A program found by its own name or path.
    Program(String),
    /// A system tool below the host's `SystemRoot`, never searched on `PATH`.
    System(String),
}

/// Everything the process host needs to start a command; no shell string
/// is ever assembled.
#[derive(Debug, Clone)]
pub struct CommandPlan {
    /// Program to start.
    pub program: CommandProgram,
    /// Arguments, one by one.
    pub arguments: Vec<String>,
    /// Working directory, checked by the host before the start.
    pub working_directory: Option<String>,
    /// Environment variables as (name, value).
    pub environment: Vec<(String, String)>,
}

/// Fixed PowerShell switches in front of the script.
pub open spec fn powershell_arguments(script: Seq<char>) -> Seq<Seq<char>> {
    seq!["-NoLogo"@, "-NoProfile"@, "-NonInteractive"@, "-Command"@, script]
}

/// Fixed `cmd.exe` switches in front of the script.
pub open spec fn cmd_arguments(script: Seq<char>) -> Seq<Seq<char>> {
    seq!["/D"@, "/S"@, "/C"@, script]
}

/// Texts of a list of owned strings.
pub open spec fn texts(s: Seq<String>) -> Seq<Seq<char>> {
    s.map_values(|t: String| t@)
}

/// The resolved value is a string.
pub open spec fn text_ok(r: Resolved) -> bool {
    r matches Resolved::Value(JsonView::String(_))
}

/// The text of a resolved string.
pub open spec fn text_value(r: Resolved) -> Seq<char> {
    match r {
        Resolved::Value(JsonView::String(t)) => t,
        _ => Seq::empty(),
    }
}

/// How an operand resolves on the run's data plane.
pub open spec fn operand(e: ValueExpr, ctx: RunContext) -> Resolved {
    resolve_spec(e, ctx.inputs(), ctx.vars(), ctx.nodes())
}

/// Operands resolved in order: all texts, or the failure of the first
/// operand that is not a text.
pub open spec fn texts_resolved(exprs: Seq<ValueExpr>, ctx: RunContext, r: Result<Vec<String>, RuntimeError>) -> bool {
    match r {
        Ok(v) => v@.len() == exprs.len() && forall|i: int| 0 <= i < exprs.len()
            ==> text_ok(#[trigger] operand(exprs[i], ctx)) && v@[i]@ == text_value(operand(exprs[i], ctx)),
        Err(e) => exists|i: int| 0 <= i < exprs.len() && !text_ok(#[trigger] operand(exprs[i], ctx))
            && (forall|j: int| 0 <= j < i ==> text_ok(#[trigger] operand(exprs[j], ctx)))
            && text_of(operand(exprs[i], ctx), Err(e)),
    }
}

/// Resolves text operands in order, stopping at the first failure.
pub fn resolve_texts(exprs: &Vec<ValueExpr>, context: &RunContext) -> (r: Result<Vec<String>, RuntimeError>)
    ensures
        texts_resolved(exprs@, *context, r),
{
    let mut out: Vec<String> = Vec::new();
    let mut i: usize = 0;
    while i < exprs.len()
        invariant
            i <= exprs@.len(),
            out@.len() == i,
            forall|j: int| 0 <= j < i ==> text_ok(#[trigger] operand(exprs@[j], *context))
                && out@[j]@ == text_value(operand(exprs@[j], *context)),
        decreases exprs@.len() - i,
    {
        match context.resolve_text(&exprs[i]) {
            Ok(t) => { out.push(t); },
            Err(e) => {
                let r: Result<Vec<String>, RuntimeError> = Err(e);
                assert(!text_ok(operand(exprs@[i as int], *context)));
                assert(texts_resolved(exprs@, *context, r));
                return r;
            },
        }
        i += 1;
    }
    Ok(out)
}

/// Resolves one optional text operand.
fn resolve_optional_text(e: &Option<ValueExpr>, context: &RunContext) -> (r: Result<Option<String>, RuntimeError>)
    ensures
        match *e {
            None => r matches Ok(None),
            Some(x) => if text_ok(operand(x, *context)) {
                r matches Ok(Some(t)) && t@ == text_value(operand(x, *context))
            } else {
                r matches Err(err) && text_of(operand(x, *context), Err(err))
            },
        },
{
    match e {
        None => Ok(None),
        Some(x) => match context.resolve_text(x) {
            Ok(t) => Ok(Some(t)),
            Err(err) => Err(err),
        },
    }
}

/// `r` is the command failure `InvalidOperation` with exactly `text`.
pub open spec fn invalid_command<T>(r: Result<T, RuntimeError>, text: Seq<char>) -> bool {
    match r {
        Err(RuntimeError::Command(CommandError::InvalidOperation { message })) => message@ == text,
        _ => false,
    }
}

/// Relative path of the system shell a runner uses, below `SystemRoot`.
pub open spec fn system_shell(runner: CommandRunner) -> Seq<char> {
    if runner == CommandRunner::PowerShell { "System32\\WindowsPowerShell\\v1.0\\powershell.exe"@ } else { "System32\\cmd.exe"@ }
}

/// Prepares the program and its arguments: a Direct command needs a
/// program that resolves to non-blank text and its arguments resolve in
/// order; a shell command needs a script that resolves to non-blank text
/// and runs through the fixed system shell with fixed switches. No shell
/// string is ever assembled.
pub fn prepare_program(op: &CommandOperation, context: &RunContext) -> (r: Result<(CommandProgram, Vec<String>), RuntimeError>)
    ensures
        op.runner == CommandRunner::Direct ==> match op.program {
            None => invalid_command(r, "Direct runner requires program"@),
            Some(p) => if !text_ok(operand(p, *context)) {
                r matches Err(e) && text_of(operand(p, *context), Err(e))
            } else if is_blank_text(text_value(operand(p, *context))) {
                invalid_command(r, "Direct program cannot be empty"@)
            } else {
                exists|args: Result<Vec<String>, RuntimeError>| texts_resolved(op.arguments@, *context, args) && match args {
                    Ok(a) => r matches Ok((prog, b)) && (prog matches CommandProgram::Program(q) && q@ == text_value(operand(p, *context)))
                        && texts(b@) == texts(a@),
                    Err(e) => r matches Err(e2) && e2 == e,
                }
            },
        },
        op.runner != CommandRunner::Direct ==> match op.script {
            None => invalid_command(r, "shell runner requires script"@),
            Some(sc) => if !text_ok(operand(sc, *context)) {
                r matches Err(e) && text_of(operand(sc, *context), Err(e))
            } else if is_blank_text(text_value(operand(sc, *context))) {
                invalid_command(r, "script cannot be empty"@)
            } else {
                r matches Ok((prog, b)) && (prog matches CommandProgram::System(q) && q@ == system_shell(op.runner))
                    && texts(b@) == (if op.runner == CommandRunner::PowerShell {
                        powershell_arguments(text_value(operand(sc, *context)))
                    } else {
                        cmd_arguments(text_value(operand(sc, *context)))
                    })
            },
        },
{
    proof {
        reveal_strlit("System32\\WindowsPowerShell\\v1.0\\powershell.exe");
        reveal_strlit("System32\\cmd.exe");
    }
    match op.runner {
        CommandRunner::Direct => {
            let program = match &op.program {
                None => {
                    return Err(RuntimeError::Command(CommandError::InvalidOperation { message: owned("Direct runner requires program") }));
                },
                Some(p) => p,
            };
            let program = match context.resolve_text(program) {
                Ok(t) => t,
                Err(e) => { return Err(e); },
            };
            if is_blank(program.as_str()) {
                return Err(RuntimeError::Command(CommandError::InvalidOperation { message: owned("Direct program cannot be empty") }));
            }
            let args = resolve_texts(&op.arguments, context);
            let ghost g = args;
            match args {
                Ok(a) => Ok((CommandProgram::Program(program), a)),
                Err(e) => Err(e),
            }
        },
        _ => {
            let script = match &op.script {
                None => {
                    return Err(RuntimeError::Command(CommandError::InvalidOperation { message: owned("shell runner requires script") }));
                },
                Some(sc) => sc,
            };
            let script = match context.resolve_text(script) {
                Ok(t) => t,
                Err(e) => { return Err(e); },
            };
            if is_blank(script.as_str()) {
                return Err(RuntimeError::Command(CommandError::InvalidOperation { message: owned("script cannot be empty") }));
            }
            if op.runner == CommandRunner::PowerShell {
                let args = vec![owned("-NoLogo"), owned("-NoProfile"), owned("-NonInteractive"), owned("-Command"), script];
                assert(texts(args@) =~= powershell_arguments(args@[4]@));
                Ok((CommandProgram::System(owned("System32\\WindowsPowerShell\\v1.0\\powershell.exe")), args))
            } else {
                let args = vec![owned("/D"), owned("/S"), owned("/C"), script];
                assert(texts(args@) =~= cmd_arguments(args@[3]@));
                Ok((CommandProgram::System(owned("System32\\cmd.exe")), args))
            }
        },
    }
}

/// Resolves the working directory, if any; the host checks that it exists.
pub fn resolve_working_directory(op: &CommandOperation, context: &RunContext) -> (r: Result<Option<String>, RuntimeError>)
    ensures
        match op.working_directory {
            None => r matches Ok(None),
            Some(x) => if text_ok(operand(x, *context)) {
                r matches Ok(Some(t)) && t@ == text_value(operand(x, *context))
            } else {
                r matches Err(err) && text_of(operand(x, *context), Err(err))
            },
        },
{
    resolve_optional_text(&op.working_directory, context)
}

/// Resolves the environment bindings in order, as (name, value).
pub fn resolve_environment(op: &CommandOperation, context: &RunContext) -> (r: Result<Vec<(String, String)>, RuntimeError>)
    ensures
        match r {
            Ok(v) => v@.len() == op.environment@.len() && forall|i: int| 0 <= i < v@.len()
                ==> (#[trigger] v@[i]).0@ == op.environment@[i].name@ && text_ok(operand(op.environment@[i].value, *context))
                    && v@[i].1@ == text_value(operand(op.environment@[i].value, *context)),
            Err(e) => exists|i: int| 0 <= i < op.environment@.len() && !text_ok(#[trigger] operand(op.environment@[i].value, *context))
                && (forall|j: int| 0 <= j < i ==> text_ok(#[trigger] operand(op.environment@[j].value, *context)))
                && text_of(operand(op.environment@[i].value, *context), Err(e)),
        },
{
    let mut out: Vec<(String, String)> = Vec::new();
    let mut i: usize = 0;
    while i < op.environment.len()
        invariant
            i <= op.environment@.len(),
            out@.len() == i,
            forall|j: int| 0 <= j < i ==> (#[trigger] out@[j]).0@ == op.environment@[j].name@
                && text_ok(operand(op.environment@[j].value, *context))
                && out@[j].1@ == text_value(operand(op.environment@[j].value, *context)),
        decreases op.environment@.len() - i,
    {
        let b = &op.environment[i];
        match context.resolve_text(&b.value) {
            Ok(t) => { out.push((b.name.clone(), t)); },
            Err(e) => {
                proof {
                    assert forall|j: int| 0 <= j < i implies text_ok(#[trigger] operand(op.environment@[j].value, *context)) by {
                        assert(out@[j].0@ == op.environment@[j].name@);
                    }
                    assert(!text_ok(operand(op.environment@[i as int].value, *context)));
                }
                return Err(e);
            },
        }
        i += 1;
    }
    Ok(out)
}

/// Resolves the text written to standard input, if any.
pub fn resolve_stdin(op: &CommandOperation, context: &RunContext) -> (r: Result<Option<String>, RuntimeError>)
    ensures
        match op.stdin {
            None => r matches Ok(None),
            Some(x) => if text_ok(operand(x, *context)) {
                r matches Ok(Some(t)) && t@ == text_value(operand(x, *context))
            } else {
                r matches Err(err) && text_of(operand(x, *context), Err(err))
            },
        },
{
    resolve_optional_text(&op.stdin, context)
}

/// The first bytes of a stream that a capture of `limit` bytes keeps, and
/// whether the stream went past the limit.
pub open spec fn captured(stream: Seq<u8>, limit: usize) -> (Seq<u8>, bool) {
    if stream.len() <= limit { (stream, false) } else { (stream.take(limit as int), true) }
}

/// Output of one stream, drained to its end while keeping at most `limit`
/// bytes, so that neither the pipe blocks nor memory grows without bound.
pub struct BoundedCapture {
    /// Bytes kept, in stream order.
    retained: Vec<u8>,
    /// Whether the stream produced more than `limit` bytes.
    exceeded: bool,
    /// Most bytes kept.
    limit: usize,
    /// Everything the stream produced so far.
    seen: Ghost<Seq<u8>>,
}

impl BoundedCapture {
    /// What the stream produced so far.
    pub closed spec fn stream(&self) -> Seq<u8> {
        self.seen@
    }

    /// Byte limit of the capture.
    pub closed spec fn capacity(&self) -> usize {
        self.limit
    }

    /// Bytes kept and whether the limit was passed.
    pub closed spec fn kept(&self) -> (Seq<u8>, bool) {
        (self.retained@, self.exceeded)
    }

    /// The capture keeps exactly the head of what the stream produced.
    pub closed spec fn wf(&self) -> bool {
        (self.retained@, self.exceeded) == captured(self.seen@, self.limit)
    }

    /// A well-formed capture keeps exactly the head of its stream.
    pub proof fn lemma_kept_is_captured(&self)
        requires
            self.wf(),
        ensures
            self.kept() == captured(self.stream(), self.capacity()),
    {
    }

    /// An empty capture keeping at most `limit` bytes.
    pub fn new(limit: usize) -> (c: BoundedCapture)
        ensures
            c.wf(),
            c.kept() == captured(c.stream(), c.capacity()),
            c.stream() == Seq::<u8>::empty(),
            c.capacity() == limit,
    {
        BoundedCapture { retained: Vec::new(), exceeded: false, limit, seen: Ghost(Seq::empty()) }
    }

    /// Takes the next chunk read from the stream.
    pub fn push_chunk(&mut self, chunk: &[u8])
        requires
            old(self).wf(),
        ensures
            final(self).wf(),
            final(self).kept() == captured(final(self).stream(), final(self).capacity()),
            final(self).stream() == old(self).stream() + chunk@,
            final(self).capacity() == old(self).capacity(),
    {
        let ghost before = self.seen@;
        let remaining = self.limit - self.retained.len();
        let count = chunk.len();
        let take = if count < remaining { count } else { remaining };
        let mut i: usize = 0;
        while i < take
            invariant
                take <= chunk@.len(),
                i <= take,
                take <= remaining,
                remaining == self.limit - (self.retained@.len() - i),
                self.retained@.len() >= i,
                self.retained@ == (captured(before, self.limit).0 + chunk@.take(i as int)),
                self.seen@ == before,
                self.limit == old(self).limit,
                self.exceeded == captured(before, self.limit).1,
            decreases take - i,
        {
            self.retained.push(chunk[i]);
            assert(chunk@.take(i + 1) =~= chunk@.take(i as int).push(chunk@[i as int]));
            i += 1;
        }
        if count > remaining {
            self.exceeded = true;
        }
        self.seen = Ghost(before + chunk@);
        proof {
            let all = before + chunk@;
            if before.len() <= self.limit {
                if all.len() <= self.limit {
                    assert(chunk@.take(take as int) =~= chunk@);
                    assert(self.retained@ =~= all);
                } else {
                    assert(self.retained@ =~= all.take(self.limit as int));
                }
            } else {
                assert(take == 0);
                assert(self.retained@ =~= all.take(self.limit as int));
            }
        }
    }

    /// The bytes kept so far.
    pub fn retained(&self) -> (r: &Vec<u8>)
        ensures
            r@ == self.kept().0,
    {
        &self.retained
    }

    /// Whether the stream went past the limit.
    pub fn exceeded(&self) -> (b: bool)
        ensures
            b == self.kept().1,
    {
        self.exceeded
    }
}

/// Law: however a stream is cut into chunks, a capture keeps its first
/// `limit` bytes, never more, and reports exactly whether there were more.
pub proof fn lemma_capture_is_bounded_prefix(stream: Seq<u8>, limit: usize)
    ensures
        captured(stream, limit).0.len() <= limit,
        captured(stream, limit).0 == stream.take(captured(stream, limit).0.len() as int),
        captured(stream, limit).1 <==> stream.len() > limit,
        !captured(stream, limit).1 ==> captured(stream, limit).0 == stream,
{
    if stream.len() <= limit {
        assert(stream.take(stream.len() as int) =~= stream);
    }
}

/// What a finished command publishes.
#[derive(Debug, Clone)]
pub struct CommandOutputs {
    /// Exit code.
    pub exit_code: i32,
    /// Standard output, read as UTF-8.
    pub stdout: String,
    /// Standard error, read as UTF-8.
    pub stderr: String,
}

/// Whether `code` is listed.
pub open spec fn accepts(codes: Seq<i32>, code: i32) -> bool {
    exists|i: int| 0 <= i < codes.len() && codes[i] == code
}

/// `r` failed with an output limit on `stream`.
pub open spec fn over_limit<T>(r: Result<T, CommandError>, stream: Seq<char>, limit: usize) -> bool {
    match r {
        Err(CommandError::OutputLimitExceeded { stream: s, limit: l }) => s@ == stream && l == limit,
        _ => false,
    }
}

impl CommandExecutor {
    /// Verdict on a finished process: an output past its limit fails
    /// first (standard output before standard error), then a process
    /// without exit code, then an exit code that is not accepted; otherwise
    /// the exit code and both outputs are published.
    pub fn finish(&self, exit_code: Option<i32>, stdout: &BoundedCapture, stderr: &BoundedCapture, accepted_exit_codes: &Vec<i32>)
        -> (r: Result<CommandOutputs, CommandError>)
        requires
            stdout.wf(),
            stderr.wf(),
        ensures
            stdout.stream().len() > stdout.capacity() ==> over_limit(r, "stdout"@, stdout.capacity()),
            stdout.stream().len() <= stdout.capacity() && stderr.stream().len() > stderr.capacity()
                ==> over_limit(r, "stderr"@, stderr.capacity()),
            stdout.stream().len() <= stdout.capacity() && stderr.stream().len() <= stderr.capacity() ==> match exit_code {
                None => r matches Err(CommandError::ProcessFailed { message })
                    && message@ == "command terminated without an exit code"@,
                Some(code) => if accepts(accepted_exit_codes@, code) {
                    r matches Ok(out) && out.exit_code == code
                        && out.stdout@ == lossy_text(stdout.stream()) && out.stderr@ == lossy_text(stderr.stream())
                } else {
                    r matches Err(CommandError::ExitCodeRejected { exit_code: c }) && c == code
                },
            },
    {
        if stdout.exceeded() {
            return Err(CommandError::OutputLimitExceeded { stream: owned("stdout"), limit: stdout.limit });
        }
        if stderr.exceeded() {
            return Err(CommandError::OutputLimitExceeded { stream: owned("stderr"), limit: stderr.limit });
        }
        let code = match exit_code {
            None => { return Err(CommandError::ProcessFailed { message: owned("command terminated without an exit code") }); },
            Some(c) => c,
        };
        let mut i: usize = 0;
        let mut found = false;
        while i < accepted_exit_codes.len()
            invariant
                i <= accepted_exit_codes@.len(),
                found == exists|j: int| 0 <= j < i && accepted_exit_codes@[j] == code,
            decreases accepted_exit_codes@.len() - i,
        {
            if accepted_exit_codes[i] == code {
                found = true;
            }
            i += 1;
        }
        if !found {
            return Err(CommandError::ExitCodeRejected { exit_code: code });
        }
        proof {
            assert(stdout.retained@ == stdout.seen@);
            assert(stderr.retained@ == stderr.seen@);
        }
        Ok(CommandOutputs {
            exit_code: code,
            stdout: utf8_lossy(stdout.retained()),
            stderr: utf8_lossy(stderr.retained()),
        })
    }
}

/// Starts and watches commands; the process host drives the run and asks
/// it for every decision.
#[derive(Debug, Default)]
pub struct CommandExecutor;

} // verus!
