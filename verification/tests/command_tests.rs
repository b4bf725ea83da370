use argusflow_runtime::command::{
    ensure_permissions, prepare_program, resolve_environment, resolve_stdin, resolve_texts, resolve_working_directory,
    signed_decimal_text, BoundedCapture, CommandError, CommandExecutor, CommandOperation, CommandProgram, CommandRunner,
    EnvironmentBinding, WorkflowPermissions,
};
use argusflow_runtime::context::{RunContext, ValueExpr, ValueSource};
use argusflow_runtime::errors::RuntimeError;
use argusflow_runtime::json::JsonValue;

fn permissions(process_spawn: bool, powershell: bool, cmd: bool) -> WorkflowPermissions {
    WorkflowPermissions { process_spawn, powershell, cmd }
}

fn denied(r: Result<(), CommandError>) -> String {
    match r {
        Err(CommandError::PermissionDenied { message }) => message,
        other => panic!("unexpected {:?}", other),
    }
}

#[test]
fn permissions_are_checked_spawn_first() {
    assert!(ensure_permissions(CommandRunner::Direct, permissions(true, false, false)).is_ok());
    assert_eq!(denied(ensure_permissions(CommandRunner::Cmd, permissions(false, false, false))), "process_spawn permission is required");
    assert_eq!(denied(ensure_permissions(CommandRunner::PowerShell, permissions(true, false, true))), "powershell permission is required");
    assert_eq!(denied(ensure_permissions(CommandRunner::Cmd, permissions(true, true, false))), "cmd permission is required");
    assert!(ensure_permissions(CommandRunner::Cmd, permissions(true, false, true)).is_ok());
}

fn text(s: &str) -> ValueExpr {
    ValueExpr::Literal { value: JsonValue::String(s.to_owned()) }
}

fn operation(runner: CommandRunner, program: Option<&str>, script: Option<&str>) -> CommandOperation {
    CommandOperation {
        runner,
        program: program.map(text),
        arguments: vec![text("-v")],
        script: script.map(text),
        working_directory: Some(text("C:\\work")),
        environment: vec![EnvironmentBinding { name: "A".to_owned(), value: text("1") }],
        stdin: Some(text("input")),
        timeout_ms: 1000,
        accepted_exit_codes: vec![0],
        max_stdout_bytes: 16,
        max_stderr_bytes: 16,
    }
}

fn context() -> RunContext {
    RunContext::new(1, vec![("n".to_owned(), JsonValue::Number("3".to_owned()))], vec![])
}

fn invalid(r: Result<(CommandProgram, Vec<String>), RuntimeError>) -> String {
    match r {
        Err(RuntimeError::Command(CommandError::InvalidOperation { message })) => message,
        other => panic!("unexpected {:?}", other),
    }
}

#[test]
fn plans_never_assemble_shell_strings() {
    let ctx = context();
    let (program, args) = prepare_program(&operation(CommandRunner::Direct, Some("git"), None), &ctx).unwrap();
    assert!(matches!(&program, CommandProgram::Program(p) if p == "git"));
    assert_eq!(args, vec!["-v".to_owned()]);

    let (program, args) = prepare_program(&operation(CommandRunner::PowerShell, None, Some("Get-Date")), &ctx).unwrap();
    assert!(matches!(&program, CommandProgram::System(p) if p == "System32\\WindowsPowerShell\\v1.0\\powershell.exe"));
    assert_eq!(args, vec!["-NoLogo", "-NoProfile", "-NonInteractive", "-Command", "Get-Date"]);

    let (program, args) = prepare_program(&operation(CommandRunner::Cmd, None, Some("dir")), &ctx).unwrap();
    assert!(matches!(&program, CommandProgram::System(p) if p == "System32\\cmd.exe"));
    assert_eq!(args, vec!["/D", "/S", "/C", "dir"]);

    assert_eq!(invalid(prepare_program(&operation(CommandRunner::Direct, None, None), &ctx)), "Direct runner requires program");
    assert_eq!(invalid(prepare_program(&operation(CommandRunner::Direct, Some("  "), None), &ctx)), "Direct program cannot be empty");
    assert_eq!(invalid(prepare_program(&operation(CommandRunner::Cmd, None, None), &ctx)), "shell runner requires script");
    assert_eq!(invalid(prepare_program(&operation(CommandRunner::PowerShell, None, Some("")), &ctx)), "script cannot be empty");
}

#[test]
fn command_operands_resolve_as_text_in_order() {
    let ctx = context();
    let op = operation(CommandRunner::Direct, Some("git"), None);
    assert_eq!(resolve_working_directory(&op, &ctx).unwrap().as_deref(), Some("C:\\work"));
    assert_eq!(resolve_environment(&op, &ctx).unwrap(), vec![("A".to_owned(), "1".to_owned())]);
    assert_eq!(resolve_stdin(&op, &ctx).unwrap().as_deref(), Some("input"));
    let mut numeric = operation(CommandRunner::Direct, Some("git"), None);
    numeric.arguments = vec![text("a"), ValueExpr::Ref {
        source: ValueSource::WorkflowInput { key: "n".to_owned() },
        pointer: String::new(),
    }];
    match prepare_program(&numeric, &ctx) {
        Err(RuntimeError::ValueTypeMismatch { expected, actual }) => {
            assert_eq!(expected, "string");
            assert_eq!(actual, "number");
        }
        other => panic!("unexpected {:?}", other),
    }
    let texts = resolve_texts(&vec![text("x"), text("y")], &ctx).unwrap();
    assert_eq!(texts, vec!["x".to_owned(), "y".to_owned()]);
}

#[test]
fn captures_keep_the_head_of_the_stream() {
    let mut c = BoundedCapture::new(5);
    c.push_chunk(b"abc");
    assert_eq!(c.retained().as_slice(), b"abc");
    assert!(!c.exceeded());
    c.push_chunk(b"defg");
    assert_eq!(c.retained().as_slice(), b"abcde");
    assert!(c.exceeded());
    c.push_chunk(b"h");
    assert_eq!(c.retained().as_slice(), b"abcde");
    let mut exact = BoundedCapture::new(3);
    exact.push_chunk(b"ab");
    exact.push_chunk(b"c");
    assert!(!exact.exceeded());
    assert_eq!(exact.retained().as_slice(), b"abc");
}

#[test]
fn finished_processes_are_judged_in_order() {
    let exec = CommandExecutor;
    let mut out = BoundedCapture::new(16);
    out.push_chunk(b"hello\n");
    let mut err = BoundedCapture::new(16);
    err.push_chunk(b"warn");
    let r = exec.finish(Some(0), &out, &err, &vec![0, 2]).unwrap();
    assert_eq!((r.exit_code, r.stdout.as_str(), r.stderr.as_str()), (0, "hello\n", "warn"));
    assert!(matches!(exec.finish(Some(1), &out, &err, &vec![0, 2]), Err(CommandError::ExitCodeRejected { exit_code: 1 })));
    assert!(matches!(exec.finish(None, &out, &err, &vec![0]), Err(CommandError::ProcessFailed { message }) if message == "command terminated without an exit code"));

    let mut big = BoundedCapture::new(2);
    big.push_chunk(b"abc");
    assert!(matches!(exec.finish(Some(0), &big, &big, &vec![0]), Err(CommandError::OutputLimitExceeded { stream, limit: 2 }) if stream == "stdout"));
    assert!(matches!(exec.finish(None, &out, &big, &vec![0]), Err(CommandError::OutputLimitExceeded { stream, .. }) if stream == "stderr"));

    let mut lossy = BoundedCapture::new(8);
    lossy.push_chunk(&[0x61, 0xff, 0x62]);
    let r = exec.finish(Some(0), &lossy, &err, &vec![0]).unwrap();
    assert_eq!(r.stdout, "a\u{fffd}b");
}

#[test]
fn command_errors_read_as_sentences() {
    assert_eq!(CommandError::Timeout { timeout_ms: 1500 }.message(), "command timed out after 1500 ms");
    assert_eq!(CommandError::OutputLimitExceeded { stream: "stderr".to_owned(), limit: 1024 }.message(), "command stderr exceeded 1024 bytes");
    assert_eq!(CommandError::ExitCodeRejected { exit_code: -3 }.message(), "command exited with unaccepted code -3");
    assert_eq!(CommandError::PermissionDenied { message: "m".to_owned() }.message(), "command permission was denied: m");
    assert_eq!(CommandError::InvalidOperation { message: "m".to_owned() }.message(), "invalid command operation: m");
    assert_eq!(CommandError::ProcessFailed { message: "m".to_owned() }.message(), "command process failed: m");
    assert_eq!(signed_decimal_text(i32::MIN), "-2147483648");
    assert_eq!(signed_decimal_text(0), "0");
    assert_eq!(signed_decimal_text(42), "42");
}
