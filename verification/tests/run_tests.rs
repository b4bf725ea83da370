use argusflow_runtime::errors::RuntimeError;
use argusflow_runtime::json::{get_entry, json_type_name, scalar_text, JsonValue};
use argusflow_runtime::providers::{
    ApplicationError, AutomationError, BackendKind, BrowserError, ObservationResult, ObservationUnknownReason,
    UnavailableActionDispatcher, UnavailableApplicationSessionProvider, UnavailableBrowserSessionProvider,
    UnavailableObservationDispatcher,
};
use argusflow_runtime::run::{panic_message, validate_run_inputs, WorkflowInput, WorkflowInputType};
use argusflow_runtime::text::{compare_text, decimal_text, is_blank, joined, text_equal, TextOrder};

fn text_input(key: &str) -> WorkflowInput {
    WorkflowInput { key: key.to_owned(), value_type: WorkflowInputType::Text }
}

fn message(r: Result<(), RuntimeError>) -> String {
    match r {
        Err(RuntimeError::InvalidRunInputs { message }) => message,
        other => panic!("unexpected {:?}", other),
    }
}

#[test]
fn run_inputs_must_match_the_declaration_exactly() {
    let decls = vec![text_input("order"), text_input("region")];
    let ok = vec![
        ("order".to_owned(), JsonValue::String("A-1".to_owned())),
        ("region".to_owned(), JsonValue::String("east".to_owned())),
    ];
    assert!(validate_run_inputs(&decls, &ok).is_ok());
    let missing = vec![("order".to_owned(), JsonValue::String("A-1".to_owned()))];
    assert_eq!(message(validate_run_inputs(&decls, &missing)), "required workflow input 'region' is missing");
    let mistyped = vec![
        ("order".to_owned(), JsonValue::Number("7".to_owned())),
        ("region".to_owned(), JsonValue::String("east".to_owned())),
    ];
    assert_eq!(message(validate_run_inputs(&decls, &mistyped)), "workflow input 'order' must be text");
    let mut extra = ok;
    extra.push(("debug".to_owned(), JsonValue::Bool(true)));
    assert_eq!(message(validate_run_inputs(&decls, &extra)), "workflow input 'debug' is not declared");
    assert!(validate_run_inputs(&vec![], &vec![]).is_ok());
}

#[test]
fn panic_is_converted_to_an_error_message() {
    assert_eq!(panic_message(None, Some("probe panic")), "probe panic");
}

#[test]
fn panic_messages_prefer_owned_text_and_hide_unknown_payloads() {
    assert_eq!(panic_message(Some("owned".to_owned()), Some("static")), "owned");
    assert_eq!(panic_message(None, None), "节点执行发生了未分类 panic");
}

#[test]
fn scalars_render_without_serialising_containers() {
    assert_eq!(scalar_text(&JsonValue::Null).unwrap(), "");
    assert_eq!(scalar_text(&JsonValue::Bool(true)).unwrap(), "true");
    assert_eq!(scalar_text(&JsonValue::Number("1.5".to_owned())).unwrap(), "1.5");
    assert_eq!(scalar_text(&JsonValue::String("x".to_owned())).unwrap(), "x");
    match scalar_text(&JsonValue::Array(vec![])) {
        Err(RuntimeError::ValueTypeMismatch { expected, actual }) => {
            assert_eq!(expected, "scalar");
            assert_eq!(actual, "array");
        }
        other => panic!("unexpected {:?}", other),
    }
    assert_eq!(json_type_name(&JsonValue::Object(vec![])), "object");
    assert_eq!(json_type_name(&JsonValue::Null), "null");
}

#[test]
fn object_lookup_takes_the_first_entry() {
    let entries = vec![
        ("a".to_owned(), JsonValue::Bool(true)),
        ("a".to_owned(), JsonValue::Bool(false)),
    ];
    assert!(matches!(get_entry(&entries, "a"), Some(JsonValue::Bool(true))));
    assert!(get_entry(&entries, "b").is_none());
}

#[test]
fn unavailable_backends_refuse_explicitly() {
    let app: Result<(), ApplicationError> = UnavailableApplicationSessionProvider.acquire(&());
    assert!(matches!(app, Err(ApplicationError::LaunchFailed { message }) if message == "no application session provider has been configured"));
    assert!(UnavailableApplicationSessionProvider.cleanup(&()).is_ok());
    let browser: Result<(), BrowserError> = UnavailableBrowserSessionProvider.acquire(&());
    assert!(matches!(browser, Err(BrowserError::LaunchFailed { message }) if message == "no browser session provider has been configured"));
    assert!(UnavailableBrowserSessionProvider.cleanup(&()).is_ok());
    let action: Result<(), AutomationError> = UnavailableActionDispatcher.execute(&());
    assert!(matches!(action, Err(AutomationError::BackendUnavailable { backend: BackendKind::WindowsUia, message })
        if message == "no automation backend has been configured"));
    match UnavailableObservationDispatcher.observe(&()) {
        ObservationResult::Unknown { backend, reason, retryable } => {
            assert!(backend.is_none());
            assert_eq!(reason, ObservationUnknownReason::BackendUnavailable);
            assert!(!retryable);
        }
    }
}

#[test]
fn text_helpers() {
    assert_eq!(decimal_text(0), "0");
    assert_eq!(decimal_text(1234567890), "1234567890");
    assert_eq!(decimal_text(u64::MAX), "18446744073709551615");
    assert!(is_blank(""));
    assert!(is_blank(" \u{3000}\n"));
    assert!(!is_blank(" a "));
    assert_eq!(joined("a", "bc"), "abc");
    assert!(text_equal("x", "x"));
    assert!(!text_equal("x", "y"));
    assert_eq!(compare_text("a", "b"), TextOrder::Less);
    assert_eq!(compare_text("b", "a"), TextOrder::Greater);
    assert_eq!(compare_text("ab", "a"), TextOrder::Greater);
    assert_eq!(compare_text("", ""), TextOrder::Equal);
}
