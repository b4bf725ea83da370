//! Run diagnostics: the primary error keeps every later failure as secondary.

use vstd::prelude::*;
use vstd::string::*;
use crate::command::{command_error_text, CommandError};
use crate::text::joined;
use crate::providers::{ApplicationError, AutomationError, BrowserError};
use crate::report::ValidationReport;

verus! {

/// Exhaustively matchable classification of a run failure.
#[derive(Debug, Clone, Copy, PartialEq, Eq, Structural)]
pub enum ErrorKind {
    /// A budget was exhausted or a limit is out of range.
    Limit,
    /// An internal or extension contract was violated.
    Contract,
    /// The run was cancelled.
    Cancelled,
    /// The whole-run time budget elapsed.
    RunTimeout,
    /// A local (node) time budget elapsed.
    Timeout,
    /// A quota or resource is busy.
    Busy,
    /// A backend or resource is unavailable.
    Unavailable,
    /// A target was not found.
    NotFound,
    /// A target was ambiguous.
    Ambiguous,
    /// A handle or resource is stale.
    Stale,
    /// A capability call failed.
    Operation,
    /// The workflow author declared a failure.
    User,
    /// An expression failed to evaluate.
    Expression,
}

/// Whether a failure may already have had an external side effect.
#[derive(Debug, Clone, Copy, PartialEq, Eq, Structural)]
pub enum Effect {
    /// No external side effect happened.
    NoSideEffect,
    /// A side effect may have happened; automatic replay is forbidden.
    Unconfirmed,
}

/// Exact position on the run path.
#[derive(Debug, Clone, PartialEq, Eq)]
pub struct ExecutionLocation {
    /// Scope document ID.
    pub scope: String,
    /// Scope activation instance.
    pub instance: u64,
    /// Current node ID; empty when a scope is exited.
    pub node: Option<String>,
    /// One-based node execution number within the run; retries keep it.
    pub execution: Option<u64>,
}

/// Primary error with the later cleanup errors kept beside it.
#[derive(Debug)]
pub struct RunError {
    /// Classification.
    pub kind: ErrorKind,
    /// Safe summary or user-declared error code.
    pub message: String,
    /// Whether the failure may have had an external side effect.
    pub effect: Effect,
    /// Locations from the root to the failing frame.
    pub path: Vec<ExecutionLocation>,
    /// Later failures that must not replace the primary one.
    pub secondary: Vec<RunError>,
}

impl RunError {
    /// Builds an error without side effect and without a path.
    pub fn new(kind: ErrorKind, message: String) -> (e: RunError)
        ensures
            e.kind == kind,
            e.message@ == message@,
            e.effect == Effect::NoSideEffect,
            e.path@.len() == 0,
            e.secondary@.len() == 0,
    {
        RunError { kind, message, effect: Effect::NoSideEffect, path: Vec::new(), secondary: Vec::new() }
    }

    /// Marks an uncertain side effect; automatic replay is then forbidden.
    pub fn with_effect(self, effect: Effect) -> (e: RunError)
        ensures
            e.kind == self.kind,
            e.message@ == self.message@,
            e.effect == effect,
            e.path@ == self.path@,
            e.secondary@ == self.secondary@,
    {
        let mut e = self;
        e.effect = effect;
        e
    }
}

/// Whether `r` failed with an error of `kind`.
pub open spec fn fails_with<T>(r: Result<T, RunError>, kind: ErrorKind) -> bool {
    match r {
        Err(e) => e.kind == kind,
        Ok(_) => false,
    }
}

/// Errors of validation, scheduling and event delivery.
#[derive(Debug)]
pub enum RuntimeError {
    /// The workflow failed structural or parameter validation.
    ValidationFailed {
        /// Every finding, for display or logging.
        report: ValidationReport,
    },
    /// The run inputs differ from the workflow declaration.
    InvalidRunInputs {
        /// Missing, extra or mistyped input.
        message: String,
    },
    /// An execution event could not be delivered.
    EventSink(String),
    /// A structural invariant that validation established failed.
    ExecutionInvariant(String),
    /// A registered node reported a safe failure.
    NodeExecution {
        /// Reason without sensitive payload.
        message: String,
    },
    /// A referenced input, variable or node output is not available yet.
    ValueUnavailable {
        /// The missing source.
        description: String,
    },
    /// A reference holds a malformed JSON Pointer.
    InvalidValuePointer {
        /// The pointer as written.
        pointer: String,
    },
    /// A JSON Pointer matched no value.
    ValuePointerNotFound {
        /// The pointer as written.
        pointer: String,
    },
    /// A parameter needs another JSON type than the value has.
    ValueTypeMismatch {
        /// Required type name.
        expected: String,
        /// Actual type name.
        actual: String,
    },
    /// One field of a Set Variables node failed; nothing was committed.
    VariableAssignmentFailed {
        /// Failing node.
        node_id: String,
        /// Variable that was not committed.
        variable: String,
        /// Underlying failure.
        message: String,
    },
    /// A compiled expression failed in its bounded scope.
    ExpressionEvaluation {
        /// Safe failure summary.
        message: String,
    },
    /// An expression produced a value that is not JSON.
    ExpressionResultNotJson {
        /// Type failure summary.
        message: String,
    },
    /// A node's custom output mapping failed; no output was published.
    OutputMappingFailed {
        /// Failing node.
        node_id: String,
        /// Output that was not published.
        output_name: String,
        /// Underlying failure.
        message: String,
    },
    /// A node used a system capability the workflow does not declare.
    CapabilityDenied {
        /// Stable name of the refused capability.
        capability: String,
    },
    /// A platform application session could not be acquired or cleaned up.
    Application(ApplicationError),
    /// A browser session could not be acquired or cleaned up.
    Browser(BrowserError),
    /// A command could not be prepared or failed.
    Command(CommandError),
    /// An automation backend reported a structured failure.
    Automation(AutomationError),
    /// A Fail node ended the workflow with a declared error.
    WorkflowFailure {
        /// Declared error code.
        code: String,
        /// Resolved message.
        message: String,
    },
}

/// Inner message of a provider or automation failure.
pub open spec fn provider_text(e: RuntimeError) -> Seq<char> {
    match e {
        RuntimeError::Application(ApplicationError::LaunchFailed { message }) => message@,
        RuntimeError::Browser(BrowserError::LaunchFailed { message }) => message@,
        RuntimeError::Automation(AutomationError::BackendUnavailable { message, .. }) => message@,
        _ => Seq::empty(),
    }
}

/// The sentence a runtime error reads as.
pub open spec fn runtime_error_text(e: RuntimeError) -> Seq<char> {
    match e {
        RuntimeError::ValidationFailed { .. } => "workflow validation failed"@,
        RuntimeError::InvalidRunInputs { message } => "invalid workflow run inputs: "@ + message@,
        RuntimeError::EventSink(m) => "workflow event could not be delivered: "@ + m@,
        RuntimeError::ExecutionInvariant(m) => "validated workflow invariant failed: "@ + m@,
        RuntimeError::NodeExecution { message } => "registered node execution failed: "@ + message@,
        RuntimeError::ValueUnavailable { description } => "runtime value is unavailable: "@ + description@,
        RuntimeError::InvalidValuePointer { pointer } => "invalid runtime JSON Pointer: "@ + pointer@,
        RuntimeError::ValuePointerNotFound { pointer } => "runtime JSON Pointer did not match a value: "@ + pointer@,
        RuntimeError::ValueTypeMismatch { expected, actual } =>
            "runtime value type mismatch: expected "@ + expected@ + ", got "@ + actual@,
        RuntimeError::VariableAssignmentFailed { node_id, variable, message } =>
            "variable assignment failed at node '"@ + node_id@ + "', variable '"@ + variable@ + "': "@ + message@,
        RuntimeError::ExpressionEvaluation { message } => "expression evaluation failed: "@ + message@,
        RuntimeError::ExpressionResultNotJson { message } => "expression result is not a JSON value: "@ + message@,
        RuntimeError::OutputMappingFailed { node_id, output_name, message } =>
            "output mapping failed at node '"@ + node_id@ + "', output '"@ + output_name@ + "': "@ + message@,
        RuntimeError::CapabilityDenied { capability } => "workflow capability was denied: "@ + capability@,
        RuntimeError::Command(c) => command_error_text(c),
        RuntimeError::WorkflowFailure { code, message } => code@ + ": "@ + message@,
        other => provider_text(other),
    }
}

impl RuntimeError {
    /// The error as a sentence.
    pub fn message(&self) -> (r: String)
        ensures
            r@ == runtime_error_text(*self),
    {
        match self {
            RuntimeError::ValidationFailed { .. } => String::from_str("workflow validation failed"),
            RuntimeError::InvalidRunInputs { message } => joined("invalid workflow run inputs: ", message.as_str()),
            RuntimeError::EventSink(m) => joined("workflow event could not be delivered: ", m.as_str()),
            RuntimeError::ExecutionInvariant(m) => joined("validated workflow invariant failed: ", m.as_str()),
            RuntimeError::NodeExecution { message } => joined("registered node execution failed: ", message.as_str()),
            RuntimeError::ValueUnavailable { description } => joined("runtime value is unavailable: ", description.as_str()),
            RuntimeError::InvalidValuePointer { pointer } => joined("invalid runtime JSON Pointer: ", pointer.as_str()),
            RuntimeError::ValuePointerNotFound { pointer } => joined("runtime JSON Pointer did not match a value: ", pointer.as_str()),
            RuntimeError::ValueTypeMismatch { expected, actual } => {
                let a = joined("runtime value type mismatch: expected ", expected.as_str());
                let b = joined(a.as_str(), ", got ");
                joined(b.as_str(), actual.as_str())
            },
            RuntimeError::VariableAssignmentFailed { node_id, variable, message } => {
                let a = joined("variable assignment failed at node '", node_id.as_str());
                let b = joined(a.as_str(), "', variable '");
                let c = joined(b.as_str(), variable.as_str());
                let d = joined(c.as_str(), "': ");
                joined(d.as_str(), message.as_str())
            },
            RuntimeError::ExpressionEvaluation { message } => joined("expression evaluation failed: ", message.as_str()),
            RuntimeError::ExpressionResultNotJson { message } => joined("expression result is not a JSON value: ", message.as_str()),
            RuntimeError::OutputMappingFailed { node_id, output_name, message } => {
                let a = joined("output mapping failed at node '", node_id.as_str());
                let b = joined(a.as_str(), "', output '");
                let c = joined(b.as_str(), output_name.as_str());
                let d = joined(c.as_str(), "': ");
                joined(d.as_str(), message.as_str())
            },
            RuntimeError::CapabilityDenied { capability } => joined("workflow capability was denied: ", capability.as_str()),
            RuntimeError::Command(c) => c.message(),
            RuntimeError::WorkflowFailure { code, message } => {
                let a = joined(code.as_str(), ": ");
                joined(a.as_str(), message.as_str())
            },
            RuntimeError::Application(ApplicationError::LaunchFailed { message }) => message.clone(),
            RuntimeError::Browser(BrowserError::LaunchFailed { message }) => message.clone(),
            RuntimeError::Automation(AutomationError::BackendUnavailable { message, .. }) => message.clone(),
        }
    }
}

} // verus!
