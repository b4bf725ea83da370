//! Validation findings reported before a workflow may start.

use vstd::prelude::*;

verus! {

/// Stable classification of a validation finding.
#[derive(Debug, Clone, Copy, PartialEq, Eq, Structural)]
pub enum ValidationIssueCode {
    /// A condition's operands do not fit its operator.
    InvalidCondition,
    /// A loop gate's bounds are out of range.
    InvalidLoop,
    /// A failure end has no error code.
    InvalidFailure,
    /// A log node has no message.
    EmptyLogMessage,
    /// A delay is out of range.
    InvalidDelay,
    /// A variable assignment is empty or repeated.
    InvalidVariableAssignment,
    /// A variable is assigned but not declared.
    UndeclaredVariable,
    /// A browser specification is invalid.
    InvalidBrowserSpec,
    /// Component resolution or expansion failed.
    ComponentExpansionFailed,
    /// A command does not fit its runner or bounds.
    InvalidCommand,
    /// The workflow does not grant the command runner.
    CommandPermissionDenied,
    /// A text formatting operation is invalid.
    InvalidDataFormat,
    /// An application specification is invalid.
    InvalidApplicationSpec,
    /// The workflow does not grant launching applications.
    ApplicationPermissionDenied,
    /// A backend policy does not allow the needed backend.
    InvalidBackendPolicy,
    /// A node definition is inconsistent.
    InvalidNodeDefinition,
    /// A field extraction is invalid.
    InvalidExtract,
    /// A target wait policy is out of range or not applicable.
    InvalidTargetWaitPolicy,
    /// A query does not parse or its bindings differ.
    InvalidAqlQuery,
    /// An observation policy is out of range.
    InvalidObservationPolicy,
}

/// One validation finding.
#[derive(Debug, Clone)]
pub struct ValidationIssue {
    /// Classification.
    pub code: ValidationIssueCode,
    /// Human readable explanation.
    pub message: String,
    /// Node concerned, if any.
    pub node_id: Option<String>,
    /// Edge concerned, if any.
    pub edge_id: Option<String>,
    /// Scope concerned, if any.
    pub scope_id: Option<String>,
}

/// All findings of one validation.
#[derive(Debug, Clone)]
pub struct ValidationReport {
    /// Whether the workflow passed.
    pub valid: bool,
    /// Findings, in the order they were found.
    pub issues: Vec<ValidationIssue>,
}

/// Turns a component catalogue or expansion failure into a failed report
/// with exactly one `ComponentExpansionFailed` finding.
pub fn component_validation_report(message: String, node_id: Option<String>) -> (r: ValidationReport)
    ensures
        !r.valid,
        r.issues@.len() == 1,
        r.issues@[0].code == ValidationIssueCode::ComponentExpansionFailed,
        r.issues@[0].message@ == message@,
        r.issues@[0].node_id == node_id,
        r.issues@[0].edge_id is None,
        r.issues@[0].scope_id is None,
{
    ValidationReport {
        valid: false,
        issues: vec![ValidationIssue {
            code: ValidationIssueCode::ComponentExpansionFailed,
            message,
            node_id,
            edge_id: None,
            scope_id: None,
        }],
    }
}

} // verus!
