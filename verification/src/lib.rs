//! Verified core of the workflow runtime: run budgets, loop activation,
//! resource access normalisation, component catalogues and expansion
//! bookkeeping, structured control-flow decisions and node validation.

pub mod errors;
pub mod report;
pub mod options;

pub use errors::{Effect, ErrorKind, ExecutionLocation, RunError, RuntimeError};
pub use report::{ValidationIssue, ValidationIssueCode, ValidationReport};
pub use options::TimeSpan;
pub mod loops;
pub use loops::LoopFrame;
pub mod text;
pub mod scheduler;
pub use scheduler::{AccessSet, ResourceAccess, ResourceAccessKey, ResourceAccessMode};
pub mod graph;
pub use graph::{FlowScope, ScopeBoundary, ScopeParent, WorkflowEdge, WorkflowNode};
pub mod path;
pub use path::{verify_loop_boundary, Cursor, PathRunner};
pub mod control;
pub mod component;
pub use component::{
    ComponentDefinition, ComponentExpansionError, ComponentRegistry, ComponentRegistryError,
    ComponentSourceFrame, ComponentSourceMap, MAX_COMPONENT_DEPTH,
};
pub mod command;
pub use command::{CommandError, CommandOperation, CommandRunner, WorkflowPermissions};
pub mod nodes;
pub use nodes::{NodeFlow, NodeValidationContext, PreparedNode};
pub mod json;
pub use json::JsonValue;
pub mod run;
pub use run::{panic_message, validate_run_inputs, WorkflowInput, WorkflowInputType};
pub mod providers;
pub use providers::{
    UnavailableActionDispatcher, UnavailableApplicationSessionProvider, UnavailableBrowserSessionProvider,
    UnavailableObservationDispatcher,
};
pub mod compile;
pub use compile::{check_outline, valid_name, Diagnostic, DiagnosticCode};
pub mod context;
pub use context::{NodeOutcome, RunContext, ValueExpr, ValueSource};
pub mod rewrite;
pub mod expansion;
pub mod task;
pub mod events;
pub mod plan;
pub mod frames;
