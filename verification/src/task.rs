//! What happens after one attempt of a task: the output contract check, the
//! retry gate, the pause before the next attempt and the failure handed on.

use vstd::prelude::*;
use vstd::string::*;
use crate::control::{retry_allowed, retry_delay, retry_delay_ms, should_retry};
use crate::errors::{Effect, ErrorKind, RunError};
use crate::options::{fits_declaration, root_matches, ValueFacts};

verus! {

/// A task's declared retry policy.
#[derive(Debug, Clone)]
pub struct RetryPolicy {
    /// Largest number of attempts, the first included.
    pub max_attempts: u32,
    /// Pause before the second attempt, in milliseconds.
    pub initial_delay_ms: u64,
    /// Longest pause between attempts, in milliseconds.
    pub max_delay_ms: u64,
    /// Error kinds that are retried.
    pub errors: Vec<ErrorKind>,
}

/// The declared ports of a task.
#[derive(Debug, Clone)]
pub struct TaskPorts {
    /// Value output ports, in key order.
    pub outputs: Vec<String>,
    /// Resource output ports with their resource types, in key order.
    pub resource_outputs: Vec<(String, String)>,
    /// The task declares that a failed attempt without side effect may be repeated.
    pub safe_to_retry: bool,
}

/// What a successful attempt handed back, as the value model reports it.
#[derive(Debug, Clone)]
pub struct TaskReturn {
    /// Output values, in key order.
    pub values: Vec<ValueFacts>,
    /// Adopted resources by port with their resource types, in key order.
    pub resources: Vec<(String, String)>,
}

/// The next step of a task after one attempt.
#[derive(Debug)]
pub enum AttemptDecision {
    /// Hand the outputs on; when `confirm_effect` holds, the side effect of
    /// the attempt must first be recorded on the enclosing operation.
    Deliver { confirm_effect: bool },
    /// Pause `delay_ms`, announce attempt `next_attempt` and run it.
    Retry { delay_ms: u64, next_attempt: u32 },
    /// The task fails with this error.
    Fail(RunError),
}

/// Number of attempts a task may make.
pub open spec fn attempts_of(retry: Option<RetryPolicy>) -> int {
    match retry {
        Some(p) => p.max_attempts as int,
        None => 1,
    }
}

/// Effect recorded on a failure: an attempt whose operation reported an
/// unconfirmed effect marks the failure so, whatever the task said.
pub open spec fn failure_effect(operation_effect: Effect, error: RunError) -> Effect {
    if operation_effect == Effect::Unconfirmed { Effect::Unconfirmed } else { error.effect }
}

/// `e` is `error` with its effect replaced by `effect`.
pub open spec fn same_error_with(e: RunError, error: RunError, effect: Effect) -> bool {
    &&& e.kind == error.kind
    &&& e.message@ == error.message@
    &&& e.effect == effect
    &&& e.path@ == error.path@
    &&& e.secondary@ == error.secondary@
}

/// The decision the runner takes after attempt `attempt` of a task.
pub open spec fn attempt_decided(ports: TaskPorts, retry: Option<RetryPolicy>, attempt: u32, operation_effect: Effect,
    outcome: Result<TaskReturn, RunError>, catchable: bool, value_bytes: usize, d: AttemptDecision) -> bool {
    match outcome {
        Ok(ret) => if root_matches(ports.outputs@, ret.values@, ports.resource_outputs@, ret.resources@, value_bytes) {
            d == AttemptDecision::Deliver { confirm_effect: operation_effect == Effect::Unconfirmed }
        } else {
            d matches AttemptDecision::Fail(e) && e.kind == ErrorKind::Contract
                && e.message@ == "任务结果违反端口、类型或数据预算契约"@ && e.effect == operation_effect
        },
        Err(error) => {
            let effect = failure_effect(operation_effect, error);
            match retry {
                Some(p) => if retry_allowed(ports.safe_to_retry, attempt, p.max_attempts, effect, catchable,
                    p.errors@.contains(error.kind)) {
                    d == AttemptDecision::Retry {
                        delay_ms: retry_delay_ms(p.initial_delay_ms, attempt, p.max_delay_ms) as u64,
                        next_attempt: (attempt + 1) as u32,
                    }
                } else {
                    d matches AttemptDecision::Fail(e) && same_error_with(e, error, effect)
                },
                None => d matches AttemptDecision::Fail(e) && same_error_with(e, error, effect),
            }
        },
    }
}

/// Decides what follows attempt `attempt` of a task. A returned result is
/// checked against the task's ports, types and the value budget; a failure
/// is retried only as the policy allows, after the doubling pause, and
/// otherwise handed on with the attempt's effect.
pub fn after_attempt(ports: &TaskPorts, retry: &Option<RetryPolicy>, attempt: u32, operation_effect: Effect,
    outcome: Result<TaskReturn, RunError>, catchable: bool, value_bytes: usize) -> (d: AttemptDecision)
    requires
        1 <= attempt <= attempts_of(*retry),
        attempt <= 64,
    ensures
        attempt_decided(*ports, *retry, attempt, operation_effect, outcome, catchable, value_bytes, d),
{
    match outcome {
        Ok(ret) => {
            if fits_declaration(&ports.outputs, &ret.values, &ports.resource_outputs, &ret.resources, value_bytes) {
                AttemptDecision::Deliver { confirm_effect: operation_effect == Effect::Unconfirmed }
            } else {
                let e = RunError::new(ErrorKind::Contract, String::from_str("任务结果违反端口、类型或数据预算契约"));
                AttemptDecision::Fail(e.with_effect(operation_effect))
            }
        },
        Err(error) => {
            let effect = if operation_effect == Effect::Unconfirmed { Effect::Unconfirmed } else { error.effect };
            let error = error.with_effect(effect);
            match retry {
                Some(p) => {
                    if should_retry(ports.safe_to_retry, attempt, p.max_attempts, &error, catchable, &p.errors) {
                        let delay_ms = retry_delay(p.initial_delay_ms, attempt, p.max_delay_ms);
                        AttemptDecision::Retry { delay_ms, next_attempt: attempt + 1 }
                    } else {
                        AttemptDecision::Fail(error)
                    }
                },
                None => AttemptDecision::Fail(error),
            }
        },
    }
}

} // verus!
