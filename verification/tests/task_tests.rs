use argusflow_runtime::errors::{Effect, ErrorKind, RunError};
use argusflow_runtime::options::ValueFacts;
use argusflow_runtime::task::{after_attempt, AttemptDecision, RetryPolicy, TaskPorts, TaskReturn};

fn ports(safe: bool) -> TaskPorts {
    TaskPorts {
        outputs: vec!["text".to_string()],
        resource_outputs: vec![("session".to_string(), "Browser".to_string())],
        safe_to_retry: safe,
    }
}

fn good_return() -> TaskReturn {
    TaskReturn {
        values: vec![ValueFacts { name: "text".to_string(), matches_type: true, size: Some(8) }],
        resources: vec![("session".to_string(), "Browser".to_string())],
    }
}

fn busy() -> RunError {
    RunError::new(ErrorKind::Busy, "忙".to_string())
}

fn policy() -> Option<RetryPolicy> {
    Some(RetryPolicy { max_attempts: 3, initial_delay_ms: 100, max_delay_ms: 150, errors: vec![ErrorKind::Busy] })
}

#[test]
fn conforming_results_are_delivered_and_unconfirmed_effects_recorded() {
    let d = after_attempt(&ports(true), &None, 1, Effect::NoSideEffect, Ok(good_return()), true, 1024);
    assert!(matches!(d, AttemptDecision::Deliver { confirm_effect: false }));
    let d = after_attempt(&ports(true), &None, 1, Effect::Unconfirmed, Ok(good_return()), true, 1024);
    assert!(matches!(d, AttemptDecision::Deliver { confirm_effect: true }));
}

#[test]
fn results_that_break_the_port_contract_fail_with_the_attempt_effect() {
    let mut bad = good_return();
    bad.values[0].size = Some(2048);
    match after_attempt(&ports(true), &None, 1, Effect::Unconfirmed, Ok(bad), true, 1024) {
        AttemptDecision::Fail(e) => {
            assert_eq!(e.kind, ErrorKind::Contract);
            assert_eq!(e.message, "任务结果违反端口、类型或数据预算契约");
            assert_eq!(e.effect, Effect::Unconfirmed);
        }
        _ => panic!("expected a contract failure"),
    }
    let mut other = good_return();
    other.resources.clear();
    assert!(matches!(
        after_attempt(&ports(true), &None, 1, Effect::NoSideEffect, Ok(other), true, 1024),
        AttemptDecision::Fail(_)
    ));
}

#[test]
fn listed_failures_without_effect_are_retried_after_a_doubling_pause() {
    match after_attempt(&ports(true), &policy(), 1, Effect::NoSideEffect, Err(busy()), true, 1024) {
        AttemptDecision::Retry { delay_ms, next_attempt } => {
            assert_eq!(delay_ms, 100);
            assert_eq!(next_attempt, 2);
        }
        _ => panic!("expected a retry"),
    }
    match after_attempt(&ports(true), &policy(), 2, Effect::NoSideEffect, Err(busy()), true, 1024) {
        AttemptDecision::Retry { delay_ms, next_attempt } => {
            assert_eq!(delay_ms, 150);
            assert_eq!(next_attempt, 3);
        }
        _ => panic!("expected a retry"),
    }
    // the last attempt, an unsafe task, an unlisted kind, an uncatchable
    // failure and an unconfirmed effect are all handed on
    assert!(matches!(after_attempt(&ports(true), &policy(), 3, Effect::NoSideEffect, Err(busy()), true, 1024), AttemptDecision::Fail(_)));
    assert!(matches!(after_attempt(&ports(false), &policy(), 1, Effect::NoSideEffect, Err(busy()), true, 1024), AttemptDecision::Fail(_)));
    let missing = RunError::new(ErrorKind::NotFound, "无".to_string());
    assert!(matches!(after_attempt(&ports(true), &policy(), 1, Effect::NoSideEffect, Err(missing), true, 1024), AttemptDecision::Fail(_)));
    assert!(matches!(after_attempt(&ports(true), &policy(), 1, Effect::NoSideEffect, Err(busy()), false, 1024), AttemptDecision::Fail(_)));
    match after_attempt(&ports(true), &policy(), 1, Effect::Unconfirmed, Err(busy()), true, 1024) {
        AttemptDecision::Fail(e) => {
            assert_eq!(e.kind, ErrorKind::Busy);
            assert_eq!(e.message, "忙");
            assert_eq!(e.effect, Effect::Unconfirmed);
        }
        _ => panic!("expected the failure to be handed on"),
    }
}
