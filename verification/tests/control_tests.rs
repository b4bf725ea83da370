use argusflow_runtime::control::{
    check_frame_budget, check_step, find_handler, finish_try, lexical_index, loop_step, merge_failure,
    resume_decision, resume_try_decision, retry_delay, retry_policy_valid, settle_result, should_retry, FrameLink,
    LoopStep, NodeState, Resumption, Signal, StepBudget, TryDecision, TryStage, MAX_CLEANUP_STEPS,
    node_timeout, wait_millis,
};
use argusflow_runtime::TimeSpan;
use argusflow_runtime::errors::{Effect, ErrorKind, RunError};

fn err(kind: ErrorKind, m: &str) -> RunError {
    RunError::new(kind, m.to_owned())
}

#[test]
fn blocks_complete_only_normally() {
    match resume_decision::<u32>(NodeState::Child, Signal::Complete(7)) {
        Resumption::CompleteNode(Some(7)) => {}
        other => panic!("unexpected {:?}", other),
    }
    assert!(matches!(resume_decision::<u32>(NodeState::Child, Signal::Break), Resumption::Leave(Signal::Break)));
    assert!(matches!(resume_decision::<u32>(NodeState::Ready, Signal::Break), Resumption::Fail(e) if e.kind == ErrorKind::Contract));
}

#[test]
fn calls_refuse_loop_jumps_across_their_boundary() {
    assert!(matches!(resume_decision::<u32>(NodeState::Call, Signal::Return(3)), Resumption::CompleteNode(Some(3))));
    assert!(matches!(resume_decision::<u32>(NodeState::Call, Signal::Break), Resumption::Fail(e) if e.kind == ErrorKind::Contract));
    assert!(matches!(resume_decision::<u32>(NodeState::Call, Signal::Continue), Resumption::Fail(e) if e.kind == ErrorKind::Contract));
}

#[test]
fn loops_end_on_break_and_go_on_after_continue() {
    let state = || NodeState::<u32>::Loop { iterations: 4, items: None };
    assert!(matches!(resume_decision(state(), Signal::Break), Resumption::CompleteNode(None)));
    assert!(matches!(resume_decision(state(), Signal::Continue), Resumption::KeepLooping { iterations: 4, items: None }));
    assert!(matches!(resume_decision(state(), Signal::Complete(1)), Resumption::KeepLooping { iterations: 4, .. }));
    assert!(matches!(resume_decision(state(), Signal::Return(1)), Resumption::Leave(Signal::Return(1))));
}

#[test]
fn merged_failures_keep_the_first_one() {
    let first = merge_failure::<u32>(Signal::Error(err(ErrorKind::User, "first")), err(ErrorKind::Limit, "second"));
    let merged = merge_failure(first, err(ErrorKind::Timeout, "third"));
    match merged {
        Signal::Error(e) => {
            assert_eq!(e.kind, ErrorKind::User);
            assert_eq!(e.message, "first");
            assert_eq!(e.secondary.len(), 2);
            assert_eq!(e.secondary[0].message, "second");
            assert_eq!(e.secondary[1].message, "third");
        }
        _ => panic!("expected an error"),
    }
    assert!(matches!(merge_failure::<u32>(Signal::Break, err(ErrorKind::Limit, "x")), Signal::Error(e) if e.kind == ErrorKind::Limit));
}

#[test]
fn first_matching_handler_wins() {
    let catches = vec![vec![ErrorKind::Timeout], vec![ErrorKind::User, ErrorKind::Timeout]];
    assert_eq!(find_handler(&catches, ErrorKind::Timeout), Some(0));
    assert_eq!(find_handler(&catches, ErrorKind::User), Some(1));
    assert_eq!(find_handler(&catches, ErrorKind::Limit), None);
}

#[test]
fn try_catches_catchable_body_failures_with_the_user_code() {
    let catches = vec![vec![ErrorKind::User]];
    match resume_try_decision::<u32>(TryStage::Body, None, Signal::Error(err(ErrorKind::User, "E42")), None, true, &catches) {
        TryDecision::Catch { index, kind, code, .. } => {
            assert_eq!(index, 0);
            assert_eq!(kind, ErrorKind::User);
            assert_eq!(code, "E42");
        }
        other => panic!("unexpected {:?}", other),
    }
    assert!(matches!(
        resume_try_decision::<u32>(TryStage::Catch, None, Signal::Error(err(ErrorKind::User, "E")), None, true, &catches),
        TryDecision::Unwind(Signal::Error(_))
    ));
    assert!(matches!(
        resume_try_decision::<u32>(TryStage::Body, None, Signal::Error(err(ErrorKind::User, "E")), None, false, &catches),
        TryDecision::Unwind(Signal::Error(_))
    ));
}

#[test]
fn try_budget_failures_replace_or_join_the_signal() {
    let catches = vec![vec![ErrorKind::User]];
    match resume_try_decision::<u32>(TryStage::Body, None, Signal::Complete(1), Some(err(ErrorKind::Cancelled, "c")), true, &catches) {
        TryDecision::Unwind(Signal::Error(e)) => assert_eq!(e.kind, ErrorKind::Cancelled),
        other => panic!("unexpected {:?}", other),
    }
    match resume_try_decision::<u32>(TryStage::Body, None, Signal::Error(err(ErrorKind::User, "u")), Some(err(ErrorKind::Cancelled, "c")), true, &catches) {
        TryDecision::Unwind(Signal::Error(e)) => {
            assert_eq!(e.kind, ErrorKind::User);
            assert_eq!(e.secondary.len(), 1);
            assert_eq!(e.secondary[0].kind, ErrorKind::Cancelled);
        }
        other => panic!("unexpected {:?}", other),
    }
}

#[test]
fn finally_finishes_the_held_back_signal() {
    let catches = vec![];
    assert!(matches!(
        resume_try_decision::<u32>(TryStage::Finally, Some(Signal::Return(5)), Signal::Complete(0), None, true, &catches),
        TryDecision::Finish(Signal::Return(5))
    ));
    match resume_try_decision::<u32>(TryStage::Finally, Some(Signal::Error(err(ErrorKind::User, "p"))), Signal::Error(err(ErrorKind::Limit, "f")), None, true, &catches) {
        TryDecision::Finish(Signal::Error(e)) => {
            assert_eq!(e.message, "p");
            assert_eq!(e.secondary[0].message, "f");
        }
        other => panic!("unexpected {:?}", other),
    }
    assert!(matches!(
        resume_try_decision::<u32>(TryStage::Finally, None, Signal::Complete(0), None, true, &catches),
        TryDecision::Broken(e) if e.kind == ErrorKind::Contract
    ));
    assert!(matches!(finish_try::<u32>(Signal::Complete(2)), Resumption::CompleteNode(Some(2))));
}

#[test]
fn settled_results_keep_cleanup_failures_in_order() {
    let r = settle_result::<u32>(Ok(1), false, false, vec![]);
    assert_eq!(r.unwrap(), 1);
    let r = settle_result::<u32>(Ok(1), true, true, vec![err(ErrorKind::Operation, "clean")]);
    let e = r.unwrap_err();
    assert_eq!(e.kind, ErrorKind::Cancelled);
    assert_eq!(e.secondary.len(), 1);
    let r = settle_result::<u32>(Ok(1), false, true, vec![]);
    assert_eq!(r.unwrap_err().kind, ErrorKind::RunTimeout);
    let r = settle_result::<u32>(Ok(1), false, false, vec![err(ErrorKind::Operation, "a"), err(ErrorKind::Stale, "b")]);
    let e = r.unwrap_err();
    assert_eq!(e.kind, ErrorKind::Operation);
    assert_eq!(e.secondary.len(), 1);
    assert_eq!(e.secondary[0].message, "b");
    let r = settle_result::<u32>(Err(err(ErrorKind::User, "u")), false, false, vec![err(ErrorKind::Operation, "a")]);
    let e = r.unwrap_err();
    assert_eq!(e.message, "u");
    assert_eq!(e.secondary[0].message, "a");
}

#[test]
fn retry_delays_double_and_saturate() {
    assert_eq!(retry_delay(100, 1, 10_000), 100);
    assert_eq!(retry_delay(100, 2, 10_000), 200);
    assert_eq!(retry_delay(100, 4, 10_000), 800);
    assert_eq!(retry_delay(100, 10, 10_000), 10_000);
    assert_eq!(retry_delay(u64::MAX, 64, u64::MAX), u64::MAX);
}

#[test]
fn retries_need_a_safe_listed_side_effect_free_failure() {
    let listed = vec![ErrorKind::Timeout];
    let e = err(ErrorKind::Timeout, "t");
    assert!(should_retry(true, 1, 3, &e, true, &listed));
    assert!(!should_retry(false, 1, 3, &e, true, &listed));
    assert!(!should_retry(true, 3, 3, &e, true, &listed));
    assert!(!should_retry(true, 1, 3, &e, false, &listed));
    assert!(!should_retry(true, 1, 3, &err(ErrorKind::User, "u"), true, &listed));
    let unconfirmed = err(ErrorKind::Timeout, "t").with_effect(Effect::Unconfirmed);
    assert!(!should_retry(true, 1, 3, &unconfirmed, true, &listed));
}

#[test]
fn retry_policies_are_bounded() {
    let kinds = vec![ErrorKind::Timeout];
    assert!(retry_policy_valid(true, false, 3, 100, 1000, &kinds, true));
    assert!(!retry_policy_valid(true, true, 3, 100, 1000, &kinds, true));
    assert!(!retry_policy_valid(true, false, 11, 100, 1000, &kinds, true));
    assert!(!retry_policy_valid(true, false, 3, 2000, 1000, &kinds, true));
    assert!(!retry_policy_valid(true, false, 3, 100, 60_001, &kinds, true));
    assert!(!retry_policy_valid(true, false, 3, 100, 1000, &vec![], true));
}

#[test]
fn cleanup_frames_get_sixty_four_more() {
    assert!(check_frame_budget(63, 64, false).is_ok());
    assert_eq!(check_frame_budget(64, 64, false).unwrap_err().kind, ErrorKind::Limit);
    assert!(check_frame_budget(127, 64, true).is_ok());
    assert!(check_frame_budget(128, 64, true).is_err());
}

#[test]
fn step_budgets_count_separately() {
    let mut b = StepBudget { steps: 1, cleanup_steps: 0 };
    assert!(b.count(false, 2).is_ok());
    assert_eq!(b.steps, 2);
    assert_eq!(b.count(false, 2).unwrap_err().kind, ErrorKind::Limit);
    let mut c = StepBudget { steps: 0, cleanup_steps: MAX_CLEANUP_STEPS - 1 };
    assert!(c.count(true, 10).is_ok());
    assert!(c.count(true, 10).is_err());
    assert_eq!(c.steps, 0);
}

#[test]
fn step_checks_stop_cancelled_runs_first() {
    assert_eq!(check_step(false, true, true, None).unwrap_err().kind, ErrorKind::Cancelled);
    assert_eq!(check_step(false, false, true, None).unwrap_err().kind, ErrorKind::RunTimeout);
    assert!(check_step(true, true, true, None).is_ok());
    assert_eq!(check_step(true, true, true, Some(err(ErrorKind::Stale, "s"))).unwrap_err().kind, ErrorKind::Stale);
}

#[test]
fn loop_steps_respect_limits() {
    assert_eq!(loop_step(false, 100, Some(1), 1).unwrap(), LoopStep::Done);
    assert_eq!(loop_step(true, 0, Some(1), 5).unwrap(), LoopStep::Iterate);
    assert_eq!(loop_step(true, 1, Some(1), 5).unwrap_err().kind, ErrorKind::Limit);
    assert_eq!(loop_step(true, 4, None, 5).unwrap(), LoopStep::Iterate);
    assert!(loop_step(true, 5, None, 5).is_err());
}

#[test]
fn lexical_chain_lookup() {
    let frames = vec![
        FrameLink { scope: 0, lexical_parent: None },
        FrameLink { scope: 1, lexical_parent: Some(0) },
        FrameLink { scope: 2, lexical_parent: Some(1) },
    ];
    assert_eq!(lexical_index(&frames, 2, 0).unwrap(), 0);
    assert_eq!(lexical_index(&frames, 2, 2).unwrap(), 2);
    assert_eq!(lexical_index(&frames, 1, 2).unwrap_err().kind, ErrorKind::Contract);
}

#[test]
fn node_time_limits_prefer_their_own_then_the_remaining_budget_up_to_a_day() {
    assert_eq!(node_timeout(Some(250), TimeSpan::from_secs(1)).unwrap().nanos, 250_000_000);
    assert_eq!(node_timeout(Some(0), TimeSpan::from_secs(1)).unwrap_err().kind, ErrorKind::Timeout);
    assert_eq!(node_timeout(None, TimeSpan::from_secs(5)).unwrap().nanos, 5_000_000_000);
    assert_eq!(node_timeout(None, TimeSpan::from_secs(200_000)).unwrap().nanos, 86_400_000_000_000);
    let e = node_timeout(None, TimeSpan::from_millis(0)).unwrap_err();
    assert_eq!(e.kind, ErrorKind::Timeout);
    assert_eq!(e.message, "节点时限已到");
}

#[test]
fn negative_waits_are_refused() {
    assert_eq!(wait_millis(1500).unwrap(), 1500);
    assert_eq!(wait_millis(0).unwrap(), 0);
    assert_eq!(wait_millis(-1).unwrap_err().kind, ErrorKind::Expression);
}
