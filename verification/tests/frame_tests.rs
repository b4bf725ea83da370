use argusflow_runtime::control::{NodeState, Signal, StepBudget};
use argusflow_runtime::options::TimeSpan;
use argusflow_runtime::errors::{ErrorKind, RunError};
use argusflow_runtime::frames::{begin_step, merge_all, Binding, FrameStack, SizedValue, StepStart};

fn sized(v: i64, bytes: Option<usize>) -> SizedValue<i64> {
    SizedValue { value: v, bytes }
}

fn value_at(s: &FrameStack<i64>, frame: usize, slot: usize) -> Option<i64> {
    s.variables[frame][slot].as_ref().map(|x| x.value)
}

#[test]
fn frames_are_pushed_with_fresh_instances_within_the_depth_budget() {
    let mut s: FrameStack<i64> = FrameStack::root(0, 2);
    assert_eq!(s.instances, vec![1]);
    s.push(3, 0, 2, vec![(1, sized(7, Some(8)))], false, 2, true).unwrap();
    assert_eq!(s.instances, vec![1, 2]);
    assert_eq!(s.next_instance, 3);
    assert_eq!(s.links[1].scope, 3);
    assert_eq!(s.links[1].lexical_parent, Some(0));
    assert_eq!(value_at(&s, 1, 0), None);
    assert_eq!(value_at(&s, 1, 1), Some(7));
    let e = s.push(4, 1, 0, Vec::new(), false, 2, true).unwrap_err();
    assert_eq!(e.kind, ErrorKind::Limit);
    assert_eq!(e.message, "活动调用帧超过预算");
    assert_eq!(s.links.len(), 2);
    // a cleanup frame still fits
    s.push(4, 1, 0, Vec::new(), true, 2, true).unwrap();
    assert_eq!(s.links.len(), 3);
    let e = s.push(5, 2, 0, Vec::new(), false, 64, false).unwrap_err();
    assert_eq!(e.message, "调用参数超过总数据预算");
    assert_eq!(s.links.len(), 3);
}

#[test]
fn leaving_a_frame_merges_cleanup_failures_into_its_signal() {
    let mut s: FrameStack<i64> = FrameStack::root(0, 0);
    s.push(1, 0, 0, Vec::new(), false, 8, true).unwrap();
    s.owned[1] = vec![10, 11, 12];
    assert_eq!(s.closing_order(), vec![12, 11, 10]);
    let failures = vec![
        RunError::new(ErrorKind::Unavailable, "a".to_string()),
        RunError::new(ErrorKind::Busy, "b".to_string()),
    ];
    match s.leave(Signal::Complete(1), failures) {
        Signal::Error(e) => {
            assert_eq!(e.kind, ErrorKind::Unavailable);
            assert_eq!(e.secondary.len(), 1);
            assert_eq!(e.secondary[0].kind, ErrorKind::Busy);
        }
        _ => panic!("expected the first cleanup failure"),
    }
    assert_eq!(s.links.len(), 1);
    let primary = RunError::new(ErrorKind::User, "E".to_string());
    match merge_all::<i64>(Signal::Error(primary), vec![RunError::new(ErrorKind::Busy, "b".to_string())]) {
        Signal::Error(e) => {
            assert_eq!(e.kind, ErrorKind::User);
            assert_eq!(e.secondary.len(), 1);
        }
        _ => panic!("expected the primary failure"),
    }
    assert!(matches!(merge_all::<i64>(Signal::Break, Vec::new()), Signal::Break));
}

#[test]
fn variable_transactions_are_all_or_nothing() {
    let mut s: FrameStack<i64> = FrameStack::root(0, 2);
    s.push(5, 0, 1, Vec::new(), false, 8, true).unwrap();
    // initialise the outer slot 0 and the inner slot 0 together
    let init = vec![
        (Binding { scope: 0, slot: 0 }, sized(1, Some(4))),
        (Binding { scope: 5, slot: 0 }, sized(2, Some(4))),
    ];
    s.assign(init, true, 0, 100).unwrap();
    assert_eq!(value_at(&s, 0, 0), Some(1));
    assert_eq!(value_at(&s, 1, 0), Some(2));
    // the second target is uninitialised: nothing is written
    let bad = vec![
        (Binding { scope: 0, slot: 0 }, sized(9, Some(4))),
        (Binding { scope: 0, slot: 1 }, sized(9, Some(4))),
    ];
    let e = s.assign(bad, false, 8, 100).unwrap_err();
    assert_eq!(e.kind, ErrorKind::Contract);
    assert_eq!(e.message, "重复初始化或赋值未初始化变量");
    assert_eq!(value_at(&s, 0, 0), Some(1));
    // over the data budget: nothing is written
    let big = vec![(Binding { scope: 0, slot: 0 }, sized(3, Some(200)))];
    let e = s.assign(big, false, 8, 100).unwrap_err();
    assert_eq!(e.kind, ErrorKind::Limit);
    assert_eq!(e.message, "变量事务超过总数据预算");
    assert_eq!(value_at(&s, 0, 0), Some(1));
    // an unmeasurable value never fits
    let e = s.assign(vec![(Binding { scope: 0, slot: 0 }, sized(3, None))], false, 0, 100).unwrap_err();
    assert_eq!(e.kind, ErrorKind::Limit);
    // unknown scope and slot
    let e = s.assign(vec![(Binding { scope: 9, slot: 0 }, sized(3, Some(1)))], false, 0, 100).unwrap_err();
    assert_eq!(e.message, "词法帧不存在");
    let e = s.assign(vec![(Binding { scope: 5, slot: 4 }, sized(3, Some(1)))], false, 0, 100).unwrap_err();
    assert_eq!(e.message, "变量槽位不存在");
    // a valid assignment replaces the value
    s.assign(vec![(Binding { scope: 0, slot: 0 }, sized(5, Some(4)))], false, 8, 100).unwrap();
    assert_eq!(value_at(&s, 0, 0), Some(5));
}

#[test]
fn a_step_checks_the_run_then_counts_and_fixes_the_node_limit() {
    let ready: NodeState<i64> = NodeState::Ready;
    let mut b = StepBudget { steps: 0, cleanup_steps: 0 };
    let r = begin_step(&mut b, Ok(()), 0, 2, &ready, false, 10, Some(500), TimeSpan::from_secs(3));
    assert_eq!(r.unwrap(), StepStart::Run { timeout: TimeSpan::from_millis(500), execution: 1 });
    assert_eq!(b.steps, 1);
    let r = begin_step(&mut b, Ok(()), 1, 2, &ready, true, 10, None, TimeSpan::from_secs(3));
    assert_eq!(r.unwrap(), StepStart::Run { timeout: TimeSpan::from_secs(3), execution: 2 });
    assert_eq!(b.cleanup_steps, 1);
    assert_eq!(begin_step(&mut b, Ok(()), 2, 2, &ready, false, 10, None, TimeSpan::from_secs(3)).unwrap(),
        StepStart::LeaveComplete);
    let looping: NodeState<i64> = NodeState::Loop { iterations: 1, items: None };
    assert_eq!(begin_step(&mut b, Ok(()), 0, 2, &looping, false, 10, None, TimeSpan::from_secs(3)).unwrap(),
        StepStart::Iterate);
    let waiting: NodeState<i64> = NodeState::Child;
    let e = begin_step(&mut b, Ok(()), 0, 2, &waiting, false, 10, None, TimeSpan::from_secs(3)).unwrap_err();
    assert_eq!(e.kind, ErrorKind::Contract);
    assert_eq!(e.message, "结构节点等待的子帧缺失");
    let cancelled = RunError::new(ErrorKind::Cancelled, "运行已取消".to_string());
    let e = begin_step(&mut b, Err(cancelled), 0, 2, &ready, false, 10, None, TimeSpan::from_secs(3)).unwrap_err();
    assert_eq!(e.kind, ErrorKind::Cancelled);
    assert_eq!(b.steps, 1);
    let e = begin_step(&mut b, Ok(()), 0, 2, &ready, false, 10, None, TimeSpan { nanos: 0 }).unwrap_err();
    assert_eq!(e.kind, ErrorKind::Timeout);
    let mut full = StepBudget { steps: 10, cleanup_steps: 0 };
    let e = begin_step(&mut full, Ok(()), 0, 2, &ready, false, 10, None, TimeSpan::from_secs(3)).unwrap_err();
    assert_eq!(e.kind, ErrorKind::Limit);
}

#[test]
fn leaving_right_after_entering_restores_the_frames() {
    let mut s: FrameStack<i64> = FrameStack::root(0, 1);
    let links_before = s.links.clone();
    let instances_before = s.instances.clone();
    s.push(2, 0, 3, vec![(0, sized(1, Some(1)))], false, 8, true).unwrap();
    assert!(matches!(s.leave(Signal::Break, Vec::new()), Signal::Break));
    assert_eq!(s.links, links_before);
    assert_eq!(s.instances, instances_before);
    assert_eq!(s.variables.len(), 1);
    assert_eq!(s.next_instance, 3);
    s.push(2, 0, 0, Vec::new(), false, 8, true).unwrap();
    assert_eq!(s.instances, vec![1, 3]);
}
