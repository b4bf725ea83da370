use argusflow_runtime::compile::DiagnosticCode;
use argusflow_runtime::errors::ErrorKind;
use argusflow_runtime::plan::{
    can_complete, check_placement, check_release, check_retry_policy, declare_resource_outputs, finally_env, loop_body_env,
    resolve_assign_targets, step_move, ActionHead, ChildWait, ControlEnv, Exit, PlanAction, ResourceEntry, ScopeSymbols,
    StepMove,
};

#[test]
fn completion_follows_the_scopes_an_action_runs() {
    let plans = vec![Some(true), Some(false), None];
    assert!(!can_complete(&plans, &PlanAction::Return));
    assert!(!can_complete(&plans, &PlanAction::Break));
    assert!(can_complete(&plans, &PlanAction::Let));
    assert!(!can_complete(&plans, &PlanAction::Fail { code: "E".to_string() }));
    assert!(can_complete(&plans, &PlanAction::Block(0)));
    assert!(!can_complete(&plans, &PlanAction::Block(2)));
    assert!(can_complete(&plans, &PlanAction::If { then_scope: 1, else_scope: 0 }));
    assert!(!can_complete(&plans, &PlanAction::If { then_scope: 1, else_scope: 2 }));
    assert!(can_complete(&plans, &PlanAction::Switch { cases: vec![1, 0], default_scope: 2 }));
    assert!(!can_complete(&plans, &PlanAction::Switch { cases: vec![1], default_scope: 2 }));
    assert!(can_complete(&plans, &PlanAction::Try { body: 1, catches: vec![0], finally: None }));
    assert!(!can_complete(&plans, &PlanAction::Try { body: 0, catches: vec![], finally: Some(1) }));
    assert!(can_complete(&plans, &PlanAction::Try { body: 0, catches: vec![], finally: Some(0) }));
}

#[test]
fn control_transfers_are_placed_lexically() {
    let top = ControlEnv { loop_depth: 0, in_finally: false, has_return_contract: true };
    let d = check_placement(&ActionHead::LoopExit, top, "s", Some("n")).unwrap_err();
    assert_eq!(d.code, DiagnosticCode::Control);
    assert_eq!(d.message, "Break/Continue 必须位于本次调用的循环内，且不能离开 Finally");
    assert_eq!(d.scope.as_deref(), Some("s"));
    assert_eq!(d.node.as_deref(), Some("n"));
    let body = loop_body_env(top);
    assert_eq!(body.loop_depth, 1);
    assert!(check_placement(&ActionHead::LoopExit, body, "s", None).is_ok());
    let fin = finally_env(body);
    assert_eq!(fin.loop_depth, 0);
    assert!(check_placement(&ActionHead::LoopExit, fin, "s", None).is_err());
    assert_eq!(check_placement(&ActionHead::Return, fin, "s", None).unwrap_err().message,
        "Finally 不能用 Return 覆盖原始控制转移");
    let no_contract = ControlEnv { has_return_contract: false, ..top };
    assert_eq!(check_placement(&ActionHead::Return, no_contract, "s", None).unwrap_err().message, "缺少调用返回契约");
    assert!(check_placement(&ActionHead::Return, top, "s", None).is_ok());
    let d = check_placement(&ActionHead::Loop { max_iterations: Some(0) }, top, "s", None).unwrap_err();
    assert_eq!(d.code, DiagnosticCode::Limit);
    assert!(check_placement(&ActionHead::Loop { max_iterations: Some(100_001) }, top, "s", None).is_err());
    assert!(check_placement(&ActionHead::Loop { max_iterations: Some(100_000) }, top, "s", None).is_ok());
    assert!(check_placement(&ActionHead::Loop { max_iterations: None }, top, "s", None).is_ok());
    assert!(check_placement(&ActionHead::Fail { code: " ".to_string() }, top, "s", None).is_err());
    assert!(check_placement(&ActionHead::Fail { code: "E1".to_string() }, top, "s", None).is_ok());
    assert_eq!(check_placement(&ActionHead::Assign { targets: 0 }, top, "s", None).unwrap_err().message, "赋值不能为空");
}

fn symbols() -> Vec<ScopeSymbols> {
    vec![
        ScopeSymbols { names: vec![("g".to_string(), 0), ("k".to_string(), 1)], mutable: vec![true, false] },
        ScopeSymbols { names: vec![("x".to_string(), 0), ("g".to_string(), 1)], mutable: vec![true, true] },
    ]
}

#[test]
fn assignment_targets_resolve_innermost_first_outside_their_dead_zone() {
    let scopes = symbols();
    let chain = vec![0, 1];
    let initialized = vec![(0, 0), (0, 1), (1, 0), (1, 1)];
    let names = vec!["x".to_string(), "g".to_string()];
    let r = resolve_assign_targets(&scopes, &chain, &initialized, &names, "s", None).unwrap();
    assert_eq!(r, vec![(1, 0), (1, 1)]);
    let outer = resolve_assign_targets(&scopes, &vec![0], &initialized, &vec!["g".to_string()], "s", None).unwrap();
    assert_eq!(outer, vec![(0, 0)]);

    let d = resolve_assign_targets(&scopes, &chain, &initialized, &vec!["y".to_string()], "s", None).unwrap_err();
    assert_eq!(d.code, DiagnosticCode::Reference);
    assert_eq!(d.message, "赋值目标未声明");
    let d = resolve_assign_targets(&scopes, &chain, &vec![(0, 0)], &vec!["x".to_string()], "s", None).unwrap_err();
    assert_eq!(d.code, DiagnosticCode::Uninitialized);
    assert_eq!(d.message, "赋值目标仍处于暂时性死区");
    let d = resolve_assign_targets(&scopes, &chain, &initialized, &vec!["k".to_string()], "s", None).unwrap_err();
    assert_eq!(d.message, "不能修改只读变量或重复赋值目标");
    let twice = vec!["x".to_string(), "x".to_string()];
    let d = resolve_assign_targets(&scopes, &chain, &initialized, &twice, "s", None).unwrap_err();
    assert_eq!(d.code, DiagnosticCode::Reference);
    assert_eq!(d.message, "不能修改只读变量或重复赋值目标");
}

fn pair(a: &str, b: &str) -> (String, String) {
    (a.to_string(), b.to_string())
}

#[test]
fn task_resources_are_declared_once_per_scope_and_released_only_by_their_owner() {
    let mut env = vec![ResourceEntry { name: "in".to_string(), scope: 0, resource_type: "Browser".to_string(), owned: false }];
    let signature = vec![pair("session", "Browser")];
    declare_resource_outputs(&mut env, &vec![pair("session", "page")], &signature, 1, "s", None).unwrap();
    assert_eq!(env.len(), 2);
    assert_eq!(env[1].name, "page");
    assert_eq!(env[1].scope, 1);
    assert_eq!(env[1].resource_type, "Browser");
    assert!(env[1].owned);
    let d = declare_resource_outputs(&mut env, &vec![pair("session", "page")], &signature, 1, "s", None).unwrap_err();
    assert_eq!(d.message, "当前作用域资源重复声明");
    assert_eq!(env.len(), 2);
    // another scope may hide it
    declare_resource_outputs(&mut env, &vec![pair("session", "page")], &signature, 2, "s", None).unwrap();
    let d = declare_resource_outputs(&mut env, &vec![pair("other", "x")], &signature, 1, "s", None).unwrap_err();
    assert_eq!(d.message, "资源输出端口缺失或多余");
    let d = declare_resource_outputs(&mut env, &Vec::new(), &signature, 1, "s", None).unwrap_err();
    assert_eq!(d.message, "资源输出端口缺失或多余");

    assert!(check_release(&env, "page", 2, "s", None).is_ok());
    assert_eq!(check_release(&env, "page", 1, "s", None).unwrap_err().message, "只能显式释放当前作用域自有资源");
    assert_eq!(check_release(&env, "in", 0, "s", None).unwrap_err().message, "只能显式释放当前作用域自有资源");
    assert_eq!(check_release(&env, "none", 0, "s", None).unwrap_err().message, "释放目标不存在");
}

#[test]
fn retry_policies_are_bounded_and_need_a_safe_task() {
    let kinds = vec![ErrorKind::Busy];
    assert!(check_retry_policy(true, false, 3, 100, 1000, &kinds, true, "s", Some("n")).is_ok());
    let d = check_retry_policy(false, false, 3, 100, 1000, &kinds, true, "s", Some("n")).unwrap_err();
    assert_eq!(d.code, DiagnosticCode::Task);
    assert_eq!(d.message, "重试策略超限或任务不允许安全重试");
    assert!(check_retry_policy(true, true, 3, 100, 1000, &kinds, true, "s", None).is_err());
    assert!(check_retry_policy(true, false, 11, 100, 1000, &kinds, true, "s", None).is_err());
    assert!(check_retry_policy(true, false, 3, 2000, 1000, &kinds, true, "s", None).is_err());
    assert!(check_retry_policy(true, false, 3, 100, 60_001, &kinds, true, "s", None).is_err());
    assert!(check_retry_policy(true, false, 3, 100, 1000, &Vec::new(), true, "s", None).is_err());
    assert!(check_retry_policy(true, false, 3, 100, 1000, &kinds, false, "s", None).is_err());
}

#[test]
fn a_started_node_enters_the_scope_its_action_chooses() {
    let none: Vec<bool> = Vec::new();
    let branch = PlanAction::If { then_scope: 1, else_scope: 2 };
    assert_eq!(step_move(&branch, true, &none).unwrap(), StepMove::Enter { scope: 1, wait: ChildWait::Child });
    assert_eq!(step_move(&branch, false, &none).unwrap(), StepMove::Enter { scope: 2, wait: ChildWait::Child });
    let switch = PlanAction::Switch { cases: vec![4, 5, 6], default_scope: 7 };
    assert_eq!(step_move(&switch, false, &vec![false, true, true]).unwrap(),
        StepMove::Enter { scope: 5, wait: ChildWait::Child });
    assert_eq!(step_move(&switch, false, &vec![false, false, false]).unwrap(),
        StepMove::Enter { scope: 7, wait: ChildWait::Child });
    let attempt = PlanAction::Try { body: 3, catches: vec![8], finally: None };
    assert_eq!(step_move(&attempt, false, &none).unwrap(), StepMove::Enter { scope: 3, wait: ChildWait::TryBody });
    assert_eq!(step_move(&PlanAction::Call { scope: 9 }, false, &none).unwrap(),
        StepMove::Enter { scope: 9, wait: ChildWait::Call });
    assert_eq!(step_move(&PlanAction::Break, false, &none).unwrap(), StepMove::Leave(Exit::Break));
    assert_eq!(step_move(&PlanAction::Return, false, &none).unwrap(), StepMove::Leave(Exit::Return));
    assert_eq!(step_move(&PlanAction::While { body: 1 }, false, &none).unwrap(), StepMove::StartLoop);
    let e = step_move(&PlanAction::Fail { code: "E_BAD".to_string() }, false, &none).unwrap_err();
    assert_eq!(e.kind, ErrorKind::User);
    assert_eq!(e.message, "E_BAD");
}
