use argusflow_runtime::errors::{Effect, ErrorKind, RunError};
use argusflow_runtime::loops::{loop_config_valid, LoopFrame};
use argusflow_runtime::options::{
    admit_run, check_input_budget, final_status, ValueFacts, EngineQuota, RunOptions, RunStatus, TimeSpan, MAX_ENGINE_RESOURCES,
    MAX_ENGINE_RUNS,
};

#[test]
fn default_budgets_are_supported() {
    let o = RunOptions::default_budgets();
    assert_eq!(o.timeout, TimeSpan::from_secs(1800));
    assert_eq!(o.max_steps, 100_000);
    assert_eq!(o.max_iterations, 10_000);
    assert_eq!(o.max_depth, 64);
    assert_eq!(o.value_bytes, 1_048_576);
    assert_eq!(o.data_bytes, 16_777_216);
    assert_eq!(o.cleanup_timeout, TimeSpan::from_secs(5));
    assert!(o.validate().is_ok());
}

#[test]
fn out_of_range_budgets_are_limit_errors() {
    let mut o = RunOptions::default_budgets();
    o.max_steps = 0;
    assert_eq!(o.validate().unwrap_err().kind, ErrorKind::Limit);
    let mut o = RunOptions::default_budgets();
    o.timeout = TimeSpan::from_secs(86_401);
    assert_eq!(o.validate().unwrap_err().kind, ErrorKind::Limit);
    let mut o = RunOptions::default_budgets();
    o.timeout = TimeSpan::from_secs(86_400);
    assert!(o.validate().is_ok());
    let mut o = RunOptions::default_budgets();
    o.data_bytes = o.value_bytes - 1;
    assert_eq!(o.validate().unwrap_err().kind, ErrorKind::Limit);
    let mut o = RunOptions::default_budgets();
    o.cleanup_timeout = TimeSpan::from_secs(61);
    assert_eq!(o.validate().unwrap_err().kind, ErrorKind::Limit);
    let mut o = RunOptions::default_budgets();
    o.max_depth = 65;
    assert_eq!(o.validate().unwrap_err().kind, ErrorKind::Limit);
}

#[test]
fn time_spans_count_nanoseconds() {
    assert_eq!(TimeSpan::from_secs(2).nanos, 2_000_000_000);
    assert_eq!(TimeSpan::from_millis(3).nanos, 3_000_000);
    assert!(TimeSpan::from_millis(0).is_zero());
    assert!(!TimeSpan::from_millis(1).is_zero());
}

#[test]
fn input_sizes_are_checked_per_value_and_in_total() {
    let mut o = RunOptions::default_budgets();
    o.value_bytes = 10;
    o.data_bytes = 15;
    assert!(check_input_budget(&vec![Some(5), Some(10)], &o).is_ok());
    assert_eq!(check_input_budget(&vec![Some(5), Some(11)], &o).unwrap_err().kind, ErrorKind::Contract);
    assert_eq!(check_input_budget(&vec![None], &o).unwrap_err().kind, ErrorKind::Contract);
    assert_eq!(check_input_budget(&vec![Some(10), Some(6)], &o).unwrap_err().kind, ErrorKind::Limit);
    assert!(check_input_budget(&vec![], &o).is_ok());
}

#[test]
fn final_status_follows_the_primary_error() {
    assert_eq!(final_status(None), RunStatus::Completed);
    assert_eq!(final_status(Some(ErrorKind::Cancelled)), RunStatus::Cancelled);
    assert_eq!(final_status(Some(ErrorKind::Timeout)), RunStatus::TimedOut);
    assert_eq!(final_status(Some(ErrorKind::RunTimeout)), RunStatus::TimedOut);
    assert_eq!(final_status(Some(ErrorKind::User)), RunStatus::Failed);
}

#[test]
fn engine_quota_limits() {
    let q = EngineQuota::default_quota();
    assert_eq!((q.max_runs, q.max_resources), (8, 64));
    assert!(EngineQuota::with_limits(0, 1).is_err());
    assert!(EngineQuota::with_limits(MAX_ENGINE_RUNS + 1, 1).is_err());
    assert!(EngineQuota::with_limits(1, MAX_ENGINE_RESOURCES + 1).is_err());
    let q = EngineQuota::with_limits(MAX_ENGINE_RUNS, MAX_ENGINE_RESOURCES).unwrap();
    assert_eq!(q.max_runs as usize, MAX_ENGINE_RUNS);
}

#[test]
fn run_error_keeps_kind_and_effect() {
    let e = RunError::new(ErrorKind::Operation, "x".to_owned());
    assert_eq!(e.effect, Effect::NoSideEffect);
    assert!(e.secondary.is_empty());
    let e = e.with_effect(Effect::Unconfirmed);
    assert_eq!(e.effect, Effect::Unconfirmed);
    assert_eq!(e.kind, ErrorKind::Operation);
    assert_eq!(e.message, "x");
}

fn frame(max: u32, timeout_ms: u64, interval_ms: u64) -> LoopFrame {
    LoopFrame::new("root".to_owned(), "loop".to_owned(), "body".to_owned(), max, timeout_ms, interval_ms)
}

#[test]
fn loop_frame_first_iteration_always_runs() {
    let mut f = frame(2, 100, 0);
    assert_eq!(f.iterations(), 0);
    assert_eq!(f.begin_next_iteration(TimeSpan::from_millis(500)), Some(1));
    assert_eq!(f.begin_next_iteration(TimeSpan::from_millis(500)), None);
    assert_eq!(f.iterations(), 1);
}

#[test]
fn loop_frame_stops_exactly_at_its_limit() {
    let mut f = frame(3, 1000, 0);
    assert_eq!(f.begin_next_iteration(TimeSpan::from_millis(0)), Some(1));
    assert_eq!(f.begin_next_iteration(TimeSpan::from_millis(1)), Some(2));
    assert_eq!(f.begin_next_iteration(TimeSpan::from_millis(2)), Some(3));
    assert_eq!(f.begin_next_iteration(TimeSpan::from_millis(3)), None);
    assert_eq!(f.begin_next_iteration(TimeSpan::from_millis(3)), None);
    assert_eq!(f.iterations(), 3);
}

#[test]
fn loop_frame_pauses_only_between_iterations() {
    let mut f = frame(3, 1000, 25);
    assert_eq!(f.pause_before_next(), None);
    f.begin_next_iteration(TimeSpan::from_millis(0));
    assert_eq!(f.pause_before_next(), Some(TimeSpan::from_millis(25)));
    let mut g = frame(3, 1000, 0);
    g.begin_next_iteration(TimeSpan::from_millis(0));
    assert_eq!(g.pause_before_next(), None);
}

#[test]
fn loop_gate_bounds() {
    assert!(loop_config_valid(1, 1, 0));
    assert!(loop_config_valid(10_000, 600_000, 60_000));
    assert!(!loop_config_valid(0, 1, 0));
    assert!(!loop_config_valid(10_001, 1, 0));
    assert!(!loop_config_valid(1, 0, 0));
    assert!(!loop_config_valid(1, 600_001, 0));
    assert!(!loop_config_valid(1, 1, 60_001));
}

fn facts(name: &str, matches_type: bool, size: Option<usize>) -> ValueFacts {
    ValueFacts { name: name.to_string(), matches_type, size }
}

#[test]
fn runs_are_admitted_only_when_inputs_and_resources_fit_the_root() {
    let o = RunOptions::default_budgets();
    let declared = vec!["a".to_string(), "b".to_string()];
    let res = vec![("browser".to_string(), "Browser".to_string())];
    let good = vec![facts("a", true, Some(10)), facts("b", true, Some(20))];
    assert!(admit_run(&declared, &good, &res, &res, &o).is_ok());

    let missing = vec![facts("a", true, Some(10))];
    let e = admit_run(&declared, &missing, &res, &res, &o).unwrap_err();
    assert_eq!(e.kind, ErrorKind::Contract);
    assert_eq!(e.message, "运行输入或资源不满足根声明");

    let renamed = vec![facts("a", true, Some(10)), facts("c", true, Some(20))];
    assert_eq!(admit_run(&declared, &renamed, &res, &res, &o).unwrap_err().kind, ErrorKind::Contract);

    let mistyped = vec![facts("a", true, Some(10)), facts("b", false, Some(20))];
    assert_eq!(admit_run(&declared, &mistyped, &res, &res, &o).unwrap_err().kind, ErrorKind::Contract);

    let unmeasured = vec![facts("a", true, None), facts("b", true, Some(20))];
    assert_eq!(admit_run(&declared, &unmeasured, &res, &res, &o).unwrap_err().kind, ErrorKind::Contract);

    let other_res = vec![("browser".to_string(), "Desktop".to_string())];
    assert_eq!(admit_run(&declared, &good, &res, &other_res, &o).unwrap_err().kind, ErrorKind::Contract);
    assert_eq!(admit_run(&declared, &good, &res, &Vec::new(), &o).unwrap_err().kind, ErrorKind::Contract);
}

#[test]
fn admission_checks_budgets_before_the_root_and_totals_last() {
    let mut bad = RunOptions::default_budgets();
    bad.max_depth = 0;
    let declared = vec!["a".to_string()];
    let wrong = vec![facts("z", true, Some(1))];
    let e = admit_run(&declared, &wrong, &Vec::new(), &Vec::new(), &bad).unwrap_err();
    assert_eq!(e.kind, ErrorKind::Limit);
    assert_eq!(e.message, "运行预算超出支持范围");

    let mut small = RunOptions::default_budgets();
    small.value_bytes = 100;
    small.data_bytes = 150;
    let declared = vec!["a".to_string(), "b".to_string()];
    let big = vec![facts("a", true, Some(100)), facts("b", true, Some(100))];
    let e = admit_run(&declared, &big, &Vec::new(), &Vec::new(), &small).unwrap_err();
    assert_eq!(e.kind, ErrorKind::Limit);
    assert_eq!(e.message, "输入数据超过总预算");
    let fits = vec![facts("a", true, Some(100)), facts("b", true, Some(50))];
    assert!(admit_run(&declared, &fits, &Vec::new(), &Vec::new(), &small).is_ok());
}
