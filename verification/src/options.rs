//! Finite run budgets and the queryable lifecycle state of a run.

use vstd::prelude::*;
use vstd::string::*;
use crate::errors::{ErrorKind, ExecutionLocation, RunError};

use crate::rewrite::pairs_view;
use crate::text::text_equal;

verus! {

/// Nanoseconds in one second.
pub const NANOS_PER_SEC: u128 = 1_000_000_000;
/// Nanoseconds in one millisecond.
pub const NANOS_PER_MILLI: u128 = 1_000_000;

/// A non-negative span of time, held as whole nanoseconds.
#[derive(Debug, Clone, Copy, PartialEq, Eq, Structural)]
pub struct TimeSpan {
    /// Length of the span in nanoseconds.
    pub nanos: u128,
}

impl TimeSpan {
    /// A span of the given number of whole seconds.
    pub fn from_secs(secs: u64) -> (t: TimeSpan)
        ensures
            t.nanos == secs * NANOS_PER_SEC,
    {
        assert(secs * NANOS_PER_SEC <= u64::MAX * NANOS_PER_SEC) by (nonlinear_arith);
        TimeSpan { nanos: secs as u128 * NANOS_PER_SEC }
    }

    /// A span of the given number of whole milliseconds.
    pub fn from_millis(millis: u64) -> (t: TimeSpan)
        ensures
            t.nanos == millis * NANOS_PER_MILLI,
    {
        assert(millis * NANOS_PER_MILLI <= u64::MAX * NANOS_PER_MILLI) by (nonlinear_arith);
        TimeSpan { nanos: millis as u128 * NANOS_PER_MILLI }
    }

    /// Whether the span is empty.
    pub fn is_zero(&self) -> (b: bool)
        ensures
            b == (self.nanos == 0),
    {
        self.nanos == 0
    }
}

} // verus!

verus! {

/// Whole-run limit of the total time budget: one day.
pub const MAX_RUN_TIMEOUT_SECS: u64 = 86_400;
/// Upper limit of the node-execution budget.
pub const MAX_STEPS_LIMIT: u64 = 10_000_000;
/// Upper limit of the default loop budget.
pub const MAX_ITERATIONS_LIMIT: u32 = 100_000;
/// Upper limit of simultaneously active frames.
pub const MAX_DEPTH_LIMIT: usize = 64;
/// Upper limit of operations per expression evaluation.
pub const EXPRESSION_STEPS_LIMIT: usize = 1_000_000;
/// Upper limit of a single value's estimated size: 64 MiB.
pub const VALUE_BYTES_LIMIT: usize = 67_108_864;
/// Upper limit of the total estimated data size: 256 MiB.
pub const DATA_BYTES_LIMIT: usize = 268_435_456;
/// Upper limit of the cleanup budget in seconds.
pub const MAX_CLEANUP_SECS: u64 = 60;

/// All run budgets; each must be finite.
#[derive(Debug, Clone, Copy, PartialEq, Eq, Structural)]
pub struct RunOptions {
    /// Total run time limit; thirty minutes by default.
    pub timeout: TimeSpan,
    /// Total node executions including loop bodies; 100 000 by default.
    pub max_steps: u64,
    /// Loop limit when a loop declares none; 10 000 by default.
    pub max_iterations: u32,
    /// Active frame limit; 64 by default.
    pub max_depth: usize,
    /// Operations per node expression evaluation.
    pub expression_steps: usize,
    /// Largest estimated size of a single value; 1 MiB by default.
    pub value_bytes: usize,
    /// Largest estimated size of all live data and outputs; 16 MiB by default.
    pub data_bytes: usize,
    /// Cleanup limit after cancellation or scope exit; five seconds by default.
    pub cleanup_timeout: TimeSpan,
}

/// Whether every budget of `o` lies in the supported range.
pub open spec fn budgets_supported(o: RunOptions) -> bool {
    &&& 0 < o.timeout.nanos <= MAX_RUN_TIMEOUT_SECS * NANOS_PER_SEC
    &&& 0 < o.max_steps <= MAX_STEPS_LIMIT
    &&& 0 < o.max_iterations <= MAX_ITERATIONS_LIMIT
    &&& 0 < o.max_depth <= MAX_DEPTH_LIMIT
    &&& 0 < o.expression_steps <= EXPRESSION_STEPS_LIMIT
    &&& 0 < o.value_bytes <= VALUE_BYTES_LIMIT
    &&& o.value_bytes <= o.data_bytes <= DATA_BYTES_LIMIT
    &&& 0 < o.cleanup_timeout.nanos <= MAX_CLEANUP_SECS * NANOS_PER_SEC
}

impl RunOptions {
    /// The default budgets.
    pub fn default_budgets() -> (o: RunOptions)
        ensures
            o.timeout.nanos == 1800 * NANOS_PER_SEC,
            o.max_steps == 100_000,
            o.max_iterations == 10_000,
            o.max_depth == 64,
            o.expression_steps == 10_000,
            o.value_bytes == 1_048_576,
            o.data_bytes == 16_777_216,
            o.cleanup_timeout.nanos == 5 * NANOS_PER_SEC,
            budgets_supported(o),
    {
        RunOptions {
            timeout: TimeSpan::from_secs(1800),
            max_steps: 100_000,
            max_iterations: 10_000,
            max_depth: 64,
            expression_steps: 10_000,
            value_bytes: 1_048_576,
            data_bytes: 16_777_216,
            cleanup_timeout: TimeSpan::from_secs(5),
        }
    }

    /// Rejects budgets outside the supported range with a `Limit` error.
    pub fn validate(&self) -> (r: Result<(), RunError>)
        ensures
            r is Ok <==> budgets_supported(*self),
            r matches Err(e) ==> e.kind == ErrorKind::Limit && e.secondary@.len() == 0
                && e.message@ == "运行预算超出支持范围"@,
    {
        let day = TimeSpan::from_secs(MAX_RUN_TIMEOUT_SECS);
        let minute = TimeSpan::from_secs(MAX_CLEANUP_SECS);
        if self.timeout.is_zero() || self.timeout.nanos > day.nanos || self.max_steps == 0
            || self.max_steps > MAX_STEPS_LIMIT || self.max_iterations == 0
            || self.max_iterations > MAX_ITERATIONS_LIMIT || self.max_depth == 0
            || self.max_depth > MAX_DEPTH_LIMIT || self.expression_steps == 0
            || self.expression_steps > EXPRESSION_STEPS_LIMIT || self.value_bytes == 0
            || self.value_bytes > VALUE_BYTES_LIMIT || self.data_bytes < self.value_bytes
            || self.data_bytes > DATA_BYTES_LIMIT || self.cleanup_timeout.is_zero()
            || self.cleanup_timeout.nanos > minute.nanos {
            return Err(RunError::new(ErrorKind::Limit, String::from_str("运行预算超出支持范围")));
        }
        Ok(())
    }
}

/// Sum of the measured sizes, or `None` when some value could not be measured.
pub open spec fn measured_total(sizes: Seq<Option<usize>>) -> Option<int>
    decreases sizes.len(),
{
    if sizes.len() == 0 {
        Some(0)
    } else {
        match (measured_total(sizes.drop_last()), sizes.last()) {
            (Some(t), Some(n)) => Some(t + n),
            _ => None,
        }
    }
}

/// Whether every measured size is present and at most `limit`.
pub open spec fn each_within(sizes: Seq<Option<usize>>, limit: usize) -> bool {
    forall|i: int| 0 <= i < sizes.len() ==> (#[trigger] sizes[i] matches Some(n) && n <= limit)
}

proof fn lemma_total_of_measured(sizes: Seq<Option<usize>>)
    requires
        forall|i: int| 0 <= i < sizes.len() ==> #[trigger] sizes[i] is Some,
    ensures
        measured_total(sizes) matches Some(t) && t >= 0,
    decreases sizes.len(),
{
    if sizes.len() > 0 {
        lemma_total_of_measured(sizes.drop_last());
        assert(sizes.last() == sizes[sizes.len() - 1]);
    }
}

/// Checks the estimated sizes of the run inputs against the run budgets:
/// a value that cannot be measured or exceeds `value_bytes` breaks the root
/// contract; a total above `data_bytes` exceeds the data budget.
pub fn check_input_budget(sizes: &Vec<Option<usize>>, options: &RunOptions) -> (r: Result<(), RunError>)
    ensures
        r is Ok <==> (each_within(sizes@, options.value_bytes)
            && measured_total(sizes@).unwrap() <= options.data_bytes),
        r matches Err(e) ==> (e.kind == ErrorKind::Contract <==> !each_within(sizes@, options.value_bytes)),
        r matches Err(e) ==> (e.kind == ErrorKind::Contract || e.kind == ErrorKind::Limit),
        r matches Err(e) ==> e.message@ == (if e.kind == ErrorKind::Contract { "运行输入或资源不满足根声明"@ }
            else { "输入数据超过总预算"@ }),
{
    let mut i: usize = 0;
    while i < sizes.len()
        invariant
            i <= sizes@.len(),
            forall|j: int| 0 <= j < i ==> (#[trigger] sizes@[j] matches Some(n) && n <= options.value_bytes),
        decreases sizes@.len() - i,
    {
        match sizes[i] {
            Some(n) if n <= options.value_bytes => {},
            _ => {
                return Err(RunError::new(ErrorKind::Contract, String::from_str("运行输入或资源不满足根声明")));
            },
        }
        i += 1;
    }
    let mut total: usize = 0;
    let mut k: usize = 0;
    while k < sizes.len()
        invariant
            k <= sizes@.len(),
            each_within(sizes@, options.value_bytes),
            measured_total(sizes@.take(k as int)) == Some(total as int),
        decreases sizes@.len() - k,
    {
        assert(sizes@.take(k + 1).drop_last() =~= sizes@.take(k as int));
        let n = match sizes[k] { Some(n) => n, None => 0 };
        assert(sizes@[k as int] == Some(n));
        match total.checked_add(n) {
            Some(t) => { total = t; },
            None => {
                proof {
                    lemma_total_of_measured(sizes@.skip(k + 1));
                    lemma_total_split(sizes@, k + 1);
                }
                return Err(RunError::new(ErrorKind::Limit, String::from_str("输入数据超过总预算")));
            },
        }
        k += 1;
    }
    assert(sizes@.take(sizes@.len() as int) =~= sizes@);
    if total > options.data_bytes {
        return Err(RunError::new(ErrorKind::Limit, String::from_str("输入数据超过总预算")));
    }
    Ok(())
}

proof fn lemma_total_split(sizes: Seq<Option<usize>>, k: int)
    requires
        0 <= k <= sizes.len(),
        forall|i: int| 0 <= i < sizes.len() ==> #[trigger] sizes[i] is Some,
    ensures
        measured_total(sizes) matches Some(t) && measured_total(sizes.take(k)) matches Some(a)
            && measured_total(sizes.skip(k)) matches Some(b) && t == a + b && b >= 0,
    decreases sizes.len(),
{
    lemma_total_of_measured(sizes);
    lemma_total_of_measured(sizes.take(k));
    lemma_total_of_measured(sizes.skip(k));
    if sizes.len() == k {
        assert(sizes.take(k) =~= sizes);
        assert(sizes.skip(k).len() == 0);
    } else {
        let s2 = sizes.drop_last();
        assert forall|i: int| 0 <= i < s2.len() implies #[trigger] s2[i] is Some by {
            assert(s2[i] == sizes[i]);
        }
        lemma_total_split(s2, k);
        assert(s2.take(k) =~= sizes.take(k));
        assert(sizes.skip(k).drop_last() =~= s2.skip(k));
        assert(sizes.skip(k).last() == sizes.last());
        assert(sizes.last() == sizes[sizes.len() - 1]);
    }
}

/// What the value model reports of one named value (a run input or a task
/// output): its name, whether it has the declared type, and its measured
/// size, if it could be measured.
#[derive(Debug, Clone)]
pub struct ValueFacts {
    /// Port or input name.
    pub name: String,
    /// The value has the type the root declares for this input.
    pub matches_type: bool,
    /// Measured size in bytes; `None` when it cannot be measured.
    pub size: Option<usize>,
}

/// Texts of a list of names.
pub open spec fn names_view(s: Seq<String>) -> Seq<Seq<char>> {
    s.map_values(|t: String| t@)
}

/// Names of the reported values, in order.
pub open spec fn input_names(inputs: Seq<ValueFacts>) -> Seq<Seq<char>> {
    inputs.map_values(|i: ValueFacts| i.name@)
}

/// Measured sizes of the reported values, in order.
pub open spec fn input_sizes(inputs: Seq<ValueFacts>) -> Seq<Option<usize>> {
    inputs.map_values(|i: ValueFacts| i.size)
}

/// The supplied inputs and resources fit the root declaration: the same
/// input names in key order, every value of its declared type and measured
/// within `value_bytes`, and the same (name, type) resources in key order.
pub open spec fn root_matches(declared_inputs: Seq<String>, inputs: Seq<ValueFacts>, declared_resources: Seq<(String, String)>,
    resources: Seq<(String, String)>, value_bytes: usize) -> bool {
    &&& names_view(declared_inputs) == input_names(inputs)
    &&& forall|i: int| 0 <= i < inputs.len() ==> (#[trigger] inputs[i]).matches_type
        && (inputs[i].size matches Some(n) && n <= value_bytes)
    &&& pairs_view(declared_resources) == pairs_view(resources)
}

/// Whether reported values and resources fit a declaration:
/// `root_matches` computed.
pub fn fits_declaration(declared_names: &Vec<String>, values: &Vec<ValueFacts>, declared_resources: &Vec<(String, String)>,
    resources: &Vec<(String, String)>, value_bytes: usize) -> (b: bool)
    ensures
        b == root_matches(declared_names@, values@, declared_resources@, resources@, value_bytes),
{
    if declared_names.len() != values.len() || declared_resources.len() != resources.len() {
        proof {
            assert(names_view(declared_names@).len() == declared_names@.len());
            assert(input_names(values@).len() == values@.len());
            assert(pairs_view(declared_resources@).len() == declared_resources@.len());
            assert(pairs_view(resources@).len() == resources@.len());
        }
        return false;
    }
    let mut i: usize = 0;
    while i < values.len()
        invariant
            i <= values@.len(),
            declared_names@.len() == values@.len(),
            declared_resources@.len() == resources@.len(),
            forall|j: int| 0 <= j < i ==> declared_names@[j]@ == (#[trigger] values@[j]).name@ && values@[j].matches_type
                && (values@[j].size matches Some(n) && n <= value_bytes),
        decreases values@.len() - i,
    {
        let item = &values[i];
        let ok = text_equal(declared_names[i].as_str(), item.name.as_str()) && item.matches_type
            && match item.size { Some(n) => n <= value_bytes, None => false };
        if !ok {
            proof {
                assert(names_view(declared_names@)[i as int] == declared_names@[i as int]@);
                assert(input_names(values@)[i as int] == values@[i as int].name@);
                if names_view(declared_names@) == input_names(values@) {
                    assert(declared_names@[i as int]@ == values@[i as int].name@);
                    assert(!(values@[i as int].matches_type
                        && (values@[i as int].size matches Some(n) && n <= value_bytes)));
                }
            }
            return false;
        }
        i += 1;
    }
    assert(names_view(declared_names@) =~= input_names(values@));
    let mut k: usize = 0;
    while k < resources.len()
        invariant
            k <= resources@.len(),
            declared_resources@.len() == resources@.len(),
            names_view(declared_names@) == input_names(values@),
            forall|j: int| 0 <= j < values@.len() ==> (#[trigger] values@[j]).matches_type
                && (values@[j].size matches Some(n) && n <= value_bytes),
            forall|j: int| 0 <= j < k ==> (#[trigger] declared_resources@[j]).0@ == resources@[j].0@
                && declared_resources@[j].1@ == resources@[j].1@,
        decreases resources@.len() - k,
    {
        if !text_equal(declared_resources[k].0.as_str(), resources[k].0.as_str())
            || !text_equal(declared_resources[k].1.as_str(), resources[k].1.as_str()) {
            proof {
                assert(pairs_view(declared_resources@)[k as int] == (declared_resources@[k as int].0@, declared_resources@[k as int].1@));
                assert(pairs_view(resources@)[k as int] == (resources@[k as int].0@, resources@[k as int].1@));
                assert(pairs_view(declared_resources@) != pairs_view(resources@));
            }
            return false;
        }
        k += 1;
    }
    assert(pairs_view(declared_resources@) =~= pairs_view(resources@));
    true
}

/// Admits a run: its budgets must be supported (a `Limit` failure), its
/// inputs and resources must fit the root declaration (a `Contract`
/// failure), and their total size must fit the data budget (a `Limit`
/// failure). Names come in key order, as sorted maps give them.
pub fn admit_run(declared_inputs: &Vec<String>, inputs: &Vec<ValueFacts>, declared_resources: &Vec<(String, String)>,
    resources: &Vec<(String, String)>, options: &RunOptions) -> (r: Result<(), RunError>)
    ensures
        r is Ok <==> budgets_supported(*options)
            && root_matches(declared_inputs@, inputs@, declared_resources@, resources@, options.value_bytes)
            && measured_total(input_sizes(inputs@)).unwrap() <= options.data_bytes,
        r matches Err(e) ==> if !budgets_supported(*options) {
            e.kind == ErrorKind::Limit && e.message@ == "运行预算超出支持范围"@
        } else if !root_matches(declared_inputs@, inputs@, declared_resources@, resources@, options.value_bytes) {
            e.kind == ErrorKind::Contract && e.message@ == "运行输入或资源不满足根声明"@
        } else {
            e.kind == ErrorKind::Limit && e.message@ == "输入数据超过总预算"@
        },
{
    match options.validate() {
        Ok(()) => {},
        Err(e) => { return Err(e); },
    }
    if !fits_declaration(declared_inputs, inputs, declared_resources, resources, options.value_bytes) {
        return Err(RunError::new(ErrorKind::Contract, String::from_str("运行输入或资源不满足根声明")));
    }
    let mut sizes: Vec<Option<usize>> = Vec::new();
    let mut i: usize = 0;
    while i < inputs.len()
        invariant
            i <= inputs@.len(),
            sizes@ == input_sizes(inputs@).take(i as int),
        decreases inputs@.len() - i,
    {
        sizes.push(inputs[i].size);
        assert(input_sizes(inputs@).take(i + 1) =~= input_sizes(inputs@).take(i as int).push(inputs@[i as int].size));
        i += 1;
    }
    assert(input_sizes(inputs@).take(i as int) =~= input_sizes(inputs@));
    proof {
        assert forall|j: int| 0 <= j < sizes@.len() implies (#[trigger] sizes@[j] matches Some(n) && n <= options.value_bytes) by {
            assert(sizes@[j] == inputs@[j].size);
        }
    }
    check_input_budget(&sizes, options)
}

/// Lifecycle state of a run.
#[derive(Debug, Clone, Copy, PartialEq, Eq, Structural)]
pub enum RunStatus {
    /// Executing.
    Running,
    /// Completing the final cleanup.
    Cleaning,
    /// Execution and cleanup both succeeded.
    Completed,
    /// Execution or cleanup failed.
    Failed,
    /// The user requested cancellation.
    Cancelled,
    /// The total limit or an unhandled local limit elapsed.
    TimedOut,
}

/// Final status of a run from the kind of its primary error, if any.
pub fn final_status(error: Option<ErrorKind>) -> (s: RunStatus)
    ensures
        error is None ==> s == RunStatus::Completed,
        error == Some(ErrorKind::Cancelled) ==> s == RunStatus::Cancelled,
        (error == Some(ErrorKind::Timeout) || error == Some(ErrorKind::RunTimeout)) ==> s == RunStatus::TimedOut,
        (error matches Some(k) && k != ErrorKind::Cancelled && k != ErrorKind::Timeout
            && k != ErrorKind::RunTimeout) ==> s == RunStatus::Failed,
{
    match error {
        None => RunStatus::Completed,
        Some(ErrorKind::Cancelled) => RunStatus::Cancelled,
        Some(ErrorKind::Timeout) | Some(ErrorKind::RunTimeout) => RunStatus::TimedOut,
        Some(_) => RunStatus::Failed,
    }
}

/// Kind of an event; events carry no business data.
#[derive(Debug, Clone, Copy, PartialEq, Eq, Structural)]
pub enum EventKind {
    /// The root run started.
    RunStarted,
    /// A local activation frame was entered.
    ScopeEntered,
    /// A node started.
    NodeStarted,
    /// A node result was published.
    NodeCompleted,
    /// A node failed or a structure propagated a failure.
    NodeFailed,
    /// The next safe retry.
    Retrying {
        /// One-based attempt number.
        attempt: u32,
    },
    /// A frame was exited; cleanup errors stay in the final result.
    ScopeExited,
    /// The run finished.
    RunFinished,
}

/// A bounded observation event, ordered by a gap-free sequence number.
#[derive(Debug)]
pub struct ExecutionEvent {
    /// Run it belongs to.
    pub run_id: u64,
    /// Consecutive sequence number within the run.
    pub sequence: u64,
    /// Scope instances, node execution numbers and the real call path.
    pub path: Vec<ExecutionLocation>,
    /// What happened.
    pub kind: EventKind,
}

/// Explicit result of reading a bounded event subscription.
#[derive(Debug)]
pub enum EventRead {
    /// A complete event.
    Event(ExecutionEvent),
    /// The consumer was too slow; this many events were lost.
    Gap(u64),
    /// The event source of the run is closed.
    Closed,
}

/// Largest number of simultaneously running runs an engine accepts.
pub const MAX_ENGINE_RUNS: usize = 128;
/// Largest number of owned resources an engine accepts.
pub const MAX_ENGINE_RESOURCES: usize = 4096;

/// Quotas of an engine: concurrently active runs and owned resources.
#[derive(Debug, Clone, Copy, PartialEq, Eq, Structural)]
pub struct EngineQuota {
    /// Concurrently active runs.
    pub max_runs: u32,
    /// Owned resources, including resources whose cleanup failed.
    pub max_resources: usize,
}

impl EngineQuota {
    /// At most eight runs and sixty-four owned resources.
    pub fn default_quota() -> (q: EngineQuota)
        ensures
            q.max_runs == 8 && q.max_resources == 64,
    {
        EngineQuota { max_runs: 8, max_resources: 64 }
    }

    /// Explicit quotas; both must lie in `1..=128` and `1..=4096`.
    pub fn with_limits(max_runs: usize, max_resources: usize) -> (r: Result<EngineQuota, RunError>)
        ensures
            r is Ok <==> (1 <= max_runs <= MAX_ENGINE_RUNS && 1 <= max_resources <= MAX_ENGINE_RESOURCES),
            r matches Ok(q) ==> q.max_runs == max_runs && q.max_resources == max_resources,
            r matches Err(e) ==> e.kind == ErrorKind::Limit,
    {
        if max_runs == 0 || max_runs > MAX_ENGINE_RUNS || max_resources == 0 || max_resources > MAX_ENGINE_RESOURCES {
            return Err(RunError::new(ErrorKind::Limit, String::from_str("引擎额度超出范围")));
        }
        Ok(EngineQuota { max_runs: max_runs as u32, max_resources })
    }
}

} // verus!
