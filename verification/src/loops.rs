//! While activation frames with explicit iteration and time budgets.

use vstd::prelude::*;
use vstd::string::*;
use crate::options::{TimeSpan, NANOS_PER_MILLI};

verus! {

/// One active While container on the execution stack.
#[derive(Debug)]
pub struct LoopFrame {
    /// Parent scope holding the container.
    pub parent_scope_id: String,
    /// Container node ID in the parent scope.
    pub container_node_id: String,
    /// Child scope executed by every iteration.
    pub body_scope_id: String,
    /// Most iterations of one activation.
    pub max_iterations: u32,
    /// Total time budget of the activation.
    pub timeout: TimeSpan,
    /// Pause before every iteration after the first.
    pub interval: TimeSpan,
    /// Iterations started so far.
    pub iterations: u32,
}

impl LoopFrame {
    /// Iterations started so far.
    pub open spec fn started(&self) -> nat {
        self.iterations as nat
    }

    /// Time budget of the activation.
    pub open spec fn budget(&self) -> TimeSpan {
        self.timeout
    }

    /// Pause between iterations.
    pub open spec fn pause(&self) -> TimeSpan {
        self.interval
    }

    /// An activation never starts more iterations than its limit, except the
    /// first iteration, which always runs.
    pub open spec fn wf(&self) -> bool {
        self.started() <= iteration_cap(self.limit())
    }

    /// Iteration limit of the activation.
    pub open spec fn limit(&self) -> u32 {
        self.max_iterations
    }

    /// A fresh activation; a re-entered inner loop always gets its own frame.
    pub fn new(
        parent_scope_id: String,
        container_node_id: String,
        body_scope_id: String,
        max_iterations: u32,
        timeout_ms: u64,
        interval_ms: u64,
    ) -> (f: LoopFrame)
        ensures
            f.parent_scope_id@ == parent_scope_id@,
            f.container_node_id@ == container_node_id@,
            f.body_scope_id@ == body_scope_id@,
            f.max_iterations == max_iterations,
            f.limit() == max_iterations,
            f.budget().nanos == timeout_ms * NANOS_PER_MILLI,
            f.pause().nanos == interval_ms * NANOS_PER_MILLI,
            f.started() == 0,
            f.wf(),
    {
        LoopFrame {
            parent_scope_id,
            container_node_id,
            body_scope_id,
            max_iterations,
            timeout: TimeSpan::from_millis(timeout_ms),
            interval: TimeSpan::from_millis(interval_ms),
            iterations: 0,
        }
    }

    /// Iterations started so far.
    pub fn iterations(&self) -> (n: u32)
        ensures
            n == self.started(),
    {
        self.iterations
    }

    /// The pause to wait before trying the next iteration: none before the
    /// first iteration or when the interval is zero.
    pub fn pause_before_next(&self) -> (p: Option<TimeSpan>)
        ensures
            p == (if self.started() > 0 && self.pause().nanos != 0 { Some(self.pause()) } else { None::<TimeSpan> }),
    {
        if self.iterations > 0 && !self.interval.is_zero() {
            Some(self.interval)
        } else {
            None
        }
    }

    /// Tries to start the next iteration, `elapsed` being the time since the
    /// activation began. The first iteration always starts; a later one starts
    /// only while both the iteration and the time budget remain.
    pub fn begin_next_iteration(&mut self, elapsed: TimeSpan) -> (r: Option<u32>)
        requires
            old(self).wf(),
        ensures
            final(self).wf(),
            final(self).parent_scope_id@ == old(self).parent_scope_id@,
            final(self).container_node_id@ == old(self).container_node_id@,
            final(self).body_scope_id@ == old(self).body_scope_id@,
            final(self).max_iterations == old(self).max_iterations,
            final(self).limit() == old(self).limit(),
            old(self).limit() == old(self).max_iterations,
            final(self).budget() == old(self).budget(),
            final(self).pause() == old(self).pause(),
            (final(self).started(), r) == frame_step(old(self).started(), old(self).limit(), old(self).budget(), elapsed),
            if old(self).started() > 0 && (old(self).started() >= old(self).limit()
                || elapsed.nanos >= old(self).budget().nanos) {
                r is None && final(self).started() == old(self).started()
            } else {
                final(self).started() == old(self).started() + 1 && r == Some(final(self).started() as u32)
            },
    {
        if self.iterations > 0 && (self.iterations >= self.max_iterations || elapsed.nanos >= self.timeout.nanos) {
            return None;
        }
        self.iterations = self.iterations + 1;
        Some(self.iterations)
    }
}

/// Most iterations an activation with limit `max` may start: the first always runs.
pub open spec fn iteration_cap(max: u32) -> nat {
    if max == 0 { 1 } else { max as nat }
}

/// A loop gate's configuration is accepted when it starts 1 to 10 000
/// iterations, runs 1 to 600 000 ms and pauses at most 60 000 ms.
pub open spec fn loop_config_accepted(max_iterations: u32, timeout_ms: u64, interval_ms: u64) -> bool {
    1 <= max_iterations <= 10_000 && 1 <= timeout_ms <= 600_000 && interval_ms <= 60_000
}

/// Checks a loop gate's iteration, time and pause bounds.
pub fn loop_config_valid(max_iterations: u32, timeout_ms: u64, interval_ms: u64) -> (b: bool)
    ensures
        b == loop_config_accepted(max_iterations, timeout_ms, interval_ms),
{
    1 <= max_iterations && max_iterations <= 10_000 && 1 <= timeout_ms && timeout_ms <= 600_000
        && interval_ms <= 60_000
}

/// Law: a budget-respecting activation keeps starting iterations exactly
/// until its iteration limit is reached, then stops for good.
pub proof fn lemma_activation_stops_at_limit(started: nat, max_iterations: u32)
    requires
        max_iterations >= 1,
        started <= max_iterations,
    ensures
        (started > 0 && started >= max_iterations) <==> started == max_iterations,
{
}

/// One attempt to start an iteration: the iterations started afterwards and
/// the iteration number started, if any. The first iteration always starts;
/// a later one only while both the iteration and the time budget remain.
pub open spec fn frame_step(started: nat, limit: u32, budget: TimeSpan, elapsed: TimeSpan) -> (nat, Option<u32>) {
    if started > 0 && (started >= limit || elapsed.nanos >= budget.nanos) {
        (started, None)
    } else {
        (started + 1, Some((started + 1) as u32))
    }
}

/// Successive attempts on one activation, `elapsed[i]` being the time since
/// the activation began at the `i`-th attempt: the iterations started in the
/// end and each attempt's result, in call order.
pub open spec fn frame_run(started: nat, limit: u32, budget: TimeSpan, elapsed: Seq<TimeSpan>) -> (nat, Seq<Option<u32>>)
    decreases elapsed.len(),
{
    if elapsed.len() == 0 {
        (started, Seq::empty())
    } else {
        let (n, rs) = frame_run(started, limit, budget, elapsed.drop_last());
        let (n2, r) = frame_step(n, limit, budget, elapsed.last());
        (n2, rs.push(r))
    }
}

/// Times that never go backwards.
pub open spec fn non_decreasing(t: Seq<TimeSpan>) -> bool {
    forall|i: int, j: int| 0 <= i <= j < t.len() ==> (#[trigger] t[i]).nanos <= (#[trigger] t[j]).nanos
}

/// Law: on a fresh activation whose elapsed time never goes backwards, the
/// attempts that start an iteration come first and return 1, 2, ..., k in
/// order, every later attempt starts nothing, the activation then counts
/// exactly k iterations, and k never exceeds the limit (the first iteration
/// always runs); an attempt starts nothing only once an iteration ran and
/// the iteration or time budget is used up.
pub proof fn lemma_iterations_count_up(limit: u32, budget: TimeSpan, elapsed: Seq<TimeSpan>) -> (k: nat)
    requires
        non_decreasing(elapsed),
    ensures
        k <= elapsed.len(),
        k <= iteration_cap(limit),
        frame_run(0, limit, budget, elapsed).0 == k,
        forall|i: int| 0 <= i < k ==> frame_run(0, limit, budget, elapsed).1[i] == Some((i + 1) as u32),
        forall|i: int| k <= i < elapsed.len() ==> frame_run(0, limit, budget, elapsed).1[i] is None,
        frame_run(0, limit, budget, elapsed).1.len() == elapsed.len(),
        k < elapsed.len() ==> k > 0 && (k >= limit || elapsed[k as int].nanos >= budget.nanos),
    decreases elapsed.len(),
{
    if elapsed.len() == 0 {
        0
    } else {
        let d = elapsed.drop_last();
        assert forall|i: int, j: int| 0 <= i <= j < d.len() implies (#[trigger] d[i]).nanos <= (#[trigger] d[j]).nanos by {
            assert(d[i] == elapsed[i] && d[j] == elapsed[j]);
        }
        let k0 = lemma_iterations_count_up(limit, budget, d);
        let last = elapsed.len() - 1;
        assert(elapsed.last() == elapsed[last]);
        if k0 < d.len() {
            assert(d[k0 as int] == elapsed[k0 as int]);
            assert(elapsed[k0 as int].nanos <= elapsed[last].nanos);
            k0
        } else {
            if k0 > 0 && (k0 >= limit || elapsed[last].nanos >= budget.nanos) {
                k0
            } else {
                k0 + 1
            }
        }
    }
}

/// Number of attempts that started an iteration.
pub open spec fn some_count(rs: Seq<Option<u32>>) -> nat
    decreases rs.len(),
{
    if rs.len() == 0 {
        0
    } else {
        some_count(rs.drop_last()) + if rs.last() is Some { 1nat } else { 0nat }
    }
}

/// Law: whatever the elapsed times, an attempt that starts an iteration
/// returns one more than the iterations started before it, the activation
/// counts exactly the attempts that started one, and never more than its cap.
pub proof fn lemma_iterations_numbered(limit: u32, budget: TimeSpan, elapsed: Seq<TimeSpan>)
    ensures
        frame_run(0, limit, budget, elapsed).1.len() == elapsed.len(),
        frame_run(0, limit, budget, elapsed).0 == some_count(frame_run(0, limit, budget, elapsed).1),
        frame_run(0, limit, budget, elapsed).0 <= iteration_cap(limit),
        forall|i: int| 0 <= i < elapsed.len() ==> (#[trigger] frame_run(0, limit, budget, elapsed).1[i] matches Some(v)
            ==> v == some_count(frame_run(0, limit, budget, elapsed).1.take(i)) + 1),
    decreases elapsed.len(),
{
    if elapsed.len() > 0 {
        let d = elapsed.drop_last();
        lemma_iterations_numbered(limit, budget, d);
        let (n, rs) = frame_run(0, limit, budget, d);
        let (n2, r) = frame_step(n, limit, budget, elapsed.last());
        let all = rs.push(r);
        assert(all.drop_last() =~= rs);
        assert forall|i: int| 0 <= i < elapsed.len() implies (#[trigger] all[i] matches Some(v)
            ==> v == some_count(all.take(i)) + 1) by {
            if i < rs.len() {
                assert(all[i] == rs[i]);
                assert(all.take(i) =~= rs.take(i));
            } else {
                assert(all.take(i) =~= rs);
            }
        }
    }
}

} // verus!
