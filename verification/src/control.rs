//! Structured control transfer between activation frames: how a finished
//! child scope resumes its structure node, how Try/Catch/Finally treat the
//! first failure, retry gating, and the frame and step budgets.
//!
//! The first failure of a run is never replaced: every later failure is kept
//! as a secondary failure of it.

use vstd::prelude::*;
use vstd::string::*;
use crate::errors::{fails_with, Effect, ErrorKind, RunError};
use crate::text::owned;
use crate::options::{TimeSpan, NANOS_PER_MILLI, NANOS_PER_SEC};

verus! {

/// Control transfer leaving a scope; `V` is the run's data value record.
#[derive(Debug)]
pub enum Signal<V> {
    /// The scope ran to its end with these outputs.
    Complete(V),
    /// A Return left the call with these outputs.
    Return(V),
    /// A Break left the innermost loop body.
    Break,
    /// A Continue ended the current loop iteration.
    Continue,
    /// A failure.
    Error(RunError),
}

/// Phase of a Try structure.
#[derive(Debug, Clone, Copy, PartialEq, Eq, Structural)]
pub enum TryStage {
    /// The protected body runs.
    Body,
    /// A Catch handler runs.
    Catch,
    /// The Finally scope runs.
    Finally,
}

/// What a structure node waits for while its child scope runs.
#[derive(Debug)]
pub enum NodeState<V> {
    /// No child scope is pending.
    Ready,
    /// A Block, If or Switch child runs.
    Child,
    /// A called subflow runs.
    Call,
    /// A loop body runs.
    Loop {
        /// Iterations started.
        iterations: u32,
        /// ForEach snapshot of the items.
        items: Option<Vec<V>>,
    },
    /// A Try phase runs.
    Try {
        /// Current phase.
        stage: TryStage,
        /// Control transfer held back while Finally runs.
        pending: Option<Signal<V>>,
    },
}

/// What the runner does after a child scope left with a signal.
#[derive(Debug)]
pub enum Resumption<V> {
    /// Publish the structure node's outputs and move past it; `None`
    /// publishes no outputs.
    CompleteNode(Option<V>),
    /// Propagate the signal out of the current frame as well.
    Leave(Signal<V>),
    /// Go on looping with the restored loop state.
    KeepLooping {
        /// Iterations started.
        iterations: u32,
        /// ForEach snapshot.
        items: Option<Vec<V>>,
    },
    /// Continue with the Try protocol.
    ResumeTry {
        /// Phase that finished.
        stage: TryStage,
        /// Held-back control transfer.
        pending: Option<Signal<V>>,
        /// Signal the phase left with.
        signal: Signal<V>,
    },
    /// The frame is inconsistent.
    Fail(RunError),
}

/// How a structure node resumes when its child scope leaves with `signal`:
/// blocks complete only normally; calls complete normally or by Return and
/// refuse Break/Continue across the call boundary; loops end on Break and go
/// on after Continue or a finished body; anything else propagates.
pub fn resume_decision<V>(state: NodeState<V>, signal: Signal<V>) -> (r: Resumption<V>)
    ensures
        match (state, signal) {
            (NodeState::Ready, _) => r matches Resumption::Fail(e) && e.kind == ErrorKind::Contract,
            (NodeState::Child, Signal::Complete(v)) => r == Resumption::CompleteNode(Some(v)),
            (NodeState::Child, s) => r == Resumption::Leave(s),
            (NodeState::Call, Signal::Complete(v)) => r == Resumption::CompleteNode(Some(v)),
            (NodeState::Call, Signal::Return(v)) => r == Resumption::CompleteNode(Some(v)),
            (NodeState::Call, Signal::Break) => r matches Resumption::Fail(e) && e.kind == ErrorKind::Contract,
            (NodeState::Call, Signal::Continue) => r matches Resumption::Fail(e) && e.kind == ErrorKind::Contract,
            (NodeState::Call, s) => r == Resumption::Leave(s),
            (NodeState::Loop { .. }, Signal::Break) => r == Resumption::<V>::CompleteNode(None),
            (NodeState::Loop { iterations, items }, Signal::Continue) => r == Resumption::KeepLooping { iterations, items },
            (NodeState::Loop { iterations, items }, Signal::Complete(_)) => r == Resumption::KeepLooping { iterations, items },
            (NodeState::Loop { .. }, s) => r == Resumption::Leave(s),
            (NodeState::Try { stage, pending }, s) => r == Resumption::ResumeTry { stage, pending, signal: s },
        },
{
    match state {
        NodeState::Ready => Resumption::Fail(RunError::new(ErrorKind::Contract, owned("无结构节点接收子作用域结果"))),
        NodeState::Child => match signal {
            Signal::Complete(v) => Resumption::CompleteNode(Some(v)),
            s => Resumption::Leave(s),
        },
        NodeState::Call => match signal {
            Signal::Complete(v) => Resumption::CompleteNode(Some(v)),
            Signal::Return(v) => Resumption::CompleteNode(Some(v)),
            Signal::Break | Signal::Continue => Resumption::Fail(
                RunError::new(ErrorKind::Contract, owned("循环跳转不能越过子流程边界")),
            ),
            s => Resumption::Leave(s),
        },
        NodeState::Loop { iterations, items } => match signal {
            Signal::Break => Resumption::CompleteNode(None),
            Signal::Continue | Signal::Complete(_) => Resumption::KeepLooping { iterations, items },
            s => Resumption::Leave(s),
        },
        NodeState::Try { stage, pending } => Resumption::ResumeTry { stage, pending, signal },
    }
}

/// Records a later failure without losing the first one.
pub fn merge_failure<V>(signal: Signal<V>, failure: RunError) -> (r: Signal<V>)
    ensures
        match signal {
            Signal::Error(p) => r matches Signal::Error(q) && q.kind == p.kind && q.message@ == p.message@
                && q.effect == p.effect && q.path@ == p.path@ && q.secondary@ == p.secondary@.push(failure),
            _ => r == Signal::<V>::Error(failure),
        },
{
    match signal {
        Signal::Error(mut primary) => {
            primary.secondary.push(failure);
            Signal::Error(primary)
        },
        _ => Signal::Error(failure),
    }
}

/// Law: however many later failures are recorded, the first one keeps its
/// kind, message, effect and path, and the later ones are kept in order.
pub proof fn lemma_first_failure_kept<V>(p: RunError, q: RunError, failure: RunError)
    requires
        q.kind == p.kind && q.message@ == p.message@ && q.effect == p.effect && q.path@ == p.path@
            && q.secondary@ == p.secondary@.push(failure),
    ensures
        q.kind == p.kind,
        q.secondary@.len() == p.secondary@.len() + 1,
        q.secondary@.last() == failure,
        q.secondary@.take(p.secondary@.len() as int) == p.secondary@,
{
    assert(q.secondary@.take(p.secondary@.len() as int) =~= p.secondary@);
}

/// Next step of a Try structure once one of its phases finished.
#[derive(Debug)]
pub enum TryDecision<V> {
    /// Finish the Try with this signal.
    Finish(Signal<V>),
    /// Enter the Catch handler `index` with an error record of `kind` and
    /// `code`; if entering fails, merge that failure into `signal` and unwind.
    Catch {
        /// Index of the first handler that lists the error kind.
        index: usize,
        /// Error kind handed to the handler.
        kind: ErrorKind,
        /// User error code, empty for other kinds.
        code: String,
        /// The caught signal.
        signal: Signal<V>,
    },
    /// Run Finally when present, holding back this signal; otherwise finish with it.
    Unwind(Signal<V>),
    /// Finally finished without a held-back signal.
    Broken(RunError),
}

/// Index of the first handler whose kinds contain `kind`.
pub open spec fn first_handler(catches: Seq<Vec<ErrorKind>>, kind: ErrorKind, i: int) -> bool {
    0 <= i < catches.len() && catches[i]@.contains(kind)
        && forall|j: int| 0 <= j < i ==> !(#[trigger] catches[j])@.contains(kind)
}

/// Finds the first handler for `kind`.
pub fn find_handler(catches: &Vec<Vec<ErrorKind>>, kind: ErrorKind) -> (r: Option<usize>)
    ensures
        match r {
            Some(i) => first_handler(catches@, kind, i as int),
            None => forall|j: int| 0 <= j < catches@.len() ==> !(#[trigger] catches@[j])@.contains(kind),
        },
{
    let mut i: usize = 0;
    while i < catches.len()
        invariant
            i <= catches@.len(),
            forall|j: int| 0 <= j < i ==> !(#[trigger] catches@[j])@.contains(kind),
        decreases catches@.len() - i,
    {
        let kinds = &catches[i];
        let mut k: usize = 0;
        while k < kinds.len()
            invariant
                i < catches@.len(),
                kinds == catches@[i as int],
                forall|j: int| 0 <= j < i ==> !(#[trigger] catches@[j])@.contains(kind),
                k <= kinds@.len(),
                forall|j: int| 0 <= j < k ==> kinds@[j] != kind,
            decreases kinds@.len() - k,
        {
            if kinds[k] == kind {
                assert(catches@[i as int]@[k as int] == kind);
                assert(catches@[i as int]@.contains(kind));
                return Some(i);
            }
            k += 1;
        }
        assert(!kinds@.contains(kind));
        i += 1;
    }
    None
}

/// Decides how a Try goes on after its `stage` finished with `signal`.
///
/// `check` is the failure of the parent budget check (cancellation or time
/// out), if any; `catchable` tells whether the failure in `signal` may be
/// caught. After Finally, the held-back signal is finished, a Finally failure
/// being merged into it. A handler is entered only after the body, only for
/// a catchable failure and only while the parent budget holds; the first
/// handler that lists the kind wins. A budget failure is merged into a
/// catchable failure, ignored beside an uncatchable one, and replaces any
/// other signal.
pub fn resume_try_decision<V>(
    stage: TryStage,
    pending: Option<Signal<V>>,
    signal: Signal<V>,
    check: Option<RunError>,
    catchable: bool,
    catches: &Vec<Vec<ErrorKind>>,
) -> (r: TryDecision<V>)
    ensures
        stage == TryStage::Finally ==> match pending {
            None => r matches TryDecision::Broken(e) && e.kind == ErrorKind::Contract,
            Some(p) => match signal {
                Signal::Error(f) => match p {
                    Signal::Error(orig) => r matches TryDecision::Finish(Signal::Error(q)) && q.kind == orig.kind
                        && q.message@ == orig.message@ && q.secondary@ == orig.secondary@.push(f),
                    _ => r == TryDecision::Finish(Signal::<V>::Error(f)),
                },
                _ => r == TryDecision::Finish(p),
            },
        },
        stage != TryStage::Finally && check is Some ==> match (signal, check) {
            (Signal::Error(p), Some(c)) => if catchable {
                r matches TryDecision::Unwind(Signal::Error(q)) && q.kind == p.kind && q.message@ == p.message@
                    && q.secondary@ == p.secondary@.push(c)
            } else {
                r == TryDecision::Unwind(Signal::<V>::Error(p))
            },
            (_, Some(c)) => r == TryDecision::Unwind(Signal::<V>::Error(c)),
            _ => false,
        },
        stage != TryStage::Finally && check is None ==> match signal {
            Signal::Error(p) => if stage == TryStage::Body && catchable
                && exists|i: int| first_handler(catches@, p.kind, i) {
                r matches TryDecision::Catch { index, kind, code, signal: s } && first_handler(catches@, p.kind, index as int)
                    && kind == p.kind
                    && code@ == (if p.kind == ErrorKind::User { p.message@ } else { Seq::<char>::empty() })
                    && s == Signal::<V>::Error(p)
            } else {
                r == TryDecision::Unwind(Signal::<V>::Error(p))
            },
            s => r == TryDecision::Unwind(s),
        },
{
    if stage == TryStage::Finally {
        return match pending {
            None => TryDecision::Broken(RunError::new(ErrorKind::Contract, owned("Finally 缺少待完成控制状态"))),
            Some(primary) => match signal {
                Signal::Error(failure) => TryDecision::Finish(merge_failure(primary, failure)),
                _ => TryDecision::Finish(primary),
            },
        };
    }
    match check {
        Some(failure) => {
            let signal = match signal {
                Signal::Error(primary) => {
                    if catchable {
                        merge_failure(Signal::Error(primary), failure)
                    } else {
                        Signal::Error(primary)
                    }
                },
                _ => Signal::Error(failure),
            };
            TryDecision::Unwind(signal)
        },
        None => match signal {
            Signal::Error(error) => {
                if stage == TryStage::Body && catchable {
                    match find_handler(catches, error.kind) {
                        Some(index) => {
                            let code = if error.kind == ErrorKind::User { error.message.clone() } else { String::new() };
                            TryDecision::Catch { index, kind: error.kind, code, signal: Signal::Error(error) }
                        },
                        None => TryDecision::Unwind(Signal::Error(error)),
                    }
                } else {
                    TryDecision::Unwind(Signal::Error(error))
                }
            },
            s => TryDecision::Unwind(s),
        },
    }
}

/// How a Try ends: normal completion publishes the node, anything else leaves.
pub fn finish_try<V>(signal: Signal<V>) -> (r: Resumption<V>)
    ensures
        match signal {
            Signal::Complete(v) => r == Resumption::CompleteNode(Some(v)),
            s => r == Resumption::Leave(s),
        },
{
    match signal {
        Signal::Complete(v) => Resumption::CompleteNode(Some(v)),
        s => Resumption::Leave(s),
    }
}

/// Two failures agree in everything but their secondary failures.
pub open spec fn same_head(q: RunError, p: RunError) -> bool {
    q.kind == p.kind && q.message@ == p.message@ && q.effect == p.effect && q.path@ == p.path@
}

/// How the root result is completed once the run stopped: a successful run
/// that was cancelled or ran out of time fails accordingly, and every cleanup
/// failure is kept after the primary failure, in order.
pub fn settle_result<V>(result: Result<V, RunError>, cancelled: bool, out_of_time: bool, cleanup: Vec<RunError>) -> (r: Result<V, RunError>)
    ensures
        match result {
            Err(p) => r matches Err(q) && same_head(q, p) && q.secondary@ == p.secondary@ + cleanup@,
            Ok(v) => if cancelled {
                r matches Err(q) && q.kind == ErrorKind::Cancelled && q.message@ == "运行已取消"@
                    && q.effect == Effect::NoSideEffect && q.path@.len() == 0 && q.secondary@ == cleanup@
            } else if out_of_time {
                r matches Err(q) && q.kind == ErrorKind::RunTimeout && q.message@ == "运行总时限已到"@
                    && q.effect == Effect::NoSideEffect && q.path@.len() == 0 && q.secondary@ == cleanup@
            } else if cleanup@.len() > 0 {
                r matches Err(q) && same_head(q, cleanup@[0])
                    && q.secondary@ == cleanup@[0].secondary@ + cleanup@.skip(1)
            } else {
                r == Ok::<V, RunError>(v)
            },
        },
{
    let mut result = match result {
        Ok(v) => {
            if cancelled {
                Err(RunError::new(ErrorKind::Cancelled, owned("运行已取消")))
            } else if out_of_time {
                Err(RunError::new(ErrorKind::RunTimeout, owned("运行总时限已到")))
            } else {
                Ok(v)
            }
        },
        Err(e) => Err(e),
    };
    let ghost start = result;
    let mut rest = cleanup;
    let ghost all = rest@;
    let cleanup_len = rest.len();
    let mut taken: usize = 0;
    assert(all.skip(0) =~= all);
    while rest.len() > 0
        invariant
            taken <= all.len(),
            taken + rest@.len() == all.len(),
            all.len() == cleanup_len,
            rest@ == all.skip(taken as int),
            match start {
                Err(p) => result matches Err(q) && same_head(q, p)
                    && q.secondary@ == p.secondary@ + all.take(taken as int),
                Ok(v) => if taken == 0 {
                    result == start
                } else {
                    result matches Err(q) && same_head(q, all[0])
                        && q.secondary@ == all[0].secondary@ + all.subrange(1, taken as int)
                },
            },
        decreases rest@.len(),
    {
        let error = rest.remove(0);
        assert(all.skip(taken as int)[0] == all[taken as int]);
        let ghost before = result;
        result = match result {
            Err(mut primary) => {
                primary.secondary.push(error);
                Err(primary)
            },
            Ok(_) => Err(error),
        };
        proof {
            assert(all.skip(taken as int).drop_first() =~= all.skip(taken + 1));
            assert(all.take(taken + 1) =~= all.take(taken as int).push(all[taken as int]));
            if taken > 0 {
                assert(all.subrange(1, taken + 1) =~= all.subrange(1, taken as int).push(all[taken as int]));
            } else {
                assert(all.subrange(1, 1) =~= Seq::<RunError>::empty());
            }
        }
        taken += 1;
    }
    proof {
        assert(all.take(all.len() as int) =~= all);
        if all.len() > 0 {
            assert(all.subrange(1, all.len() as int) =~= all.skip(1));
        }
    }
    result
}

/// Delay before the next attempt: the initial delay doubled per finished
/// attempt, saturating, and capped at the maximum delay.
pub open spec fn retry_delay_ms(initial_delay_ms: u64, attempt: u32, max_delay_ms: u64) -> int {
    let doubled = initial_delay_ms * vstd::arithmetic::power2::pow2((attempt - 1) as nat);
    let saturated = if doubled > u64::MAX { u64::MAX as int } else { doubled };
    if saturated < max_delay_ms { saturated } else { max_delay_ms as int }
}

/// Law: the first pause is the initial delay (at most the maximum); every
/// pause is at most the maximum; each next pause is never shorter and at
/// most twice as long, and exactly twice as long while that stays under
/// the maximum.
pub proof fn lemma_pauses_double_up_to_the_cap(initial_delay_ms: u64, attempt: u32, max_delay_ms: u64)
    requires
        1 <= attempt < u32::MAX,
    ensures
        retry_delay_ms(initial_delay_ms, 1, max_delay_ms)
            == if initial_delay_ms < max_delay_ms { initial_delay_ms as int } else { max_delay_ms as int },
        retry_delay_ms(initial_delay_ms, attempt, max_delay_ms) <= max_delay_ms,
        retry_delay_ms(initial_delay_ms, attempt, max_delay_ms)
            <= retry_delay_ms(initial_delay_ms, (attempt + 1) as u32, max_delay_ms)
            <= 2 * retry_delay_ms(initial_delay_ms, attempt, max_delay_ms),
        2 * retry_delay_ms(initial_delay_ms, attempt, max_delay_ms) < max_delay_ms ==>
            retry_delay_ms(initial_delay_ms, (attempt + 1) as u32, max_delay_ms)
                == 2 * retry_delay_ms(initial_delay_ms, attempt, max_delay_ms),
{
    let e: nat = (attempt - 1) as nat;
    let i = initial_delay_ms as int;
    vstd::arithmetic::power2::lemma_pow2_unfold(e + 1);
    assert(((attempt + 1) as u32 - 1) as nat == e + 1);
    assert(vstd::arithmetic::power2::pow2(0) == 1) by {
        vstd::arithmetic::power2::lemma2_to64();
    }
    assert(((1u32 - 1) as nat) == 0);
    assert(i * vstd::arithmetic::power2::pow2(0) == i);
    let d1 = i * vstd::arithmetic::power2::pow2(e);
    let d2 = i * vstd::arithmetic::power2::pow2(e + 1);
    assert(d2 == 2 * d1) by (nonlinear_arith)
        requires
            d2 == i * vstd::arithmetic::power2::pow2(e + 1),
            d1 == i * vstd::arithmetic::power2::pow2(e),
            vstd::arithmetic::power2::pow2(e + 1) == 2 * vstd::arithmetic::power2::pow2(e),
    ;
    assert(d1 >= 0) by (nonlinear_arith)
        requires
            d1 == i * vstd::arithmetic::power2::pow2(e),
            i >= 0,
    ;
}

/// Computes the pause before attempt `attempt + 1`.
pub fn retry_delay(initial_delay_ms: u64, attempt: u32, max_delay_ms: u64) -> (d: u64)
    requires
        1 <= attempt <= 64,
    ensures
        d == retry_delay_ms(initial_delay_ms, attempt, max_delay_ms),
{
    let shift = attempt - 1;
    let factor: u64 = 1u64 << shift;
    proof {
        vstd::arithmetic::power2::lemma_pow2_strictly_increases(shift as nat, 64);
        vstd::arithmetic::power2::lemma2_to64_rest();
        assert(factor == vstd::arithmetic::power2::pow2(shift as nat)) by {
            vstd::bits::lemma_u64_shl_is_mul(1, shift as u64);
        }
    }
    let doubled = match initial_delay_ms.checked_mul(factor) { Some(p) => p, None => u64::MAX };
    if doubled < max_delay_ms { doubled } else { max_delay_ms }
}

/// A failed attempt is retried only when the task declares that it is safe,
/// attempts remain, the failure had no side effect, is catchable and its
/// kind is listed by the retry policy.
pub open spec fn retry_allowed(safe_to_retry: bool, attempt: u32, attempts: u32, effect: Effect, catchable: bool, listed: bool) -> bool {
    safe_to_retry && attempt < attempts && effect == Effect::NoSideEffect && catchable && listed
}

/// Decides whether a failed attempt is retried.
pub fn should_retry(safe_to_retry: bool, attempt: u32, attempts: u32, error: &RunError, catchable: bool, retry_errors: &Vec<ErrorKind>) -> (b: bool)
    ensures
        b == retry_allowed(safe_to_retry, attempt, attempts, error.effect, catchable, retry_errors@.contains(error.kind)),
{
    if !(safe_to_retry && attempt < attempts && error.effect == Effect::NoSideEffect && catchable) {
        return false;
    }
    let mut k: usize = 0;
    while k < retry_errors.len()
        invariant
            k <= retry_errors@.len(),
            safe_to_retry && attempt < attempts && error.effect == Effect::NoSideEffect && catchable,
            forall|j: int| 0 <= j < k ==> retry_errors@[j] != error.kind,
        decreases retry_errors@.len() - k,
    {
        if retry_errors[k] == error.kind {
            assert(retry_errors@[k as int] == error.kind);
            assert(retry_errors@.contains(error.kind));
            return true;
        }
        k += 1;
    }
    false
}

/// A retry policy is accepted when the task is safe to retry, creates no
/// resources, allows 1 to 10 attempts, has an initial delay not above a
/// maximum of at most 60 000 ms, and lists at least one error kind, all of
/// them catchable.
pub open spec fn retry_policy_accepted(safe_to_retry: bool, creates_resources: bool, max_attempts: u32,
    initial_delay_ms: u64, max_delay_ms: u64, error_count: nat, all_catchable: bool) -> bool {
    safe_to_retry && !creates_resources && 1 <= max_attempts <= 10 && initial_delay_ms <= max_delay_ms
        && max_delay_ms <= 60_000 && error_count > 0 && all_catchable
}

/// Checks a task's retry policy.
pub fn retry_policy_valid(safe_to_retry: bool, creates_resources: bool, max_attempts: u32,
    initial_delay_ms: u64, max_delay_ms: u64, errors: &Vec<ErrorKind>, all_catchable: bool) -> (b: bool)
    ensures
        b == retry_policy_accepted(safe_to_retry, creates_resources, max_attempts, initial_delay_ms,
            max_delay_ms, errors@.len(), all_catchable),
{
    !(!safe_to_retry || creates_resources || max_attempts == 0 || max_attempts > 10
        || initial_delay_ms > max_delay_ms || max_delay_ms > 60_000 || errors.len() == 0 || !all_catchable)
}

/// Largest active frame count; frames entered for cleanup get 64 more so
/// that a Finally still runs when ordinary frames are exhausted.
pub open spec fn frame_limit(max_depth: usize, cleanup_mode: bool) -> int {
    max_depth + if cleanup_mode { 64int } else { 0int }
}

/// Checks that one more frame may be pushed.
pub fn check_frame_budget(frames: usize, max_depth: usize, cleanup_mode: bool) -> (r: Result<(), RunError>)
    ensures
        r is Ok <==> frames < frame_limit(max_depth, cleanup_mode),
        r matches Err(e) ==> e.kind == ErrorKind::Limit && e.message@ == "活动调用帧超过预算"@,
{
    let over = if cleanup_mode { frames >= max_depth && frames - max_depth >= 64 } else { frames >= max_depth };
    if over {
        Err(RunError::new(ErrorKind::Limit, owned("活动调用帧超过预算")))
    } else {
        Ok(())
    }
}

/// Step counters of a run: ordinary node executions and cleanup steps.
#[derive(Debug, Clone, Copy, PartialEq, Eq, Structural)]
pub struct StepBudget {
    /// Ordinary node executions so far.
    pub steps: u64,
    /// Steps run in cleanup frames so far.
    pub cleanup_steps: u64,
}

/// Most steps of cleanup frames in one run.
pub const MAX_CLEANUP_STEPS: u64 = 1000;

impl StepBudget {
    /// Counts one node execution; cleanup frames have their own budget of
    /// 1000 steps, ordinary frames the run's `max_steps`.
    pub fn count(&mut self, cleanup_mode: bool, max_steps: u64) -> (r: Result<(), RunError>)
        requires
            old(self).steps <= max_steps,
            max_steps < u64::MAX,
            old(self).cleanup_steps <= MAX_CLEANUP_STEPS,
        ensures
            cleanup_mode ==> final(self).steps == old(self).steps
                && final(self).cleanup_steps == old(self).cleanup_steps + 1
                && (r is Ok <==> final(self).cleanup_steps <= MAX_CLEANUP_STEPS),
            !cleanup_mode ==> final(self).cleanup_steps == old(self).cleanup_steps
                && final(self).steps == old(self).steps + 1
                && (r is Ok <==> final(self).steps <= max_steps),
            r matches Err(e) ==> e.kind == ErrorKind::Limit,
    {
        if cleanup_mode {
            self.cleanup_steps = self.cleanup_steps + 1;
            if self.cleanup_steps > MAX_CLEANUP_STEPS {
                return Err(RunError::new(ErrorKind::Limit, owned("收尾步骤超过一千步")));
            }
        } else {
            self.steps = self.steps + 1;
            if self.steps > max_steps {
                return Err(RunError::new(ErrorKind::Limit, owned("执行步数预算耗尽")));
            }
        }
        Ok(())
    }
}

/// Budget check at a step: outside cleanup frames a cancelled run or one
/// out of time stops first; then the node's own operation check decides.
pub fn check_step(cleanup_mode: bool, cancelled: bool, out_of_time: bool, node_check: Option<RunError>) -> (r: Result<(), RunError>)
    ensures
        !cleanup_mode && cancelled ==> fails_with(r, ErrorKind::Cancelled),
        !cleanup_mode && !cancelled && out_of_time ==> fails_with(r, ErrorKind::RunTimeout),
        (cleanup_mode || (!cancelled && !out_of_time)) ==> match node_check {
            Some(e) => r == Err::<(), RunError>(e),
            None => r is Ok,
        },
{
    if !cleanup_mode {
        if cancelled {
            return Err(RunError::new(ErrorKind::Cancelled, owned("运行已取消")));
        }
        if out_of_time {
            return Err(RunError::new(ErrorKind::RunTimeout, owned("运行总时限已到")));
        }
    }
    match node_check {
        Some(e) => Err(e),
        None => Ok(()),
    }
}

/// Decision of a loop step.
#[derive(Debug, Clone, Copy, PartialEq, Eq, Structural)]
pub enum LoopStep {
    /// The loop is done; publish the node.
    Done,
    /// Start the body again; this iteration is numbered by the old count.
    Iterate,
}

/// One loop step: a While stops when its condition is false and a ForEach
/// when its items are used up; otherwise the body runs again unless the
/// iteration limit (the loop's own or the run's default) is reached, which
/// is a `Limit` failure.
pub fn loop_step(continues: bool, iterations: u32, limit: Option<u32>, default_limit: u32) -> (r: Result<LoopStep, RunError>)
    ensures
        !continues ==> r == Ok::<LoopStep, RunError>(LoopStep::Done),
        continues ==> match limit {
            Some(l) => if iterations >= l { r matches Err(e) && e.kind == ErrorKind::Limit } else { r == Ok::<LoopStep, RunError>(LoopStep::Iterate) },
            None => if iterations >= default_limit { r matches Err(e) && e.kind == ErrorKind::Limit } else { r == Ok::<LoopStep, RunError>(LoopStep::Iterate) },
        },
{
    if !continues {
        return Ok(LoopStep::Done);
    }
    let limit = match limit { Some(l) => l, None => default_limit };
    if iterations >= limit {
        return Err(RunError::new(ErrorKind::Limit, owned("循环轮数预算耗尽")));
    }
    Ok(LoopStep::Iterate)
}

/// Lexical link of an activation frame.
#[derive(Debug, Clone, Copy, PartialEq, Eq, Structural)]
pub struct FrameLink {
    /// Scope the frame activates.
    pub scope: usize,
    /// Frame of the lexically enclosing scope, if any.
    pub lexical_parent: Option<usize>,
}

/// Lexical parents always lie below their children on the stack.
pub open spec fn links_wf(frames: Seq<FrameLink>) -> bool {
    forall|i: int| 0 <= i < frames.len() ==> match (#[trigger] frames[i]).lexical_parent {
        Some(p) => p < i,
        None => true,
    }
}

/// The frame for `scope` found by walking lexical parents up from `from`.
pub open spec fn lexical_frame(frames: Seq<FrameLink>, from: int, scope: usize) -> Option<int>
    decreases from + 1,
{
    if from < 0 || from >= frames.len() {
        None
    } else if frames[from].scope == scope {
        Some(from)
    } else {
        match frames[from].lexical_parent {
            Some(p) => if p < from { lexical_frame(frames, p as int, scope) } else { None },
            None => None,
        }
    }
}

/// Finds the frame of `scope` on the lexical chain of the current frame.
pub fn lexical_index(frames: &Vec<FrameLink>, current: usize, scope: usize) -> (r: Result<usize, RunError>)
    requires
        current < frames@.len(),
        links_wf(frames@),
    ensures
        match lexical_frame(frames@, current as int, scope) {
            Some(i) => r == Ok::<usize, RunError>(i as usize),
            None => r matches Err(e) && e.kind == ErrorKind::Contract && e.message@ == "词法帧不存在"@,
        },
{
    let mut index = current;
    loop
        invariant
            index < frames@.len(),
            links_wf(frames@),
            lexical_frame(frames@, current as int, scope) == lexical_frame(frames@, index as int, scope),
        decreases index,
    {
        let link = frames[index];
        if link.scope == scope {
            return Ok(index);
        }
        match link.lexical_parent {
            Some(p) => {
                assert(p < index);
                index = p;
            },
            None => {
                return Err(RunError::new(ErrorKind::Contract, owned("词法帧不存在")));
            },
        }
    }
}

/// Longest time a node may run when it declares no limit: one day.
pub const MAX_NODE_RUN_SECS: u64 = 86_400;

/// Time limit of the next node: its own limit, else what remains of the
/// frame's operation budget, at most one day; no time left is a `Timeout`.
pub fn node_timeout(timeout_ms: Option<u64>, remaining: TimeSpan) -> (r: Result<TimeSpan, RunError>)
    ensures
        match timeout_ms {
            Some(ms) => if ms == 0 { fails_with(r, ErrorKind::Timeout) } else { (r matches Ok(t) && t.nanos == ms * NANOS_PER_MILLI) },
            None => {
                let cap = MAX_NODE_RUN_SECS * NANOS_PER_SEC;
                let t = if remaining.nanos < cap { remaining.nanos as int } else { cap };
                if t == 0 { fails_with(r, ErrorKind::Timeout) } else { (r matches Ok(x) && x.nanos == t) }
            },
        },
{
    let timeout = match timeout_ms {
        Some(ms) => TimeSpan::from_millis(ms),
        None => {
            let day = TimeSpan::from_secs(MAX_NODE_RUN_SECS);
            if remaining.nanos < day.nanos { remaining } else { day }
        },
    };
    if timeout.is_zero() {
        return Err(RunError::new(ErrorKind::Timeout, owned("节点时限已到")));
    }
    Ok(timeout)
}

/// Milliseconds a Wait node pauses: a negative duration is refused.
pub fn wait_millis(ms: i64) -> (r: Result<u64, RunError>)
    ensures
        ms >= 0 ==> r == Ok::<u64, RunError>(ms as u64),
        ms < 0 ==> fails_with(r, ErrorKind::Expression),
{
    if ms < 0 {
        return Err(RunError::new(ErrorKind::Expression, owned("等待时长不能为负数")));
    }
    Ok(ms as u64)
}

} // verus!
