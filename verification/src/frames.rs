//! The stack of activation frames of a run: entering a scope, leaving it
//! with the failures of its cleanup merged into the signal it hands back,
//! and all-or-nothing variable transactions along the lexical chain.

use vstd::prelude::*;
use vstd::string::*;
use crate::control::{
    check_frame_budget, frame_limit, lexical_frame, lexical_index, links_wf, merge_failure, node_timeout, FrameLink,
    NodeState, Signal, StepBudget, MAX_CLEANUP_STEPS, MAX_NODE_RUN_SECS,
};
use crate::options::{TimeSpan, MAX_STEPS_LIMIT, NANOS_PER_MILLI, NANOS_PER_SEC};
use crate::errors::{ErrorKind, RunError};

verus! {

/// A value together with its size as the value model measures it.
#[derive(Debug)]
pub struct SizedValue<V> {
    pub value: V,
    /// Estimated bytes; `None` when the value cannot be measured.
    pub bytes: Option<usize>,
}

/// Scope and slot of a variable.
#[derive(Debug, Clone, Copy, PartialEq, Eq, Structural)]
pub struct Binding {
    pub scope: usize,
    pub slot: usize,
}

/// The active frames of a run, bottom first, held field by field.
#[derive(Debug)]
pub struct FrameStack<V> {
    /// Scope and lexical parent of each frame.
    pub links: Vec<FrameLink>,
    /// Instance number of each frame.
    pub instances: Vec<u64>,
    /// Variable slots of each frame; `None` while a slot is uninitialised.
    pub variables: Vec<Vec<Option<SizedValue<V>>>>,
    /// Resources each frame owns, in acquisition order.
    pub owned: Vec<Vec<u64>>,
    /// Whether each frame runs in cleanup mode.
    pub cleanup: Vec<bool>,
    /// Instance number the next frame gets.
    pub next_instance: u64,
}

impl<V> FrameStack<V> {
    /// The per-frame fields agree in length and lexical parents lie below
    /// their children.
    pub open spec fn wf(&self) -> bool {
        &&& self.instances@.len() == self.links@.len()
        &&& self.variables@.len() == self.links@.len()
        &&& self.owned@.len() == self.links@.len()
        &&& self.cleanup@.len() == self.links@.len()
        &&& links_wf(self.links@)
    }

    /// Number of active frames.
    pub open spec fn depth(&self) -> nat {
        self.links@.len()
    }

    /// Variable slots of every frame.
    pub open spec fn slots(&self) -> Seq<Seq<Option<SizedValue<V>>>> {
        self.variables@.map_values(|v: Vec<Option<SizedValue<V>>>| v@)
    }

    /// A stack holding the root frame of a run: instance 1, no lexical
    /// parent, `slot_count` empty slots.
    pub fn root(scope: usize, slot_count: usize) -> (s: FrameStack<V>)
        ensures
            s.wf(),
            s.depth() == 1,
            s.links@[0] == (FrameLink { scope, lexical_parent: None }),
            s.instances@[0] == 1,
            s.slots()[0].len() == slot_count,
            forall|k: int| 0 <= k < slot_count ==> s.slots()[0][k] is None,
            s.owned@[0]@.len() == 0,
            !s.cleanup@[0],
            s.next_instance == 2,
    {
        let mut links = Vec::new();
        links.push(FrameLink { scope, lexical_parent: None });
        let mut instances = Vec::new();
        instances.push(1u64);
        let mut variables = Vec::new();
        variables.push(empty_slots(slot_count));
        let mut owned = Vec::new();
        owned.push(Vec::new());
        let mut cleanup = Vec::new();
        cleanup.push(false);
        let s = FrameStack { links, instances, variables, owned, cleanup, next_instance: 2 };
        assert(s.slots()[0] == s.variables@[0]@);
        s
    }
}

/// `after` is `before` with a new top frame of link `link`, slots `slots`
/// and cleanup mode `cleanup_mode`, owning nothing, numbered by the next
/// instance number.
pub open spec fn pushed<V>(before: FrameStack<V>, after: FrameStack<V>, link: FrameLink,
    slots: Seq<Option<SizedValue<V>>>, cleanup_mode: bool) -> bool {
    &&& after.links@ == before.links@.push(link)
    &&& after.instances@ == before.instances@.push(before.next_instance)
    &&& after.slots() == before.slots().push(slots)
    &&& after.owned@.len() == before.owned@.len() + 1
    &&& after.owned@.last()@.len() == 0
    &&& forall|k: int| 0 <= k < before.owned@.len() ==> #[trigger] after.owned@[k] == before.owned@[k]
    &&& after.cleanup@ == before.cleanup@.push(cleanup_mode)
    &&& after.next_instance == before.next_instance + 1
}

/// `after` is `before` without its top frame.
pub open spec fn popped<V>(before: FrameStack<V>, after: FrameStack<V>) -> bool {
    &&& after.links@ == before.links@.drop_last()
    &&& after.instances@ == before.instances@.drop_last()
    &&& after.slots() == before.slots().drop_last()
    &&& after.owned@ == before.owned@.drop_last()
    &&& after.cleanup@ == before.cleanup@.drop_last()
    &&& after.next_instance == before.next_instance
}

/// Law: leaving a frame right after entering it gives back the frames as
/// they were, lexical links, instances, slots, owned resources and cleanup
/// modes alike; only the instance counter has moved on, so that no later
/// frame reuses the left frame's number.
pub proof fn lemma_leave_undoes_push<V>(s0: FrameStack<V>, s1: FrameStack<V>, s2: FrameStack<V>, link: FrameLink,
    slots: Seq<Option<SizedValue<V>>>, cleanup_mode: bool)
    requires
        pushed(s0, s1, link, slots, cleanup_mode),
        popped(s1, s2),
    ensures
        s2.links@ == s0.links@,
        s2.instances@ == s0.instances@,
        s2.slots() == s0.slots(),
        s2.owned@ == s0.owned@,
        s2.cleanup@ == s0.cleanup@,
        s2.next_instance == s0.next_instance + 1,
        s1.instances@.last() == s0.next_instance,
        s2.next_instance > s1.instances@.last(),
{
    assert(s2.links@ =~= s0.links@);
    assert(s2.instances@ =~= s0.instances@);
    assert(s2.slots() =~= s0.slots());
    assert(s2.owned@ =~= s0.owned@);
    assert(s2.cleanup@ =~= s0.cleanup@);
}

fn empty_slots<V>(n: usize) -> (v: Vec<Option<SizedValue<V>>>)
    ensures
        v@.len() == n,
        forall|k: int| 0 <= k < n ==> v@[k] is None,
{
    let mut v: Vec<Option<SizedValue<V>>> = Vec::new();
    let mut i: usize = 0;
    while i < n
        invariant
            i <= n,
            v@.len() == i,
            forall|k: int| 0 <= k < i ==> v@[k] is None,
        decreases n - i,
    {
        v.push(None);
        i += 1;
    }
    v
}

/// Slots of a new frame: `n` empty slots, then each assigned value written
/// in order, a later one replacing an earlier one.
pub open spec fn initial_slots<V>(n: nat, assigned: Seq<(usize, SizedValue<V>)>) -> Seq<Option<SizedValue<V>>>
    decreases assigned.len(),
{
    if assigned.len() == 0 {
        Seq::new(n, |k: int| None)
    } else {
        initial_slots(n, assigned.drop_last()).update(assigned.last().0 as int, Some(assigned.last().1))
    }
}

fn fill_slots<V>(n: usize, assigned: Vec<(usize, SizedValue<V>)>) -> (v: Vec<Option<SizedValue<V>>>)
    requires
        forall|k: int| 0 <= k < assigned@.len() ==> (#[trigger] assigned@[k]).0 < n,
    ensures
        v@ == initial_slots(n as nat, assigned@),
{
    let ghost all = assigned@;
    let mut v = empty_slots(n);
    assert(v@ =~= initial_slots(n as nat, all.take(0)));
    let mut rest = assigned;
    let total = rest.len();
    let mut i: usize = 0;
    while rest.len() > 0
        invariant
            i + rest@.len() == all.len(),
            total == all.len(),
            rest@ == all.skip(i as int),
            forall|k: int| 0 <= k < all.len() ==> (#[trigger] all[k]).0 < n,
            v@ == initial_slots(n as nat, all.take(i as int)),
            v@.len() == n,
        decreases rest@.len(),
    {
        let (slot, value) = rest.remove(0);
        assert(all[i as int].0 == slot);
        assert(rest@ =~= all.skip(i + 1));
        assert(all.take(i + 1).drop_last() =~= all.take(i as int));
        v.set(slot, Some(value));
        i += 1;
    }
    assert(all.take(i as int) =~= all);
    v
}

impl<V> FrameStack<V> {
    /// Enters scope `scope` as a new top frame whose lexical parent is frame
    /// `lexical_parent`, with `slot_count` slots of which those in
    /// `assigned` are set. Refused with a `Limit` error, and the stack left
    /// as it was, when the active frames would exceed their budget or when
    /// `data_fits`, the measure of the data plane with the new frame, says
    /// the data budget would be exceeded.
    pub fn push(&mut self, scope: usize, lexical_parent: usize, slot_count: usize,
        assigned: Vec<(usize, SizedValue<V>)>, cleanup_mode: bool, max_depth: usize, data_fits: bool)
        -> (r: Result<(), RunError>)
        requires
            old(self).wf(),
            lexical_parent < old(self).depth(),
            old(self).next_instance < u64::MAX,
            forall|k: int| 0 <= k < assigned@.len() ==> (#[trigger] assigned@[k]).0 < slot_count,
        ensures
            final(self).wf(),
            r is Ok <==> old(self).depth() < frame_limit(max_depth, cleanup_mode) && data_fits,
            r matches Err(e) ==> e.kind == ErrorKind::Limit && e.message@ == (if old(self).depth()
                < frame_limit(max_depth, cleanup_mode) { "调用参数超过总数据预算"@ } else { "活动调用帧超过预算"@ }),
            r is Err ==> *final(self) == *old(self),
            r is Ok ==> pushed(*old(self), *final(self), FrameLink { scope, lexical_parent: Some(lexical_parent) },
                initial_slots(slot_count as nat, assigned@), cleanup_mode),
    {
        match check_frame_budget(self.links.len(), max_depth, cleanup_mode) {
            Ok(()) => {},
            Err(e) => { return Err(e); },
        }
        if !data_fits {
            return Err(RunError::new(ErrorKind::Limit, String::from_str("调用参数超过总数据预算")));
        }
        let slots = fill_slots(slot_count, assigned);
        let ghost before = *self;
        self.links.push(FrameLink { scope, lexical_parent: Some(lexical_parent) });
        self.instances.push(self.next_instance);
        self.variables.push(slots);
        self.owned.push(Vec::new());
        self.cleanup.push(cleanup_mode);
        self.next_instance = self.next_instance + 1;
        proof {
            assert forall|i: int| 0 <= i < self.links@.len() implies match (#[trigger] self.links@[i]).lexical_parent {
                Some(p) => p < i,
                None => true,
            } by {
                if i < before.links@.len() {
                    assert(self.links@[i] == before.links@[i]);
                }
            }
            assert(self.slots() =~= before.slots().push(initial_slots(slot_count as nat, assigned@)));
        }
        Ok(())
    }

    /// Writes a variable transaction all at once along the lexical chain of
    /// the top frame: nothing is written when a target fails its check
    /// (`Contract`) or when the data plane, `data_size` bytes before the
    /// transaction, would exceed `data_bytes` after it (`Limit`).
    pub fn assign(&mut self, assignments: Vec<(Binding, SizedValue<V>)>, initialize: bool, data_size: usize,
        data_bytes: usize) -> (r: Result<(), RunError>)
        requires
            old(self).wf(),
            old(self).depth() > 0,
        ensures
            final(self).wf(),
            final(self).links@ == old(self).links@,
            final(self).instances@ == old(self).instances@,
            final(self).owned@ == old(self).owned@,
            final(self).cleanup@ == old(self).cleanup@,
            final(self).next_instance == old(self).next_instance,
            match transaction(old(self).links@, old(self).slots(), old(self).depth() - 1, assignments@, initialize,
                data_size as int) {
                Err(m) => r matches Err(e) && e.kind == ErrorKind::Contract && e.message@ == m
                    && final(self).slots() == old(self).slots(),
                Ok((targets, size)) => if size > data_bytes {
                    r matches Err(e) && e.kind == ErrorKind::Limit && e.message@ == "变量事务超过总数据预算"@
                        && final(self).slots() == old(self).slots()
                } else {
                    r is Ok && final(self).slots() == written(old(self).slots(), targets, assignments@)
                },
            },
    {
        let ghost all = assignments@;
        let ghost start = self.slots();
        let current = self.links.len() - 1;
        let mut targets: Vec<(usize, usize)> = Vec::new();
        let mut size: usize = data_size;
        let mut i: usize = 0;
        assert(all.take(0) =~= Seq::<(Binding, SizedValue<V>)>::empty());
        assert(targets@.map_values(|t: (usize, usize)| (t.0 as int, t.1 as int)) =~= Seq::<(int, int)>::empty());
        while i < assignments.len()
            invariant
                i <= all.len(),
                all == assignments@,
                self.wf(),
                self.depth() > 0,
                current == self.depth() - 1,
                start == self.slots(),
                targets@.len() == i,
                transaction(self.links@, start, current as int, all.take(i as int), initialize, data_size as int)
                    == Ok::<(Seq<(int, int)>, int), Seq<char>>((targets@.map_values(|t: (usize, usize)| (t.0 as int, t.1 as int)), size as int)),
                forall|k: int| 0 <= k < i ==> (#[trigger] targets@[k]).0 < self.depth()
                    && targets@[k].1 < start[targets@[k].0 as int].len(),
            decreases all.len() - i,
        {
            let ghost t = all.take(i + 1);
            assert(t.drop_last() =~= all.take(i as int));
            assert(t.last() == all[i as int]);
            let b = assignments[i].0;
            let index = match lexical_index(&self.links, current, b.scope) {
                Ok(index) => index,
                Err(e) => {
                    proof { lemma_transaction_failure_persists(self.links@, start, current as int, all, initialize, data_size as int, i + 1); }
                    return Err(e);
                },
            };
            proof { lemma_lexical_frame_in_range(self.links@, current as int, b.scope); }
            assert(start[index as int] == self.variables@[index as int]@);
            if b.slot >= self.variables[index].len() {
                proof { lemma_transaction_failure_persists(self.links@, start, current as int, all, initialize, data_size as int, i + 1); }
                return Err(RunError::new(ErrorKind::Contract, String::from_str("变量槽位不存在")));
            }
            let held = match &self.variables[index][b.slot] {
                Some(x) => {
                    if initialize {
                        proof { lemma_transaction_failure_persists(self.links@, start, current as int, all, initialize, data_size as int, i + 1); }
                        return Err(RunError::new(ErrorKind::Contract, String::from_str("重复初始化或赋值未初始化变量")));
                    }
                    match x.bytes { Some(n) => n, None => 0 }
                },
                None => {
                    if !initialize {
                        proof { lemma_transaction_failure_persists(self.links@, start, current as int, all, initialize, data_size as int, i + 1); }
                        return Err(RunError::new(ErrorKind::Contract, String::from_str("重复初始化或赋值未初始化变量")));
                    }
                    0
                },
            };
            let added = match assignments[i].1.bytes { Some(n) => n, None => usize::MAX };
            size = size.saturating_sub(held).saturating_add(added);
            let ghost before = targets@;
            targets.push((index, b.slot));
            assert(targets@.map_values(|t: (usize, usize)| (t.0 as int, t.1 as int))
                =~= before.map_values(|t: (usize, usize)| (t.0 as int, t.1 as int)).push((index as int, b.slot as int)));
            i += 1;
        }
        assert(all.take(i as int) =~= all);
        if size > data_bytes {
            return Err(RunError::new(ErrorKind::Limit, String::from_str("变量事务超过总数据预算")));
        }
        let ghost tv = targets@.map_values(|t: (usize, usize)| (t.0 as int, t.1 as int));
        let mut rest = assignments;
        let total = rest.len();
        let mut k: usize = 0;
        assert(written(start, tv.take(0), all.take(0)) == start);
        while rest.len() > 0
            invariant
                k + rest@.len() == all.len(),
                total == all.len(),
                start.len() == self.links@.len(),
                rest@ == all.skip(k as int),
                targets@.len() == all.len(),
                tv == targets@.map_values(|t: (usize, usize)| (t.0 as int, t.1 as int)),
                forall|j: int| 0 <= j < all.len() ==> (#[trigger] targets@[j]).0 < self.depth()
                    && targets@[j].1 < start[targets@[j].0 as int].len(),
                self.wf(),
                self.links@ == old(self).links@,
                self.instances@ == old(self).instances@,
                self.owned@ == old(self).owned@,
                self.cleanup@ == old(self).cleanup@,
                self.next_instance == old(self).next_instance,
                self.slots() == written(start, tv.take(k as int), all.take(k as int)),
            decreases rest@.len(),
        {
            let (_, value) = rest.remove(0);
            assert(rest@ =~= all.skip(k + 1));
            let (fi, slot) = targets[k];
            let ghost prev = self.slots();
            proof {
                assert(tv.take(k + 1).drop_last() =~= tv.take(k as int));
                assert(all.take(k + 1).drop_last() =~= all.take(k as int));
                let tk = tv.take(k as int);
                assert forall|j: int| 0 <= j < tk.len() implies 0 <= (#[trigger] tk[j]).0 < start.len()
                    && 0 <= tk[j].1 < start[tk[j].0].len() by {
                    assert(tk[j] == tv[j]);
                    assert(tv[j] == (targets@[j].0 as int, targets@[j].1 as int));
                }
                lemma_written_shape(start, tk, all.take(k as int));
                assert(tv[k as int] == (fi as int, slot as int));
                assert(prev[fi as int] == self.variables@[fi as int]@);
            }
            let mut frame_slots = self.variables.remove(fi);
            frame_slots.set(slot, Some(value));
            self.variables.insert(fi, frame_slots);
            proof {
                assert(self.slots() =~= prev.update(fi as int, prev[fi as int].update(slot as int, Some(all[k as int].1))));
            }
            k += 1;
        }
        assert(tv.take(k as int) =~= tv);
        assert(all.take(k as int) =~= all);
        Ok(())
    }

    /// Resources of the top frame in the order they are closed: the latest
    /// acquired first.
    pub fn closing_order(&self) -> (ids: Vec<u64>)
        requires
            self.wf(),
            self.depth() > 0,
        ensures
            ids@ == self.owned@.last()@.reverse(),
    {
        let top = &self.owned[self.owned.len() - 1];
        let mut ids: Vec<u64> = Vec::new();
        let mut i = top.len();
        while i > 0
            invariant
                i <= top@.len(),
                ids@ == top@.subrange(i as int, top@.len() as int).reverse(),
            decreases i,
        {
            i -= 1;
            ids.push(top[i]);
            assert(top@.subrange(i as int, top@.len() as int).reverse()
                =~= top@.subrange(i + 1, top@.len() as int).reverse().push(top@[i as int]));
        }
        assert(top@.subrange(0, top@.len() as int) =~= top@);
        ids
    }

    /// Leaves the top frame once its resources were closed: the failures of
    /// the closes, in order, are merged into the signal the frame hands
    /// back, and the frame is removed.
    pub fn leave(&mut self, signal: Signal<V>, close_failures: Vec<RunError>) -> (r: Signal<V>)
        requires
            old(self).wf(),
            old(self).depth() > 0,
        ensures
            final(self).wf(),
            popped(*old(self), *final(self)),
            merged_into(r, signal, close_failures@),
    {
        let ghost before = *self;
        let merged_signal = merge_all(signal, close_failures);
        self.links.pop();
        self.instances.pop();
        self.variables.pop();
        self.owned.pop();
        self.cleanup.pop();
        proof {
            assert(self.slots() =~= before.slots().drop_last());
            assert forall|i: int| 0 <= i < self.links@.len() implies match (#[trigger] self.links@[i]).lexical_parent {
                Some(p) => p < i,
                None => true,
            } by {
                assert(self.links@[i] == before.links@[i]);
            }
        }
        merged_signal
    }
}

/// Bytes a slot holds: its value's size, or nothing when it is empty or
/// cannot be measured.
pub open spec fn held_bytes<V>(s: Option<SizedValue<V>>) -> int {
    match s {
        Some(x) => match x.bytes {
            Some(n) => n as int,
            None => 0,
        },
        None => 0,
    }
}

/// Bytes a new value counts for: its size, or all of `usize` when it
/// cannot be measured.
pub open spec fn counted_bytes<V>(x: SizedValue<V>) -> int {
    match x.bytes {
        Some(n) => n as int,
        None => usize::MAX as int,
    }
}

/// `a - b`, at least zero.
pub open spec fn sat_sub(a: int, b: int) -> int {
    if a < b { 0 } else { a - b }
}

/// `a + b`, at most `usize::MAX`.
pub open spec fn sat_add(a: int, b: int) -> int {
    if a + b > usize::MAX { usize::MAX as int } else { a + b }
}

/// The targets (frame, slot) of a variable transaction and the data size
/// after it, or the message of the first failure: a scope with no frame on
/// the lexical chain, a missing slot, or a slot that is already initialised
/// (when initialising) or not yet initialised (when assigning). Every
/// target is checked against the slots as they were before the transaction.
pub open spec fn transaction<V>(links: Seq<FrameLink>, slots: Seq<Seq<Option<SizedValue<V>>>>, current: int,
    assignments: Seq<(Binding, SizedValue<V>)>, initialize: bool, start: int) -> Result<(Seq<(int, int)>, int), Seq<char>>
    decreases assignments.len(),
{
    if assignments.len() == 0 {
        Ok((Seq::empty(), start))
    } else {
        match transaction(links, slots, current, assignments.drop_last(), initialize, start) {
            Err(m) => Err(m),
            Ok((targets, size)) => {
                let (b, x) = assignments.last();
                match lexical_frame(links, current, b.scope) {
                    None => Err("词法帧不存在"@),
                    Some(i) => if b.slot >= slots[i].len() {
                        Err("变量槽位不存在"@)
                    } else if initialize == (slots[i][b.slot as int] is Some) {
                        Err("重复初始化或赋值未初始化变量"@)
                    } else {
                        Ok((targets.push((i, b.slot as int)),
                            sat_add(sat_sub(size, held_bytes(slots[i][b.slot as int])), counted_bytes(x))))
                    },
                }
            },
        }
    }
}

/// The slots after writing each assignment's value to its target, in order.
pub open spec fn written<V>(slots: Seq<Seq<Option<SizedValue<V>>>>, targets: Seq<(int, int)>,
    assignments: Seq<(Binding, SizedValue<V>)>) -> Seq<Seq<Option<SizedValue<V>>>>
    decreases targets.len(),
{
    if targets.len() == 0 || assignments.len() == 0 {
        slots
    } else {
        let w = written(slots, targets.drop_last(), assignments.drop_last());
        let (i, k) = targets.last();
        w.update(i, w[i].update(k, Some(assignments.last().1)))
    }
}

proof fn lemma_transaction_failure_persists<V>(links: Seq<FrameLink>, slots: Seq<Seq<Option<SizedValue<V>>>>,
    current: int, all: Seq<(Binding, SizedValue<V>)>, initialize: bool, start: int, k: int)
    requires
        0 <= k <= all.len(),
        transaction(links, slots, current, all.take(k), initialize, start) is Err,
    ensures
        transaction(links, slots, current, all, initialize, start) == transaction(links, slots, current, all.take(k), initialize, start),
    decreases all.len() - k,
{
    if k == all.len() {
        assert(all.take(k) =~= all);
    } else {
        assert(all.take(k + 1).drop_last() =~= all.take(k));
        lemma_transaction_failure_persists(links, slots, current, all, initialize, start, k + 1);
    }
}

proof fn lemma_written_shape<V>(slots: Seq<Seq<Option<SizedValue<V>>>>, targets: Seq<(int, int)>,
    assignments: Seq<(Binding, SizedValue<V>)>)
    requires
        forall|j: int| 0 <= j < targets.len() ==> 0 <= (#[trigger] targets[j]).0 < slots.len()
            && 0 <= targets[j].1 < slots[targets[j].0].len(),
    ensures
        written(slots, targets, assignments).len() == slots.len(),
        forall|i: int| 0 <= i < slots.len() ==> (#[trigger] written(slots, targets, assignments)[i]).len() == slots[i].len(),
    decreases targets.len(),
{
    if targets.len() > 0 && assignments.len() > 0 {
        let d = targets.drop_last();
        assert forall|j: int| 0 <= j < d.len() implies 0 <= (#[trigger] d[j]).0 < slots.len()
            && 0 <= d[j].1 < slots[d[j].0].len() by {
            assert(d[j] == targets[j]);
        }
        lemma_written_shape(slots, d, assignments.drop_last());
        assert(targets.last() == targets[targets.len() - 1]);
    }
}

proof fn lemma_lexical_frame_in_range(frames: Seq<FrameLink>, from: int, scope: usize)
    ensures
        lexical_frame(frames, from, scope) matches Some(i) ==> 0 <= i < frames.len(),
    decreases from + 1,
{
    if 0 <= from < frames.len() && frames[from].scope != scope {
        match frames[from].lexical_parent {
            Some(p) => if p < from { lemma_lexical_frame_in_range(frames, p as int, scope); },
            None => {},
        }
    }
}

/// How a step of the top frame begins.
#[derive(Debug, Clone, Copy, PartialEq, Eq, Structural)]
pub enum StepStart {
    /// Every node of the scope ran: leave it with its outputs.
    LeaveComplete,
    /// The current node is a loop whose body just finished: decide the next iteration.
    Iterate,
    /// Run the current node within `timeout`; `execution` numbers it in the run.
    Run { timeout: TimeSpan, execution: u64 },
}

/// Time limit of a node as `node_timeout` computes it, in nanoseconds.
pub open spec fn limit_nanos(timeout_ms: Option<u64>, remaining: TimeSpan) -> int {
    match timeout_ms {
        Some(ms) => ms * NANOS_PER_MILLI,
        None => {
            let cap = MAX_NODE_RUN_SECS * NANOS_PER_SEC;
            if remaining.nanos < cap { remaining.nanos as int } else { cap }
        },
    }
}

/// Begins a step of the top frame. The run's budget check (`checked`)
/// comes first; a finished scope is left and a loop node decides its next
/// iteration; a node that waits for a missing child is a `Contract`
/// failure; otherwise the step is counted against its budget and the
/// node's time limit is fixed (no time left is a `Timeout`).
pub fn begin_step<V>(budget: &mut StepBudget, checked: Result<(), RunError>, pc: usize, node_count: usize,
    state: &NodeState<V>, cleanup_mode: bool, max_steps: u64, timeout_ms: Option<u64>, remaining: TimeSpan)
    -> (r: Result<StepStart, RunError>)
    requires
        pc <= node_count,
        old(budget).steps <= max_steps,
        max_steps <= MAX_STEPS_LIMIT,
        old(budget).cleanup_steps <= MAX_CLEANUP_STEPS,
    ensures
        (checked matches Err(c) ==> r == Err::<StepStart, RunError>(c)) && (checked is Err ==> *final(budget) == *old(budget)),
        checked is Ok && pc == node_count ==> r == Ok::<StepStart, RunError>(StepStart::LeaveComplete)
            && *final(budget) == *old(budget),
        checked is Ok && pc < node_count && state is Loop ==> r == Ok::<StepStart, RunError>(StepStart::Iterate)
            && *final(budget) == *old(budget),
        checked is Ok && pc < node_count && !(state is Loop) && !(state is Ready) ==> (r matches Err(e)
            && e.kind == ErrorKind::Contract && e.message@ == "结构节点等待的子帧缺失"@) && *final(budget) == *old(budget),
        checked is Ok && pc < node_count && state is Ready ==> {
            &&& (cleanup_mode ==> final(budget).steps == old(budget).steps
                && final(budget).cleanup_steps == old(budget).cleanup_steps + 1)
            &&& (!cleanup_mode ==> final(budget).cleanup_steps == old(budget).cleanup_steps
                && final(budget).steps == old(budget).steps + 1)
            &&& if (cleanup_mode && final(budget).cleanup_steps > MAX_CLEANUP_STEPS)
                || (!cleanup_mode && final(budget).steps > max_steps) {
                r matches Err(e) && e.kind == ErrorKind::Limit
            } else if limit_nanos(timeout_ms, remaining) == 0 {
                r matches Err(e) && e.kind == ErrorKind::Timeout
            } else {
                r matches Ok(StepStart::Run { timeout, execution }) && timeout.nanos == limit_nanos(timeout_ms, remaining)
                    && execution == final(budget).steps + final(budget).cleanup_steps
            }
        },
{
    match checked {
        Err(e) => { return Err(e); },
        Ok(()) => {},
    }
    if pc == node_count {
        return Ok(StepStart::LeaveComplete);
    }
    match state {
        NodeState::Loop { .. } => { return Ok(StepStart::Iterate); },
        NodeState::Ready => {},
        _ => {
            return Err(RunError::new(ErrorKind::Contract, String::from_str("结构节点等待的子帧缺失")));
        },
    }
    match budget.count(cleanup_mode, max_steps) {
        Ok(()) => {},
        Err(e) => { return Err(e); },
    }
    let timeout = match node_timeout(timeout_ms, remaining) {
        Ok(t) => t,
        Err(e) => { return Err(e); },
    };
    Ok(StepStart::Run { timeout, execution: budget.steps + budget.cleanup_steps })
}

/// `q` is `p` with `later` failures appended to its secondary failures.
pub open spec fn extended(q: RunError, p: RunError, later: Seq<RunError>) -> bool {
    &&& q.kind == p.kind
    &&& q.message@ == p.message@
    &&& q.effect == p.effect
    &&& q.path@ == p.path@
    &&& q.secondary@ == p.secondary@ + later
}

/// `r` is `signal` after recording `failures` in order: the first failure
/// stays primary and the others follow it as secondary failures.
pub open spec fn merged_into<V>(r: Signal<V>, signal: Signal<V>, failures: Seq<RunError>) -> bool {
    if failures.len() == 0 {
        r == signal
    } else {
        match signal {
            Signal::Error(p) => r matches Signal::Error(q) && extended(q, p, failures),
            _ => r matches Signal::Error(q) && extended(q, failures[0], failures.skip(1)),
        }
    }
}

/// Records `failures` in order into `signal`.
pub fn merge_all<V>(signal: Signal<V>, failures: Vec<RunError>) -> (r: Signal<V>)
    ensures
        merged_into(r, signal, failures@),
{
    let ghost all = failures@;
    let ghost start = signal;
    let mut acc = signal;
    let mut rest = failures;
    let total = rest.len();
    let mut i: usize = 0;
    assert(all.take(0).len() == 0);
    while rest.len() > 0
        invariant
            i + rest@.len() == all.len(),
            total == all.len(),
            rest@ == all.skip(i as int),
            merged_into(acc, start, all.take(i as int)),
        decreases rest@.len(),
    {
        let f = rest.remove(0);
        assert(f == all[i as int]);
        assert(rest@ =~= all.skip(i + 1));
        let ghost prev = acc;
        acc = merge_failure(acc, f);
        proof {
            let t = all.take(i + 1);
            assert(t.drop_last() =~= all.take(i as int));
            assert(t.last() == f);
            if i == 0 {
                match start {
                    Signal::Error(p) => {
                        assert(p.secondary@.push(f) =~= p.secondary@ + t);
                    },
                    _ => {
                        assert(t[0] == f);
                        assert(t.skip(1).len() == 0);
                        assert(f.secondary@ =~= f.secondary@ + t.skip(1));
                    },
                }
            } else {
                match start {
                    Signal::Error(p) => {
                        assert(p.secondary@ + all.take(i as int) + seq![f] =~= p.secondary@ + t);
                        assert((p.secondary@ + all.take(i as int)).push(f) =~= p.secondary@ + all.take(i as int) + seq![f]);
                    },
                    _ => {
                        assert(t[0] == all.take(i as int)[0]);
                        assert((all[0].secondary@ + all.take(i as int).skip(1)).push(f) =~= all[0].secondary@ + t.skip(1));
                    },
                }
            }
        }
        i += 1;
    }
    assert(all.take(i as int) =~= all);
    acc
}

} // verus!
