//! Resource access declarations and their normalisation into a lock plan:
//! every key once, in one global order, with the strongest requested mode.

use vstd::prelude::*;
use vstd::string::*;
use crate::text::{compare_text, lemma_text_order_total, lemma_text_order_transitive, text_lt, TextOrder};

verus! {

/// Stable key under which side effects are arbitrated across runs.
#[derive(Debug, Clone)]
pub enum ResourceAccessKey {
    /// Runtime identity assigned by the resource table after acquisition.
    Runtime(u128),
    /// External object identity known before acquisition, such as an
    /// application executable together with its window match contract.
    External(String),
    /// Host-wide side-effect domain, such as the current foreground UI.
    Global(String),
}

/// Mathematical value of an access key.
#[derive(Debug, Clone, Copy, PartialEq, Eq, Structural)]
pub enum AccessKeyKind {
    /// Runtime identity.
    Runtime,
    /// External identity.
    External,
    /// Host-wide domain.
    Global,
}

/// Abstract value of a key: its kind, runtime identity and text.
pub open spec fn key_view(k: ResourceAccessKey) -> (AccessKeyKind, u128, Seq<char>) {
    match k {
        ResourceAccessKey::Runtime(id) => (AccessKeyKind::Runtime, id, Seq::empty()),
        ResourceAccessKey::External(s) => (AccessKeyKind::External, 0u128, s@),
        ResourceAccessKey::Global(s) => (AccessKeyKind::Global, 0u128, s@),
    }
}

/// Rank of a key kind in the lock order.
pub open spec fn kind_rank(k: AccessKeyKind) -> int {
    match k {
        AccessKeyKind::Runtime => 0,
        AccessKeyKind::External => 1,
        AccessKeyKind::Global => 2,
    }
}

/// Lock order on key values: by kind, then by identity, then by text.
pub open spec fn key_lt(a: (AccessKeyKind, u128, Seq<char>), b: (AccessKeyKind, u128, Seq<char>)) -> bool {
    if kind_rank(a.0) != kind_rank(b.0) {
        kind_rank(a.0) < kind_rank(b.0)
    } else if a.1 != b.1 {
        a.1 < b.1
    } else {
        text_lt(a.2, b.2)
    }
}

/// Law: the lock order is a strict total order on key values.
pub proof fn lemma_key_order(a: (AccessKeyKind, u128, Seq<char>), b: (AccessKeyKind, u128, Seq<char>), c: (AccessKeyKind, u128, Seq<char>))
    ensures
        !key_lt(a, a),
        key_lt(a, b) ==> !key_lt(b, a),
        a != b ==> key_lt(a, b) || key_lt(b, a),
        key_lt(a, b) && key_lt(b, c) ==> key_lt(a, c),
{
    lemma_text_order_total(a.2, b.2);
    lemma_text_order_total(a.2, a.2);
    if key_lt(a, b) && key_lt(b, c) && kind_rank(a.0) == kind_rank(c.0) && a.1 == c.1 {
        lemma_text_order_transitive(a.2, b.2, c.2);
    }
    if a != b && kind_rank(a.0) == kind_rank(b.0) {
        assert(a.0 == b.0);
    }
}

impl ResourceAccessKey {
    /// Stable identity of an external resource.
    pub fn external(value: String) -> (k: ResourceAccessKey)
        ensures
            key_view(k) == (AccessKeyKind::External, 0u128, value@),
    {
        ResourceAccessKey::External(value)
    }

    /// Host-wide resource identity.
    pub fn global(value: String) -> (k: ResourceAccessKey)
        ensures
            key_view(k) == (AccessKeyKind::Global, 0u128, value@),
    {
        ResourceAccessKey::Global(value)
    }

    /// Independent copy of the key.
    pub fn duplicate(&self) -> (k: ResourceAccessKey)
        ensures
            key_view(k) == key_view(*self),
    {
        match self {
            ResourceAccessKey::Runtime(id) => ResourceAccessKey::Runtime(*id),
            ResourceAccessKey::External(s) => ResourceAccessKey::External(s.clone()),
            ResourceAccessKey::Global(s) => ResourceAccessKey::Global(s.clone()),
        }
    }
}

/// Position of `a` relative to `b` in the lock order.
pub fn compare_keys(a: &ResourceAccessKey, b: &ResourceAccessKey) -> (o: TextOrder)
    ensures
        o == TextOrder::Less <==> key_lt(key_view(*a), key_view(*b)),
        o == TextOrder::Equal <==> key_view(*a) == key_view(*b),
        o == TextOrder::Greater <==> key_lt(key_view(*b), key_view(*a)),
{
    proof { lemma_key_order(key_view(*a), key_view(*b), key_view(*a)); }
    match (a, b) {
        (ResourceAccessKey::Runtime(x), ResourceAccessKey::Runtime(y)) => {
            if *x < *y { TextOrder::Less } else if *x == *y { TextOrder::Equal } else { TextOrder::Greater }
        },
        (ResourceAccessKey::Runtime(_), _) => TextOrder::Less,
        (ResourceAccessKey::External(_), ResourceAccessKey::Runtime(_)) => TextOrder::Greater,
        (ResourceAccessKey::External(x), ResourceAccessKey::External(y)) => {
            proof { lemma_text_order_total(x@, y@); }
            compare_text(x.as_str(), y.as_str())
        },
        (ResourceAccessKey::External(_), ResourceAccessKey::Global(_)) => TextOrder::Less,
        (ResourceAccessKey::Global(x), ResourceAccessKey::Global(y)) => {
            proof { lemma_text_order_total(x@, y@); }
            compare_text(x.as_str(), y.as_str())
        },
        (ResourceAccessKey::Global(_), _) => TextOrder::Greater,
    }
}

/// How a node uses a resource.
#[derive(Debug, Clone, Copy, PartialEq, Eq, Structural)]
pub enum ResourceAccessMode {
    /// Concurrency-safe read that leaves external state unchanged.
    Read,
    /// Access that changes external state or cannot be shown safe to share.
    Exclusive,
}

/// One resource access declared while a node is prepared.
#[derive(Debug, Clone)]
pub struct ResourceAccess {
    /// Stable identity that takes part in conflict detection.
    pub key: ResourceAccessKey,
    /// Read or exclusive use.
    pub mode: ResourceAccessMode,
}

/// Frozen set of resource accesses of a prepared node.
#[derive(Debug, Clone)]
pub struct AccessSet {
    /// Declarations of one node; the scheduler sorts and merges them.
    pub resources: Vec<ResourceAccess>,
}

impl AccessSet {
    /// A read of a single resource.
    pub fn read(key: ResourceAccessKey) -> (s: AccessSet)
        ensures
            s.resources@.len() == 1,
            key_view(s.resources@[0].key) == key_view(key),
            s.resources@[0].mode == ResourceAccessMode::Read,
    {
        AccessSet { resources: vec![ResourceAccess { key, mode: ResourceAccessMode::Read }] }
    }

    /// Exclusive use of a single resource.
    pub fn exclusive(key: ResourceAccessKey) -> (s: AccessSet)
        ensures
            s.resources@.len() == 1,
            key_view(s.resources@[0].key) == key_view(key),
            s.resources@[0].mode == ResourceAccessMode::Exclusive,
    {
        AccessSet { resources: vec![ResourceAccess { key, mode: ResourceAccessMode::Exclusive }] }
    }
}

/// Whether some declaration in `input` names the key value `k`.
pub open spec fn declares(input: Seq<ResourceAccess>, k: (AccessKeyKind, u128, Seq<char>)) -> bool {
    exists|j: int| 0 <= j < input.len() && key_view(#[trigger] input[j].key) == k
}

/// Whether some declaration in `input` asks for exclusive use of `k`.
pub open spec fn declares_exclusive(input: Seq<ResourceAccess>, k: (AccessKeyKind, u128, Seq<char>)) -> bool {
    exists|j: int| 0 <= j < input.len() && key_view(#[trigger] input[j].key) == k
        && input[j].mode == ResourceAccessMode::Exclusive
}

/// Keys of `plan` strictly increase in the lock order.
pub open spec fn lock_ordered(plan: Seq<ResourceAccess>) -> bool {
    forall|i: int, j: int| 0 <= i < j < plan.len() ==> key_lt(key_view(#[trigger] plan[i].key), key_view(#[trigger] plan[j].key))
}

/// `plan` is the lock plan of `input`: strictly ordered, holding exactly the
/// declared keys, each with exclusive mode when any declaration asks for it.
pub open spec fn lock_plan_of(input: Seq<ResourceAccess>, plan: Seq<ResourceAccess>) -> bool {
    &&& lock_ordered(plan)
    &&& forall|i: int| 0 <= i < plan.len() ==> declares(input, key_view(#[trigger] plan[i].key))
    &&& forall|j: int| 0 <= j < input.len() ==> declares(plan, key_view(#[trigger] input[j].key))
    &&& forall|i: int| 0 <= i < plan.len() ==> ((#[trigger] plan[i]).mode == ResourceAccessMode::Exclusive
            <==> declares_exclusive(input, key_view(plan[i].key)))
}

/// Sorts and merges the declarations of one node into the order in which the
/// scheduler takes its locks; taking locks in one global order is what keeps
/// nodes that share several resources from deadlocking.
pub fn normalize_access(access: AccessSet) -> (plan: Vec<ResourceAccess>)
    ensures
        lock_plan_of(access.resources@, plan@),
{
    let input = access.resources;
    let mut plan: Vec<ResourceAccess> = Vec::new();
    let mut n: usize = 0;
    while n < input.len()
        invariant
            n <= input@.len(),
            lock_plan_of(input@.take(n as int), plan@),
        decreases input@.len() - n,
    {
        let ghost before = plan@;
        let ghost seen = input@.take(n as int);
        let ghost next = input@.take(n + 1);
        assert(next =~= seen.push(input@[n as int]));
        let item = &input[n];
        let ghost k = key_view(item.key);
        let mut pos: usize = 0;
        let mut found = false;
        let mut done = false;
        while !done && pos < plan.len()
            invariant
                plan@ == before,
                pos <= plan@.len(),
                lock_ordered(plan@),
                k == key_view(item.key),
                !done ==> !found,
                done ==> pos < plan@.len(),
                done && found ==> key_view(plan@[pos as int].key) == k,
                done && !found ==> key_lt(k, key_view(plan@[pos as int].key)),
                forall|i: int| 0 <= i < pos ==> key_lt(key_view(#[trigger] plan@[i].key), k),
            decreases plan@.len() - pos + (if done { 0int } else { 1int }),
        {
            match compare_keys(&plan[pos].key, &item.key) {
                TextOrder::Less => {
                    assert(key_lt(key_view(plan@[pos as int].key), k));
                    pos += 1;
                },
                TextOrder::Equal => { found = true; done = true; },
                TextOrder::Greater => { done = true; },
            }
        }
        if found {
            if item.mode == ResourceAccessMode::Exclusive {
                let old_item = plan.remove(pos);
                plan.insert(pos, ResourceAccess { key: old_item.key, mode: ResourceAccessMode::Exclusive });
                assert(plan@ =~= before.update(pos as int, ResourceAccess { key: before[pos as int].key, mode: ResourceAccessMode::Exclusive }));
            }
            proof {
                lemma_merge_existing(seen, before, plan@, input@[n as int], pos as int);
            }
        } else {
            let fresh = ResourceAccess { key: item.key.duplicate(), mode: item.mode };
            plan.insert(pos, fresh);
            proof {
                lemma_insert_fresh(seen, before, plan@, input@[n as int], pos as int);
            }
        }
        n += 1;
    }
    assert(input@.take(input@.len() as int) =~= input@);
    plan
}

proof fn lemma_merge_existing(
    seen: Seq<ResourceAccess>,
    before: Seq<ResourceAccess>,
    after: Seq<ResourceAccess>,
    item: ResourceAccess,
    pos: int,
)
    requires
        lock_plan_of(seen, before),
        0 <= pos < before.len(),
        key_view(before[pos].key) == key_view(item.key),
        item.mode == ResourceAccessMode::Exclusive ==> after == before.update(pos, ResourceAccess { key: before[pos].key, mode: ResourceAccessMode::Exclusive }),
        item.mode != ResourceAccessMode::Exclusive ==> after == before,
    ensures
        lock_plan_of(seen.push(item), after),
{
    let next = seen.push(item);
    assert forall|i: int| 0 <= i < after.len() implies declares(next, key_view(#[trigger] after[i].key)) by {
        assert(key_view(after[i].key) == key_view(before[i].key));
        let j = choose|j: int| 0 <= j < seen.len() && key_view(#[trigger] seen[j].key) == key_view(before[i].key);
        assert(next[j] == seen[j]);
    }
    assert forall|j: int| 0 <= j < next.len() implies declares(after, key_view(#[trigger] next[j].key)) by {
        if j < seen.len() {
            assert(next[j] == seen[j]);
            let i = choose|i: int| 0 <= i < before.len() && key_view(#[trigger] before[i].key) == key_view(seen[j].key);
            assert(key_view(after[i].key) == key_view(before[i].key));
        } else {
            assert(key_view(after[pos].key) == key_view(before[pos].key));
        }
    }
    assert forall|i: int| 0 <= i < after.len() implies ((#[trigger] after[i]).mode == ResourceAccessMode::Exclusive
        <==> declares_exclusive(next, key_view(after[i].key))) by {
        let ki = key_view(before[i].key);
        assert(key_view(after[i].key) == ki);
        let last = seen.len() as int;
        assert(next[last] == item);
        assert(key_view(next[last].key) == key_view(item.key));
        assert(before[i].mode == ResourceAccessMode::Exclusive <==> declares_exclusive(seen, ki));
        if declares_exclusive(seen, ki) {
            let j = choose|j: int| 0 <= j < seen.len() && key_view(#[trigger] seen[j].key) == ki
                && seen[j].mode == ResourceAccessMode::Exclusive;
            assert(next[j] == seen[j]);
            assert(declares_exclusive(next, ki));
        }
        if i != pos {
            lemma_key_order(ki, key_view(before[pos].key), ki);
            if i < pos {
                assert(key_lt(ki, key_view(before[pos].key)));
            } else {
                assert(key_lt(key_view(before[pos].key), ki));
            }
            assert(ki != key_view(item.key));
            assert(after[i] == before[i]);
            if declares_exclusive(next, ki) {
                let j = choose|j: int| 0 <= j < next.len() && key_view(#[trigger] next[j].key) == ki
                    && next[j].mode == ResourceAccessMode::Exclusive;
                assert(j != last);
                assert(next[j] == seen[j]);
                assert(declares_exclusive(seen, ki));
            }
        } else {
            if item.mode == ResourceAccessMode::Exclusive {
                assert(declares_exclusive(next, ki));
                assert(after[i].mode == ResourceAccessMode::Exclusive);
            } else {
                assert(after[i] == before[i]);
                if declares_exclusive(next, ki) {
                    let j = choose|j: int| 0 <= j < next.len() && key_view(#[trigger] next[j].key) == ki
                        && next[j].mode == ResourceAccessMode::Exclusive;
                    assert(j != last);
                    assert(next[j] == seen[j]);
                    assert(declares_exclusive(seen, ki));
                }
            }
        }
    }
    assert forall|a: int, b: int| 0 <= a < b < after.len() implies key_lt(key_view(#[trigger] after[a].key), key_view(#[trigger] after[b].key)) by {
        assert(key_view(after[a].key) == key_view(before[a].key));
        assert(key_view(after[b].key) == key_view(before[b].key));
    }
}

proof fn lemma_insert_fresh(
    seen: Seq<ResourceAccess>,
    before: Seq<ResourceAccess>,
    after: Seq<ResourceAccess>,
    item: ResourceAccess,
    pos: int,
)
    requires
        lock_plan_of(seen, before),
        0 <= pos <= before.len(),
        forall|i: int| 0 <= i < pos ==> key_lt(key_view(#[trigger] before[i].key), key_view(item.key)),
        pos < before.len() ==> key_lt(key_view(item.key), key_view(before[pos].key)),
        after.len() == before.len() + 1,
        key_view(after[pos].key) == key_view(item.key),
        after[pos].mode == item.mode,
        forall|i: int| 0 <= i < pos ==> after[i] == before[i],
        forall|i: int| pos < i < after.len() ==> after[i] == before[i - 1],
    ensures
        lock_plan_of(seen.push(item), after),
{
    let next = seen.push(item);
    let k = key_view(item.key);
    assert forall|i: int| 0 <= i < before.len() implies key_view(#[trigger] before[i].key) != k by {
        if i < pos {
            lemma_key_order(key_view(before[i].key), k, k);
        } else {
            if i > pos {
                assert(key_lt(key_view(before[pos].key), key_view(before[i].key)));
                lemma_key_order(k, key_view(before[pos].key), key_view(before[i].key));
            }
            lemma_key_order(k, key_view(before[i].key), k);
        }
    }
    assert forall|j: int| 0 <= j < seen.len() implies key_view(#[trigger] seen[j].key) != k by {
        let i = choose|i: int| 0 <= i < before.len() && key_view(#[trigger] before[i].key) == key_view(seen[j].key);
    }
    assert forall|a: int, b: int| 0 <= a < b < after.len() implies key_lt(key_view(#[trigger] after[a].key), key_view(#[trigger] after[b].key)) by {
        if b < pos {
        } else if a < pos && b == pos {
        } else if a < pos && b > pos {
            assert(after[b] == before[b - 1]);
            if b - 1 > pos - 1 && pos < before.len() {
                if b - 1 > pos {
                    assert(key_lt(key_view(before[pos].key), key_view(before[b - 1].key)));
                    lemma_key_order(k, key_view(before[pos].key), key_view(before[b - 1].key));
                }
                lemma_key_order(key_view(before[a].key), k, key_view(before[b - 1].key));
            } else {
                assert(key_lt(key_view(before[a].key), key_view(before[b - 1].key)));
            }
        } else if a == pos {
            assert(after[b] == before[b - 1]);
            if b - 1 > pos {
                assert(key_lt(key_view(before[pos].key), key_view(before[b - 1].key)));
                lemma_key_order(k, key_view(before[pos].key), key_view(before[b - 1].key));
            }
        } else {
            assert(after[a] == before[a - 1]);
            assert(after[b] == before[b - 1]);
        }
    }
    assert forall|i: int| 0 <= i < after.len() implies declares(next, key_view(#[trigger] after[i].key)) by {
        if i == pos {
            assert(next[seen.len() as int] == item);
        } else {
            let bi = if i < pos { i } else { i - 1 };
            assert(after[i] == before[bi]);
            let j = choose|j: int| 0 <= j < seen.len() && key_view(#[trigger] seen[j].key) == key_view(before[bi].key);
            assert(next[j] == seen[j]);
        }
    }
    assert forall|j: int| 0 <= j < next.len() implies declares(after, key_view(#[trigger] next[j].key)) by {
        if j < seen.len() {
            assert(next[j] == seen[j]);
            let i = choose|i: int| 0 <= i < before.len() && key_view(#[trigger] before[i].key) == key_view(seen[j].key);
            if i < pos {
                assert(after[i] == before[i]);
            } else {
                assert(after[i + 1] == before[i]);
            }
        } else {
            assert(next[j] == item);
        }
    }
    assert forall|i: int| 0 <= i < after.len() implies ((#[trigger] after[i]).mode == ResourceAccessMode::Exclusive
        <==> declares_exclusive(next, key_view(after[i].key))) by {
        if i == pos {
            let last = seen.len() as int;
            assert(next[last] == item);
            assert(key_view(next[last].key) == k);
            if item.mode == ResourceAccessMode::Exclusive {
                assert(declares_exclusive(next, k));
            }
            if declares_exclusive(next, k) {
                let j = choose|j: int| 0 <= j < next.len() && key_view(#[trigger] next[j].key) == k
                    && next[j].mode == ResourceAccessMode::Exclusive;
                if j < seen.len() {
                    assert(next[j] == seen[j]);
                    assert(key_view(seen[j].key) != k);
                }
            }
            assert(after[i].mode == ResourceAccessMode::Exclusive <==> declares_exclusive(next, key_view(after[i].key)));
        } else {
            let bi = if i < pos { i } else { i - 1 };
            assert(after[i] == before[bi]);
            let kb = key_view(before[bi].key);
            assert(kb != k);
            assert(before[bi].mode == ResourceAccessMode::Exclusive <==> declares_exclusive(seen, kb));
            if declares_exclusive(seen, kb) {
                let j = choose|j: int| 0 <= j < seen.len() && key_view(#[trigger] seen[j].key) == kb
                    && seen[j].mode == ResourceAccessMode::Exclusive;
                assert(next[j] == seen[j]);
            }
            if declares_exclusive(next, kb) {
                let j = choose|j: int| 0 <= j < next.len() && key_view(#[trigger] next[j].key) == kb
                    && next[j].mode == ResourceAccessMode::Exclusive;
                if j < seen.len() {
                    assert(next[j] == seen[j]);
                } else {
                    assert(next[j] == item);
                }
            }
            if after[i].mode == ResourceAccessMode::Exclusive {
                let j = choose|j: int| 0 <= j < seen.len() && key_view(#[trigger] seen[j].key) == kb
                    && seen[j].mode == ResourceAccessMode::Exclusive;
                assert(next[j] == seen[j]);
                assert(declares_exclusive(next, kb));
            }
            assert(after[i].mode == ResourceAccessMode::Exclusive <==> declares_exclusive(next, key_view(after[i].key)));
        }
    }
}

} // verus!
