//! The document checks every compilation starts with: format version and
//! name, document budgets, scope and node identities, node time limits,
//! the root scope, and resource ports.

use vstd::prelude::*;
use vstd::string::*;
use crate::component::has_text;
use crate::text::{is_blank, is_blank_text, owned, text_equal};

verus! {

/// Classification of a compilation diagnostic.
#[derive(Debug, Clone, Copy, PartialEq, Eq, Structural)]
pub enum DiagnosticCode {
    /// Graph or document structure.
    Structure,
    /// Types of values and fields.
    Type,
    /// Resource ports.
    Resource,
    /// References to names.
    Reference,
    /// Control flow.
    Control,
    /// Use before initialisation.
    Uninitialized,
    /// Budgets out of range.
    Limit,
    /// Task signatures and retry policies.
    Task,
}

/// A compilation failure, located where it was found.
#[derive(Debug, Clone)]
pub struct Diagnostic {
    /// Classification.
    pub code: DiagnosticCode,
    /// Explanation.
    pub message: String,
    /// Scope concerned, if any.
    pub scope: Option<String>,
    /// Node concerned, if any.
    pub node: Option<String>,
}

/// Identity and time limit of a node.
#[derive(Debug, Clone)]
pub struct NodeOutline {
    /// Node ID.
    pub id: String,
    /// Node time limit in milliseconds, if any.
    pub timeout_ms: Option<u64>,
}

/// Identity and nodes of a scope.
#[derive(Debug, Clone)]
pub struct ScopeOutline {
    /// Scope ID.
    pub id: String,
    /// Nodes in document order.
    pub nodes: Vec<NodeOutline>,
}

/// What the first checks of a compilation read of a document.
#[derive(Debug, Clone)]
pub struct WorkflowOutline {
    /// Document format version; 1 is supported.
    pub schema_version: u32,
    /// Display name.
    pub name: String,
    /// Root scope ID.
    pub root: String,
    /// Scopes in document order.
    pub scopes: Vec<ScopeOutline>,
}

/// A name is usable: not blank and at most 256 bytes of UTF-8.
pub open spec fn name_ok(s: Seq<char>) -> bool {
    !is_blank_text(s) && vstd::utf8::encode_utf8(s).len() <= 256
}

/// Checks that a name is not blank and at most 256 bytes long.
pub fn valid_name(name: &str) -> (b: bool)
    ensures
        b == name_ok(name@),
{
    !is_blank(name) && name.as_bytes().len() <= 256
}

/// Most scopes of one document.
pub const MAX_SCOPES: usize = 1024;
/// Most nodes of one document, over all scopes.
pub const MAX_NODES: usize = 10_000;
/// Longest node time limit: one day, in milliseconds.
pub const MAX_NODE_TIMEOUT_MS: u64 = 86_400_000;

/// Number of nodes of the first `n` scopes.
pub open spec fn node_count(scopes: Seq<ScopeOutline>, n: int) -> int
    decreases n,
{
    if n <= 0 || n > scopes.len() { 0 } else { node_count(scopes, n - 1) + scopes[n - 1].nodes@.len() }
}

/// Scope `s` has an unusable or repeated ID.
pub open spec fn scope_bad(scopes: Seq<ScopeOutline>, s: int) -> bool {
    !name_ok(scopes[s].id@) || exists|t: int| 0 <= t < s && (#[trigger] scopes[t]).id@ == scopes[s].id@
}

/// Some node before node `n` of scope `s`, in document order, has the ID `id`.
pub open spec fn node_seen(scopes: Seq<ScopeOutline>, s: int, n: int, id: Seq<char>) -> bool {
    exists|t: int, m: int| 0 <= t <= s && 0 <= m < scopes[t].nodes@.len() && (t < s || m < n)
        && (#[trigger] scopes[t].nodes@[m]).id@ == id
}

/// Node `n` of scope `s` has an unusable or repeated ID.
pub open spec fn node_id_bad(scopes: Seq<ScopeOutline>, s: int, n: int) -> bool {
    !name_ok(scopes[s].nodes@[n].id@) || node_seen(scopes, s, n, scopes[s].nodes@[n].id@)
}

/// Node `n` of scope `s` has a time limit outside 1..=86 400 000 ms.
pub open spec fn timeout_bad(scopes: Seq<ScopeOutline>, s: int, n: int) -> bool {
    match scopes[s].nodes@[n].timeout_ms {
        Some(t) => t == 0 || t > MAX_NODE_TIMEOUT_MS,
        None => false,
    }
}

/// The first `n` nodes of scope `s` pass their checks.
pub open spec fn nodes_clean(scopes: Seq<ScopeOutline>, s: int, n: int) -> bool {
    forall|m: int| 0 <= m < n ==> !node_id_bad(scopes, s, m) && !timeout_bad(scopes, s, m)
}

/// The first `s` scopes and all their nodes pass their checks.
pub open spec fn scopes_clean(scopes: Seq<ScopeOutline>, s: int) -> bool {
    forall|t: int| 0 <= t < s ==> !scope_bad(scopes, t) && nodes_clean(scopes, t, (#[trigger] scopes[t]).nodes@.len() as int)
}

/// Version and name are acceptable.
pub open spec fn header_ok(w: WorkflowOutline) -> bool {
    w.schema_version == 1 && !is_blank_text(w.name@)
}

/// Scope and node counts are within the document budget.
pub open spec fn size_ok(w: WorkflowOutline) -> bool {
    0 < w.scopes@.len() <= MAX_SCOPES && node_count(w.scopes@, w.scopes@.len() as int) <= MAX_NODES
}

/// `d` is a document-level diagnostic with `message`.
pub open spec fn general_is(d: Diagnostic, message: Seq<char>) -> bool {
    d.code == DiagnosticCode::Structure && d.message@ == message && d.scope is None && d.node is None
}

/// `d` is a diagnostic at node `n` of scope `s` with `message`.
pub open spec fn at_node_is(d: Diagnostic, scopes: Seq<ScopeOutline>, s: int, n: int, message: Seq<char>) -> bool {
    &&& d.code == DiagnosticCode::Structure
    &&& d.message@ == message
    &&& match d.scope { Some(x) => x@ == scopes[s].id@, None => false }
    &&& match d.node { Some(x) => x@ == scopes[s].nodes@[n].id@, None => false }
}

/// The diagnostic the outline checks stop at, in document order.
pub open spec fn outline_failure(w: WorkflowOutline, d: Diagnostic) -> bool {
    let scopes = w.scopes@;
    if !header_ok(w) {
        general_is(d, "文档版本必须为 1 且名称非空"@)
    } else if !size_ok(w) {
        general_is(d, "作用域或节点数量超出文档预算"@)
    } else if !scopes_clean(scopes, scopes.len() as int) {
        exists|s: int| 0 <= s < scopes.len() && scopes_clean(scopes, s) && #[trigger] first_failure_in(scopes, s, d)
    } else {
        general_is(d, "根作用域不存在"@)
    }
}

/// Scope `s` holds the first failure, described by `d`.
pub open spec fn first_failure_in(scopes: Seq<ScopeOutline>, s: int, d: Diagnostic) -> bool {
    if scope_bad(scopes, s) {
        general_is(d, "作用域 ID 为空、过长或重复"@)
    } else {
        exists|n: int| 0 <= n < scopes[s].nodes@.len() && nodes_clean(scopes, s, n) && {
            if node_id_bad(scopes, s, n) {
                at_node_is(d, scopes, s, n, "节点 ID 为空、过长或重复"@)
            } else {
                timeout_bad(scopes, s, n) && at_node_is(d, scopes, s, n, "节点时限必须在 1..=86400000 毫秒"@)
            }
        }
    }
}

/// A structure diagnostic about the whole document.
fn general(message: &str) -> (d: Diagnostic)
    ensures
        general_is(d, message@),
{
    Diagnostic { code: DiagnosticCode::Structure, message: owned(message), scope: None, node: None }
}

/// Counts the nodes of all scopes, or `None` past the document budget.
fn bounded_node_count(scopes: &Vec<ScopeOutline>) -> (r: Option<usize>)
    ensures
        match r {
            Some(n) => n == node_count(scopes@, scopes@.len() as int) && n <= MAX_NODES,
            None => node_count(scopes@, scopes@.len() as int) > MAX_NODES,
        },
{
    let mut total: usize = 0;
    let mut i: usize = 0;
    while i < scopes.len()
        invariant
            i <= scopes@.len(),
            total == node_count(scopes@, i as int),
            total <= MAX_NODES,
        decreases scopes@.len() - i,
    {
        let n = scopes[i].nodes.len();
        if n > MAX_NODES - total {
            proof { lemma_node_count_grows(scopes@, i as int + 1, scopes@.len() as int); }
            return None;
        }
        total = total + n;
        i += 1;
    }
    Some(total)
}

/// Node counts never shrink as more scopes are counted.
proof fn lemma_node_count_grows(scopes: Seq<ScopeOutline>, a: int, b: int)
    requires
        0 <= a <= b <= scopes.len(),
    ensures
        node_count(scopes, a) <= node_count(scopes, b),
    decreases b - a,
{
    if a < b {
        lemma_node_count_grows(scopes, a, b - 1);
    }
}

/// Runs the outline checks of a document in order: version and name,
/// budgets, then every scope ID followed by its node IDs and time limits,
/// and finally the root scope. Returns the root scope's index.
pub fn check_outline(w: &WorkflowOutline) -> (r: Result<usize, Diagnostic>)
    ensures
        match r {
            Ok(root) => header_ok(*w) && size_ok(*w) && scopes_clean(w.scopes@, w.scopes@.len() as int)
                && root < w.scopes@.len() && w.scopes@[root as int].id@ == w.root@,
            Err(d) => outline_failure(*w, d)
                && !(header_ok(*w) && size_ok(*w) && scopes_clean(w.scopes@, w.scopes@.len() as int)
                    && exists|s: int| 0 <= s < w.scopes@.len() && (#[trigger] w.scopes@[s]).id@ == w.root@),
        },
{
    proof {
        reveal_strlit("文档版本必须为 1 且名称非空");
        reveal_strlit("作用域或节点数量超出文档预算");
        reveal_strlit("根作用域不存在");
    }
    if w.schema_version != 1 || is_blank(w.name.as_str()) {
        return Err(general("文档版本必须为 1 且名称非空"));
    }
    let scopes = &w.scopes;
    if scopes.len() == 0 || scopes.len() > MAX_SCOPES {
        return Err(general("作用域或节点数量超出文档预算"));
    }
    match bounded_node_count(scopes) {
        None => { return Err(general("作用域或节点数量超出文档预算")); },
        Some(_) => {},
    }
    let mut seen_scopes: Vec<String> = Vec::new();
    let mut seen_nodes: Vec<String> = Vec::new();
    let mut s: usize = 0;
    while s < scopes.len()
        invariant
            *scopes == w.scopes,
            header_ok(*w),
            size_ok(*w),
            s <= scopes@.len(),
            scopes_clean(scopes@, s as int),
            forall|x: Seq<char>| has_text(seen_scopes@, x) <==> exists|t: int| 0 <= t < s && (#[trigger] scopes@[t]).id@ == x,
            forall|x: Seq<char>| has_text(seen_nodes@, x) <==> node_seen(scopes@, s as int, 0, x),
        decreases scopes@.len() - s,
    {
        let scope = &scopes[s];
        if !valid_name(scope.id.as_str()) || crate::component::contains_text(&seen_scopes, scope.id.as_str()) {
            let d = general("作用域 ID 为空、过长或重复");
            proof {
                reveal_strlit("作用域 ID 为空、过长或重复");
                assert(scope_bad(scopes@, s as int));
                assert(first_failure_in(scopes@, s as int, d));
                assert(!scopes_clean(scopes@, scopes@.len() as int));
                assert(outline_failure(*w, d));
            }
            return Err(d);
        }
        proof {
            assert(!scope_bad(scopes@, s as int));
            assert forall|x: Seq<char>| node_seen(scopes@, s as int, 0, x) <==> node_seen(scopes@, s as int, 0, x) by {}
        }
        let mut n: usize = 0;
        while n < scope.nodes.len()
            invariant
                *scopes == w.scopes,
                header_ok(*w),
                size_ok(*w),
                s < scopes@.len(),
                *scope == scopes@[s as int],
                n <= scope.nodes@.len(),
                !scope_bad(scopes@, s as int),
                scopes_clean(scopes@, s as int),
                nodes_clean(scopes@, s as int, n as int),
                forall|x: Seq<char>| has_text(seen_nodes@, x) <==> node_seen(scopes@, s as int, n as int, x),
            decreases scope.nodes@.len() - n,
        {
            let node = &scope.nodes[n];
            if !valid_name(node.id.as_str()) || crate::component::contains_text(&seen_nodes, node.id.as_str()) {
                let d = Diagnostic {
                    code: DiagnosticCode::Structure,
                    message: owned("节点 ID 为空、过长或重复"),
                    scope: Some(scope.id.clone()),
                    node: Some(node.id.clone()),
                };
                proof {
                    reveal_strlit("节点 ID 为空、过长或重复");
                    assert(node_id_bad(scopes@, s as int, n as int));
                    assert(at_node_is(d, scopes@, s as int, n as int, "节点 ID 为空、过长或重复"@));
                    assert(first_failure_in(scopes@, s as int, d));
                    assert(!nodes_clean(scopes@, s as int, scope.nodes@.len() as int));
                    assert(!scopes_clean(scopes@, scopes@.len() as int));
                    assert(outline_failure(*w, d));
                }
                return Err(d);
            }
            let bad_timeout = match node.timeout_ms {
                Some(t) => t == 0 || t > MAX_NODE_TIMEOUT_MS,
                None => false,
            };
            if bad_timeout {
                let d = Diagnostic {
                    code: DiagnosticCode::Structure,
                    message: owned("节点时限必须在 1..=86400000 毫秒"),
                    scope: Some(scope.id.clone()),
                    node: Some(node.id.clone()),
                };
                proof {
                    reveal_strlit("节点时限必须在 1..=86400000 毫秒");
                    assert(!node_id_bad(scopes@, s as int, n as int));
                    assert(timeout_bad(scopes@, s as int, n as int));
                    assert(at_node_is(d, scopes@, s as int, n as int, "节点时限必须在 1..=86400000 毫秒"@));
                    assert(first_failure_in(scopes@, s as int, d));
                    assert(!nodes_clean(scopes@, s as int, scope.nodes@.len() as int));
                    assert(!scopes_clean(scopes@, scopes@.len() as int));
                    assert(outline_failure(*w, d));
                }
                return Err(d);
            }
            let ghost before = seen_nodes@;
            seen_nodes.push(node.id.clone());
            proof {
                assert forall|x: Seq<char>| has_text(seen_nodes@, x) <==> node_seen(scopes@, s as int, n + 1, x) by {
                    if has_text(seen_nodes@, x) {
                        let k = choose|k: int| 0 <= k < seen_nodes@.len() && (#[trigger] seen_nodes@[k])@ == x;
                        if k < before.len() {
                            assert(before[k] == seen_nodes@[k]);
                            assert(has_text(before, x));
                            let (t, m) = choose|t: int, m: int| 0 <= t <= s && 0 <= m < scopes@[t].nodes@.len() && (t < s || m < n)
                                && (#[trigger] scopes@[t].nodes@[m]).id@ == x;
                            assert(0 <= t <= s && 0 <= m < scopes@[t].nodes@.len() && (t < s || m < n + 1) && scopes@[t].nodes@[m].id@ == x);
                        } else {
                            assert(scopes@[s as int].nodes@[n as int].id@ == x);
                        }
                    }
                    if node_seen(scopes@, s as int, n + 1, x) {
                        let (t, m) = choose|t: int, m: int| 0 <= t <= s && 0 <= m < scopes@[t].nodes@.len() && (t < s || m < n + 1)
                            && (#[trigger] scopes@[t].nodes@[m]).id@ == x;
                        if t < s || m < n {
                            assert(node_seen(scopes@, s as int, n as int, x));
                            assert(has_text(before, x));
                            let k = choose|k: int| 0 <= k < before.len() && (#[trigger] before[k])@ == x;
                            assert(seen_nodes@[k] == before[k]);
                        } else {
                            assert(seen_nodes@[before.len() as int]@ == x);
                        }
                    }
                }
                assert(nodes_clean(scopes@, s as int, n + 1));
            }
            n += 1;
        }
        let ghost before_scopes = seen_scopes@;
        seen_scopes.push(scope.id.clone());
        proof {
            assert forall|x: Seq<char>| has_text(seen_scopes@, x) <==> exists|t: int| 0 <= t < s + 1 && (#[trigger] scopes@[t]).id@ == x by {
                if has_text(seen_scopes@, x) {
                    let k = choose|k: int| 0 <= k < seen_scopes@.len() && (#[trigger] seen_scopes@[k])@ == x;
                    if k < before_scopes.len() {
                        assert(before_scopes[k] == seen_scopes@[k]);
                        assert(has_text(before_scopes, x));
                    }
                }
                if exists|t: int| 0 <= t < s + 1 && (#[trigger] scopes@[t]).id@ == x {
                    let t = choose|t: int| 0 <= t < s + 1 && (#[trigger] scopes@[t]).id@ == x;
                    if t < s {
                        assert(has_text(before_scopes, x));
                        let k = choose|k: int| 0 <= k < before_scopes.len() && (#[trigger] before_scopes[k])@ == x;
                        assert(seen_scopes@[k] == before_scopes[k]);
                    } else {
                        assert(seen_scopes@[before_scopes.len() as int]@ == x);
                    }
                }
            }
            assert forall|x: Seq<char>| node_seen(scopes@, s as int, scopes@[s as int].nodes@.len() as int, x)
                <==> node_seen(scopes@, s + 1, 0, x) by {
                if node_seen(scopes@, s + 1, 0, x) {
                    let (t, m) = choose|t: int, m: int| 0 <= t <= s + 1 && 0 <= m < scopes@[t].nodes@.len() && (t < s + 1 || m < 0)
                        && (#[trigger] scopes@[t].nodes@[m]).id@ == x;
                    assert(t < s + 1);
                    assert(0 <= t <= s && 0 <= m < scopes@[t].nodes@.len()
                        && (t < s || m < scopes@[s as int].nodes@.len()) && scopes@[t].nodes@[m].id@ == x);
                }
                if node_seen(scopes@, s as int, scopes@[s as int].nodes@.len() as int, x) {
                    let (t, m) = choose|t: int, m: int| 0 <= t <= s && 0 <= m < scopes@[t].nodes@.len()
                        && (t < s || m < scopes@[s as int].nodes@.len()) && (#[trigger] scopes@[t].nodes@[m]).id@ == x;
                    assert(0 <= t <= s + 1 && 0 <= m < scopes@[t].nodes@.len() && (t < s + 1 || m < 0) && scopes@[t].nodes@[m].id@ == x);
                }
            }
            assert(scopes_clean(scopes@, s + 1));
        }
        s += 1;
    }
    let mut root: usize = 0;
    while root < scopes.len()
        invariant
            *scopes == w.scopes,
            header_ok(*w),
            size_ok(*w),
            scopes_clean(scopes@, scopes@.len() as int),
            root <= scopes@.len(),
            forall|t: int| 0 <= t < root ==> (#[trigger] scopes@[t]).id@ != w.root@,
        decreases scopes@.len() - root,
    {
        if text_equal(scopes[root].id.as_str(), w.root.as_str()) {
            return Ok(root);
        }
        root += 1;
    }
    Err(general("根作用域不存在"))
}

/// Most resource ports of one signature.
pub const MAX_RESOURCE_PORTS: usize = 1024;

/// Checks resource ports (name, type): at most 1024, every name and type
/// usable; a failure is reported at `scope`.
pub fn validate_resources(ports: &Vec<(String, String)>, scope: &str) -> (r: Result<(), Diagnostic>)
    ensures
        r is Ok <==> (ports@.len() <= MAX_RESOURCE_PORTS && forall|i: int| 0 <= i < ports@.len()
            ==> name_ok((#[trigger] ports@[i]).0@) && name_ok(ports@[i].1@)),
        r matches Err(d) ==> (d.code == DiagnosticCode::Resource && d.message@ == "资源端口数量、名称或类型无效"@
            && (d.scope matches Some(x) && x@ == scope@) && d.node is None),
{
    let ok = if ports.len() > MAX_RESOURCE_PORTS {
        false
    } else {
        let mut i: usize = 0;
        let mut all = true;
        while i < ports.len()
            invariant
                i <= ports@.len(),
                all == forall|j: int| 0 <= j < i ==> name_ok((#[trigger] ports@[j]).0@) && name_ok(ports@[j].1@),
            decreases ports@.len() - i,
        {
            if !valid_name(ports[i].0.as_str()) || !valid_name(ports[i].1.as_str()) {
                all = false;
            }
            i += 1;
        }
        all
    };
    if !ok {
        return Err(Diagnostic {
            code: DiagnosticCode::Resource,
            message: owned("资源端口数量、名称或类型无效"),
            scope: Some(owned(scope)),
            node: None,
        });
    }
    Ok(())
}

} // verus!
