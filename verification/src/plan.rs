//! Lexical checks of structured actions: which actions can complete
//! normally, where Break, Continue and Return may stand, loop budgets, and
//! the resolution of assignment targets with their temporal dead zone.

use vstd::prelude::*;
use vstd::string::*;
use crate::compile::{name_ok, valid_name, Diagnostic, DiagnosticCode};
use crate::control::{retry_policy_accepted, retry_policy_valid};
use crate::errors::{ErrorKind, RunError};
use crate::text::{owned, text_equal};

verus! {

/// The control skeleton of a compiled action: the scopes it runs, by index.
#[derive(Debug, Clone)]
pub enum PlanAction {
    Let,
    Assign,
    Block(usize),
    If { then_scope: usize, else_scope: usize },
    Switch { cases: Vec<usize>, default_scope: usize },
    While { body: usize },
    ForEach { body: usize },
    Break,
    Continue,
    Call { scope: usize },
    Return,
    Try { body: usize, catches: Vec<usize>, finally: Option<usize> },
    Fail { code: String },
    Wait,
    Task,
    Release,
}

/// Scope `s` has been compiled and can complete normally.
pub open spec fn scope_completes(plans: Seq<Option<bool>>, s: usize) -> bool {
    plans[s as int] == Some(true)
}

/// Some scope of `scopes` can complete normally.
pub open spec fn any_completes(plans: Seq<Option<bool>>, scopes: Seq<usize>) -> bool {
    exists|i: int| 0 <= i < scopes.len() && scope_completes(plans, #[trigger] scopes[i])
}

/// Every scope an action names has an entry in `plans`.
pub open spec fn scopes_known(plans: Seq<Option<bool>>, a: PlanAction) -> bool {
    match a {
        PlanAction::Block(s) => s < plans.len(),
        PlanAction::If { then_scope, else_scope } => then_scope < plans.len() && else_scope < plans.len(),
        PlanAction::Switch { cases, default_scope } => default_scope < plans.len()
            && forall|i: int| 0 <= i < cases@.len() ==> #[trigger] cases@[i] < plans.len(),
        PlanAction::Try { body, catches, finally } => body < plans.len()
            && (forall|i: int| 0 <= i < catches@.len() ==> #[trigger] catches@[i] < plans.len())
            && (finally matches Some(f) ==> f < plans.len()),
        _ => true,
    }
}

/// Whether control can leave an action normally: never after Return,
/// Fail, Break or Continue; after a block when its scope can; after a
/// branch when one of its scopes can; after a Try when its body or one of
/// its handlers can and its Finally, if any, can too; always otherwise.
pub open spec fn completes(plans: Seq<Option<bool>>, a: PlanAction) -> bool {
    match a {
        PlanAction::Return | PlanAction::Fail { .. } | PlanAction::Break | PlanAction::Continue => false,
        PlanAction::Block(s) => scope_completes(plans, s),
        PlanAction::If { then_scope, else_scope } => scope_completes(plans, then_scope)
            || scope_completes(plans, else_scope),
        PlanAction::Switch { cases, default_scope } => scope_completes(plans, default_scope)
            || any_completes(plans, cases@),
        PlanAction::Try { body, catches, finally } => (scope_completes(plans, body) || any_completes(plans, catches@))
            && match finally {
                Some(f) => scope_completes(plans, f),
                None => true,
            },
        _ => true,
    }
}

fn completes_at(plans: &Vec<Option<bool>>, s: usize) -> (b: bool)
    requires
        s < plans@.len(),
    ensures
        b == scope_completes(plans@, s),
{
    match plans[s] {
        Some(c) => c,
        None => false,
    }
}

fn any_at(plans: &Vec<Option<bool>>, scopes: &Vec<usize>) -> (b: bool)
    requires
        forall|i: int| 0 <= i < scopes@.len() ==> #[trigger] scopes@[i] < plans@.len(),
    ensures
        b == any_completes(plans@, scopes@),
{
    let mut i: usize = 0;
    while i < scopes.len()
        invariant
            i <= scopes@.len(),
            forall|k: int| 0 <= k < scopes@.len() ==> #[trigger] scopes@[k] < plans@.len(),
            forall|k: int| 0 <= k < i ==> !scope_completes(plans@, #[trigger] scopes@[k]),
        decreases scopes@.len() - i,
    {
        if completes_at(plans, scopes[i]) {
            return true;
        }
        i += 1;
    }
    false
}

/// Whether control can leave `action` normally, given which compiled
/// scopes can complete.
pub fn can_complete(plans: &Vec<Option<bool>>, action: &PlanAction) -> (b: bool)
    requires
        scopes_known(plans@, *action),
    ensures
        b == completes(plans@, *action),
{
    match action {
        PlanAction::Return | PlanAction::Fail { .. } | PlanAction::Break | PlanAction::Continue => false,
        PlanAction::Block(s) => completes_at(plans, *s),
        PlanAction::If { then_scope, else_scope } => completes_at(plans, *then_scope)
            || completes_at(plans, *else_scope),
        PlanAction::Switch { cases, default_scope } => completes_at(plans, *default_scope) || any_at(plans, cases),
        PlanAction::Try { body, catches, finally } => {
            let normal = completes_at(plans, *body) || any_at(plans, catches);
            normal && match finally {
                Some(f) => completes_at(plans, *f),
                None => true,
            }
        },
        _ => true,
    }
}

/// Where an action stands in the enclosing call.
#[derive(Debug, Clone, Copy, PartialEq, Eq, Structural)]
pub struct ControlEnv {
    /// Loops of this call around the action, counted since the last Finally.
    pub loop_depth: u32,
    /// The action stands in a Finally.
    pub in_finally: bool,
    /// The enclosing call declares what it returns.
    pub has_return_contract: bool,
}

/// The environment of a loop body.
pub fn loop_body_env(env: ControlEnv) -> (e: ControlEnv)
    requires
        env.loop_depth < u32::MAX,
    ensures
        e == (ControlEnv { loop_depth: (env.loop_depth + 1) as u32, ..env }),
{
    ControlEnv { loop_depth: env.loop_depth + 1, ..env }
}

/// The environment of a Finally: no loop of the call can be left from it.
pub fn finally_env(env: ControlEnv) -> (e: ControlEnv)
    ensures
        e == (ControlEnv { loop_depth: 0, in_finally: true, ..env }),
{
    ControlEnv { loop_depth: 0, in_finally: true, ..env }
}

/// The head of an action, as far as its placement is checked.
#[derive(Debug, Clone)]
pub enum ActionHead {
    /// Break or Continue.
    LoopExit,
    /// Return.
    Return,
    /// While or ForEach with its declared budget.
    Loop { max_iterations: Option<u32> },
    /// Fail with its error code.
    Fail { code: String },
    /// Assign with its number of targets.
    Assign { targets: usize },
    /// Any other action.
    Other,
}

/// The code and message of the placement failure of an action, if any.
pub open spec fn placement_failure(head: ActionHead, env: ControlEnv) -> Option<(DiagnosticCode, Seq<char>)> {
    match head {
        ActionHead::LoopExit => if env.loop_depth == 0 {
            Some((DiagnosticCode::Control, "Break/Continue 必须位于本次调用的循环内，且不能离开 Finally"@))
        } else { None },
        ActionHead::Return => if env.in_finally {
            Some((DiagnosticCode::Control, "Finally 不能用 Return 覆盖原始控制转移"@))
        } else if !env.has_return_contract {
            Some((DiagnosticCode::Control, "缺少调用返回契约"@))
        } else { None },
        ActionHead::Loop { max_iterations } => if max_iterations matches Some(n) && (n == 0 || n > 100_000) {
            Some((DiagnosticCode::Limit, "循环预算必须在 1..=100000"@))
        } else { None },
        ActionHead::Fail { code } => if !name_ok(code@) {
            Some((DiagnosticCode::Reference, "错误代码不能为空或过长"@))
        } else { None },
        ActionHead::Assign { targets } => if targets == 0 {
            Some((DiagnosticCode::Reference, "赋值不能为空"@))
        } else { None },
        ActionHead::Other => None,
    }
}

/// `d` reports `failure` at `scope` and `node`.
pub open spec fn reported_at(d: Diagnostic, failure: (DiagnosticCode, Seq<char>), scope: Seq<char>, node: Option<Seq<char>>) -> bool {
    &&& d.code == failure.0
    &&& d.message@ == failure.1
    &&& (d.scope matches Some(s) && s@ == scope)
    &&& match node {
        Some(n) => d.node matches Some(x) && x@ == n,
        None => d.node is None,
    }
}

/// Text of an optional text.
pub open spec fn opt_str(t: Option<&str>) -> Option<Seq<char>> {
    match t {
        Some(x) => Some(x@),
        None => None,
    }
}

fn diagnostic_at(code: DiagnosticCode, message: &str, scope: &str, node: Option<&str>) -> (d: Diagnostic)
    ensures
        reported_at(d, (code, message@), scope@, opt_str(node)),
{
    Diagnostic {
        code,
        message: owned(message),
        scope: Some(owned(scope)),
        node: match node {
            Some(n) => Some(owned(n)),
            None => None,
        },
    }
}

/// Checks where an action stands: Break and Continue only inside a loop of
/// the call, Return neither in a Finally nor without a return contract,
/// loop budgets in 1..=100000, usable Fail codes and non-empty assignments.
pub fn check_placement(head: &ActionHead, env: ControlEnv, scope: &str, node: Option<&str>) -> (r: Result<(), Diagnostic>)
    ensures
        match placement_failure(*head, env) {
            Some(f) => r matches Err(d) && reported_at(d, f, scope@, opt_str(node)),
            None => r is Ok,
        },
{
    match head {
        ActionHead::LoopExit => {
            if env.loop_depth == 0 {
                return Err(diagnostic_at(DiagnosticCode::Control,
                    "Break/Continue 必须位于本次调用的循环内，且不能离开 Finally", scope, node));
            }
        },
        ActionHead::Return => {
            if env.in_finally {
                return Err(diagnostic_at(DiagnosticCode::Control, "Finally 不能用 Return 覆盖原始控制转移", scope, node));
            }
            if !env.has_return_contract {
                return Err(diagnostic_at(DiagnosticCode::Control, "缺少调用返回契约", scope, node));
            }
        },
        ActionHead::Loop { max_iterations } => {
            match max_iterations {
                Some(n) => {
                    if *n == 0 || *n > 100_000 {
                        return Err(diagnostic_at(DiagnosticCode::Limit, "循环预算必须在 1..=100000", scope, node));
                    }
                },
                None => {},
            }
        },
        ActionHead::Fail { code } => {
            if !valid_name(code.as_str()) {
                return Err(diagnostic_at(DiagnosticCode::Reference, "错误代码不能为空或过长", scope, node));
            }
        },
        ActionHead::Assign { targets } => {
            if *targets == 0 {
                return Err(diagnostic_at(DiagnosticCode::Reference, "赋值不能为空", scope, node));
            }
        },
        ActionHead::Other => {},
    }
    Ok(())
}

/// The names a scope declares, each with its slot, and which slots may be
/// assigned.
#[derive(Debug, Clone)]
pub struct ScopeSymbols {
    /// (name, slot) entries.
    pub names: Vec<(String, usize)>,
    /// For each slot, whether it is mutable.
    pub mutable: Vec<bool>,
}

/// Every declared slot of every scope exists.
pub open spec fn symbols_wf(scopes: Seq<ScopeSymbols>) -> bool {
    forall|s: int, i: int| 0 <= s < scopes.len() && 0 <= i < scopes[s].names@.len()
        ==> (#[trigger] scopes[s].names@[i]).1 < scopes[s].mutable@.len()
}

/// Slot of `name` among `entries`; the latest entry wins.
pub open spec fn slot_of(entries: Seq<(String, usize)>, name: Seq<char>) -> Option<usize>
    decreases entries.len(),
{
    if entries.len() == 0 {
        None
    } else if entries.last().0@ == name {
        Some(entries.last().1)
    } else {
        slot_of(entries.drop_last(), name)
    }
}

/// Binding (scope, slot) that `name` resolves to through the chain of
/// visible scopes, the innermost (last) first.
pub open spec fn resolve(scopes: Seq<ScopeSymbols>, chain: Seq<usize>, name: Seq<char>) -> Option<(usize, usize)>
    decreases chain.len(),
{
    if chain.len() == 0 {
        None
    } else {
        match slot_of(scopes[chain.last() as int].names@, name) {
            Some(slot) => Some((chain.last(), slot)),
            None => resolve(scopes, chain.drop_last(), name),
        }
    }
}

/// Outcome of resolving the assignment targets `names` in order: the
/// bindings, or the code and message of the first failure: an undeclared
/// target, a target still in its temporal dead zone, or a read-only or
/// repeated target.
pub open spec fn assign_targets(scopes: Seq<ScopeSymbols>, chain: Seq<usize>, initialized: Seq<(usize, usize)>,
    names: Seq<Seq<char>>) -> Result<Seq<(usize, usize)>, (DiagnosticCode, Seq<char>)>
    decreases names.len(),
{
    if names.len() == 0 {
        Ok(Seq::empty())
    } else {
        match assign_targets(scopes, chain, initialized, names.drop_last()) {
            Err(f) => Err(f),
            Ok(done) => match resolve(scopes, chain, names.last()) {
                None => Err((DiagnosticCode::Reference, "赋值目标未声明"@)),
                Some(b) => if !initialized.contains(b) {
                    Err((DiagnosticCode::Uninitialized, "赋值目标仍处于暂时性死区"@))
                } else if !scopes[b.0 as int].mutable@[b.1 as int] || done.contains(b) {
                    Err((DiagnosticCode::Reference, "不能修改只读变量或重复赋值目标"@))
                } else {
                    Ok(done.push(b))
                },
            },
        }
    }
}

proof fn lemma_failure_persists(scopes: Seq<ScopeSymbols>, chain: Seq<usize>, initialized: Seq<(usize, usize)>,
    names: Seq<Seq<char>>, k: int)
    requires
        0 <= k <= names.len(),
        assign_targets(scopes, chain, initialized, names.take(k)) is Err,
    ensures
        assign_targets(scopes, chain, initialized, names) == assign_targets(scopes, chain, initialized, names.take(k)),
    decreases names.len() - k,
{
    if k == names.len() {
        assert(names.take(k) =~= names);
    } else {
        assert(names.take(k + 1).drop_last() =~= names.take(k));
        lemma_failure_persists(scopes, chain, initialized, names, k + 1);
    }
}

fn slot_in(entries: &Vec<(String, usize)>, name: &str) -> (r: Option<usize>)
    ensures
        r == slot_of(entries@, name@),
{
    let mut i = entries.len();
    assert(entries@.take(i as int) =~= entries@);
    while i > 0
        invariant
            i <= entries@.len(),
            slot_of(entries@, name@) == slot_of(entries@.take(i as int), name@),
        decreases i,
    {
        let ghost t = entries@.take(i as int);
        assert(t.last() == entries@[i - 1]);
        assert(t.drop_last() =~= entries@.take(i - 1));
        i -= 1;
        if text_equal(entries[i].0.as_str(), name) {
            return Some(entries[i].1);
        }
    }
    None
}

fn resolve_name(scopes: &Vec<ScopeSymbols>, chain: &Vec<usize>, name: &str) -> (r: Option<(usize, usize)>)
    requires
        forall|i: int| 0 <= i < chain@.len() ==> #[trigger] chain@[i] < scopes@.len(),
    ensures
        r == resolve(scopes@, chain@, name@),
        r matches Some(b) ==> b.0 < scopes@.len() && slot_of(scopes@[b.0 as int].names@, name@) == Some(b.1),
{
    let mut i = chain.len();
    assert(chain@.take(i as int) =~= chain@);
    while i > 0
        invariant
            i <= chain@.len(),
            forall|k: int| 0 <= k < chain@.len() ==> #[trigger] chain@[k] < scopes@.len(),
            resolve(scopes@, chain@, name@) == resolve(scopes@, chain@.take(i as int), name@),
        decreases i,
    {
        let ghost t = chain@.take(i as int);
        assert(t.last() == chain@[i - 1]);
        assert(t.drop_last() =~= chain@.take(i - 1));
        i -= 1;
        let s = chain[i];
        match slot_in(&scopes[s].names, name) {
            Some(slot) => { return Some((s, slot)); },
            None => {},
        }
    }
    None
}

proof fn lemma_slot_declared(entries: Seq<(String, usize)>, name: Seq<char>)
    requires
        slot_of(entries, name) is Some,
    ensures
        exists|i: int| 0 <= i < entries.len() && (#[trigger] entries[i]).1 == slot_of(entries, name)->0,
    decreases entries.len(),
{
    if entries.last().0@ == name {
        assert(entries[entries.len() - 1] == entries.last());
    } else {
        lemma_slot_declared(entries.drop_last(), name);
        let i = choose|i: int| 0 <= i < entries.drop_last().len() && (#[trigger] entries.drop_last()[i]).1 == slot_of(entries.drop_last(), name)->0;
        assert(entries[i] == entries.drop_last()[i]);
    }
}

fn contains_binding(v: &Vec<(usize, usize)>, b: (usize, usize)) -> (r: bool)
    ensures
        r == v@.contains(b),
{
    let mut i: usize = 0;
    while i < v.len()
        invariant
            i <= v@.len(),
            forall|k: int| 0 <= k < i ==> v@[k] != b,
        decreases v@.len() - i,
    {
        if v[i].0 == b.0 && v[i].1 == b.1 {
            assert(v@[i as int] == b);
            return true;
        }
        i += 1;
    }
    false
}

/// Resolves the targets of an assignment in order through the visible
/// scopes, innermost first, and checks that each is declared, out of its
/// temporal dead zone, mutable and named once; a failure is reported at
/// `scope` and `node`.
pub fn resolve_assign_targets(scopes: &Vec<ScopeSymbols>, chain: &Vec<usize>, initialized: &Vec<(usize, usize)>,
    names: &Vec<String>, scope: &str, node: Option<&str>) -> (r: Result<Vec<(usize, usize)>, Diagnostic>)
    requires
        symbols_wf(scopes@),
        forall|i: int| 0 <= i < chain@.len() ==> #[trigger] chain@[i] < scopes@.len(),
    ensures
        match assign_targets(scopes@, chain@, initialized@, names@.map_values(|n: String| n@)) {
            Ok(bindings) => r matches Ok(v) && v@ == bindings,
            Err(f) => r matches Err(d) && reported_at(d, f, scope@, opt_str(node)),
        },
{
    let ghost all = names@.map_values(|n: String| n@);
    let mut done: Vec<(usize, usize)> = Vec::new();
    let mut k: usize = 0;
    while k < names.len()
        invariant
            k <= names@.len(),
            all == names@.map_values(|n: String| n@),
            symbols_wf(scopes@),
            forall|i: int| 0 <= i < chain@.len() ==> #[trigger] chain@[i] < scopes@.len(),
            assign_targets(scopes@, chain@, initialized@, all.take(k as int)) == Ok::<Seq<(usize, usize)>, (DiagnosticCode, Seq<char>)>(done@),
        decreases names@.len() - k,
    {
        let ghost prefix = all.take(k + 1);
        assert(prefix.drop_last() =~= all.take(k as int));
        assert(prefix.last() == names@[k as int]@);
        let failure: Option<(DiagnosticCode, &str)> = match resolve_name(scopes, chain, names[k].as_str()) {
            None => Some((DiagnosticCode::Reference, "赋值目标未声明")),
            Some(b) => {
                proof {
                    lemma_slot_declared(scopes@[b.0 as int].names@, names@[k as int]@);
                }
                if !contains_binding(initialized, b) {
                    Some((DiagnosticCode::Uninitialized, "赋值目标仍处于暂时性死区"))
                } else if !scopes[b.0].mutable[b.1] || contains_binding(&done, b) {
                    Some((DiagnosticCode::Reference, "不能修改只读变量或重复赋值目标"))
                } else {
                    done.push(b);
                    None
                }
            },
        };
        match failure {
            Some((code, message)) => {
                proof {
                    lemma_failure_persists(scopes@, chain@, initialized@, all, k + 1);
                }
                return Err(diagnostic_at(code, message, scope, node));
            },
            None => {},
        }
        k += 1;
    }
    assert(all.take(k as int) =~= all);
    Ok(done)
}

/// A resource visible to an action.
#[derive(Debug, Clone)]
pub struct ResourceEntry {
    pub name: String,
    /// Scope that declared it.
    pub scope: usize,
    pub resource_type: String,
    /// Declared by a task of that scope, rather than handed in.
    pub owned: bool,
}

/// The visible resource called `name`; a later declaration hides an earlier one.
pub open spec fn resource_named(entries: Seq<ResourceEntry>, name: Seq<char>) -> Option<ResourceEntry>
    decreases entries.len(),
{
    if entries.len() == 0 {
        None
    } else if entries.last().name@ == name {
        Some(entries.last())
    } else {
        resource_named(entries.drop_last(), name)
    }
}

fn find_resource(entries: &Vec<ResourceEntry>, name: &str) -> (r: Option<usize>)
    ensures
        match resource_named(entries@, name@) {
            Some(e) => r matches Some(i) && i < entries@.len() && entries@[i as int] == e,
            None => r is None,
        },
{
    let mut i = entries.len();
    assert(entries@.take(i as int) =~= entries@);
    while i > 0
        invariant
            i <= entries@.len(),
            resource_named(entries@, name@) == resource_named(entries@.take(i as int), name@),
        decreases i,
    {
        let ghost t = entries@.take(i as int);
        assert(t.last() == entries@[i - 1]);
        assert(t.drop_last() =~= entries@.take(i - 1));
        i -= 1;
        if text_equal(entries[i].name.as_str(), name) {
            return Some(i);
        }
    }
    None
}

/// The failure of releasing `name` from scope `scope`, if any: it must be a
/// visible resource that this scope declared and owns.
pub open spec fn release_failure(entries: Seq<ResourceEntry>, name: Seq<char>, scope: usize) -> Option<(DiagnosticCode, Seq<char>)> {
    match resource_named(entries, name) {
        None => Some((DiagnosticCode::Resource, "释放目标不存在"@)),
        Some(e) => if e.scope != scope || !e.owned {
            Some((DiagnosticCode::Resource, "只能显式释放当前作用域自有资源"@))
        } else {
            None
        },
    }
}

/// Checks an explicit release of resource `name` in scope `scope`.
pub fn check_release(entries: &Vec<ResourceEntry>, name: &str, scope: usize, at_scope: &str, node: Option<&str>)
    -> (r: Result<(), Diagnostic>)
    ensures
        match release_failure(entries@, name@, scope) {
            Some(f) => r matches Err(d) && reported_at(d, f, at_scope@, opt_str(node)),
            None => r is Ok,
        },
{
    match find_resource(entries, name) {
        None => Err(diagnostic_at(DiagnosticCode::Resource, "释放目标不存在", at_scope, node)),
        Some(i) => {
            if entries[i].scope != scope || !entries[i].owned {
                Err(diagnostic_at(DiagnosticCode::Resource, "只能显式释放当前作用域自有资源", at_scope, node))
            } else {
                Ok(())
            }
        },
    }
}

/// Declares the resource outputs of a task in scope `scope`, in port order:
/// the ports must be exactly those of the task's signature, and each name
/// must be usable and not yet declared by this scope. Returns the entries
/// as they stand after the declarations.
pub open spec fn declared_outputs(entries: Seq<ResourceEntry>, outputs: Seq<(String, String)>,
    signature: Seq<(String, String)>, scope: usize) -> Result<Seq<ResourceEntry>, (DiagnosticCode, Seq<char>)>
    decreases outputs.len(),
{
    if outputs.len() == 0 {
        Ok(entries)
    } else {
        match declared_outputs(entries, outputs.drop_last(), signature.drop_last(), scope) {
            Err(f) => Err(f),
            Ok(env) => {
                let name = outputs.last().1@;
                if !name_ok(name) || (resource_named(env, name) matches Some(e) && e.scope == scope) {
                    Err((DiagnosticCode::Resource, "当前作用域资源重复声明"@))
                } else {
                    Ok(env.push(ResourceEntry {
                        name: outputs.last().1,
                        scope,
                        resource_type: signature.last().1,
                        owned: true,
                    }))
                }
            },
        }
    }
}

/// Port names of a list of (port, text) pairs.
pub open spec fn port_names(ports: Seq<(String, String)>) -> Seq<Seq<char>> {
    ports.map_values(|p: (String, String)| p.0@)
}

proof fn lemma_declaration_failure_persists(entries: Seq<ResourceEntry>, outputs: Seq<(String, String)>,
    signature: Seq<(String, String)>, scope: usize, k: int)
    requires
        0 <= k <= outputs.len(),
        outputs.len() == signature.len(),
        declared_outputs(entries, outputs.take(k), signature.take(k), scope) is Err,
    ensures
        declared_outputs(entries, outputs, signature, scope) == declared_outputs(entries, outputs.take(k), signature.take(k), scope),
    decreases outputs.len() - k,
{
    if k == outputs.len() {
        assert(outputs.take(k) =~= outputs);
        assert(signature.take(k) =~= signature);
    } else {
        assert(outputs.take(k + 1).drop_last() =~= outputs.take(k));
        assert(signature.take(k + 1).drop_last() =~= signature.take(k));
        lemma_declaration_failure_persists(entries, outputs, signature, scope, k + 1);
    }
}

/// Declares a task's resource outputs (port, resource name) against its
/// signature's (port, resource type), both in port order.
pub fn declare_resource_outputs(entries: &mut Vec<ResourceEntry>, outputs: &Vec<(String, String)>,
    signature: &Vec<(String, String)>, scope: usize, at_scope: &str, node: Option<&str>) -> (r: Result<(), Diagnostic>)
    ensures
        port_names(outputs@) != port_names(signature@) ==> (r matches Err(d) && reported_at(d,
            (DiagnosticCode::Resource, "资源输出端口缺失或多余"@), at_scope@, opt_str(node))) && final(entries)@ == old(entries)@,
        port_names(outputs@) == port_names(signature@) ==> match declared_outputs(old(entries)@, outputs@, signature@, scope) {
            Ok(env) => r is Ok && final(entries)@ == env,
            Err(f) => r matches Err(d) && reported_at(d, f, at_scope@, opt_str(node)),
        },
{
    let same_ports = if outputs.len() != signature.len() {
        assert(port_names(outputs@).len() != port_names(signature@).len());
        false
    } else {
        let mut k: usize = 0;
        let mut same = true;
        while k < outputs.len()
            invariant
                k <= outputs@.len(),
                outputs@.len() == signature@.len(),
                same == forall|j: int| 0 <= j < k ==> (#[trigger] outputs@[j]).0@ == signature@[j].0@,
            decreases outputs@.len() - k,
        {
            if !text_equal(outputs[k].0.as_str(), signature[k].0.as_str()) {
                same = false;
            }
            k += 1;
        }
        proof {
            if same {
                assert(port_names(outputs@) =~= port_names(signature@));
            } else {
                let j = choose|j: int| 0 <= j < k && !((#[trigger] outputs@[j]).0@ == signature@[j].0@);
                assert(port_names(outputs@)[j] != port_names(signature@)[j]);
            }
        }
        same
    };
    if !same_ports {
        return Err(diagnostic_at(DiagnosticCode::Resource, "资源输出端口缺失或多余", at_scope, node));
    }
    let ghost start = entries@;
    let ghost outs = outputs@;
    let ghost sig = signature@;
    let mut i: usize = 0;
    assert(outs.take(0) =~= Seq::<(String, String)>::empty());
    assert(sig.take(0) =~= Seq::<(String, String)>::empty());
    while i < outputs.len()
        invariant
            i <= outs.len(),
            outs == outputs@,
            sig == signature@,
            outs.len() == sig.len(),
            start == old(entries)@,
            port_names(outs) == port_names(sig),
            declared_outputs(start, outs.take(i as int), sig.take(i as int), scope) == Ok::<Seq<ResourceEntry>, (DiagnosticCode, Seq<char>)>(entries@),
        decreases outs.len() - i,
    {
        assert(outs.take(i + 1).drop_last() =~= outs.take(i as int));
        assert(sig.take(i + 1).drop_last() =~= sig.take(i as int));
        assert(outs.take(i + 1).last() == outs[i as int]);
        assert(sig.take(i + 1).last() == sig[i as int]);
        let name = outputs[i].1.as_str();
        let clash = match find_resource(entries, name) {
            Some(j) => entries[j].scope == scope,
            None => false,
        };
        if !valid_name(name) || clash {
            proof { lemma_declaration_failure_persists(start, outs, sig, scope, i + 1); }
            return Err(diagnostic_at(DiagnosticCode::Resource, "当前作用域资源重复声明", at_scope, node));
        }
        entries.push(ResourceEntry {
            name: outputs[i].1.clone(),
            scope,
            resource_type: signature[i].1.clone(),
            owned: true,
        });
        i += 1;
    }
    assert(outs.take(i as int) =~= outs);
    assert(sig.take(i as int) =~= sig);
    Ok(())
}

/// Checks the retry policy of a task, if it declares one: the task must be
/// safe to retry and create no resources, allow 1 to 10 attempts, pause at
/// most 60 000 ms, never longer at first than at most, and retry at least
/// one error kind, all catchable (`all_catchable`, as the error model
/// classifies the listed kinds).
pub fn check_retry_policy(safe_to_retry: bool, creates_resources: bool, max_attempts: u32, initial_delay_ms: u64,
    max_delay_ms: u64, errors: &Vec<ErrorKind>, all_catchable: bool, scope: &str, node: Option<&str>)
    -> (r: Result<(), Diagnostic>)
    ensures
        r is Ok <==> retry_policy_accepted(safe_to_retry, creates_resources, max_attempts, initial_delay_ms,
            max_delay_ms, errors@.len(), all_catchable),
        r matches Err(d) ==> reported_at(d, (DiagnosticCode::Task, "重试策略超限或任务不允许安全重试"@), scope@,
            opt_str(node)),
{
    if retry_policy_valid(safe_to_retry, creates_resources, max_attempts, initial_delay_ms, max_delay_ms, errors,
        all_catchable) {
        Ok(())
    } else {
        Err(diagnostic_at(DiagnosticCode::Task, "重试策略超限或任务不允许安全重试", scope, node))
    }
}

/// What a structure node waits for once it entered a child scope.
#[derive(Debug, Clone, Copy, PartialEq, Eq, Structural)]
pub enum ChildWait {
    /// A Block, If or Switch child.
    Child,
    /// A called subflow.
    Call,
    /// The body of a Try.
    TryBody,
}

/// How control leaves the current scope.
#[derive(Debug, Clone, Copy, PartialEq, Eq, Structural)]
pub enum Exit {
    Break,
    Continue,
    /// Return with the evaluated return values.
    Return,
}

/// What the runner does with the node it started.
#[derive(Debug, Clone, PartialEq, Eq)]
pub enum StepMove {
    /// Initialise the declared variable with the evaluated value, then publish the node.
    Initialize,
    /// Assign the evaluated values, then publish the node.
    Assign,
    /// Enter `scope` as a child; the node waits as `wait`.
    Enter { scope: usize, wait: ChildWait },
    /// Start the loop with no iteration begun.
    StartLoop,
    /// Leave the current scope.
    Leave(Exit),
    /// Pause for the evaluated duration, then publish the node.
    Wait,
    /// Run the task's attempts.
    Task,
    /// Close the released resource, then publish the node.
    Release,
}

/// Index of the first case whose value matches the selector.
pub open spec fn first_match(matches: Seq<bool>) -> Option<int>
    decreases matches.len(),
{
    if matches.len() == 0 {
        None
    } else {
        match first_match(matches.drop_last()) {
            Some(i) => Some(i),
            None => if matches.last() { Some(matches.len() - 1) } else { None },
        }
    }
}

proof fn lemma_first_match_kept(matches: Seq<bool>, k: int)
    requires
        0 <= k <= matches.len(),
        first_match(matches.take(k)) is Some,
    ensures
        first_match(matches) == first_match(matches.take(k)),
    decreases matches.len() - k,
{
    if k == matches.len() {
        assert(matches.take(k) =~= matches);
    } else {
        assert(matches.take(k + 1).drop_last() =~= matches.take(k));
        lemma_first_match_kept(matches, k + 1);
    }
}

/// The move a started node makes: If enters its then scope only when the
/// condition is `true`; Switch enters the scope of the first case whose
/// value equals the selector, else its default; Fail fails the run with a
/// `User` error carrying its code.
pub open spec fn move_of(action: PlanAction, condition: bool, case_matches: Seq<bool>) -> Result<StepMove, (ErrorKind, Seq<char>)> {
    match action {
        PlanAction::Let => Ok(StepMove::Initialize),
        PlanAction::Assign => Ok(StepMove::Assign),
        PlanAction::Block(s) => Ok(StepMove::Enter { scope: s, wait: ChildWait::Child }),
        PlanAction::If { then_scope, else_scope } => Ok(StepMove::Enter {
            scope: if condition { then_scope } else { else_scope },
            wait: ChildWait::Child,
        }),
        PlanAction::Switch { cases, default_scope } => Ok(StepMove::Enter {
            scope: match first_match(case_matches) {
                Some(i) => cases@[i],
                None => default_scope,
            },
            wait: ChildWait::Child,
        }),
        PlanAction::While { .. } | PlanAction::ForEach { .. } => Ok(StepMove::StartLoop),
        PlanAction::Break => Ok(StepMove::Leave(Exit::Break)),
        PlanAction::Continue => Ok(StepMove::Leave(Exit::Continue)),
        PlanAction::Return => Ok(StepMove::Leave(Exit::Return)),
        PlanAction::Call { scope } => Ok(StepMove::Enter { scope, wait: ChildWait::Call }),
        PlanAction::Try { body, .. } => Ok(StepMove::Enter { scope: body, wait: ChildWait::TryBody }),
        PlanAction::Fail { code } => Err((ErrorKind::User, code@)),
        PlanAction::Wait => Ok(StepMove::Wait),
        PlanAction::Task => Ok(StepMove::Task),
        PlanAction::Release => Ok(StepMove::Release),
    }
}

/// Law: a started node leaves its scope exactly when it is a Break, a
/// Continue or a Return, each by its own exit: Break ends the loop, Continue
/// goes on with the next iteration, Return leaves the call; the three exits
/// differ. An If enters its then scope exactly when the condition holds,
/// and every other move is the same whatever the condition.
pub proof fn lemma_exits_follow_the_action(action: PlanAction, condition: bool, case_matches: Seq<bool>)
    ensures
        action is Break <==> move_of(action, condition, case_matches) == Ok::<StepMove, (ErrorKind, Seq<char>)>(StepMove::Leave(Exit::Break)),
        action is Continue <==> move_of(action, condition, case_matches) == Ok::<StepMove, (ErrorKind, Seq<char>)>(StepMove::Leave(Exit::Continue)),
        action is Return <==> move_of(action, condition, case_matches) == Ok::<StepMove, (ErrorKind, Seq<char>)>(StepMove::Leave(Exit::Return)),
        (move_of(action, condition, case_matches) matches Ok(StepMove::Leave(_))) <==> (action is Break || action is Continue || action is Return),
        Exit::Break != Exit::Continue && Exit::Break != Exit::Return && Exit::Continue != Exit::Return,
        action matches PlanAction::If { then_scope, else_scope } ==>
            move_of(action, true, case_matches) == Ok::<StepMove, (ErrorKind, Seq<char>)>(StepMove::Enter { scope: then_scope, wait: ChildWait::Child })
            && move_of(action, false, case_matches) == Ok::<StepMove, (ErrorKind, Seq<char>)>(StepMove::Enter { scope: else_scope, wait: ChildWait::Child }),
        !(action is If) ==> move_of(action, true, case_matches) == move_of(action, false, case_matches),
{
}

proof fn lemma_no_match(m: Seq<bool>)
    requires
        forall|j: int| 0 <= j < m.len() ==> !m[j],
    ensures
        first_match(m) is None,
    decreases m.len(),
{
    if m.len() > 0 {
        let d = m.drop_last();
        assert forall|j: int| 0 <= j < d.len() implies !d[j] by {
            assert(d[j] == m[j]);
        }
        lemma_no_match(d);
        assert(m.last() == m[m.len() - 1]);
    }
}

proof fn lemma_match_at(m: Seq<bool>, i: int)
    requires
        0 <= i < m.len(),
        m[i],
        forall|j: int| 0 <= j < i ==> !m[j],
    ensures
        first_match(m) == Some(i),
{
    let t = m.take(i + 1);
    let d = t.drop_last();
    assert(d =~= m.take(i));
    assert forall|j: int| 0 <= j < d.len() implies !d[j] by {
        assert(d[j] == m[j]);
    }
    lemma_no_match(d);
    assert(t.last() == m[i]);
    lemma_first_match_kept(m, i + 1);
}

/// Law: a Switch enters the scope of the first case whose value equals the
/// selector, and its default scope when no case does.
pub proof fn lemma_switch_takes_first_match(cases: Vec<usize>, default_scope: usize, condition: bool, case_matches: Seq<bool>)
    requires
        case_matches.len() == cases@.len(),
    ensures
        forall|i: int| 0 <= i < case_matches.len() && #[trigger] case_matches[i] && (forall|j: int| 0 <= j < i ==> !case_matches[j])
            ==> move_of(PlanAction::Switch { cases, default_scope }, condition, case_matches)
                == Ok::<StepMove, (ErrorKind, Seq<char>)>(StepMove::Enter { scope: cases@[i], wait: ChildWait::Child }),
        (forall|j: int| 0 <= j < case_matches.len() ==> !case_matches[j])
            ==> move_of(PlanAction::Switch { cases, default_scope }, condition, case_matches)
                == Ok::<StepMove, (ErrorKind, Seq<char>)>(StepMove::Enter { scope: default_scope, wait: ChildWait::Child }),
{
    assert forall|i: int| 0 <= i < case_matches.len() && #[trigger] case_matches[i] && (forall|j: int| 0 <= j < i ==> !case_matches[j])
        implies move_of(PlanAction::Switch { cases, default_scope }, condition, case_matches)
            == Ok::<StepMove, (ErrorKind, Seq<char>)>(StepMove::Enter { scope: cases@[i], wait: ChildWait::Child }) by {
        lemma_match_at(case_matches, i);
    }
    if forall|j: int| 0 <= j < case_matches.len() ==> !case_matches[j] {
        lemma_no_match(case_matches);
    }
}

/// Decides the move of a started node from its action, the value of an If
/// condition (`true` only when it evaluated to the boolean `true`) and, for
/// a Switch, which case values equal the selector, in case order.
pub fn step_move(action: &PlanAction, condition: bool, case_matches: &Vec<bool>) -> (r: Result<StepMove, RunError>)
    requires
        action matches PlanAction::Switch { cases, .. } ==> case_matches@.len() == cases@.len(),
    ensures
        match move_of(*action, condition, case_matches@) {
            Ok(m) => r == Ok::<StepMove, RunError>(m),
            Err((kind, message)) => r matches Err(e) && e.kind == kind && e.message@ == message,
        },
{
    match action {
        PlanAction::Let => Ok(StepMove::Initialize),
        PlanAction::Assign => Ok(StepMove::Assign),
        PlanAction::Block(s) => Ok(StepMove::Enter { scope: *s, wait: ChildWait::Child }),
        PlanAction::If { then_scope, else_scope } => Ok(StepMove::Enter {
            scope: if condition { *then_scope } else { *else_scope },
            wait: ChildWait::Child,
        }),
        PlanAction::Switch { cases, default_scope } => {
            let mut i: usize = 0;
            assert(case_matches@.take(0).len() == 0);
            while i < case_matches.len()
                invariant
                    i <= case_matches@.len(),
                    case_matches@.len() == cases@.len(),
                    first_match(case_matches@.take(i as int)) is None,
                    move_of(*action, condition, case_matches@) == Ok::<StepMove, (ErrorKind, Seq<char>)>(StepMove::Enter {
                        scope: match first_match(case_matches@) {
                            Some(k) => cases@[k],
                            None => *default_scope,
                        },
                        wait: ChildWait::Child,
                    }),
                decreases case_matches@.len() - i,
            {
                assert(case_matches@.take(i + 1).drop_last() =~= case_matches@.take(i as int));
                assert(case_matches@.take(i + 1).last() == case_matches@[i as int]);
                if case_matches[i] {
                    proof {
                        let t = case_matches@.take(i + 1);
                        assert(t.len() == i + 1);
                        assert(first_match(t.drop_last()) is None);
                        assert(t.last());
                        assert(first_match(t) == Some(i as int));
                        lemma_first_match_kept(case_matches@, i + 1);
                        assert(first_match(case_matches@) == Some(i as int));
                    }
                    return Ok(StepMove::Enter { scope: cases[i], wait: ChildWait::Child });
                }
                i += 1;
            }
            assert(case_matches@.take(i as int) =~= case_matches@);
            Ok(StepMove::Enter { scope: *default_scope, wait: ChildWait::Child })
        },
        PlanAction::While { .. } | PlanAction::ForEach { .. } => Ok(StepMove::StartLoop),
        PlanAction::Break => Ok(StepMove::Leave(Exit::Break)),
        PlanAction::Continue => Ok(StepMove::Leave(Exit::Continue)),
        PlanAction::Return => Ok(StepMove::Leave(Exit::Return)),
        PlanAction::Call { scope } => Ok(StepMove::Enter { scope: *scope, wait: ChildWait::Call }),
        PlanAction::Try { body, .. } => Ok(StepMove::Enter { scope: *body, wait: ChildWait::TryBody }),
        PlanAction::Fail { code } => Err(RunError::new(ErrorKind::User, code.clone())),
        PlanAction::Wait => Ok(StepMove::Wait),
        PlanAction::Task => Ok(StepMove::Task),
        PlanAction::Release => Ok(StepMove::Release),
    }
}

} // verus!
