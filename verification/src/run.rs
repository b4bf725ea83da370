//! Run-level checks: the transient inputs of one run against the
//! workflow's declaration, and the message a node panic is reported with.

use vstd::prelude::*;
use vstd::string::*;
use crate::errors::RuntimeError;
use crate::json::{get_entry, lookup, JsonValue};
use crate::text::{joined, owned, text_equal};

verus! {

/// Type a workflow input is declared with.
#[derive(Debug, Clone, Copy, PartialEq, Eq, Structural)]
pub enum WorkflowInputType {
    /// A JSON string.
    Text,
}

/// One declared workflow input.
#[derive(Debug, Clone)]
pub struct WorkflowInput {
    /// Input key.
    pub key: String,
    /// Declared type.
    pub value_type: WorkflowInputType,
}

/// Whether `v` has the declared type.
pub open spec fn has_input_type(v: JsonValue, t: WorkflowInputType) -> bool {
    match t {
        WorkflowInputType::Text => v is String,
    }
}

/// Declaration `i` is satisfied by the given values.
pub open spec fn input_supplied(decls: Seq<WorkflowInput>, values: Seq<(String, JsonValue)>, i: int) -> bool {
    match lookup(values, decls[i].key@) {
        Some(v) => has_input_type(v, decls[i].value_type),
        None => false,
    }
}

/// Whether some declaration has the key `key`.
pub open spec fn declared_key(decls: Seq<WorkflowInput>, key: Seq<char>) -> bool {
    exists|i: int| 0 <= i < decls.len() && (#[trigger] decls[i]).key@ == key
}

/// The inputs of a run match the declaration exactly: every declared key
/// is given with its type, and nothing else is given.
pub open spec fn inputs_match(decls: Seq<WorkflowInput>, values: Seq<(String, JsonValue)>) -> bool {
    &&& forall|i: int| 0 <= i < decls.len() ==> input_supplied(decls, values, i)
    &&& forall|j: int| 0 <= j < values.len() ==> declared_key(decls, (#[trigger] values[j]).0@)
}

/// The refusal a run gets for its inputs: the first declaration in order
/// that is missing or mistyped, else the first given key that is not
/// declared.
pub open spec fn input_refusal(decls: Seq<WorkflowInput>, values: Seq<(String, JsonValue)>, message: Seq<char>) -> bool {
    ||| exists|i: int| 0 <= i < decls.len() && !input_supplied(decls, values, i)
        && (forall|k: int| 0 <= k < i ==> input_supplied(decls, values, k))
        && message == (if lookup(values, decls[i].key@) is None {
            "required workflow input '"@ + decls[i].key@ + "' is missing"@
        } else {
            "workflow input '"@ + decls[i].key@ + "' must be text"@
        })
    ||| (forall|k: int| 0 <= k < decls.len() ==> input_supplied(decls, values, k))
        && exists|j: int| 0 <= j < values.len() && !declared_key(decls, values[j].0@)
        && (forall|k: int| 0 <= k < j ==> declared_key(decls, (#[trigger] values[k]).0@))
        && message == "workflow input '"@ + values[j].0@ + "' is not declared"@
}

/// Checks that the transient inputs of one run match the persisted
/// declaration exactly.
pub fn validate_run_inputs(declarations: &Vec<WorkflowInput>, values: &Vec<(String, JsonValue)>) -> (r: Result<(), RuntimeError>)
    ensures
        r is Ok <==> inputs_match(declarations@, values@),
        match r {
            Err(RuntimeError::InvalidRunInputs { message }) => input_refusal(declarations@, values@, message@),
            Err(_) => false,
            Ok(_) => true,
        },
{
    let mut i: usize = 0;
    while i < declarations.len()
        invariant
            i <= declarations@.len(),
            forall|k: int| 0 <= k < i ==> input_supplied(declarations@, values@, k),
        decreases declarations@.len() - i,
    {
        let key = declarations[i].key.as_str();
        match get_entry(values, key) {
            None => {
                let m = joined(joined("required workflow input '", key).as_str(), "' is missing");
                assert(!input_supplied(declarations@, values@, i as int));
                assert(m@ == "required workflow input '"@ + declarations@[i as int].key@ + "' is missing"@);
                return Err(RuntimeError::InvalidRunInputs { message: m });
            },
            Some(v) => {
                let ok = match declarations[i].value_type {
                    WorkflowInputType::Text => match v {
                        JsonValue::String(_) => true,
                        _ => false,
                    },
                };
                if !ok {
                    let m = joined(joined("workflow input '", key).as_str(), "' must be text");
                    assert(!input_supplied(declarations@, values@, i as int));
                    assert(m@ == "workflow input '"@ + declarations@[i as int].key@ + "' must be text"@);
                    return Err(RuntimeError::InvalidRunInputs { message: m });
                }
            },
        }
        i += 1;
    }
    let mut j: usize = 0;
    while j < values.len()
        invariant
            j <= values@.len(),
            forall|k: int| 0 <= k < declarations@.len() ==> input_supplied(declarations@, values@, k),
            forall|k: int| 0 <= k < j ==> declared_key(declarations@, (#[trigger] values@[k]).0@),
        decreases values@.len() - j,
    {
        let key = values[j].0.as_str();
        let mut d: usize = 0;
        let mut found = false;
        while d < declarations.len()
            invariant
                d <= declarations@.len(),
                j < values@.len(),
                key@ == values@[j as int].0@,
                found == exists|e: int| 0 <= e < d && (#[trigger] declarations@[e]).key@ == key@,
            decreases declarations@.len() - d,
        {
            if text_equal(declarations[d].key.as_str(), key) {
                found = true;
            }
            d += 1;
        }
        if !found {
            let m = joined(joined("workflow input '", key).as_str(), "' is not declared");
            assert(!declared_key(declarations@, values@[j as int].0@));
            return Err(RuntimeError::InvalidRunInputs { message: m });
        }
        j += 1;
    }
    Ok(())
}

/// Message a node panic is reported with: a `String` payload as it is,
/// else a `&'static str` payload, else a fixed text that leaks no type or
/// address.
pub fn panic_message(as_string: Option<String>, as_static_str: Option<&str>) -> (m: String)
    ensures
        m@ == match as_string {
            Some(s) => s@,
            None => match as_static_str {
                Some(t) => t@,
                None => "节点执行发生了未分类 panic"@,
            },
        },
{
    match as_string {
        Some(s) => s,
        None => match as_static_str {
            Some(t) => owned(t),
            None => owned("节点执行发生了未分类 panic"),
        },
    }
}

} // verus!
