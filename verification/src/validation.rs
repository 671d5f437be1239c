//! Strict-mode checks shared by both pipelines: the nesting-depth ceiling
//! and non-empty field names.

use vstd::prelude::*;

use crate::error::owned_message;
use crate::error::ToonError;
use crate::error::ToonResult;
use crate::value::Value;

verus! {

/// Reject a nesting depth beyond the given ceiling.
pub fn validate_depth(depth: usize, max_depth: usize) -> (r: ToonResult<()>)
    ensures
        r is Ok <==> depth <= max_depth,
        r matches Err(e) ==> e is InvalidStructure,
{
    if depth > max_depth {
        return Err(
            ToonError::InvalidStructure(owned_message("Maximum nesting depth exceeded")),
        );
    }
    Ok(())
}

/// Reject an empty field name.
pub fn validate_field_name(name: &str) -> (r: ToonResult<()>)
    ensures
        r is Ok <==> name@.len() > 0,
        r matches Err(e) ==> e is InvalidInput,
{
    if name.unicode_len() == 0 {
        return Err(ToonError::InvalidInput(owned_message("Field name cannot be empty")));
    }
    Ok(())
}

/// Whether every object key in the tree is non-empty.
pub open spec fn all_keys_nonempty(v: Value) -> bool
    decreases v,
{
    match v {
        Value::Array(a) => forall|i: int|
            0 <= i < a@.len() ==> all_keys_nonempty(#[trigger] a@[i]),
        Value::Object(o) => forall|i: int|
            0 <= i < o@.len() ==> (#[trigger] o@[i]).0@.len() > 0 && all_keys_nonempty(o@[i].1),
        _ => true,
    }
}

/// Recursively validate a tree value: every object key must be non-empty.
#[verifier::loop_isolation(false)]
pub fn validate_value(value: &Value) -> (r: ToonResult<()>)
    ensures
        r is Ok <==> all_keys_nonempty(*value),
        r matches Err(e) ==> e is InvalidInput,
    decreases value,
{
    match value {
        Value::Object(o) => {
            let n = o.len();
            let mut i: usize = 0;
            while i < n
                invariant
                    i <= n == o@.len(),
                    forall|j: int|
                        0 <= j < i ==> (#[trigger] o@[j]).0@.len() > 0 && all_keys_nonempty(
                            o@[j].1,
                        ),
                decreases n - i,
            {
                let pair = &o[i];
                match validate_field_name(pair.0.as_str()) {
                    Ok(_) => (),
                    Err(e) => {
                        proof {
                            assert(!all_keys_nonempty(*value));
                        }
                        return Err(e);
                    },
                }
                match validate_value(&pair.1) {
                    Ok(_) => (),
                    Err(e) => {
                        proof {
                            assert(!all_keys_nonempty(*value));
                        }
                        return Err(e);
                    },
                }
                i = i + 1;
            }
            proof {
                assert(all_keys_nonempty(*value));
            }
            Ok(())
        },
        Value::Array(a) => {
            let n = a.len();
            let mut i: usize = 0;
            while i < n
                invariant
                    i <= n == a@.len(),
                    forall|j: int| 0 <= j < i ==> all_keys_nonempty(#[trigger] a@[j]),
                decreases n - i,
            {
                match validate_value(&a[i]) {
                    Ok(_) => (),
                    Err(e) => {
                        proof {
                            assert(!all_keys_nonempty(*value));
                        }
                        return Err(e);
                    },
                }
                i = i + 1;
            }
            proof {
                assert(all_keys_nonempty(*value));
            }
            Ok(())
        },
        _ => Ok(()),
    }
}

} // verus!
