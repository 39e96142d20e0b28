//! Shared ownership of immutable retained values.

use vstd::prelude::*;

use std::sync::Arc;

verus! {

/// Returns another handle to a shared value.
///
/// Calls `Arc::clone`, which documents that it makes a new pointer to the
/// same allocation, so the handle denotes the original value.
#[verifier::external_body]
pub(crate) fn share<T>(value: &Arc<T>) -> (shared: Arc<T>)
    ensures
        shared == *value,
{
    Arc::clone(value)
}

} // verus!
