//! Shared storage.
use std::sync::Arc;

use vstd::prelude::*;

verus! {

/// `Arc::<[T]>::from` of the standard library moves the items of a vector
/// into shared storage and keeps them in order.
#[verifier::external_body]
pub(crate) fn share<T>(items: Vec<T>) -> (shared: Arc<[T]>)
    ensures
        shared@ == items@,
{
    Arc::from(items)
}

} // verus!
