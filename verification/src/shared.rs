//! Shared ownership.
use std::sync::Arc;
use vstd::prelude::*;

verus! {

/// `Arc::clone` makes another pointer to the same value.
#[verifier::external_body]
pub(crate) fn share<T>(value: &Arc<T>) -> (r: Arc<T>)
    ensures
        r == *value,
{
    Arc::clone(value)
}

/// `Arc::ptr_eq`: true exactly when both pointers lead to the same allocation.
/// The contract states that then both hold the same value; which pointers
/// share an allocation is not stated.
#[verifier::external_body]
pub(crate) fn same_allocation<T>(left: &Arc<T>, right: &Arc<T>) -> (r: bool)
    ensures
        r ==> *left == *right,
{
    Arc::ptr_eq(left, right)
}

}
