//! The error taxonomy of the engine.

use vstd::prelude::*;

verus! {

/// Why a request, a claim or a step is rejected.
#[derive(Clone, Copy, Debug, PartialEq, Eq)]
pub enum MyError {
    /// The caller holds less than the minimum balance.
    InsufficientFunds,
    /// The policy state was already set up.
    AlreadyInitialized,
    /// The request is structurally invalid (odd account list, lists of
    /// different lengths).
    MalformedRequest,
    /// The metadata of a claim cannot be decoded or hashed.
    MalformedClaim,
    /// The claimed commitment differs from the computed one.
    HashMismatch,
    /// The commitment store did not confirm the leaf's inclusion.
    ProofInvalid,
    /// There is no recipient to distribute to.
    NoEligibleRecipients,
    /// The pool holds less than the recipients are owed.
    PoolTooSmall,
    /// An amount does not fit in 64 bits.
    AmountOverflow,
}

} // verus!
