//! The central policy state and its one-time initialization.

use vstd::prelude::*;

use crate::address::Address;
use crate::distribution::QuotaFraction;
use crate::errors::MyError;

verus! {

/// The fee that a settlement collects from the caller, in smallest units.
pub const DEFAULT_BASE_COST: u64 = 1;

/// Numerator of the admin quota set at initialization (three tenths).
pub const DEFAULT_QUOTA_NUMERATOR: u64 = 3;

/// Denominator of the admin quota set at initialization.
pub const DEFAULT_QUOTA_DENOMINATOR: u64 = 10;

/// The process-wide policy: who receives the fees and the admin cut, the
/// fixed fee, and the fraction of a pool reserved for the admin.
#[derive(Clone, Copy, Debug, PartialEq, Eq)]
pub struct CentralStateData {
    pub initialized: bool,
    pub centralized_account: Address,
    pub base_cost: u64,
    pub admin_quota: QuotaFraction,
}

impl CentralStateData {
    pub open spec fn wf(&self) -> bool {
        self.admin_quota.wf()
    }

    /// The policy state before initialization.
    pub fn uninitialized() -> (r: CentralStateData)
        ensures
            !r.initialized,
            r.wf(),
    {
        CentralStateData {
            initialized: false,
            centralized_account: Address { bytes: [0u8; 32] },
            base_cost: 0,
            admin_quota: QuotaFraction { numerator: 0, denominator: 1 },
        }
    }
}

/// Sets up the policy once, with `payer` as beneficiary and the default fee
/// and quota. A second call fails with `AlreadyInitialized` and leaves the
/// state as it was.
pub fn handle_initialize(state: &mut CentralStateData, payer: Address) -> (r: Result<(), MyError>)
    ensures
        old(state).initialized ==> r == Err::<(), MyError>(MyError::AlreadyInitialized)
            && *final(state) == *old(state),
        !old(state).initialized ==> r is Ok && *final(state) == (CentralStateData {
            initialized: true,
            centralized_account: payer,
            base_cost: DEFAULT_BASE_COST,
            admin_quota: QuotaFraction {
                numerator: DEFAULT_QUOTA_NUMERATOR,
                denominator: DEFAULT_QUOTA_DENOMINATOR,
            },
        }),
        old(state).wf() ==> final(state).wf(),
{
    if state.initialized {
        return Err(MyError::AlreadyInitialized);
    }
    state.initialized = true;
    state.centralized_account = payer;
    state.base_cost = DEFAULT_BASE_COST;
    state.admin_quota = QuotaFraction {
        numerator: DEFAULT_QUOTA_NUMERATOR,
        denominator: DEFAULT_QUOTA_DENOMINATOR,
    };
    Ok(())
}

} // verus!
