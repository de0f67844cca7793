//! The distribution calculator: how a reward pool is split between the
//! admin beneficiary and the eligible recipients.
//!
//! The admin quota is an exact fraction. The share of each recipient is the
//! rest of one whole unit (`10^decimals` of the smallest unit), divided
//! evenly and rounded down; whatever the recipients do not get stays with
//! the admin, so rounding never loses value.

use vstd::prelude::*;

use crate::errors::MyError;

verus! {

/// `10^d`.
pub open spec fn pow10(d: nat) -> nat
    decreases d,
{
    if d == 0 {
        1
    } else {
        10 * pow10((d - 1) as nat)
    }
}

/// The largest number of decimals whose whole unit fits in a `u64`.
pub const MAX_DECIMALS: u8 = 19;

/// A fraction `numerator / denominator` in `[0, 1]`.
#[derive(Clone, Copy, Debug, PartialEq, Eq)]
pub struct QuotaFraction {
    pub numerator: u64,
    pub denominator: u64,
}

impl QuotaFraction {
    pub open spec fn wf(&self) -> bool {
        &&& self.denominator > 0
        &&& self.numerator <= self.denominator
    }

    /// The fraction `numerator / denominator`, rejected unless it lies in `[0, 1]`.
    pub fn new(numerator: u64, denominator: u64) -> (r: Option<QuotaFraction>)
        ensures
            r is Some <==> (denominator > 0 && numerator <= denominator),
            r is Some ==> r->0.numerator == numerator && r->0.denominator == denominator,
    {
        if denominator > 0 && numerator <= denominator {
            Some(QuotaFraction { numerator, denominator })
        } else {
            None
        }
    }
}

/// How a pool is split: the admin's residual share and the equal share of
/// each of `recipient_count` recipients.
#[derive(Clone, Copy, Debug, PartialEq, Eq)]
pub struct DistributionPlan {
    pub admin_share: u64,
    pub per_recipient_share: u64,
    pub recipient_count: u64,
}

/// `floor((1 - quota) / count * 10^decimals)`, in exact arithmetic.
pub open spec fn per_recipient_share_of(quota: QuotaFraction, count: nat, decimals: nat) -> nat
    recommends
        quota.wf(),
        count > 0,
{
    (((quota.denominator - quota.numerator) * pow10(decimals)) as nat / (quota.denominator
        * count) as nat) as nat
}

/// The plan for a pool, or why there is none.
pub open spec fn distribution_of(
    total_pool: nat,
    quota: QuotaFraction,
    count: nat,
    decimals: nat,
) -> Result<DistributionPlan, MyError> {
    if count == 0 {
        Err(MyError::NoEligibleRecipients)
    } else if per_recipient_share_of(quota, count, decimals) * count > total_pool {
        Err(MyError::PoolTooSmall)
    } else {
        let share = per_recipient_share_of(quota, count, decimals);
        Ok(
            DistributionPlan {
                admin_share: (total_pool - share * count) as u64,
                per_recipient_share: share as u64,
                recipient_count: count as u64,
            },
        )
    }
}

proof fn lemma_pow10_positive(d: nat)
    ensures
        pow10(d) >= 1,
    decreases d,
{
    if d > 0 {
        lemma_pow10_positive((d - 1) as nat);
    }
}

proof fn lemma_pow10_bound(d: nat)
    requires
        d <= 19,
    ensures
        pow10(d) <= 10_000_000_000_000_000_000,
{
    reveal_with_fuel(pow10, 20);
    assert(pow10(19) == 10_000_000_000_000_000_000);
    lemma_pow10_monotone(d, 19);
}

pub proof fn lemma_pow10_monotone(a: nat, b: nat)
    requires
        a <= b,
    ensures
        pow10(a) <= pow10(b),
    decreases b,
{
    lemma_pow10_positive(b);
    if a < b {
        lemma_pow10_monotone(a, (b - 1) as nat);
    }
}

/// `10^decimals`.
pub fn unit_scale(decimals: u8) -> (r: u64)
    requires
        decimals <= MAX_DECIMALS,
    ensures
        r == pow10(decimals as nat),
{
    let mut r: u64 = 1;
    let mut i: u8 = 0;
    proof {
        lemma_pow10_bound(decimals as nat);
    }
    while i < decimals
        invariant
            i <= decimals,
            decimals <= 19,
            r == pow10(i as nat),
            pow10(decimals as nat) <= 10_000_000_000_000_000_000,
        decreases decimals - i,
    {
        proof {
            lemma_pow10_monotone((i + 1) as nat, decimals as nat);
        }
        r = r * 10;
        i = i + 1;
    }
    r
}

/// Splits `total_pool` between the admin and `recipient_count` recipients.
///
/// Each recipient gets `floor((1 - admin_quota) / recipient_count * 10^decimals)`;
/// the admin gets the residue `total_pool - share * recipient_count`. No
/// recipients is an error, and so is a pool smaller than what the recipients
/// are owed.
pub fn compute_distribution(
    total_pool: u64,
    admin_quota: QuotaFraction,
    recipient_count: u64,
    decimals: u8,
) -> (r: Result<DistributionPlan, MyError>)
    requires
        admin_quota.wf(),
        decimals <= MAX_DECIMALS,
    ensures
        r == distribution_of(total_pool as nat, admin_quota, recipient_count as nat, decimals as nat),
        r is Ok ==> r->Ok_0.admin_share + r->Ok_0.per_recipient_share * r->Ok_0.recipient_count
            == total_pool,
{
    if recipient_count == 0 {
        return Err(MyError::NoEligibleRecipients);
    }
    let scale = unit_scale(decimals);
    let kept: u64 = admin_quota.denominator - admin_quota.numerator;
    proof {
        let a = kept as int;
        let b = scale as int;
        assert(0 <= a * b <= 0xffff_ffff_ffff_ffff * 0xffff_ffff_ffff_ffff) by (nonlinear_arith)
            requires
                0 <= a <= 0xffff_ffff_ffff_ffff,
                0 <= b <= 0xffff_ffff_ffff_ffff,
        ;
        let c = admin_quota.denominator as int;
        let e = recipient_count as int;
        assert(0 < c * e <= 0xffff_ffff_ffff_ffff * 0xffff_ffff_ffff_ffff) by (nonlinear_arith)
            requires
                0 < c <= 0xffff_ffff_ffff_ffff,
                0 < e <= 0xffff_ffff_ffff_ffff,
        ;
    }
    let dividend: u128 = (kept as u128) * (scale as u128);
    let divisor: u128 = (admin_quota.denominator as u128) * (recipient_count as u128);
    let share: u128 = dividend / divisor;
    proof {
        let d = admin_quota.denominator as int;
        let k = kept as int;
        let s = scale as int;
        let n = recipient_count as int;
        assert(share * divisor <= dividend) by (nonlinear_arith)
            requires
                share == dividend / divisor,
                divisor > 0,
        ;
        assert(share * n <= s) by (nonlinear_arith)
            requires
                share * (d * n) <= k * s,
                k <= d,
                d > 0,
                n > 0,
                s >= 0,
                share >= 0,
        ;
        assert(share * n >= share) by (nonlinear_arith)
            requires
                n >= 1,
                share >= 0,
        ;
    }
    let paid: u128 = share * (recipient_count as u128);
    if paid > total_pool as u128 {
        return Err(MyError::PoolTooSmall);
    }
    let share64: u64 = share as u64;
    let paid64: u64 = paid as u64;
    Ok(
        DistributionPlan {
            admin_share: total_pool - paid64,
            per_recipient_share: share64,
            recipient_count,
        },
    )
}

/// For any positive number of recipients, a plan never pays out more than
/// the pool: the admin's share and the recipients' shares add up to the
/// pool exactly, and the recipients together get at most one whole unit.
pub proof fn lemma_no_over_distribution(total_pool: nat, quota: QuotaFraction, count: nat, decimals: nat)
    requires
        quota.wf(),
        0 < count <= u64::MAX,
        total_pool <= u64::MAX,
    ensures
        distribution_of(total_pool, quota, count, decimals) matches Ok(plan) ==> {
            &&& plan.admin_share + plan.per_recipient_share * plan.recipient_count == total_pool
            &&& plan.recipient_count == count
            &&& plan.per_recipient_share >= 0
        },
        per_recipient_share_of(quota, count, decimals) * count <= pow10(decimals),
{
    let d = quota.denominator as int;
    let k = (quota.denominator - quota.numerator) as int;
    let s = pow10(decimals) as int;
    let n = count as int;
    let share = per_recipient_share_of(quota, count, decimals) as int;
    lemma_pow10_positive(decimals);
    assert(d * n > 0) by (nonlinear_arith)
        requires
            d > 0,
            n > 0,
    ;
    assert(k * s >= 0) by (nonlinear_arith)
        requires
            k >= 0,
            s >= 0,
    ;
    assert(share * (d * n) <= k * s) by (nonlinear_arith)
        requires
            share == (k * s) / (d * n),
            d * n > 0,
            k * s >= 0,
    ;
    assert(share * n <= s) by (nonlinear_arith)
        requires
            share * (d * n) <= k * s,
            k <= d,
            d > 0,
            n > 0,
            s >= 0,
            share >= 0,
    ;
    assert(share * n >= share) by (nonlinear_arith)
        requires
            n >= 1,
            share >= 0,
    ;
}

/// With no recipients the pool is never split: the answer is always
/// `NoEligibleRecipients`, whatever the pool, quota and decimals.
pub proof fn lemma_no_recipients_rejected(total_pool: nat, quota: QuotaFraction, decimals: nat)
    ensures
        distribution_of(total_pool, quota, 0, decimals) == Err::<DistributionPlan, MyError>(
            MyError::NoEligibleRecipients,
        ),
{
}

} // verus!
