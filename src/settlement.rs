//! The settlement orchestrator.
//!
//! Planning is pure: a request is validated, its candidates resolved, the
//! pool split, and the result is the ordered list of effects that settles
//! it. Running the effects is a small state machine: the environment
//! performs the next effect and reports whether it succeeded.
//!
//! Failure policy: a failed account creation is ignored (creation is
//! idempotent, and a missing account shows up as a failed payout); a failed
//! payout is recorded and the run goes on to the next recipient; a failed
//! fee collection or leaf issuance stops the run.

use vstd::prelude::*;

use crate::address::Address;
use crate::distribution::{
    compute_distribution, distribution_of, lemma_no_over_distribution, DistributionPlan, MAX_DECIMALS,
};
use crate::eligibility::{
    candidate_rejected, eligible_prefix, lemma_eligible_prefix_len, lemma_recipients_at_derived_address,
    lemma_rejected_candidate_ignored, resolve_eligible, EligibleRecipient,
};
use crate::errors::MyError;
use crate::leaf::{digest_metadata, digests_of, AdditionalLeafData};
use crate::policy::CentralStateData;
use crate::primitives::{associated_address_of, metadata_decodes};

verus! {

/// The balance that the caller's fee account must hold at least.
pub const MIN_CALLER_BALANCE: u64 = 100;

/// One side effect of a settlement, in the order it must be applied.
#[derive(Clone, Copy, Debug, PartialEq, Eq)]
pub enum Effect {
    /// Create the associated account `account` of `owner`.
    CreateAccount { owner: Address, account: Address },
    /// Move the settlement fee from the caller to the beneficiary.
    CollectFee { from: Address, to: Address, amount: u64 },
    /// Pay one recipient its share of the pool.
    Payout { from: Address, to: Address, amount: u64 },
    /// Issue the new leaf that records the rental to `owner`.
    IssueLeaf { owner: Address },
}

/// Everything a settlement needs to know, as observed before it starts.
#[derive(Debug)]
pub struct SettlementRequest {
    pub policy: CentralStateData,
    /// The caller, who pays the fee and receives the new leaf.
    pub caller: Address,
    /// The caller's fee account and its balance.
    pub caller_account: Address,
    pub caller_balance: u64,
    /// The beneficiary's account: it receives the fee and funds the pool.
    pub pool_account: Address,
    pub pool_balance: u64,
    pub mint: Address,
    pub decimals: u8,
    /// The commitment store that holds the candidates' leaves.
    pub tree: Address,
    /// Serialized metadata shared by the candidates' leaves.
    pub metadata: Vec<u8>,
    /// Owner, then destination account, for each candidate.
    pub accounts: Vec<Address>,
    /// One claimed leaf per candidate.
    pub leaves: Vec<AdditionalLeafData>,
    /// Whether each candidate's destination account exists already.
    pub destination_exists: Vec<bool>,
}

/// A validated settlement: the split, who is paid, and the effects in order.
#[derive(Debug)]
pub struct SettlementPlan {
    pub distribution: DistributionPlan,
    pub recipients: Vec<EligibleRecipient>,
    pub effects: Vec<Effect>,
}

/// Whether a recipient before `k` has the same destination as recipient `k`.
pub open spec fn destination_seen(rs: Seq<EligibleRecipient>, k: int) -> bool {
    exists|j: int| 0 <= j < k && (#[trigger] rs[j]).destination_account@ == rs[k].destination_account@
}

/// The account creations for the first `n` recipients: one for each
/// destination that does not exist yet, at its first recipient.
pub open spec fn creations(rs: Seq<EligibleRecipient>, exists: Seq<bool>, n: nat) -> Seq<Effect>
    decreases n,
{
    if n == 0 {
        Seq::empty()
    } else {
        let e = rs[n - 1];
        let before = creations(rs, exists, (n - 1) as nat);
        if exists[e.source_index as int] || destination_seen(rs, n - 1) {
            before
        } else {
            before.push(Effect::CreateAccount { owner: e.identity, account: e.destination_account })
        }
    }
}

/// The payouts to the first `n` recipients, in order.
pub open spec fn payouts(rs: Seq<EligibleRecipient>, from: Address, amount: u64, n: nat) -> Seq<Effect>
    decreases n,
{
    if n == 0 {
        Seq::empty()
    } else {
        payouts(rs, from, amount, (n - 1) as nat).push(
            Effect::Payout { from, to: rs[n - 1].destination_account, amount },
        )
    }
}

/// The effects that settle a request with recipients `rs` and split `plan`.
pub open spec fn effects_of(req: SettlementRequest, rs: Seq<EligibleRecipient>, plan: DistributionPlan) -> Seq<Effect> {
    creations(rs, req.destination_exists@, rs.len())
        .push(Effect::CollectFee { from: req.caller_account, to: req.pool_account, amount: req.policy.base_cost })
        + payouts(rs, req.pool_account, plan.per_recipient_share, rs.len())
        .push(Effect::IssueLeaf { owner: req.caller })
}

/// Whether the request's lists fit together.
pub open spec fn request_shaped(req: SettlementRequest) -> bool {
    &&& req.accounts@.len() % 2 == 0
    &&& req.leaves@.len() == req.accounts@.len() / 2
    &&& req.destination_exists@.len() == req.leaves@.len()
}

/// The recipients of a request: its eligible candidates under the digests
/// of its own metadata.
pub open spec fn recipients_of(req: SettlementRequest) -> Seq<EligibleRecipient> {
    eligible_prefix(req.accounts@, req.leaves@, req.leaves@.len(), req.mint@, req.tree@, digests_of(req.metadata@))
}

/// The outcome of planning a request: its recipients and split, or the
/// first error that applies.
pub open spec fn settlement_of(req: SettlementRequest) -> Result<(Seq<EligibleRecipient>, DistributionPlan), MyError> {
    if req.caller_balance < MIN_CALLER_BALANCE {
        Err(MyError::InsufficientFunds)
    } else if !request_shaped(req) {
        Err(MyError::MalformedRequest)
    } else if !metadata_decodes(req.metadata@) {
        Err(MyError::MalformedClaim)
    } else {
        match distribution_of(
            req.pool_balance as nat,
            req.policy.admin_quota,
            recipients_of(req).len(),
            req.decimals as nat,
        ) {
            Ok(plan) => Ok((recipients_of(req), plan)),
            Err(e) => Err(e),
        }
    }
}

/// Plans a settlement.
///
/// In order: a caller balance under the minimum is `InsufficientFunds`; a
/// malformed request is `MalformedRequest`; undecodable metadata is
/// `MalformedClaim`; no eligible candidate is `NoEligibleRecipients`; a pool
/// too small for the shares is `PoolTooSmall`. Otherwise the plan pays each
/// eligible recipient, in candidate order, its share of the split that the
/// policy's quota gives.
pub fn handle_distribute(req: &SettlementRequest) -> (r: Result<SettlementPlan, MyError>)
    requires
        req.policy.wf(),
        req.decimals <= MAX_DECIMALS,
    ensures
        match r {
            Ok(p) => settlement_of(*req) == Ok::<(Seq<EligibleRecipient>, DistributionPlan), MyError>(
                (p.recipients@, p.distribution),
            ),
            Err(e) => settlement_of(*req) == Err::<(Seq<EligibleRecipient>, DistributionPlan), MyError>(e),
        },
        r is Ok ==> r->Ok_0.effects@ == effects_of(*req, r->Ok_0.recipients@, r->Ok_0.distribution),
        r is Ok ==> forall|k: int|
            0 <= k < r->Ok_0.recipients@.len() ==> (#[trigger] r->Ok_0.recipients@[k]).destination_account@
                == associated_address_of(r->Ok_0.recipients@[k].identity@, req.mint@),
{
    if req.caller_balance < MIN_CALLER_BALANCE {
        return Err(MyError::InsufficientFunds);
    }
    if req.accounts.len() % 2 != 0 || req.leaves.len() != req.accounts.len() / 2
        || req.destination_exists.len() != req.leaves.len() {
        return Err(MyError::MalformedRequest);
    }
    let digests = digest_metadata(&req.metadata)?;
    let recipients = resolve_eligible(&req.accounts, &req.leaves, &req.mint, &req.tree, &digests)?;
    let distribution = compute_distribution(
        req.pool_balance,
        req.policy.admin_quota,
        recipients.len() as u64,
        req.decimals,
    )?;
    proof {
        lemma_recipients_at_derived_address(
            req.accounts@,
            req.leaves@,
            req.leaves@.len(),
            req.mint@,
            req.tree@,
            digests@,
        );
    }
    let effects = plan_effects(req, &recipients, &distribution);
    Ok(SettlementPlan { distribution, recipients, effects })
}

/// The effects of a settlement, in order: account creations, the fee, the
/// payouts in candidate order, and the new leaf.
fn plan_effects(req: &SettlementRequest, rs: &Vec<EligibleRecipient>, plan: &DistributionPlan) -> (r: Vec<Effect>)
    requires
        forall|k: int| 0 <= k < rs@.len() ==> #[trigger] rs@[k].source_index < req.destination_exists@.len(),
    ensures
        r@ == effects_of(*req, rs@, *plan),
{
    let mut effects: Vec<Effect> = Vec::new();
    let mut i: usize = 0;
    while i < rs.len()
        invariant
            i <= rs@.len(),
            forall|k: int| 0 <= k < rs@.len() ==> #[trigger] rs@[k].source_index < req.destination_exists@.len(),
            effects@ == creations(rs@, req.destination_exists@, i as nat),
        decreases rs@.len() - i,
    {
        let e = rs[i];
        let mut seen = false;
        let mut j: usize = 0;
        while j < i
            invariant
                i < rs@.len(),
                j <= i,
                e == rs@[i as int],
                seen == exists|t: int| 0 <= t < j && (#[trigger] rs@[t]).destination_account@ == e.destination_account@,
            decreases i - j,
        {
            if rs[j].destination_account.same_as(&e.destination_account) {
                seen = true;
            }
            j = j + 1;
        }
        if !req.destination_exists[e.source_index] && !seen {
            effects.push(Effect::CreateAccount { owner: e.identity, account: e.destination_account });
        }
        i = i + 1;
    }
    effects.push(
        Effect::CollectFee { from: req.caller_account, to: req.pool_account, amount: req.policy.base_cost },
    );
    let ghost head = effects@;
    let mut j: usize = 0;
    while j < rs.len()
        invariant
            j <= rs@.len(),
            effects@ == head + payouts(rs@, req.pool_account, plan.per_recipient_share, j as nat),
        decreases rs@.len() - j,
    {
        effects.push(
            Effect::Payout { from: req.pool_account, to: rs[j].destination_account, amount: plan.per_recipient_share },
        );
        j = j + 1;
        proof {
            assert(effects@ == head + payouts(rs@, req.pool_account, plan.per_recipient_share, j as nat));
        }
    }
    effects.push(Effect::IssueLeaf { owner: req.caller });
    effects
}

/// Where a run of settlement effects stands.
#[derive(Clone, Copy, Debug, PartialEq, Eq)]
pub enum RunStatus {
    /// Effects remain to be applied.
    Running,
    /// Every effect was applied; failed payouts are listed in the run.
    Complete,
    /// The fee collection or the leaf issuance failed; the run stopped.
    Failed,
}

/// A settlement in progress: the planned effects, how many were applied,
/// and the destinations whose payout failed.
#[derive(Debug)]
pub struct SettlementRun {
    pub effects: Vec<Effect>,
    pub next: usize,
    pub failed_payouts: Vec<Address>,
    pub status: RunStatus,
}

/// Whether a failure of this effect stops the run.
pub open spec fn fatal_on_failure(e: Effect) -> bool {
    e is CollectFee || e is IssueLeaf
}

impl SettlementRun {
    pub open spec fn wf(&self) -> bool {
        &&& self.next <= self.effects@.len()
        &&& self.status == RunStatus::Running ==> self.next < self.effects@.len()
    }

    /// Starts running a plan's effects from the first.
    pub fn start(plan: SettlementPlan) -> (r: SettlementRun)
        ensures
            r.wf(),
            r.effects@ == plan.effects@,
            r.next == 0,
            r.failed_payouts@ == Seq::<Address>::empty(),
            r.status == (if plan.effects@.len() == 0 { RunStatus::Complete } else { RunStatus::Running }),
    {
        let status = if plan.effects.len() == 0 { RunStatus::Complete } else { RunStatus::Running };
        SettlementRun { effects: plan.effects, next: 0, failed_payouts: Vec::new(), status }
    }

    /// The effect to apply next, if the run is still going.
    pub fn next_effect(&self) -> (r: Option<Effect>)
        requires
            self.wf(),
        ensures
            self.status == RunStatus::Running ==> r == Some(self.effects@[self.next as int]),
            self.status != RunStatus::Running ==> r is None,
    {
        match self.status {
            RunStatus::Running => Some(self.effects[self.next]),
            _ => None,
        }
    }

    /// Records whether the effect returned by `next_effect` succeeded, and
    /// moves on. A run that is not going is left as it is.
    pub fn record_outcome(&mut self, succeeded: bool)
        requires
            old(self).wf(),
        ensures
            final(self).wf(),
            final(self).effects@ == old(self).effects@,
            old(self).status != RunStatus::Running ==> *final(self) == *old(self),
            old(self).status == RunStatus::Running ==> ({
                let e = old(self).effects@[old(self).next as int];
                &&& final(self).next == old(self).next + 1
                &&& final(self).failed_payouts@ == (if !succeeded && e is Payout {
                    old(self).failed_payouts@.push(e->Payout_to)
                } else {
                    old(self).failed_payouts@
                })
                &&& final(self).status == (if !succeeded && fatal_on_failure(e) {
                    RunStatus::Failed
                } else if final(self).next == old(self).effects@.len() {
                    RunStatus::Complete
                } else {
                    RunStatus::Running
                })
            }),
    {
        match self.status {
            RunStatus::Running => {},
            _ => {
                return;
            },
        }
        let len = self.effects.len();
        let e = self.effects[self.next];
        self.next = self.next + 1;
        let mut fatal = false;
        if !succeeded {
            match e {
                Effect::Payout { to, .. } => {
                    self.failed_payouts.push(to);
                },
                Effect::CollectFee { .. } => {
                    fatal = true;
                },
                Effect::IssueLeaf { .. } => {
                    fatal = true;
                },
                Effect::CreateAccount { .. } => {},
            }
        }
        if fatal {
            self.status = RunStatus::Failed;
        } else if self.next == len {
            self.status = RunStatus::Complete;
        }
    }
}

/// Account creation is planned only for destinations that do not exist:
/// every planned creation is for an absent destination, and once every
/// destination exists, planning again creates nothing.
pub proof fn lemma_creation_only_when_absent(rs: Seq<EligibleRecipient>, exists: Seq<bool>, n: nat)
    requires
        n <= rs.len(),
    ensures
        forall|k: int|
            0 <= k < creations(rs, exists, n).len() ==> exists|j: int|
                0 <= j < n && !exists[rs[j].source_index as int]
                    && #[trigger] creations(rs, exists, n)[k] == (Effect::CreateAccount {
                    owner: rs[j].identity,
                    account: rs[j].destination_account,
                }),
        (forall|j: int| 0 <= j < n ==> #[trigger] exists[rs[j].source_index as int])
            ==> creations(rs, exists, n).len() == 0,
    decreases n,
{
    if n > 0 {
        lemma_creation_only_when_absent(rs, exists, (n - 1) as nat);
        let before = creations(rs, exists, (n - 1) as nat);
        let now = creations(rs, exists, n);
        assert forall|k: int| 0 <= k < now.len() implies exists|j: int|
            0 <= j < n && !exists[rs[j].source_index as int]
                && #[trigger] now[k] == (Effect::CreateAccount {
                owner: rs[j].identity,
                account: rs[j].destination_account,
            }) by {
            if k < before.len() {
                assert(now[k] == before[k]);
                let j = choose|j: int|
                    0 <= j < n - 1 && !exists[rs[j].source_index as int]
                        && #[trigger] before[k] == (Effect::CreateAccount {
                        owner: rs[j].identity,
                        account: rs[j].destination_account,
                    });
                assert(0 <= j < n);
            } else {
                assert(0 <= n - 1 < n);
            }
        }
        if forall|j: int| 0 <= j < n ==> #[trigger] exists[rs[j].source_index as int] {
            assert(exists[rs[n - 1].source_index as int]);
        }
    }
}

/// Account creation is requested at most once per address: the planned
/// creations name pairwise different accounts.
pub proof fn lemma_creation_once_per_destination(rs: Seq<EligibleRecipient>, exists: Seq<bool>, n: nat)
    requires
        n <= rs.len(),
    ensures
        forall|a: int, b: int|
            0 <= a < b < creations(rs, exists, n).len() ==> (#[trigger] creations(rs, exists, n)[a])->CreateAccount_account@
                != (#[trigger] creations(rs, exists, n)[b])->CreateAccount_account@,
    decreases n,
{
    if n > 0 {
        lemma_creation_once_per_destination(rs, exists, (n - 1) as nat);
        lemma_creation_only_when_absent(rs, exists, (n - 1) as nat);
        let before = creations(rs, exists, (n - 1) as nat);
        let now = creations(rs, exists, n);
        assert forall|a: int, b: int| 0 <= a < b < now.len() implies (#[trigger] now[a])->CreateAccount_account@
            != (#[trigger] now[b])->CreateAccount_account@ by {
            assert(now[a] == before[a]);
            if b < before.len() {
                assert(now[b] == before[b]);
            } else {
                let j = choose|j: int|
                    0 <= j < n - 1 && !exists[rs[j].source_index as int]
                        && #[trigger] before[a] == (Effect::CreateAccount {
                        owner: rs[j].identity,
                        account: rs[j].destination_account,
                    });
                assert(!destination_seen(rs, n - 1));
                assert(rs[j].destination_account@ != rs[n - 1].destination_account@);
            }
        }
    }
}

proof fn lemma_creations_follow_flags(rs: Seq<EligibleRecipient>, e1: Seq<bool>, e2: Seq<bool>, n: nat)
    requires
        n <= rs.len(),
        forall|k: int| 0 <= k < n ==> e1[(#[trigger] rs[k]).source_index as int] == e2[rs[k].source_index as int],
    ensures
        creations(rs, e1, n) == creations(rs, e2, n),
    decreases n,
{
    if n > 0 {
        lemma_creations_follow_flags(rs, e1, e2, (n - 1) as nat);
        assert(e1[rs[n - 1].source_index as int] == e2[rs[n - 1].source_index as int]);
    }
}

/// A bad candidate blocks nobody: a request with one more candidate that
/// fails a check settles exactly as the request without it, with the same
/// recipients, split and effects.
pub proof fn lemma_rejected_candidate_changes_nothing(
    req: SettlementRequest,
    more: SettlementRequest,
    owner: Address,
    destination: Address,
    leaf: AdditionalLeafData,
    exists_flag: bool,
)
    requires
        more.accounts@ == req.accounts@.push(owner).push(destination),
        more.leaves@ == req.leaves@.push(leaf),
        more.destination_exists@ == req.destination_exists@.push(exists_flag),
        more.metadata@ == req.metadata@,
        more.policy == req.policy,
        more.caller == req.caller,
        more.caller_account == req.caller_account,
        more.caller_balance == req.caller_balance,
        more.pool_account == req.pool_account,
        more.pool_balance == req.pool_balance,
        more.mint == req.mint,
        more.decimals == req.decimals,
        more.tree == req.tree,
        request_shaped(req),
        req.leaves@.len() <= usize::MAX,
        candidate_rejected(
            more.accounts@,
            more.leaves@,
            req.leaves@.len() as int,
            req.mint@,
            req.tree@,
            digests_of(req.metadata@),
        ),
    ensures
        settlement_of(more) == settlement_of(req),
        settlement_of(req) matches Ok((rs, plan)) ==> effects_of(more, rs, plan) == effects_of(req, rs, plan),
{
    let d = digests_of(req.metadata@);
    lemma_rejected_candidate_ignored(req.accounts@, req.leaves@, owner, destination, leaf, req.mint@, req.tree@, d);
    assert(request_shaped(more));
    assert(recipients_of(more) == recipients_of(req));
    let rs = recipients_of(req);
    lemma_recipients_at_derived_address(req.accounts@, req.leaves@, req.leaves@.len(), req.mint@, req.tree@, d);
    assert forall|k: int| 0 <= k < rs.len() implies more.destination_exists@[(#[trigger] rs[k]).source_index as int]
        == req.destination_exists@[rs[k].source_index as int] by {
        assert(rs[k].source_index < req.leaves@.len());
    }
    lemma_creations_follow_flags(rs, more.destination_exists@, req.destination_exists@, rs.len());
}

/// The payouts are one per recipient, in order, each of the same amount
/// from the same source.
pub proof fn lemma_payouts_shape(rs: Seq<EligibleRecipient>, from: Address, amount: u64, n: nat)
    requires
        n <= rs.len(),
    ensures
        payouts(rs, from, amount, n).len() == n,
        forall|k: int|
            0 <= k < n ==> #[trigger] payouts(rs, from, amount, n)[k] == (Effect::Payout {
                from,
                to: rs[k].destination_account,
                amount,
            }),
    decreases n,
{
    if n > 0 {
        lemma_payouts_shape(rs, from, amount, (n - 1) as nat);
        let before = payouts(rs, from, amount, (n - 1) as nat);
        let now = payouts(rs, from, amount, n);
        assert forall|k: int| 0 <= k < n implies #[trigger] now[k] == (Effect::Payout {
            from,
            to: rs[k].destination_account,
            amount,
        }) by {
            if k < n - 1 {
                assert(now[k] == before[k]);
            }
        }
    }
}

/// A planned settlement never over-distributes and pays only derived
/// addresses: the admin's residue and the equal shares add up to the pool,
/// and every recipient's destination is the associated account of its
/// identity for the mint.
pub proof fn lemma_settlement_within_pool(req: SettlementRequest)
    requires
        req.policy.wf(),
        req.leaves@.len() <= usize::MAX,
    ensures
        settlement_of(req) matches Ok((rs, plan)) ==> {
            &&& plan.recipient_count == rs.len()
            &&& rs.len() > 0
            &&& plan.admin_share + plan.per_recipient_share * rs.len() == req.pool_balance
            &&& forall|k: int|
                0 <= k < rs.len() ==> (#[trigger] rs[k]).destination_account@ == associated_address_of(
                    rs[k].identity@,
                    req.mint@,
                )
        },
{
    let d = digests_of(req.metadata@);
    let rs = recipients_of(req);
    lemma_eligible_prefix_len(req.accounts@, req.leaves@, req.leaves@.len(), req.mint@, req.tree@, d);
    lemma_recipients_at_derived_address(req.accounts@, req.leaves@, req.leaves@.len(), req.mint@, req.tree@, d);
    if rs.len() > 0 {
        lemma_no_over_distribution(req.pool_balance as nat, req.policy.admin_quota, rs.len(), req.decimals as nat);
    }
}

} // verus!
