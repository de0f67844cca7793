use anchor_lang::prelude::Pubkey;
use anchor_lang::AnchorSerialize;
use mpl_bubblegum::types::{Creator, MetadataArgs, TokenProgramVersion, TokenStandard};
use rental_settlement::address::Address;
use rental_settlement::distribution::{compute_distribution, unit_scale, DistributionPlan, QuotaFraction};
use rental_settlement::eligibility::resolve_eligible;
use rental_settlement::errors::MyError;
use rental_settlement::issuance::handle_mint_token;
use rental_settlement::leaf::{
    commitment_hash, conclude_proof, digest_metadata, handle_verify, inclusion_answer, verify_claim,
    AdditionalLeafData, InclusionAnswer, MetadataDigests, ProofRequest, Verification,
};
use rental_settlement::policy::{handle_initialize, CentralStateData};
use rental_settlement::settlement::{
    handle_distribute, Effect, RunStatus, SettlementRequest, SettlementRun, MIN_CALLER_BALANCE,
};

fn addr(b: u8) -> Address {
    Address::new([b; 32])
}

fn quota() -> QuotaFraction {
    QuotaFraction::new(3, 10).unwrap()
}

fn ata(owner: &Address, mint: &Address) -> Address {
    let k = anchor_spl::associated_token::get_associated_token_address(
        &Pubkey::new_from_array(owner.bytes),
        &Pubkey::new_from_array(mint.bytes),
    );
    Address::new(k.to_bytes())
}

fn sample_metadata() -> MetadataArgs {
    MetadataArgs {
        name: String::from("Land"),
        symbol: String::from("LND"),
        uri: String::from("https://example.org/land.json"),
        seller_fee_basis_points: 500,
        primary_sale_happened: false,
        is_mutable: true,
        edition_nonce: None,
        token_standard: Some(TokenStandard::NonFungible),
        collection: None,
        uses: None,
        token_program_version: TokenProgramVersion::Original,
        creators: vec![Creator { address: Pubkey::new_from_array([7; 32]), verified: false, share: 100 }],
    }
}

fn metadata_bytes() -> Vec<u8> {
    sample_metadata().try_to_vec().unwrap()
}

fn digests() -> MetadataDigests {
    digest_metadata(&metadata_bytes()).unwrap()
}

fn leaf(index: u32, owner: Address, hash: Option<[u8; 32]>) -> AdditionalLeafData {
    AdditionalLeafData { leaf_index: index, owner, delegate: owner, root: addr(9), leaf_hash: hash }
}

/// A leaf of `owner` at `index` in `tree`, with its correct commitment.
fn valid_leaf(tree: &Address, index: u32, owner: Address) -> AdditionalLeafData {
    let unhashed = leaf(index, owner, None);
    let h = commitment_hash(tree, &unhashed, &digests());
    leaf(index, owner, Some(h))
}

fn policy() -> CentralStateData {
    let mut p = CentralStateData::uninitialized();
    handle_initialize(&mut p, addr(1)).unwrap();
    p
}

fn request(accounts: Vec<Address>, leaves: Vec<AdditionalLeafData>, exists: Vec<bool>, balance: u64) -> SettlementRequest {
    SettlementRequest {
        policy: policy(),
        caller: addr(2),
        caller_account: addr(3),
        caller_balance: balance,
        pool_account: addr(4),
        pool_balance: 1_000_000_000,
        mint: addr(5),
        decimals: 9,
        tree: addr(6),
        metadata: metadata_bytes(),
        accounts,
        leaves,
        destination_exists: exists,
    }
}

#[test]
fn split_of_ten_thousand_among_seven() {
    let plan = compute_distribution(10_000, quota(), 7, 2).unwrap();
    assert_eq!(plan, DistributionPlan { admin_share: 9_930, per_recipient_share: 10, recipient_count: 7 });
}

#[test]
fn split_rounds_down_toward_admin() {
    let plan = compute_distribution(1_000_000_000, quota(), 3, 9).unwrap();
    assert_eq!(plan.per_recipient_share, 233_333_333);
    assert_eq!(plan.admin_share, 1_000_000_000 - 699_999_999);
    assert!(plan.admin_share + plan.per_recipient_share * plan.recipient_count <= 1_000_000_000);
}

#[test]
fn no_recipients_is_rejected() {
    assert_eq!(compute_distribution(10_000, quota(), 0, 2), Err(MyError::NoEligibleRecipients));
    assert_eq!(compute_distribution(0, quota(), 0, 0), Err(MyError::NoEligibleRecipients));
}

#[test]
fn pool_smaller_than_shares_is_rejected() {
    assert_eq!(compute_distribution(50, quota(), 7, 2), Err(MyError::PoolTooSmall));
}

#[test]
fn full_quota_pays_recipients_nothing() {
    let all = QuotaFraction::new(1, 1).unwrap();
    let plan = compute_distribution(500, all, 4, 2).unwrap();
    assert_eq!(plan, DistributionPlan { admin_share: 500, per_recipient_share: 0, recipient_count: 4 });
}

#[test]
fn quota_outside_unit_interval_is_refused() {
    assert!(QuotaFraction::new(11, 10).is_none());
    assert!(QuotaFraction::new(0, 0).is_none());
    assert!(QuotaFraction::new(0, 5).is_some());
}

#[test]
fn unit_scale_powers_of_ten() {
    assert_eq!(unit_scale(0), 1);
    assert_eq!(unit_scale(2), 100);
    assert_eq!(unit_scale(19), 10_000_000_000_000_000_000);
}

#[test]
fn mint_amount_scales_by_decimals() {
    assert_eq!(handle_mint_token(5, 9), Ok(5_000_000_000));
    assert_eq!(handle_mint_token(0, 40), Ok(0));
    assert_eq!(handle_mint_token(u64::MAX, 1), Err(MyError::AmountOverflow));
    assert_eq!(handle_mint_token(2, 19), Err(MyError::AmountOverflow));
}

#[test]
fn initialize_twice_fails_and_keeps_policy() {
    let mut state = CentralStateData::uninitialized();
    assert_eq!(handle_initialize(&mut state, addr(1)), Ok(()));
    let first = state;
    assert!(first.initialized);
    assert_eq!(first.centralized_account, addr(1));
    assert_eq!(first.base_cost, 1);
    assert_eq!(first.admin_quota, quota());
    assert_eq!(handle_initialize(&mut state, addr(2)), Err(MyError::AlreadyInitialized));
    assert_eq!(state, first);
}

#[test]
fn address_equality_is_bytewise() {
    let mut b = [3u8; 32];
    assert!(Address::new(b).same_as(&addr(3)));
    b[31] = 4;
    assert!(!Address::new(b).same_as(&addr(3)));
}

#[test]
fn metadata_digests_match_the_outside_hashes() {
    let d = digests();
    let m = sample_metadata();
    assert_eq!(d.data_hash, mpl_bubblegum::hash::hash_metadata(&m).unwrap());
    assert_eq!(d.creator_hash, mpl_bubblegum::hash::hash_creators(&m.creators));
}

#[test]
fn malformed_metadata_is_a_malformed_claim() {
    assert_eq!(digest_metadata(&vec![1, 2, 3]), Err(MyError::MalformedClaim));
    let mut bytes = metadata_bytes();
    bytes.push(0);
    assert_eq!(digest_metadata(&bytes), Err(MyError::MalformedClaim));
}

#[test]
fn commitment_matches_leaf_schema_hash() {
    let tree = addr(6);
    let d = digests();
    let l = leaf(12, addr(8), None);
    let id = mpl_bubblegum::utils::get_asset_id(&Pubkey::new_from_array(tree.bytes), 12);
    let schema = mpl_bubblegum::types::LeafSchema::V1 {
        id,
        owner: Pubkey::new_from_array(l.owner.bytes),
        delegate: Pubkey::new_from_array(l.delegate.bytes),
        nonce: 12,
        data_hash: d.data_hash,
        creator_hash: d.creator_hash,
    };
    assert_eq!(commitment_hash(&tree, &l, &d), schema.hash());
}

#[test]
fn commitment_is_deterministic_and_field_sensitive() {
    let tree = addr(6);
    let d = digests();
    let a = leaf(3, addr(8), None);
    let mut b = a;
    b.root = addr(1);
    assert_eq!(commitment_hash(&tree, &a, &d), commitment_hash(&tree, &b, &d));
    let other_owner = leaf(3, addr(10), None);
    assert_ne!(commitment_hash(&tree, &a, &d), commitment_hash(&tree, &other_owner, &d));
    let other_index = leaf(4, addr(8), None);
    assert_ne!(commitment_hash(&tree, &a, &d), commitment_hash(&tree, &other_index, &d));
    assert_ne!(commitment_hash(&tree, &a, &d), commitment_hash(&addr(7), &a, &d));
}

#[test]
fn claimed_hash_must_match_exactly() {
    let tree = addr(6);
    let good = valid_leaf(&tree, 1, addr(8));
    let h = good.leaf_hash.unwrap();
    assert_eq!(verify_claim(&tree, &good, &digests()), Ok(Verification::Confirmed(h)));
    let mut flipped = h;
    flipped[0] ^= 1;
    let bad = leaf(1, addr(8), Some(flipped));
    assert_eq!(verify_claim(&tree, &bad, &digests()), Err(MyError::HashMismatch));
}

#[test]
fn claim_without_hash_needs_inclusion_proof() {
    let tree = addr(6);
    let l = leaf(2, addr(8), None);
    let expected = commitment_hash(&tree, &l, &digests());
    let req = ProofRequest { root: addr(9), leaf: expected, index: 2 };
    assert_eq!(verify_claim(&tree, &l, &digests()), Ok(Verification::NeedsProof(req)));
    assert_eq!(conclude_proof(&req, InclusionAnswer::Included), Ok(expected));
    assert_eq!(conclude_proof(&req, InclusionAnswer::NotIncluded), Err(MyError::ProofInvalid));
    assert_eq!(conclude_proof(&req, InclusionAnswer::IndexNotFound), Err(MyError::MalformedClaim));
}

#[test]
fn verify_decodes_metadata_first() {
    let tree = addr(6);
    let good = valid_leaf(&tree, 1, addr(8));
    assert_eq!(
        handle_verify(&tree, &metadata_bytes(), &good),
        Ok(Verification::Confirmed(good.leaf_hash.unwrap()))
    );
    assert_eq!(handle_verify(&tree, &vec![0xff], &good), Err(MyError::MalformedClaim));
}

#[test]
fn resolver_rejects_odd_account_list() {
    let tree = addr(6);
    let r = resolve_eligible(&vec![addr(1), addr(2), addr(3)], &vec![leaf(0, addr(1), None)], &addr(5), &tree, &digests());
    assert_eq!(r, Err(MyError::MalformedRequest));
}

#[test]
fn resolver_rejects_leaf_count_mismatch() {
    let tree = addr(6);
    let r = resolve_eligible(&vec![addr(1), addr(2)], &vec![], &addr(5), &tree, &digests());
    assert_eq!(r, Err(MyError::MalformedRequest));
}

#[test]
fn resolver_keeps_only_matching_destination() {
    let tree = addr(6);
    let mint = addr(5);
    let (a, b) = (addr(11), addr(12));
    let accounts = vec![a, addr(99), b, ata(&b, &mint)];
    let leaves = vec![valid_leaf(&tree, 0, a), valid_leaf(&tree, 1, b)];
    let r = resolve_eligible(&accounts, &leaves, &mint, &tree, &digests()).unwrap();
    assert_eq!(r.len(), 1);
    assert_eq!(r[0].identity, b);
    assert_eq!(r[0].destination_account, ata(&b, &mint));
    assert_eq!(r[0].source_index, 1);
}

#[test]
fn resolver_excludes_wrong_owner_and_unproven_leaves() {
    let tree = addr(6);
    let mint = addr(5);
    let (a, b, c) = (addr(11), addr(12), addr(13));
    let accounts = vec![a, ata(&a, &mint), b, ata(&b, &mint), c, ata(&c, &mint)];
    let leaves = vec![valid_leaf(&tree, 0, c), leaf(1, b, None), valid_leaf(&tree, 2, c)];
    let r = resolve_eligible(&accounts, &leaves, &mint, &tree, &digests()).unwrap();
    assert_eq!(r.len(), 1);
    assert_eq!(r[0].identity, c);
    assert_eq!(r[0].source_index, 2);
}

#[test]
fn distribute_pays_only_the_valid_candidate() {
    let tree = addr(6);
    let mint = addr(5);
    let (a, b) = (addr(11), addr(12));
    let accounts = vec![a, addr(99), b, ata(&b, &mint)];
    let leaves = vec![valid_leaf(&tree, 0, a), valid_leaf(&tree, 1, b)];
    let plan = handle_distribute(&request(accounts, leaves, vec![true, false], 150)).unwrap();
    assert_eq!(plan.recipients.len(), 1);
    assert_eq!(plan.distribution.per_recipient_share, 700_000_000);
    assert_eq!(plan.distribution.admin_share, 300_000_000);
    assert_eq!(
        plan.effects,
        vec![
            Effect::CreateAccount { owner: b, account: ata(&b, &mint) },
            Effect::CollectFee { from: addr(3), to: addr(4), amount: 1 },
            Effect::Payout { from: addr(4), to: ata(&b, &mint), amount: 700_000_000 },
            Effect::IssueLeaf { owner: addr(2) },
        ]
    );
}

#[test]
fn distribute_skips_creation_for_existing_accounts() {
    let tree = addr(6);
    let mint = addr(5);
    let (a, b) = (addr(11), addr(12));
    let accounts = vec![a, ata(&a, &mint), b, ata(&b, &mint)];
    let leaves = vec![valid_leaf(&tree, 0, a), valid_leaf(&tree, 1, b)];
    let plan = handle_distribute(&request(accounts, leaves, vec![true, true], 100)).unwrap();
    assert_eq!(plan.distribution.per_recipient_share, 350_000_000);
    assert_eq!(
        plan.effects,
        vec![
            Effect::CollectFee { from: addr(3), to: addr(4), amount: 1 },
            Effect::Payout { from: addr(4), to: ata(&a, &mint), amount: 350_000_000 },
            Effect::Payout { from: addr(4), to: ata(&b, &mint), amount: 350_000_000 },
            Effect::IssueLeaf { owner: addr(2) },
        ]
    );
}

#[test]
fn distribute_below_minimum_balance_fails() {
    let tree = addr(6);
    let mint = addr(5);
    let b = addr(12);
    let accounts = vec![b, ata(&b, &mint)];
    let leaves = vec![valid_leaf(&tree, 0, b)];
    assert_eq!(MIN_CALLER_BALANCE, 100);
    assert_eq!(handle_distribute(&request(accounts, leaves, vec![false], 50)).unwrap_err(), MyError::InsufficientFunds);
}

#[test]
fn distribute_with_no_eligible_candidate_fails() {
    let tree = addr(6);
    let b = addr(12);
    let accounts = vec![b, addr(98)];
    let leaves = vec![valid_leaf(&tree, 0, b)];
    assert_eq!(handle_distribute(&request(accounts, leaves, vec![false], 500)).unwrap_err(), MyError::NoEligibleRecipients);
}

#[test]
fn distribute_rejects_malformed_requests() {
    let accounts = vec![addr(12)];
    assert_eq!(handle_distribute(&request(accounts, vec![], vec![], 500)).unwrap_err(), MyError::MalformedRequest);
    let accounts = vec![addr(12), addr(13)];
    let leaves = vec![leaf(0, addr(12), None)];
    assert_eq!(handle_distribute(&request(accounts, leaves, vec![], 500)).unwrap_err(), MyError::MalformedRequest);
    let mut req = request(vec![], vec![], vec![], 500);
    req.metadata = vec![5];
    assert_eq!(handle_distribute(&req).unwrap_err(), MyError::MalformedClaim);
}

fn two_recipient_run() -> SettlementRun {
    let tree = addr(6);
    let mint = addr(5);
    let (a, b) = (addr(11), addr(12));
    let accounts = vec![a, ata(&a, &mint), b, ata(&b, &mint)];
    let leaves = vec![valid_leaf(&tree, 0, a), valid_leaf(&tree, 1, b)];
    SettlementRun::start(handle_distribute(&request(accounts, leaves, vec![true, true], 100)).unwrap())
}

#[test]
fn run_records_failed_payouts_and_completes() {
    let mut run = two_recipient_run();
    let mut seen = Vec::new();
    let mut step = 0;
    while let Some(e) = run.next_effect() {
        seen.push(e);
        run.record_outcome(step != 1);
        step += 1;
    }
    assert_eq!(seen.len(), 4);
    assert_eq!(run.status, RunStatus::Complete);
    assert_eq!(run.failed_payouts, vec![ata(&addr(11), &addr(5))]);
}

#[test]
fn run_stops_when_fee_collection_fails() {
    let mut run = two_recipient_run();
    assert!(matches!(run.next_effect(), Some(Effect::CollectFee { .. })));
    run.record_outcome(false);
    assert_eq!(run.status, RunStatus::Failed);
    assert_eq!(run.next_effect(), None);
}

#[test]
fn run_fails_when_issuance_fails() {
    let mut run = two_recipient_run();
    for _ in 0..3 {
        run.record_outcome(true);
    }
    assert_eq!(run.next_effect(), Some(Effect::IssueLeaf { owner: addr(2) }));
    run.record_outcome(false);
    assert_eq!(run.status, RunStatus::Failed);
}

#[test]
fn planning_again_after_creation_creates_nothing() {
    let tree = addr(6);
    let mint = addr(5);
    let b = addr(12);
    let accounts = vec![b, ata(&b, &mint)];
    let leaves = vec![valid_leaf(&tree, 0, b)];
    let first = handle_distribute(&request(accounts.clone(), leaves.clone(), vec![false], 100)).unwrap();
    assert_eq!(first.effects[0], Effect::CreateAccount { owner: b, account: ata(&b, &mint) });
    let second = handle_distribute(&request(accounts, leaves, vec![true], 100)).unwrap();
    assert!(second.effects.iter().all(|e| !matches!(e, Effect::CreateAccount { .. })));
    assert_eq!(first.recipients[0].destination_account, second.recipients[0].destination_account);
}

#[test]
fn index_beyond_capacity_has_no_leaf() {
    assert_eq!(inclusion_answer(8, 3, true), InclusionAnswer::IndexNotFound);
    assert_eq!(inclusion_answer(7, 3, true), InclusionAnswer::Included);
    assert_eq!(inclusion_answer(7, 3, false), InclusionAnswer::NotIncluded);
    assert_eq!(inclusion_answer(0, 0, true), InclusionAnswer::Included);
    assert_eq!(inclusion_answer(1, 0, true), InclusionAnswer::IndexNotFound);
    assert_eq!(inclusion_answer(u32::MAX, 32, false), InclusionAnswer::NotIncluded);
}

#[test]
fn duplicate_destination_is_created_once() {
    let tree = addr(6);
    let mint = addr(5);
    let b = addr(12);
    let accounts = vec![b, ata(&b, &mint), b, ata(&b, &mint)];
    let leaves = vec![valid_leaf(&tree, 0, b), valid_leaf(&tree, 1, b)];
    let plan = handle_distribute(&request(accounts, leaves, vec![false, false], 100)).unwrap();
    assert_eq!(plan.recipients.len(), 2);
    let creations = plan.effects.iter().filter(|e| matches!(e, Effect::CreateAccount { .. })).count();
    assert_eq!(creations, 1);
    assert_eq!(plan.effects[0], Effect::CreateAccount { owner: b, account: ata(&b, &mint) });
}

#[test]
fn candidate_without_claimed_hash_is_as_if_absent() {
    let tree = addr(6);
    let mint = addr(5);
    let (a, b) = (addr(11), addr(12));
    let base = handle_distribute(&request(vec![b, ata(&b, &mint)], vec![valid_leaf(&tree, 0, b)], vec![true], 100)).unwrap();
    let more = handle_distribute(&request(
        vec![b, ata(&b, &mint), a, ata(&a, &mint)],
        vec![valid_leaf(&tree, 0, b), leaf(1, a, None)],
        vec![true, false],
        100,
    ))
    .unwrap();
    assert_eq!(base.recipients, more.recipients);
    assert_eq!(base.distribution, more.distribution);
    assert_eq!(base.effects, more.effects);
}
