//! The eligibility resolver: which submitted candidates are paid.
//!
//! Candidates come as a flat account list, two entries each (owner, then
//! destination account), beside one claimed leaf per candidate. A candidate
//! that fails a check is left out, never an error, so that one bad claim
//! cannot block the payouts of the others.

use vstd::prelude::*;

use crate::address::Address;
use crate::errors::MyError;
use crate::leaf::{claim_matches, verify_claim, AdditionalLeafData, MetadataDigests, Verification};
use crate::primitives::{associated_address, associated_address_of};

verus! {

/// A candidate that passed every check, with its place in the request.
#[derive(Clone, Copy, Debug, PartialEq, Eq)]
pub struct EligibleRecipient {
    pub identity: Address,
    pub destination_account: Address,
    pub source_index: usize,
}

/// Candidate `i` names as destination the associated account of its owner,
/// its owner is the leaf's owner, and the leaf's claimed commitment is the
/// computed one.
pub open spec fn candidate_eligible(
    accounts: Seq<Address>,
    leaves: Seq<AdditionalLeafData>,
    i: int,
    mint: Seq<u8>,
    tree: Seq<u8>,
    digests: (Seq<u8>, Seq<u8>),
) -> bool {
    &&& accounts[2 * i + 1]@ == associated_address_of(accounts[2 * i]@, mint)
    &&& accounts[2 * i]@ == leaves[i].owner@
    &&& claim_matches(tree, leaves[i], digests)
}

/// The eligible recipients among the first `n` candidates, in order.
pub open spec fn eligible_prefix(
    accounts: Seq<Address>,
    leaves: Seq<AdditionalLeafData>,
    n: nat,
    mint: Seq<u8>,
    tree: Seq<u8>,
    digests: (Seq<u8>, Seq<u8>),
) -> Seq<EligibleRecipient>
    decreases n,
{
    if n == 0 {
        Seq::empty()
    } else {
        let i = n - 1;
        let before = eligible_prefix(accounts, leaves, (n - 1) as nat, mint, tree, digests);
        if candidate_eligible(accounts, leaves, i, mint, tree, digests) {
            before.push(
                EligibleRecipient {
                    identity: accounts[2 * i],
                    destination_account: accounts[2 * i + 1],
                    source_index: i as usize,
                },
            )
        } else {
            before
        }
    }
}

/// Whether the account list pairs up with the leaves: an even number of
/// entries, two for each leaf.
pub open spec fn well_formed_request(accounts: Seq<Address>, leaves: Seq<AdditionalLeafData>) -> bool {
    accounts.len() % 2 == 0 && leaves.len() == accounts.len() / 2
}

/// The resolver's answer for a request.
pub open spec fn resolution_of(
    accounts: Seq<Address>,
    leaves: Seq<AdditionalLeafData>,
    mint: Seq<u8>,
    tree: Seq<u8>,
    digests: (Seq<u8>, Seq<u8>),
) -> Result<Seq<EligibleRecipient>, MyError> {
    if !well_formed_request(accounts, leaves) {
        Err(MyError::MalformedRequest)
    } else {
        Ok(eligible_prefix(accounts, leaves, leaves.len(), mint, tree, digests))
    }
}

/// Filters the candidates of a request to the eligible ones, in candidate
/// order. A malformed request is rejected as a whole.
pub fn resolve_eligible(
    accounts: &Vec<Address>,
    leaves: &Vec<AdditionalLeafData>,
    mint: &Address,
    tree: &Address,
    digests: &MetadataDigests,
) -> (r: Result<Vec<EligibleRecipient>, MyError>)
    ensures
        match r {
            Ok(v) => resolution_of(accounts@, leaves@, mint@, tree@, digests@) == Ok::<Seq<EligibleRecipient>, MyError>(v@),
            Err(e) => resolution_of(accounts@, leaves@, mint@, tree@, digests@) == Err::<Seq<EligibleRecipient>, MyError>(e),
        },
        r matches Ok(v) ==> forall|k: int|
            0 <= k < v@.len() ==> (#[trigger] v@[k]).destination_account@ == associated_address_of(
                v@[k].identity@,
                mint@,
            ),
{
    if accounts.len() % 2 != 0 || leaves.len() != accounts.len() / 2 {
        return Err(MyError::MalformedRequest);
    }
    let n: usize = leaves.len();
    let mut out: Vec<EligibleRecipient> = Vec::new();
    let mut i: usize = 0;
    while i < n
        invariant
            n == leaves.len(),
            accounts.len() == 2 * n,
            i <= n,
            out@ == eligible_prefix(accounts@, leaves@, i as nat, mint@, tree@, digests@),
        decreases n - i,
    {
        let owner = accounts[2 * i];
        let destination = accounts[2 * i + 1];
        let expected = associated_address(&owner, mint);
        let leaf = leaves[i];
        if destination.same_as(&expected) && owner.same_as(&leaf.owner) {
            match verify_claim(tree, &leaf, digests) {
                Ok(Verification::Confirmed(_)) => {
                    out.push(
                        EligibleRecipient { identity: owner, destination_account: destination, source_index: i },
                    );
                },
                _ => {},
            }
        }
        i = i + 1;
    }
    proof {
        lemma_recipients_at_derived_address(accounts@, leaves@, n as nat, mint@, tree@, digests@);
    }
    Ok(out)
}

/// Every resolved recipient is paid at the associated account of its own
/// identity for the mint, and comes from a candidate that is eligible.
pub proof fn lemma_recipients_at_derived_address(
    accounts: Seq<Address>,
    leaves: Seq<AdditionalLeafData>,
    n: nat,
    mint: Seq<u8>,
    tree: Seq<u8>,
    digests: (Seq<u8>, Seq<u8>),
)
    requires
        n <= usize::MAX,
    ensures
        forall|k: int|
            0 <= k < eligible_prefix(accounts, leaves, n, mint, tree, digests).len() ==> {
                let e = #[trigger] eligible_prefix(accounts, leaves, n, mint, tree, digests)[k];
                &&& e.destination_account@ == associated_address_of(e.identity@, mint)
                &&& e.identity@ == leaves[e.source_index as int].owner@
                &&& claim_matches(tree, leaves[e.source_index as int], digests)
                &&& e.source_index < n
            },
    decreases n,
{
    if n > 0 {
        lemma_recipients_at_derived_address(accounts, leaves, (n - 1) as nat, mint, tree, digests);
        let before = eligible_prefix(accounts, leaves, (n - 1) as nat, mint, tree, digests);
        let now = eligible_prefix(accounts, leaves, n, mint, tree, digests);
        assert forall|k: int| 0 <= k < now.len() implies {
            let e = #[trigger] now[k];
            &&& e.destination_account@ == associated_address_of(e.identity@, mint)
            &&& e.identity@ == leaves[e.source_index as int].owner@
            &&& claim_matches(tree, leaves[e.source_index as int], digests)
            &&& e.source_index < n
        } by {
            if k < before.len() {
                assert(now[k] == before[k]);
            }
        }
    }
}

/// Recipients keep the order of the candidates they come from: their
/// source indices strictly increase.
pub proof fn lemma_recipients_in_candidate_order(
    accounts: Seq<Address>,
    leaves: Seq<AdditionalLeafData>,
    n: nat,
    mint: Seq<u8>,
    tree: Seq<u8>,
    digests: (Seq<u8>, Seq<u8>),
)
    requires
        n <= usize::MAX,
    ensures
        forall|a: int, b: int|
            0 <= a < b < eligible_prefix(accounts, leaves, n, mint, tree, digests).len()
                ==> (#[trigger] eligible_prefix(accounts, leaves, n, mint, tree, digests)[a]).source_index
                < (#[trigger] eligible_prefix(accounts, leaves, n, mint, tree, digests)[b]).source_index,
    decreases n,
{
    if n > 0 {
        lemma_recipients_in_candidate_order(accounts, leaves, (n - 1) as nat, mint, tree, digests);
        lemma_recipients_at_derived_address(accounts, leaves, (n - 1) as nat, mint, tree, digests);
        let before = eligible_prefix(accounts, leaves, (n - 1) as nat, mint, tree, digests);
        let now = eligible_prefix(accounts, leaves, n, mint, tree, digests);
        assert forall|a: int, b: int| 0 <= a < b < now.len() implies #[trigger] now[a].source_index
            < #[trigger] now[b].source_index by {
            assert(now[a] == before[a]);
            if b < before.len() {
                assert(now[b] == before[b]);
            } else {
                assert(before[a].source_index < n - 1);
            }
        }
    }
}

/// Whether candidate `i` fails a check: its destination is not its owner's
/// associated account, its owner is not the leaf's, or its leaf claims no
/// commitment or a wrong one.
pub open spec fn candidate_rejected(
    accounts: Seq<Address>,
    leaves: Seq<AdditionalLeafData>,
    i: int,
    mint: Seq<u8>,
    tree: Seq<u8>,
    digests: (Seq<u8>, Seq<u8>),
) -> bool {
    !candidate_eligible(accounts, leaves, i, mint, tree, digests)
}

/// Candidates are judged one by one: the recipients among the first `n`
/// candidates do not depend on what follows them.
pub proof fn lemma_prefix_independent(
    accounts: Seq<Address>,
    leaves: Seq<AdditionalLeafData>,
    more_accounts: Seq<Address>,
    more_leaves: Seq<AdditionalLeafData>,
    n: nat,
    mint: Seq<u8>,
    tree: Seq<u8>,
    digests: (Seq<u8>, Seq<u8>),
)
    requires
        2 * n <= accounts.len(),
        n <= leaves.len(),
        2 * n <= more_accounts.len(),
        n <= more_leaves.len(),
        accounts.subrange(0, 2 * n as int) == more_accounts.subrange(0, 2 * n as int),
        leaves.subrange(0, n as int) == more_leaves.subrange(0, n as int),
    ensures
        eligible_prefix(accounts, leaves, n, mint, tree, digests)
            == eligible_prefix(more_accounts, more_leaves, n, mint, tree, digests),
    decreases n,
{
    if n > 0 {
        let m = (n - 1) as nat;
        assert(accounts.subrange(0, 2 * m as int) == more_accounts.subrange(0, 2 * m as int)) by {
            assert(accounts.subrange(0, 2 * m as int) =~= accounts.subrange(0, 2 * n as int).subrange(0, 2 * m as int));
            assert(more_accounts.subrange(0, 2 * m as int) =~= more_accounts.subrange(0, 2 * n as int).subrange(0, 2 * m as int));
        }
        assert(leaves.subrange(0, m as int) == more_leaves.subrange(0, m as int)) by {
            assert(leaves.subrange(0, m as int) =~= leaves.subrange(0, n as int).subrange(0, m as int));
            assert(more_leaves.subrange(0, m as int) =~= more_leaves.subrange(0, n as int).subrange(0, m as int));
        }
        lemma_prefix_independent(accounts, leaves, more_accounts, more_leaves, m, mint, tree, digests);
        let i = m as int;
        assert(accounts[2 * i] == accounts.subrange(0, 2 * n as int)[2 * i]);
        assert(more_accounts[2 * i] == more_accounts.subrange(0, 2 * n as int)[2 * i]);
        assert(accounts[2 * i + 1] == accounts.subrange(0, 2 * n as int)[2 * i + 1]);
        assert(more_accounts[2 * i + 1] == more_accounts.subrange(0, 2 * n as int)[2 * i + 1]);
        assert(leaves[i] == leaves.subrange(0, n as int)[i]);
        assert(more_leaves[i] == more_leaves.subrange(0, n as int)[i]);
    }
}

/// One bad candidate changes nothing for the others: appending a candidate
/// that fails a check (a leaf with no claimed commitment among them) leaves
/// the recipients exactly as they were.
pub proof fn lemma_rejected_candidate_ignored(
    accounts: Seq<Address>,
    leaves: Seq<AdditionalLeafData>,
    owner: Address,
    destination: Address,
    leaf: AdditionalLeafData,
    mint: Seq<u8>,
    tree: Seq<u8>,
    digests: (Seq<u8>, Seq<u8>),
)
    requires
        well_formed_request(accounts, leaves),
        candidate_rejected(accounts.push(owner).push(destination), leaves.push(leaf), leaves.len() as int, mint, tree, digests),
    ensures
        resolution_of(accounts.push(owner).push(destination), leaves.push(leaf), mint, tree, digests)
            == resolution_of(accounts, leaves, mint, tree, digests),
{
    let more_accounts = accounts.push(owner).push(destination);
    let more_leaves = leaves.push(leaf);
    let n = leaves.len();
    assert(accounts.subrange(0, 2 * n as int) =~= more_accounts.subrange(0, 2 * n as int));
    assert(leaves.subrange(0, n as int) =~= more_leaves.subrange(0, n as int));
    lemma_prefix_independent(accounts, leaves, more_accounts, more_leaves, n, mint, tree, digests);
    assert(well_formed_request(more_accounts, more_leaves));
}

/// A candidate whose leaf claims no commitment is rejected, whatever its
/// accounts: without an inclusion proof it cannot be paid.
pub proof fn lemma_unclaimed_candidate_rejected(
    accounts: Seq<Address>,
    leaves: Seq<AdditionalLeafData>,
    i: int,
    mint: Seq<u8>,
    tree: Seq<u8>,
    digests: (Seq<u8>, Seq<u8>),
)
    requires
        0 <= i < leaves.len(),
        leaves[i].leaf_hash is None,
    ensures
        candidate_rejected(accounts, leaves, i, mint, tree, digests),
{
}

/// At most one recipient per candidate.
pub proof fn lemma_eligible_prefix_len(
    accounts: Seq<Address>,
    leaves: Seq<AdditionalLeafData>,
    n: nat,
    mint: Seq<u8>,
    tree: Seq<u8>,
    digests: (Seq<u8>, Seq<u8>),
)
    ensures
        eligible_prefix(accounts, leaves, n, mint, tree, digests).len() <= n,
    decreases n,
{
    if n > 0 {
        lemma_eligible_prefix_len(accounts, leaves, (n - 1) as nat, mint, tree, digests);
    }
}

} // verus!
