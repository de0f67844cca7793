//! Leaf records, their canonical commitment, and the leaf verifier.

use vstd::prelude::*;

use crate::address::{bytes_equal, Address};
use crate::errors::MyError;
use crate::primitives::{
    asset_id_of, creator_hash_of, data_hash_of, decode_metadata, derive_asset_id, leaf_hash_of,
    leaf_schema_hash, metadata_creator_hash, metadata_data_hash, metadata_decodes,
};

verus! {

/// A claimed leaf of the commitment store.
#[derive(Clone, Copy, Debug, PartialEq, Eq)]
pub struct AdditionalLeafData {
    /// Position of the leaf in the store; also its nonce.
    pub leaf_index: u32,
    pub owner: Address,
    pub delegate: Address,
    /// Root of the store at the time of the proof.
    pub root: Address,
    /// The commitment, where it is known independently.
    pub leaf_hash: Option<[u8; 32]>,
}

/// The two digests of a leaf's metadata: its content and its creators.
#[derive(Clone, Copy, Debug, PartialEq, Eq)]
pub struct MetadataDigests {
    pub data_hash: [u8; 32],
    pub creator_hash: [u8; 32],
}

impl View for MetadataDigests {
    type V = (Seq<u8>, Seq<u8>);

    open spec fn view(&self) -> (Seq<u8>, Seq<u8>) {
        (self.data_hash@, self.creator_hash@)
    }
}

/// The data hash and creator hash of the metadata that `bytes` encode.
pub open spec fn digests_of(bytes: Seq<u8>) -> (Seq<u8>, Seq<u8>) {
    (data_hash_of(bytes), creator_hash_of(bytes))
}

/// The canonical commitment of a leaf of the store at `tree`.
pub open spec fn commitment_of(
    tree: Seq<u8>,
    leaf: AdditionalLeafData,
    digests: (Seq<u8>, Seq<u8>),
) -> Seq<u8> {
    leaf_hash_of(
        asset_id_of(tree, leaf.leaf_index as u64),
        leaf.owner@,
        leaf.delegate@,
        leaf.leaf_index as u64,
        digests.0,
        digests.1,
    )
}

/// Whether the claim carries a commitment equal to the computed one.
pub open spec fn claim_matches(tree: Seq<u8>, leaf: AdditionalLeafData, digests: (Seq<u8>, Seq<u8>)) -> bool {
    &&& leaf.leaf_hash is Some
    &&& leaf.leaf_hash->0@ == commitment_of(tree, leaf, digests)
}

/// Decodes serialized metadata and computes its two digests.
///
/// Bytes that do not decode are a `MalformedClaim`; so is metadata that the
/// content hash cannot encode.
pub fn digest_metadata(metadata: &Vec<u8>) -> (r: Result<MetadataDigests, MyError>)
    ensures
        metadata_decodes(metadata@) <==> r is Ok,
        r matches Ok(d) ==> d@ == digests_of(metadata@),
        r is Err ==> r == Err::<MetadataDigests, MyError>(MyError::MalformedClaim),
{
    match decode_metadata(metadata) {
        None => Err(MyError::MalformedClaim),
        Some(args) => match metadata_data_hash(&args) {
            None => Err(MyError::MalformedClaim),
            Some(data_hash) => {
                let creator_hash = metadata_creator_hash(&args);
                Ok(MetadataDigests { data_hash, creator_hash })
            },
        },
    }
}

/// The commitment of `leaf` in the store at `tree`: the leaf hash over the
/// derived asset id, owner, delegate, the index widened to 64 bits, and the
/// metadata digests.
pub fn commitment_hash(tree: &Address, leaf: &AdditionalLeafData, digests: &MetadataDigests) -> (r: [u8; 32])
    ensures
        r@ == commitment_of(tree@, *leaf, digests@),
{
    let nonce: u64 = leaf.leaf_index as u64;
    let asset_id = derive_asset_id(tree, nonce);
    leaf_schema_hash(&asset_id, &leaf.owner, &leaf.delegate, nonce, &digests.data_hash, &digests.creator_hash)
}

/// What the commitment store must be asked to settle a claim without a
/// known commitment: is `leaf` at `index` under `root`?
#[derive(Clone, Copy, Debug, PartialEq, Eq)]
pub struct ProofRequest {
    pub root: Address,
    pub leaf: [u8; 32],
    pub index: u32,
}

/// The outcome of checking a claim before any inclusion proof.
#[derive(Clone, Copy, Debug, PartialEq, Eq)]
pub enum Verification {
    /// The claimed commitment equals the computed one.
    Confirmed([u8; 32]),
    /// No commitment was claimed: the store must confirm inclusion.
    NeedsProof(ProofRequest),
}

/// The outcome of checking `leaf` against the commitment computed over
/// `digests`: the claimed commitment when it is the computed one, else
/// `HashMismatch`; without a claimed commitment, a proof request for the
/// computed leaf at the claim's root and index.
pub open spec fn verification_of(
    tree: Seq<u8>,
    leaf: AdditionalLeafData,
    digests: (Seq<u8>, Seq<u8>),
    r: Result<Verification, MyError>,
) -> bool {
    match leaf.leaf_hash {
        Some(h) => if h@ == commitment_of(tree, leaf, digests) {
            r == Ok::<Verification, MyError>(Verification::Confirmed(h))
        } else {
            r == Err::<Verification, MyError>(MyError::HashMismatch)
        },
        None => r matches Ok(Verification::NeedsProof(p)) && p.root == leaf.root && p.index == leaf.leaf_index
            && p.leaf@ == commitment_of(tree, leaf, digests),
    }
}

/// Checks a claim against the commitment computed for it.
///
/// A claimed commitment must equal the computed one bit for bit, else
/// `HashMismatch`; without one, the computed leaf and its index are handed
/// on to the store's inclusion proof.
pub fn verify_claim(tree: &Address, leaf: &AdditionalLeafData, digests: &MetadataDigests) -> (r: Result<Verification, MyError>)
    ensures
        verification_of(tree@, *leaf, digests@, r),
{
    let computed = commitment_hash(tree, leaf, digests);
    match leaf.leaf_hash {
        Some(claimed) => {
            if bytes_equal(&claimed, &computed) {
                Ok(Verification::Confirmed(claimed))
            } else {
                Err(MyError::HashMismatch)
            }
        },
        None => Ok(Verification::NeedsProof(ProofRequest { root: leaf.root, leaf: computed, index: leaf.leaf_index })),
    }
}

/// What the commitment store answers to a proof request.
#[derive(Clone, Copy, Debug, PartialEq, Eq)]
pub enum InclusionAnswer {
    /// The leaf is in the store at the index under the root.
    Included,
    /// The proof does not show the leaf at the index.
    NotIncluded,
    /// The store has no leaf at the index.
    IndexNotFound,
}

/// Settles a proof request with the store's answer: the leaf is verified
/// exactly when the store confirmed its inclusion; a proof that fails is
/// `ProofInvalid`, and an index with no leaf is a `MalformedClaim`.
pub fn conclude_proof(request: &ProofRequest, answer: InclusionAnswer) -> (r: Result<[u8; 32], MyError>)
    ensures
        answer == InclusionAnswer::Included ==> r == Ok::<[u8; 32], MyError>(request.leaf),
        answer == InclusionAnswer::NotIncluded ==> r == Err::<[u8; 32], MyError>(MyError::ProofInvalid),
        answer == InclusionAnswer::IndexNotFound ==> r == Err::<[u8; 32], MyError>(MyError::MalformedClaim),
{
    match answer {
        InclusionAnswer::Included => Ok(request.leaf),
        InclusionAnswer::NotIncluded => Err(MyError::ProofInvalid),
        InclusionAnswer::IndexNotFound => Err(MyError::MalformedClaim),
    }
}

/// `2^d`.
pub open spec fn pow2(d: nat) -> nat
    decreases d,
{
    if d == 0 {
        1
    } else {
        2 * pow2((d - 1) as nat)
    }
}

/// The store's answer for a leaf index in a tree of depth `max_depth`,
/// given whether the inclusion proof was accepted: an index at or beyond the
/// tree's capacity `2^max_depth` has no leaf.
pub fn inclusion_answer(index: u32, max_depth: u32, proof_accepted: bool) -> (r: InclusionAnswer)
    ensures
        index >= pow2(max_depth as nat) ==> r == InclusionAnswer::IndexNotFound,
        index < pow2(max_depth as nat) && proof_accepted ==> r == InclusionAnswer::Included,
        index < pow2(max_depth as nat) && !proof_accepted ==> r == InclusionAnswer::NotIncluded,
{
    let mut capacity: u64 = 1;
    let mut d: u32 = 0;
    while d < max_depth && capacity <= index as u64
        invariant
            d <= max_depth,
            capacity == pow2(d as nat),
            capacity <= 2 * (index as u64) + 2,
        decreases max_depth - d,
    {
        capacity = capacity * 2;
        d = d + 1;
    }
    proof {
        if d < max_depth {
            lemma_pow2_monotone(d as nat, max_depth as nat);
        }
    }
    if (index as u64) >= capacity {
        InclusionAnswer::IndexNotFound
    } else if proof_accepted {
        InclusionAnswer::Included
    } else {
        InclusionAnswer::NotIncluded
    }
}

proof fn lemma_pow2_monotone(a: nat, b: nat)
    requires
        a <= b,
    ensures
        pow2(a) <= pow2(b),
    decreases b,
{
    if a < b {
        lemma_pow2_monotone(a, (b - 1) as nat);
        lemma_pow2_positive((b - 1) as nat);
    }
}

proof fn lemma_pow2_positive(d: nat)
    ensures
        pow2(d) >= 1,
    decreases d,
{
    if d > 0 {
        lemma_pow2_positive((d - 1) as nat);
    }
}

/// Verifies one claimed leaf against serialized metadata and the store at
/// `tree`: decodes and digests the metadata, then checks the claim.
pub fn handle_verify(tree: &Address, metadata: &Vec<u8>, leaf_data: &AdditionalLeafData) -> (r: Result<Verification, MyError>)
    ensures
        !metadata_decodes(metadata@) ==> r == Err::<Verification, MyError>(MyError::MalformedClaim),
        metadata_decodes(metadata@) ==> verification_of(tree@, *leaf_data, digests_of(metadata@), r),
{
    let digests = digest_metadata(metadata)?;
    verify_claim(tree, leaf_data, &digests)
}

/// The commitment is a function of the store, the leaf's index, owner and
/// delegate, and the metadata digests: claims that agree on those have the
/// same commitment, whatever their roots or claimed hashes.
pub proof fn lemma_commitment_deterministic(
    tree: Seq<u8>,
    a: AdditionalLeafData,
    b: AdditionalLeafData,
    digests: (Seq<u8>, Seq<u8>),
)
    requires
        a.leaf_index == b.leaf_index,
        a.owner@ == b.owner@,
        a.delegate@ == b.delegate@,
    ensures
        commitment_of(tree, a, digests) == commitment_of(tree, b, digests),
{
}

} // verus!
