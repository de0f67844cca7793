//! The outside primitives that the engine combines: asset-id derivation,
//! leaf hashing and metadata hashing from mpl-bubblegum, and associated
//! account derivation from anchor-spl. Their results are digests, so each
//! is known here only by name, as a function of its arguments.

use vstd::prelude::*;

use crate::address::Address;
use anchor_lang::prelude::Pubkey;
use anchor_lang::AnchorDeserialize;
use mpl_bubblegum::types::{LeafSchema, MetadataArgs};

verus! {

#[verifier::external_type_specification]
#[verifier::external_body]
pub struct ExMetadataArgs(MetadataArgs);

/// The asset id that mpl-bubblegum derives for a tree and a nonce.
pub uninterp spec fn asset_id_of(tree: Seq<u8>, nonce: u64) -> Seq<u8>;

/// The version-1 leaf hash of mpl-bubblegum over the leaf's fields.
pub uninterp spec fn leaf_hash_of(
    id: Seq<u8>,
    owner: Seq<u8>,
    delegate: Seq<u8>,
    nonce: u64,
    data_hash: Seq<u8>,
    creator_hash: Seq<u8>,
) -> Seq<u8>;

/// The associated token account of a wallet for a mint.
pub uninterp spec fn associated_address_of(wallet: Seq<u8>, mint: Seq<u8>) -> Seq<u8>;

/// Whether the bytes are one whole borsh encoding of `MetadataArgs`.
pub uninterp spec fn metadata_decodes(bytes: Seq<u8>) -> bool;

/// Relies on mpl_bubblegum::utils::get_asset_id: a program address derived
/// from the tree and the nonce alone.
#[verifier::external_body]
pub(crate) fn derive_asset_id(tree: &Address, nonce: u64) -> (r: Address)
    ensures
        r@ == asset_id_of(tree@, nonce),
{
    let id = mpl_bubblegum::utils::get_asset_id(&Pubkey::new_from_array(tree.bytes), nonce);
    Address { bytes: id.to_bytes() }
}

/// Relies on mpl_bubblegum's LeafSchema::hash for a `V1` leaf: a keccak
/// digest of the fields alone.
#[verifier::external_body]
pub(crate) fn leaf_schema_hash(
    id: &Address,
    owner: &Address,
    delegate: &Address,
    nonce: u64,
    data_hash: &[u8; 32],
    creator_hash: &[u8; 32],
) -> (r: [u8; 32])
    ensures
        r@ == leaf_hash_of(id@, owner@, delegate@, nonce, data_hash@, creator_hash@),
{
    let schema = LeafSchema::V1 {
        id: Pubkey::new_from_array(id.bytes),
        owner: Pubkey::new_from_array(owner.bytes),
        delegate: Pubkey::new_from_array(delegate.bytes),
        nonce,
        data_hash: *data_hash,
        creator_hash: *creator_hash,
    };
    schema.hash()
}

/// Relies on anchor_spl::associated_token::get_associated_token_address: a
/// program address derived from the wallet and the mint alone.
#[verifier::external_body]
pub(crate) fn associated_address(wallet: &Address, mint: &Address) -> (r: Address)
    ensures
        r@ == associated_address_of(wallet@, mint@),
{
    let ata = anchor_spl::associated_token::get_associated_token_address(
        &Pubkey::new_from_array(wallet.bytes),
        &Pubkey::new_from_array(mint.bytes),
    );
    Address { bytes: ata.to_bytes() }
}

/// The data hash that mpl-bubblegum computes for the metadata these bytes encode.
pub uninterp spec fn data_hash_of(bytes: Seq<u8>) -> Seq<u8>;

/// The creator hash that mpl-bubblegum computes for the creators of the
/// metadata these bytes encode.
pub uninterp spec fn creator_hash_of(bytes: Seq<u8>) -> Seq<u8>;

/// Metadata decoded from bytes, together with those bytes; made only by
/// `decode_metadata`.
pub struct DecodedMetadata {
    args: MetadataArgs,
    source: Ghost<Seq<u8>>,
}

impl DecodedMetadata {
    /// The bytes this metadata was decoded from.
    pub closed spec fn source(&self) -> Seq<u8> {
        self.source@
    }
}

/// Relies on borsh's `try_from_slice` for mpl_bubblegum's `MetadataArgs`: it
/// succeeds exactly on the whole encodings of a value.
#[verifier::external_body]
pub(crate) fn decode_metadata(bytes: &Vec<u8>) -> (r: Option<DecodedMetadata>)
    ensures
        r is Some <==> metadata_decodes(bytes@),
        r is Some ==> r->0.source() == bytes@,
{
    match MetadataArgs::try_from_slice(bytes.as_slice()) {
        Ok(args) => Some(DecodedMetadata { args, source: Ghost(bytes@) }),
        Err(_) => None,
    }
}

/// Relies on mpl_bubblegum::hash::hash_metadata: the data hash of a leaf. It
/// fails only where borsh meets a length above `u32::MAX`, which metadata
/// decoded from bytes cannot hold.
#[verifier::external_body]
pub(crate) fn metadata_data_hash(metadata: &DecodedMetadata) -> (r: Option<[u8; 32]>)
    ensures
        r is Some,
        r is Some ==> r->0@ == data_hash_of(metadata.source()),
{
    mpl_bubblegum::hash::hash_metadata(&metadata.args).ok()
}

/// Relies on mpl_bubblegum::hash::hash_creators: the creator hash of a leaf,
/// over the metadata's creator list.
#[verifier::external_body]
pub(crate) fn metadata_creator_hash(metadata: &DecodedMetadata) -> (r: [u8; 32])
    ensures
        r@ == creator_hash_of(metadata.source()),
{
    mpl_bubblegum::hash::hash_creators(&metadata.args.creators)
}

} // verus!
