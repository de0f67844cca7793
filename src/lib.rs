//! Leaf verification and proportional reward distribution for a rental
//! settlement: commitment hashing, eligibility filtering, share computation
//! and the ordered plan of effects that settles one request.

pub mod address;
pub mod distribution;
pub mod eligibility;
pub mod errors;
pub mod issuance;
pub mod leaf;
pub mod policy;
pub mod primitives;
pub mod settlement;

pub use errors::MyError;
pub use issuance::handle_mint_token;
pub use leaf::{handle_verify, AdditionalLeafData};
pub use policy::{handle_initialize, CentralStateData};
pub use settlement::handle_distribute;
