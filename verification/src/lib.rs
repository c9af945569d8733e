//! SoroSusu savings-circle contract logic: passkey authentication, soulbound reputation
//! credentials and reliability-weighted yield-allocation voting, modelled over an explicit
//! contract state and verified with Verus.
use vstd::prelude::*;

pub mod collections;
pub mod crypto;
pub mod passkey_auth;
pub mod sbt_minter;
pub mod yield_allocation_voting;
pub mod yield_distribution;

verus! {

/// Identifies an account or contract address. The contract logic only compares addresses and
/// uses them as storage keys, so an address is represented by a stable integer identifier.
pub type AccountId = u64;

} // verus!
