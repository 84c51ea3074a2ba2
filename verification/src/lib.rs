//! Verified core of the StellarFlow settlement contracts: constant-product
//! and concentrated-liquidity AMM arithmetic, corridor fee splitting,
//! stake-weighted consensus, hash time-locked settlement, escrow, staging
//! access control and the admin/governance state transitions.

use vstd::prelude::*;

pub mod address;
pub mod admin;
pub mod error;
pub mod escrow;
pub mod host;
pub mod amm;
pub mod analytics;
pub mod consensus;
pub mod fees;
pub mod events;
pub mod governance;
pub mod settlement;
pub mod staging;
pub mod storage;

verus! {

/// Identifier of an asset in a corridor.
pub type AssetId = u32;

} // verus!
