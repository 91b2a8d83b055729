//! Verified core of a staking keeper: account indexes, caches derived from
//! them, the decisions of the claim and stream handlers, and instruction
//! account layouts.

pub mod discriminator;
pub mod keyed_map;
pub mod pubkey;
pub mod accounts;
pub mod caches;
pub mod claim;
pub mod stream;
pub mod instructions;
