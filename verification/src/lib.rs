//! A verified automated-market-maker engine.
//!
//! The engine manages token-pair liquidity pools: it canonicalizes pool
//! identities, accounts for reserves and liquidity shares, applies swap fees,
//! and executes swaps under a per-pool invariant with a flash-swap callback
//! hook. All asset custody, transfer and identity concerns are left to the
//! caller, who reports observed balances to the engine as plain values.

pub mod errors;
pub mod identity;
pub mod math;
pub mod fees;
pub mod curve;
pub mod pool;
pub mod liquidity;
pub mod engine;
