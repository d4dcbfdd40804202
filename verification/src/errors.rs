//! The error taxonomy of the engine.

use vstd::prelude::*;

verus! {

/// Why an engine operation was refused. Every failure aborts the whole
/// operation: the caller sees the error and the engine state is as if the
/// call never happened.
#[derive(Clone, Copy, Debug, PartialEq, Eq, Structural)]
pub enum AmmError {
    /// The two tokens of a would-be pool are the same token.
    IdenticalTokens,
    /// A pool with the same canonical identity already exists.
    PoolAlreadyExists,
    /// No pool with the given identity has been created.
    PoolNotFound,
    /// Reserves, shares or a requested output are too small for the operation.
    InsufficientLiquidity,
    /// A swap requested no output on either side.
    InsufficientOutputAmount,
    /// Reconciliation found fewer tokens in custody than the pool requires.
    InsufficientInputAmount,
    /// The post-operation pool invariant would shrink.
    InvariantViolation,
    /// A reentrant call reached a pool while a swap on it was in progress.
    ReentrancyBlocked,
    /// An intermediate value cannot be represented in the wide integer type.
    Overflow,
}

} // verus!
