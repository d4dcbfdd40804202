//! Pool identity: canonicalization of an unordered token pair.

use vstd::prelude::*;

use crate::errors::AmmError;

verus! {

/// The ordering key of a token: the contract that minted it and the
/// sub-identifier within that contract.
#[derive(Clone, Copy, Debug, PartialEq, Eq, Structural)]
pub struct TokenKey {
    pub contract_id: u64,
    pub sub_id: u64,
}

/// The canonical identity of a pool: the two token keys in ascending order,
/// plus the stability flag selecting the invariant curve.
#[derive(Clone, Copy, Debug, PartialEq, Eq, Structural)]
pub struct PoolId {
    pub token_0: TokenKey,
    pub token_1: TokenKey,
    pub is_stable: bool,
}

/// The fixed total order over token keys: by contract id, then by sub id.
pub open spec fn key_lt(a: TokenKey, b: TokenKey) -> bool {
    a.contract_id < b.contract_id || (a.contract_id == b.contract_id && a.sub_id < b.sub_id)
}

/// The canonical identity of the unordered pair `{a, b}`: the smaller key
/// first. A pure function of the set of inputs, not of their order.
pub open spec fn canonical_id(a: TokenKey, b: TokenKey, is_stable: bool) -> PoolId {
    if key_lt(b, a) {
        PoolId { token_0: b, token_1: a, is_stable }
    } else {
        PoolId { token_0: a, token_1: b, is_stable }
    }
}

/// A pool identity is canonical when its tokens are strictly ordered.
pub open spec fn id_is_canonical(id: PoolId) -> bool {
    key_lt(id.token_0, id.token_1)
}

/// Orders an unordered token pair into the unique canonical pool identity.
/// Refuses a pair of identical tokens.
pub fn canonicalize(a: TokenKey, b: TokenKey, is_stable: bool) -> (r: Result<PoolId, AmmError>)
    ensures
        a == b ==> r == Err::<PoolId, AmmError>(AmmError::IdenticalTokens),
        a != b ==> r == Ok::<PoolId, AmmError>(canonical_id(a, b, is_stable)),
{
    if a.contract_id == b.contract_id && a.sub_id == b.sub_id {
        Err(AmmError::IdenticalTokens)
    } else if b.contract_id < a.contract_id
        || (b.contract_id == a.contract_id && b.sub_id < a.sub_id) {
        Ok(PoolId { token_0: b, token_1: a, is_stable })
    } else {
        Ok(PoolId { token_0: a, token_1: b, is_stable })
    }
}

/// Canonicalization is commutative: the pair `{a, b}` resolves to the same
/// pool identity whichever way round the two tokens are presented.
pub proof fn lemma_canonical_commutative(a: TokenKey, b: TokenKey, is_stable: bool)
    ensures
        canonical_id(a, b, is_stable) == canonical_id(b, a, is_stable),
{
}

/// Canonicalization is idempotent: canonicalizing the two tokens of an
/// already-canonical identity returns that identity unchanged, and a
/// canonical identity of two distinct tokens is strictly ordered.
pub proof fn lemma_canonical_idempotent(a: TokenKey, b: TokenKey, is_stable: bool)
    requires
        a != b,
    ensures
        id_is_canonical(canonical_id(a, b, is_stable)),
        canonical_id(a, b, is_stable).token_0 != canonical_id(a, b, is_stable).token_1,
        canonical_id(
            canonical_id(a, b, is_stable).token_0,
            canonical_id(a, b, is_stable).token_1,
            is_stable,
        ) == canonical_id(a, b, is_stable),
{
}

} // verus!
