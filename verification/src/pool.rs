//! The reserve ledger: per-pool persisted state and the spec-level view of
//! the pool collection.

use vstd::prelude::*;

use crate::identity::{canonical_id, id_is_canonical, lemma_canonical_commutative, PoolId, TokenKey};

verus! {

/// The persisted state of one pool. Reserves are authoritative only
/// immediately after a reconciling operation; `locked` is set exactly while
/// a swap on this pool is between its optimistic transfer and its
/// reconciliation.
#[derive(Clone, Copy, Debug, PartialEq, Eq, Structural)]
pub struct Pool {
    pub id: PoolId,
    pub reserve_0: u64,
    pub reserve_1: u64,
    pub total_shares: u64,
    pub decimals_0: u8,
    pub decimals_1: u8,
    pub protocol_fee_0: u64,
    pub protocol_fee_1: u64,
    pub locked: bool,
}

/// A read-only snapshot of a pool, as handed to callers. The
/// protocol-fee accumulators record the protocol's accrued share of the
/// reserves; swaps only ever book it, never move it.
#[derive(Clone, Copy, Debug, PartialEq, Eq, Structural)]
pub struct PoolSnapshot {
    pub reserve_0: u64,
    pub reserve_1: u64,
    pub total_shares: u64,
    pub decimals_0: u8,
    pub decimals_1: u8,
    pub protocol_fee_0: u64,
    pub protocol_fee_1: u64,
}

/// The well-formedness of one pool: its identity is canonical, and its
/// share supply is zero exactly when it holds no reserves.
pub open spec fn pool_wf(p: Pool) -> bool {
    &&& id_is_canonical(p.id)
    &&& p.total_shares == 0 ==> p.reserve_0 == 0 && p.reserve_1 == 0
    &&& p.total_shares > 0 ==> p.reserve_0 > 0 && p.reserve_1 > 0
}

/// Whether the collection holds a pool with the given identity.
pub open spec fn has_pool(s: Seq<Pool>, id: PoolId) -> bool {
    exists|i: int| 0 <= i < s.len() && s[i].id == id
}

/// The index of the pool with the given identity.
pub open spec fn pool_at(s: Seq<Pool>, id: PoolId) -> int {
    choose|i: int| 0 <= i < s.len() && s[i].id == id
}

/// The pool with the given identity.
pub open spec fn pool_of(s: Seq<Pool>, id: PoolId) -> Pool {
    s[pool_at(s, id)]
}

/// No two pools share an identity.
pub open spec fn ids_distinct(s: Seq<Pool>) -> bool {
    forall|i: int, j: int| 0 <= i < j < s.len() ==> s[i].id != s[j].id
}

/// The well-formedness of the pool collection.
pub open spec fn pools_wf(s: Seq<Pool>) -> bool {
    &&& ids_distinct(s)
    &&& forall|i: int| 0 <= i < s.len() ==> pool_wf(#[trigger] s[i])
}

/// In a collection with distinct identities, any index holding `id` is
/// the index `pool_at` picks.
pub proof fn lemma_pool_at_unique(s: Seq<Pool>, id: PoolId, i: int)
    requires
        ids_distinct(s),
        0 <= i < s.len(),
        s[i].id == id,
    ensures
        has_pool(s, id),
        pool_at(s, id) == i,
        pool_of(s, id) == s[i],
{
    let j = pool_at(s, id);
    if j < i {
        assert(s[j].id != s[i].id);
    }
    if i < j {
        assert(s[i].id != s[j].id);
    }
}

/// A pool registered under the canonical identity of the pair `{a, b}` is
/// found again whichever way round the two tokens are presented: a second
/// creation of the same unordered pair is always detected as a duplicate.
pub proof fn lemma_duplicate_pair_found(s: Seq<Pool>, a: TokenKey, b: TokenKey, is_stable: bool)
    requires
        has_pool(s, canonical_id(a, b, is_stable)),
    ensures
        has_pool(s, canonical_id(b, a, is_stable)),
{
    lemma_canonical_commutative(a, b, is_stable);
}

} // verus!
