//! The guarantees the splitter gives its callers, stated once over the
//! store model that `initialize_splitter` and `update_shares` are
//! specified against.  The executor's arithmetic guarantee is
//! `split::lemma_split_sum`.

use vstd::prelude::*;
use crate::splitter::{valid_shares, AccountId, ErrorCode, Splitter};
use crate::store::{init_result, update_result};

verus! {

/// Law: for every share triple summing to 100, initialization at a free
/// key succeeds, and the stored configuration carries exactly the
/// recipients, shares, authority and bump that were supplied.
pub proof fn lemma_initialize_stores_exact_shares(
    store: Map<AccountId, Splitter>,
    authority: AccountId,
    merchant: AccountId,
    agent: AccountId,
    platform: AccountId,
    merchant_share: u8,
    agent_share: u8,
    platform_share: u8,
    bump: u8,
)
    requires
        valid_shares(merchant_share, agent_share, platform_share),
        !store.contains_key(authority),
    ensures
        ({
            let (r, stored) = init_result(
                store,
                authority,
                merchant,
                agent,
                platform,
                merchant_share,
                agent_share,
                platform_share,
                bump,
            );
            &&& r == Ok::<(), ErrorCode>(())
            &&& stored.contains_key(authority)
            &&& stored[authority] == (Splitter {
                merchant,
                agent,
                platform,
                merchant_share,
                agent_share,
                platform_share,
                authority,
                bump,
            })
        }),
{
}

/// Law: a share triple that does not sum to 100 is refused with
/// `InvalidShares` by initialization, and by an authorized share update,
/// and the store is left exactly as it was.
pub proof fn lemma_invalid_shares_rejected(
    store: Map<AccountId, Splitter>,
    authority: AccountId,
    merchant: AccountId,
    agent: AccountId,
    platform: AccountId,
    merchant_share: u8,
    agent_share: u8,
    platform_share: u8,
    bump: u8,
    key: AccountId,
    caller: AccountId,
)
    requires
        !valid_shares(merchant_share, agent_share, platform_share),
    ensures
        init_result(
            store,
            authority,
            merchant,
            agent,
            platform,
            merchant_share,
            agent_share,
            platform_share,
            bump,
        ) == (Err::<(), ErrorCode>(ErrorCode::InvalidShares), store),
        store.contains_key(key) && store[key].authority == caller ==> update_result(
            store,
            key,
            caller,
            merchant_share,
            agent_share,
            platform_share,
        ) == (Err::<(), ErrorCode>(ErrorCode::InvalidShares), store),
{
}

/// Law: a share update requested by any principal other than the stored
/// authority is refused with `Unauthorized`, whatever shares it asks
/// for, and the store is left exactly as it was.
pub proof fn lemma_update_by_non_authority_rejected(
    store: Map<AccountId, Splitter>,
    key: AccountId,
    caller: AccountId,
    merchant_share: u8,
    agent_share: u8,
    platform_share: u8,
)
    requires
        store.contains_key(key),
        store[key].authority != caller,
    ensures
        update_result(store, key, caller, merchant_share, agent_share, platform_share) == (
            Err::<(), ErrorCode>(ErrorCode::Unauthorized),
            store,
        ),
{
}

/// Law: after one successful initialization, a second initialization for
/// the same derived key is refused with `AlreadyExists`, whatever valid
/// shares and recipients it offers, and the first configuration stands
/// untouched.
pub proof fn lemma_reinitialize_rejected(
    store: Map<AccountId, Splitter>,
    authority: AccountId,
    merchant1: AccountId,
    agent1: AccountId,
    platform1: AccountId,
    merchant_share1: u8,
    agent_share1: u8,
    platform_share1: u8,
    bump1: u8,
    merchant2: AccountId,
    agent2: AccountId,
    platform2: AccountId,
    merchant_share2: u8,
    agent_share2: u8,
    platform_share2: u8,
    bump2: u8,
)
    requires
        valid_shares(merchant_share1, agent_share1, platform_share1),
        valid_shares(merchant_share2, agent_share2, platform_share2),
        !store.contains_key(authority),
    ensures
        ({
            let (r1, stored1) = init_result(
                store,
                authority,
                merchant1,
                agent1,
                platform1,
                merchant_share1,
                agent_share1,
                platform_share1,
                bump1,
            );
            let (r2, stored2) = init_result(
                stored1,
                authority,
                merchant2,
                agent2,
                platform2,
                merchant_share2,
                agent_share2,
                platform_share2,
                bump2,
            );
            &&& r1 == Ok::<(), ErrorCode>(())
            &&& r2 == Err::<(), ErrorCode>(ErrorCode::AlreadyExists)
            &&& stored2 == stored1
            &&& stored1[authority] == (Splitter {
                merchant: merchant1,
                agent: agent1,
                platform: platform1,
                merchant_share: merchant_share1,
                agent_share: agent_share1,
                platform_share: platform_share1,
                authority,
                bump: bump1,
            })
        }),
{
}

} // verus!
