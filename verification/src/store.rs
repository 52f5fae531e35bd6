//! The splitter configuration store: one record per derived key, created
//! once, mutated only by its authority.  Modelled as a map from derived
//! keys to configurations; implemented as a vector of key/record pairs
//! with an explicit uniqueness invariant.

use vstd::prelude::*;
use crate::split::{share_amount, SplitOutcome};
use crate::splitter::{valid_shares, AccountId, ErrorCode, Splitter};

verus! {

/// What one `initialize_splitter` call returns, and the store it leaves
/// behind.  Shares are validated first; then the derived key (here the
/// authority identifier itself) must be free.
pub open spec fn init_result(
    store: Map<AccountId, Splitter>,
    authority: AccountId,
    merchant: AccountId,
    agent: AccountId,
    platform: AccountId,
    merchant_share: u8,
    agent_share: u8,
    platform_share: u8,
    bump: u8,
) -> (Result<(), ErrorCode>, Map<AccountId, Splitter>) {
    if !valid_shares(merchant_share, agent_share, platform_share) {
        (Err(ErrorCode::InvalidShares), store)
    } else if store.contains_key(authority) {
        (Err(ErrorCode::AlreadyExists), store)
    } else {
        (
            Ok(()),
            store.insert(
                authority,
                Splitter {
                    merchant,
                    agent,
                    platform,
                    merchant_share,
                    agent_share,
                    platform_share,
                    authority,
                    bump,
                },
            ),
        )
    }
}

/// What one `update_shares` call returns, and the store it leaves
/// behind.  The caller must be the recorded authority before the shares
/// are even looked at; recipients, authority and bump never change.
pub open spec fn update_result(
    store: Map<AccountId, Splitter>,
    key: AccountId,
    caller: AccountId,
    merchant_share: u8,
    agent_share: u8,
    platform_share: u8,
) -> (Result<(), ErrorCode>, Map<AccountId, Splitter>) {
    if !store.contains_key(key) {
        (Err(ErrorCode::NotFound), store)
    } else if store[key].authority != caller {
        (Err(ErrorCode::Unauthorized), store)
    } else if !valid_shares(merchant_share, agent_share, platform_share) {
        (Err(ErrorCode::InvalidShares), store)
    } else {
        (
            Ok(()),
            store.insert(
                key,
                Splitter {
                    merchant: store[key].merchant,
                    agent: store[key].agent,
                    platform: store[key].platform,
                    merchant_share,
                    agent_share,
                    platform_share,
                    authority: store[key].authority,
                    bump: store[key].bump,
                },
            ),
        )
    }
}

/// The map described by a sequence of key/record pairs, later pairs
/// taking precedence (the store's invariant keeps keys unique, so
/// precedence never actually decides).
pub open spec fn entries_map(s: Seq<(AccountId, Splitter)>) -> Map<AccountId, Splitter>
    decreases s.len(),
{
    if s.len() == 0 {
        Map::empty()
    } else {
        entries_map(s.drop_last()).insert(s.last().0, s.last().1)
    }
}

/// A key is in the map exactly when some pair carries it.
proof fn lemma_entries_map_domain(s: Seq<(AccountId, Splitter)>, key: AccountId)
    ensures
        entries_map(s).contains_key(key) <==> exists|i: int|
            0 <= i < s.len() && (#[trigger] s[i]).0 == key,
    decreases s.len(),
{
    if s.len() > 0 {
        lemma_entries_map_domain(s.drop_last(), key);
        if s.last().0 == key {
            assert(s[s.len() - 1].0 == key);
        } else if entries_map(s).contains_key(key) {
            let i = choose|i: int| 0 <= i < s.drop_last().len() && (#[trigger] s.drop_last()[i]).0 == key;
            assert(s[i].0 == key);
        } else {
            assert(forall|i: int| 0 <= i < s.len() - 1 ==> (#[trigger] s[i]) == s.drop_last()[i]);
        }
    }
}

/// With unique keys, the map sends each pair's key to that pair's record.
proof fn lemma_entries_map_value(s: Seq<(AccountId, Splitter)>, i: int)
    requires
        0 <= i < s.len(),
        forall|j: int, k: int| 0 <= j < k < s.len() ==> (#[trigger] s[j]).0 != (#[trigger] s[k]).0,
    ensures
        entries_map(s).contains_key(s[i].0),
        entries_map(s)[s[i].0] == s[i].1,
    decreases s.len(),
{
    if i < s.len() - 1 {
        lemma_entries_map_value(s.drop_last(), i);
        assert(s.drop_last()[i] == s[i]);
        assert(s.last().0 != s[i].0);
    }
}

/// With unique keys, overwriting one pair's record in place is, at the
/// map level, a single insert at that pair's key.
proof fn lemma_entries_map_update(s: Seq<(AccountId, Splitter)>, i: int, v: Splitter)
    requires
        0 <= i < s.len(),
        forall|j: int, k: int| 0 <= j < k < s.len() ==> (#[trigger] s[j]).0 != (#[trigger] s[k]).0,
    ensures
        entries_map(s.update(i, (s[i].0, v))) == entries_map(s).insert(s[i].0, v),
    decreases s.len(),
{
    let t = s.update(i, (s[i].0, v));
    if i == s.len() - 1 {
        assert(t.drop_last() =~= s.drop_last());
        assert(entries_map(t) =~= entries_map(s).insert(s[i].0, v));
    } else {
        assert(t.drop_last() =~= s.drop_last().update(i, (s[i].0, v)));
        assert(s.drop_last()[i] == s[i]);
        lemma_entries_map_update(s.drop_last(), i, v);
        assert(s.last().0 != s[i].0);
        assert(entries_map(t) =~= entries_map(s).insert(s[i].0, v));
    }
}

/// The store of splitter configurations.  Each derived key holds at most
/// one record; a record's key is the identifier of its authority.
pub struct SplitterStore {
    entries: Vec<(AccountId, Splitter)>,
}

impl View for SplitterStore {
    type V = Map<AccountId, Splitter>;

    closed spec fn view(&self) -> Map<AccountId, Splitter> {
        entries_map(self.entries@)
    }
}

impl SplitterStore {
    /// Internal well-formedness: keys are unique, each record keeps the
    /// 100-sum share invariant, and each record sits at the key derived
    /// from its own authority.
    pub closed spec fn inv(&self) -> bool {
        &&& forall|i: int, j: int|
            0 <= i < j < self.entries@.len() ==> (#[trigger] self.entries@[i]).0 != (
            #[trigger] self.entries@[j]).0
        &&& forall|i: int|
            0 <= i < self.entries@.len() ==> (#[trigger] self.entries@[i]).1.wf()
        &&& forall|i: int|
            0 <= i < self.entries@.len() ==> (#[trigger] self.entries@[i]).1.authority == self.entries@[i].0
    }

    /// An empty store.
    pub fn new() -> (s: SplitterStore)
        ensures
            s.inv(),
            s@ == Map::<AccountId, Splitter>::empty(),
    {
        SplitterStore { entries: Vec::new() }
    }

    /// Every stored configuration is well formed and records the
    /// authority its key was derived from.
    pub proof fn lemma_stored_config(&self, key: AccountId)
        requires
            self.inv(),
            self@.contains_key(key),
        ensures
            self@[key].wf(),
            self@[key].authority == key,
    {
        lemma_entries_map_domain(self.entries@, key);
        let i = choose|i: int| 0 <= i < self.entries@.len() && (#[trigger] self.entries@[i]).0 == key;
        lemma_entries_map_value(self.entries@, i);
    }

    /// The index of the pair carrying `key`, if any.
    fn find_index(&self, key: AccountId) -> (r: Option<usize>)
        ensures
            match r {
                Some(i) => i < self.entries@.len() && self.entries@[i as int].0 == key,
                None => forall|i: int| 0 <= i < self.entries@.len() ==> (#[trigger] self.entries@[i]).0 != key,
            },
    {
        let n: usize = self.entries.len();
        let mut i: usize = 0;
        while i < n
            invariant
                n == self.entries@.len(),
                i <= n,
                forall|j: int| 0 <= j < i ==> (#[trigger] self.entries@[j]).0 != key,
            decreases n - i,
        {
            if self.entries[i].0 == key {
                return Some(i);
            }
            i = i + 1;
        }
        None
    }

    /// Whether a configuration occupies `key`.
    pub fn contains_key(&self, key: AccountId) -> (r: bool)
        ensures
            r == self@.contains_key(key),
    {
        proof {
            lemma_entries_map_domain(self.entries@, key);
        }
        self.find_index(key).is_some()
    }

    /// Creates the configuration for `authority` at the key derived from
    /// it.  Refused with `InvalidShares` when the shares do not sum to
    /// 100, and with `AlreadyExists` when the key is occupied; either
    /// refusal leaves the store untouched.
    pub fn initialize_splitter(
        &mut self,
        authority: AccountId,
        merchant: AccountId,
        agent: AccountId,
        platform: AccountId,
        merchant_share: u8,
        agent_share: u8,
        platform_share: u8,
        bump: u8,
    ) -> (r: Result<(), ErrorCode>)
        requires
            old(self).inv(),
        ensures
            final(self).inv(),
            ({
                let (r_spec, store_spec) = init_result(
                    old(self)@,
                    authority,
                    merchant,
                    agent,
                    platform,
                    merchant_share,
                    agent_share,
                    platform_share,
                    bump,
                );
                r == r_spec && final(self)@ == store_spec
            }),
    {
        if !crate::splitter::shares_are_valid(merchant_share, agent_share, platform_share) {
            return Err(ErrorCode::InvalidShares);
        }
        proof {
            lemma_entries_map_domain(self.entries@, authority);
        }
        match self.find_index(authority) {
            Some(_) => Err(ErrorCode::AlreadyExists),
            None => {
                let config = Splitter {
                    merchant,
                    agent,
                    platform,
                    merchant_share,
                    agent_share,
                    platform_share,
                    authority,
                    bump,
                };
                self.entries.push((authority, config));
                proof {
                    assert(self.entries@.drop_last() =~= old(self).entries@);
                }
                Ok(())
            },
        }
    }

    /// Overwrites the three shares of the configuration at `key` in
    /// place.  Refused with `NotFound` when the key is empty, with
    /// `Unauthorized` when `caller` is not the recorded authority, and
    /// with `InvalidShares` when the new shares do not sum to 100; any
    /// refusal leaves the store untouched.  Recipients, authority and
    /// bump are immutable after creation.
    pub fn update_shares(
        &mut self,
        key: AccountId,
        caller: AccountId,
        merchant_share: u8,
        agent_share: u8,
        platform_share: u8,
    ) -> (r: Result<(), ErrorCode>)
        requires
            old(self).inv(),
        ensures
            final(self).inv(),
            ({
                let (r_spec, store_spec) = update_result(
                    old(self)@,
                    key,
                    caller,
                    merchant_share,
                    agent_share,
                    platform_share,
                );
                r == r_spec && final(self)@ == store_spec
            }),
    {
        proof {
            lemma_entries_map_domain(self.entries@, key);
        }
        match self.find_index(key) {
            None => Err(ErrorCode::NotFound),
            Some(i) => {
                proof {
                    lemma_entries_map_value(self.entries@, i as int);
                }
                let current = self.entries[i].1;
                if current.authority != caller {
                    return Err(ErrorCode::Unauthorized);
                }
                if !crate::splitter::shares_are_valid(merchant_share, agent_share, platform_share) {
                    return Err(ErrorCode::InvalidShares);
                }
                let updated = Splitter {
                    merchant: current.merchant,
                    agent: current.agent,
                    platform: current.platform,
                    merchant_share,
                    agent_share,
                    platform_share,
                    authority: current.authority,
                    bump: current.bump,
                };
                self.entries[i] = (key, updated);
                proof {
                    lemma_entries_map_update(old(self).entries@, i as int, updated);
                    assert(self.entries@ =~= old(self).entries@.update(
                        i as int,
                        (old(self).entries@[i as int].0, updated),
                    ));
                }
                Ok(())
            },
        }
    }

    /// The configuration at `key`, if one was initialized there.
    pub fn get(&self, key: AccountId) -> (r: Option<&Splitter>)
        requires
            self.inv(),
        ensures
            match r {
                Some(config) => self@.contains_key(key) && *config == self@[key],
                None => !self@.contains_key(key),
            },
    {
        proof {
            lemma_entries_map_domain(self.entries@, key);
        }
        match self.find_index(key) {
            Some(i) => {
                proof {
                    lemma_entries_map_value(self.entries@, i as int);
                }
                Some(&self.entries[i].1)
            },
            None => None,
        }
    }

    /// Computes the disbursement of `amount` under the configuration at
    /// `key`, re-verifying the derivation key and the payer's funds
    /// first.  Refused with `StaleConfig` when no configuration stands at
    /// `key`, and with `InsufficientFunds` when `payer_balance` is below
    /// `amount`; otherwise each recipient gets `floor(amount * share /
    /// 100)`.  The store itself is never changed by a split.
    pub fn split_payment(&self, key: AccountId, amount: u64, payer_balance: u64) -> (r: Result<
        SplitOutcome,
        ErrorCode,
    >)
        requires
            self.inv(),
        ensures
            !self@.contains_key(key) ==> r == Err::<SplitOutcome, ErrorCode>(ErrorCode::StaleConfig),
            self@.contains_key(key) && payer_balance < amount ==> r == Err::<SplitOutcome, ErrorCode>(
                ErrorCode::InsufficientFunds,
            ),
            self@.contains_key(key) && payer_balance >= amount ==> ({
                &&& r is Ok
                &&& r->Ok_0.merchant_amount == share_amount(amount, self@[key].merchant_share)
                &&& r->Ok_0.agent_amount == share_amount(amount, self@[key].agent_share)
                &&& r->Ok_0.platform_amount == share_amount(amount, self@[key].platform_share)
                &&& r->Ok_0.merchant_amount + r->Ok_0.agent_amount + r->Ok_0.platform_amount
                    <= amount
                &&& amount - (r->Ok_0.merchant_amount + r->Ok_0.agent_amount
                    + r->Ok_0.platform_amount) <= 2
            }),
    {
        let config = match self.get(key) {
            None => {
                return Err(ErrorCode::StaleConfig);
            },
            Some(config) => config,
        };
        proof {
            self.lemma_stored_config(key);
        }
        if payer_balance < amount {
            return Err(ErrorCode::InsufficientFunds);
        }
        Ok(crate::split::compute_split(config, amount))
    }
}

} // verus!
