use equinix_splitter::split::{compute_split, SplitOutcome};
use equinix_splitter::splitter::{AccountId, ErrorCode, Splitter};
use equinix_splitter::store::SplitterStore;

fn acct(id: u64) -> AccountId {
    AccountId { id }
}

fn store_with_config(
    authority: u64,
    merchant_share: u8,
    agent_share: u8,
    platform_share: u8,
) -> SplitterStore {
    let mut store = SplitterStore::new();
    let r = store.initialize_splitter(
        acct(authority),
        acct(1),
        acct(2),
        acct(3),
        merchant_share,
        agent_share,
        platform_share,
        251,
    );
    assert_eq!(r, Ok(()));
    store
}

#[test]
fn initialize_stores_exact_configuration() {
    let store = store_with_config(9, 70, 20, 10);
    let config = store.get(acct(9)).unwrap();
    assert_eq!(
        *config,
        Splitter {
            merchant: acct(1),
            agent: acct(2),
            platform: acct(3),
            merchant_share: 70,
            agent_share: 20,
            platform_share: 10,
            authority: acct(9),
            bump: 251,
        }
    );
}

#[test]
fn initialize_rejects_invalid_shares() {
    let mut store = SplitterStore::new();
    let r = store.initialize_splitter(acct(9), acct(1), acct(2), acct(3), 50, 30, 10, 0);
    assert_eq!(r, Err(ErrorCode::InvalidShares));
    assert!(!store.contains_key(acct(9)));
}

#[test]
fn initialize_rejects_large_share_sum_without_overflow() {
    let mut store = SplitterStore::new();
    let r = store.initialize_splitter(acct(9), acct(1), acct(2), acct(3), 255, 255, 255, 0);
    assert_eq!(r, Err(ErrorCode::InvalidShares));
    assert!(!store.contains_key(acct(9)));
}

#[test]
fn reinitialize_rejected_and_first_configuration_kept() {
    let mut store = store_with_config(9, 70, 20, 10);
    let r = store.initialize_splitter(acct(9), acct(4), acct(5), acct(6), 25, 25, 50, 7);
    assert_eq!(r, Err(ErrorCode::AlreadyExists));
    let config = store.get(acct(9)).unwrap();
    assert_eq!(config.merchant, acct(1));
    assert_eq!(config.merchant_share, 70);
    assert_eq!(config.bump, 251);
}

#[test]
fn update_shares_overwrites_shares_only() {
    let mut store = store_with_config(9, 70, 20, 10);
    let r = store.update_shares(acct(9), acct(9), 25, 25, 50);
    assert_eq!(r, Ok(()));
    let config = store.get(acct(9)).unwrap();
    assert_eq!(config.merchant_share, 25);
    assert_eq!(config.agent_share, 25);
    assert_eq!(config.platform_share, 50);
    assert_eq!(config.merchant, acct(1));
    assert_eq!(config.agent, acct(2));
    assert_eq!(config.platform, acct(3));
    assert_eq!(config.authority, acct(9));
    assert_eq!(config.bump, 251);
}

#[test]
fn update_rejects_invalid_shares_and_keeps_old_ones() {
    let mut store = store_with_config(9, 70, 20, 10);
    let r = store.update_shares(acct(9), acct(9), 40, 40, 30);
    assert_eq!(r, Err(ErrorCode::InvalidShares));
    let config = store.get(acct(9)).unwrap();
    assert_eq!(config.merchant_share, 70);
    assert_eq!(config.agent_share, 20);
    assert_eq!(config.platform_share, 10);
}

#[test]
fn update_by_non_authority_rejected() {
    let mut store = store_with_config(9, 70, 20, 10);
    let r = store.update_shares(acct(9), acct(8), 25, 25, 50);
    assert_eq!(r, Err(ErrorCode::Unauthorized));
    let config = store.get(acct(9)).unwrap();
    assert_eq!(config.merchant_share, 70);
    assert_eq!(config.agent_share, 20);
    assert_eq!(config.platform_share, 10);
}

#[test]
fn update_of_missing_configuration_rejected() {
    let mut store = SplitterStore::new();
    let r = store.update_shares(acct(9), acct(9), 70, 20, 10);
    assert_eq!(r, Err(ErrorCode::NotFound));
}

#[test]
fn split_70_20_10_of_1000_has_no_dust() {
    let store = store_with_config(9, 70, 20, 10);
    let outcome = store.split_payment(acct(9), 1000, 1000).unwrap();
    assert_eq!(
        outcome,
        SplitOutcome { merchant_amount: 700, agent_amount: 200, platform_amount: 100 }
    );
}

#[test]
fn split_33_33_34_of_100_has_no_dust() {
    let store = store_with_config(9, 33, 33, 34);
    let outcome = store.split_payment(acct(9), 100, 100).unwrap();
    assert_eq!(
        outcome,
        SplitOutcome { merchant_amount: 33, agent_amount: 33, platform_amount: 34 }
    );
}

#[test]
fn split_33_33_34_of_10_leaves_one_unit_of_dust() {
    let store = store_with_config(9, 33, 33, 34);
    let outcome = store.split_payment(acct(9), 10, 10).unwrap();
    assert_eq!(
        outcome,
        SplitOutcome { merchant_amount: 3, agent_amount: 3, platform_amount: 3 }
    );
    let disbursed = outcome.merchant_amount + outcome.agent_amount + outcome.platform_amount;
    assert_eq!(10 - disbursed, 1);
}

#[test]
fn split_33_33_34_of_5_leaves_two_units_of_dust() {
    let store = store_with_config(9, 33, 33, 34);
    let outcome = store.split_payment(acct(9), 5, 5).unwrap();
    assert_eq!(
        outcome,
        SplitOutcome { merchant_amount: 1, agent_amount: 1, platform_amount: 1 }
    );
}

#[test]
fn split_of_zero_amount_disburses_nothing() {
    let store = store_with_config(9, 70, 20, 10);
    let outcome = store.split_payment(acct(9), 0, 0).unwrap();
    assert_eq!(
        outcome,
        SplitOutcome { merchant_amount: 0, agent_amount: 0, platform_amount: 0 }
    );
}

#[test]
fn split_of_largest_amount_does_not_overflow() {
    let store = store_with_config(9, 70, 20, 10);
    let amount = u64::MAX;
    let outcome = store.split_payment(acct(9), amount, amount).unwrap();
    let expected_merchant = ((amount as u128) * 70 / 100) as u64;
    let expected_agent = ((amount as u128) * 20 / 100) as u64;
    let expected_platform = ((amount as u128) * 10 / 100) as u64;
    assert_eq!(outcome.merchant_amount, expected_merchant);
    assert_eq!(outcome.agent_amount, expected_agent);
    assert_eq!(outcome.platform_amount, expected_platform);
    let disbursed = (outcome.merchant_amount as u128)
        + (outcome.agent_amount as u128)
        + (outcome.platform_amount as u128);
    assert!(disbursed <= amount as u128);
    assert!((amount as u128) - disbursed <= 2);
}

#[test]
fn split_with_whole_share_to_one_recipient() {
    let store = store_with_config(9, 100, 0, 0);
    let outcome = store.split_payment(acct(9), 500, 500).unwrap();
    assert_eq!(
        outcome,
        SplitOutcome { merchant_amount: 500, agent_amount: 0, platform_amount: 0 }
    );
}

#[test]
fn split_rejected_when_funds_insufficient() {
    let store = store_with_config(9, 70, 20, 10);
    let r = store.split_payment(acct(9), 10, 5);
    assert_eq!(r, Err(ErrorCode::InsufficientFunds));
}

#[test]
fn split_rejected_when_no_configuration_at_key() {
    let store = SplitterStore::new();
    let r = store.split_payment(acct(9), 10, 10);
    assert_eq!(r, Err(ErrorCode::StaleConfig));
}

#[test]
fn split_follows_updated_shares() {
    let mut store = store_with_config(9, 70, 20, 10);
    store.update_shares(acct(9), acct(9), 100, 0, 0).unwrap();
    let outcome = store.split_payment(acct(9), 500, 500).unwrap();
    assert_eq!(
        outcome,
        SplitOutcome { merchant_amount: 500, agent_amount: 0, platform_amount: 0 }
    );
}

#[test]
fn stores_for_different_authorities_are_independent() {
    let mut store = store_with_config(9, 70, 20, 10);
    let r = store.initialize_splitter(acct(10), acct(4), acct(5), acct(6), 33, 33, 34, 7);
    assert_eq!(r, Ok(()));
    store.update_shares(acct(10), acct(10), 0, 0, 100).unwrap();
    let first = store.get(acct(9)).unwrap();
    assert_eq!(first.merchant_share, 70);
    let second = store.get(acct(10)).unwrap();
    assert_eq!(second.platform_share, 100);
}

#[test]
fn compute_split_matches_executor() {
    let config = Splitter {
        merchant: acct(1),
        agent: acct(2),
        platform: acct(3),
        merchant_share: 33,
        agent_share: 33,
        platform_share: 34,
        authority: acct(9),
        bump: 0,
    };
    let outcome = compute_split(&config, 100);
    assert_eq!(
        outcome,
        SplitOutcome { merchant_amount: 33, agent_amount: 33, platform_amount: 34 }
    );
}

#[test]
fn contains_key_reflects_initialization() {
    let mut store = SplitterStore::new();
    assert!(!store.contains_key(acct(9)));
    store
        .initialize_splitter(acct(9), acct(1), acct(2), acct(3), 70, 20, 10, 0)
        .unwrap();
    assert!(store.contains_key(acct(9)));
    assert!(!store.contains_key(acct(8)));
}
