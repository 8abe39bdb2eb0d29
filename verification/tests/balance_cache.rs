use indexer_events::cache::FtBalanceCache;
use indexer_events::coin::AccountWithContract;

fn key(account: &str) -> AccountWithContract {
    AccountWithContract { account_id: account.to_string(), contract_account_id: "token.near".to_string() }
}

#[test]
fn a_new_cache_knows_nothing() {
    let mut cache = FtBalanceCache::new(3);
    assert_eq!(cache.get(&key("alice")), None);
}

#[test]
fn what_is_kept_is_found_under_its_key_only() {
    let mut cache = FtBalanceCache::new(3);
    cache.set(key("alice"), 5);
    cache.set(key("bob"), 0);
    assert_eq!(cache.get(&key("alice")), Some(5));
    assert_eq!(cache.get(&key("bob")), Some(0));
    assert_eq!(cache.get(&key("carol")), None);
    let other = AccountWithContract { account_id: "alice".to_string(), contract_account_id: "other.near".to_string() };
    assert_eq!(cache.get(&other), None);
    cache.set(key("alice"), 9);
    assert_eq!(cache.get(&key("alice")), Some(9));
}

#[test]
fn the_entry_that_went_longest_without_a_look_leaves() {
    let mut cache = FtBalanceCache::new(2);
    cache.set(key("a"), 1);
    cache.set(key("b"), 2);
    assert_eq!(cache.get(&key("a")), Some(1));
    cache.set(key("c"), 3);
    assert_eq!(cache.get(&key("b")), None);
    assert_eq!(cache.get(&key("a")), Some(1));
    assert_eq!(cache.get(&key("c")), Some(3));
}

#[test]
fn a_new_balance_for_a_known_key_does_not_count_as_a_look() {
    let mut cache = FtBalanceCache::new(2);
    cache.set(key("a"), 1);
    cache.set(key("b"), 2);
    cache.set(key("a"), 10);
    cache.set(key("c"), 3);
    assert_eq!(cache.get(&key("a")), None);
    assert_eq!(cache.get(&key("b")), Some(2));
    assert_eq!(cache.get(&key("c")), Some(3));
}

#[test]
fn a_cache_for_one_entry_keeps_the_last_one() {
    let mut cache = FtBalanceCache::new(1);
    cache.set(key("a"), 1);
    cache.set(key("b"), 2);
    assert_eq!(cache.get(&key("a")), None);
    assert_eq!(cache.get(&key("b")), Some(2));
}
