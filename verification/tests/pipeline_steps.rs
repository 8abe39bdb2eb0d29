use indexer_events::amount::Amount;
use indexer_events::cache::FtBalanceCache;
use indexer_events::coin::{AccountWithContract, CandidateEvent, Cause};
use indexer_events::contracts::ContractsHelper;
use indexer_events::events::Event;
use indexer_events::outcome::BlockHeader;
use indexer_events::pipeline::{finish, prepare};
use indexer_events::reconcile::{known_balances, SettleError};

fn header() -> BlockHeader {
    BlockHeader { height: 500, timestamp: 9_000, hash: "this".to_string(), prev_hash: "before".to_string() }
}

fn key(account: &str, contract: &str) -> AccountWithContract {
    AccountWithContract { account_id: account.to_string(), contract_account_id: contract.to_string() }
}

fn mint(contract: &str, affected: &str, amount: u128) -> CandidateEvent {
    CandidateEvent {
        contract_id: contract.to_string(),
        affected_id: affected.to_string(),
        involved_id: None,
        delta: Amount::from_u128(amount),
        cause: Cause::Mint,
        memo: None,
        block_height: 500,
        block_timestamp: 9_000,
        shard_id: 1,
        absolute_amount: None,
        event_index: None,
    }
}

#[test]
fn balances_are_taken_only_where_every_answer_holds_one() {
    assert_eq!(known_balances(&vec![Some(1), Some(0)]), Some(vec![1, 0]));
    assert_eq!(known_balances(&vec![Some(1), None]), None);
    assert_eq!(known_balances(&vec![]), Some(vec![]));
}

#[test]
fn the_steps_register_reconcile_and_enumerate() {
    let mut cache = FtBalanceCache::new(8);
    let mut contracts = ContractsHelper::new();
    contracts.register_new("bad.near", "nep141", 1, 1);
    contracts.mark_inconsistent("bad.near", 2, 2);
    contracts.take_pending();
    cache.set(key("alice", "good.near"), 500);
    let events = vec![
        mint("bad.near", "alice", 1),
        mint("good.near", "alice", 100),
        mint("odd.near", "bob", 7),
        mint("good.near", "carol", 3),
    ];
    let run = prepare(&events, Event::Nep141, &mut cache, &mut contracts);
    assert!(contracts.is_known("good.near"));
    assert!(contracts.is_known("odd.near"));
    assert_eq!(run.start_queries(&header()).len(), 2);
    assert_eq!(run.end_queries(&header()).len(), 3);
    let kept = finish(
        run,
        &vec![Some(0), Some(10)],
        &vec![Some(600), Some(8), Some(13)],
        &mut cache,
        &mut contracts,
        &header(),
    )
    .unwrap();
    assert_eq!(kept.len(), 2);
    assert_eq!(kept[0].affected_id, "alice");
    assert_eq!(kept[0].absolute_amount, Some(Amount::from_u128(600)));
    assert_eq!(kept[0].event_index, Some(0));
    assert_eq!(kept[1].affected_id, "carol");
    assert_eq!(kept[1].absolute_amount, Some(Amount::from_u128(13)));
    assert_eq!(kept[1].event_index, Some(1));
    assert!(contracts.is_inconsistent("odd.near"));
    assert!(!contracts.is_inconsistent("good.near"));
    let pending = contracts.take_pending();
    assert_eq!(pending.len(), 2);
    assert_eq!(pending[0].contract_account_id, "good.near");
    assert_eq!(pending[0].standard, "nep141");
    assert_eq!(pending[0].first_event_at_block_height, 500);
    assert_eq!(pending[1].contract_account_id, "odd.near");
    assert_eq!(pending[1].inconsistency_found_at_block_height, Some(500));
}

#[test]
fn a_balance_that_the_chain_does_not_know_is_never_taken_for_zero() {
    let mut cache = FtBalanceCache::new(8);
    let mut contracts = ContractsHelper::new();
    let events = vec![mint("good.near", "alice", 100)];
    let run = prepare(&events, Event::Nep141, &mut cache, &mut contracts);
    assert_eq!(
        finish(run, &vec![None], &vec![Some(100)], &mut cache, &mut contracts, &header()),
        Err(SettleError::MissingBalance)
    );
    let run = prepare(&events, Event::Nep141, &mut cache, &mut contracts);
    assert_eq!(
        finish(run, &vec![Some(0)], &vec![None], &mut cache, &mut contracts, &header()),
        Err(SettleError::MissingBalance)
    );
    assert!(!contracts.is_inconsistent("good.near"));
    assert_eq!(cache.get(&key("alice", "good.near")), None);
}
