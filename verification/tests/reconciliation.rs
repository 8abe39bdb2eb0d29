use indexer_events::amount::Amount;
use indexer_events::cache::FtBalanceCache;
use indexer_events::coin::{AccountWithContract, CandidateEvent, Cause};
use indexer_events::contracts::ContractsHelper;
use indexer_events::outcome::{Action, BlockHeader, ExecutionStatus, RawOutcome};
use indexer_events::reconcile::{
    drop_inconsistent, list_touched_accounts, merge_starts, register_new_contracts, BalanceQuery,
    Reconciliation, SettleError,
};
use indexer_events::sequencer::enumerate_events;
use indexer_events::tkn_near::collect_tkn_near;

fn header() -> BlockHeader {
    BlockHeader { height: 500, timestamp: 9_000, hash: "this".to_string(), prev_hash: "before".to_string() }
}

fn key(account: &str, contract: &str) -> AccountWithContract {
    AccountWithContract { account_id: account.to_string(), contract_account_id: contract.to_string() }
}

fn signed(n: i64) -> Amount {
    if n < 0 {
        Amount::from_u128((-n) as u128).negated()
    } else {
        Amount::from_u128(n as u128)
    }
}

fn event(contract: &str, affected: &str, delta: i64, cause: Cause) -> CandidateEvent {
    CandidateEvent {
        contract_id: contract.to_string(),
        affected_id: affected.to_string(),
        involved_id: None,
        delta: signed(delta),
        cause,
        memo: None,
        block_height: 500,
        block_timestamp: 9_000,
        shard_id: 1,
        absolute_amount: None,
        event_index: None,
    }
}

fn query(account: &str, contract: &str, hash: &str) -> BalanceQuery {
    BalanceQuery { account_id: account.to_string(), contract_id: contract.to_string(), block_hash: hash.to_string() }
}

#[test]
fn touched_accounts_come_once_in_order_of_first_touch() {
    let events = vec![
        event("c1", "bob", 1, Cause::Mint),
        event("c1", "alice", 1, Cause::Mint),
        event("c2", "bob", 1, Cause::Mint),
        event("c1", "bob", -1, Cause::Burn),
    ];
    assert_eq!(list_touched_accounts(&events), vec![key("bob", "c1"), key("alice", "c1"), key("bob", "c2")]);
}

#[test]
fn start_answers_fill_the_gaps_of_the_cache() {
    assert_eq!(merge_starts(&vec![Some(5), None, Some(7), None], &vec![1, 2]), Some(vec![5, 1, 7, 2]));
    assert_eq!(merge_starts(&vec![Some(5), None], &vec![]), None);
    assert_eq!(merge_starts(&vec![Some(5), None], &vec![1, 2]), None);
    assert_eq!(merge_starts(&vec![], &vec![]), Some(vec![]));
    assert_eq!(merge_starts(&vec![], &vec![3]), None);
}

#[test]
fn questions_go_to_the_block_before_and_to_the_block_itself() {
    let mut cache = FtBalanceCache::new(5);
    cache.set(key("alice", "c1"), 500);
    let events = vec![event("c1", "bob", 1, Cause::Mint), event("c1", "alice", 1, Cause::Mint)];
    let run = Reconciliation::begin(events, &mut cache);
    assert_eq!(run.start_queries(&header()), vec![query("bob", "c1", "before")]);
    assert_eq!(
        run.end_queries(&header()),
        vec![query("bob", "c1", "this"), query("alice", "c1", "this")]
    );
}

#[test]
fn matching_balances_keep_the_events_and_update_the_cache() {
    let mut cache = FtBalanceCache::new(5);
    let mut contracts = ContractsHelper::new();
    cache.set(key("alice", "c1"), 500);
    let events = vec![
        event("c1", "alice", -200, Cause::Transfer),
        event("c1", "bob", 200, Cause::Transfer),
        event("c1", "alice", 50, Cause::Mint),
    ];
    register_new_contracts(&events, &mut contracts, "nep141");
    let run = Reconciliation::begin(events.clone(), &mut cache);
    let kept = run.settle(&vec![10], &vec![350, 210], &mut cache, &mut contracts, &header()).unwrap();
    assert_eq!(kept.len(), 3);
    assert_eq!(kept[0].absolute_amount, Some(signed(300)));
    assert_eq!(kept[1].absolute_amount, Some(signed(210)));
    assert_eq!(kept[2].absolute_amount, Some(signed(350)));
    for (k, e) in kept.iter().zip(events.iter()) {
        assert_eq!(k.affected_id, e.affected_id);
        assert_eq!(k.delta, e.delta);
        assert_eq!(k.cause, e.cause);
    }
    assert_eq!(cache.get(&key("alice", "c1")), Some(350));
    assert_eq!(cache.get(&key("bob", "c1")), Some(210));
    assert!(!contracts.is_inconsistent("c1"));
}

#[test]
fn a_mismatch_marks_the_contract_and_drops_its_events() {
    let mut cache = FtBalanceCache::new(5);
    let mut contracts = ContractsHelper::new();
    cache.set(key("alice", "c1"), 500);
    let events = vec![
        event("c1", "alice", 100, Cause::Mint),
        event("c2", "carol", 5, Cause::Mint),
        event("c1", "bob", 7, Cause::Mint),
    ];
    register_new_contracts(&events, &mut contracts, "nep141");
    let run = Reconciliation::begin(events, &mut cache);
    assert_eq!(run.start_queries(&header()).len(), 2);
    let kept = run
        .settle(&vec![0, 0], &vec![550, 5, 7], &mut cache, &mut contracts, &header())
        .unwrap();
    assert_eq!(kept.len(), 1);
    assert_eq!(kept[0].contract_id, "c2");
    assert_eq!(kept[0].absolute_amount, Some(signed(5)));
    assert!(contracts.is_inconsistent("c1"));
    assert!(!contracts.is_inconsistent("c2"));
    assert_eq!(cache.get(&key("alice", "c1")), Some(500));
    assert_eq!(cache.get(&key("bob", "c1")), None);
    assert_eq!(cache.get(&key("carol", "c2")), Some(5));
    let pending = contracts.take_pending();
    assert_eq!(pending.len(), 2);
    assert_eq!(pending[0].contract_account_id, "c1");
    assert_eq!(pending[0].inconsistency_found_at_block_height, Some(500));
    assert_eq!(pending[0].inconsistency_found_at_timestamp, Some(9_000));
    assert_eq!(pending[1].inconsistency_found_at_block_height, None);
}

#[test]
fn settling_twice_from_the_same_state_decides_alike() {
    let events = vec![
        event("c1", "alice", 100, Cause::Mint),
        event("c2", "carol", 5, Cause::Mint),
    ];
    let mut decisions = vec![];
    for _ in 0..2 {
        let mut cache = FtBalanceCache::new(5);
        let mut contracts = ContractsHelper::new();
        cache.set(key("alice", "c1"), 500);
        register_new_contracts(&events, &mut contracts, "nep141");
        let run = Reconciliation::begin(events.clone(), &mut cache);
        let kept = run.settle(&vec![0], &vec![550, 5], &mut cache, &mut contracts, &header()).unwrap();
        decisions.push((kept, contracts.is_inconsistent("c1"), contracts.is_inconsistent("c2")));
    }
    assert_eq!(decisions[0], decisions[1]);
}

#[test]
fn answers_that_do_not_match_the_questions_settle_nothing() {
    let mut cache = FtBalanceCache::new(5);
    let mut contracts = ContractsHelper::new();
    let events = vec![event("c1", "alice", 100, Cause::Mint)];
    register_new_contracts(&events, &mut contracts, "nep141");
    let run = Reconciliation::begin(events.clone(), &mut cache);
    assert_eq!(
        run.settle(&vec![], &vec![100], &mut cache, &mut contracts, &header()),
        Err(SettleError::StartAnswers)
    );
    let run = Reconciliation::begin(events, &mut cache);
    assert_eq!(
        run.settle(&vec![0], &vec![], &mut cache, &mut contracts, &header()),
        Err(SettleError::EndAnswers)
    );
    assert!(!contracts.is_inconsistent("c1"));
    assert_eq!(cache.get(&key("alice", "c1")), None);
}

#[test]
fn amounts_beyond_the_width_of_a_balance_are_followed_exactly() {
    let mut cache = FtBalanceCache::new(5);
    let mut contracts = ContractsHelper::new();
    let big = Amount::from_u128(u128::MAX);
    let mut up = event("c1", "alice", 0, Cause::Mint);
    up.delta = big.clone();
    let mut down = event("c1", "alice", 0, Cause::Burn);
    down.delta = big.negated();
    let events = vec![up.clone(), up, down.clone(), down];
    register_new_contracts(&events, &mut contracts, "nep141");
    let run = Reconciliation::begin(events, &mut cache);
    let kept = run.settle(&vec![3], &vec![3], &mut cache, &mut contracts, &header()).unwrap();
    assert_eq!(kept.len(), 4);
    assert_eq!(kept[1].absolute_amount, Some(big.plus(&big).plus(&signed(3))));
    assert_eq!(kept[3].absolute_amount, Some(signed(3)));
}

#[test]
fn events_of_inconsistent_contracts_are_dropped_ahead_of_reconciliation() {
    let mut contracts = ContractsHelper::new();
    contracts.register_new("c1", "nep141", 1, 1);
    contracts.register_new("c2", "nep141", 1, 1);
    contracts.mark_inconsistent("c1", 2, 2);
    let events = vec![
        event("c1", "alice", 1, Cause::Mint),
        event("c2", "bob", 2, Cause::Mint),
        event("c1", "bob", 3, Cause::Mint),
        event("c3", "bob", 4, Cause::Mint),
    ];
    let left = drop_inconsistent(&events, &contracts);
    assert_eq!(left, vec![events[1].clone(), events[3].clone()]);
}

#[test]
fn enumerating_counts_from_zero() {
    let mut events = vec![
        event("c1", "alice", 1, Cause::Mint),
        event("c2", "bob", 2, Cause::Mint),
        event("c1", "bob", 3, Cause::Mint),
    ];
    let before = events.clone();
    enumerate_events(&mut events);
    for (i, e) in events.iter().enumerate() {
        assert_eq!(e.event_index, Some(i));
        assert_eq!(e.delta, before[i].delta);
        assert_eq!(e.affected_id, before[i].affected_id);
    }
    let mut none: Vec<CandidateEvent> = vec![];
    enumerate_events(&mut none);
    assert!(none.is_empty());
}

#[test]
fn first_call_new_mints_the_supply_onto_a_balance_of_zero() {
    let mut cache = FtBalanceCache::new(5);
    let mut contracts = ContractsHelper::new();
    let outcome = RawOutcome {
        receipt_id: "r".to_string(),
        executor_id: "fresh.tkn.near".to_string(),
        predecessor_id: "maker.near".to_string(),
        logs: vec![],
        status: ExecutionStatus::SuccessValue(String::new()),
        actions: vec![Action::FunctionCall {
            method_name: "new".to_string(),
            args: base64::encode("{\"owner_id\":\"owner.near\",\"total_supply\":\"1000\"}"),
            deposit: 0,
        }],
    };
    let events = collect_tkn_near(&mut cache, &contracts, 1, &vec![outcome], &header()).unwrap();
    assert_eq!(events.len(), 1);
    assert_eq!(events[0].cause, Cause::Mint);
    assert_eq!(events[0].delta, Amount::from_u128(1000));
    assert_eq!(cache.get(&key("owner.near", "fresh.tkn.near")), Some(0));
    register_new_contracts(&events, &mut contracts, "nep141");
    let run = Reconciliation::begin(events, &mut cache);
    assert!(run.start_queries(&header()).is_empty());
    let mut kept = run.settle(&vec![], &vec![1000], &mut cache, &mut contracts, &header()).unwrap();
    enumerate_events(&mut kept);
    assert_eq!(kept.len(), 1);
    assert_eq!(kept[0].absolute_amount, Some(Amount::from_u128(1000)));
    assert_eq!(kept[0].event_index, Some(0));
    assert_eq!(cache.get(&key("owner.near", "fresh.tkn.near")), Some(1000));
    assert!(!contracts.is_inconsistent("fresh.tkn.near"));
}
