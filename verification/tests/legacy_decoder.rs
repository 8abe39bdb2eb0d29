use indexer_events::amount::Amount;
use indexer_events::cache::FtBalanceCache;
use indexer_events::coin::{AccountWithContract, CandidateEvent, Cause};
use indexer_events::contracts::ContractsHelper;
use indexer_events::outcome::{Action, BlockHeader, ExecutionStatus, RawOutcome};
use indexer_events::tkn_near::{
    collect_tkn_near, is_tkn_near_contract, legacy_method, process_tkn_near_functions,
    DecodeError, LegacyMethod,
};

fn header() -> BlockHeader {
    BlockHeader {
        height: 70_000_000,
        timestamp: 1_650_000_000_000_000_000,
        hash: "hash".to_string(),
        prev_hash: "prev".to_string(),
    }
}

fn call(method: &str, json_args: &str, deposit: u128) -> Action {
    Action::FunctionCall {
        method_name: method.to_string(),
        args: base64::encode(json_args),
        deposit,
    }
}

fn outcome(logs: Vec<&str>, status: ExecutionStatus, actions: Vec<Action>) -> RawOutcome {
    RawOutcome {
        receipt_id: "receipt".to_string(),
        executor_id: "coin.tkn.near".to_string(),
        predecessor_id: "alice.near".to_string(),
        logs: logs.into_iter().map(|l| l.to_string()).collect(),
        status,
        actions,
    }
}

fn process(cache: &mut FtBalanceCache, o: &RawOutcome) -> Result<Vec<CandidateEvent>, DecodeError> {
    process_tkn_near_functions(cache, &o.actions[0], o, &header(), 3)
}

fn key(account: &str) -> AccountWithContract {
    AccountWithContract {
        account_id: account.to_string(),
        contract_account_id: "coin.tkn.near".to_string(),
    }
}

#[test]
fn family_membership_goes_by_suffix_and_name() {
    assert!(is_tkn_near_contract("coin.tkn.near"));
    assert!(is_tkn_near_contract("my-coin-2.tkn.near"));
    assert!(!is_tkn_near_contract(".tkn.near"));
    assert!(!is_tkn_near_contract("Coin.tkn.near"));
    assert!(!is_tkn_near_contract("a.b.tkn.near"));
    assert!(!is_tkn_near_contract("coin.tkn.near.other"));
    assert!(!is_tkn_near_contract("tkn.near"));
    assert!(!is_tkn_near_contract("coin\n.tkn.near"));
}

#[test]
fn method_names_are_told_apart() {
    assert_eq!(legacy_method("storage_deposit"), LegacyMethod::StorageDeposit);
    assert_eq!(legacy_method("new"), LegacyMethod::New);
    assert_eq!(legacy_method("near_deposit"), LegacyMethod::NearDeposit);
    assert_eq!(legacy_method("ft_transfer"), LegacyMethod::FtTransfer);
    assert_eq!(legacy_method("ft_transfer_call"), LegacyMethod::FtTransfer);
    assert_eq!(legacy_method("ft_resolve_transfer"), LegacyMethod::FtResolveTransfer);
    assert_eq!(legacy_method("near_withdraw"), LegacyMethod::NearWithdraw);
    assert_eq!(legacy_method("ft_balance_of"), LegacyMethod::Other);
}

#[test]
fn storage_deposit_and_unknown_methods_give_nothing() {
    let mut cache = FtBalanceCache::new(10);
    let o = outcome(vec![], ExecutionStatus::SuccessReceiptId, vec![call("storage_deposit", "{}", 1)]);
    assert_eq!(process(&mut cache, &o), Ok(vec![]));
    let o = outcome(vec![], ExecutionStatus::SuccessReceiptId, vec![call("ft_balance_of", "not json", 0)]);
    assert_eq!(process(&mut cache, &o), Ok(vec![]));
    let o = outcome(vec![], ExecutionStatus::SuccessReceiptId, vec![Action::Other]);
    assert_eq!(process(&mut cache, &o), Ok(vec![]));
}

#[test]
fn new_mints_the_supply_and_seeds_the_cache_with_zero() {
    let mut cache = FtBalanceCache::new(10);
    let o = outcome(
        vec![],
        ExecutionStatus::SuccessValue(String::new()),
        vec![call("new", "{\"owner_id\":\"owner.near\",\"total_supply\":\"1000\",\"metadata\":{}}", 0)],
    );
    let events = process(&mut cache, &o).unwrap();
    assert_eq!(events.len(), 1);
    let e = &events[0];
    assert_eq!(e.cause, Cause::Mint);
    assert_eq!(e.affected_id, "owner.near");
    assert_eq!(e.involved_id, None);
    assert_eq!(e.contract_id, "coin.tkn.near");
    assert_eq!(e.delta, Amount::from_u128(1000));
    assert_eq!(e.memo, None);
    assert_eq!(e.block_height, 70_000_000);
    assert_eq!(e.block_timestamp, 1_650_000_000_000_000_000);
    assert_eq!(e.shard_id, 3);
    assert_eq!(e.event_index, None);
    assert_eq!(e.absolute_amount, None);
    assert_eq!(cache.get(&key("owner.near")), Some(0));
    assert_eq!(cache.get(&key("alice.near")), None);
}

#[test]
fn near_deposit_mints_the_attached_deposit_to_the_caller() {
    let mut cache = FtBalanceCache::new(10);
    let o = outcome(vec![], ExecutionStatus::SuccessValue(String::new()), vec![call("near_deposit", "", 77)]);
    let events = process(&mut cache, &o).unwrap();
    assert_eq!(events.len(), 1);
    assert_eq!(events[0].cause, Cause::Mint);
    assert_eq!(events[0].affected_id, "alice.near");
    assert_eq!(events[0].delta, Amount::from_u128(77));
}

#[test]
fn ft_transfer_gives_a_debit_and_a_credit() {
    let mut cache = FtBalanceCache::new(10);
    for method in ["ft_transfer", "ft_transfer_call"] {
        let o = outcome(
            vec![],
            ExecutionStatus::SuccessValue(String::new()),
            vec![call(method, "{\"receiver_id\":\"bob.near\",\"amount\":\"250\",\"memo\":\"rent\\tmay\"}", 1)],
        );
        let events = process(&mut cache, &o).unwrap();
        assert_eq!(events.len(), 2);
        assert_eq!(events[0].cause, Cause::Transfer);
        assert_eq!(events[1].cause, Cause::Transfer);
        assert_eq!(events[0].affected_id, "alice.near");
        assert_eq!(events[0].involved_id, Some("bob.near".to_string()));
        assert_eq!(events[1].affected_id, "bob.near");
        assert_eq!(events[1].involved_id, Some("alice.near".to_string()));
        assert_eq!(events[0].delta, Amount::from_u128(250).negated());
        assert_eq!(events[1].delta, Amount::from_u128(250));
        assert!(events[0].delta.plus(&events[1].delta).is_zero());
        assert_eq!(events[0].memo, Some("rent\\tmay".to_string()));
        assert_eq!(events[0].memo, events[1].memo);
    }
}

#[test]
fn near_withdraw_burns_from_the_caller() {
    let mut cache = FtBalanceCache::new(10);
    let o = outcome(vec![], ExecutionStatus::SuccessValue(String::new()), vec![call("near_withdraw", "{\"amount\":\"5\"}", 1)]);
    let events = process(&mut cache, &o).unwrap();
    assert_eq!(events.len(), 1);
    assert_eq!(events[0].cause, Cause::Burn);
    assert_eq!(events[0].affected_id, "alice.near");
    assert_eq!(events[0].involved_id, None);
    assert_eq!(events[0].delta, Amount::from_u128(5).negated());
}

fn resolve(logs: Vec<&str>, status: ExecutionStatus) -> RawOutcome {
    outcome(
        logs,
        status,
        vec![call(
            "ft_resolve_transfer",
            "{\"sender_id\":\"alice.near\",\"receiver_id\":\"bob.near\",\"amount\":\"100\"}",
            0,
        )],
    )
}

#[test]
fn resolve_transfer_without_logs_reverts_nothing() {
    let mut cache = FtBalanceCache::new(10);
    let o = resolve(vec![], ExecutionStatus::SuccessValue(base64::encode("\"100\"")));
    assert_eq!(process(&mut cache, &o), Ok(vec![]));
    let o = outcome(vec![], ExecutionStatus::SuccessReceiptId, vec![call("ft_resolve_transfer", "garbage", 0)]);
    assert_eq!(process(&mut cache, &o), Ok(vec![]));
}

#[test]
fn resolve_transfer_with_refund_log_gives_two_transfers() {
    let mut cache = FtBalanceCache::new(10);
    let o = resolve(vec!["Refund 100"], ExecutionStatus::Failure);
    let events = process(&mut cache, &o).unwrap();
    assert_eq!(events.len(), 2);
    assert_eq!(events[0].cause, Cause::Transfer);
    assert_eq!(events[1].cause, Cause::Transfer);
    assert_eq!(events[0].affected_id, "bob.near");
    assert_eq!(events[0].involved_id, Some("alice.near".to_string()));
    assert_eq!(events[0].delta, Amount::from_u128(100).negated());
    assert_eq!(events[1].affected_id, "alice.near");
    assert_eq!(events[1].involved_id, Some("bob.near".to_string()));
    assert_eq!(events[1].delta, Amount::from_u128(100));
}

#[test]
fn resolve_transfer_subtracts_what_was_passed_on() {
    let mut cache = FtBalanceCache::new(10);
    let o = resolve(
        vec!["some other line", "Refund 60 from bob.near to alice.near"],
        ExecutionStatus::SuccessValue(base64::encode("\"40\"")),
    );
    let events = process(&mut cache, &o).unwrap();
    assert_eq!(events.len(), 2);
    assert_eq!(events[0].delta, Amount::from_u128(60).negated());
    assert_eq!(events[1].delta, Amount::from_u128(60));
}

#[test]
fn resolve_transfer_with_deleted_sender_gives_one_burn() {
    let mut cache = FtBalanceCache::new(10);
    let o = resolve(vec!["The account of the sender was deleted"], ExecutionStatus::Failure);
    let events = process(&mut cache, &o).unwrap();
    assert_eq!(events.len(), 1);
    assert_eq!(events[0].cause, Cause::Burn);
    assert_eq!(events[0].affected_id, "bob.near");
    assert_eq!(events[0].involved_id, None);
    assert_eq!(events[0].delta, Amount::from_u128(100).negated());
}

#[test]
fn resolve_transfer_with_other_logs_reverts_nothing() {
    let mut cache = FtBalanceCache::new(10);
    let o = resolve(vec!["refund 100", " Refund 100"], ExecutionStatus::Failure);
    assert_eq!(process(&mut cache, &o), Ok(vec![]));
}

#[test]
fn deleted_sender_line_ahead_of_refund_line_wins() {
    let mut cache = FtBalanceCache::new(10);
    let o = resolve(
        vec!["The account of the sender was deleted", "Refund 100"],
        ExecutionStatus::Failure,
    );
    assert_eq!(process(&mut cache, &o).unwrap().len(), 1);
    let o = resolve(
        vec!["Refund 100", "The account of the sender was deleted"],
        ExecutionStatus::Failure,
    );
    assert_eq!(process(&mut cache, &o).unwrap().len(), 2);
}

#[test]
fn unreadable_arguments_of_a_failed_call_are_passed_over() {
    let mut cache = FtBalanceCache::new(10);
    for status in [ExecutionStatus::Failure, ExecutionStatus::Unknown] {
        for method in ["new", "ft_transfer", "near_withdraw"] {
            let o = outcome(vec![], status.clone(), vec![call(method, "{\"amount\":12}", 0)]);
            assert_eq!(process(&mut cache, &o), Ok(vec![]));
        }
        let o = outcome(vec!["Refund 1"], status.clone(), vec![call("ft_resolve_transfer", "[]", 0)]);
        assert_eq!(process(&mut cache, &o), Ok(vec![]));
        let o = outcome(
            vec![],
            status.clone(),
            vec![Action::FunctionCall {
                method_name: "ft_transfer".to_string(),
                args: "***".to_string(),
                deposit: 0,
            }],
        );
        assert_eq!(process(&mut cache, &o), Ok(vec![]));
    }
}

#[test]
fn unreadable_arguments_of_a_successful_call_are_an_error() {
    let mut cache = FtBalanceCache::new(10);
    for status in [ExecutionStatus::SuccessReceiptId, ExecutionStatus::SuccessValue(String::new())] {
        for method in ["new", "ft_transfer", "ft_transfer_call", "near_withdraw"] {
            let o = outcome(vec![], status.clone(), vec![call(method, "{\"amount\":\"-3\"}", 0)]);
            assert_eq!(process(&mut cache, &o), Err(DecodeError::Arguments));
        }
    }
    let o = outcome(vec!["Refund 1"], ExecutionStatus::SuccessReceiptId, vec![call("ft_resolve_transfer", "{}", 0)]);
    assert_eq!(process(&mut cache, &o), Err(DecodeError::Arguments));
}

#[test]
fn unreadable_return_value_is_an_error() {
    let mut cache = FtBalanceCache::new(10);
    let o = resolve(vec!["Refund 1"], ExecutionStatus::SuccessValue(base64::encode("40")));
    assert_eq!(process(&mut cache, &o), Err(DecodeError::ReturnValue));
    let o = resolve(vec!["Refund 1"], ExecutionStatus::SuccessValue("%%%".to_string()));
    assert_eq!(process(&mut cache, &o), Err(DecodeError::ReturnValue));
}

#[test]
fn collecting_skips_other_contracts_and_outcomes_with_events() {
    let mut cache = FtBalanceCache::new(10);
    let contracts = ContractsHelper::new();
    let transfer = call("ft_transfer", "{\"receiver_id\":\"bob.near\",\"amount\":\"1\"}", 1);
    let mut other = outcome(vec![], ExecutionStatus::SuccessReceiptId, vec![transfer.clone()]);
    other.executor_id = "token.near".to_string();
    let with_event = outcome(
        vec!["EVENT_JSON:{\"standard\":\"nep141\",\"version\":\"1.0.0\",\"event\":\"ft_burn\",\"data\":[]}"],
        ExecutionStatus::SuccessReceiptId,
        vec![transfer.clone()],
    );
    let plain = outcome(
        vec!["EVENT_JSON:{\"standard\":\"nep999\"}"],
        ExecutionStatus::SuccessReceiptId,
        vec![transfer.clone(), call("near_deposit", "", 9)],
    );
    let events = collect_tkn_near(&mut cache, &contracts, 0, &vec![other, with_event, plain], &header()).unwrap();
    assert_eq!(events.len(), 3);
    assert_eq!(events[2].cause, Cause::Mint);
}

#[test]
fn collecting_skips_inconsistent_contracts() {
    let mut cache = FtBalanceCache::new(10);
    let mut contracts = ContractsHelper::new();
    contracts.register_new("coin.tkn.near", "nep141", 1, 1);
    contracts.mark_inconsistent("coin.tkn.near", 2, 2);
    let o = outcome(vec![], ExecutionStatus::SuccessReceiptId, vec![call("near_deposit", "", 9)]);
    assert_eq!(collect_tkn_near(&mut cache, &contracts, 0, &vec![o], &header()), Ok(vec![]));
}

#[test]
fn a_failing_call_fails_the_shard_and_keeps_the_cache() {
    let mut cache = FtBalanceCache::new(10);
    let contracts = ContractsHelper::new();
    let good = outcome(
        vec![],
        ExecutionStatus::SuccessReceiptId,
        vec![call("new", "{\"owner_id\":\"owner.near\",\"total_supply\":\"1\"}", 0)],
    );
    let bad = outcome(vec![], ExecutionStatus::SuccessReceiptId, vec![call("near_withdraw", "{}", 0)]);
    let result = collect_tkn_near(&mut cache, &contracts, 0, &vec![good, bad], &header());
    assert_eq!(result, Err(DecodeError::Arguments));
    assert_eq!(cache.get(&key("owner.near")), None);
}
