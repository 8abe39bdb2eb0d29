use indexer_events::contracts::{Contract, ContractsHelper};

fn row(id: &str, first_height: u64, inconsistent_at: Option<u64>) -> Contract {
    Contract {
        contract_account_id: id.to_string(),
        standard: "nep141".to_string(),
        first_event_at_timestamp: first_height * 10,
        first_event_at_block_height: first_height,
        inconsistency_found_at_timestamp: inconsistent_at.map(|h| h * 10),
        inconsistency_found_at_block_height: inconsistent_at,
        should_add_to_db: true,
    }
}

#[test]
fn the_table_is_called_contracts() {
    assert_eq!(Contract::name(), "contracts");
}

#[test]
fn an_unknown_contract_is_not_inconsistent() {
    let contracts = ContractsHelper::new();
    assert!(!contracts.is_inconsistent("token.near"));
    assert!(!contracts.is_known("token.near"));
}

#[test]
fn registering_twice_is_registering_once() {
    let mut contracts = ContractsHelper::new();
    contracts.register_new("token.near", "nep141", 10, 100);
    contracts.register_new("token.near", "other", 20, 200);
    assert!(contracts.is_known("token.near"));
    let pending = contracts.take_pending();
    assert_eq!(pending.len(), 1);
    assert_eq!(pending[0].standard, "nep141");
    assert_eq!(pending[0].first_event_at_block_height, 10);
    assert_eq!(pending[0].first_event_at_timestamp, 100);
    assert_eq!(pending[0].inconsistency_found_at_block_height, None);
    assert!(contracts.take_pending().is_empty());
}

#[test]
fn marking_is_one_way_and_keeps_the_first_finding() {
    let mut contracts = ContractsHelper::new();
    contracts.register_new("token.near", "nep141", 10, 100);
    contracts.take_pending();
    contracts.mark_inconsistent("token.near", 30, 300);
    assert!(contracts.is_inconsistent("token.near"));
    contracts.mark_inconsistent("token.near", 40, 400);
    contracts.register_new("token.near", "nep141", 50, 500);
    assert!(contracts.is_inconsistent("token.near"));
    let pending = contracts.take_pending();
    assert_eq!(pending.len(), 1);
    assert_eq!(pending[0].inconsistency_found_at_block_height, Some(30));
    assert_eq!(pending[0].inconsistency_found_at_timestamp, Some(300));
    assert_eq!(pending[0].first_event_at_block_height, 10);
}

#[test]
fn marking_an_unknown_contract_changes_nothing() {
    let mut contracts = ContractsHelper::new();
    contracts.mark_inconsistent("token.near", 30, 300);
    assert!(!contracts.is_inconsistent("token.near"));
    assert!(!contracts.is_known("token.near"));
    assert!(contracts.take_pending().is_empty());
}

#[test]
fn a_run_starts_with_the_rows_seen_up_to_its_first_block() {
    let stored = vec![
        row("old.near", 5, None),
        row("bad.near", 7, Some(9)),
        row("late.near", 11, Some(12)),
        row("old.near", 6, Some(8)),
    ];
    let mut contracts = ContractsHelper::restore(&stored, 10);
    assert!(contracts.is_known("old.near"));
    assert!(!contracts.is_inconsistent("old.near"));
    assert!(contracts.is_inconsistent("bad.near"));
    assert!(!contracts.is_known("late.near"));
    assert!(contracts.take_pending().is_empty());
}
