use indexer_events::event_types::{FtMintData, NearEvent, Nep141Event, Nep141EventKind};
use indexer_events::events::extract_events;
use indexer_events::outcome::{ExecutionStatus, RawOutcome};

fn outcome_with_logs(logs: Vec<&str>) -> RawOutcome {
    RawOutcome {
        receipt_id: "r1".to_string(),
        executor_id: "token.near".to_string(),
        predecessor_id: "alice.near".to_string(),
        logs: logs.into_iter().map(|l| l.to_string()).collect(),
        status: ExecutionStatus::SuccessReceiptId,
        actions: vec![],
    }
}

#[test]
fn mint_event_is_read_from_a_log_line() {
    let outcome = outcome_with_logs(vec![
        "plain log",
        "  EVENT_JSON: {\"standard\":\"nep141\",\"version\":\"1.0.0\",\"event\":\"ft_mint\",\"data\":[{\"owner_id\":\"bob.near\",\"amount\":\"1000\"}]}  ",
        "EVENT_JSON:{broken",
    ]);
    let events = extract_events(&outcome);
    assert_eq!(
        events,
        vec![NearEvent::Nep141(Nep141Event {
            version: "1.0.0".to_string(),
            event_kind: Nep141EventKind::FtMint(vec![FtMintData {
                owner_id: "bob.near".to_string(),
                amount: 1000,
                memo: None,
            }]),
        })]
    );
}
