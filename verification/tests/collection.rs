use indexer_events::amount::Amount;
use indexer_events::coin::Cause;
use indexer_events::coin_events::collect_coin_events;
use indexer_events::event_types::{
    FtBurnData, FtMintData, FtTransferData, NearEvent, Nep141Event, Nep141EventKind,
    Nep171EventKind, NftBurnData, NftMintData, NftTransferData, Record,
};
use indexer_events::events::{
    checked_coin_events_count, collect_events, event_of_log, extract_events, get_coin_events_count,
    get_nft_events_count, Event,
};
use indexer_events::json::{Json, Member};
use indexer_events::outcome::{BlockHeader, ExecutionStatus, RawOutcome};
use indexer_events::sequencer::enumerate_events;

fn header() -> BlockHeader {
    BlockHeader { height: 42, timestamp: 4_200, hash: "h".to_string(), prev_hash: "p".to_string() }
}

fn outcome(contract: &str, logs: Vec<&str>) -> RawOutcome {
    RawOutcome {
        receipt_id: "r".to_string(),
        executor_id: contract.to_string(),
        predecessor_id: "caller.near".to_string(),
        logs: logs.into_iter().map(|l| l.to_string()).collect(),
        status: ExecutionStatus::SuccessReceiptId,
        actions: vec![],
    }
}

const MINT: &str = "EVENT_JSON:{\"standard\":\"nep141\",\"version\":\"1.0.0\",\"event\":\"ft_mint\",\"data\":[{\"owner_id\":\"bob.near\",\"amount\":\"300\",\"memo\":\"first\"}]}";
const TRANSFER: &str = "EVENT_JSON:{\"standard\":\"nep141\",\"version\":\"1.0.0\",\"event\":\"ft_transfer\",\"data\":[{\"old_owner_id\":\"bob.near\",\"new_owner_id\":\"carol.near\",\"amount\":\"120\"}]}";
const BURN: &str = "EVENT_JSON:{\"standard\":\"nep141\",\"version\":\"1.0.0\",\"event\":\"ft_burn\",\"data\":[{\"owner_id\":\"carol.near\",\"amount\":\"20\",\"memo\":null}]}";
const NFT_MINT: &str = "EVENT_JSON:{\"standard\":\"nep171\",\"version\":\"1.0.0\",\"event\":\"nft_mint\",\"data\":[{\"owner_id\":\"bob.near\",\"token_ids\":[\"a\",\"b\"]},{\"owner_id\":\"dan.near\",\"token_ids\":[]}]}";

fn mint(owner: &str, amount: u128) -> FtMintData {
    FtMintData { owner_id: owner.to_string(), amount, memo: None }
}

fn transfer(from: &str, to: &str, amount: u128) -> FtTransferData {
    FtTransferData { old_owner_id: from.to_string(), new_owner_id: to.to_string(), amount, memo: None }
}

#[test]
fn standards_have_their_names() {
    assert_eq!(Event::Nep141.name(), "nep141");
    assert_eq!(Event::Nep171.name(), "nep171");
}

#[test]
fn a_transfer_counts_twice() {
    assert_eq!(get_coin_events_count(&Nep141EventKind::FtMint(vec![mint("a", 1), mint("b", 2)])), 2);
    assert_eq!(
        get_coin_events_count(&Nep141EventKind::FtTransfer(vec![
            transfer("a", "b", 1),
            transfer("b", "c", 1),
            transfer("c", "a", 1)
        ])),
        6
    );
    assert_eq!(
        get_coin_events_count(&Nep141EventKind::FtBurn(vec![FtBurnData {
            owner_id: "a".to_string(),
            amount: 1,
            memo: None
        }])),
        1
    );
    assert_eq!(get_coin_events_count(&Nep141EventKind::FtTransfer(vec![])), 0);
    assert_eq!(checked_coin_events_count(&Nep141EventKind::FtTransfer(vec![transfer("a", "b", 1)])), Some(2));
}

#[test]
fn every_record_of_a_non_fungible_event_counts_once() {
    let mint = NftMintData { owner_id: "a".to_string(), token_ids: vec!["1".to_string(), "2".to_string()], memo: None };
    assert_eq!(get_nft_events_count(&Nep171EventKind::NftMint(vec![mint.clone(), mint])), 2);
    let moved = NftTransferData {
        authorized_id: None,
        old_owner_id: "a".to_string(),
        new_owner_id: "b".to_string(),
        token_ids: vec!["1".to_string()],
        memo: None,
    };
    assert_eq!(get_nft_events_count(&Nep171EventKind::NftTransfer(vec![moved])), 1);
    let burnt = NftBurnData { owner_id: "a".to_string(), authorized_id: None, token_ids: vec![], memo: None };
    assert_eq!(get_nft_events_count(&Nep171EventKind::NftBurn(vec![burnt.clone(), burnt.clone(), burnt])), 3);
    assert_eq!(get_nft_events_count(&Nep171EventKind::NftBurn(vec![])), 0);
}

#[test]
fn events_are_read_in_log_order_and_bad_lines_are_passed_over() {
    let o = outcome(
        "token.near",
        vec![
            TRANSFER,
            "EVENT_JSON:{\"standard\":\"nep141\",\"version\":\"1.0.0\",\"event\":\"ft_mint\",\"data\":[{\"owner_id\":\"bob.near\",\"amount\":\"three\"}]}",
            "EVENT_JSON:{\"standard\":\"nep141\",\"version\":\"1.0.0\",\"event\":\"ft_mint\"}",
            "EVENT_JSON:{\"standard\":\"nep141\",\"event\":\"ft_mint\",\"data\":[]}",
            "EVENT_JSON:{\"standard\":\"nep245\",\"version\":\"1.0.0\",\"event\":\"mt_mint\",\"data\":[]}",
            "EVENT_JSON:{\"standard\":\"nep141\",\"version\":\"1.0.0\",\"event\":\"ft_mint\",\"data\":[{\"owner_id\":\"bob.near\",\"amount\":\"3\",\"memo\":7}]}",
            "EVENT_JSON:[1,2]",
            "EVENT_JSON:",
            "Transfer 120 from bob.near to carol.near",
            MINT,
            NFT_MINT,
        ],
    );
    let events = extract_events(&o);
    assert_eq!(events.len(), 3);
    assert!(matches!(&events[0], NearEvent::Nep141(e) if matches!(e.event_kind, Nep141EventKind::FtTransfer(_))));
    assert!(matches!(&events[1], NearEvent::Nep141(e) if matches!(e.event_kind, Nep141EventKind::FtMint(_))));
    assert!(matches!(&events[2], NearEvent::Nep171(e) if matches!(&e.event_kind, Nep171EventKind::NftMint(v) if v.len() == 2)));
}

#[test]
fn unknown_members_are_passed_over_and_an_empty_list_is_an_event() {
    let line = "EVENT_JSON:{\"extra\":{\"x\":[1,2.5,true,null]},\"standard\":\"nep141\",\"version\":\"2.0\",\"event\":\"ft_burn\",\"data\":[]}";
    assert_eq!(
        event_of_log(line),
        Some(NearEvent::Nep141(Nep141Event { version: "2.0".to_string(), event_kind: Nep141EventKind::FtBurn(vec![]) }))
    );
}

#[test]
fn one_mint_then_one_transfer_take_the_indices_zero_one_two() {
    let outcomes = vec![outcome("token.near", vec![MINT]), outcome("token.near", vec![TRANSFER])];
    let collected = collect_events(&outcomes).unwrap();
    assert_eq!(collected.ft.len(), 2);
    assert_eq!(collected.ft[0].starting_index, 0);
    assert_eq!(collected.ft[0].outcome, 0);
    assert_eq!(collected.ft[1].starting_index, 1);
    assert_eq!(collected.ft[1].outcome, 1);
    let events = collect_coin_events(&collected.ft, &outcomes, &header(), 2);
    assert_eq!(events.len(), 3);
    assert_eq!(events.iter().map(|e| e.event_index).collect::<Vec<_>>(), vec![Some(0), Some(1), Some(2)]);
    assert_eq!(events.iter().map(|e| e.cause).collect::<Vec<_>>(), vec![Cause::Mint, Cause::Transfer, Cause::Transfer]);
    let mut again = events.clone();
    enumerate_events(&mut again);
    assert_eq!(again, events);
}

#[test]
fn each_standard_counts_its_own_indices() {
    let outcomes = vec![
        outcome("token.near", vec![TRANSFER, NFT_MINT, "noise", BURN]),
        outcome("other.near", vec![NFT_MINT, MINT]),
    ];
    let collected = collect_events(&outcomes).unwrap();
    assert_eq!(collected.ft.iter().map(|e| (e.outcome, e.starting_index)).collect::<Vec<_>>(), vec![(0, 0), (0, 2), (1, 3)]);
    assert_eq!(collected.nft.iter().map(|e| (e.outcome, e.starting_index)).collect::<Vec<_>>(), vec![(0, 0), (1, 2)]);
    assert_eq!(collect_events(&vec![]).map(|c| (c.ft.len(), c.nft.len())), Some((0, 0)));
}

#[test]
fn reported_events_become_balance_changes() {
    let outcomes = vec![outcome("token.near", vec![MINT, TRANSFER, BURN])];
    let collected = collect_events(&outcomes).unwrap();
    let events = collect_coin_events(&collected.ft, &outcomes, &header(), 2);
    assert_eq!(events.len(), 4);
    let e = &events[0];
    assert_eq!((e.affected_id.as_str(), e.involved_id.clone(), e.cause), ("bob.near", None, Cause::Mint));
    assert_eq!(e.delta, Amount::from_u128(300));
    assert_eq!(e.memo, Some("first".to_string()));
    assert_eq!(e.contract_id, "token.near");
    assert_eq!((e.block_height, e.block_timestamp, e.shard_id), (42, 4_200, 2));
    assert_eq!(e.absolute_amount, None);
    let e = &events[1];
    assert_eq!((e.affected_id.as_str(), e.involved_id.clone(), e.cause), ("bob.near", Some("carol.near".to_string()), Cause::Transfer));
    assert_eq!(e.delta, Amount::from_u128(120).negated());
    let e = &events[2];
    assert_eq!((e.affected_id.as_str(), e.involved_id.clone(), e.cause), ("carol.near", Some("bob.near".to_string()), Cause::Transfer));
    assert_eq!(e.delta, Amount::from_u128(120));
    assert_eq!(events[1].memo, events[2].memo);
    let e = &events[3];
    assert_eq!((e.affected_id.as_str(), e.involved_id.clone(), e.cause), ("carol.near", None, Cause::Burn));
    assert_eq!(e.delta, Amount::from_u128(20).negated());
    assert_eq!(e.memo, None);
    assert_eq!(events.iter().map(|e| e.event_index).collect::<Vec<_>>(), vec![Some(0), Some(1), Some(2), Some(3)]);
}

fn write(json: &Json, out: &mut String) {
    match json {
        Json::Null => out.push_str("null"),
        Json::Bool(b) => out.push_str(if *b { "true" } else { "false" }),
        Json::Number(n) => out.push_str(n),
        Json::Text(t) => {
            out.push('"');
            for c in t.chars() {
                match c {
                    '"' => out.push_str("\\\""),
                    '\\' => out.push_str("\\\\"),
                    '\n' => out.push_str("\\n"),
                    _ => out.push(c),
                }
            }
            out.push('"');
        }
        Json::List(items) => {
            out.push('[');
            for (i, item) in items.iter().enumerate() {
                if i > 0 {
                    out.push(',');
                }
                write(item, out);
            }
            out.push(']');
        }
        Json::Object(members) => {
            out.push('{');
            for (i, Member { name, value }) in members.iter().enumerate() {
                if i > 0 {
                    out.push(',');
                }
                write(&Json::Text(name.clone()), out);
                out.push(':');
                write(value, out);
            }
            out.push('}');
        }
    }
}

#[test]
fn an_event_written_and_read_again_is_the_same_event() {
    let events = vec![
        NearEvent::Nep141(Nep141Event {
            version: "1.0.0".to_string(),
            event_kind: Nep141EventKind::FtTransfer(vec![
                FtTransferData {
                    old_owner_id: "bob.near".to_string(),
                    new_owner_id: "carol.near".to_string(),
                    amount: u128::MAX,
                    memo: Some("say \"hi\"\n".to_string()),
                },
                transfer("a", "b", 0),
            ]),
        }),
        NearEvent::Nep141(Nep141Event { version: "1.0.0".to_string(), event_kind: Nep141EventKind::FtMint(vec![mint("m", 5)]) }),
        NearEvent::Nep141(Nep141Event { version: "1.0.0".to_string(), event_kind: Nep141EventKind::FtBurn(vec![]) }),
        NearEvent::Nep171(indexer_events::event_types::Nep171Event {
            version: "1.0.0".to_string(),
            event_kind: Nep171EventKind::NftTransfer(vec![NftTransferData {
                authorized_id: Some("market.near".to_string()),
                old_owner_id: "a".to_string(),
                new_owner_id: "b".to_string(),
                token_ids: vec!["t1".to_string(), "t2".to_string()],
                memo: None,
            }]),
        }),
    ];
    for event in events {
        let document = event.encode();
        assert_eq!(NearEvent::decode(&document), Some(event.clone()));
        let mut line = String::from("EVENT_JSON:");
        write(&document, &mut line);
        assert_eq!(event_of_log(&line), Some(event));
    }
}

#[test]
fn documents_are_read_as_trees() {
    let doc = Json::parse(b" {\"b\": [1, -2.50, 1e3, true, null, \"x\"], \"a\": {}} ").unwrap();
    assert_eq!(doc.member("a"), Some(&Json::Object(vec![])));
    assert_eq!(
        doc.member("b").and_then(|l| l.items()).map(|items| items.len()),
        Some(6)
    );
    assert_eq!(doc.member("b").unwrap().items().unwrap()[0], Json::Number("1".to_string()));
    assert_eq!(doc.member("b").unwrap().items().unwrap()[5].text(), Some(&"x".to_string()));
    assert_eq!(doc.member("c"), None);
    assert_eq!(doc.text_member("a"), None);
    assert_eq!(doc.optional_text_member("c"), Some(None));
    assert_eq!(doc.optional_text_member("a"), None);
    assert_eq!(Json::parse(b"{\"a\":1,}"), None);
    assert_eq!(Json::parse(b""), None);
    assert_eq!(Json::parse(b"{} {}"), None);
    assert_eq!(Json::parse(b"\"\\u00e9\""), Some(Json::Text("\u{e9}".to_string())));
    assert_eq!(Json::parse(&[0x22, 0xff, 0x22]), None);
}
