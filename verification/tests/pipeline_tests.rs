use matching_engine::classify_message;
use matching_engine::process_new_order;
use matching_engine::replay_ledger;
use matching_engine::should_acknowledge;
use matching_engine::CommandKind;
use matching_engine::EngineError;
use matching_engine::LedgerEntry;
use matching_engine::MatchingEngine;
use matching_engine::OrderWire;
use matching_engine::PublishEngineEvent;

fn wire(outcome: &str, account: &str, side: &str, order_type: &str, price: &str, qty: &str) -> OrderWire {
    OrderWire {
        outcome_id: outcome.to_string(),
        account_id: account.to_string(),
        market_id: "1".to_string(),
        outcome_name: outcome.to_string(),
        side: side.to_string(),
        order_type: order_type.to_string(),
        price: price.to_string(),
        qty_remaining: qty.to_string(),
        qty_original: qty.to_string(),
    }
}

fn depth_of(engine: &MatchingEngine, outcome: &str) -> (Vec<(u64, u64)>, Vec<(u64, u64)>) {
    for st in engine.books.iter() {
        if st.outcome_id == outcome {
            return st.book.depth_levels(10);
        }
    }
    (Vec::new(), Vec::new())
}

fn trade_ids(events: &[PublishEngineEvent]) -> Vec<String> {
    events
        .iter()
        .filter_map(|e| match e {
            PublishEngineEvent::Trade { trade_id, .. } => Some(trade_id.clone()),
            _ => None,
        })
        .collect()
}

#[test]
fn message_dispatch_knows_exactly_one_tag() {
    assert_eq!(classify_message("order.new"), CommandKind::NewOrder);
    assert_eq!(classify_message("order.cancel"), CommandKind::Unknown);
    assert_eq!(classify_message("ORDER.NEW"), CommandKind::Unknown);
    assert_eq!(classify_message(""), CommandKind::Unknown);
}

#[test]
fn acknowledgment_follows_retryability() {
    assert!(should_acknowledge(&Ok(())));
    // non-retryable errors are acknowledged to avoid poison messages
    assert!(should_acknowledge(&Err(EngineError::OrderValidation(
        "bad".to_string()
    ))));
    assert!(should_acknowledge(&Err(EngineError::UnknownEventType(
        "order.weird".to_string()
    ))));
    // retryable infrastructure errors stay pending for redelivery
    assert!(!should_acknowledge(&Err(EngineError::Redis(
        "down".to_string()
    ))));
    assert!(!should_acknowledge(&Err(EngineError::Ledger(
        "append failed".to_string()
    ))));
}

#[test]
fn invalid_command_yields_one_rejection_event() {
    let mut engine = MatchingEngine::new();
    let (events, snaps, outcome) =
        process_new_order(&mut engine, &wire("A", "alice", "Buy", "LIMIT", "0", "10"));
    assert!(matches!(outcome, Err(EngineError::OrderValidation(_))));
    assert_eq!(events.len(), 1);
    assert!(matches!(&events[0], PublishEngineEvent::OrderRejected { .. }));
    assert!(snaps.is_empty());
    // the engine is untouched: no book was created
    assert_eq!(engine.books.len(), 0);
    // and the failure is acknowledged, never retried
    assert!(should_acknowledge(&outcome));
}

#[test]
fn unparsable_command_yields_no_event() {
    let mut engine = MatchingEngine::new();
    let (events, snaps, outcome) =
        process_new_order(&mut engine, &wire("A", "alice", "hold", "LIMIT", "50", "10"));
    assert!(outcome.is_err());
    assert!(events.is_empty());
    assert!(snaps.is_empty());
    assert!(should_acknowledge(&outcome));
}

#[test]
fn replaying_the_ledger_reproduces_the_live_state() {
    let commands = vec![
        wire("A", "alice", "Buy", "LIMIT", "50", "100"),
        wire("A", "bob", "Sell", "LIMIT", "50", "60"),
        wire("B", "carol", "Sell", "LIMIT", "70", "25"),
        wire("B", "dave", "Buy", "MARKET", "0", "10"),
        wire("A", "erin", "Sell", "LIMIT", "52", "40"),
    ];

    // the live path: append to the ledger before applying the effect
    let mut live = MatchingEngine::new();
    let mut ledger: Vec<LedgerEntry> = Vec::new();
    let mut live_trade_ids: Vec<String> = Vec::new();
    for c in &commands {
        ledger.push(LedgerEntry::NewOrder(c.clone()));
        let (events, _snaps, outcome) = process_new_order(&mut live, c);
        assert!(outcome.is_ok());
        live_trade_ids.extend(trade_ids(&events));
    }

    // replay the ledger into a fresh engine
    let mut replayed = MatchingEngine::new();
    replay_ledger(&mut replayed, &ledger);

    for outcome in ["A", "B"] {
        assert_eq!(depth_of(&replayed, outcome), depth_of(&live, outcome));
        let l = live.books.iter().find(|s| s.outcome_id == outcome).unwrap();
        let r = replayed.books.iter().find(|s| s.outcome_id == outcome).unwrap();
        assert_eq!(r.fair_price, l.fair_price);
        assert_eq!(r.total_outcome_volume, l.total_outcome_volume);
        assert_eq!(r.book.total_volume, l.book.total_volume);
        assert_eq!(r.book.total_notional, l.book.total_notional);
        assert_eq!(r.book.last_trade_prices, l.book.last_trade_prices);
        assert_eq!(r.book.next_order_id, l.book.next_order_id);
    }
    assert!(!live_trade_ids.is_empty());
}

#[test]
fn reprocessing_a_redelivered_command_repeats_the_same_effect() {
    // a command read but not acknowledged is redelivered and processed
    // again: from equal states it must produce the very same events,
    // trade identifiers included, so downstream consumers can
    // deduplicate
    let setup = vec![
        wire("A", "alice", "Buy", "LIMIT", "50", "100"),
    ];
    let redelivered = wire("A", "bob", "Sell", "LIMIT", "50", "60");

    let mut first = MatchingEngine::new();
    let mut second = MatchingEngine::new();
    for c in &setup {
        process_new_order(&mut first, c);
        process_new_order(&mut second, c);
    }

    let (events1, _, _) = process_new_order(&mut first, &redelivered);
    let (events2, _, _) = process_new_order(&mut second, &redelivered);

    let ids1 = trade_ids(&events1);
    let ids2 = trade_ids(&events2);
    assert_eq!(ids1.len(), 1);
    assert_eq!(ids1, ids2);
    assert_eq!(depth_of(&first, "A"), depth_of(&second, "A"));
}
