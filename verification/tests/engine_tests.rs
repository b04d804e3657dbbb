use matching_engine::MatchingEngine;
use matching_engine::Order;
use matching_engine::OrderType;
use matching_engine::PublishEngineEvent;
use matching_engine::Side;

fn order(
    outcome: &str,
    account: &str,
    side: Side,
    order_type: OrderType,
    price: u64,
    qty: u64,
) -> Order {
    Order {
        order_id: 0,
        market_id: 1,
        outcome_id: outcome.to_string(),
        account_id: account.to_string(),
        side,
        order_type,
        price,
        qty_remaining: qty,
        qty_original: qty,
    }
}

fn depth_of(engine: &MatchingEngine, outcome: &str) -> (Vec<(u64, u64)>, Vec<(u64, u64)>) {
    for st in engine.books.iter() {
        if st.outcome_id == outcome {
            return st.book.depth_levels(10);
        }
    }
    (Vec::new(), Vec::new())
}

#[test]
fn end_to_end_scenario() {
    let mut engine = MatchingEngine::new();

    // Limit Buy 100@50 on outcome A: placed, depth shows bid 50 x 100
    let buy = order("A", "alice", Side::Buy, OrderType::Limit, 50, 100);
    let (events, _snaps) = engine.order_execution(&buy);
    assert_eq!(events.len(), 1);
    match &events[0] {
        PublishEngineEvent::OrderPlaced { outcome_id, quantity, price, .. } => {
            assert_eq!(outcome_id, "A");
            assert_eq!(*quantity, 100);
            assert_eq!(*price, 50);
        }
        other => panic!("expected OrderPlaced, got {:?}", other),
    }
    let (bids, asks) = depth_of(&engine, "A");
    assert_eq!(bids, vec![(50, 100)]);
    assert!(asks.is_empty());

    // Limit Sell 60@50: one trade at 50 for 60, the sell fully filled,
    // and the bid level keeps 40
    let sell = order("A", "bob", Side::Sell, OrderType::Limit, 50, 60);
    let (events, _snaps) = engine.order_execution(&sell);
    assert_eq!(events.len(), 2);
    match &events[0] {
        PublishEngineEvent::OrderFilled { account_id, .. } => {
            assert_eq!(account_id, "bob");
        }
        other => panic!("expected OrderFilled, got {:?}", other),
    }
    match &events[1] {
        PublishEngineEvent::Trade { price, quantity, filled_account_id, .. } => {
            assert_eq!(*price, 50);
            assert_eq!(*quantity, 60);
            assert_eq!(filled_account_id, "alice");
        }
        other => panic!("expected Trade, got {:?}", other),
    }
    let (bids, asks) = depth_of(&engine, "A");
    assert_eq!(bids, vec![(50, 40)]);
    assert!(asks.is_empty());
}

#[test]
fn fair_price_and_volume_follow_trades() {
    let mut engine = MatchingEngine::new();
    engine.order_execution(&order("A", "alice", Side::Buy, OrderType::Limit, 50, 100));
    engine.order_execution(&order("A", "bob", Side::Sell, OrderType::Limit, 50, 60));

    let st = engine.books.iter().find(|s| s.outcome_id == "A").unwrap();
    assert_eq!(st.fair_price, 50);
    assert_eq!(st.total_outcome_volume, 60 * 50);
}

#[test]
fn cancel_after_fill_is_a_noop() {
    let mut engine = MatchingEngine::new();
    let (events, _) = engine.order_execution(&order("A", "alice", Side::Buy, OrderType::Limit, 50, 60));
    let buy_id = match &events[0] {
        PublishEngineEvent::OrderPlaced { order_id, .. } => *order_id,
        other => panic!("expected OrderPlaced, got {:?}", other),
    };

    // fully fill the resting buy
    engine.order_execution(&order("A", "bob", Side::Sell, OrderType::Limit, 50, 60));

    // its quantity reached zero: cancelling finds nothing
    let touched = engine.find_and_remove(buy_id, &"alice".to_string());
    assert!(touched.is_none());
}

#[test]
fn cancel_resting_order_reports_the_outcome() {
    let mut engine = MatchingEngine::new();
    let (events, _) = engine.order_execution(&order("A", "alice", Side::Buy, OrderType::Limit, 50, 60));
    let buy_id = match &events[0] {
        PublishEngineEvent::OrderPlaced { order_id, .. } => *order_id,
        other => panic!("expected OrderPlaced, got {:?}", other),
    };

    let touched = engine.find_and_remove(buy_id, &"alice".to_string());
    assert_eq!(touched.as_deref(), Some("A"));
    let (bids, _) = depth_of(&engine, "A");
    assert!(bids.is_empty());

    // cancelling the same order again is a benign no-op
    assert!(engine.find_and_remove(buy_id, &"alice".to_string()).is_none());
}

#[test]
fn stats_count_books_and_levels() {
    let mut engine = MatchingEngine::new();
    engine.order_execution(&order("A", "alice", Side::Buy, OrderType::Limit, 50, 10));
    engine.order_execution(&order("A", "alice", Side::Buy, OrderType::Limit, 49, 10));
    engine.order_execution(&order("B", "bob", Side::Sell, OrderType::Limit, 70, 5));

    let stats = engine.stats();
    assert_eq!(stats.total_books, 2);
    assert_eq!(stats.books.len(), 2);
    let a = stats.books.iter().find(|(id, _)| id == "A").unwrap();
    assert_eq!(a.1.bid_levels, 2);
    assert_eq!(a.1.ask_levels, 0);
    let b = stats.books.iter().find(|(id, _)| id == "B").unwrap();
    assert_eq!(b.1.bid_levels, 0);
    assert_eq!(b.1.ask_levels, 1);
}

#[test]
fn market_probabilities_normalize() {
    let mut engine = MatchingEngine::new();
    // representative prices 40 and 60 in minor units (0.40 and 0.60)
    engine.order_execution(&order("X", "alice", Side::Buy, OrderType::Limit, 40, 10));
    engine.order_execution(&order("Y", "bob", Side::Buy, OrderType::Limit, 60, 10));

    let probs = engine.market_probabilities(1);
    assert_eq!(probs.numerators, vec![40, 60]);
    assert_eq!(probs.denominator, 100);
    let as_floats: Vec<f64> = probs
        .numerators
        .iter()
        .map(|n| *n as f64 / probs.denominator as f64)
        .collect();
    assert_eq!(as_floats, vec![0.4, 0.6]);
    assert_eq!(as_floats.iter().sum::<f64>(), 1.0);
}

#[test]
fn zero_prices_give_zero_probabilities() {
    let mut engine = MatchingEngine::new();
    // books exist but hold no orders and saw no trade: both prices zero
    let (events, _) = engine.order_execution(&order("X", "a", Side::Buy, OrderType::Market, 0, 5));
    assert!(matches!(&events[0], PublishEngineEvent::OrderCancelled { .. }));
    engine.order_execution(&order("Y", "b", Side::Sell, OrderType::Market, 0, 5));

    let probs = engine.market_probabilities(1);
    assert_eq!(probs.numerators, vec![0, 0]);
    assert_eq!(probs.denominator, 0);
    // by convention: all probabilities are zero, never a division by zero
    let as_floats: Vec<f64> = probs
        .numerators
        .iter()
        .map(|n| {
            if probs.denominator == 0 {
                0.0
            } else {
                *n as f64 / probs.denominator as f64
            }
        })
        .collect();
    assert_eq!(as_floats, vec![0.0, 0.0]);
}

#[test]
fn unknown_market_has_no_outcomes() {
    let engine = MatchingEngine::new();
    let probs = engine.market_probabilities(42);
    assert!(probs.outcome_ids.is_empty());
    assert!(probs.numerators.is_empty());
    assert_eq!(probs.denominator, 0);
}

#[test]
fn recover_path_skips_matching() {
    let mut engine = MatchingEngine::new();
    // a recovered open order rests even though it would cross: the
    // bootstrap path trusts prior matching outcomes
    let mut sell = order("A", "bob", Side::Sell, OrderType::Limit, 50, 10);
    sell.order_id = 77;
    engine.handle_recover_order(sell);
    let mut buy = order("A", "alice", Side::Buy, OrderType::Limit, 55, 10);
    buy.order_id = 78;
    buy.qty_remaining = 4;
    engine.handle_recover_order(buy);

    let (bids, asks) = depth_of(&engine, "A");
    assert_eq!(bids, vec![(55, 4)]);
    assert_eq!(asks, vec![(50, 10)]);
}

#[test]
fn snapshots_rebuild_engine_books() {
    let mut engine = MatchingEngine::new();
    engine.order_execution(&order("A", "alice", Side::Buy, OrderType::Limit, 50, 100));
    engine.order_execution(&order("A", "bob", Side::Sell, OrderType::Limit, 60, 30));
    let (_, snaps) = engine.order_execution(&order("B", "carol", Side::Buy, OrderType::Limit, 20, 5));

    let entries: Vec<(String, matching_engine::Snapshot)> = snaps
        .into_iter()
        .map(|s| (s.outcome_id, s.snapshot))
        .collect();

    let mut rebuilt = MatchingEngine::new();
    rebuilt.apply_snapshots(entries).unwrap();
    assert_eq!(depth_of(&rebuilt, "A"), depth_of(&engine, "A"));
    assert_eq!(depth_of(&rebuilt, "B"), depth_of(&engine, "B"));
}

#[test]
fn unsound_snapshot_fails_snapshot_application() {
    let mut engine = MatchingEngine::new();
    let bad = matching_engine::Snapshot {
        bids: vec![matching_engine::PriceLevel { price: 50, orders: Vec::new() }],
        asks: Vec::new(),
        next_order_id: 9,
    };
    let result = engine.apply_snapshots(vec![("A".to_string(), bad)]);
    assert!(matches!(result, Err(matching_engine::EngineError::Snapshot(_))));
    assert_eq!(engine.books.len(), 0);
}
