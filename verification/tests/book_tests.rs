use matching_engine::LimitOrderOptions;
use matching_engine::MarketOrderOptions;
use matching_engine::OrderBook;
use matching_engine::OrderBookError;
use matching_engine::OrderStatus;
use matching_engine::Side;
use matching_engine::TimeInForce;

fn limit(side: Side, price: u64, quantity: u64, account: &str) -> LimitOrderOptions {
    LimitOrderOptions {
        side,
        price,
        quantity,
        account_id: account.to_string(),
        time_in_force: Some(TimeInForce::GTC),
        post_only: Some(false),
    }
}

fn market(side: Side, quantity: u64, account: &str) -> MarketOrderOptions {
    MarketOrderOptions {
        side,
        quantity,
        account_id: account.to_string(),
    }
}

#[test]
fn crossing_limit_orders_trade_the_minimum() {
    let mut book = OrderBook::new("A", "A");
    let r1 = book.limit(limit(Side::Sell, 50, 30, "maker")).unwrap();
    assert_eq!(r1.status, OrderStatus::New);
    assert_eq!(r1.executed_qty, 0);

    let r2 = book.limit(limit(Side::Buy, 50, 50, "taker")).unwrap();
    assert_eq!(r2.executed_qty, 30);
    assert_eq!(r2.remaining_qty, 20);
    assert_eq!(r2.status, OrderStatus::PartiallyFilled);
    assert_eq!(r2.fills.len(), 1);
    assert_eq!(r2.fills[0].quantity, 30);
    assert_eq!(r2.fills[0].price, 50);
    assert_eq!(r2.fills[0].maker_account_id, "maker");
    assert_eq!(r2.fills[0].taker_account_id, "taker");

    // the taker's remainder rests on the bid side, the ask side is empty
    assert_eq!(book.best_bid(), Some(50));
    assert_eq!(book.best_ask(), None);
    let (bids, asks) = book.depth_levels(10);
    assert_eq!(bids, vec![(50, 20)]);
    assert!(asks.is_empty());
}

#[test]
fn price_time_priority_matches_the_oldest_first() {
    let mut book = OrderBook::new("A", "A");
    let first = book.limit(limit(Side::Sell, 50, 10, "first")).unwrap();
    let second = book.limit(limit(Side::Sell, 50, 10, "second")).unwrap();
    assert!(first.order_id < second.order_id);

    let r = book.limit(limit(Side::Buy, 50, 15, "taker")).unwrap();
    assert_eq!(r.fills.len(), 2);
    assert_eq!(r.fills[0].maker_order_id, first.order_id);
    assert_eq!(r.fills[0].maker_account_id, "first");
    assert_eq!(r.fills[0].quantity, 10);
    assert_eq!(r.fills[1].maker_order_id, second.order_id);
    assert_eq!(r.fills[1].quantity, 5);
}

#[test]
fn better_priced_level_is_matched_first() {
    let mut book = OrderBook::new("A", "A");
    book.limit(limit(Side::Sell, 60, 10, "worse")).unwrap();
    book.limit(limit(Side::Sell, 55, 10, "better")).unwrap();
    assert_eq!(book.best_ask(), Some(55));

    let r = book.limit(limit(Side::Buy, 60, 12, "taker")).unwrap();
    assert_eq!(r.fills.len(), 2);
    assert_eq!(r.fills[0].price, 55);
    assert_eq!(r.fills[0].quantity, 10);
    assert_eq!(r.fills[1].price, 60);
    assert_eq!(r.fills[1].quantity, 2);
}

#[test]
fn non_crossing_limit_rests_without_fills() {
    let mut book = OrderBook::new("A", "A");
    book.limit(limit(Side::Sell, 60, 10, "maker")).unwrap();
    let r = book.limit(limit(Side::Buy, 50, 5, "taker")).unwrap();
    assert_eq!(r.status, OrderStatus::New);
    assert!(r.fills.is_empty());
    assert_eq!(book.best_bid(), Some(50));
    assert_eq!(book.best_ask(), Some(60));
}

#[test]
fn market_order_discards_unmatched_remainder() {
    let mut book = OrderBook::new("A", "A");
    book.limit(limit(Side::Sell, 50, 30, "maker")).unwrap();

    let r = book.market(market(Side::Buy, 100, "taker")).unwrap();
    assert_eq!(r.executed_qty, 30);
    assert_eq!(r.remaining_qty, 70);
    assert_eq!(r.status, OrderStatus::PartiallyFilled);

    // nothing rests: the remainder is discarded, both sides untouched
    assert_eq!(book.best_bid(), None);
    assert_eq!(book.best_ask(), None);
}

#[test]
fn market_order_against_empty_book_is_cancelled() {
    let mut book = OrderBook::new("A", "A");
    let r = book.market(market(Side::Buy, 10, "taker")).unwrap();
    assert_eq!(r.status, OrderStatus::Canceled);
    assert!(r.fills.is_empty());
    assert_eq!(r.executed_qty, 0);
}

#[test]
fn empty_levels_never_persist() {
    let mut book = OrderBook::new("A", "A");
    book.limit(limit(Side::Sell, 50, 10, "maker")).unwrap();
    book.limit(limit(Side::Buy, 50, 10, "taker")).unwrap();
    let (bids, asks) = book.depth_levels(10);
    assert!(bids.is_empty());
    assert!(asks.is_empty());
}

#[test]
fn placement_validation_errors() {
    let mut book = OrderBook::new("A", "A");
    assert_eq!(
        book.limit(limit(Side::Buy, 50, 0, "a")).unwrap_err(),
        OrderBookError::InvalidQuantity
    );
    assert_eq!(
        book.limit(limit(Side::Buy, 0, 10, "a")).unwrap_err(),
        OrderBookError::InvalidPrice
    );
    assert_eq!(
        book.limit(limit(Side::Buy, 2_000_000_000, 10, "a")).unwrap_err(),
        OrderBookError::InvalidPrice
    );
    assert_eq!(
        book.limit(limit(Side::Buy, 50, 10, "")).unwrap_err(),
        OrderBookError::EmptyAccount
    );
    assert_eq!(
        book.market(market(Side::Sell, 0, "a")).unwrap_err(),
        OrderBookError::InvalidQuantity
    );
    assert_eq!(
        book.market(market(Side::Sell, 5, "")).unwrap_err(),
        OrderBookError::EmptyAccount
    );
    assert_eq!(OrderBookError::IdsExhausted.as_str(), "order ids exhausted");
}

#[test]
fn representative_price_cases() {
    let mut book = OrderBook::new("A", "A");
    assert_eq!(book.representative_price(), None);

    book.limit(limit(Side::Buy, 40, 10, "a")).unwrap();
    assert_eq!(book.representative_price(), Some(40));

    book.limit(limit(Side::Sell, 60, 10, "b")).unwrap();
    assert_eq!(book.representative_price(), Some(50));

    // trade everything away: the last trade price remains
    book.limit(limit(Side::Sell, 40, 10, "c")).unwrap();
    book.limit(limit(Side::Buy, 60, 10, "d")).unwrap();
    assert_eq!(book.best_bid(), None);
    assert_eq!(book.best_ask(), None);
    assert_eq!(book.representative_price(), Some(60));
}

#[test]
fn totals_accumulate_volume_and_notional() {
    let mut book = OrderBook::new("A", "A");
    book.limit(limit(Side::Sell, 50, 30, "maker")).unwrap();
    book.limit(limit(Side::Buy, 50, 10, "taker")).unwrap();
    assert_eq!(book.total_volume, 10);
    assert_eq!(book.total_notional, 500);
    assert_eq!(book.last_trade_prices, vec![50]);
}

#[test]
fn cancel_removes_resting_order_and_its_level() {
    let mut book = OrderBook::new("A", "A");
    let placed = book.limit(limit(Side::Buy, 50, 10, "alice")).unwrap();

    // wrong account: not found, nothing changes
    let miss = book.remove_matching(placed.order_id, Some(&"bob".to_string()));
    assert!(miss.is_none());
    assert_eq!(book.best_bid(), Some(50));

    let hit = book.remove_matching(placed.order_id, Some(&"alice".to_string()));
    let removed = hit.unwrap();
    assert_eq!(removed.order_id, placed.order_id);
    assert_eq!(removed.qty_remaining, 10);
    assert_eq!(book.best_bid(), None);
}

#[test]
fn snapshot_restores_structure_exactly() {
    let mut book = OrderBook::new("A", "A");
    book.limit(limit(Side::Buy, 48, 7, "a")).unwrap();
    book.limit(limit(Side::Buy, 50, 10, "b")).unwrap();
    book.limit(limit(Side::Sell, 55, 3, "c")).unwrap();

    let snap = book.snapshot();
    assert!(snap.is_well_formed());

    let mut rebuilt = OrderBook::new("A", "A");
    rebuilt.restore_snapshot(snap);
    assert_eq!(rebuilt.depth_levels(10), book.depth_levels(10));
    assert_eq!(rebuilt.best_bid(), book.best_bid());
    assert_eq!(rebuilt.best_ask(), book.best_ask());
    assert_eq!(rebuilt.next_order_id, book.next_order_id);
}

#[test]
fn depth_is_truncated_to_the_requested_levels() {
    let mut book = OrderBook::new("A", "A");
    book.limit(limit(Side::Buy, 50, 1, "a")).unwrap();
    book.limit(limit(Side::Buy, 49, 2, "b")).unwrap();
    book.limit(limit(Side::Buy, 48, 3, "c")).unwrap();
    let (bids, _) = book.depth_levels(2);
    assert_eq!(bids, vec![(50, 1), (49, 2)]);
    let (bids, _) = book.depth_levels(0);
    assert!(bids.is_empty());
}

#[test]
fn level_quantities_aggregate_queued_orders() {
    let mut book = OrderBook::new("A", "A");
    book.limit(limit(Side::Sell, 50, 4, "a")).unwrap();
    book.limit(limit(Side::Sell, 50, 6, "b")).unwrap();
    let (_, asks) = book.depth_levels(10);
    assert_eq!(asks, vec![(50, 10)]);
}
