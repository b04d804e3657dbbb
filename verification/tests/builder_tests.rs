use matching_engine::JournalOp;
use matching_engine::LimitOrderOptions;
use matching_engine::OrderBook;
use matching_engine::OrderBookBuilder;
use matching_engine::OrderBookOptions;
use matching_engine::Side;
use matching_engine::TimeInForce;

fn limit(side: Side, price: u64, quantity: u64, account: &str) -> LimitOrderOptions {
    LimitOrderOptions {
        side,
        price,
        quantity,
        account_id: account.to_string(),
        time_in_force: Some(TimeInForce::GTC),
        post_only: Some(false),
    }
}

#[test]
fn builder_defaults_to_an_empty_book() {
    let book = OrderBookBuilder::new("BTCUSD").build();
    assert_eq!(book.ticker, "BTCUSD");
    assert_eq!(book.name, "BTCUSD");
    assert_eq!(book.best_bid(), None);
    assert_eq!(book.best_ask(), None);
    assert!(!book.journaling);
    assert_eq!(book.next_order_id, 1);
}

#[test]
fn journaling_records_operations() {
    let mut book = OrderBookBuilder::new("A").with_journaling(true).build();
    assert!(book.journaling);
    book.limit(limit(Side::Buy, 50, 10, "alice")).unwrap();
    book.limit(limit(Side::Sell, 55, 5, "bob")).unwrap();
    assert_eq!(book.journal.len(), 2);
    assert_eq!(book.journal[0].op_id, 0);
    assert_eq!(book.journal[0].op, JournalOp::Limit);
    assert_eq!(book.journal[1].op_id, 1);
}

#[test]
fn replaying_a_journal_rebuilds_the_book() {
    let mut book = OrderBookBuilder::new("A").with_journaling(true).build();
    book.limit(limit(Side::Buy, 50, 10, "alice")).unwrap();
    book.limit(limit(Side::Sell, 55, 5, "bob")).unwrap();
    book.limit(limit(Side::Buy, 55, 3, "carol")).unwrap();

    let logs = std::mem::take(&mut book.journal);
    let rebuilt = OrderBookBuilder::new("A").with_replay_logs(logs).build();
    assert_eq!(rebuilt.depth_levels(10), book.depth_levels(10));
    assert_eq!(rebuilt.best_bid(), book.best_bid());
    assert_eq!(rebuilt.best_ask(), book.best_ask());
}

#[test]
fn builder_restores_a_snapshot() {
    let mut book = OrderBook::new("A", "A");
    book.limit(limit(Side::Buy, 48, 7, "a")).unwrap();
    book.limit(limit(Side::Sell, 55, 3, "b")).unwrap();

    let rebuilt = OrderBookBuilder::new("A").with_snapshot(book.snapshot()).build();
    assert_eq!(rebuilt.depth_levels(10), book.depth_levels(10));
    assert_eq!(rebuilt.next_order_id, book.next_order_id);
}

#[test]
fn builder_accepts_options_in_bulk() {
    let options = OrderBookOptions {
        journaling: true,
        snapshot: None,
        replay_logs: None,
    };
    let book = OrderBookBuilder::new("A").with_options(options).build();
    assert!(book.journaling);
}

#[test]
fn journal_replay_handles_market_and_cancel_ops() {
    let mut book = OrderBookBuilder::new("A").with_journaling(true).build();
    let placed = book.limit(limit(Side::Buy, 50, 10, "alice")).unwrap();
    book.limit(limit(Side::Buy, 48, 4, "bob")).unwrap();
    book.market(matching_engine::MarketOrderOptions {
        side: Side::Sell,
        quantity: 3,
        account_id: "carol".to_string(),
    })
    .unwrap();
    let removed = book.remove_matching(placed.order_id, None);
    assert!(removed.is_some());
    // record the cancel as the journal's fourth operation
    book.journal.push(matching_engine::JournalLog {
        op_id: 3,
        op: JournalOp::Cancel,
        options: matching_engine::OrderOptions::Cancel(placed.order_id),
    });
    // replaying limit, limit, market yields the pre-cancel book; the
    // appended cancel op then removes the same order
    let logs: Vec<matching_engine::JournalLog> = book.journal.iter().map(|l| l.clone()).collect();
    let rebuilt = OrderBookBuilder::new("A").with_replay_logs(logs).build();
    assert_eq!(rebuilt.depth_levels(10), book.depth_levels(10));
}

#[test]
fn unsound_snapshot_is_ignored_by_the_builder() {
    // a level with an empty queue breaks the structural rules
    let bad = matching_engine::Snapshot {
        bids: vec![matching_engine::PriceLevel { price: 50, orders: Vec::new() }],
        asks: Vec::new(),
        next_order_id: 9,
    };
    assert!(!bad.is_well_formed());
    let book = OrderBookBuilder::new("A").with_snapshot(bad).build();
    assert_eq!(book.best_bid(), None);
    assert_eq!(book.next_order_id, 1);
}

#[test]
fn time_in_force_is_carried_through_unenforced() {
    let mut book = OrderBook::new("A", "A");
    let r = book
        .limit(LimitOrderOptions {
            side: Side::Buy,
            price: 50,
            quantity: 10,
            account_id: "alice".to_string(),
            time_in_force: Some(TimeInForce::IOC),
            post_only: Some(false),
        })
        .unwrap();
    assert_eq!(r.time_in_force, TimeInForce::IOC);
    // IOC is not enforced: the unmatched order still rests
    assert_eq!(book.best_bid(), Some(50));
}
