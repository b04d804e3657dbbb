use matching_engine::deterministic_trade_id;
use matching_engine::FillEvent;
use matching_engine::FillReport;
use matching_engine::Side;

#[test]
fn trade_id_matches_the_name_based_uuid_of_the_trade_key() {
    // the identifier must be the version-5 UUID of the little-endian
    // taker and maker order identifiers followed by the maker account
    let taker: u64 = 11;
    let maker: u64 = 22;
    let account = "alice".to_string();

    let mut name: Vec<u8> = Vec::new();
    name.extend_from_slice(&taker.to_le_bytes());
    name.extend_from_slice(&maker.to_le_bytes());
    name.extend_from_slice(account.as_bytes());
    let expected = uuid::Uuid::new_v5(&uuid::Uuid::NAMESPACE_OID, &name).to_string();

    assert_eq!(deterministic_trade_id(taker, maker, &account), expected);
}

#[test]
fn trade_ids_are_deterministic_and_distinguish_trades() {
    let a = deterministic_trade_id(1, 2, &"alice".to_string());
    let b = deterministic_trade_id(1, 2, &"alice".to_string());
    assert_eq!(a, b);
    assert_eq!(a.len(), 36);

    let c = deterministic_trade_id(1, 3, &"alice".to_string());
    let d = deterministic_trade_id(1, 2, &"bob".to_string());
    assert_ne!(a, c);
    assert_ne!(a, d);
}

#[test]
fn fill_event_resolves_buyer_and_seller_from_the_taker_side() {
    let fill = FillReport {
        maker_order_id: 5,
        maker_account_id: "maker".to_string(),
        taker_order_id: 9,
        taker_account_id: "taker".to_string(),
        price: 50,
        quantity: 3,
    };
    let ev = FillEvent::from_fill(&fill, Side::Buy, &"A".to_string());
    assert_eq!(ev.buy_order_id, 9);
    assert_eq!(ev.sell_order_id, 5);
    assert_eq!(ev.buyer_account_id, "taker");
    assert_eq!(ev.seller_account_id, "maker");
    assert_eq!(ev.outcome_id, "A");
    assert_eq!(ev.fill_id, matching_engine::deterministic_trade_id(9, 5, &"maker".to_string()));

    let ev = FillEvent::from_fill(&fill, Side::Sell, &"A".to_string());
    assert_eq!(ev.buy_order_id, 5);
    assert_eq!(ev.sell_order_id, 9);
}
