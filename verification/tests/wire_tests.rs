use matching_engine::order_from_wire;
use matching_engine::order_type_from_str;
use matching_engine::parse_u32;
use matching_engine::parse_u64;
use matching_engine::side_from_str;
use matching_engine::tif_from_str;
use matching_engine::EngineError;
use matching_engine::OrderType;
use matching_engine::OrderWire;
use matching_engine::Side;
use matching_engine::TimeInForce;

fn wire() -> OrderWire {
    OrderWire {
        outcome_id: "A".to_string(),
        account_id: "alice".to_string(),
        market_id: "7".to_string(),
        outcome_name: "Outcome A".to_string(),
        side: "Buy".to_string(),
        order_type: "LIMIT".to_string(),
        price: "50".to_string(),
        qty_remaining: "100".to_string(),
        qty_original: "100".to_string(),
    }
}

#[test]
fn parses_decimal_strings_exactly() {
    assert_eq!(parse_u64("0"), Some(0));
    assert_eq!(parse_u64("123"), Some(123));
    assert_eq!(parse_u64("18446744073709551615"), Some(u64::MAX));
    assert_eq!(parse_u64("18446744073709551616"), None);
    assert_eq!(parse_u64(""), None);
    assert_eq!(parse_u64("12a"), None);
    assert_eq!(parse_u64("-5"), None);
    assert_eq!(parse_u32("4294967295"), Some(u32::MAX));
    assert_eq!(parse_u32("4294967296"), None);
}

#[test]
fn parses_tags_case_insensitively() {
    assert_eq!(side_from_str("BUY").unwrap(), Side::Buy);
    assert_eq!(side_from_str("buy").unwrap(), Side::Buy);
    assert_eq!(side_from_str("Sell").unwrap(), Side::Sell);
    assert!(side_from_str("hold").is_err());

    assert_eq!(order_type_from_str("market").unwrap(), OrderType::Market);
    assert_eq!(order_type_from_str("Limit").unwrap(), OrderType::Limit);
    assert!(matches!(
        order_type_from_str("stop"),
        Err(EngineError::InvalidOrderType(_))
    ));

    assert_eq!(tif_from_str("gtc").unwrap(), TimeInForce::GTC);
    assert_eq!(tif_from_str("IOC").unwrap(), TimeInForce::IOC);
    assert_eq!(tif_from_str("FoK").unwrap(), TimeInForce::FOK);
    assert!(tif_from_str("DAY").is_err());
}

#[test]
fn wire_order_parses_into_validated_order() {
    let order = order_from_wire(&wire()).unwrap();
    assert_eq!(order.order_id, 0);
    assert_eq!(order.market_id, 7);
    assert_eq!(order.outcome_id, "A");
    assert_eq!(order.account_id, "alice");
    assert_eq!(order.side, Side::Buy);
    assert_eq!(order.order_type, OrderType::Limit);
    assert_eq!(order.price, 50);
    assert_eq!(order.qty_remaining, 100);
    assert_eq!(order.qty_original, 100);
}

#[test]
fn wire_orders_breaking_business_rules_are_rejected() {
    let mut w = wire();
    w.qty_original = "0".to_string();
    w.qty_remaining = "0".to_string();
    assert!(matches!(
        order_from_wire(&w),
        Err(EngineError::OrderValidation(_))
    ));

    let mut w = wire();
    w.price = "0".to_string();
    assert!(matches!(
        order_from_wire(&w),
        Err(EngineError::OrderValidation(_))
    ));

    let mut w = wire();
    w.price = "1000000001".to_string();
    assert!(matches!(
        order_from_wire(&w),
        Err(EngineError::OrderValidation(_))
    ));

    let mut w = wire();
    w.outcome_id = "".to_string();
    assert!(matches!(
        order_from_wire(&w),
        Err(EngineError::OrderValidation(_))
    ));

    let mut w = wire();
    w.side = "hold".to_string();
    assert!(matches!(
        order_from_wire(&w),
        Err(EngineError::OrderValidation(_))
    ));

    let mut w = wire();
    w.order_type = "stop".to_string();
    assert!(matches!(
        order_from_wire(&w),
        Err(EngineError::InvalidOrderType(_))
    ));
}

#[test]
fn market_wire_order_may_have_zero_price() {
    let mut w = wire();
    w.order_type = "MARKET".to_string();
    w.price = "0".to_string();
    let order = order_from_wire(&w).unwrap();
    assert_eq!(order.order_type, OrderType::Market);
    assert_eq!(order.price, 0);
}

#[test]
fn validate_names_the_first_broken_rule() {
    let mut order = order_from_wire(&wire()).unwrap();
    order.qty_remaining = 200;
    match order.validate() {
        Err(EngineError::OrderValidation(m)) => {
            assert_eq!(m, "qty_remaining cannot exceed qty_original");
        }
        other => panic!("expected a validation error, got {:?}", other),
    }
}
