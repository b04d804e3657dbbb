//! Business events: what the engine publishes about each command's
//! terminal outcome, and the fill records of individual match steps.

use crate::book::FillReport;
use crate::ids::deterministic_trade_id;
use crate::ids::now_millis;
use crate::ids::trade_key_bytes;
use crate::ids::uuid_v5_of;
use crate::order::Side;
use crate::order::TimeInForce;
use vstd::prelude::*;

verus! {

/// A discrete business event published after a command is applied.
/// Every terminal outcome of a command appears as exactly one
/// `OrderPlaced`, `OrderPartial`, `OrderFilled`, `OrderCancelled` or
/// `OrderRejected`, with one `Trade` per fill beside it.
#[derive(Debug)]
pub enum PublishEngineEvent {
    Trade {
        trade_id: String,
        order_id: u64,
        filled_order_id: u64,
        filled_account_id: String,
        account_id: String,
        outcome_id: String,
        side: Side,
        quantity: u64,
        price: u64,
        remaining: u64,
        original_quantity: u64,
        time_in_force: Option<TimeInForce>,
    },
    OrderPlaced {
        order_id: u64,
        account_id: String,
        outcome_id: String,
        side: Side,
        quantity: u64,
        price: u64,
        time_in_force: Option<TimeInForce>,
    },
    OrderPartial {
        order_id: u64,
        account_id: String,
        outcome_id: String,
        side: Side,
        quantity: u64,
        price: u64,
        remaining: u64,
        original_quantity: u64,
        time_in_force: Option<TimeInForce>,
    },
    OrderFilled {
        order_id: u64,
        account_id: String,
        outcome_id: String,
        side: Side,
        quantity: u64,
        price: u64,
        time_in_force: Option<TimeInForce>,
    },
    OrderCancelled {
        order_id: u64,
        account_id: String,
        outcome_id: String,
        side: Side,
        quantity: u64,
        price: u64,
        time_in_force: Option<TimeInForce>,
    },
    OrderRejected {
        account_id: String,
        outcome_id: String,
        side: Side,
        quantity: u64,
        price: u64,
        time_in_force: Option<TimeInForce>,
    },
}

/// The mathematical content of a [`PublishEngineEvent`].
#[verifier::ext_equal]
pub ghost enum EventModel {
    Trade {
        trade_id: Seq<char>,
        order_id: u64,
        filled_order_id: u64,
        filled_account_id: Seq<char>,
        account_id: Seq<char>,
        outcome_id: Seq<char>,
        side: Side,
        quantity: u64,
        price: u64,
        remaining: u64,
        original_quantity: u64,
        time_in_force: Option<TimeInForce>,
    },
    OrderPlaced {
        order_id: u64,
        account_id: Seq<char>,
        outcome_id: Seq<char>,
        side: Side,
        quantity: u64,
        price: u64,
        time_in_force: Option<TimeInForce>,
    },
    OrderPartial {
        order_id: u64,
        account_id: Seq<char>,
        outcome_id: Seq<char>,
        side: Side,
        quantity: u64,
        price: u64,
        remaining: u64,
        original_quantity: u64,
        time_in_force: Option<TimeInForce>,
    },
    OrderFilled {
        order_id: u64,
        account_id: Seq<char>,
        outcome_id: Seq<char>,
        side: Side,
        quantity: u64,
        price: u64,
        time_in_force: Option<TimeInForce>,
    },
    OrderCancelled {
        order_id: u64,
        account_id: Seq<char>,
        outcome_id: Seq<char>,
        side: Side,
        quantity: u64,
        price: u64,
        time_in_force: Option<TimeInForce>,
    },
    OrderRejected {
        account_id: Seq<char>,
        outcome_id: Seq<char>,
        side: Side,
        quantity: u64,
        price: u64,
        time_in_force: Option<TimeInForce>,
    },
}

impl View for PublishEngineEvent {
    type V = EventModel;

    open spec fn view(&self) -> EventModel {
        match self {
            PublishEngineEvent::Trade {
                trade_id,
                order_id,
                filled_order_id,
                filled_account_id,
                account_id,
                outcome_id,
                side,
                quantity,
                price,
                remaining,
                original_quantity,
                time_in_force,
            } => EventModel::Trade {
                trade_id: trade_id@,
                order_id: *order_id,
                filled_order_id: *filled_order_id,
                filled_account_id: filled_account_id@,
                account_id: account_id@,
                outcome_id: outcome_id@,
                side: *side,
                quantity: *quantity,
                price: *price,
                remaining: *remaining,
                original_quantity: *original_quantity,
                time_in_force: *time_in_force,
            },
            PublishEngineEvent::OrderPlaced {
                order_id,
                account_id,
                outcome_id,
                side,
                quantity,
                price,
                time_in_force,
            } => EventModel::OrderPlaced {
                order_id: *order_id,
                account_id: account_id@,
                outcome_id: outcome_id@,
                side: *side,
                quantity: *quantity,
                price: *price,
                time_in_force: *time_in_force,
            },
            PublishEngineEvent::OrderPartial {
                order_id,
                account_id,
                outcome_id,
                side,
                quantity,
                price,
                remaining,
                original_quantity,
                time_in_force,
            } => EventModel::OrderPartial {
                order_id: *order_id,
                account_id: account_id@,
                outcome_id: outcome_id@,
                side: *side,
                quantity: *quantity,
                price: *price,
                remaining: *remaining,
                original_quantity: *original_quantity,
                time_in_force: *time_in_force,
            },
            PublishEngineEvent::OrderFilled {
                order_id,
                account_id,
                outcome_id,
                side,
                quantity,
                price,
                time_in_force,
            } => EventModel::OrderFilled {
                order_id: *order_id,
                account_id: account_id@,
                outcome_id: outcome_id@,
                side: *side,
                quantity: *quantity,
                price: *price,
                time_in_force: *time_in_force,
            },
            PublishEngineEvent::OrderCancelled {
                order_id,
                account_id,
                outcome_id,
                side,
                quantity,
                price,
                time_in_force,
            } => EventModel::OrderCancelled {
                order_id: *order_id,
                account_id: account_id@,
                outcome_id: outcome_id@,
                side: *side,
                quantity: *quantity,
                price: *price,
                time_in_force: *time_in_force,
            },
            PublishEngineEvent::OrderRejected {
                account_id,
                outcome_id,
                side,
                quantity,
                price,
                time_in_force,
            } => EventModel::OrderRejected {
                account_id: account_id@,
                outcome_id: outcome_id@,
                side: *side,
                quantity: *quantity,
                price: *price,
                time_in_force: *time_in_force,
            },
        }
    }
}

/// The view of an event list.
pub open spec fn events_model(s: Seq<PublishEngineEvent>) -> Seq<EventModel> {
    s.map_values(|e: PublishEngineEvent| e@)
}

/// A per-order record on the discrete event side channel, keyed by the
/// orders and accounts involved; timestamps come from the wall clock
/// at emission.
#[derive(Debug)]
pub enum EngineEvent {
    OrderFilled {
        fill_id: String,
        outcome_id: String,
        buy_order_id: u64,
        sell_order_id: u64,
        buyer_account_id: String,
        seller_account_id: String,
        price: u64,
        quantity: u64,
        timestamp: i64,
    },
    OrderPartial {
        order_id: u64,
        account_id: String,
        remaining: u64,
        original_quantity: u64,
        timestamp: i64,
    },
    OrderCancelled {
        order_id: u64,
        account_id: String,
        timestamp: i64,
    },
    OrderAdded {
        order: crate::order::Order,
    },
}

/// One fill published on the event side channel: buyer and seller
/// resolved from the taker's side, stamped with the wall clock.
#[derive(Debug)]
pub struct FillEvent {
    pub fill_id: String,
    pub buy_order_id: u64,
    pub sell_order_id: u64,
    pub buyer_account_id: String,
    pub seller_account_id: String,
    pub price: u64,
    pub quantity: u64,
    pub outcome_id: String,
    pub timestamp: i64,
}

impl FillEvent {
    /// Build the published record of one fill. The fill identifier is
    /// the deterministic trade identifier of the fill's identity; the
    /// timestamp is read from the wall clock and not specified further.
    pub fn from_fill(fill: &FillReport, taker_side: Side, outcome_id: &String) -> (r: FillEvent)
        ensures
            r.fill_id@ == uuid_v5_of(
                trade_key_bytes(fill@.taker_order_id, fill@.maker_order_id, fill@.maker_account_id),
            ),
            taker_side == Side::Buy ==> r.buy_order_id == fill.taker_order_id
                && r.sell_order_id == fill.maker_order_id && r.buyer_account_id@
                == fill@.taker_account_id && r.seller_account_id@ == fill@.maker_account_id,
            taker_side == Side::Sell ==> r.buy_order_id == fill.maker_order_id
                && r.sell_order_id == fill.taker_order_id && r.buyer_account_id@
                == fill@.maker_account_id && r.seller_account_id@ == fill@.taker_account_id,
            r.price == fill.price,
            r.quantity == fill.quantity,
            r.outcome_id@ == outcome_id@,
    {
        let fill_id = deterministic_trade_id(
            fill.taker_order_id,
            fill.maker_order_id,
            &fill.maker_account_id,
        );
        let timestamp = now_millis();
        match taker_side {
            Side::Buy => FillEvent {
                fill_id,
                buy_order_id: fill.taker_order_id,
                sell_order_id: fill.maker_order_id,
                buyer_account_id: fill.taker_account_id.clone(),
                seller_account_id: fill.maker_account_id.clone(),
                price: fill.price,
                quantity: fill.quantity,
                outcome_id: outcome_id.clone(),
                timestamp,
            },
            Side::Sell => FillEvent {
                fill_id,
                buy_order_id: fill.maker_order_id,
                sell_order_id: fill.taker_order_id,
                buyer_account_id: fill.maker_account_id.clone(),
                seller_account_id: fill.taker_account_id.clone(),
                price: fill.price,
                quantity: fill.quantity,
                outcome_id: outcome_id.clone(),
                timestamp,
            },
        }
    }
}

} // verus!
