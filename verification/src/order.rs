//! Validated order data: sides, order types, time in force, statuses,
//! and the business rules an order must satisfy before it may reach a
//! book.

use crate::error::EngineError;
use vstd::prelude::*;

verus! {

/// Largest accepted price, in minor currency units.
pub const MAX_PRICE: u64 = 1_000_000_000;

/// Largest accepted original quantity.
pub const MAX_QUANTITY: u64 = 1_000_000_000;

/// The side of an order: buy (bids) or sell (asks).
#[derive(Clone, Copy, Debug, PartialEq, Eq, Structural)]
pub enum Side {
    Buy,
    Sell,
}

/// Whether an order rests at a price or consumes whatever liquidity exists.
#[derive(Clone, Copy, Debug, PartialEq, Eq, Structural)]
pub enum OrderType {
    Limit,
    Market,
}

/// How long an order stays active. Only GTC is enforced by matching;
/// IOC and FOK are carried through unchanged.
#[derive(Clone, Copy, Debug, PartialEq, Eq, Structural)]
pub enum TimeInForce {
    GTC,
    IOC,
    FOK,
}

/// The terminal or resting status of an order after one matching call.
#[derive(Clone, Copy, Debug, PartialEq, Eq, Structural)]
pub enum OrderStatus {
    /// Accepted and resting, not yet matched.
    New,
    /// Partially matched; some quantity remains.
    PartiallyFilled,
    /// Completely matched.
    Filled,
    /// Withdrawn (or a market order discarded unfilled).
    Canceled,
    /// Refused due to invalid input.
    Rejected,
}

/// A validated order. `qty_remaining` only decreases while the order
/// rests in a book; it never exceeds `qty_original`.
#[derive(Debug)]
pub struct Order {
    pub order_id: u64,
    pub market_id: u32,
    pub outcome_id: String,
    pub account_id: String,
    pub side: Side,
    pub order_type: OrderType,
    /// Price in minor currency units; zero only for market orders.
    pub price: u64,
    pub qty_remaining: u64,
    pub qty_original: u64,
}

/// The mathematical content of an [`Order`]: the same fields with
/// strings read as character sequences.
pub ghost struct OrderModel {
    pub order_id: u64,
    pub market_id: u32,
    pub outcome_id: Seq<char>,
    pub account_id: Seq<char>,
    pub side: Side,
    pub order_type: OrderType,
    pub price: u64,
    pub qty_remaining: u64,
    pub qty_original: u64,
}

impl View for Order {
    type V = OrderModel;

    open spec fn view(&self) -> OrderModel {
        OrderModel {
            order_id: self.order_id,
            market_id: self.market_id,
            outcome_id: self.outcome_id@,
            account_id: self.account_id@,
            side: self.side,
            order_type: self.order_type,
            price: self.price,
            qty_remaining: self.qty_remaining,
            qty_original: self.qty_original,
        }
    }
}

impl Clone for Order {
    fn clone(&self) -> (r: Self)
        ensures
            r@ == self@,
    {
        Order {
            order_id: self.order_id,
            market_id: self.market_id,
            outcome_id: self.outcome_id.clone(),
            account_id: self.account_id.clone(),
            side: self.side,
            order_type: self.order_type,
            price: self.price,
            qty_remaining: self.qty_remaining,
            qty_original: self.qty_original,
        }
    }
}

impl OrderModel {
    /// The business rules a validated order satisfies.
    pub open spec fn valid(self) -> bool {
        &&& self.outcome_id.len() > 0
        &&& self.account_id.len() > 0
        &&& self.qty_original >= 1
        &&& self.qty_remaining <= self.qty_original
        &&& (self.order_type == OrderType::Limit ==> self.price >= 1)
        &&& self.price <= MAX_PRICE
        &&& self.qty_original <= MAX_QUANTITY
    }
}

/// The message attached to the first business rule an order breaks,
/// in the order the rules are checked; `None` when the order is valid.
pub open spec fn spec_validate_msg(o: OrderModel) -> Option<Seq<char>> {
    if o.outcome_id.len() == 0 {
        Some("outcome_id cannot be empty"@)
    } else if o.account_id.len() == 0 {
        Some("account_id cannot be empty"@)
    } else if o.qty_original == 0 {
        Some("qty_original must be greater than 0"@)
    } else if o.qty_remaining > o.qty_original {
        Some("qty_remaining cannot exceed qty_original"@)
    } else if o.order_type == OrderType::Limit && o.price == 0 {
        Some("LIMIT orders must have a price greater than 0"@)
    } else if o.price > MAX_PRICE {
        Some("Price exceeds maximum allowed price"@)
    } else if o.qty_original > MAX_QUANTITY {
        Some("Quantity exceeds maximum allowed quantity"@)
    } else {
        None
    }
}

impl Order {
    /// Check the business rules. Returns `Ok` exactly on valid orders;
    /// otherwise an `OrderValidation` error naming the first broken rule.
    pub fn validate(&self) -> (r: Result<(), EngineError>)
        ensures
            r is Ok <==> self@.valid(),
            r is Ok <==> spec_validate_msg(self@) is None,
            r is Err ==> match r->Err_0 {
                EngineError::OrderValidation(m) => Some(m@) == spec_validate_msg(self@),
                _ => false,
            },
    {
        if self.outcome_id.as_str().is_empty() {
            return Err(EngineError::OrderValidation(String::from_str("outcome_id cannot be empty")));
        }
        if self.account_id.as_str().is_empty() {
            return Err(EngineError::OrderValidation(String::from_str("account_id cannot be empty")));
        }
        if self.qty_original == 0 {
            return Err(EngineError::OrderValidation(String::from_str("qty_original must be greater than 0")));
        }
        if self.qty_remaining > self.qty_original {
            return Err(EngineError::OrderValidation(String::from_str("qty_remaining cannot exceed qty_original")));
        }
        if matches!(self.order_type, OrderType::Limit) && self.price == 0 {
            return Err(EngineError::OrderValidation(String::from_str("LIMIT orders must have a price greater than 0")));
        }
        if self.price > MAX_PRICE {
            return Err(EngineError::OrderValidation(String::from_str("Price exceeds maximum allowed price")));
        }
        if self.qty_original > MAX_QUANTITY {
            return Err(EngineError::OrderValidation(String::from_str("Quantity exceeds maximum allowed quantity")));
        }
        Ok(())
    }
}

} // verus!
