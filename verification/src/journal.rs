//! Order placement options and the book journal: a record of the
//! operations applied to a book, sufficient to rebuild it by replay.

use crate::order::Side;
use crate::order::TimeInForce;
use vstd::prelude::*;

verus! {

/// Parameters of a limit order placement.
#[derive(Debug)]
pub struct LimitOrderOptions {
    pub side: Side,
    pub price: u64,
    pub quantity: u64,
    pub account_id: String,
    pub time_in_force: Option<TimeInForce>,
    pub post_only: Option<bool>,
}

/// The mathematical content of [`LimitOrderOptions`].
#[verifier::ext_equal]
pub ghost struct LimitOptionsModel {
    pub side: Side,
    pub price: u64,
    pub quantity: u64,
    pub account_id: Seq<char>,
    pub time_in_force: Option<TimeInForce>,
    pub post_only: Option<bool>,
}

impl View for LimitOrderOptions {
    type V = LimitOptionsModel;

    open spec fn view(&self) -> LimitOptionsModel {
        LimitOptionsModel {
            side: self.side,
            price: self.price,
            quantity: self.quantity,
            account_id: self.account_id@,
            time_in_force: self.time_in_force,
            post_only: self.post_only,
        }
    }
}

impl Clone for LimitOrderOptions {
    fn clone(&self) -> (r: Self)
        ensures
            r@ == self@,
    {
        LimitOrderOptions {
            side: self.side,
            price: self.price,
            quantity: self.quantity,
            account_id: self.account_id.clone(),
            time_in_force: self.time_in_force,
            post_only: self.post_only,
        }
    }
}

/// Parameters of a market order placement.
#[derive(Debug)]
pub struct MarketOrderOptions {
    pub side: Side,
    pub quantity: u64,
    pub account_id: String,
}

/// The mathematical content of [`MarketOrderOptions`].
#[verifier::ext_equal]
pub ghost struct MarketOptionsModel {
    pub side: Side,
    pub quantity: u64,
    pub account_id: Seq<char>,
}

impl View for MarketOrderOptions {
    type V = MarketOptionsModel;

    open spec fn view(&self) -> MarketOptionsModel {
        MarketOptionsModel {
            side: self.side,
            quantity: self.quantity,
            account_id: self.account_id@,
        }
    }
}

impl Clone for MarketOrderOptions {
    fn clone(&self) -> (r: Self)
        ensures
            r@ == self@,
    {
        MarketOrderOptions {
            side: self.side,
            quantity: self.quantity,
            account_id: self.account_id.clone(),
        }
    }
}

/// The kind of operation recorded in a journal entry.
#[derive(Clone, Copy, Debug, PartialEq, Eq, Structural)]
pub enum JournalOp {
    /// A market order was placed.
    Market,
    /// A limit order was placed.
    Limit,
    /// An order was cancelled and re-created with updated price or quantity.
    Modify,
    /// An order was cancelled.
    Cancel,
}

/// The full parameters of one recorded operation.
#[derive(Debug)]
pub enum OrderOptions {
    Market(MarketOrderOptions),
    Limit(LimitOrderOptions),
    Modify { id: u64, price: Option<u64>, quantity: Option<u64> },
    Cancel(u64),
}

/// The mathematical content of [`OrderOptions`].
#[verifier::ext_equal]
pub ghost enum OptionsModel {
    Market(MarketOptionsModel),
    Limit(LimitOptionsModel),
    Modify { id: u64, price: Option<u64>, quantity: Option<u64> },
    Cancel(u64),
}

impl View for OrderOptions {
    type V = OptionsModel;

    open spec fn view(&self) -> OptionsModel {
        match self {
            OrderOptions::Market(o) => OptionsModel::Market(o@),
            OrderOptions::Limit(o) => OptionsModel::Limit(o@),
            OrderOptions::Modify { id, price, quantity } => OptionsModel::Modify {
                id: *id,
                price: *price,
                quantity: *quantity,
            },
            OrderOptions::Cancel(id) => OptionsModel::Cancel(*id),
        }
    }
}

impl Clone for OrderOptions {
    fn clone(&self) -> (r: Self)
        ensures
            r@ == self@,
    {
        match self {
            OrderOptions::Market(o) => OrderOptions::Market(o.clone()),
            OrderOptions::Limit(o) => OrderOptions::Limit(o.clone()),
            OrderOptions::Modify { id, price, quantity } => OrderOptions::Modify {
                id: *id,
                price: *price,
                quantity: *quantity,
            },
            OrderOptions::Cancel(id) => OrderOptions::Cancel(*id),
        }
    }
}

/// One journal entry: a sequence number, the kind of operation, and its
/// parameters. Entries are applied in the order given when replayed.
#[derive(Debug)]
pub struct JournalLog {
    pub op_id: u64,
    pub op: JournalOp,
    pub options: OrderOptions,
}

/// The mathematical content of a [`JournalLog`].
#[verifier::ext_equal]
pub ghost struct JournalModel {
    pub op_id: u64,
    pub op: JournalOp,
    pub options: OptionsModel,
}

/// The view of a journal.
pub open spec fn journal_model(s: Seq<JournalLog>) -> Seq<JournalModel> {
    s.map_values(|j: JournalLog| j@)
}

impl View for JournalLog {
    type V = JournalModel;

    open spec fn view(&self) -> JournalModel {
        JournalModel { op_id: self.op_id, op: self.op, options: self.options@ }
    }
}

impl Clone for JournalLog {
    fn clone(&self) -> (r: Self)
        ensures
            r@ == self@,
    {
        JournalLog { op_id: self.op_id, op: self.op, options: self.options.clone() }
    }
}

} // verus!
