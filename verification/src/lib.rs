//! A per-outcome continuous matching engine with a price-time-priority
//! limit order book, an event-producing engine layer, and a replayable
//! command ledger.

use vstd::prelude::*;

mod book;
mod builder;
mod engine;
mod error;
mod events;
mod ids;
mod ingest;
mod journal;
pub mod laws;
mod ledger;
mod order;
mod wire;

pub use book::ExecutionReport;
pub use book::FillReport;
pub use book::OrderBook;
pub use book::OrderBookError;
pub use book::PriceLevel;
pub use book::Snapshot;
pub use builder::OrderBookBuilder;
pub use builder::OrderBookOptions;
pub use engine::BookStats;
pub use engine::EngineStats;
pub use engine::MarketOutcomes;
pub use engine::MarketProbabilities;
pub use engine::MarketSnapshot;
pub use engine::MatchingEngine;
pub use engine::OutcomeState;
pub use error::EngineError;
pub use error::EngineResult;
pub use error::ErrorSeverity;
pub use events::EngineEvent;
pub use events::FillEvent;
pub use events::PublishEngineEvent;
pub use ids::deterministic_trade_id;
pub use ingest::classify_message;
pub use ingest::process_new_order;
pub use ingest::should_acknowledge;
pub use ingest::CommandKind;
pub use journal::JournalLog;
pub use journal::JournalOp;
pub use journal::LimitOrderOptions;
pub use journal::MarketOrderOptions;
pub use journal::OrderOptions;
pub use ledger::replay_ledger;
pub use ledger::LedgerEntry;
pub use order::Order;
pub use order::OrderStatus;
pub use order::OrderType;
pub use order::Side;
pub use order::TimeInForce;
pub use order::MAX_PRICE;
pub use order::MAX_QUANTITY;
pub use wire::order_from_wire;
pub use wire::order_type_from_str;
pub use wire::parse_u32;
pub use wire::parse_u64;
pub use wire::side_from_str;
pub use wire::tif_from_str;
pub use wire::OrderWire;

verus! {

} // verus!
