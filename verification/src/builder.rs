//! Incremental configuration and construction of an order book: start
//! empty, or restore a structural snapshot, then replay recorded
//! operations, with journaling on or off.

use crate::book::spec_empty_book;
use crate::book::spec_replay_logs;
use crate::book::snapshot_wf;
use crate::book::BookModel;
use crate::book::OrderBook;
use crate::book::Snapshot;
use crate::book::SnapshotModel;
use crate::journal::journal_model;
use crate::journal::JournalLog;
use crate::journal::JournalModel;
use vstd::prelude::*;

verus! {

/// Options a book can be built with.
#[derive(Debug)]
pub struct OrderBookOptions {
    /// Record every operation in the book's journal.
    pub journaling: bool,
    /// Restore this structural snapshot before anything else.
    pub snapshot: Option<Snapshot>,
    /// Replay these operations, in the order given, after restoring.
    pub replay_logs: Option<Vec<JournalLog>>,
}

/// The mathematical content of [`OrderBookOptions`].
#[verifier::ext_equal]
pub ghost struct BookOptionsModel {
    pub journaling: bool,
    pub snapshot: Option<SnapshotModel>,
    pub replay_logs: Option<Seq<JournalModel>>,
}

impl View for OrderBookOptions {
    type V = BookOptionsModel;

    open spec fn view(&self) -> BookOptionsModel {
        BookOptionsModel {
            journaling: self.journaling,
            snapshot: match self.snapshot {
                Some(s) => Some(s@),
                None => None,
            },
            replay_logs: match self.replay_logs {
                Some(ref l) => Some(journal_model(l@)),
                None => None,
            },
        }
    }
}

impl Default for OrderBookOptions {
    /// No journaling, no snapshot, nothing to replay.
    fn default() -> (r: Self)
        ensures
            !r@.journaling,
            r@.snapshot is None,
            r@.replay_logs is None,
    {
        OrderBookOptions { journaling: false, snapshot: None, replay_logs: None }
    }
}

/// The book that building yields: an empty book for the symbol with the
/// chosen journaling mode, the snapshot installed when it is present
/// and structurally sound (an unsound one is ignored), and the replay
/// operations applied in order.
pub open spec fn spec_build(
    symbol: Seq<char>,
    options: BookOptionsModel,
) -> BookModel {
    let b = BookModel { journaling: options.journaling, ..spec_empty_book(symbol, symbol) };
    let b1 = match options.snapshot {
        Some(s) => if snapshot_wf(s) {
            BookModel { bids: s.bids, asks: s.asks, next_order_id: s.next_order_id, ..b }
        } else {
            b
        },
        None => b,
    };
    match options.replay_logs {
        Some(logs) => spec_replay_logs(b1, logs),
        None => b1,
    }
}

/// A builder for constructing an [`OrderBook`] with custom options.
#[derive(Debug)]
pub struct OrderBookBuilder {
    pub symbol: String,
    pub options: OrderBookOptions,
}

/// The mathematical content of an [`OrderBookBuilder`].
#[verifier::ext_equal]
pub ghost struct BuilderModel {
    pub symbol: Seq<char>,
    pub options: BookOptionsModel,
}

impl View for OrderBookBuilder {
    type V = BuilderModel;

    open spec fn view(&self) -> BuilderModel {
        BuilderModel { symbol: self.symbol@, options: self.options@ }
    }
}

impl OrderBookBuilder {
    /// A builder for the given market symbol, with default options.
    pub fn new(symbol: &str) -> (r: Self)
        ensures
            r@.symbol == symbol@,
            !r@.options.journaling,
            r@.options.snapshot is None,
            r@.options.replay_logs is None,
    {
        OrderBookBuilder { symbol: symbol.to_owned(), options: OrderBookOptions::default() }
    }

    /// Set all options in bulk.
    pub fn with_options(self, options: OrderBookOptions) -> (r: Self)
        ensures
            r@.symbol == self@.symbol,
            r@.options == options@,
    {
        OrderBookBuilder { symbol: self.symbol, options }
    }

    /// Restore the book from this snapshot rather than starting empty.
    pub fn with_snapshot(self, snapshot: Snapshot) -> (r: Self)
        ensures
            r@.symbol == self@.symbol,
            r@.options == (BookOptionsModel { snapshot: Some(snapshot@), ..self@.options }),
    {
        let OrderBookBuilder { symbol, mut options } = self;
        options.snapshot = Some(snapshot);
        OrderBookBuilder { symbol, options }
    }

    /// Replay these operations, in the order given, after any snapshot
    /// is restored.
    pub fn with_replay_logs(self, logs: Vec<JournalLog>) -> (r: Self)
        ensures
            r@.symbol == self@.symbol,
            r@.options == (BookOptionsModel {
                replay_logs: Some(journal_model(logs@)),
                ..self@.options
            }),
    {
        let OrderBookBuilder { symbol, mut options } = self;
        options.replay_logs = Some(logs);
        OrderBookBuilder { symbol, options }
    }

    /// Enable or disable journaling.
    pub fn with_journaling(self, enabled: bool) -> (r: Self)
        ensures
            r@.symbol == self@.symbol,
            r@.options == (BookOptionsModel { journaling: enabled, ..self@.options }),
    {
        let OrderBookBuilder { symbol, mut options } = self;
        options.journaling = enabled;
        OrderBookBuilder { symbol, options }
    }

    /// Build the configured book, per [`spec_build`].
    pub fn build(self) -> (r: OrderBook)
        ensures
            r.wf(),
            r@ == spec_build(self@.symbol, self@.options),
    {
        let ghost m = self@;
        let OrderBookBuilder { symbol, options } = self;
        let mut ob = OrderBook::new(symbol.as_str(), symbol.as_str());
        ob.journaling = options.journaling;
        proof {
            assert(ob@ =~~= (BookModel {
                journaling: m.options.journaling,
                ..spec_empty_book(m.symbol, m.symbol)
            }));
        }
        match options.snapshot {
            Some(s) => {
                if s.is_well_formed() {
                    let ghost pre = ob@;
                    ob.restore_snapshot(s);
                    proof {
                        assert(ob@ =~~= (BookModel {
                            bids: ob@.bids,
                            asks: ob@.asks,
                            next_order_id: ob@.next_order_id,
                            ..pre
                        }));
                    }
                }
            },
            None => {},
        }
        match options.replay_logs {
            Some(logs) => {
                ob.replay_logs(logs);
            },
            None => {},
        }
        ob
    }
}

} // verus!
