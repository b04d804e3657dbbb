//! The matching engine: one order book per outcome, derived per-outcome
//! state (fair price, cumulative volume), and the translation of match
//! results into business events and snapshot data.

use crate::book::book_wf;
use crate::book::lemma_spec_remove;
use crate::book::snapshot_wf;
use crate::error::EngineError;
use crate::order::Side;
use vstd::string::StringExecFns;
use crate::book::spec_add_order;
use crate::book::spec_book_remove;
use crate::book::spec_representative_price;
use crate::book::limit_ok;
use crate::book::market_ok;
use crate::book::sat_add_spec;
use crate::book::spec_empty_book;
use crate::book::spec_limit;
use crate::book::spec_market;
use crate::book::BookModel;
use crate::book::FillModel;
use crate::book::OrderBook;
use crate::book::ReportModel;
use crate::book::Snapshot;
use crate::book::SnapshotModel;
use crate::events::events_model;
use crate::events::EventModel;
use crate::events::PublishEngineEvent;
use crate::ids::trade_key_bytes;
use crate::ids::uuid_v5_of;
use crate::ids::deterministic_trade_id;
use crate::journal::LimitOptionsModel;
use crate::journal::LimitOrderOptions;
use crate::journal::MarketOptionsModel;
use crate::journal::MarketOrderOptions;
use crate::order::Order;
use crate::order::OrderModel;
use crate::order::OrderStatus;
use crate::order::OrderType;
use crate::order::TimeInForce;
use vstd::prelude::*;

verus! {

/// Everything the engine keeps for one outcome: its book, the derived
/// fair price (zero until a trade happens), and the cumulative traded
/// notional for the outcome, saturating.
#[derive(Debug)]
pub struct OutcomeState {
    pub outcome_id: String,
    pub book: OrderBook,
    pub fair_price: u64,
    pub total_outcome_volume: u64,
}

/// The mathematical content of an [`OutcomeState`].
#[verifier::ext_equal]
pub ghost struct OutcomeModel {
    pub outcome_id: Seq<char>,
    pub book: BookModel,
    pub fair_price: u64,
    pub total_outcome_volume: u64,
}

impl View for OutcomeState {
    type V = OutcomeModel;

    open spec fn view(&self) -> OutcomeModel {
        OutcomeModel {
            outcome_id: self.outcome_id@,
            book: self.book@,
            fair_price: self.fair_price,
            total_outcome_volume: self.total_outcome_volume,
        }
    }
}

/// The view of a list of strings.
pub open spec fn strings_model(v: Seq<String>) -> Seq<Seq<char>> {
    v.map_values(|s: String| s@)
}

/// The outcomes grouped under one market, for cross-outcome
/// aggregation.
#[derive(Debug)]
pub struct MarketOutcomes {
    pub market_id: u32,
    pub outcome_ids: Vec<String>,
}

/// The mathematical content of a [`MarketOutcomes`].
#[verifier::ext_equal]
pub ghost struct MarketModel {
    pub market_id: u32,
    pub outcome_ids: Seq<Seq<char>>,
}

impl View for MarketOutcomes {
    type V = MarketModel;

    open spec fn view(&self) -> MarketModel {
        MarketModel { market_id: self.market_id, outcome_ids: strings_model(self.outcome_ids@) }
    }
}

/// The engine: per-outcome state, and the market index.
#[derive(Debug)]
pub struct MatchingEngine {
    pub books: Vec<OutcomeState>,
    pub markets: Vec<MarketOutcomes>,
}

/// The mathematical content of a [`MatchingEngine`].
#[verifier::ext_equal]
pub ghost struct EngineModel {
    pub books: Seq<OutcomeModel>,
    pub markets: Seq<MarketModel>,
}

/// The view of the per-outcome states.
pub open spec fn books_model(v: Seq<OutcomeState>) -> Seq<OutcomeModel> {
    v.map_values(|s: OutcomeState| s@)
}

/// The view of the market index.
pub open spec fn markets_model(v: Seq<MarketOutcomes>) -> Seq<MarketModel> {
    v.map_values(|m: MarketOutcomes| m@)
}

impl View for MatchingEngine {
    type V = EngineModel;

    open spec fn view(&self) -> EngineModel {
        EngineModel { books: books_model(self.books@), markets: markets_model(self.markets@) }
    }
}

/// The first outcome entry with this identifier.
pub open spec fn find_outcome(books: Seq<OutcomeModel>, oid: Seq<char>) -> Option<int>
    decreases books.len(),
{
    if books.len() == 0 {
        None
    } else if books[0].outcome_id == oid {
        Some(0int)
    } else {
        match find_outcome(books.drop_first(), oid) {
            Some(i) => Some(i + 1),
            None => None,
        }
    }
}

/// The first market entry with this identifier.
pub open spec fn find_market(markets: Seq<MarketModel>, mid: u32) -> Option<int>
    decreases markets.len(),
{
    if markets.len() == 0 {
        None
    } else if markets[0].market_id == mid {
        Some(0int)
    } else {
        match find_market(markets.drop_first(), mid) {
            Some(i) => Some(i + 1),
            None => None,
        }
    }
}

/// Whether a list of identifiers holds one.
pub open spec fn contains_str(ids: Seq<Seq<char>>, oid: Seq<char>) -> bool {
    exists|i: int| 0 <= i < ids.len() && ids[i] == oid
}

/// An engine is well formed when every book is and outcome and market
/// identifiers are unique.
pub open spec fn engine_wf(e: EngineModel) -> bool {
    &&& forall|i: int| 0 <= i < e.books.len() ==> book_wf((#[trigger] e.books[i]).book)
    &&& forall|i: int, j: int|
        0 <= i < j < e.books.len() ==> e.books[i].outcome_id != e.books[j].outcome_id
    &&& forall|i: int, j: int|
        0 <= i < j < e.markets.len() ==> e.markets[i].market_id != e.markets[j].market_id
}

/// An outcome search finds exactly the first entry with the identifier.
pub proof fn lemma_find_outcome(books: Seq<OutcomeModel>, oid: Seq<char>)
    ensures
        find_outcome(books, oid) is Some <==> exists|i: int|
            0 <= i < books.len() && books[i].outcome_id == oid,
        match find_outcome(books, oid) {
            Some(i) => 0 <= i < books.len() && books[i].outcome_id == oid && (forall|k: int|
                0 <= k < i ==> books[k].outcome_id != oid),
            None => true,
        },
    decreases books.len(),
{
    if books.len() == 0 {
    } else if books[0].outcome_id == oid {
    } else {
        lemma_find_outcome(books.drop_first(), oid);
        let tail = books.drop_first();
        match find_outcome(tail, oid) {
            Some(i) => {
                assert(tail[i] == books[i + 1]);
                assert forall|k: int| 0 <= k < i + 1 implies books[k].outcome_id != oid by {
                    if k >= 1 {
                        assert(tail[k - 1] == books[k]);
                    }
                }
            },
            None => {
                if exists|i: int| 0 <= i < books.len() && books[i].outcome_id == oid {
                    let i = choose|i: int| 0 <= i < books.len() && books[i].outcome_id == oid;
                    assert(i >= 1);
                    assert(tail[i - 1] == books[i]);
                }
            },
        }
    }
}

/// A market search finds exactly the first entry with the identifier.
pub proof fn lemma_find_market(markets: Seq<MarketModel>, mid: u32)
    ensures
        find_market(markets, mid) is Some <==> exists|i: int|
            0 <= i < markets.len() && markets[i].market_id == mid,
        match find_market(markets, mid) {
            Some(i) => 0 <= i < markets.len() && markets[i].market_id == mid && (forall|k: int|
                0 <= k < i ==> markets[k].market_id != mid),
            None => true,
        },
    decreases markets.len(),
{
    if markets.len() == 0 {
    } else if markets[0].market_id == mid {
    } else {
        lemma_find_market(markets.drop_first(), mid);
        let tail = markets.drop_first();
        match find_market(tail, mid) {
            Some(i) => {
                assert(tail[i] == markets[i + 1]);
                assert forall|k: int| 0 <= k < i + 1 implies markets[k].market_id != mid by {
                    if k >= 1 {
                        assert(tail[k - 1] == markets[k]);
                    }
                }
            },
            None => {
                if exists|i: int| 0 <= i < markets.len() && markets[i].market_id == mid {
                    let i = choose|i: int| 0 <= i < markets.len() && markets[i].market_id == mid;
                    assert(i >= 1);
                    assert(tail[i - 1] == markets[i]);
                }
            },
        }
    }
}

/// Appending an outcome whose identifier is absent keeps identifiers
/// unique.
pub proof fn lemma_push_unique_outcome(bm: Seq<OutcomeModel>, st: OutcomeModel)
    requires
        forall|i: int, j: int| 0 <= i < j < bm.len() ==> bm[i].outcome_id != bm[j].outcome_id,
        find_outcome(bm, st.outcome_id) is None,
    ensures
        forall|i: int, j: int|
            0 <= i < j < bm.push(st).len() ==> bm.push(st)[i].outcome_id != bm.push(
                st,
            )[j].outcome_id,
{
    lemma_find_outcome(bm, st.outcome_id);
    let nb = bm.push(st);
    assert forall|i: int, j: int| 0 <= i < j < nb.len() implies nb[i].outcome_id
        != nb[j].outcome_id by {
        if j == bm.len() {
            assert(nb[i] == bm[i]);
            assert(nb[j] == st);
            if bm[i].outcome_id == st.outcome_id {
                assert(exists|k: int|
                    0 <= k < bm.len() && (#[trigger] bm[k]).outcome_id == st.outcome_id) by {
                    assert(0 <= i < bm.len() && bm[i].outcome_id == st.outcome_id);
                }
                assert(false);
            }
        } else {
            assert(nb[i] == bm[i]);
            assert(nb[j] == bm[j]);
            assert(bm[i].outcome_id != bm[j].outcome_id);
        }
    }
}

/// Appending a market whose identifier is absent keeps identifiers
/// unique.
pub proof fn lemma_push_unique_market(mm: Seq<MarketModel>, e: MarketModel)
    requires
        forall|i: int, j: int| 0 <= i < j < mm.len() ==> mm[i].market_id != mm[j].market_id,
        find_market(mm, e.market_id) is None,
    ensures
        forall|i: int, j: int|
            0 <= i < j < mm.push(e).len() ==> mm.push(e)[i].market_id != mm.push(e)[j].market_id,
{
    lemma_find_market(mm, e.market_id);
    let nm = mm.push(e);
    assert forall|i: int, j: int| 0 <= i < j < nm.len() implies nm[i].market_id
        != nm[j].market_id by {
        if j == mm.len() {
            assert(nm[i] == mm[i]);
            assert(nm[j] == e);
            if mm[i].market_id == e.market_id {
                assert(exists|k: int|
                    0 <= k < mm.len() && (#[trigger] mm[k]).market_id == e.market_id) by {
                    assert(0 <= i < mm.len() && mm[i].market_id == e.market_id);
                }
                assert(false);
            }
        } else {
            assert(nm[i] == mm[i]);
            assert(nm[j] == mm[j]);
            assert(mm[i].market_id != mm[j].market_id);
        }
    }
}

/// Find an outcome entry's index.
fn find_outcome_exec(books: &Vec<OutcomeState>, oid: &String) -> (r: Option<usize>)
    ensures
        match r {
            Some(i) => find_outcome(books_model(books@), oid@) == Some(i as int),
            None => find_outcome(books_model(books@), oid@) is None,
        },
{
    let ghost bm = books_model(books@);
    let mut i: usize = 0;
    while i < books.len()
        invariant
            i <= books.len(),
            bm == books_model(books@),
            forall|k: int| 0 <= k < i ==> (#[trigger] bm[k]).outcome_id != oid@,
        decreases books.len() - i,
    {
        proof {
            assert(bm[i as int] == books@[i as int]@);
        }
        if String::eq(&books[i].outcome_id, oid) {
            proof {
                lemma_find_outcome(bm, oid@);
                assert(exists|k: int| 0 <= k < bm.len() && (#[trigger] bm[k]).outcome_id == oid@)
                    by {
                    assert(0 <= (i as int) < bm.len() && bm[i as int].outcome_id == oid@);
                }
                let i0 = find_outcome(bm, oid@)->Some_0;
                assert(i0 <= i as int);
                assert(i0 >= i as int);
            }
            return Some(i);
        }
        i = i + 1;
    }
    proof {
        lemma_find_outcome(bm, oid@);
        if find_outcome(bm, oid@) is Some {
            let i0 = find_outcome(bm, oid@)->Some_0;
            assert(bm[i0].outcome_id == oid@);
            assert(false);
        }
    }
    None
}

/// Find a market entry's index.
fn find_market_exec(markets: &Vec<MarketOutcomes>, mid: u32) -> (r: Option<usize>)
    ensures
        match r {
            Some(i) => find_market(markets_model(markets@), mid) == Some(i as int),
            None => find_market(markets_model(markets@), mid) is None,
        },
{
    let ghost mm = markets_model(markets@);
    let mut i: usize = 0;
    while i < markets.len()
        invariant
            i <= markets.len(),
            mm == markets_model(markets@),
            forall|k: int| 0 <= k < i ==> (#[trigger] mm[k]).market_id != mid,
        decreases markets.len() - i,
    {
        proof {
            assert(mm[i as int] == markets@[i as int]@);
        }
        if markets[i].market_id == mid {
            proof {
                lemma_find_market(mm, mid);
                assert(exists|k: int| 0 <= k < mm.len() && (#[trigger] mm[k]).market_id == mid)
                    by {
                    assert(0 <= (i as int) < mm.len() && mm[i as int].market_id == mid);
                }
                let i0 = find_market(mm, mid)->Some_0;
                assert(i0 <= i as int);
                assert(i0 >= i as int);
            }
            return Some(i);
        }
        i = i + 1;
    }
    proof {
        lemma_find_market(mm, mid);
        if find_market(mm, mid) is Some {
            let i0 = find_market(mm, mid)->Some_0;
            assert(mm[i0].market_id == mid);
            assert(false);
        }
    }
    None
}

/// Whether a list of identifiers holds one.
fn contains_str_exec(ids: &Vec<String>, oid: &String) -> (r: bool)
    ensures
        r == contains_str(strings_model(ids@), oid@),
{
    let ghost sm = strings_model(ids@);
    let mut i: usize = 0;
    while i < ids.len()
        invariant
            i <= ids.len(),
            sm == strings_model(ids@),
            forall|k: int| 0 <= k < i ==> sm[k] != oid@,
        decreases ids.len() - i,
    {
        proof {
            assert(sm[i as int] == ids@[i as int]@);
        }
        if String::eq(&ids[i], oid) {
            proof {
                assert(sm[i as int] == oid@);
            }
            return true;
        }
        i = i + 1;
    }
    proof {
        if contains_str(sm, oid@) {
            let k = choose|k: int| 0 <= k < sm.len() && sm[k] == oid@;
            assert(false);
        }
    }
    false
}

/// The engine's books after making sure this outcome has one: an empty
/// book is created on first reference, keyed and named by the outcome.
pub open spec fn spec_ensure_books(books: Seq<OutcomeModel>, oid: Seq<char>) -> Seq<OutcomeModel> {
    match find_outcome(books, oid) {
        Some(_) => books,
        None => books.push(
            OutcomeModel {
                outcome_id: oid,
                book: spec_empty_book(oid, oid),
                fair_price: 0,
                total_outcome_volume: 0,
            },
        ),
    }
}

/// The market index after recording that an outcome trades under a
/// market.
pub open spec fn spec_register_market(
    markets: Seq<MarketModel>,
    mid: u32,
    oid: Seq<char>,
) -> Seq<MarketModel> {
    match find_market(markets, mid) {
        None => markets.push(MarketModel { market_id: mid, outcome_ids: seq![oid] }),
        Some(k) => if contains_str(markets[k].outcome_ids, oid) {
            markets
        } else {
            markets.update(
                k,
                MarketModel {
                    market_id: mid,
                    outcome_ids: markets[k].outcome_ids.push(oid),
                },
            )
        },
    }
}

/// Per-outcome data handed to the ledger and the read side after each
/// command: derived state plus a structural book snapshot.
#[derive(Debug)]
pub struct MarketSnapshot {
    pub outcome_id: String,
    pub fair_price: u64,
    pub total_volume: u64,
    pub snapshot: Snapshot,
}

/// The mathematical content of a [`MarketSnapshot`].
#[verifier::ext_equal]
pub ghost struct MarketSnapshotModel {
    pub outcome_id: Seq<char>,
    pub fair_price: u64,
    pub total_volume: u64,
    pub snapshot: SnapshotModel,
}

impl View for MarketSnapshot {
    type V = MarketSnapshotModel;

    open spec fn view(&self) -> MarketSnapshotModel {
        MarketSnapshotModel {
            outcome_id: self.outcome_id@,
            fair_price: self.fair_price,
            total_volume: self.total_volume,
            snapshot: self.snapshot@,
        }
    }
}

/// The view of a snapshot list.
pub open spec fn snapshots_model(v: Seq<MarketSnapshot>) -> Seq<MarketSnapshotModel> {
    v.map_values(|s: MarketSnapshot| s@)
}

/// The snapshot data captured after a command: one entry per outcome,
/// in book order.
pub open spec fn spec_snapshots(books: Seq<OutcomeModel>) -> Seq<MarketSnapshotModel> {
    Seq::new(
        books.len(),
        |i: int|
            MarketSnapshotModel {
                outcome_id: books[i].outcome_id,
                fair_price: books[i].fair_price,
                total_volume: books[i].total_outcome_volume,
                snapshot: SnapshotModel {
                    bids: books[i].book.bids,
                    asks: books[i].book.asks,
                    next_order_id: books[i].book.next_order_id,
                },
            },
    )
}

/// A saturating product of quantity and price.
pub open spec fn qp_notional(q: u64, p: u64) -> u64 {
    if q * p > u64::MAX {
        u64::MAX
    } else {
        (q * p) as u64
    }
}

/// The one summary event of an execution, by its status.
pub open spec fn spec_summary_event(o: OrderModel, rep: ReportModel) -> EventModel {
    match rep.status {
        OrderStatus::New => EventModel::OrderPlaced {
            order_id: rep.order_id,
            account_id: o.account_id,
            outcome_id: o.outcome_id,
            side: o.side,
            quantity: o.qty_original,
            price: o.price,
            time_in_force: Some(rep.time_in_force),
        },
        OrderStatus::Filled => EventModel::OrderFilled {
            order_id: rep.order_id,
            account_id: o.account_id,
            outcome_id: o.outcome_id,
            side: o.side,
            quantity: o.qty_original,
            price: o.price,
            time_in_force: Some(rep.time_in_force),
        },
        OrderStatus::PartiallyFilled => EventModel::OrderPartial {
            order_id: rep.order_id,
            account_id: o.account_id,
            outcome_id: o.outcome_id,
            side: o.side,
            quantity: o.qty_original,
            price: o.price,
            remaining: rep.remaining_qty,
            original_quantity: rep.orig_qty,
            time_in_force: Some(rep.time_in_force),
        },
        OrderStatus::Canceled => EventModel::OrderCancelled {
            order_id: rep.order_id,
            account_id: o.account_id,
            outcome_id: o.outcome_id,
            side: o.side,
            quantity: o.qty_original,
            price: o.price,
            time_in_force: Some(rep.time_in_force),
        },
        OrderStatus::Rejected => EventModel::OrderRejected {
            account_id: o.account_id,
            outcome_id: o.outcome_id,
            side: o.side,
            quantity: o.qty_original,
            price: o.price,
            time_in_force: Some(rep.time_in_force),
        },
    }
}

/// One `Trade` event per fill: its identifier is the deterministic
/// function of (taker order, maker order, maker account), never a
/// random value, so replay reproduces it exactly.
pub open spec fn spec_trade_event(o: OrderModel, rep: ReportModel, f: FillModel) -> EventModel {
    EventModel::Trade {
        trade_id: uuid_v5_of(trade_key_bytes(rep.order_id, f.maker_order_id, f.maker_account_id)),
        order_id: rep.order_id,
        filled_order_id: f.maker_order_id,
        filled_account_id: f.maker_account_id,
        account_id: o.account_id,
        outcome_id: o.outcome_id,
        side: o.side,
        quantity: f.quantity,
        price: f.price,
        remaining: o.qty_remaining,
        original_quantity: o.qty_original,
        time_in_force: Some(rep.time_in_force),
    }
}

/// The trade events of an execution, one per fill in match order.
pub open spec fn spec_trades(o: OrderModel, rep: ReportModel) -> Seq<EventModel> {
    Seq::new(rep.fills.len(), |k: int| spec_trade_event(o, rep, rep.fills[k]))
}

/// The one event of a rejected command.
pub open spec fn spec_rejected_event(o: OrderModel) -> EventModel {
    EventModel::OrderRejected {
        account_id: o.account_id,
        outcome_id: o.outcome_id,
        side: o.side,
        quantity: o.qty_original,
        price: o.price,
        time_in_force: Some(TimeInForce::GTC),
    }
}

/// Applying one validated order to the engine: make sure the outcome
/// has a book and is registered under its market; place the order; on
/// success update the outcome's fair price (to the last executed trade
/// price) and cumulative volume, and emit one summary event plus one
/// trade per fill; on refusal emit exactly one rejection event and
/// change nothing. Snapshot data for every outcome is captured after.
pub open spec fn spec_order_execution(e: EngineModel, o: OrderModel) -> (
    EngineModel,
    Seq<EventModel>,
    Seq<MarketSnapshotModel>,
) {
    let e1 = EngineModel {
        books: spec_ensure_books(e.books, o.outcome_id),
        markets: spec_register_market(e.markets, o.market_id, o.outcome_id),
    };
    let idx = find_outcome(e1.books, o.outcome_id)->Some_0;
    let st = e1.books[idx];
    if o.order_type == OrderType::Limit {
        let opts = LimitOptionsModel {
            side: o.side,
            price: o.price,
            quantity: o.qty_original,
            account_id: o.account_id,
            time_in_force: Some(TimeInForce::GTC),
            post_only: Some(false),
        };
        if limit_ok(st.book, opts) {
            spec_execution_success(e1, idx, st, spec_limit(st.book, opts), o)
        } else {
            (e1, seq![spec_rejected_event(o)], spec_snapshots(e1.books))
        }
    } else {
        let opts = MarketOptionsModel {
            side: o.side,
            quantity: o.qty_original,
            account_id: o.account_id,
        };
        if market_ok(st.book, opts) {
            spec_execution_success(e1, idx, st, spec_market(st.book, opts), o)
        } else {
            (e1, seq![spec_rejected_event(o)], spec_snapshots(e1.books))
        }
    }
}

/// The successful half of [`spec_order_execution`].
pub open spec fn spec_execution_success(
    e1: EngineModel,
    idx: int,
    st: OutcomeModel,
    placed: (BookModel, ReportModel),
    o: OrderModel,
) -> (EngineModel, Seq<EventModel>, Seq<MarketSnapshotModel>) {
    let (b3, rep) = placed;
    let st1 = OutcomeModel {
        book: b3,
        fair_price: if rep.status == OrderStatus::Filled || rep.status
            == OrderStatus::PartiallyFilled {
            rep.price
        } else {
            st.fair_price
        },
        total_outcome_volume: sat_add_spec(
            st.total_outcome_volume,
            qp_notional(rep.executed_qty, rep.price),
        ),
        ..st
    };
    let e2 = EngineModel { books: e1.books.update(idx, st1), ..e1 };
    (e2, seq![spec_summary_event(o, rep)] + spec_trades(o, rep), spec_snapshots(e2.books))
}

/// Replacing one outcome's book with a well-formed one, under the same
/// identifier, keeps the engine's books well formed and unique.
pub proof fn lemma_update_keeps_wf(bm: Seq<OutcomeModel>, idx: int, st1: OutcomeModel)
    requires
        forall|i: int| 0 <= i < bm.len() ==> book_wf((#[trigger] bm[i]).book),
        forall|i: int, j: int| 0 <= i < j < bm.len() ==> bm[i].outcome_id != bm[j].outcome_id,
        0 <= idx < bm.len(),
        st1.outcome_id == bm[idx].outcome_id,
        book_wf(st1.book),
    ensures
        forall|i: int|
            0 <= i < bm.update(idx, st1).len() ==> book_wf(
                (#[trigger] bm.update(idx, st1)[i]).book,
            ),
        forall|i: int, j: int|
            0 <= i < j < bm.update(idx, st1).len() ==> bm.update(idx, st1)[i].outcome_id
                != bm.update(idx, st1)[j].outcome_id,
{
    let nb = bm.update(idx, st1);
    assert forall|i: int| 0 <= i < nb.len() implies book_wf((#[trigger] nb[i]).book) by {
        if i != idx {
            assert(nb[i] == bm[i]);
        }
    }
    assert forall|i: int, j: int| 0 <= i < j < nb.len() implies nb[i].outcome_id
        != nb[j].outcome_id by {
        assert(nb[i].outcome_id == bm[i].outcome_id);
        assert(nb[j].outcome_id == bm[j].outcome_id);
        assert(bm[i].outcome_id != bm[j].outcome_id);
    }
}

impl Default for MatchingEngine {
    /// A fresh engine with no books, as [`MatchingEngine::new`] builds.
    fn default() -> (r: MatchingEngine)
        ensures
            r.wf(),
            r@.books.len() == 0,
            r@.markets.len() == 0,
    {
        MatchingEngine::new()
    }
}

/// Level counts of one book, for observability.
#[derive(Clone, Copy, Debug, PartialEq, Eq, Structural)]
pub struct BookStats {
    pub bid_levels: usize,
    pub ask_levels: usize,
}

/// A read-only view of the engine: how many books exist, and each
/// book's level counts.
#[derive(Debug)]
pub struct EngineStats {
    pub total_books: usize,
    pub books: Vec<(String, BookStats)>,
}

/// Remove the first order matching (identifier, account) across all
/// books, scanning books in order, each book bids before asks. `None`
/// when no book holds such an order.
pub open spec fn spec_find_and_remove(
    books: Seq<OutcomeModel>,
    oid: u64,
    aid: Seq<char>,
) -> Option<(Seq<OutcomeModel>, int, OrderModel)>
    decreases books.len(),
{
    if books.len() == 0 {
        None
    } else {
        match spec_book_remove(books[0].book, oid, Some(aid)) {
            Some((b1, rm)) => Some(
                (books.update(0, OutcomeModel { book: b1, ..books[0] }), 0int, rm),
            ),
            None => match spec_find_and_remove(books.drop_first(), oid, aid) {
                Some((bs, i, rm)) => Some((seq![books[0]] + bs, i + 1, rm)),
                None => None,
            },
        }
    }
}

/// Where the first matching order sits in book `bi`, the scan removes
/// it from exactly that book.
pub proof fn lemma_find_and_remove_at(
    books: Seq<OutcomeModel>,
    oid: u64,
    aid: Seq<char>,
    bi: int,
)
    requires
        0 <= bi < books.len(),
        forall|k: int|
            0 <= k < bi ==> spec_book_remove((#[trigger] books[k]).book, oid, Some(aid)) is None,
        spec_book_remove(books[bi].book, oid, Some(aid)) is Some,
    ensures
        ({
            let (b1, rm) = spec_book_remove(books[bi].book, oid, Some(aid))->Some_0;
            spec_find_and_remove(books, oid, aid) == Some(
                (books.update(bi, OutcomeModel { book: b1, ..books[bi] }), bi, rm),
            )
        }),
    decreases bi,
{
    if bi == 0 {
    } else {
        let tail = books.drop_first();
        assert forall|k: int| 0 <= k < bi - 1 implies spec_book_remove(
            (#[trigger] tail[k]).book,
            oid,
            Some(aid),
        ) is None by {
            assert(tail[k] == books[k + 1]);
        }
        assert(tail[bi - 1] == books[bi]);
        lemma_find_and_remove_at(tail, oid, aid, bi - 1);
        let (b1, rm) = spec_book_remove(books[bi].book, oid, Some(aid))->Some_0;
        assert(seq![books[0]] + tail.update(bi - 1, OutcomeModel { book: b1, ..tail[bi - 1] })
            =~~= books.update(bi, OutcomeModel { book: b1, ..books[bi] }));
    }
}

/// Where no book holds a matching order, the scan is a no-op.
pub proof fn lemma_find_and_remove_none(books: Seq<OutcomeModel>, oid: u64, aid: Seq<char>)
    requires
        forall|k: int|
            0 <= k < books.len() ==> spec_book_remove(
                (#[trigger] books[k]).book,
                oid,
                Some(aid),
            ) is None,
    ensures
        spec_find_and_remove(books, oid, aid) is None,
    decreases books.len(),
{
    if books.len() > 0 {
        let tail = books.drop_first();
        assert forall|k: int| 0 <= k < tail.len() implies spec_book_remove(
            (#[trigger] tail[k]).book,
            oid,
            Some(aid),
        ) is None by {
            assert(tail[k] == books[k + 1]);
        }
        lemma_find_and_remove_none(tail, oid, aid);
    }
}

/// The representative price of an outcome's book, zero when the
/// outcome has no book or its book offers no price.
pub open spec fn spec_rep_price_of(books: Seq<OutcomeModel>, oid: Seq<char>) -> u64 {
    match find_outcome(books, oid) {
        Some(i) => match spec_representative_price(books[i].book) {
            Some(p) => p,
            None => 0,
        },
        None => 0,
    }
}

/// Saturating sum of a list of numerators, accumulated onto `acc`.
pub open spec fn spec_sat_sum_from(acc: u64, nums: Seq<u64>) -> u64
    decreases nums.len(),
{
    if nums.len() == 0 {
        acc
    } else {
        spec_sat_sum_from(sat_add_spec(acc, nums[0]), nums.drop_first())
    }
}

/// The exact (unbounded) sum of a list of numerators.
pub open spec fn spec_sum_int(nums: Seq<u64>) -> int
    decreases nums.len(),
{
    if nums.len() == 0 {
        0
    } else {
        nums[0] + spec_sum_int(nums.drop_first())
    }
}

/// Normalized market probabilities for the outcomes of one market.
///
/// Each outcome's probability is the rational `numerators[i] /
/// denominator`, where the numerator is the outcome's representative
/// price and the denominator the sum of all numerators: when the
/// denominator is zero — all representative prices zero — every
/// probability is zero by convention, never a division by zero.
#[derive(Debug)]
pub struct MarketProbabilities {
    pub outcome_ids: Vec<String>,
    pub numerators: Vec<u64>,
    pub denominator: u64,
}

/// Where the true sum fits in a `u64`, the saturating sum is exact:
/// the probabilities' numerators then sum to exactly the denominator,
/// so the normalized probabilities sum to one.
pub proof fn lemma_sat_sum_exact(acc: u64, nums: Seq<u64>)
    requires
        acc + spec_sum_int(nums) <= u64::MAX,
    ensures
        spec_sat_sum_from(acc, nums) == acc + spec_sum_int(nums),
    decreases nums.len(),
{
    if nums.len() > 0 {
        lemma_sum_int_nonneg(nums.drop_first());
        lemma_sat_sum_exact((acc + nums[0]) as u64, nums.drop_first());
    }
}

/// Sums of numerators are never negative.
pub proof fn lemma_sum_int_nonneg(nums: Seq<u64>)
    ensures
        spec_sum_int(nums) >= 0,
    decreases nums.len(),
{
    if nums.len() > 0 {
        lemma_sum_int_nonneg(nums.drop_first());
    }
}

/// Where every representative price is zero, the denominator is zero:
/// all probabilities are zero, not a division by zero.
pub proof fn lemma_sat_sum_zero(acc: u64, nums: Seq<u64>)
    requires
        forall|i: int| 0 <= i < nums.len() ==> nums[i] == 0,
    ensures
        spec_sat_sum_from(acc, nums) == acc,
    decreases nums.len(),
{
    if nums.len() > 0 {
        assert(nums[0] == 0);
        assert forall|i: int| 0 <= i < nums.drop_first().len() implies nums.drop_first()[i]
            == 0 by {
            assert(nums.drop_first()[i] == nums[i + 1]);
        }
        lemma_sat_sum_zero(acc, nums.drop_first());
    }
}

/// Installing one snapshot: the outcome's book is replaced (or created)
/// with exactly the captured structure, on a fresh book for the
/// outcome; derived state is kept.
pub open spec fn spec_install_snapshot(
    books: Seq<OutcomeModel>,
    oid: Seq<char>,
    s: SnapshotModel,
) -> Seq<OutcomeModel> {
    let nb = BookModel {
        bids: s.bids,
        asks: s.asks,
        next_order_id: s.next_order_id,
        ..spec_empty_book(oid, oid)
    };
    let books1 = spec_ensure_books(books, oid);
    let idx = find_outcome(books1, oid)->Some_0;
    books1.update(idx, OutcomeModel { book: nb, ..books1[idx] })
}

/// Installing a list of snapshots in order; stops at the first
/// structurally unsound snapshot, leaving earlier ones installed.
pub open spec fn spec_apply_snapshots(
    books: Seq<OutcomeModel>,
    entries: Seq<(Seq<char>, SnapshotModel)>,
) -> (Seq<OutcomeModel>, bool)
    decreases entries.len(),
{
    if entries.len() == 0 {
        (books, true)
    } else if !snapshot_wf(entries[0].1) {
        (books, false)
    } else {
        spec_apply_snapshots(
            spec_install_snapshot(books, entries[0].0, entries[0].1),
            entries.drop_first(),
        )
    }
}

/// The view of a snapshot-entry list.
pub open spec fn entries_model(v: Seq<(String, Snapshot)>) -> Seq<(Seq<char>, SnapshotModel)> {
    v.map_values(|e: (String, Snapshot)| (e.0@, e.1@))
}

/// Build the `Trade` events of one execution, one per fill in match
/// order, per [`spec_trades`].
fn build_trade_events(order: &Order, report: &crate::book::ExecutionReport) -> (r: Vec<
    PublishEngineEvent,
>)
    ensures
        events_model(r@) == spec_trades(order@, report@),
{
    let ghost om = order@;
    let ghost repm = report@;
    let ghost trades = spec_trades(om, repm);
    let mut r: Vec<PublishEngineEvent> = Vec::new();
    proof {
        assert(events_model(r@) =~= trades.take(0));
    }
    let mut i: usize = 0;
    while i < report.fills.len()
        invariant
            i <= report.fills.len(),
            om == order@,
            repm == report@,
            trades == spec_trades(om, repm),
            events_model(r@) == trades.take(i as int),
        decreases report.fills.len() - i,
    {
        let f = &report.fills[i];
        let tid = deterministic_trade_id(report.order_id, f.maker_order_id, &f.maker_account_id);
        let ev = PublishEngineEvent::Trade {
            trade_id: tid,
            order_id: report.order_id,
            filled_order_id: f.maker_order_id,
            filled_account_id: f.maker_account_id.clone(),
            account_id: order.account_id.clone(),
            outcome_id: order.outcome_id.clone(),
            side: order.side,
            quantity: f.quantity,
            price: f.price,
            remaining: order.qty_remaining,
            original_quantity: order.qty_original,
            time_in_force: Some(report.time_in_force),
        };
        let ghost evm = ev@;
        let ghost pre_r = r@;
        proof {
            assert(repm.fills[i as int] == report.fills@[i as int]@);
            assert(evm =~~= spec_trade_event(om, repm, repm.fills[i as int]));
            assert(events_model(pre_r).len() == pre_r.len());
            assert(pre_r.len() == i as int);
        }
        r.push(ev);
        proof {
            let iv = i as int;
            assert forall|k: int| 0 <= k < iv + 1 implies events_model(r@)[k] == trades.take(
                iv + 1,
            )[k] by {
                if k < iv {
                    assert(r@[k] == pre_r[k]);
                    assert(events_model(pre_r)[k] == trades.take(iv)[k]);
                } else {
                    assert(r@[k] == ev);
                }
            }
            assert(events_model(r@) =~= trades.take(iv + 1));
        }
        i = i + 1;
    }
    proof {
        assert(trades.take(trades.len() as int) =~= trades);
    }
    r
}

impl MatchingEngine {
    /// The engine's well-formedness: see [`engine_wf`].
    pub open spec fn wf(&self) -> bool {
        engine_wf(self@)
    }

    /// A fresh engine with no books.
    pub fn new() -> (r: MatchingEngine)
        ensures
            r.wf(),
            r@.books.len() == 0,
            r@.markets.len() == 0,
    {
        let r = MatchingEngine { books: Vec::new(), markets: Vec::new() };
        proof {
            assert(r@.books =~= Seq::<OutcomeModel>::empty());
            assert(r@.markets =~= Seq::<MarketModel>::empty());
        }
        r
    }

    /// Make sure the outcome has a book, creating an empty one on first
    /// reference, and return its index.
    pub fn get_or_create_book(&mut self, outcome_id: &String) -> (r: usize)
        requires
            old(self).wf(),
        ensures
            final(self).wf(),
            final(self)@.books == spec_ensure_books(old(self)@.books, outcome_id@),
            final(self)@.markets == old(self)@.markets,
            find_outcome(final(self)@.books, outcome_id@) == Some(r as int),
            r < final(self)@.books.len(),
            final(self)@.books[r as int].outcome_id == outcome_id@,
    {
        let ghost bm = books_model(self.books@);
        proof {
            lemma_find_outcome(bm, outcome_id@);
        }
        match find_outcome_exec(&self.books, outcome_id) {
            Some(i) => {
                proof {
                    assert(self@.books =~= spec_ensure_books(bm, outcome_id@));
                    assert(forall|k: int|
                        0 <= k < self@.books.len() ==> book_wf(
                            (#[trigger] self@.books[k]).book,
                        ));
                    assert(forall|k: int, j: int|
                        0 <= k < j < self@.books.len() ==> self@.books[k].outcome_id
                            != self@.books[j].outcome_id);
                    assert(forall|k: int, j: int|
                        0 <= k < j < self@.markets.len() ==> self@.markets[k].market_id
                            != self@.markets[j].market_id) by {
                        assert(forall|k: int, j: int|
                            0 <= k < j < old(self)@.markets.len() ==> old(
                                self,
                            )@.markets[k].market_id != old(self)@.markets[j].market_id);
                    }
                    assert(engine_wf(self@));
                }
                i
            },
            None => {
                let idx = self.books.len();
                let st = OutcomeState {
                    outcome_id: outcome_id.clone(),
                    book: OrderBook::new(outcome_id.as_str(), outcome_id.as_str()),
                    fair_price: 0,
                    total_outcome_volume: 0,
                };
                let ghost stm = st@;
                self.books.push(st);
                proof {
                    assert(books_model(self.books@) =~= bm.push(stm));
                    assert(stm =~~= (OutcomeModel {
                        outcome_id: outcome_id@,
                        book: spec_empty_book(outcome_id@, outcome_id@),
                        fair_price: 0,
                        total_outcome_volume: 0,
                    }));
                    assert(books_model(self.books@) =~~= spec_ensure_books(bm, outcome_id@));
                    let nb = books_model(self.books@);
                    lemma_find_outcome(nb, outcome_id@);
                    assert forall|k: int| 0 <= k < idx as int implies nb[k].outcome_id
                        != outcome_id@ by {
                        assert(nb[k] == bm[k]);
                        if bm[k].outcome_id == outcome_id@ {
                            assert(exists|i: int|
                                0 <= i < bm.len() && (#[trigger] bm[i]).outcome_id == outcome_id@);
                            assert(false);
                        }
                    }
                    assert(exists|i: int|
                        0 <= i < nb.len() && (#[trigger] nb[i]).outcome_id == outcome_id@) by {
                        assert(nb[idx as int].outcome_id == outcome_id@);
                    }
                    let i0 = find_outcome(nb, outcome_id@)->Some_0;
                    assert(i0 <= idx as int);
                    assert(i0 >= idx as int) by {
                        if i0 < idx as int {
                            assert(nb[i0].outcome_id == outcome_id@);
                            assert(false);
                        }
                    }
                    // uniqueness is kept: only an absent identifier was added
                    assert(forall|i: int, j: int|
                        0 <= i < j < bm.len() ==> bm[i].outcome_id != bm[j].outcome_id) by {
                        assert(bm == old(self)@.books);
                    }
                    lemma_push_unique_outcome(bm, stm);
                    assert(nb == bm.push(stm));
                    assert(forall|i: int|
                        0 <= i < nb.len() ==> book_wf((#[trigger] nb[i]).book)) by {
                        assert(forall|i: int|
                            0 <= i < bm.len() ==> book_wf((#[trigger] bm[i]).book));
                        assert(nb[idx as int] == stm);
                        assert(forall|i: int| 0 <= i < idx as int ==> nb[i] == bm[i]);
                    }
                    assert(self@.markets == old(self)@.markets);
                    assert(forall|i: int, j: int|
                        0 <= i < j < self@.markets.len() ==> self@.markets[i].market_id
                            != self@.markets[j].market_id) by {
                        assert(forall|i: int, j: int|
                            0 <= i < j < old(self)@.markets.len() ==> old(
                                self,
                            )@.markets[i].market_id != old(self)@.markets[j].market_id);
                    }
                    assert(self@.books == nb);
                    assert(engine_wf(self@));
                }
                idx
            },
        }
    }

    /// Capture the per-outcome snapshot data published after each
    /// command: derived state plus a structural snapshot of each book.
    pub fn create_snapshots(&self) -> (r: Vec<MarketSnapshot>)
        ensures
            snapshots_model(r@) == spec_snapshots(self@.books),
    {
        let ghost target = spec_snapshots(self@.books);
        let mut r: Vec<MarketSnapshot> = Vec::new();
        proof {
            assert(snapshots_model(r@) =~= target.take(0));
        }
        let mut i: usize = 0;
        while i < self.books.len()
            invariant
                i <= self.books.len(),
                target == spec_snapshots(self@.books),
                snapshots_model(r@) == target.take(i as int),
            decreases self.books.len() - i,
        {
            let st = &self.books[i];
            let entry = MarketSnapshot {
                outcome_id: st.outcome_id.clone(),
                fair_price: st.fair_price,
                total_volume: st.total_outcome_volume,
                snapshot: st.book.snapshot(),
            };
            let ghost em = entry@;
            let ghost pre_r = r@;
            proof {
                assert(self@.books[i as int] == self.books@[i as int]@);
                assert(em =~~= target[i as int]);
                assert(snapshots_model(pre_r).len() == pre_r.len());
                assert(pre_r.len() == i as int);
            }
            r.push(entry);
            proof {
                let iv = i as int;
                assert forall|k: int| 0 <= k < iv + 1 implies snapshots_model(r@)[k]
                    == target.take(iv + 1)[k] by {
                    if k < iv {
                        assert(r@[k] == pre_r[k]);
                        assert(snapshots_model(pre_r)[k] == target.take(iv)[k]);
                    } else {
                        assert(r@[k] == entry);
                    }
                }
                assert(snapshots_model(r@) =~= target.take(iv + 1));
            }
            i = i + 1;
        }
        proof {
            assert(target.take(target.len() as int) =~= target);
        }
        r
    }

    /// Apply one validated order, per [`spec_order_execution`]: place
    /// it against its outcome's book (created on first reference),
    /// update the outcome's fair price and cumulative volume, and
    /// return the business events plus per-outcome snapshot data.
    ///
    /// Exactly one summary event is emitted — `OrderPlaced`,
    /// `OrderPartial`, `OrderFilled`, `OrderCancelled`, or, when the
    /// book refuses the placement, a single `OrderRejected` — with one
    /// `Trade` event per fill, whose identifier is a deterministic
    /// function of the two orders and the maker's account.
    #[verifier::rlimit(100)]
    pub fn order_execution(&mut self, order: &Order) -> (r: (
        Vec<PublishEngineEvent>,
        Vec<MarketSnapshot>,
    ))
        requires
            old(self).wf(),
            order@.valid(),
        ensures
            final(self).wf(),
            ({
                let (e2, evs, snaps) = spec_order_execution(old(self)@, order@);
                &&& final(self)@ == e2
                &&& events_model(r.0@) == evs
                &&& snapshots_model(r.1@) == snaps
            }),
    {
        let ghost e0 = self@;
        let ghost om = order@;
        let idx = self.get_or_create_book(&order.outcome_id);
        self.register_market(order.market_id, &order.outcome_id);
        let ghost e1 = EngineModel {
            books: spec_ensure_books(e0.books, om.outcome_id),
            markets: spec_register_market(e0.markets, om.market_id, om.outcome_id),
        };
        proof {
            assert(self@ =~~= e1);
        }
        let mut st = self.books.remove(idx);
        let ghost stm = st@;
        proof {
            assert(stm == e1.books[idx as int]);
        }
        let result = match order.order_type {
            OrderType::Limit => st.book.limit(
                LimitOrderOptions {
                    side: order.side,
                    price: order.price,
                    quantity: order.qty_original,
                    account_id: order.account_id.clone(),
                    time_in_force: Some(TimeInForce::GTC),
                    post_only: Some(false),
                },
            ),
            OrderType::Market => st.book.market(
                MarketOrderOptions {
                    side: order.side,
                    quantity: order.qty_original,
                    account_id: order.account_id.clone(),
                },
            ),
        };
        match result {
            Err(_e) => {
                // total rejection: exactly one OrderRejected, nothing changed
                self.books.insert(idx, st);
                proof {
                    assert(books_model(self.books@) =~= e1.books);
                    assert(self@ =~~= e1);
                    assert(engine_wf(self@)) by {
                        assert(self@ =~~= e1);
                        assert(engine_wf(e1)) by {
                            assert(forall|i: int|
                                0 <= i < e1.books.len() ==> book_wf(
                                    (#[trigger] e1.books[i]).book,
                                ));
                        }
                    }
                }
                let mut events: Vec<PublishEngineEvent> = Vec::new();
                events.push(
                    PublishEngineEvent::OrderRejected {
                        account_id: order.account_id.clone(),
                        outcome_id: order.outcome_id.clone(),
                        side: order.side,
                        quantity: order.qty_original,
                        price: order.price,
                        time_in_force: Some(TimeInForce::GTC),
                    },
                );
                let snaps = self.create_snapshots();
                proof {
                    assert(events_model(events@) =~= seq![spec_rejected_event(om)]);
                }
                (events, snaps)
            },
            Ok(report) => {
                let ghost repm = report@;
                match report.status {
                    OrderStatus::Filled => {
                        st.fair_price = report.price;
                    },
                    OrderStatus::PartiallyFilled => {
                        st.fair_price = report.price;
                    },
                    _ => {},
                }
                let notional = report.executed_qty.checked_mul(report.price).unwrap_or(u64::MAX);
                st.total_outcome_volume = st.total_outcome_volume.saturating_add(notional);
                let ghost st1 = st@;
                self.books.insert(idx, st);
                proof {
                    assert(books_model(self.books@) =~= e1.books.update(idx as int, st1));
                    assert(forall|i: int|
                        0 <= i < e1.books.len() ==> book_wf((#[trigger] e1.books[i]).book));
                    assert(forall|i: int, j: int|
                        0 <= i < j < e1.books.len() ==> e1.books[i].outcome_id
                            != e1.books[j].outcome_id);
                    lemma_update_keeps_wf(e1.books, idx as int, st1);
                    assert(engine_wf(self@)) by {
                        assert(self@.books == e1.books.update(idx as int, st1));
                        assert(self@.markets == e1.markets);
                        assert(forall|i: int, j: int|
                            0 <= i < j < e1.markets.len() ==> e1.markets[i].market_id
                                != e1.markets[j].market_id);
                    }
                }
                let mut events: Vec<PublishEngineEvent> = Vec::new();
                match report.status {
                    OrderStatus::New => {
                        events.push(
                            PublishEngineEvent::OrderPlaced {
                                order_id: report.order_id,
                                account_id: order.account_id.clone(),
                                outcome_id: order.outcome_id.clone(),
                                side: order.side,
                                quantity: order.qty_original,
                                price: order.price,
                                time_in_force: Some(report.time_in_force),
                            },
                        );
                    },
                    OrderStatus::Filled => {
                        events.push(
                            PublishEngineEvent::OrderFilled {
                                order_id: report.order_id,
                                account_id: order.account_id.clone(),
                                outcome_id: order.outcome_id.clone(),
                                side: order.side,
                                quantity: order.qty_original,
                                price: order.price,
                                time_in_force: Some(report.time_in_force),
                            },
                        );
                    },
                    OrderStatus::PartiallyFilled => {
                        events.push(
                            PublishEngineEvent::OrderPartial {
                                order_id: report.order_id,
                                account_id: order.account_id.clone(),
                                outcome_id: order.outcome_id.clone(),
                                side: order.side,
                                quantity: order.qty_original,
                                price: order.price,
                                remaining: report.remaining_qty,
                                original_quantity: report.orig_qty,
                                time_in_force: Some(report.time_in_force),
                            },
                        );
                    },
                    OrderStatus::Canceled => {
                        events.push(
                            PublishEngineEvent::OrderCancelled {
                                order_id: report.order_id,
                                account_id: order.account_id.clone(),
                                outcome_id: order.outcome_id.clone(),
                                side: order.side,
                                quantity: order.qty_original,
                                price: order.price,
                                time_in_force: Some(report.time_in_force),
                            },
                        );
                    },
                    OrderStatus::Rejected => {
                        events.push(
                            PublishEngineEvent::OrderRejected {
                                account_id: order.account_id.clone(),
                                outcome_id: order.outcome_id.clone(),
                                side: order.side,
                                quantity: order.qty_original,
                                price: order.price,
                                time_in_force: Some(report.time_in_force),
                            },
                        );
                    },
                }
                proof {
                    assert(events_model(events@) =~= seq![spec_summary_event(om, repm)]);
                }
                let ghost summary = events_model(events@);
                let mut trade_events = build_trade_events(order, &report);
                let ghost tem = events_model(trade_events@);
                events.append(&mut trade_events);
                proof {
                    assert(events_model(events@) =~= summary + tem);
                }
                let snaps = self.create_snapshots();
                proof {
                    let (e2, evs, sn) = spec_order_execution(e0, om);
                    assert(self@ =~~= e2);
                    assert(events_model(events@) =~= evs);
                    assert(snapshots_model(snaps@) =~= sn);
                }
                (events, snaps)
            },
        }
    }

    /// A read-only view of the engine: the number of books and each
    /// book's level counts, in book order.
    pub fn stats(&self) -> (r: EngineStats)
        ensures
            r.total_books == self@.books.len(),
            r.books@.len() == self@.books.len(),
            forall|i: int|
                0 <= i < self@.books.len() ==> (#[trigger] r.books@[i]).0@
                    == self@.books[i].outcome_id && r.books@[i].1.bid_levels
                    == self@.books[i].book.bids.len() && r.books@[i].1.ask_levels
                    == self@.books[i].book.asks.len(),
    {
        let mut books: Vec<(String, BookStats)> = Vec::new();
        let mut i: usize = 0;
        while i < self.books.len()
            invariant
                i <= self.books.len(),
                books@.len() == i,
                forall|k: int|
                    0 <= k < i ==> (#[trigger] books@[k]).0@ == self@.books[k].outcome_id
                        && books@[k].1.bid_levels == self@.books[k].book.bids.len()
                        && books@[k].1.ask_levels == self@.books[k].book.asks.len(),
            decreases self.books.len() - i,
        {
            let st = &self.books[i];
            proof {
                assert(self@.books[i as int] == self.books@[i as int]@);
            }
            books.push(
                (
                    st.outcome_id.clone(),
                    BookStats { bid_levels: st.book.bids.len(), ask_levels: st.book.asks.len() },
                ),
            );
            i = i + 1;
        }
        EngineStats { total_books: self.books.len(), books }
    }

    /// Cancel an order: scan every book for the first order matching
    /// (identifier, account), remove it, and return the touched
    /// outcome. `None` — a benign no-op — exactly when no book holds
    /// such an order, as for an order already fully filled or already
    /// cancelled.
    pub fn find_and_remove(&mut self, order_id: u64, account_id: &String) -> (r: Option<String>)
        requires
            old(self).wf(),
        ensures
            final(self).wf(),
            match spec_find_and_remove(old(self)@.books, order_id, account_id@) {
                Some((bs, bi, rm)) => r is Some && r->Some_0@ == old(self)@.books[bi].outcome_id
                    && final(self)@.books == bs && final(self)@.markets == old(self)@.markets,
                None => r is None && final(self)@ == old(self)@,
            },
    {
        let ghost bm = books_model(self.books@);
        let mut i: usize = 0;
        loop
            invariant_except_break
                books_model(self.books@) == bm,
            invariant
                i <= self.books.len(),
                bm == old(self)@.books,
                self@.markets == old(self)@.markets,
                old(self).wf(),
                self.books@.len() == bm.len(),
                forall|k: int|
                    0 <= k < i ==> spec_book_remove(
                        (#[trigger] bm[k]).book,
                        order_id,
                        Some(account_id@),
                    ) is None,
            ensures
                i <= self.books.len(),
                bm == old(self)@.books,
                self@.markets == old(self)@.markets,
                self.books@.len() == bm.len(),
                forall|k: int|
                    0 <= k < i ==> spec_book_remove(
                        (#[trigger] bm[k]).book,
                        order_id,
                        Some(account_id@),
                    ) is None,
                i == self.books.len() ==> books_model(self.books@) == bm,
                i < self.books.len() ==> spec_book_remove(
                    bm[i as int].book,
                    order_id,
                    Some(account_id@),
                ) is Some && books_model(self.books@) == bm.update(
                    i as int,
                    OutcomeModel {
                        book: spec_book_remove(
                            bm[i as int].book,
                            order_id,
                            Some(account_id@),
                        )->Some_0.0,
                        ..bm[i as int]
                    },
                ),
            decreases self.books.len() - i,
        {
            if i == self.books.len() {
                break;
            }
            let mut st = self.books.remove(i);
            let ghost stm = st@;
            proof {
                assert(stm == bm[i as int]);
                assert(book_wf(stm.book)) by {
                    assert(engine_wf(old(self)@));
                }
            }
            let removed = st.book.remove_matching(order_id, Some(account_id));
            let hit = removed.is_some();
            self.books.insert(i, st);
            if hit {
                proof {
                    assert(books_model(self.books@) =~~= bm.update(
                        i as int,
                        OutcomeModel {
                            book: spec_book_remove(
                                bm[i as int].book,
                                order_id,
                                Some(account_id@),
                            )->Some_0.0,
                            ..bm[i as int]
                        },
                    ));
                }
                break;
            }
            proof {
                assert(books_model(self.books@) =~~= bm);
            }
            i = i + 1;
        }
        if i < self.books.len() {
            // the matching order was removed from book i
            let outcome = self.books[i].outcome_id.clone();
            proof {
                assert(outcome@ == books_model(self.books@)[i as int].outcome_id);
                assert(books_model(self.books@)[i as int].outcome_id
                    == bm[i as int].outcome_id);
                lemma_find_and_remove_at(bm, order_id, account_id@, i as int);
                let (b1, rm) = spec_book_remove(bm[i as int].book, order_id, Some(account_id@))
                    ->Some_0;
                lemma_spec_remove(bm[i as int].book.bids, order_id, Some(account_id@), Side::Buy);
                lemma_spec_remove(bm[i as int].book.asks, order_id, Some(account_id@), Side::Sell);
                assert(book_wf(b1)) by {
                    assert(engine_wf(old(self)@));
                    assert(book_wf(bm[i as int].book));
                }
                lemma_update_keeps_wf(
                    bm,
                    i as int,
                    OutcomeModel { book: b1, ..bm[i as int] },
                );
                assert(engine_wf(self@)) by {
                    assert(self@.books == bm.update(
                        i as int,
                        OutcomeModel { book: b1, ..bm[i as int] },
                    ));
                    assert(self@.markets == old(self)@.markets);
                    assert(forall|k: int, j: int|
                        0 <= k < j < self@.markets.len() ==> self@.markets[k].market_id
                            != self@.markets[j].market_id) by {
                        assert(engine_wf(old(self)@));
                    }
                }
            }
            Some(outcome)
        } else {
            proof {
                lemma_find_and_remove_none(bm, order_id, account_id@);
                assert(self@ =~~= old(self)@);
            }
            None
        }
    }

    /// Rebuild books from structural snapshots, one outcome at a time
    /// and in the order given. A structurally unsound snapshot stops
    /// the installation with a `Snapshot` error; sound ones installed
    /// before it stay installed.
    pub fn apply_snapshots(&mut self, snapshots: Vec<(String, Snapshot)>) -> (r: Result<
        (),
        EngineError,
    >)
        requires
            old(self).wf(),
        ensures
            final(self).wf(),
            ({
                let (bs, ok) = spec_apply_snapshots(
                    old(self)@.books,
                    entries_model(snapshots@),
                );
                &&& final(self)@.books == bs
                &&& final(self)@.markets == old(self)@.markets
                &&& (r is Ok <==> ok)
                &&& (r is Err ==> r->Err_0 is Snapshot)
            }),
    {
        let ghost em = entries_model(snapshots@);
        let ghost b0 = books_model(self.books@);
        proof {
            assert(em.skip(0) =~= em);
        }
        let mut i: usize = 0;
        while i < snapshots.len()
            invariant
                i <= snapshots.len(),
                em == entries_model(snapshots@),
                b0 == old(self)@.books,
                self.wf(),
                self@.markets == old(self)@.markets,
                spec_apply_snapshots(b0, em) == spec_apply_snapshots(
                    self@.books,
                    em.skip(i as int),
                ),
            decreases snapshots.len() - i,
        {
            let ghost pre = self@.books;
            let ghost m0 = self@.markets;
            proof {
                assert(engine_wf(self@));
                assert(forall|k: int| 0 <= k < pre.len() ==> book_wf((#[trigger] pre[k]).book));
                assert(forall|k: int, j: int|
                    0 <= k < j < pre.len() ==> pre[k].outcome_id != pre[j].outcome_id);
                assert(forall|k: int, j: int|
                    0 <= k < j < m0.len() ==> m0[k].market_id != m0[j].market_id);
            }
            let (outcome_id, snapshot) = &snapshots[i];
            proof {
                assert(em[i as int] == (snapshots@[i as int].0@, snapshots@[i as int].1@));
            }
            if !snapshot.is_well_formed() {
                proof {
                    let iv = i as int;
                    assert(em.skip(iv)[0] == em[iv]);
                    assert(spec_apply_snapshots(pre, em.skip(iv)) == (pre, false));
                    assert(b0 == old(self)@.books);
                }
                return Err(EngineError::Snapshot(String::from_str("snapshot is not well formed")));
            }
            let idx = self.get_or_create_book(outcome_id);
            let mut st = self.books.remove(idx);
            let ghost books1 = spec_ensure_books(pre, em[i as int].0);
            st.book = OrderBook::new(outcome_id.as_str(), outcome_id.as_str());
            st.book.restore_snapshot(snapshot.clone());
            let ghost st1 = st@;
            self.books.insert(idx, st);
            proof {
                let iv = i as int;
                assert(books_model(self.books@) =~= books1.update(idx as int, st1));
                assert(st1.book =~~= (BookModel {
                    bids: em[iv].1.bids,
                    asks: em[iv].1.asks,
                    next_order_id: em[iv].1.next_order_id,
                    ..spec_empty_book(em[iv].0, em[iv].0)
                }));
                assert(books_model(self.books@) =~~= spec_install_snapshot(
                    pre,
                    em[iv].0,
                    em[iv].1,
                ));
                assert(book_wf(st1.book));
                lemma_find_outcome(books1, em[iv].0);
                assert(forall|k: int|
                    0 <= k < books1.len() ==> book_wf((#[trigger] books1[k]).book)) by {
                    assert(forall|k: int|
                        0 <= k < pre.len() ==> book_wf((#[trigger] pre[k]).book));
                    if find_outcome(pre, em[iv].0) is None {
                        assert(books1 == pre.push(
                            OutcomeModel {
                                outcome_id: em[iv].0,
                                book: spec_empty_book(em[iv].0, em[iv].0),
                                fair_price: 0,
                                total_outcome_volume: 0,
                            },
                        ));
                        assert(forall|k: int| 0 <= k < pre.len() ==> books1[k] == pre[k]);
                        assert(book_wf(books1[books1.len() - 1].book));
                    }
                }
                assert(forall|k: int, j: int|
                    0 <= k < j < books1.len() ==> books1[k].outcome_id != books1[j].outcome_id)
                    by {
                    assert(forall|k: int, j: int|
                        0 <= k < j < pre.len() ==> pre[k].outcome_id != pre[j].outcome_id);
                    if find_outcome(pre, em[iv].0) is None {
                        lemma_push_unique_outcome(
                            pre,
                            OutcomeModel {
                                outcome_id: em[iv].0,
                                book: spec_empty_book(em[iv].0, em[iv].0),
                                fair_price: 0,
                                total_outcome_volume: 0,
                            },
                        );
                        assert(books1 == pre.push(
                            OutcomeModel {
                                outcome_id: em[iv].0,
                                book: spec_empty_book(em[iv].0, em[iv].0),
                                fair_price: 0,
                                total_outcome_volume: 0,
                            },
                        ));
                    }
                }
                lemma_update_keeps_wf(books1, idx as int, st1);
                assert(engine_wf(self@)) by {
                    assert(self@.books == books1.update(idx as int, st1));
                    assert(forall|k: int, j: int|
                        0 <= k < j < self@.markets.len() ==> self@.markets[k].market_id
                            != self@.markets[j].market_id) by {
                        assert(self@.markets == m0);
                    }
                }
                assert(em.skip(iv)[0] == em[iv]);
                assert(em.skip(iv).drop_first() =~= em.skip(iv + 1));
                assert(spec_apply_snapshots(pre, em.skip(iv)) == spec_apply_snapshots(
                    spec_install_snapshot(pre, em[iv].0, em[iv].1),
                    em.skip(iv + 1),
                ));
            }
            i = i + 1;
        }
        proof {
            assert(em.skip(em.len() as int) =~= Seq::<(Seq<char>, SnapshotModel)>::empty());
        }
        Ok(())
    }

    /// Normalized market probabilities for one market: each outcome's
    /// representative price as a numerator over the sum of all of them.
    /// A market with no entry yields no outcomes; when every
    /// representative price is zero the denominator is zero and all
    /// probabilities are zero by convention.
    pub fn market_probabilities(&self, market_id: u32) -> (r: MarketProbabilities)
        requires
            self.wf(),
        ensures
            ({
                let ids = match find_market(self@.markets, market_id) {
                    Some(k) => self@.markets[k].outcome_ids,
                    None => Seq::<Seq<char>>::empty(),
                };
                &&& strings_model(r.outcome_ids@) == ids
                &&& r.numerators@.len() == ids.len()
                &&& (forall|i: int|
                    0 <= i < ids.len() ==> r.numerators@[i] == spec_rep_price_of(
                        self@.books,
                        ids[i],
                    ))
                &&& r.denominator == spec_sat_sum_from(0, r.numerators@)
            }),
    {
        let ghost ids = match find_market(self@.markets, market_id) {
            Some(k) => self@.markets[k].outcome_ids,
            None => Seq::<Seq<char>>::empty(),
        };
        let mut outcome_ids: Vec<String> = Vec::new();
        let mut numerators: Vec<u64> = Vec::new();
        match find_market_exec(&self.markets, market_id) {
            None => {
                proof {
                    assert(strings_model(outcome_ids@) =~= ids);
                }
            },
            Some(k) => {
                proof {
                    lemma_find_market(markets_model(self.markets@), market_id);
                }
                let entry = &self.markets[k];
                proof {
                    assert(entry@ == self@.markets[k as int]);
                    assert(strings_model(outcome_ids@) =~= ids.take(0));
                }
                let mut i: usize = 0;
                while i < entry.outcome_ids.len()
                    invariant
                        i <= entry.outcome_ids.len(),
                        self.wf(),
                        ids == strings_model(entry.outcome_ids@),
                        strings_model(outcome_ids@) == ids.take(i as int),
                        numerators@.len() == i,
                        forall|j: int|
                            0 <= j < i ==> numerators@[j] == spec_rep_price_of(
                                self@.books,
                                ids[j],
                            ),
                    decreases entry.outcome_ids.len() - i,
                {
                    let oid = &entry.outcome_ids[i];
                    proof {
                        assert(ids[i as int] == entry.outcome_ids@[i as int]@);
                    }
                    let num = match find_outcome_exec(&self.books, oid) {
                        Some(bi) => {
                            proof {
                                lemma_find_outcome(books_model(self.books@), oid@);
                                assert(engine_wf(self@));
                                assert(book_wf(self@.books[bi as int].book));
                                assert(self@.books[bi as int] == self.books@[bi as int]@);
                            }
                            match self.books[bi].book.representative_price() {
                                Some(p) => p,
                                None => 0,
                            }
                        },
                        None => 0,
                    };
                    let ghost pre_ids = outcome_ids@;
                    proof {
                        assert(strings_model(pre_ids).len() == pre_ids.len());
                        assert(pre_ids.len() == i as int);
                    }
                    outcome_ids.push(oid.clone());
                    numerators.push(num);
                    proof {
                        let iv = i as int;
                        assert forall|k: int| 0 <= k < iv + 1 implies strings_model(
                            outcome_ids@,
                        )[k] == ids.take(iv + 1)[k] by {
                            if k < iv {
                                assert(outcome_ids@[k] == pre_ids[k]);
                                assert(strings_model(pre_ids)[k] == ids.take(iv)[k]);
                            } else {
                                assert(outcome_ids@[k]@ == ids[iv]);
                            }
                        }
                        assert(strings_model(outcome_ids@) =~= ids.take(iv + 1));
                        assert(numerators@[iv] == spec_rep_price_of(self@.books, ids[iv]));
                    }
                    i = i + 1;
                }
                proof {
                    assert(ids.take(ids.len() as int) =~= ids);
                }
            },
        }
        let ghost nm = numerators@;
        let mut denominator: u64 = 0;
        proof {
            assert(nm.skip(0) =~= nm);
        }
        let mut i: usize = 0;
        while i < numerators.len()
            invariant
                i <= numerators.len(),
                nm == numerators@,
                spec_sat_sum_from(0, nm) == spec_sat_sum_from(denominator, nm.skip(i as int)),
            decreases numerators.len() - i,
        {
            let ghost pre = denominator;
            denominator = denominator.saturating_add(numerators[i]);
            proof {
                let iv = i as int;
                assert(nm.skip(iv)[0] == nm[iv]);
                assert(nm.skip(iv).drop_first() =~= nm.skip(iv + 1));
                assert(spec_sat_sum_from(pre, nm.skip(iv)) == spec_sat_sum_from(
                    sat_add_spec(pre, nm[iv]),
                    nm.skip(iv).drop_first(),
                ));
            }
            i = i + 1;
        }
        proof {
            assert(nm.skip(nm.len() as int) =~= Seq::<u64>::empty());
        }
        MarketProbabilities { outcome_ids, numerators, denominator }
    }

    /// Feed one trusted open order straight into its outcome's book,
    /// skipping matching: the cold-start bootstrap path for orders that
    /// already reflect prior matching outcomes.
    pub fn handle_recover_order(&mut self, order: Order)
        requires
            old(self).wf(),
            order@.valid(),
            order.qty_remaining >= 1,
            order.order_type == OrderType::Limit,
        ensures
            final(self).wf(),
            ({
                let books1 = spec_ensure_books(old(self)@.books, order@.outcome_id);
                let idx = find_outcome(books1, order@.outcome_id)->Some_0;
                let st = books1[idx];
                let st1 = OutcomeModel {
                    book: BookModel {
                        bids: if order@.side == Side::Buy {
                            spec_add_order(st.book.bids, order@)
                        } else {
                            st.book.bids
                        },
                        asks: if order@.side == Side::Sell {
                            spec_add_order(st.book.asks, order@)
                        } else {
                            st.book.asks
                        },
                        ..st.book
                    },
                    ..st
                };
                &&& final(self)@.books == books1.update(idx, st1)
                &&& final(self)@.markets == spec_register_market(
                    old(self)@.markets,
                    order@.market_id,
                    order@.outcome_id,
                )
            }),
    {
        let ghost e0 = self@;
        let ghost om = order@;
        let idx = self.get_or_create_book(&order.outcome_id);
        self.register_market(order.market_id, &order.outcome_id);
        let ghost books1 = spec_ensure_books(e0.books, om.outcome_id);
        proof {
            assert(self@.books == books1);
        }
        let mut st = self.books.remove(idx);
        let ghost stm = st@;
        proof {
            assert(stm == books1[idx as int]);
            assert(book_wf(stm.book));
        }
        st.book.add_order(order);
        let ghost st1 = st@;
        self.books.insert(idx, st);
        proof {
            assert(books_model(self.books@) =~= books1.update(idx as int, st1));
            assert(st1 =~~= (OutcomeModel {
                book: BookModel {
                    bids: if om.side == Side::Buy {
                        spec_add_order(stm.book.bids, om)
                    } else {
                        stm.book.bids
                    },
                    asks: if om.side == Side::Sell {
                        spec_add_order(stm.book.asks, om)
                    } else {
                        stm.book.asks
                    },
                    ..stm.book
                },
                ..stm
            }));
            assert(forall|i: int|
                0 <= i < books1.len() ==> book_wf((#[trigger] books1[i]).book));
            assert(forall|i: int, j: int|
                0 <= i < j < books1.len() ==> books1[i].outcome_id != books1[j].outcome_id);
            lemma_update_keeps_wf(books1, idx as int, st1);
            assert(engine_wf(self@)) by {
                assert(self@.books == books1.update(idx as int, st1));
                assert(forall|k: int, j: int|
                    0 <= k < j < self@.markets.len() ==> self@.markets[k].market_id
                        != self@.markets[j].market_id);
            }
        }
    }

    /// Record that an outcome trades under a market, creating or
    /// extending the market's entry.
    fn register_market(&mut self, market_id: u32, outcome_id: &String)
        requires
            old(self).wf(),
        ensures
            final(self).wf(),
            final(self)@.books == old(self)@.books,
            final(self)@.markets == spec_register_market(
                old(self)@.markets,
                market_id,
                outcome_id@,
            ),
    {
        let ghost mm = markets_model(self.markets@);
        match find_market_exec(&self.markets, market_id) {
            None => {
                let mut ids: Vec<String> = Vec::new();
                ids.push(outcome_id.clone());
                let entry = MarketOutcomes { market_id, outcome_ids: ids };
                let ghost em = entry@;
                self.markets.push(entry);
                proof {
                    lemma_find_market(mm, market_id);
                    assert(em.outcome_ids =~= seq![outcome_id@]);
                    assert(em =~~= (MarketModel { market_id, outcome_ids: seq![outcome_id@] }));
                    assert(markets_model(self.markets@) =~~= spec_register_market(
                        mm,
                        market_id,
                        outcome_id@,
                    ));
                    assert(forall|i: int, j: int|
                        0 <= i < j < mm.len() ==> mm[i].market_id != mm[j].market_id) by {
                        assert(mm == old(self)@.markets);
                    }
                    lemma_push_unique_market(mm, em);
                    assert(markets_model(self.markets@) == mm.push(em));
                    assert(self@.books == old(self)@.books);
                    assert(forall|i: int|
                        0 <= i < self@.books.len() ==> book_wf((#[trigger] self@.books[i]).book))
                        by {
                        assert(forall|i: int|
                            0 <= i < old(self)@.books.len() ==> book_wf(
                                (#[trigger] old(self)@.books[i]).book,
                            ));
                    }
                    assert(forall|i: int, j: int|
                        0 <= i < j < self@.books.len() ==> self@.books[i].outcome_id
                            != self@.books[j].outcome_id) by {
                        assert(forall|i: int, j: int|
                            0 <= i < j < old(self)@.books.len() ==> old(
                                self,
                            )@.books[i].outcome_id != old(self)@.books[j].outcome_id);
                    }
                    assert(forall|i: int, j: int|
                        0 <= i < j < self@.markets.len() ==> self@.markets[i].market_id
                            != self@.markets[j].market_id) by {
                        assert(self@.markets == mm.push(em));
                    }
                    assert(engine_wf(self@));
                }
            },
            Some(k) => {
                proof {
                    lemma_find_market(mm, market_id);
                }
                if contains_str_exec(&self.markets[k].outcome_ids, outcome_id) {
                    proof {
                        assert(markets_model(self.markets@) =~= spec_register_market(
                            mm,
                            market_id,
                            outcome_id@,
                        ));
                        assert(self@.books == old(self)@.books);
                        assert(self@.markets == old(self)@.markets);
                        assert(engine_wf(old(self)@));
                        assert(engine_wf(self@)) by {
                            assert(self@ =~~= old(self)@);
                        }
                    }
                } else {
                    let mut entry = self.markets.remove(k);
                    entry.outcome_ids.push(outcome_id.clone());
                    let ghost em = entry@;
                    self.markets.insert(k, entry);
                    proof {
                        assert(em.outcome_ids =~= mm[k as int].outcome_ids.push(outcome_id@));
                        assert(em =~~= (MarketModel {
                            market_id,
                            outcome_ids: mm[k as int].outcome_ids.push(outcome_id@),
                        }));
                        assert(markets_model(self.markets@) =~~= spec_register_market(
                            mm,
                            market_id,
                            outcome_id@,
                        ));
                        let nm = markets_model(self.markets@);
                        assert(forall|i: int, j: int|
                            0 <= i < j < mm.len() ==> mm[i].market_id != mm[j].market_id) by {
                            assert(mm == old(self)@.markets);
                        }
                        assert forall|i: int, j: int| 0 <= i < j < nm.len() implies nm[i].market_id
                            != nm[j].market_id by {
                            assert(nm[i].market_id == mm[i].market_id);
                            assert(nm[j].market_id == mm[j].market_id);
                            assert(mm[i].market_id != mm[j].market_id);
                        }
                        assert(self@.books == old(self)@.books);
                        assert(forall|i: int|
                            0 <= i < self@.books.len() ==> book_wf(
                                (#[trigger] self@.books[i]).book,
                            )) by {
                            assert(forall|i: int|
                                0 <= i < old(self)@.books.len() ==> book_wf(
                                    (#[trigger] old(self)@.books[i]).book,
                                ));
                        }
                        assert(forall|i: int, j: int|
                            0 <= i < j < self@.books.len() ==> self@.books[i].outcome_id
                                != self@.books[j].outcome_id) by {
                            assert(forall|i: int, j: int|
                                0 <= i < j < old(self)@.books.len() ==> old(
                                    self,
                                )@.books[i].outcome_id != old(self)@.books[j].outcome_id);
                        }
                        assert(engine_wf(self@));
                    }
                }
            },
        }
    }
}

} // verus!
