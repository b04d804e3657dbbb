//! The library's laws: properties of matching, cancellation, snapshots
//! and probability normalization, stated over the same specifications
//! the executable contracts use, and proved once and for all.

use crate::book::fills_qty;
use crate::book::flatten_side;
use crate::book::lemma_spec_match_properties;
use crate::book::lemma_spec_remove;
use crate::book::level_qty;
use crate::book::opposite;
use crate::book::resting_ok;
use crate::book::side_has_order;
use crate::book::side_qty;
use crate::book::side_wf;
use crate::book::snapshot_wf;
use crate::book::spec_book_match;
use crate::book::spec_book_remove;
use crate::book::spec_crosses;
use crate::book::spec_match;
use crate::book::BookModel;
use crate::book::LevelModel;
use crate::book::SnapshotModel;
use crate::builder::spec_build;
use crate::builder::BookOptionsModel;
use crate::engine::spec_find_and_remove;
use crate::engine::OutcomeModel;
use crate::order::OrderModel;
use crate::order::OrderType;
use crate::order::Side;
use vstd::prelude::*;

verus! {

/// Two crossing limit orders trade exactly the minimum of their two
/// remaining quantities, and each side's remaining quantity decreases
/// by exactly that amount: the incoming order keeps
/// `qty - min`, and the resting side keeps `resting - min`.
pub proof fn law_cross_trades_minimum(resting: OrderModel, incoming: OrderModel)
    requires
        resting_ok(resting),
        resting.order_type == OrderType::Limit,
        resting.side == opposite(incoming.side),
        incoming.order_type == OrderType::Limit,
        1 <= incoming.qty_remaining,
        spec_crosses(resting.price, Some(incoming.price), incoming.side),
    ensures
        ({
            let lvl = LevelModel { price: resting.price, orders: seq![resting] };
            let m = spec_match(
                seq![lvl],
                incoming.qty_remaining,
                Some(incoming.price),
                incoming.side,
                incoming.order_id,
                incoming.account_id,
            );
            let traded: u64 = if resting.qty_remaining <= incoming.qty_remaining {
                resting.qty_remaining
            } else {
                incoming.qty_remaining
            };
            &&& fills_qty(m.fills) == traded
            &&& m.qty_left == incoming.qty_remaining - traded
            &&& side_qty(m.levels) == resting.qty_remaining - traded
        }),
{
    let lvl = LevelModel { price: resting.price, orders: seq![resting] };
    let levels = seq![lvl];
    let m = spec_match(
        levels,
        incoming.qty_remaining,
        Some(incoming.price),
        incoming.side,
        incoming.order_id,
        incoming.account_id,
    );
    assert(side_wf(levels, opposite(incoming.side))) by {
        assert(levels[0] == lvl);
        assert(lvl.orders[0] == resting);
    }
    lemma_spec_match_properties(
        levels,
        incoming.qty_remaining,
        Some(incoming.price),
        incoming.side,
        incoming.order_id,
        incoming.account_id,
    );
    assert(side_qty(levels) == resting.qty_remaining) by {
        assert(levels.drop_first() =~= Seq::<LevelModel>::empty());
        assert(lvl.orders.drop_first() =~= Seq::<OrderModel>::empty());
        assert(level_qty(lvl.orders) == resting.qty_remaining + level_qty(
            lvl.orders.drop_first(),
        ));
        assert(level_qty(Seq::<OrderModel>::empty()) == 0);
        assert(side_qty(Seq::<LevelModel>::empty()) == 0);
    }
    // one unfolding: the single resting order either empties or absorbs
    if resting.qty_remaining <= incoming.qty_remaining {
        assert(levels[0].orders.len() == 1);
        assert(levels.drop_first() =~= Seq::<LevelModel>::empty());
        assert(spec_match(
            Seq::<LevelModel>::empty(),
            (incoming.qty_remaining - resting.qty_remaining) as u64,
            Some(incoming.price),
            incoming.side,
            incoming.order_id,
            incoming.account_id,
        ).fills =~= Seq::empty());
    }
}

/// The general form of the crossing law: against any sequence of
/// resting limit orders that the incoming order's price fully crosses,
/// the aggregate traded quantity is exactly the minimum of the
/// incoming quantity and the side's cumulative quantity, and the
/// incoming order keeps exactly the difference.
pub proof fn law_full_cross_trades_minimum(
    levels: Seq<LevelModel>,
    qty: u64,
    limit: Option<u64>,
    taker_side: Side,
    taker_order_id: u64,
    taker_account_id: Seq<char>,
)
    requires
        side_wf(levels, opposite(taker_side)),
        forall|i: int|
            0 <= i < levels.len() ==> spec_crosses((#[trigger] levels[i]).price, limit, taker_side),
    ensures
        ({
            let m = spec_match(levels, qty, limit, taker_side, taker_order_id, taker_account_id);
            &&& fills_qty(m.fills) == (if side_qty(levels) <= qty {
                side_qty(levels)
            } else {
                qty as int
            })
            &&& m.qty_left == (if side_qty(levels) <= qty {
                qty - side_qty(levels)
            } else {
                0
            })
        }),
{
    let m = spec_match(levels, qty, limit, taker_side, taker_order_id, taker_account_id);
    lemma_spec_match_properties(
        levels,
        qty,
        limit,
        taker_side,
        taker_order_id,
        taker_account_id,
    );
    crate::book::lemma_match_front_price(
        levels,
        qty,
        limit,
        taker_side,
        taker_order_id,
        taker_account_id,
    );
    lemma_qty_nonneg(m.levels);
    lemma_qty_nonneg(levels);
    if m.qty_left > 0 {
        // the match cannot have stopped at a crossing level, and every
        // level crosses: so the side is exhausted
        if m.levels.len() > 0 {
            let i = choose|i: int|
                0 <= i < levels.len() && (#[trigger] levels[i]).price == m.levels[0].price;
            assert(spec_crosses(levels[i].price, limit, taker_side));
            assert(false);
        }
        assert(side_qty(m.levels) == 0);
        assert(fills_qty(m.fills) == side_qty(levels));
        assert(m.qty_left == qty - side_qty(levels));
    } else {
        assert(fills_qty(m.fills) == qty);
        assert(side_qty(m.levels) == side_qty(levels) - qty);
        assert(side_qty(levels) >= qty);
    }
}

/// Price-time priority: among the resting orders of the opposing side,
/// matches go strictly in priority order — the `k`-th fill is made by
/// the `k`-th order of the side flattened best price first and oldest
/// first, at that maker's price. In particular, of several orders at
/// the best price the one placed first is the first to be matched.
pub proof fn law_price_time_priority(
    levels: Seq<LevelModel>,
    qty: u64,
    limit: Option<u64>,
    taker_side: Side,
    taker_order_id: u64,
    taker_account_id: Seq<char>,
)
    requires
        side_wf(levels, opposite(taker_side)),
    ensures
        ({
            let m = spec_match(levels, qty, limit, taker_side, taker_order_id, taker_account_id);
            &&& m.fills.len() <= flatten_side(levels).len()
            &&& forall|k: int|
                0 <= k < m.fills.len() ==> (#[trigger] m.fills[k]).maker_order_id == flatten_side(
                    levels,
                )[k].order_id && m.fills[k].price == flatten_side(levels)[k].price
        }),
{
    lemma_spec_match_properties(levels, qty, limit, taker_side, taker_order_id, taker_account_id);
}

/// The remaining quantity on a level or a side is never negative.
pub proof fn lemma_qty_nonneg(levels: Seq<LevelModel>)
    ensures
        side_qty(levels) >= 0,
    decreases levels.len(),
{
    if levels.len() > 0 {
        lemma_level_qty_nonneg(levels[0].orders);
        lemma_qty_nonneg(levels.drop_first());
    }
}

/// The remaining quantity queued on a level is never negative.
pub proof fn lemma_level_qty_nonneg(orders: Seq<OrderModel>)
    ensures
        level_qty(orders) >= 0,
    decreases orders.len(),
{
    if orders.len() > 0 {
        lemma_level_qty_nonneg(orders.drop_first());
    }
}

/// A market order against cumulative opposing liquidity no larger than
/// its quantity trades all of that liquidity, empties the side, and
/// keeps the rest of its quantity open — which is then discarded, never
/// rested, as [`spec_book_match`] returns no resting remainder for a
/// market order.
pub proof fn law_market_consumes_available(
    levels: Seq<LevelModel>,
    qty: u64,
    taker_side: Side,
    taker_order_id: u64,
    taker_account_id: Seq<char>,
)
    requires
        side_wf(levels, opposite(taker_side)),
        side_qty(levels) <= qty,
    ensures
        ({
            let m = spec_match(levels, qty, None, taker_side, taker_order_id, taker_account_id);
            &&& m.levels.len() == 0
            &&& fills_qty(m.fills) == side_qty(levels)
            &&& m.qty_left == qty - side_qty(levels)
        }),
    decreases levels.len(), (if levels.len() > 0 { levels[0].orders.len() } else { 0 }),
{
    let m = spec_match(levels, qty, None, taker_side, taker_order_id, taker_account_id);
    lemma_spec_match_properties(levels, qty, None, taker_side, taker_order_id, taker_account_id);
    lemma_qty_nonneg(m.levels);
    if m.levels.len() > 0 {
        // the side cannot stop short: a market order always crosses, so
        // leftover levels would contradict leftover quantity
        assert(m.qty_left > 0 ==> !spec_crosses(m.levels[0].price, None, taker_side));
        assert(m.qty_left == 0 || m.levels.len() == 0);
        if m.qty_left == 0 {
            assert(fills_qty(m.fills) == qty);
            assert(side_qty(m.levels) == side_qty(levels) - qty);
            assert(side_qty(m.levels) <= 0);
            // a non-empty well-formed side holds positive quantity
            assert(side_wf(m.levels, opposite(taker_side)));
            assert(crate::book::level_wf(m.levels[0], opposite(taker_side)));
            assert(m.levels[0].orders[0].qty_remaining >= 1);
            lemma_level_qty_nonneg(m.levels[0].orders.drop_first());
            assert(level_qty(m.levels[0].orders) >= 1);
            lemma_qty_nonneg(m.levels.drop_first());
            assert(side_qty(m.levels) >= 1);
            assert(false);
        }
    }
}

/// A market order never rests: matching it returns no remainder.
pub proof fn law_market_never_rests(b: BookModel, o: OrderModel)
    requires
        o.order_type == OrderType::Market,
    ensures
        spec_book_match(b, o).2 is None,
{
}

/// Cancelling an order that rests in no book — already fully filled,
/// already cancelled, or never placed — finds nothing and changes
/// nothing: the scan returns `None` exactly when no book holds an
/// order with the identifier and account.
pub proof fn law_cancel_after_fill_is_noop(books: Seq<OutcomeModel>, oid: u64, aid: Seq<char>)
    requires
        forall|i: int| 0 <= i < books.len() ==> crate::book::book_wf((#[trigger] books[i]).book),
    ensures
        spec_find_and_remove(books, oid, aid) is None <==> (forall|i: int|
            0 <= i < books.len() ==> !side_has_order((#[trigger] books[i]).book.bids, oid, Some(aid))
                && !side_has_order(books[i].book.asks, oid, Some(aid))),
    decreases books.len(),
{
    if books.len() == 0 {
    } else {
        lemma_spec_remove(books[0].book.bids, oid, Some(aid), Side::Buy);
        lemma_spec_remove(books[0].book.asks, oid, Some(aid), Side::Sell);
        let tail = books.drop_first();
        assert(forall|i: int|
            0 <= i < tail.len() ==> crate::book::book_wf((#[trigger] tail[i]).book)) by {
            assert(forall|i: int| 0 <= i < tail.len() ==> tail[i] == books[i + 1]);
        }
        law_cancel_after_fill_is_noop(tail, oid, aid);
        match spec_book_remove(books[0].book, oid, Some(aid)) {
            Some(_) => {
                assert(spec_find_and_remove(books, oid, aid) is Some);
                assert(side_has_order(books[0].book.bids, oid, Some(aid)) || side_has_order(
                    books[0].book.asks,
                    oid,
                    Some(aid),
                ));
            },
            None => {
                assert(forall|i: int| 1 <= i < books.len() ==> books[i] == tail[i - 1]);
                if spec_find_and_remove(tail, oid, aid) is Some {
                    assert(spec_find_and_remove(books, oid, aid) is Some);
                    let k = choose|k: int|
                        0 <= k < tail.len() && (side_has_order(
                            #[trigger] tail[k].book.bids,
                            oid,
                            Some(aid),
                        ) || side_has_order(tail[k].book.asks, oid, Some(aid)));
                    assert(tail[k] == books[k + 1]);
                } else {
                    assert forall|i: int| 0 <= i < books.len() implies !side_has_order(
                        (#[trigger] books[i]).book.bids,
                        oid,
                        Some(aid),
                    ) && !side_has_order(books[i].book.asks, oid, Some(aid)) by {
                        if i >= 1 {
                            assert(books[i] == tail[i - 1]);
                        }
                    }
                }
            },
        }
    }
}

/// Market-probability normalization: when the true sum of the
/// representative prices fits in a `u64`, the denominator equals that
/// sum exactly, so the normalized probabilities `numerators[i] /
/// denominator` sum to one.
pub proof fn law_probabilities_sum_to_one(nums: Seq<u64>)
    requires
        crate::engine::spec_sum_int(nums) <= u64::MAX,
    ensures
        crate::engine::spec_sat_sum_from(0, nums) == crate::engine::spec_sum_int(nums),
{
    crate::engine::lemma_sat_sum_exact(0, nums);
}

/// Market-probability normalization, degenerate case: when every
/// representative price is zero the denominator is zero, and all
/// probabilities are zero by convention — never a division by zero.
pub proof fn law_zero_prices_give_zero_probabilities(nums: Seq<u64>)
    requires
        forall|i: int| 0 <= i < nums.len() ==> nums[i] == 0,
    ensures
        crate::engine::spec_sat_sum_from(0, nums) == 0,
{
    crate::engine::lemma_sat_sum_zero(0, nums);
}

/// Installing a snapshot captured from a well-formed book rebuilds a
/// book whose bid and ask structure — queue order and price levels —
/// is identical to the book at capture time, bit for bit.
pub proof fn law_snapshot_restores_structure(sym: Seq<char>, b: BookModel)
    requires
        crate::book::book_wf(b),
    ensures
        ({
            let s = SnapshotModel { bids: b.bids, asks: b.asks, next_order_id: b.next_order_id };
            let built = spec_build(
                sym,
                BookOptionsModel { journaling: false, snapshot: Some(s), replay_logs: None },
            );
            &&& built.bids == b.bids
            &&& built.asks == b.asks
            &&& built.next_order_id == b.next_order_id
        }),
{
    let s = SnapshotModel { bids: b.bids, asks: b.asks, next_order_id: b.next_order_id };
    assert(snapshot_wf(s));
}

} // verus!
