//! The price-time-priority order book for one outcome, and its matching
//! algorithm.
//!
//! Each side of the book is a sequence of price levels, best price
//! first (bids descending, asks ascending). A level is a FIFO queue of
//! resting limit orders at one price. Levels are deleted the instant
//! their queue empties: no empty level ever persists.
//!
//! Matching consumes the opposing side front to front: the trade price
//! is always the resting (maker) order's price, the traded quantity the
//! minimum of the two remaining quantities, and one fill is emitted per
//! match step.

use crate::journal::journal_model;
use crate::journal::JournalLog;
use crate::journal::JournalModel;
use crate::order::MAX_PRICE;
use crate::order::MAX_QUANTITY;
use crate::order::Order;
use crate::journal::LimitOptionsModel;
use crate::journal::MarketOptionsModel;
use crate::journal::OptionsModel;
use crate::journal::OrderOptions;
use crate::journal::JournalOp;
use crate::journal::LimitOrderOptions;
use crate::journal::MarketOrderOptions;
use crate::order::OrderModel;
use crate::order::OrderStatus;
use crate::order::OrderType;
use crate::order::TimeInForce;
use crate::order::Side;
use vstd::prelude::*;

verus! {

/// A FIFO queue of resting orders at one price; index 0 is the oldest.
#[derive(Debug)]
pub struct PriceLevel {
    pub price: u64,
    pub orders: Vec<Order>,
}

/// The mathematical content of a [`PriceLevel`].
#[verifier::ext_equal]
pub ghost struct LevelModel {
    pub price: u64,
    pub orders: Seq<OrderModel>,
}

/// The view of a queue of orders.
pub open spec fn orders_model(s: Seq<Order>) -> Seq<OrderModel> {
    s.map_values(|o: Order| o@)
}

impl View for PriceLevel {
    type V = LevelModel;

    open spec fn view(&self) -> LevelModel {
        LevelModel { price: self.price, orders: orders_model(self.orders@) }
    }
}

/// One match step: the resting (maker) and incoming (taker) identities,
/// the maker's price, and the traded quantity.
#[derive(Debug)]
pub struct FillReport {
    pub maker_order_id: u64,
    pub maker_account_id: String,
    pub taker_order_id: u64,
    pub taker_account_id: String,
    pub price: u64,
    pub quantity: u64,
}

/// The mathematical content of a [`FillReport`].
#[verifier::ext_equal]
pub ghost struct FillModel {
    pub maker_order_id: u64,
    pub maker_account_id: Seq<char>,
    pub taker_order_id: u64,
    pub taker_account_id: Seq<char>,
    pub price: u64,
    pub quantity: u64,
}

impl View for FillReport {
    type V = FillModel;

    open spec fn view(&self) -> FillModel {
        FillModel {
            maker_order_id: self.maker_order_id,
            maker_account_id: self.maker_account_id@,
            taker_order_id: self.taker_order_id,
            taker_account_id: self.taker_account_id@,
            price: self.price,
            quantity: self.quantity,
        }
    }
}

/// The view of a whole side: one [`LevelModel`] per level, best first.
pub open spec fn side_model(side: Seq<PriceLevel>) -> Seq<LevelModel> {
    side.map_values(|l: PriceLevel| l@)
}

/// The view of a fill list.
pub open spec fn fills_model(fills: Seq<FillReport>) -> Seq<FillModel> {
    fills.map_values(|f: FillReport| f@)
}

/// The maker side opposite a taker side.
pub open spec fn opposite(side: Side) -> Side {
    match side {
        Side::Buy => Side::Sell,
        Side::Sell => Side::Buy,
    }
}

/// Strict "better price" order for a resting side: higher bids first,
/// lower asks first.
pub open spec fn better_price(p1: u64, p2: u64, side: Side) -> bool {
    match side {
        Side::Buy => p1 > p2,
        Side::Sell => p1 < p2,
    }
}

/// The bounds a resting order always satisfies: positive quantities
/// within the accepted limits, and a positive bounded price.
pub open spec fn resting_ok(o: OrderModel) -> bool {
    &&& o.qty_original >= 1
    &&& 1 <= o.qty_remaining <= o.qty_original
    &&& 1 <= o.price <= MAX_PRICE
    &&& o.qty_original <= MAX_QUANTITY
}

/// Every order on a level is a bounded resting limit order at the
/// level's price and side; the queue is never empty.
pub open spec fn level_wf(l: LevelModel, side: Side) -> bool {
    &&& l.orders.len() >= 1
    &&& forall|i: int|
        0 <= i < l.orders.len() ==> {
            let o = #[trigger] l.orders[i];
            &&& resting_ok(o)
            &&& o.price == l.price
            &&& o.side == side
            &&& o.order_type == OrderType::Limit
        }
}

/// A side is well formed when every level is, and level prices are
/// strictly ordered best first.
pub open spec fn side_wf(levels: Seq<LevelModel>, side: Side) -> bool {
    &&& forall|i: int| 0 <= i < levels.len() ==> level_wf(#[trigger] levels[i], side)
    &&& forall|i: int, j: int|
        0 <= i < j < levels.len() ==> better_price(levels[i].price, levels[j].price, side)
}

/// Does a maker level at `maker_price` cross an incoming order with the
/// given optional limit? Market orders (no limit) always cross.
pub open spec fn spec_crosses(maker_price: u64, limit: Option<u64>, taker_side: Side) -> bool {
    match limit {
        None => true,
        Some(l) => match taker_side {
            Side::Buy => l >= maker_price,
            Side::Sell => l <= maker_price,
        },
    }
}

/// The result of matching an incoming quantity against one side:
/// the fills in match order, the side left behind, and the quantity
/// the taker still has open.
#[verifier::ext_equal]
pub ghost struct MatchModel {
    pub fills: Seq<FillModel>,
    pub levels: Seq<LevelModel>,
    pub qty_left: u64,
}

/// The matching algorithm, as a function of the opposing side.
///
/// While quantity remains and the best opposing level crosses, trade
/// against the level's front order at the maker's price for the minimum
/// of the two remaining quantities; pop the maker when exhausted and
/// drop the level when its queue empties.
pub open spec fn spec_match(
    levels: Seq<LevelModel>,
    qty: u64,
    limit: Option<u64>,
    taker_side: Side,
    taker_order_id: u64,
    taker_account_id: Seq<char>,
) -> MatchModel
    decreases levels.len(), (if levels.len() > 0 { levels[0].orders.len() } else { 0 }),
{
    if qty == 0 || levels.len() == 0 || levels[0].orders.len() == 0 || !spec_crosses(
        levels[0].price,
        limit,
        taker_side,
    ) {
        MatchModel { fills: Seq::empty(), levels, qty_left: qty }
    } else {
        let resting = levels[0].orders[0];
        let traded: u64 = if resting.qty_remaining <= qty {
            resting.qty_remaining
        } else {
            qty
        };
        let fill = FillModel {
            maker_order_id: resting.order_id,
            maker_account_id: resting.account_id,
            taker_order_id,
            taker_account_id,
            price: levels[0].price,
            quantity: traded,
        };
        if resting.qty_remaining <= qty {
            let levels1 = if levels[0].orders.len() == 1 {
                levels.drop_first()
            } else {
                levels.update(
                    0,
                    LevelModel { price: levels[0].price, orders: levels[0].orders.drop_first() },
                )
            };
            let rest = spec_match(
                levels1,
                (qty - traded) as u64,
                limit,
                taker_side,
                taker_order_id,
                taker_account_id,
            );
            MatchModel {
                fills: seq![fill] + rest.fills,
                levels: rest.levels,
                qty_left: rest.qty_left,
            }
        } else {
            let resting1 = OrderModel {
                qty_remaining: (resting.qty_remaining - qty) as u64,
                ..resting
            };
            let levels1 = levels.update(
                0,
                LevelModel { price: levels[0].price, orders: levels[0].orders.update(0, resting1) },
            );
            MatchModel { fills: seq![fill], levels: levels1, qty_left: 0 }
        }
    }
}

/// Total quantity of a fill list.
pub open spec fn fills_qty(fills: Seq<FillModel>) -> int
    decreases fills.len(),
{
    if fills.len() == 0 {
        0
    } else {
        fills[0].quantity + fills_qty(fills.drop_first())
    }
}

/// Total remaining quantity queued on one level.
pub open spec fn level_qty(orders: Seq<OrderModel>) -> int
    decreases orders.len(),
{
    if orders.len() == 0 {
        0
    } else {
        orders[0].qty_remaining + level_qty(orders.drop_first())
    }
}

/// Total remaining quantity on a side (its cumulative liquidity).
pub open spec fn side_qty(levels: Seq<LevelModel>) -> int
    decreases levels.len(),
{
    if levels.len() == 0 {
        0
    } else {
        level_qty(levels[0].orders) + side_qty(levels.drop_first())
    }
}

/// The orders of a side flattened in priority order: best level first,
/// oldest order first within a level.
pub open spec fn flatten_side(levels: Seq<LevelModel>) -> Seq<OrderModel>
    decreases levels.len(),
{
    if levels.len() == 0 {
        Seq::empty()
    } else {
        levels[0].orders + flatten_side(levels.drop_first())
    }
}

/// The prices of a fill list, in match order.
pub open spec fn fill_prices(fills: Seq<FillModel>) -> Seq<u64> {
    fills.map_values(|f: FillModel| f.price)
}

/// Saturating add on `u64`.
pub open spec fn sat_add_spec(a: u64, b: u64) -> u64 {
    if a + b > u64::MAX {
        u64::MAX
    } else {
        (a + b) as u64
    }
}

/// The notional value of one fill, capped at `u64::MAX`.
pub open spec fn fill_notional(f: FillModel) -> u64 {
    if f.price * f.quantity > u64::MAX {
        u64::MAX
    } else {
        (f.price * f.quantity) as u64
    }
}

/// Cumulative traded quantity after recording `fills`, saturating.
pub open spec fn spec_volume_after(v: u64, fills: Seq<FillModel>) -> u64
    decreases fills.len(),
{
    if fills.len() == 0 {
        v
    } else {
        spec_volume_after(sat_add_spec(v, fills[0].quantity), fills.drop_first())
    }
}

/// Cumulative notional after recording `fills`, saturating.
pub open spec fn spec_notional_after(n: u64, fills: Seq<FillModel>) -> u64
    decreases fills.len(),
{
    if fills.len() == 0 {
        n
    } else {
        spec_notional_after(sat_add_spec(n, fill_notional(fills[0])), fills.drop_first())
    }
}

/// What one matching pass guarantees: the side stays well formed, fills
/// carry exactly the quantity the taker lost and the side lost, makers
/// are consumed in strict price-time priority (fill `k` is made by the
/// `k`-th order of the flattened side), and quantity only stops matching
/// when the book stops crossing.
pub proof fn lemma_spec_match_properties(
    levels: Seq<LevelModel>,
    qty: u64,
    limit: Option<u64>,
    taker_side: Side,
    tid: u64,
    tacct: Seq<char>,
)
    requires
        side_wf(levels, opposite(taker_side)),
    ensures
        ({
            let m = spec_match(levels, qty, limit, taker_side, tid, tacct);
            &&& side_wf(m.levels, opposite(taker_side))
            &&& m.qty_left <= qty
            &&& fills_qty(m.fills) + m.qty_left == qty
            &&& side_qty(m.levels) + fills_qty(m.fills) == side_qty(levels)
            &&& m.fills.len() <= flatten_side(levels).len()
            &&& forall|k: int|
                0 <= k < m.fills.len() ==> {
                    let f = #[trigger] m.fills[k];
                    &&& 1 <= f.quantity <= MAX_QUANTITY
                    &&& 1 <= f.price <= MAX_PRICE
                    &&& f.taker_order_id == tid
                    &&& f.taker_account_id == tacct
                    &&& f.maker_order_id == flatten_side(levels)[k].order_id
                    &&& f.maker_account_id == flatten_side(levels)[k].account_id
                    &&& f.price == flatten_side(levels)[k].price
                }
            &&& m.qty_left > 0 ==> (m.levels.len() == 0 || !spec_crosses(
                m.levels[0].price,
                limit,
                taker_side,
            ))
        }),
    decreases levels.len(), (if levels.len() > 0 { levels[0].orders.len() } else { 0 }),
{
    let m = spec_match(levels, qty, limit, taker_side, tid, tacct);
    let mside = opposite(taker_side);
    if qty == 0 || levels.len() == 0 || levels[0].orders.len() == 0 || !spec_crosses(
        levels[0].price,
        limit,
        taker_side,
    ) {
        // base case: nothing traded, the side is returned unchanged
    } else {
        let resting = levels[0].orders[0];
        let traded: u64 = if resting.qty_remaining <= qty {
            resting.qty_remaining
        } else {
            qty
        };
        assert(level_wf(levels[0], opposite(taker_side)));
        assert(resting.qty_remaining >= 1);
        if resting.qty_remaining <= qty {
            let levels1 = if levels[0].orders.len() == 1 {
                levels.drop_first()
            } else {
                levels.update(
                    0,
                    LevelModel { price: levels[0].price, orders: levels[0].orders.drop_first() },
                )
            };
            if levels[0].orders.len() == 1 {
                assert forall|i: int| 0 <= i < levels1.len() implies level_wf(
                    #[trigger] levels1[i],
                    mside,
                ) by {
                    assert(levels1[i] == levels[i + 1]);
                    assert(level_wf(levels[i + 1], mside));
                }
                assert forall|i: int, j: int| 0 <= i < j < levels1.len() implies better_price(
                    levels1[i].price,
                    levels1[j].price,
                    mside,
                ) by {
                    assert(levels1[i] == levels[i + 1]);
                    assert(levels1[j] == levels[j + 1]);
                }
            } else {
                let l1 = LevelModel {
                    price: levels[0].price,
                    orders: levels[0].orders.drop_first(),
                };
                assert(level_wf(l1, mside)) by {
                    assert forall|i: int| 0 <= i < l1.orders.len() implies {
                        let o = #[trigger] l1.orders[i];
                        &&& resting_ok(o)
                        &&& o.qty_remaining >= 1
                        &&& o.price == l1.price
                        &&& o.side == mside
                        &&& o.order_type == OrderType::Limit
                    } by {
                        assert(l1.orders[i] == levels[0].orders[i + 1]);
                        assert(level_wf(levels[0], mside));
                    }
                }
                assert forall|i: int| 0 <= i < levels1.len() implies level_wf(
                    #[trigger] levels1[i],
                    mside,
                ) by {
                    if i == 0 {
                        assert(levels1[0] == l1);
                    } else {
                        assert(levels1[i] == levels[i]);
                    }
                }
                assert forall|i: int, j: int| 0 <= i < j < levels1.len() implies better_price(
                    levels1[i].price,
                    levels1[j].price,
                    mside,
                ) by {
                    assert(levels1[i].price == levels[i].price);
                    assert(levels1[j].price == levels[j].price);
                }
            }
            assert(side_wf(levels1, mside));
            let qty1 = (qty - traded) as u64;
            lemma_spec_match_properties(levels1, qty1, limit, taker_side, tid, tacct);
            let rest = spec_match(levels1, qty1, limit, taker_side, tid, tacct);
            // the flattened side loses exactly its front order
            assert(flatten_side(levels1) =~= flatten_side(levels).drop_first()) by {
                if levels[0].orders.len() == 1 {
                    assert(flatten_side(levels.drop_first()) == flatten_side(levels1));
                } else {
                    assert(flatten_side(levels1) == levels1[0].orders + flatten_side(
                        levels1.drop_first(),
                    ));
                    assert(levels1.drop_first() =~= levels.drop_first());
                }
            }
            // quantity conservation on the side
            assert(side_qty(levels1) + traded == side_qty(levels)) by {
                if levels[0].orders.len() == 1 {
                    assert(level_qty(levels[0].orders) == traded + level_qty(
                        levels[0].orders.drop_first(),
                    ));
                    assert(level_qty(levels[0].orders.drop_first()) == 0);
                } else {
                    assert(level_qty(levels[0].orders) == traded + level_qty(
                        levels[0].orders.drop_first(),
                    ));
                    assert(levels1.drop_first() =~= levels.drop_first());
                }
            }
            let fill = m.fills[0];
            assert(m.fills.drop_first() =~= rest.fills);
            assert(fills_qty(m.fills) == traded + fills_qty(rest.fills));
            assert(forall|k: int|
                1 <= k < m.fills.len() ==> #[trigger] m.fills[k] == rest.fills[k - 1]);
            assert(flatten_side(levels)[0] == resting) by {
                assert(flatten_side(levels) == levels[0].orders + flatten_side(
                    levels.drop_first(),
                ));
            }
            assert(forall|k: int|
                1 <= k < m.fills.len() ==> flatten_side(levels)[k] == flatten_side(levels1)[k
                    - 1]);
        } else {
            // taker exhausted: front order decremented in place
            let resting1 = OrderModel {
                qty_remaining: (resting.qty_remaining - qty) as u64,
                ..resting
            };
            let l1 = LevelModel {
                price: levels[0].price,
                orders: levels[0].orders.update(0, resting1),
            };
            let levels1 = levels.update(0, l1);
            assert(level_wf(l1, mside)) by {
                assert forall|i: int| 0 <= i < l1.orders.len() implies {
                    let o = #[trigger] l1.orders[i];
                    &&& resting_ok(o)
                    &&& o.qty_remaining >= 1
                    &&& o.price == l1.price
                    &&& o.side == mside
                    &&& o.order_type == OrderType::Limit
                } by {
                    assert(level_wf(levels[0], mside));
                    if i == 0 {
                        assert(l1.orders[0] == resting1);
                        assert(resting_ok(resting));
                        assert(resting_ok(resting1));
                    } else {
                        assert(l1.orders[i] == levels[0].orders[i]);
                    }
                }
            }
            assert forall|i: int| 0 <= i < levels1.len() implies level_wf(
                #[trigger] levels1[i],
                mside,
            ) by {
                if i == 0 {
                    assert(levels1[0] == l1);
                } else {
                    assert(levels1[i] == levels[i]);
                }
            }
            assert forall|i: int, j: int| 0 <= i < j < levels1.len() implies better_price(
                levels1[i].price,
                levels1[j].price,
                mside,
            ) by {
                assert(levels1[i].price == levels[i].price);
                assert(levels1[j].price == levels[j].price);
            }
            assert(side_wf(levels1, mside));
            assert(side_qty(levels1) + qty == side_qty(levels)) by {
                assert(level_qty(l1.orders) == resting1.qty_remaining + level_qty(
                    l1.orders.drop_first(),
                ));
                assert(l1.orders.drop_first() =~= levels[0].orders.drop_first());
                assert(level_qty(levels[0].orders) == resting.qty_remaining + level_qty(
                    levels[0].orders.drop_first(),
                ));
                assert(levels1.drop_first() =~= levels.drop_first());
            }
            assert(fills_qty(m.fills) == qty) by {
                assert(m.fills.len() == 1);
                assert(m.fills[0].quantity == qty);
                assert(m.fills.drop_first() =~= Seq::<FillModel>::empty());
                assert(fills_qty(Seq::<FillModel>::empty()) == 0);
                assert(fills_qty(m.fills) == m.fills[0].quantity + fills_qty(
                    m.fills.drop_first(),
                ));
            }
            assert(flatten_side(levels)[0] == resting) by {
                assert(flatten_side(levels) == levels[0].orders + flatten_side(
                    levels.drop_first(),
                ));
            }
            assert(flatten_side(levels).len() >= 1);
        }
    }
}

/// Insert a resting limit order into one side, per [`spec_add_order`].
fn add_to_side(levels: &mut Vec<PriceLevel>, order: Order)
    requires
        side_wf(side_model(old(levels)@), order.side),
        resting_ok(order@),
        order.order_type == OrderType::Limit,
    ensures
        side_model(final(levels)@) == spec_add_order(side_model(old(levels)@), order@),
        side_wf(side_model(final(levels)@), order.side),
{
    let ghost pre = side_model(levels@);
    let ghost om = order@;
    proof {
        lemma_spec_add_wf(pre, om);
        assert(pre.take(0) =~= Seq::<LevelModel>::empty());
        assert(pre.skip(0) =~= pre);
        assert(spec_add_order(pre, om) =~= pre.take(0) + spec_add_order(pre.skip(0), om));
    }
    let mut i: usize = 0;
    loop
        invariant
            i <= levels.len(),
            side_model(levels@) == pre,
            side_wf(pre, order.side),
            resting_ok(om),
            om == order@,
            om.order_type == OrderType::Limit,
            spec_add_order(pre, om) == pre.take(i as int) + spec_add_order(
                pre.skip(i as int),
                om,
            ),
        ensures
            i <= levels.len(),
            side_model(levels@) == pre,
            spec_add_order(pre, om) == pre.take(i as int) + spec_add_order(
                pre.skip(i as int),
                om,
            ),
            i < levels.len() ==> !better_price(pre[i as int].price, om.price, om.side),
        decreases levels.len() - i,
    {
        if i == levels.len() {
            break;
        }
        let p = levels[i].price;
        let keep_scanning = match order.side {
            Side::Buy => p > order.price,
            Side::Sell => p < order.price,
        };
        proof {
            assert(p == pre[i as int].price);
            assert(keep_scanning == better_price(pre[i as int].price, om.price, om.side));
        }
        if !keep_scanning {
            break;
        }
        proof {
            let iv = i as int;
            assert(pre.skip(iv)[0] == pre[iv]);
            assert(pre.skip(iv).drop_first() =~= pre.skip(iv + 1));
            assert(spec_add_order(pre.skip(iv), om) == seq![pre[iv]] + spec_add_order(
                pre.skip(iv + 1),
                om,
            ));
            assert(pre.take(iv + 1) =~= pre.take(iv) + seq![pre[iv]]);
            assert(pre.take(iv) + (seq![pre[iv]] + spec_add_order(pre.skip(iv + 1), om)) =~= (
            pre.take(iv) + seq![pre[iv]]) + spec_add_order(pre.skip(iv + 1), om));
        }
        i = i + 1;
    }
    let ghost iv = i as int;
    if i < levels.len() && levels[i].price == order.price {
        // queue at the back of the existing level for this price
        let mut lvl = levels.remove(i);
        lvl.orders.push(order);
        levels.insert(i, lvl);
        proof {
            assert(pre.skip(iv)[0] == pre[iv]);
            assert(spec_add_order(pre.skip(iv), om) == pre.skip(iv).update(
                0,
                LevelModel { price: pre[iv].price, orders: pre[iv].orders.push(om) },
            ));
            assert(side_model(levels@) =~~= pre.take(iv) + spec_add_order(pre.skip(iv), om));
        }
    } else {
        // a fresh level, placed so prices stay strictly ordered
        let op = order.price;
        let mut q: Vec<Order> = Vec::new();
        q.push(order);
        let nl = PriceLevel { price: op, orders: q };
        levels.insert(i, nl);
        proof {
            if iv < pre.len() {
                assert(!better_price(pre[iv].price, om.price, om.side));
                assert(pre[iv].price != om.price);
                assert(better_price(om.price, pre[iv].price, om.side));
                assert(spec_add_order(pre.skip(iv), om) == seq![
                    LevelModel { price: om.price, orders: seq![om] },
                ] + pre.skip(iv));
            } else {
                assert(pre.skip(iv) =~= Seq::<LevelModel>::empty());
                assert(spec_add_order(pre.skip(iv), om) =~= seq![
                    LevelModel { price: om.price, orders: seq![om] },
                ]);
            }
            assert(nl@.orders =~= seq![om]);
            assert(nl@ == LevelModel { price: om.price, orders: seq![om] });
            assert(side_model(levels@) =~~= pre.take(iv) + spec_add_order(pre.skip(iv), om));
        }
    }
}

/// Match `qty` of an incoming order against one side of a book, held in
/// `levels` (best level first). Returns the fills in match order and the
/// quantity left unmatched. The side is mutated exactly as
/// [`spec_match`] describes.
fn match_against_side(
    levels: &mut Vec<PriceLevel>,
    qty: u64,
    limit: Option<u64>,
    taker_side: Side,
    taker_order_id: u64,
    taker_account_id: &String,
) -> (r: (Vec<FillReport>, u64))
    requires
        side_wf(side_model(old(levels)@), opposite(taker_side)),
    ensures
        ({
            let m = spec_match(
                side_model(old(levels)@),
                qty,
                limit,
                taker_side,
                taker_order_id,
                taker_account_id@,
            );
            &&& side_model(final(levels)@) == m.levels
            &&& fills_model(r.0@) == m.fills
            &&& r.1 == m.qty_left
            &&& side_wf(side_model(final(levels)@), opposite(taker_side))
        }),
{
    let ghost m0 = spec_match(
        side_model(levels@),
        qty,
        limit,
        taker_side,
        taker_order_id,
        taker_account_id@,
    );
    proof {
        lemma_spec_match_properties(
            side_model(levels@),
            qty,
            limit,
            taker_side,
            taker_order_id,
            taker_account_id@,
        );
    }
    let mut fills: Vec<FillReport> = Vec::new();
    let mut q: u64 = qty;
    loop
        invariant
            side_wf(side_model(levels@), opposite(taker_side)),
            q <= qty,
            ({
                let rest = spec_match(
                    side_model(levels@),
                    q,
                    limit,
                    taker_side,
                    taker_order_id,
                    taker_account_id@,
                );
                &&& m0.fills == fills_model(fills@) + rest.fills
                &&& m0.levels == rest.levels
                &&& m0.qty_left == rest.qty_left
            }),
        ensures
            q == 0 || side_model(levels@).len() == 0 || !spec_crosses(
                side_model(levels@)[0].price,
                limit,
                taker_side,
            ),
        decreases q,
    {
        if q == 0 {
            break;
        }
        if levels.len() == 0 {
            break;
        }
        let maker_price = levels[0].price;
        let cross = match limit {
            None => true,
            Some(l) => match taker_side {
                Side::Buy => l >= maker_price,
                Side::Sell => l <= maker_price,
            },
        };
        proof {
            assert(cross == spec_crosses(side_model(levels@)[0].price, limit, taker_side));
        }
        if !cross {
            break;
        }
        let ghost pre = side_model(levels@);
        let ghost pre_q = q;
        let ghost pre_fills = fills@;
        proof {
            assert(level_wf(pre[0], opposite(taker_side)));
        }
        let mut lvl = levels.remove(0);
        proof {
            assert(lvl@ == pre[0]);
            assert(lvl.orders@.len() >= 1);
        }
        let mut front = lvl.orders.remove(0);
        proof {
            assert(front@ == pre[0].orders[0]);
            assert(front.qty_remaining >= 1);
        }
        let traded: u64 = if front.qty_remaining <= q {
            front.qty_remaining
        } else {
            q
        };
        let fill = FillReport {
            maker_order_id: front.order_id,
            maker_account_id: front.account_id.clone(),
            taker_order_id,
            taker_account_id: taker_account_id.clone(),
            price: maker_price,
            quantity: traded,
        };
        let ghost fill_m = fill@;
        fills.push(fill);
        q = q - traded;
        let exhausted = front.qty_remaining == traded;
        if exhausted {
            if lvl.orders.len() > 0 {
                levels.insert(0, lvl);
            }
        } else {
            front.qty_remaining = front.qty_remaining - traded;
            lvl.orders.insert(0, front);
            levels.insert(0, lvl);
        }
        proof {
            let rest_pre = spec_match(pre, pre_q, limit, taker_side, taker_order_id,
                taker_account_id@);
            let cur = side_model(levels@);
            let rest_cur = spec_match(cur, q, limit, taker_side, taker_order_id,
                taker_account_id@);
            // the exec step performed exactly one unfolding of spec_match
            if exhausted {
                let levels1 = if pre[0].orders.len() == 1 {
                    pre.drop_first()
                } else {
                    pre.update(
                        0,
                        LevelModel { price: pre[0].price, orders: pre[0].orders.drop_first() },
                    )
                };
                assert(cur =~~= levels1);
                lemma_spec_match_properties(pre, traded, limit, taker_side, taker_order_id,
                    taker_account_id@);
                assert(traded == pre[0].orders[0].qty_remaining);
                assert(spec_match(levels1, 0, limit, taker_side, taker_order_id,
                    taker_account_id@).levels == levels1);
                assert(spec_match(pre, traded, limit, taker_side, taker_order_id,
                    taker_account_id@).levels =~~= levels1);
                assert(side_wf(levels1, opposite(taker_side)));
                assert(rest_pre.fills =~~= seq![fill_m] + rest_cur.fills);
            } else {
                let resting1 = OrderModel {
                    qty_remaining: (pre[0].orders[0].qty_remaining - pre_q) as u64,
                    ..pre[0].orders[0]
                };
                let levels1 = pre.update(
                    0,
                    LevelModel {
                        price: pre[0].price,
                        orders: pre[0].orders.update(0, resting1),
                    },
                );
                assert(cur =~~= levels1);
                lemma_spec_match_properties(pre, pre_q, limit, taker_side, taker_order_id,
                    taker_account_id@);
                assert(rest_pre.levels =~~= levels1);
                assert(side_wf(levels1, opposite(taker_side)));
                assert(rest_pre.fills =~~= seq![fill_m] + rest_cur.fills);
            }
            assert(fills_model(fills@) =~~= fills_model(pre_fills) + seq![fill_m]);
            assert(m0.fills =~~= fills_model(fills@) + rest_cur.fills);
        }
    }
    proof {
        let rest = spec_match(
            side_model(levels@),
            q,
            limit,
            taker_side,
            taker_order_id,
            taker_account_id@,
        );
        assert(rest.fills =~~= Seq::<FillModel>::empty());
        assert(m0.fills =~~= fills_model(fills@));
    }
    (fills, q)
}

/// Insert a resting limit order into a side: queued at the back of its
/// price's level, or in a fresh level placed so prices stay strictly
/// ordered best first.
pub open spec fn spec_add_order(levels: Seq<LevelModel>, o: OrderModel) -> Seq<LevelModel>
    decreases levels.len(),
{
    if levels.len() == 0 {
        seq![LevelModel { price: o.price, orders: seq![o] }]
    } else if better_price(o.price, levels[0].price, o.side) {
        seq![LevelModel { price: o.price, orders: seq![o] }] + levels
    } else if o.price == levels[0].price {
        levels.update(0, LevelModel { price: levels[0].price, orders: levels[0].orders.push(o) })
    } else {
        seq![levels[0]] + spec_add_order(levels.drop_first(), o)
    }
}

/// Inserting a suitable resting order keeps a side well formed.
pub proof fn lemma_spec_add_wf(levels: Seq<LevelModel>, o: OrderModel)
    requires
        side_wf(levels, o.side),
        resting_ok(o),
        o.order_type == OrderType::Limit,
    ensures
        side_wf(spec_add_order(levels, o), o.side),
        side_qty(spec_add_order(levels, o)) == side_qty(levels) + o.qty_remaining,
    decreases levels.len(),
{
    let r = spec_add_order(levels, o);
    if levels.len() == 0 {
        assert(level_wf(r[0], o.side));
        assert(level_qty(r[0].orders) == o.qty_remaining) by {
            assert(r[0].orders =~= seq![o]);
            assert(seq![o].drop_first() =~= Seq::<OrderModel>::empty());
            assert(level_qty(Seq::<OrderModel>::empty()) == 0);
            assert(level_qty(seq![o]) == o.qty_remaining + level_qty(seq![o].drop_first()));
        }
        assert(r.drop_first() =~= Seq::<LevelModel>::empty());
        assert(side_qty(r) == level_qty(r[0].orders) + side_qty(r.drop_first()));
    } else if better_price(o.price, levels[0].price, o.side) {
        let nl = LevelModel { price: o.price, orders: seq![o] };
        assert(level_wf(nl, o.side));
        assert forall|i: int, j: int| 0 <= i < j < r.len() implies better_price(
            r[i].price,
            r[j].price,
            o.side,
        ) by {
            if i >= 1 {
                assert(r[i] == levels[i - 1]);
                assert(r[j] == levels[j - 1]);
                assert(better_price(levels[i - 1].price, levels[j - 1].price, o.side));
            } else {
                assert(r[j] == levels[j - 1]);
                if j - 1 >= 1 {
                    assert(better_price(levels[0].price, levels[j - 1].price, o.side));
                }
            }
        }
        assert forall|i: int| 0 <= i < r.len() implies level_wf(#[trigger] r[i], o.side) by {
            if i >= 1 {
                assert(r[i] == levels[i - 1]);
            }
        }
        assert(level_qty(nl.orders) == o.qty_remaining) by {
            assert(nl.orders =~= seq![o]);
            assert(seq![o].drop_first() =~= Seq::<OrderModel>::empty());
            assert(level_qty(Seq::<OrderModel>::empty()) == 0);
            assert(level_qty(seq![o]) == o.qty_remaining + level_qty(seq![o].drop_first()));
        }
        assert(r.drop_first() =~= levels);
        assert(side_qty(r) == level_qty(nl.orders) + side_qty(levels));
    } else if o.price == levels[0].price {
        let l1 = LevelModel { price: levels[0].price, orders: levels[0].orders.push(o) };
        assert(level_wf(l1, o.side)) by {
            assert forall|i: int| 0 <= i < l1.orders.len() implies {
                let x = #[trigger] l1.orders[i];
                &&& resting_ok(x)
                &&& x.price == l1.price
                &&& x.side == o.side
                &&& x.order_type == OrderType::Limit
            } by {
                assert(level_wf(levels[0], o.side));
                if i < levels[0].orders.len() {
                    assert(l1.orders[i] == levels[0].orders[i]);
                } else {
                    assert(l1.orders[i] == o);
                }
            }
        }
        assert forall|i: int| 0 <= i < r.len() implies level_wf(#[trigger] r[i], o.side) by {
            if i >= 1 {
                assert(r[i] == levels[i]);
            }
        }
        assert forall|i: int, j: int| 0 <= i < j < r.len() implies better_price(
            r[i].price,
            r[j].price,
            o.side,
        ) by {
            assert(r[i].price == levels[i].price);
            assert(r[j].price == levels[j].price);
        }
        lemma_level_qty_push(levels[0].orders, o);
        assert(r.drop_first() =~= levels.drop_first());
    } else {
        let tail = levels.drop_first();
        assert(side_wf(tail, o.side)) by {
            assert forall|i: int| 0 <= i < tail.len() implies level_wf(
                #[trigger] tail[i],
                o.side,
            ) by {
                assert(tail[i] == levels[i + 1]);
            }
            assert forall|i: int, j: int| 0 <= i < j < tail.len() implies better_price(
                tail[i].price,
                tail[j].price,
                o.side,
            ) by {
                assert(tail[i] == levels[i + 1]);
                assert(tail[j] == levels[j + 1]);
            }
        }
        lemma_spec_add_wf(tail, o);
        let rt = spec_add_order(tail, o);
        // the head level beats the order's price, and everything in the
        // recursive result is either the new level or an old tail level
        assert(level_wf(levels[0], o.side));
        assert(better_price(levels[0].price, o.price, o.side));
        assert forall|j: int| 0 <= j < rt.len() implies better_price(
            levels[0].price,
            rt[j].price,
            o.side,
        ) by {
            lemma_spec_add_prices(tail, o, j);
            if rt[j].price != o.price {
                let k = choose|k: int| 0 <= k < tail.len() && tail[k].price == rt[j].price;
                assert(tail[k] == levels[k + 1]);
                assert(better_price(levels[0].price, levels[k + 1].price, o.side));
            }
        }
        assert forall|i: int| 0 <= i < r.len() implies level_wf(#[trigger] r[i], o.side) by {
            if i >= 1 {
                assert(r[i] == rt[i - 1]);
            }
        }
        assert forall|i: int, j: int| 0 <= i < j < r.len() implies better_price(
            r[i].price,
            r[j].price,
            o.side,
        ) by {
            if i >= 1 {
                assert(r[i] == rt[i - 1]);
                assert(r[j] == rt[j - 1]);
                assert(side_wf(rt, o.side));
            } else {
                assert(r[j] == rt[j - 1]);
            }
        }
        assert(r.drop_first() =~= rt);
        assert(side_qty(r) == level_qty(levels[0].orders) + side_qty(rt));
    }
}

/// Every price in an insertion's result is either the inserted order's
/// price or a price already on the side.
pub proof fn lemma_spec_add_prices(levels: Seq<LevelModel>, o: OrderModel, j: int)
    requires
        0 <= j < spec_add_order(levels, o).len(),
    ensures
        spec_add_order(levels, o)[j].price == o.price || exists|k: int|
            0 <= k < levels.len() && levels[k].price == spec_add_order(levels, o)[j].price,
    decreases levels.len(),
{
    let r = spec_add_order(levels, o);
    if levels.len() == 0 {
    } else if better_price(o.price, levels[0].price, o.side) {
        if j >= 1 {
            assert(r[j] == levels[j - 1]);
        }
    } else if o.price == levels[0].price {
        if j >= 1 {
            assert(r[j] == levels[j]);
        } else {
            assert(r[0].price == levels[0].price);
        }
    } else {
        if j == 0 {
            assert(r[0] == levels[0]);
        } else {
            let tail = levels.drop_first();
            assert(r[j] == spec_add_order(tail, o)[j - 1]);
            lemma_spec_add_prices(tail, o, j - 1);
            if spec_add_order(tail, o)[j - 1].price != o.price {
                let k = choose|k: int|
                    0 <= k < tail.len() && tail[k].price == spec_add_order(tail, o)[j - 1].price;
                assert(levels[k + 1].price == r[j].price);
            }
        }
    }
}

/// Queue totals grow by the queued order's remaining quantity.
pub proof fn lemma_level_qty_push(orders: Seq<OrderModel>, o: OrderModel)
    ensures
        level_qty(orders.push(o)) == level_qty(orders) + o.qty_remaining,
    decreases orders.len(),
{
    if orders.len() == 0 {
        assert(orders.push(o)[0] == o);
        assert(orders.push(o).drop_first() =~= Seq::<OrderModel>::empty());
        assert(level_qty(Seq::<OrderModel>::empty()) == 0);
        assert(level_qty(orders.push(o)) == o.qty_remaining + level_qty(
            orders.push(o).drop_first(),
        ));
    } else {
        assert(orders.push(o)[0] == orders[0]);
        assert(orders.push(o).drop_first() =~= orders.drop_first().push(o));
        lemma_level_qty_push(orders.drop_first(), o);
        assert(level_qty(orders.push(o)) == orders[0].qty_remaining + level_qty(
            orders.drop_first().push(o),
        ));
    }
}

/// Does a resting order match a cancellation key? The account is
/// checked only when one is given.
pub open spec fn order_key_matches(o: OrderModel, oid: u64, aid: Option<Seq<char>>) -> bool {
    &&& o.order_id == oid
    &&& (aid is Some ==> o.account_id == aid->0)
}

/// The index of the first order in a queue matching a cancellation key.
pub open spec fn spec_find_in_orders(
    orders: Seq<OrderModel>,
    oid: u64,
    aid: Option<Seq<char>>,
) -> Option<int>
    decreases orders.len(),
{
    if orders.len() == 0 {
        None
    } else if order_key_matches(orders[0], oid, aid) {
        Some(0int)
    } else {
        match spec_find_in_orders(orders.drop_first(), oid, aid) {
            Some(j) => Some(j + 1),
            None => None,
        }
    }
}

/// Remove the first order matching a cancellation key from a side,
/// scanning levels best first and each queue oldest first; the level is
/// deleted if its queue empties. `None` when no order matches.
pub open spec fn spec_remove_from_side(
    levels: Seq<LevelModel>,
    oid: u64,
    aid: Option<Seq<char>>,
) -> Option<(Seq<LevelModel>, OrderModel)>
    decreases levels.len(),
{
    if levels.len() == 0 {
        None
    } else {
        match spec_find_in_orders(levels[0].orders, oid, aid) {
            Some(j) => {
                let removed = levels[0].orders[j];
                let rest = levels[0].orders.remove(j);
                let nl = if rest.len() == 0 {
                    levels.drop_first()
                } else {
                    levels.update(0, LevelModel { price: levels[0].price, orders: rest })
                };
                Some((nl, removed))
            },
            None => match spec_remove_from_side(levels.drop_first(), oid, aid) {
                Some((ls, rm)) => Some((seq![levels[0]] + ls, rm)),
                None => None,
            },
        }
    }
}

/// Whether some order on a side matches a cancellation key.
pub open spec fn side_has_order(levels: Seq<LevelModel>, oid: u64, aid: Option<Seq<char>>) -> bool {
    exists|i: int, j: int|
        0 <= i < levels.len() && 0 <= j < levels[i].orders.len() && order_key_matches(
            levels[i].orders[j],
            oid,
            aid,
        )
}

/// A queue search succeeds exactly when some order matches, and returns
/// the first match.
pub proof fn lemma_spec_find(orders: Seq<OrderModel>, oid: u64, aid: Option<Seq<char>>)
    ensures
        spec_find_in_orders(orders, oid, aid) is Some <==> exists|j: int|
            0 <= j < orders.len() && order_key_matches(orders[j], oid, aid),
        match spec_find_in_orders(orders, oid, aid) {
            Some(j) => 0 <= j < orders.len() && order_key_matches(orders[j], oid, aid) && (forall|
                k: int,
            |
                0 <= k < j ==> !order_key_matches(orders[k], oid, aid)),
            None => true,
        },
    decreases orders.len(),
{
    if orders.len() == 0 {
    } else if order_key_matches(orders[0], oid, aid) {
    } else {
        lemma_spec_find(orders.drop_first(), oid, aid);
        let tail = orders.drop_first();
        match spec_find_in_orders(tail, oid, aid) {
            Some(j) => {
                assert(tail[j] == orders[j + 1]);
                assert forall|k: int| 0 <= k < j + 1 implies !order_key_matches(
                    orders[k],
                    oid,
                    aid,
                ) by {
                    if k >= 1 {
                        assert(tail[k - 1] == orders[k]);
                    }
                }
            },
            None => {
                if exists|j: int| 0 <= j < orders.len() && order_key_matches(orders[j], oid, aid) {
                    let j = choose|j: int|
                        0 <= j < orders.len() && order_key_matches(orders[j], oid, aid);
                    assert(j >= 1);
                    assert(tail[j - 1] == orders[j]);
                }
            },
        }
    }
}

/// Removal succeeds exactly when some order matches; the side it leaves
/// is well formed, and the removed order matched the key.
pub proof fn lemma_spec_remove(
    levels: Seq<LevelModel>,
    oid: u64,
    aid: Option<Seq<char>>,
    side: Side,
)
    requires
        side_wf(levels, side),
    ensures
        spec_remove_from_side(levels, oid, aid) is Some <==> side_has_order(levels, oid, aid),
        match spec_remove_from_side(levels, oid, aid) {
            Some((ls, rm)) => side_wf(ls, side) && order_key_matches(rm, oid, aid) && resting_ok(
                rm,
            ) && rm.side == side && rm.order_type == OrderType::Limit,
            None => true,
        },
    decreases levels.len(),
{
    if levels.len() == 0 {
    } else {
        lemma_spec_find(levels[0].orders, oid, aid);
        assert(level_wf(levels[0], side));
        match spec_find_in_orders(levels[0].orders, oid, aid) {
            Some(j) => {
                let rest = levels[0].orders.remove(j);
                let removed = levels[0].orders[j];
                assert(side_has_order(levels, oid, aid));
                if rest.len() == 0 {
                    let nl = levels.drop_first();
                    assert forall|i: int| 0 <= i < nl.len() implies level_wf(
                        #[trigger] nl[i],
                        side,
                    ) by {
                        assert(nl[i] == levels[i + 1]);
                    }
                    assert forall|i: int, k: int| 0 <= i < k < nl.len() implies better_price(
                        nl[i].price,
                        nl[k].price,
                        side,
                    ) by {
                        assert(nl[i] == levels[i + 1]);
                        assert(nl[k] == levels[k + 1]);
                        assert(better_price(levels[i + 1].price, levels[k + 1].price, side));
                    }
                } else {
                    let l1 = LevelModel { price: levels[0].price, orders: rest };
                    let nl = levels.update(0, l1);
                    assert(level_wf(l1, side)) by {
                        assert forall|k: int| 0 <= k < rest.len() implies {
                            let o = #[trigger] rest[k];
                            &&& resting_ok(o)
                            &&& o.price == l1.price
                            &&& o.side == side
                            &&& o.order_type == OrderType::Limit
                        } by {
                            if k < j {
                                assert(rest[k] == levels[0].orders[k]);
                            } else {
                                assert(rest[k] == levels[0].orders[k + 1]);
                            }
                        }
                    }
                    assert forall|i: int| 0 <= i < nl.len() implies level_wf(
                        #[trigger] nl[i],
                        side,
                    ) by {
                        if i != 0 {
                            assert(nl[i] == levels[i]);
                        }
                    }
                    assert forall|i: int, k: int| 0 <= i < k < nl.len() implies better_price(
                        nl[i].price,
                        nl[k].price,
                        side,
                    ) by {
                        assert(nl[i].price == levels[i].price);
                        assert(nl[k].price == levels[k].price);
                        assert(better_price(levels[i].price, levels[k].price, side));
                    }
                }
            },
            None => {
                let tail = levels.drop_first();
                assert(side_wf(tail, side)) by {
                    assert forall|i: int| 0 <= i < tail.len() implies level_wf(
                        #[trigger] tail[i],
                        side,
                    ) by {
                        assert(tail[i] == levels[i + 1]);
                    }
                    assert forall|i: int, k: int| 0 <= i < k < tail.len() implies better_price(
                        tail[i].price,
                        tail[k].price,
                        side,
                    ) by {
                        assert(tail[i] == levels[i + 1]);
                        assert(tail[k] == levels[k + 1]);
                        assert(better_price(levels[i + 1].price, levels[k + 1].price, side));
                    }
                }
                lemma_spec_remove(tail, oid, aid, side);
                match spec_remove_from_side(tail, oid, aid) {
                    Some((ls, rm)) => {
                        let r = seq![levels[0]] + ls;
                        assert(side_has_order(tail, oid, aid));
                        let (ti, tj) = choose|i: int, j: int|
                            0 <= i < tail.len() && 0 <= j < tail[i].orders.len()
                                && order_key_matches(tail[i].orders[j], oid, aid);
                        assert(tail[ti] == levels[ti + 1]);
                        assert(side_has_order(levels, oid, aid));
                        // prices in the recursive result all come from the tail
                        assert forall|i: int| 0 <= i < r.len() implies level_wf(
                            #[trigger] r[i],
                            side,
                        ) by {
                            if i >= 1 {
                                assert(r[i] == ls[i - 1]);
                            }
                        }
                        assert forall|i: int, k: int| 0 <= i < k < r.len() implies better_price(
                            r[i].price,
                            r[k].price,
                            side,
                        ) by {
                            if i >= 1 {
                                assert(r[i] == ls[i - 1]);
                                assert(r[k] == ls[k - 1]);
                                assert(better_price(ls[i - 1].price, ls[k - 1].price, side));
                            } else {
                                assert(r[k] == ls[k - 1]);
                                lemma_spec_remove_prices(tail, oid, aid, k - 1);
                                let m = choose|m: int|
                                    0 <= m < tail.len() && tail[m].price == ls[k - 1].price;
                                assert(tail[m] == levels[m + 1]);
                                assert(better_price(levels[0].price, levels[m + 1].price, side));
                            }
                        }
                    },
                    None => {
                        if side_has_order(levels, oid, aid) {
                            let (ti, tj) = choose|i: int, j: int|
                                0 <= i < levels.len() && 0 <= j < levels[i].orders.len()
                                    && order_key_matches(levels[i].orders[j], oid, aid);
                            assert(ti >= 1);
                            assert(tail[ti - 1] == levels[ti]);
                            assert(side_has_order(tail, oid, aid));
                        }
                    },
                }
            },
        }
    }
}

/// Every level price left by a removal was already on the side.
pub proof fn lemma_spec_remove_prices(
    levels: Seq<LevelModel>,
    oid: u64,
    aid: Option<Seq<char>>,
    j: int,
)
    requires
        spec_remove_from_side(levels, oid, aid) is Some,
        0 <= j < spec_remove_from_side(levels, oid, aid)->Some_0.0.len(),
    ensures
        exists|k: int|
            0 <= k < levels.len() && levels[k].price == spec_remove_from_side(
                levels,
                oid,
                aid,
            )->Some_0.0[j].price,
    decreases levels.len(),
{
    let ls = spec_remove_from_side(levels, oid, aid)->Some_0.0;
    match spec_find_in_orders(levels[0].orders, oid, aid) {
        Some(fj) => {
            let rest = levels[0].orders.remove(fj);
            if rest.len() == 0 {
                assert(ls[j] == levels[j + 1]);
            } else {
                assert(ls[j] == levels.update(
                    0,
                    LevelModel { price: levels[0].price, orders: rest },
                )[j]);
                assert(ls[j].price == levels[j].price);
            }
        },
        None => {
            let tail = levels.drop_first();
            let lt = spec_remove_from_side(tail, oid, aid)->Some_0.0;
            if j == 0 {
                assert(ls[0] == levels[0]);
            } else {
                assert(ls[j] == lt[j - 1]);
                lemma_spec_remove_prices(tail, oid, aid, j - 1);
                let k = choose|k: int| 0 <= k < tail.len() && tail[k].price == lt[j - 1].price;
                assert(tail[k] == levels[k + 1]);
            }
        },
    }
}

/// Where the first matching order sits at level `li`, removal takes it
/// out of exactly that level, deleting the level if its queue empties.
pub proof fn lemma_spec_remove_at(
    levels: Seq<LevelModel>,
    oid: u64,
    aid: Option<Seq<char>>,
    li: int,
)
    requires
        0 <= li < levels.len(),
        forall|i: int| 0 <= i < li ==> spec_find_in_orders(#[trigger] levels[i].orders, oid, aid) is None,
        spec_find_in_orders(levels[li].orders, oid, aid) is Some,
    ensures
        ({
            let j = spec_find_in_orders(levels[li].orders, oid, aid)->Some_0;
            let rest = levels[li].orders.remove(j);
            let nls = if rest.len() == 0 {
                levels.take(li) + levels.skip(li + 1)
            } else {
                levels.update(li, LevelModel { price: levels[li].price, orders: rest })
            };
            spec_remove_from_side(levels, oid, aid) == Some((nls, levels[li].orders[j]))
        }),
    decreases li,
{
    let j = spec_find_in_orders(levels[li].orders, oid, aid)->Some_0;
    let rest = levels[li].orders.remove(j);
    if li == 0 {
        if rest.len() == 0 {
            assert(levels.take(0) + levels.skip(1) =~= levels.drop_first());
        }
    } else {
        let tail = levels.drop_first();
        assert(spec_find_in_orders(levels[0].orders, oid, aid) is None);
        assert forall|i: int| 0 <= i < li - 1 implies spec_find_in_orders(
            #[trigger] tail[i].orders,
            oid,
            aid,
        ) is None by {
            assert(tail[i] == levels[i + 1]);
        }
        assert(tail[li - 1] == levels[li]);
        lemma_spec_remove_at(tail, oid, aid, li - 1);
        let jt = spec_find_in_orders(tail[li - 1].orders, oid, aid)->Some_0;
        assert(jt == j);
        let rest_t = tail[li - 1].orders.remove(jt);
        assert(rest_t =~= rest);
        if rest.len() == 0 {
            let nls_t = tail.take(li - 1) + tail.skip(li);
            assert(spec_remove_from_side(levels, oid, aid) == Some(
                (seq![levels[0]] + nls_t, tail[li - 1].orders[jt]),
            ));
            assert(seq![levels[0]] + nls_t =~= levels.take(li) + levels.skip(li + 1));
        } else {
            let nls_t = tail.update(li - 1, LevelModel { price: tail[li - 1].price, orders: rest_t });
            assert(spec_remove_from_side(levels, oid, aid) == Some(
                (seq![levels[0]] + nls_t, tail[li - 1].orders[jt]),
            ));
            assert(seq![levels[0]] + nls_t =~~= levels.update(
                li,
                LevelModel { price: levels[li].price, orders: rest },
            ));
        }
    }
}

/// The view of an optional account reference.
pub open spec fn opt_aid_model(aid: Option<&String>) -> Option<Seq<char>> {
    match aid {
        Some(a) => Some(a@),
        None => None,
    }
}

/// Find the first order in a queue matching a cancellation key.
fn find_in_orders_exec(orders: &Vec<Order>, oid: u64, aid: Option<&String>) -> (r: Option<usize>)
    ensures
        match r {
            Some(j) => spec_find_in_orders(orders_model(orders@), oid, opt_aid_model(aid))
                == Some(j as int),
            None => spec_find_in_orders(orders_model(orders@), oid, opt_aid_model(aid)) is None,
        },
{
    let ghost om = orders_model(orders@);
    let ghost am = opt_aid_model(aid);
    proof {
        lemma_spec_find(om, oid, am);
    }
    let mut j: usize = 0;
    while j < orders.len()
        invariant
            j <= orders.len(),
            om == orders_model(orders@),
            am == opt_aid_model(aid),
            forall|k: int| 0 <= k < j ==> !order_key_matches(om[k], oid, am),
        decreases orders.len() - j,
    {
        let id_hit = orders[j].order_id == oid;
        let acct_hit = match aid {
            None => true,
            Some(a) => String::eq(a, &orders[j].account_id),
        };
        proof {
            assert(om[j as int] == orders@[j as int]@);
        }
        if id_hit && acct_hit {
            proof {
                lemma_spec_find(om, oid, am);
                assert(order_key_matches(om[j as int], oid, am));
                assert(exists|k: int|
                    0 <= k < om.len() && order_key_matches(#[trigger] om[k], oid, am)) by {
                    assert(0 <= (j as int) < om.len() && order_key_matches(om[j as int], oid, am));
                }
                assert(spec_find_in_orders(om, oid, am) is Some);
                let j0 = spec_find_in_orders(om, oid, am)->Some_0;
                assert(j0 <= j as int);
                assert(j0 >= j as int);
            }
            return Some(j);
        }
        j = j + 1;
    }
    proof {
        if spec_find_in_orders(om, oid, am) is Some {
            let j0 = spec_find_in_orders(om, oid, am)->Some_0;
            assert(order_key_matches(om[j0], oid, am));
            assert(false);
        }
    }
    None
}

/// Remove the first order matching a cancellation key from one side,
/// per [`spec_remove_from_side`].
fn remove_from_side(
    levels: &mut Vec<PriceLevel>,
    oid: u64,
    aid: Option<&String>,
    Ghost(side): Ghost<Side>,
) -> (r: Option<Order>)
    requires
        side_wf(side_model(old(levels)@), side),
    ensures
        side_wf(side_model(final(levels)@), side),
        match spec_remove_from_side(side_model(old(levels)@), oid, opt_aid_model(aid)) {
            Some((ls, rm)) => r is Some && r->Some_0@ == rm && side_model(final(levels)@) == ls,
            None => r is None && side_model(final(levels)@) == side_model(old(levels)@),
        },
{
    let ghost pre = side_model(levels@);
    let ghost am = opt_aid_model(aid);
    proof {
        lemma_spec_remove(pre, oid, am, side);
    }
    let mut li: usize = 0;
    loop
        invariant
            li <= levels.len(),
            side_model(levels@) == pre,
            side_wf(pre, side),
            am == opt_aid_model(aid),
            forall|i: int|
                0 <= i < li ==> spec_find_in_orders(#[trigger] pre[i].orders, oid, am) is None,
        ensures
            side_model(levels@) == pre,
            li <= levels.len(),
            forall|i: int|
                0 <= i < li ==> spec_find_in_orders(#[trigger] pre[i].orders, oid, am) is None,
            li == levels.len() || spec_find_in_orders(pre[li as int].orders, oid, am) is Some,
        decreases levels.len() - li,
    {
        if li == levels.len() {
            break;
        }
        let hit = find_in_orders_exec(&levels[li].orders, oid, aid);
        proof {
            assert(pre[li as int].orders == orders_model(levels@[li as int].orders@));
        }
        if hit.is_some() {
            break;
        }
        li = li + 1;
    }
    if li < levels.len() {
        let hit = find_in_orders_exec(&levels[li].orders, oid, aid);
        proof {
            assert(pre[li as int].orders == orders_model(levels@[li as int].orders@));
        }
        match hit {
            Some(j) => {
                let ghost jv = j as int;
                proof {
                    lemma_spec_remove_at(pre, oid, am, li as int);
                    lemma_spec_find(pre[li as int].orders, oid, am);
                }
                let mut lvl = levels.remove(li);
                let removed = lvl.orders.remove(j);
                if lvl.orders.len() > 0 {
                    levels.insert(li, lvl);
                    proof {
                        assert(side_model(levels@) =~~= pre.update(
                            li as int,
                            LevelModel {
                                price: pre[li as int].price,
                                orders: pre[li as int].orders.remove(jv),
                            },
                        ));
                    }
                } else {
                    proof {
                        assert(pre[li as int].orders.remove(jv).len() == 0);
                        assert(side_model(levels@) =~~= pre.take(li as int) + pre.skip(
                            li as int + 1,
                        ));
                    }
                }
                return Some(removed);
            },
            None => {
                // unreachable: the loop only stops early on a hit
                proof {
                    assert(false);
                }
                return None;
            },
        }
    }
    proof {
        if side_has_order(pre, oid, am) {
            let (ti, tj) = choose|i: int, j: int|
                0 <= i < pre.len() && 0 <= j < pre[i].orders.len() && order_key_matches(
                    pre[i].orders[j],
                    oid,
                    am,
                );
            lemma_spec_find(pre[ti].orders, oid, am);
            assert(false);
        }
    }
    None
}

/// Aggregate remaining quantity of a queue, saturating at `u64::MAX`,
/// accumulated onto `acc`.
pub open spec fn spec_qty_agg(acc: u64, orders: Seq<OrderModel>) -> u64
    decreases orders.len(),
{
    if orders.len() == 0 {
        acc
    } else {
        spec_qty_agg(sat_add_spec(acc, orders[0].qty_remaining), orders.drop_first())
    }
}

/// The top `max` levels of a side as (price, aggregate quantity) pairs,
/// best price first.
pub open spec fn spec_depth(levels: Seq<LevelModel>, max: int) -> Seq<(u64, u64)> {
    let n = if max < levels.len() {
        max
    } else {
        levels.len() as int
    };
    levels.take(n).map_values(|l: LevelModel| (l.price, spec_qty_agg(0, l.orders)))
}

/// The representative price of a book: the bid/ask midpoint when both
/// sides rest, else the best price of the one resting side, else the
/// most recent trade price, else none.
pub open spec fn spec_representative_price(b: BookModel) -> Option<u64> {
    if b.bids.len() > 0 && b.asks.len() > 0 {
        Some(((b.bids[0].price + b.asks[0].price) / 2) as u64)
    } else if b.bids.len() > 0 {
        Some(b.bids[0].price)
    } else if b.asks.len() > 0 {
        Some(b.asks[0].price)
    } else if b.last_trade_prices.len() > 0 {
        Some(b.last_trade_prices.last())
    } else {
        None
    }
}

/// A structural snapshot of a book: both sides exactly as they rest,
/// plus the order-identifier counter.
#[derive(Debug)]
pub struct Snapshot {
    pub bids: Vec<PriceLevel>,
    pub asks: Vec<PriceLevel>,
    pub next_order_id: u64,
}

/// The mathematical content of a [`Snapshot`].
#[verifier::ext_equal]
pub ghost struct SnapshotModel {
    pub bids: Seq<LevelModel>,
    pub asks: Seq<LevelModel>,
    pub next_order_id: u64,
}

impl View for Snapshot {
    type V = SnapshotModel;

    open spec fn view(&self) -> SnapshotModel {
        SnapshotModel {
            bids: side_model(self.bids@),
            asks: side_model(self.asks@),
            next_order_id: self.next_order_id,
        }
    }
}

/// A snapshot whose sides are well formed, as any snapshot taken from a
/// well-formed book is.
pub open spec fn snapshot_wf(s: SnapshotModel) -> bool {
    &&& side_wf(s.bids, Side::Buy)
    &&& side_wf(s.asks, Side::Sell)
}

/// Copy a queue of orders, preserving its view.
fn clone_orders(v: &Vec<Order>) -> (r: Vec<Order>)
    ensures
        orders_model(r@) == orders_model(v@),
{
    let mut r: Vec<Order> = Vec::new();
    let mut i: usize = 0;
    while i < v.len()
        invariant
            i <= v.len(),
            orders_model(r@) == orders_model(v@).take(i as int),
        decreases v.len() - i,
    {
        let c = v[i].clone();
        let ghost cm = c@;
        let ghost pre_r = r@;
        proof {
            assert(cm == v@[i as int]@);
            assert(orders_model(pre_r) == orders_model(v@).take(i as int));
            assert(orders_model(pre_r).len() == pre_r.len());
            assert(orders_model(v@).len() == v@.len());
            assert(orders_model(v@).take(i as int).len() == i as int);
            assert(pre_r.len() == i as int);
        }
        r.push(c);
        proof {
            let iv = i as int;
            assert(r@ == pre_r.push(c));
            assert forall|k: int| 0 <= k < iv + 1 implies orders_model(r@)[k] == orders_model(
                v@,
            ).take(iv + 1)[k] by {
                if k < iv {
                    assert(r@[k] == pre_r[k]);
                    assert(orders_model(pre_r)[k] == orders_model(v@).take(iv)[k]);
                } else {
                    assert(r@[k] == c);
                }
            }
            assert(orders_model(r@) =~= orders_model(v@).take(iv + 1));
        }
        i = i + 1;
    }
    proof {
        assert(orders_model(v@).take(v@.len() as int) =~= orders_model(v@));
    }
    r
}

/// Copy a side, preserving its view.
fn clone_levels(v: &Vec<PriceLevel>) -> (r: Vec<PriceLevel>)
    ensures
        side_model(r@) == side_model(v@),
{
    let mut r: Vec<PriceLevel> = Vec::new();
    let mut i: usize = 0;
    while i < v.len()
        invariant
            i <= v.len(),
            side_model(r@) == side_model(v@).take(i as int),
        decreases v.len() - i,
    {
        let lvl = PriceLevel { price: v[i].price, orders: clone_orders(&v[i].orders) };
        let ghost lm = lvl@;
        let ghost pre_r = r@;
        proof {
            assert(lm =~~= v@[i as int]@);
            assert(side_model(pre_r) == side_model(v@).take(i as int));
            assert(side_model(pre_r).len() == pre_r.len());
            assert(side_model(v@).len() == v@.len());
            assert(side_model(v@).take(i as int).len() == i as int);
            assert(pre_r.len() == i as int);
        }
        r.push(lvl);
        proof {
            let iv = i as int;
            assert forall|k: int| 0 <= k < iv + 1 implies side_model(r@)[k] == side_model(
                v@,
            ).take(iv + 1)[k] by {
                if k < iv {
                    assert(r@[k] == pre_r[k]);
                    assert(side_model(pre_r)[k] == side_model(v@).take(iv)[k]);
                } else {
                    assert(side_model(r@)[k] == lm);
                }
            }
            assert(side_model(r@) =~= side_model(v@).take(iv + 1));
        }
        i = i + 1;
    }
    proof {
        assert(side_model(v@).take(v@.len() as int) =~= side_model(v@));
    }
    r
}

/// The aggregate quantity of the front `max` levels of a side, per
/// [`spec_depth`].
fn depth_of_side(levels: &Vec<PriceLevel>, max: usize) -> (r: Vec<(u64, u64)>)
    ensures
        r@ == spec_depth(side_model(levels@), max as int),
{
    let n = if max < levels.len() {
        max
    } else {
        levels.len()
    };
    let ghost target = spec_depth(side_model(levels@), max as int);
    let mut r: Vec<(u64, u64)> = Vec::new();
    let mut i: usize = 0;
    while i < n
        invariant
            i <= n,
            n == (if max < levels@.len() {
                max as int
            } else {
                levels@.len() as int
            }),
            target == spec_depth(side_model(levels@), max as int),
            r@ == target.take(i as int),
        decreases n - i,
    {
        let price = levels[i].price;
        let orders = &levels[i].orders;
        let ghost oms = side_model(levels@)[i as int].orders;
        let mut agg: u64 = 0;
        let mut j: usize = 0;
        proof {
            assert(oms.skip(0) =~= oms);
        }
        while j < orders.len()
            invariant
                j <= orders.len(),
                oms == side_model(levels@)[i as int].orders,
                i < levels@.len(),
                oms.len() == orders@.len(),
                oms == orders_model(orders@),
                spec_qty_agg(0, oms) == spec_qty_agg(agg, oms.skip(j as int)),
            decreases orders.len() - j,
        {
            let ghost pre = agg;
            agg = agg.saturating_add(orders[j].qty_remaining);
            proof {
                let jv = j as int;
                assert(oms.skip(jv)[0] == oms[jv]);
                assert(oms[jv].qty_remaining == orders@[jv].qty_remaining);
                assert(oms.skip(jv).drop_first() =~= oms.skip(jv + 1));
                assert(spec_qty_agg(pre, oms.skip(jv)) == spec_qty_agg(
                    sat_add_spec(pre, oms[jv].qty_remaining),
                    oms.skip(jv).drop_first(),
                ));
            }
            j = j + 1;
        }
        proof {
            assert(oms.skip(oms.len() as int) =~= Seq::<OrderModel>::empty());
        }
        r.push((price, agg));
        proof {
            assert(target.take(i as int + 1) =~= target.take(i as int).push(
                (price, spec_qty_agg(0, oms)),
            ));
        }
        i = i + 1;
    }
    proof {
        assert(target.take(target.len() as int) =~= target);
    }
    r
}

/// Why a book refuses an order placement.
#[derive(Clone, Copy, Debug, PartialEq, Eq, Structural)]
pub enum OrderBookError {
    /// The quantity is zero or above the accepted maximum.
    InvalidQuantity,
    /// The price is zero or above the accepted maximum.
    InvalidPrice,
    /// The account identifier is empty.
    EmptyAccount,
    /// The book has no order identifiers left to assign.
    IdsExhausted,
}

impl OrderBookError {
    /// A short description of the refusal.
    pub fn as_str(&self) -> (r: &'static str)
        ensures
            self is InvalidQuantity ==> r@ == "invalid quantity"@,
            self is InvalidPrice ==> r@ == "invalid price"@,
            self is EmptyAccount ==> r@ == "empty account id"@,
            self is IdsExhausted ==> r@ == "order ids exhausted"@,
    {
        match self {
            OrderBookError::InvalidQuantity => "invalid quantity",
            OrderBookError::InvalidPrice => "invalid price",
            OrderBookError::EmptyAccount => "empty account id",
            OrderBookError::IdsExhausted => "order ids exhausted",
        }
    }
}

/// What one placement did: the assigned order identifier, the terminal
/// or resting status, quantities, the last trade price (zero when
/// nothing traded), and one fill per match step.
#[derive(Debug)]
pub struct ExecutionReport {
    pub order_id: u64,
    pub status: OrderStatus,
    pub remaining_qty: u64,
    pub orig_qty: u64,
    pub executed_qty: u64,
    pub price: u64,
    pub fills: Vec<FillReport>,
    pub time_in_force: TimeInForce,
}

/// The mathematical content of an [`ExecutionReport`].
#[verifier::ext_equal]
pub ghost struct ReportModel {
    pub order_id: u64,
    pub status: OrderStatus,
    pub remaining_qty: u64,
    pub orig_qty: u64,
    pub executed_qty: u64,
    pub price: u64,
    pub fills: Seq<FillModel>,
    pub time_in_force: TimeInForce,
}

impl View for ExecutionReport {
    type V = ReportModel;

    open spec fn view(&self) -> ReportModel {
        ReportModel {
            order_id: self.order_id,
            status: self.status,
            remaining_qty: self.remaining_qty,
            orig_qty: self.orig_qty,
            executed_qty: self.executed_qty,
            price: self.price,
            fills: fills_model(self.fills@),
            time_in_force: self.time_in_force,
        }
    }
}

/// The status an order ends one matching call with: resting limit
/// orders are `New`, untouched market orders are discarded as
/// `Canceled`, and anything that traded is partially or fully filled.
pub open spec fn spec_status(order_type: OrderType, fills_len: int, qty_left: u64) -> OrderStatus {
    if fills_len == 0 {
        if order_type == OrderType::Limit {
            OrderStatus::New
        } else {
            OrderStatus::Canceled
        }
    } else if qty_left > 0 {
        OrderStatus::PartiallyFilled
    } else {
        OrderStatus::Filled
    }
}

/// The last price of a fill list, or zero when nothing traded.
pub open spec fn spec_last_price(fills: Seq<FillModel>) -> u64 {
    if fills.len() > 0 {
        fills.last().price
    } else {
        0
    }
}

/// A fill list's total quantity split at an index.
pub proof fn lemma_fills_qty_split(fills: Seq<FillModel>, i: int)
    requires
        0 <= i <= fills.len(),
    ensures
        fills_qty(fills) == fills_qty(fills.take(i)) + fills_qty(fills.skip(i)),
    decreases i,
{
    if i == 0 {
        assert(fills.take(0) =~= Seq::<FillModel>::empty());
        assert(fills.skip(0) =~= fills);
    } else {
        lemma_fills_qty_push(fills.take(i - 1), fills[i - 1]);
        assert(fills.take(i) =~= fills.take(i - 1).push(fills[i - 1]));
        lemma_fills_qty_split(fills, i - 1);
        assert(fills.skip(i - 1)[0] == fills[i - 1]);
        assert(fills.skip(i - 1).drop_first() =~= fills.skip(i));
        assert(fills_qty(fills.skip(i - 1)) == fills[i - 1].quantity + fills_qty(fills.skip(i)));
    }
}

/// Appending a fill adds its quantity to the total.
pub proof fn lemma_fills_qty_push(fills: Seq<FillModel>, f: FillModel)
    ensures
        fills_qty(fills.push(f)) == fills_qty(fills) + f.quantity,
    decreases fills.len(),
{
    if fills.len() == 0 {
        assert(fills.push(f)[0] == f);
        assert(fills.push(f).drop_first() =~= Seq::<FillModel>::empty());
        assert(fills_qty(Seq::<FillModel>::empty()) == 0);
        assert(fills_qty(fills.push(f)) == f.quantity + fills_qty(fills.push(f).drop_first()));
    } else {
        assert(fills.push(f)[0] == fills[0]);
        assert(fills.push(f).drop_first() =~= fills.drop_first().push(f));
        lemma_fills_qty_push(fills.drop_first(), f);
        assert(fills_qty(fills.push(f)) == fills[0].quantity + fills_qty(
            fills.drop_first().push(f),
        ));
    }
}

/// A fill list's quantities are never negative.
pub proof fn lemma_fills_qty_nonneg(fills: Seq<FillModel>)
    ensures
        fills_qty(fills) >= 0,
    decreases fills.len(),
{
    if fills.len() > 0 {
        lemma_fills_qty_nonneg(fills.drop_first());
    }
}

/// When a limit placement is accepted: bounded positive price and
/// quantity, a named account, and an identifier left to assign.
pub open spec fn limit_ok(b: BookModel, o: LimitOptionsModel) -> bool {
    &&& 1 <= o.quantity <= MAX_QUANTITY
    &&& 1 <= o.price <= MAX_PRICE
    &&& o.account_id.len() > 0
    &&& b.next_order_id < u64::MAX
}

/// The error a refused limit placement reports, first failing check
/// first.
pub open spec fn spec_limit_error(b: BookModel, o: LimitOptionsModel) -> OrderBookError {
    if o.quantity == 0 || o.quantity > MAX_QUANTITY {
        OrderBookError::InvalidQuantity
    } else if o.price == 0 || o.price > MAX_PRICE {
        OrderBookError::InvalidPrice
    } else if o.account_id.len() == 0 {
        OrderBookError::EmptyAccount
    } else {
        OrderBookError::IdsExhausted
    }
}

/// When a market placement is accepted.
pub open spec fn market_ok(b: BookModel, o: MarketOptionsModel) -> bool {
    &&& 1 <= o.quantity <= MAX_QUANTITY
    &&& o.account_id.len() > 0
    &&& b.next_order_id < u64::MAX
}

/// The error a refused market placement reports.
pub open spec fn spec_market_error(b: BookModel, o: MarketOptionsModel) -> OrderBookError {
    if o.quantity == 0 || o.quantity > MAX_QUANTITY {
        OrderBookError::InvalidQuantity
    } else if o.account_id.len() == 0 {
        OrderBookError::EmptyAccount
    } else {
        OrderBookError::IdsExhausted
    }
}

/// Record an operation in the journal, when journaling is on; the entry
/// is numbered by its position.
pub open spec fn spec_journal_push(b: BookModel, op: JournalOp, options: OptionsModel) -> BookModel {
    if b.journaling {
        BookModel {
            journal: b.journal.push(
                JournalModel { op_id: b.journal.len() as u64, op, options },
            ),
            ..b
        }
    } else {
        b
    }
}

/// The order a limit placement creates: the book's next identifier, the
/// book's outcome, and the placement's side, price and quantity.
pub open spec fn spec_limit_order(b: BookModel, o: LimitOptionsModel) -> OrderModel {
    OrderModel {
        order_id: b.next_order_id,
        market_id: 0,
        outcome_id: b.ticker,
        account_id: o.account_id,
        side: o.side,
        order_type: OrderType::Limit,
        price: o.price,
        qty_remaining: o.quantity,
        qty_original: o.quantity,
    }
}

/// The order a market placement creates; its price is zero.
pub open spec fn spec_market_order(b: BookModel, o: MarketOptionsModel) -> OrderModel {
    OrderModel {
        order_id: b.next_order_id,
        market_id: 0,
        outcome_id: b.ticker,
        account_id: o.account_id,
        side: o.side,
        order_type: OrderType::Market,
        price: 0,
        qty_remaining: o.quantity,
        qty_original: o.quantity,
    }
}

/// The time in force a placement runs under; GTC unless one is given.
pub open spec fn spec_tif(t: Option<TimeInForce>) -> TimeInForce {
    match t {
        Some(t) => t,
        None => TimeInForce::GTC,
    }
}

/// An accepted limit placement: journal, match, rest the remainder,
/// bump the identifier counter, and report what happened.
pub open spec fn spec_limit(b: BookModel, o: LimitOptionsModel) -> (BookModel, ReportModel) {
    let bj = spec_journal_push(b, JournalOp::Limit, OptionsModel::Limit(o));
    let ord = spec_limit_order(bj, o);
    let (b1, m) = spec_book_match_core(bj, ord);
    let b2 = if m.qty_left > 0 {
        let rem = OrderModel { qty_remaining: m.qty_left, ..ord };
        BookModel {
            bids: if o.side == Side::Buy {
                spec_add_order(b1.bids, rem)
            } else {
                b1.bids
            },
            asks: if o.side == Side::Sell {
                spec_add_order(b1.asks, rem)
            } else {
                b1.asks
            },
            ..b1
        }
    } else {
        b1
    };
    let b3 = BookModel { next_order_id: (b.next_order_id + 1) as u64, ..b2 };
    let rep = ReportModel {
        order_id: ord.order_id,
        status: spec_status(OrderType::Limit, m.fills.len() as int, m.qty_left),
        remaining_qty: m.qty_left,
        orig_qty: o.quantity,
        executed_qty: (o.quantity - m.qty_left) as u64,
        price: spec_last_price(m.fills),
        fills: m.fills,
        time_in_force: spec_tif(o.time_in_force),
    };
    (b3, rep)
}

/// An accepted market placement: journal, match, discard any
/// remainder, bump the identifier counter, and report what happened.
pub open spec fn spec_market(b: BookModel, o: MarketOptionsModel) -> (BookModel, ReportModel) {
    let bj = spec_journal_push(b, JournalOp::Market, OptionsModel::Market(o));
    let ord = spec_market_order(bj, o);
    let (b1, m) = spec_book_match_core(bj, ord);
    let b3 = BookModel { next_order_id: (b.next_order_id + 1) as u64, ..b1 };
    let rep = ReportModel {
        order_id: ord.order_id,
        status: spec_status(OrderType::Market, m.fills.len() as int, m.qty_left),
        remaining_qty: m.qty_left,
        orig_qty: o.quantity,
        executed_qty: (o.quantity - m.qty_left) as u64,
        price: spec_last_price(m.fills),
        fills: m.fills,
        time_in_force: TimeInForce::GTC,
    };
    (b3, rep)
}

/// Sum of a fill list's quantities; the caller knows the total fits.
fn sum_fill_qty(fills: &Vec<FillReport>) -> (r: u64)
    requires
        fills_qty(fills_model(fills@)) <= u64::MAX,
    ensures
        r == fills_qty(fills_model(fills@)),
{
    let ghost fm = fills_model(fills@);
    let mut sum: u64 = 0;
    let mut i: usize = 0;
    proof {
        assert(fills_qty(fm.take(0)) == 0) by {
            assert(fm.take(0) =~= Seq::<FillModel>::empty());
        }
    }
    while i < fills.len()
        invariant
            i <= fills.len(),
            fm == fills_model(fills@),
            fills_qty(fm) <= u64::MAX,
            sum == fills_qty(fm.take(i as int)),
        decreases fills.len() - i,
    {
        let q = fills[i].quantity;
        proof {
            let iv = i as int;
            assert(fm[iv] == fills@[iv]@);
            lemma_fills_qty_push(fm.take(iv), fm[iv]);
            assert(fm.take(iv + 1) =~= fm.take(iv).push(fm[iv]));
            lemma_fills_qty_split(fm, iv + 1);
            lemma_fills_qty_nonneg(fm.skip(iv + 1));
            assert(fills_qty(fm.take(iv + 1)) <= fills_qty(fm));
        }
        sum = sum + q;
        i = i + 1;
    }
    proof {
        assert(fm.take(fm.len() as int) =~= fm);
    }
    sum
}

/// The best price left after matching was already a level price of the
/// side matched against.
pub proof fn lemma_match_front_price(
    levels: Seq<LevelModel>,
    qty: u64,
    limit: Option<u64>,
    taker_side: Side,
    tid: u64,
    tacct: Seq<char>,
)
    ensures
        ({
            let m = spec_match(levels, qty, limit, taker_side, tid, tacct);
            m.levels.len() > 0 ==> exists|i: int|
                0 <= i < levels.len() && (#[trigger] levels[i]).price == m.levels[0].price
        }),
    decreases levels.len(), (if levels.len() > 0 { levels[0].orders.len() } else { 0 }),
{
    let m = spec_match(levels, qty, limit, taker_side, tid, tacct);
    if qty == 0 || levels.len() == 0 || levels[0].orders.len() == 0 || !spec_crosses(
        levels[0].price,
        limit,
        taker_side,
    ) {
        if levels.len() > 0 {
            assert(levels[0].price == m.levels[0].price);
        }
    } else {
        let resting = levels[0].orders[0];
        if resting.qty_remaining <= qty {
            let levels1 = if levels[0].orders.len() == 1 {
                levels.drop_first()
            } else {
                levels.update(
                    0,
                    LevelModel { price: levels[0].price, orders: levels[0].orders.drop_first() },
                )
            };
            let traded = resting.qty_remaining;
            lemma_match_front_price(levels1, (qty - traded) as u64, limit, taker_side, tid, tacct);
            if m.levels.len() > 0 {
                let i1 = choose|i: int|
                    0 <= i < levels1.len() && (#[trigger] levels1[i]).price == m.levels[0].price;
                if levels[0].orders.len() == 1 {
                    assert(levels1[i1] == levels[i1 + 1]);
                } else {
                    assert(levels1[i1].price == levels[i1].price);
                }
            }
        } else {
            assert(m.levels[0].price == levels[0].price);
        }
    }
}

/// A side whose every adjacent pair of levels is ordered is ordered
/// throughout.
pub proof fn lemma_adjacent_sorted(levels: Seq<LevelModel>, side: Side)
    requires
        forall|i: int|
            0 <= i < levels.len() - 1 ==> better_price(
                #[trigger] levels[i].price,
                levels[i + 1].price,
                side,
            ),
    ensures
        forall|i: int, j: int|
            0 <= i < j < levels.len() ==> better_price(levels[i].price, levels[j].price, side),
{
    assert forall|i: int, j: int| 0 <= i < j < levels.len() implies better_price(
        levels[i].price,
        levels[j].price,
        side,
    ) by {
        lemma_sorted_reach(levels, side, i, j);
    }
}

/// Reachability step for [`lemma_adjacent_sorted`].
pub proof fn lemma_sorted_reach(levels: Seq<LevelModel>, side: Side, i: int, j: int)
    requires
        forall|k: int|
            0 <= k < levels.len() - 1 ==> better_price(
                #[trigger] levels[k].price,
                levels[k + 1].price,
                side,
            ),
        0 <= i < j < levels.len(),
    ensures
        better_price(levels[i].price, levels[j].price, side),
    decreases j - i,
{
    if j == i + 1 {
        assert(better_price(levels[i].price, levels[i + 1].price, side));
    } else {
        lemma_sorted_reach(levels, side, i, j - 1);
        assert(better_price(levels[j - 1].price, levels[j].price, side));
    }
}

/// Decide whether one side is well formed: every level a non-empty
/// queue of bounded resting limit orders at the level's price and side,
/// and level prices strictly ordered best first.
fn check_side_wf(levels: &Vec<PriceLevel>, side: Side) -> (r: bool)
    ensures
        r == side_wf(side_model(levels@), side),
{
    let ghost lm = side_model(levels@);
    let mut i: usize = 0;
    while i < levels.len()
        invariant
            i <= levels.len(),
            lm == side_model(levels@),
            forall|k: int| 0 <= k < i ==> level_wf(#[trigger] lm[k], side),
            forall|k: int|
                0 <= k < i && k + 1 < lm.len() ==> better_price(
                    #[trigger] lm[k].price,
                    lm[k + 1].price,
                    side,
                ),
        decreases levels.len() - i,
    {
        let lvl = &levels[i];
        let ghost lvm = lm[i as int];
        if lvl.orders.len() == 0 {
            proof {
                assert(!level_wf(lm[i as int], side));
            }
            return false;
        }
        if i + 1 < levels.len() {
            let ok = match side {
                Side::Buy => lvl.price > levels[i + 1].price,
                Side::Sell => lvl.price < levels[i + 1].price,
            };
            if !ok {
                proof {
                    assert(!better_price(lm[i as int].price, lm[i as int + 1].price, side));
                }
                return false;
            }
        }
        let mut j: usize = 0;
        while j < lvl.orders.len()
            invariant
                j <= lvl.orders.len(),
                lvm == lm[i as int],
                i < levels@.len(),
                lm == side_model(levels@),
                lvl == &levels@[i as int],
                lvm.orders.len() == lvl.orders@.len(),
                lvm.orders == orders_model(lvl.orders@),
                lvm.price == lvl.price,
                forall|k: int|
                    0 <= k < j ==> {
                        let o = #[trigger] lvm.orders[k];
                        &&& resting_ok(o)
                        &&& o.price == lvm.price
                        &&& o.side == side
                        &&& o.order_type == OrderType::Limit
                    },
            decreases lvl.orders.len() - j,
        {
            let o = &lvl.orders[j];
            proof {
                assert(lvm.orders[j as int] == lvl.orders@[j as int]@);
            }
            let side_ok = match (o.side, side) {
                (Side::Buy, Side::Buy) => true,
                (Side::Sell, Side::Sell) => true,
                _ => false,
            };
            let ok = o.qty_original >= 1 && o.qty_remaining >= 1 && o.qty_remaining
                <= o.qty_original && o.qty_original <= MAX_QUANTITY && o.price >= 1 && o.price
                <= MAX_PRICE && o.price == lvl.price && side_ok && matches!(
                o.order_type,
                OrderType::Limit,
            );
            if !ok {
                proof {
                    assert(!level_wf(lm[i as int], side));
                }
                return false;
            }
            j = j + 1;
        }
        proof {
            assert(level_wf(lvm, side));
        }
        i = i + 1;
    }
    proof {
        lemma_adjacent_sorted(lm, side);
    }
    true
}

impl Clone for Snapshot {
    fn clone(&self) -> (r: Self)
        ensures
            r@ == self@,
    {
        let r = Snapshot {
            bids: clone_levels(&self.bids),
            asks: clone_levels(&self.asks),
            next_order_id: self.next_order_id,
        };
        proof {
            assert(r@ =~~= self@);
        }
        r
    }
}

impl Snapshot {
    /// Decide whether this snapshot's sides are structurally sound, so
    /// that installing it yields a well-formed book.
    pub fn is_well_formed(&self) -> (r: bool)
        ensures
            r == snapshot_wf(self@),
    {
        let b = check_side_wf(&self.bids, Side::Buy);
        let a = check_side_wf(&self.asks, Side::Sell);
        b && a
    }
}

/// Apply one recorded operation to a book: placements run through the
/// normal limit and market paths (a refused placement leaves the book
/// unchanged), a cancel removes by identifier, and a modify cancels and
/// re-places with the updated price or quantity.
pub open spec fn spec_apply_log(b: BookModel, options: OptionsModel) -> BookModel {
    match options {
        OptionsModel::Limit(o) => if limit_ok(b, o) {
            spec_limit(b, o).0
        } else {
            b
        },
        OptionsModel::Market(o) => if market_ok(b, o) {
            spec_market(b, o).0
        } else {
            b
        },
        OptionsModel::Cancel(id) => match spec_book_remove(b, id, None) {
            Some((b1, _)) => b1,
            None => b,
        },
        OptionsModel::Modify { id, price, quantity } => match spec_book_remove(b, id, None) {
            Some((b1, rm)) => {
                let o = LimitOptionsModel {
                    side: rm.side,
                    price: spec_unwrap_u64(price, rm.price),
                    quantity: spec_unwrap_u64(quantity, rm.qty_remaining),
                    account_id: rm.account_id,
                    time_in_force: None,
                    post_only: None,
                };
                if limit_ok(b1, o) {
                    spec_limit(b1, o).0
                } else {
                    b1
                }
            },
            None => b,
        },
    }
}

/// An optional value or its default.
pub open spec fn spec_unwrap_u64(v: Option<u64>, d: u64) -> u64 {
    match v {
        Some(x) => x,
        None => d,
    }
}

/// Replaying a journal folds [`spec_apply_log`] over its entries in
/// the order given.
pub open spec fn spec_replay_logs(b: BookModel, logs: Seq<JournalModel>) -> BookModel
    decreases logs.len(),
{
    if logs.len() == 0 {
        b
    } else {
        spec_replay_logs(spec_apply_log(b, logs[0].options), logs.drop_first())
    }
}

/// A price-time-priority order book for one outcome.
#[derive(Debug)]
pub struct OrderBook {
    /// Bid levels, highest price first.
    pub bids: Vec<PriceLevel>,
    /// Ask levels, lowest price first.
    pub asks: Vec<PriceLevel>,
    /// Prices of past trades, oldest first.
    pub last_trade_prices: Vec<u64>,
    /// The outcome identifier this book trades.
    pub ticker: String,
    /// A human-readable outcome name.
    pub name: String,
    /// Cumulative traded quantity, saturating at `u64::MAX`.
    pub total_volume: u64,
    /// Cumulative traded notional (price times quantity), saturating.
    pub total_notional: u64,
    /// The next order identifier this book will assign.
    pub next_order_id: u64,
    /// Whether operations are recorded in the journal.
    pub journaling: bool,
    /// The recorded operations, oldest first.
    pub journal: Vec<JournalLog>,
}

/// The mathematical content of an [`OrderBook`].
#[verifier::ext_equal]
pub ghost struct BookModel {
    pub bids: Seq<LevelModel>,
    pub asks: Seq<LevelModel>,
    pub last_trade_prices: Seq<u64>,
    pub ticker: Seq<char>,
    pub name: Seq<char>,
    pub total_volume: u64,
    pub total_notional: u64,
    pub next_order_id: u64,
    pub journaling: bool,
    pub journal: Seq<JournalModel>,
}

impl View for OrderBook {
    type V = BookModel;

    open spec fn view(&self) -> BookModel {
        BookModel {
            bids: side_model(self.bids@),
            asks: side_model(self.asks@),
            last_trade_prices: self.last_trade_prices@,
            ticker: self.ticker@,
            name: self.name@,
            total_volume: self.total_volume,
            total_notional: self.total_notional,
            next_order_id: self.next_order_id,
            journaling: self.journaling,
            journal: journal_model(self.journal@),
        }
    }
}

/// Both sides well formed, and order identifiers not yet handed out
/// never rest in the book.
pub open spec fn book_wf(b: BookModel) -> bool {
    &&& side_wf(b.bids, Side::Buy)
    &&& side_wf(b.asks, Side::Sell)
}

/// Matching an incoming order against a whole book: the book after,
/// and the raw match outcome (fills and unmatched quantity).
pub open spec fn spec_book_match_core(b: BookModel, o: OrderModel) -> (BookModel, MatchModel) {
    let limit = if o.order_type == OrderType::Limit {
        Some(o.price)
    } else {
        None
    };
    let opposing = if o.side == Side::Buy {
        b.asks
    } else {
        b.bids
    };
    let m = spec_match(opposing, o.qty_remaining, limit, o.side, o.order_id, o.account_id);
    let b1 = BookModel {
        bids: if o.side == Side::Buy {
            b.bids
        } else {
            m.levels
        },
        asks: if o.side == Side::Buy {
            m.levels
        } else {
            b.asks
        },
        last_trade_prices: b.last_trade_prices + fill_prices(m.fills),
        total_volume: spec_volume_after(b.total_volume, m.fills),
        total_notional: spec_notional_after(b.total_notional, m.fills),
        ..b
    };
    (b1, m)
}

/// Matching an incoming order against a whole book: the book after,
/// the fills, and the resting remainder (a limit order with quantity
/// left over; market remainders are discarded, never rested).
pub open spec fn spec_book_match(b: BookModel, o: OrderModel) -> (BookModel, Seq<FillModel>, Option<
    OrderModel,
>) {
    let (b1, m) = spec_book_match_core(b, o);
    let resting = if o.order_type == OrderType::Limit && m.qty_left > 0 {
        Some(OrderModel { qty_remaining: m.qty_left, ..o })
    } else {
        None
    };
    (b1, m.fills, resting)
}

/// Removing an order from a book: bids are searched before asks.
pub open spec fn spec_book_remove(b: BookModel, oid: u64, aid: Option<Seq<char>>) -> Option<(
    BookModel,
    OrderModel,
)> {
    match spec_remove_from_side(b.bids, oid, aid) {
        Some((ls, rm)) => Some((BookModel { bids: ls, ..b }, rm)),
        None => match spec_remove_from_side(b.asks, oid, aid) {
            Some((ls, rm)) => Some((BookModel { asks: ls, ..b }, rm)),
            None => None,
        },
    }
}

/// The view of an optional order.
pub open spec fn opt_order_model(o: Option<Order>) -> Option<OrderModel> {
    match o {
        Some(x) => Some(x@),
        None => None,
    }
}

/// The model of a freshly created book: empty sides, no history, zero
/// totals, identifiers assigned from 1, journaling off.
pub open spec fn spec_empty_book(name: Seq<char>, ticker: Seq<char>) -> BookModel {
    BookModel {
        bids: Seq::empty(),
        asks: Seq::empty(),
        last_trade_prices: Seq::empty(),
        ticker: ticker,
        name: name,
        total_volume: 0,
        total_notional: 0,
        next_order_id: 1,
        journaling: false,
        journal: Seq::empty(),
    }
}

impl OrderBook {
    /// Both sides of the book are well formed.
    pub open spec fn wf(&self) -> bool {
        book_wf(self@)
    }

    /// An empty book for one outcome, assigning order identifiers from 1.
    pub fn new(name: &str, ticker: &str) -> (r: OrderBook)
        ensures
            r.wf(),
            r@ == spec_empty_book(name@, ticker@),
    {
        let r = OrderBook {
            bids: Vec::new(),
            asks: Vec::new(),
            last_trade_prices: Vec::new(),
            ticker: ticker.to_owned(),
            name: name.to_owned(),
            total_volume: 0,
            total_notional: 0,
            next_order_id: 1,
            journaling: false,
            journal: Vec::new(),
        };
        proof {
            assert(r@.bids =~= Seq::<LevelModel>::empty());
            assert(r@.asks =~= Seq::<LevelModel>::empty());
            assert(r@.journal =~= Seq::<JournalModel>::empty());
            assert(r@ =~~= spec_empty_book(name@, ticker@));
        }
        r
    }

    /// Apply one recorded operation, per [`spec_apply_log`]. A refused
    /// placement or a cancel of an unknown order leaves the book as it
    /// is.
    pub fn apply_log(&mut self, options: OrderOptions)
        requires
            old(self).wf(),
        ensures
            final(self).wf(),
            final(self)@ == spec_apply_log(old(self)@, options@),
    {
        match options {
            OrderOptions::Limit(o) => {
                let _r = self.limit(o);
            },
            OrderOptions::Market(o) => {
                let _r = self.market(o);
            },
            OrderOptions::Cancel(id) => {
                let _r = self.remove_matching(id, None);
            },
            OrderOptions::Modify { id, price, quantity } => {
                match self.remove_matching(id, None) {
                    Some(rm) => {
                        let o = LimitOrderOptions {
                            side: rm.side,
                            price: match price {
                                Some(p) => p,
                                None => rm.price,
                            },
                            quantity: match quantity {
                                Some(qv) => qv,
                                None => rm.qty_remaining,
                            },
                            account_id: rm.account_id,
                            time_in_force: None,
                            post_only: None,
                        };
                        let _r = self.limit(o);
                    },
                    None => {},
                }
            },
        }
    }

    /// Replay recorded operations in the order given, per
    /// [`spec_replay_logs`].
    pub fn replay_logs(&mut self, logs: Vec<JournalLog>)
        requires
            old(self).wf(),
        ensures
            final(self).wf(),
            final(self)@ == spec_replay_logs(old(self)@, journal_model(logs@)),
    {
        let ghost jm = journal_model(logs@);
        let ghost b0 = self@;
        proof {
            assert(jm.skip(0) =~= jm);
        }
        let mut i: usize = 0;
        while i < logs.len()
            invariant
                i <= logs.len(),
                jm == journal_model(logs@),
                self.wf(),
                spec_replay_logs(b0, jm) == spec_replay_logs(self@, jm.skip(i as int)),
            decreases logs.len() - i,
        {
            let ghost pre = self@;
            let log = logs[i].clone();
            proof {
                assert(log@ == jm[i as int]);
            }
            self.apply_log(log.options);
            proof {
                let iv = i as int;
                assert(jm.skip(iv)[0] == jm[iv]);
                assert(jm.skip(iv).drop_first() =~= jm.skip(iv + 1));
                assert(spec_replay_logs(pre, jm.skip(iv)) == spec_replay_logs(
                    spec_apply_log(pre, jm[iv].options),
                    jm.skip(iv + 1),
                ));
            }
            i = i + 1;
        }
        proof {
            assert(jm.skip(jm.len() as int) =~= Seq::<JournalModel>::empty());
        }
    }

    /// The best (highest) bid price, if any bids rest.
    pub fn best_bid(&self) -> (r: Option<u64>)
        ensures
            r == (if self@.bids.len() > 0 {
                Some(self@.bids[0].price)
            } else {
                None::<u64>
            }),
    {
        if self.bids.len() > 0 {
            Some(self.bids[0].price)
        } else {
            None
        }
    }

    /// The best (lowest) ask price, if any asks rest.
    pub fn best_ask(&self) -> (r: Option<u64>)
        ensures
            r == (if self@.asks.len() > 0 {
                Some(self@.asks[0].price)
            } else {
                None::<u64>
            }),
    {
        if self.asks.len() > 0 {
            Some(self.asks[0].price)
        } else {
            None
        }
    }

    /// Rest a validated limit order in the book on its own side, per
    /// [`spec_add_order`]: queued behind earlier orders at its price,
    /// with level prices kept strictly ordered best first.
    pub fn add_order(&mut self, order: Order)
        requires
            old(self).wf(),
            resting_ok(order@),
            order.order_type == OrderType::Limit,
        ensures
            final(self).wf(),
            final(self)@ == (BookModel {
                bids: if order.side == Side::Buy {
                    spec_add_order(old(self)@.bids, order@)
                } else {
                    old(self)@.bids
                },
                asks: if order.side == Side::Sell {
                    spec_add_order(old(self)@.asks, order@)
                } else {
                    old(self)@.asks
                },
                ..old(self)@
            }),
    {
        let ghost b0 = self@;
        let ghost om = order@;
        let ghost s = order.side;
        match order.side {
            Side::Buy => add_to_side(&mut self.bids, order),
            Side::Sell => add_to_side(&mut self.asks, order),
        }
        proof {
            if s == Side::Buy {
                assert(self@ =~~= BookModel { bids: spec_add_order(b0.bids, om), ..b0 });
            } else {
                assert(self@ =~~= BookModel { asks: spec_add_order(b0.asks, om), ..b0 });
            }
        }
    }

    /// The top `max_levels` of each side as (price, aggregate quantity)
    /// pairs, best price first; level quantities saturate at `u64::MAX`.
    pub fn depth_levels(&self, max_levels: usize) -> (r: (Vec<(u64, u64)>, Vec<(u64, u64)>))
        ensures
            r.0@ == spec_depth(self@.bids, max_levels as int),
            r.1@ == spec_depth(self@.asks, max_levels as int),
    {
        (depth_of_side(&self.bids, max_levels), depth_of_side(&self.asks, max_levels))
    }

    /// The outcome's representative price: the bid/ask midpoint when both
    /// sides rest, else the single resting side's best price, else the
    /// last trade price, else none.
    pub fn representative_price(&self) -> (r: Option<u64>)
        requires
            self.wf(),
        ensures
            r == spec_representative_price(self@),
    {
        if self.bids.len() > 0 && self.asks.len() > 0 {
            let b = self.bids[0].price;
            let a = self.asks[0].price;
            proof {
                assert(level_wf(self@.bids[0], Side::Buy));
                assert(self@.bids[0].orders[0].price == b);
                assert(level_wf(self@.asks[0], Side::Sell));
                assert(self@.asks[0].orders[0].price == a);
            }
            Some((b + a) / 2)
        } else if self.bids.len() > 0 {
            Some(self.bids[0].price)
        } else if self.asks.len() > 0 {
            Some(self.asks[0].price)
        } else if self.last_trade_prices.len() > 0 {
            Some(self.last_trade_prices[self.last_trade_prices.len() - 1])
        } else {
            None
        }
    }

    /// A structural snapshot: both sides and the identifier counter,
    /// enough to rebuild the book's depth exactly (trade history and
    /// totals are not captured).
    pub fn snapshot(&self) -> (s: Snapshot)
        ensures
            s@.bids == self@.bids,
            s@.asks == self@.asks,
            s@.next_order_id == self@.next_order_id,
    {
        Snapshot {
            bids: clone_levels(&self.bids),
            asks: clone_levels(&self.asks),
            next_order_id: self.next_order_id,
        }
    }

    /// Install a snapshot: the book's sides and identifier counter are
    /// replaced by the captured ones, bit for bit; history and totals
    /// are left as they are.
    pub fn restore_snapshot(&mut self, s: Snapshot)
        ensures
            final(self)@ == (BookModel {
                bids: s@.bids,
                asks: s@.asks,
                next_order_id: s@.next_order_id,
                ..old(self)@
            }),
    {
        self.bids = s.bids;
        self.asks = s.asks;
        self.next_order_id = s.next_order_id;
        proof {
            assert(self@ =~~= BookModel {
                bids: s@.bids,
                asks: s@.asks,
                next_order_id: s@.next_order_id,
                ..old(self)@
            });
        }
    }

    /// Place a limit order: validate, record in the journal, assign the
    /// next identifier, match against the opposing side, and rest any
    /// remainder, per [`spec_limit`]. Succeeds exactly on placements
    /// [`limit_ok`] accepts.
    pub fn limit(&mut self, opts: LimitOrderOptions) -> (r: Result<ExecutionReport, OrderBookError>)
        requires
            old(self).wf(),
        ensures
            final(self).wf(),
            r is Ok <==> limit_ok(old(self)@, opts@),
            r is Err ==> final(self)@ == old(self)@ && r->Err_0 == spec_limit_error(
                old(self)@,
                opts@,
            ),
            r is Ok ==> ({
                let (b3, rep) = spec_limit(old(self)@, opts@);
                &&& final(self)@ == b3
                &&& r->Ok_0@ == rep
            }),
    {
        let ghost b0 = self@;
        let ghost om = opts@;
        if opts.quantity == 0 || opts.quantity > MAX_QUANTITY {
            return Err(OrderBookError::InvalidQuantity);
        }
        if opts.price == 0 || opts.price > MAX_PRICE {
            return Err(OrderBookError::InvalidPrice);
        }
        if opts.account_id.as_str().is_empty() {
            return Err(OrderBookError::EmptyAccount);
        }
        if self.next_order_id == u64::MAX {
            return Err(OrderBookError::IdsExhausted);
        }
        let q = opts.quantity;
        let p = opts.price;
        let taker_side = opts.side;
        let tif = match opts.time_in_force {
            Some(t) => t,
            None => TimeInForce::GTC,
        };
        if self.journaling {
            let op_id = self.journal.len() as u64;
            self.journal.push(
                JournalLog { op_id, op: JournalOp::Limit, options: OrderOptions::Limit(opts.clone()) },
            );
        }
        let ghost bj = spec_journal_push(b0, JournalOp::Limit, OptionsModel::Limit(om));
        proof {
            assert(self@ =~~= bj);
        }
        let oid = self.next_order_id;
        let order = Order {
            order_id: oid,
            market_id: 0,
            outcome_id: self.ticker.clone(),
            account_id: opts.account_id,
            side: taker_side,
            order_type: OrderType::Limit,
            price: p,
            qty_remaining: q,
            qty_original: q,
        };
        let ghost ord = order@;
        proof {
            assert(ord == spec_limit_order(bj, om));
            let limit = Some(ord.price);
            let opposing = if ord.side == Side::Buy {
                bj.asks
            } else {
                bj.bids
            };
            lemma_spec_match_properties(
                opposing,
                ord.qty_remaining,
                limit,
                ord.side,
                ord.order_id,
                ord.account_id,
            );
        }
        let ghost m = spec_book_match_core(bj, ord).1;
        let (fills, rst) = self.match_order(order);
        let remaining = match &rst {
            Some(rem) => rem.qty_remaining,
            None => 0,
        };
        proof {
            assert(remaining == m.qty_left);
        }
        match rst {
            Some(rem) => {
                self.add_order(rem);
            },
            None => {},
        }
        self.next_order_id = oid + 1;
        let executed = q - remaining;
        let price = if fills.len() > 0 {
            fills[fills.len() - 1].price
        } else {
            0
        };
        proof {
            let fm = fills_model(fills@);
            if fm.len() > 0 {
                assert(fm.last() == fills@[fills@.len() - 1]@);
            }
            assert(price == spec_last_price(m.fills));
        }
        let status = if fills.len() == 0 {
            OrderStatus::New
        } else if remaining > 0 {
            OrderStatus::PartiallyFilled
        } else {
            OrderStatus::Filled
        };
        let report = ExecutionReport {
            order_id: oid,
            status,
            remaining_qty: remaining,
            orig_qty: q,
            executed_qty: executed,
            price,
            fills,
            time_in_force: tif,
        };
        proof {
            let (b3, rep) = spec_limit(b0, om);
            assert(self@ =~~= b3);
            assert(report@ =~~= rep);
        }
        Ok(report)
    }

    /// Place a market order: validate, record in the journal, assign
    /// the next identifier, and trade against whatever opposing
    /// liquidity crosses, per [`spec_market`]. Any remainder is
    /// discarded: a market order never rests. Succeeds exactly on
    /// placements [`market_ok`] accepts.
    pub fn market(&mut self, opts: MarketOrderOptions) -> (r: Result<
        ExecutionReport,
        OrderBookError,
    >)
        requires
            old(self).wf(),
        ensures
            final(self).wf(),
            r is Ok <==> market_ok(old(self)@, opts@),
            r is Err ==> final(self)@ == old(self)@ && r->Err_0 == spec_market_error(
                old(self)@,
                opts@,
            ),
            r is Ok ==> ({
                let (b3, rep) = spec_market(old(self)@, opts@);
                &&& final(self)@ == b3
                &&& r->Ok_0@ == rep
            }),
    {
        let ghost b0 = self@;
        let ghost om = opts@;
        if opts.quantity == 0 || opts.quantity > MAX_QUANTITY {
            return Err(OrderBookError::InvalidQuantity);
        }
        if opts.account_id.as_str().is_empty() {
            return Err(OrderBookError::EmptyAccount);
        }
        if self.next_order_id == u64::MAX {
            return Err(OrderBookError::IdsExhausted);
        }
        let q = opts.quantity;
        let taker_side = opts.side;
        if self.journaling {
            let op_id = self.journal.len() as u64;
            self.journal.push(
                JournalLog {
                    op_id,
                    op: JournalOp::Market,
                    options: OrderOptions::Market(opts.clone()),
                },
            );
        }
        let ghost bj = spec_journal_push(b0, JournalOp::Market, OptionsModel::Market(om));
        proof {
            assert(self@ =~~= bj);
        }
        let oid = self.next_order_id;
        let order = Order {
            order_id: oid,
            market_id: 0,
            outcome_id: self.ticker.clone(),
            account_id: opts.account_id,
            side: taker_side,
            order_type: OrderType::Market,
            price: 0,
            qty_remaining: q,
            qty_original: q,
        };
        let ghost ord = order@;
        proof {
            assert(ord == spec_market_order(bj, om));
            let opposing = if ord.side == Side::Buy {
                bj.asks
            } else {
                bj.bids
            };
            lemma_spec_match_properties(
                opposing,
                ord.qty_remaining,
                None,
                ord.side,
                ord.order_id,
                ord.account_id,
            );
        }
        let ghost m = spec_book_match_core(bj, ord).1;
        let (fills, rst) = self.match_order(order);
        proof {
            assert(rst is None);
            assert(fills_qty(fills_model(fills@)) + m.qty_left == q);
            lemma_fills_qty_nonneg(fills_model(fills@));
        }
        let executed = sum_fill_qty(&fills);
        let remaining = q - executed;
        proof {
            assert(remaining == m.qty_left);
        }
        self.next_order_id = oid + 1;
        let price = if fills.len() > 0 {
            fills[fills.len() - 1].price
        } else {
            0
        };
        proof {
            let fm = fills_model(fills@);
            if fm.len() > 0 {
                assert(fm.last() == fills@[fills@.len() - 1]@);
            }
            assert(price == spec_last_price(m.fills));
        }
        let status = if fills.len() == 0 {
            OrderStatus::Canceled
        } else if remaining > 0 {
            OrderStatus::PartiallyFilled
        } else {
            OrderStatus::Filled
        };
        let report = ExecutionReport {
            order_id: oid,
            status,
            remaining_qty: remaining,
            orig_qty: q,
            executed_qty: executed,
            price,
            fills,
            time_in_force: TimeInForce::GTC,
        };
        proof {
            let (b3, rep) = spec_market(b0, om);
            assert(self@ =~~= b3);
            assert(report@ =~~= rep);
        }
        Ok(report)
    }

    /// Remove the first order matching an identifier (and account, when
    /// one is given), searching bids best first, then asks. Returns the
    /// removed order; `None` when no order matches, which is a benign
    /// no-op.
    pub fn remove_matching(&mut self, order_id: u64, account_id: Option<&String>) -> (r: Option<
        Order,
    >)
        requires
            old(self).wf(),
        ensures
            final(self).wf(),
            match spec_book_remove(old(self)@, order_id, opt_aid_model(account_id)) {
                Some((b1, rm)) => r is Some && r->Some_0@ == rm && final(self)@ == b1,
                None => r is None && final(self)@ == old(self)@,
            },
    {
        let ghost b0 = self@;
        let rb = remove_from_side(&mut self.bids, order_id, account_id, Ghost(Side::Buy));
        match rb {
            Some(o) => {
                proof {
                    let (b1, rm) = spec_book_remove(b0, order_id, opt_aid_model(account_id))
                        ->Some_0;
                    assert(self@ =~~= b1);
                }
                Some(o)
            },
            None => {
                let ra = remove_from_side(&mut self.asks, order_id, account_id, Ghost(Side::Sell));
                proof {
                    match spec_book_remove(b0, order_id, opt_aid_model(account_id)) {
                        Some((b1, rm)) => {
                            assert(self@ =~~= b1);
                        },
                        None => {
                            assert(self@ =~~= b0);
                        },
                    }
                }
                ra
            },
        }
    }

    /// Match an incoming order against the opposing side, per
    /// [`spec_book_match`]: fills at the makers' prices, trade-price
    /// history and saturating totals updated, and the unmatched
    /// remainder of a limit order returned (not yet rested).
    pub fn match_order(&mut self, incoming: Order) -> (r: (Vec<FillReport>, Option<Order>))
        requires
            old(self).wf(),
            resting_ok(incoming@) || incoming.order_type == OrderType::Market,
            incoming.qty_remaining >= 1,
            incoming.qty_remaining <= incoming.qty_original,
        ensures
            final(self).wf(),
            ({
                let (b1, fs, rst) = spec_book_match(old(self)@, incoming@);
                &&& final(self)@ == b1
                &&& fills_model(r.0@) == fs
                &&& opt_order_model(r.1) == rst
            }),
    {
        let ghost b0 = self@;
        let ghost om = incoming@;
        let limit = if matches!(incoming.order_type, OrderType::Limit) {
            Some(incoming.price)
        } else {
            None
        };
        let ghost opposing = if om.side == Side::Buy {
            b0.asks
        } else {
            b0.bids
        };
        proof {
            lemma_spec_match_properties(
                opposing,
                incoming.qty_remaining,
                if om.order_type == OrderType::Limit {
                    Some(om.price)
                } else {
                    None
                },
                om.side,
                om.order_id,
                om.account_id,
            );
        }
        let (fills, qty_left) = match incoming.side {
            Side::Buy => match_against_side(
                &mut self.asks,
                incoming.qty_remaining,
                limit,
                Side::Buy,
                incoming.order_id,
                &incoming.account_id,
            ),
            Side::Sell => match_against_side(
                &mut self.bids,
                incoming.qty_remaining,
                limit,
                Side::Sell,
                incoming.order_id,
                &incoming.account_id,
            ),
        };
        let ghost m = spec_match(opposing, om.qty_remaining, if om.order_type
            == OrderType::Limit {
            Some(om.price)
        } else {
            None
        }, om.side, om.order_id, om.account_id);
        let ghost fm = fills_model(fills@);
        let ghost tv0 = self.total_volume;
        let ghost nt0 = self.total_notional;
        let ghost ltp0 = self.last_trade_prices@;
        let ghost bids_mid = self.bids@;
        let ghost asks_mid = self.asks@;
        proof {
            assert(fm == m.fills);
            assert(fm.skip(0) =~= fm);
            assert(fill_prices(fm.take(0)) =~= Seq::<u64>::empty());
            assert(ltp0 + fill_prices(fm.take(0)) =~= ltp0);
        }
        let mut i: usize = 0;
        while i < fills.len()
            invariant
                i <= fills.len(),
                fills_model(fills@) == fm,
                fm == m.fills,
                forall|k: int|
                    0 <= k < fm.len() ==> 1 <= (#[trigger] fm[k]).quantity <= MAX_QUANTITY && 1
                        <= fm[k].price <= MAX_PRICE,
                spec_volume_after(tv0, fm) == spec_volume_after(
                    self.total_volume,
                    fm.skip(i as int),
                ),
                spec_notional_after(nt0, fm) == spec_notional_after(
                    self.total_notional,
                    fm.skip(i as int),
                ),
                self.last_trade_prices@ == ltp0 + fill_prices(fm.take(i as int)),
                self.bids@ == bids_mid,
                self.asks@ == asks_mid,
                self.ticker@ == b0.ticker,
                self.name@ == b0.name,
                self.next_order_id == b0.next_order_id,
                self.journaling == b0.journaling,
                journal_model(self.journal@) == b0.journal,
            decreases fills.len() - i,
        {
            let ghost pre_tv = self.total_volume;
            let ghost pre_nt = self.total_notional;
            let f_price = fills[i].price;
            let f_qty = fills[i].quantity;
            proof {
                assert(fm[i as int] == fills@[i as int]@);
                assert(f_price * f_qty <= MAX_PRICE * MAX_QUANTITY) by (nonlinear_arith)
                    requires
                        1 <= f_price <= MAX_PRICE,
                        1 <= f_qty <= MAX_QUANTITY,
                ;
            }
            let notional = f_price * f_qty;
            self.total_volume = self.total_volume.saturating_add(f_qty);
            self.total_notional = self.total_notional.saturating_add(notional);
            self.last_trade_prices.push(f_price);
            proof {
                let iv = i as int;
                assert(fm.skip(iv)[0] == fm[iv]);
                assert(fm.skip(iv).drop_first() =~= fm.skip(iv + 1));
                assert(fill_notional(fm[iv]) == notional);
                assert(spec_volume_after(pre_tv, fm.skip(iv)) == spec_volume_after(
                    sat_add_spec(pre_tv, fm[iv].quantity),
                    fm.skip(iv).drop_first(),
                ));
                assert(spec_notional_after(pre_nt, fm.skip(iv)) == spec_notional_after(
                    sat_add_spec(pre_nt, fill_notional(fm[iv])),
                    fm.skip(iv).drop_first(),
                ));
                assert(fill_prices(fm.take(iv + 1)) =~= fill_prices(fm.take(iv)).push(
                    fm[iv].price,
                ));
                assert(ltp0 + fill_prices(fm.take(iv + 1)) =~= (ltp0 + fill_prices(fm.take(iv))).push(
                    fm[iv].price,
                ));
            }
            i = i + 1;
        }
        proof {
            assert(fm.skip(fm.len() as int) =~= Seq::<FillModel>::empty());
            assert(fm.take(fm.len() as int) =~= fm);
            assert(self.total_volume == spec_volume_after(tv0, fm));
            assert(self.total_notional == spec_notional_after(nt0, fm));
        }
        let resting: Option<Order> = if matches!(incoming.order_type, OrderType::Limit) && qty_left
            > 0 {
            let mut rem = incoming;
            rem.qty_remaining = qty_left;
            Some(rem)
        } else {
            None
        };
        proof {
            let (b1, fs, rst) = spec_book_match(b0, om);
            assert(self@ =~~= b1);
            assert(opt_order_model(resting) == rst);
        }
        (fills, resting)
    }
}

} // verus!
