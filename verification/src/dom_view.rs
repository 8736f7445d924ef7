//! Depth rows at a tick scale, and the window over them.

use crate::event::Price;
use crate::num::{floor_div, greatest, least};
use crate::render::{DomPriceRow, DomRenderState};
use core::ops::Range;
use vstd::prelude::*;

verus! {

/// Interaction state of one depth ladder.
#[derive(Clone, Copy, Debug, PartialEq, Eq, Structural)]
pub struct DomView {
    /// None follows the inside market; a price pins the center.
    pub anchor: Option<Price>,
    /// Instrument ticks per rendered row: 1, 2 or 4.
    pub tick_scale: u8,
}

/// One rendered row. All quantities are sums over its instrument-tick rows.
#[derive(Clone, Copy, Debug, PartialEq, Eq, Structural)]
pub struct DomViewRow {
    /// Lower boundary of the row's bucket.
    pub price: Price,
    /// Whether an engine row contributed to the bucket.
    pub source_present: bool,
    pub bid_size: u64,
    pub ask_size: u64,
    pub bid_orders: u32,
    pub ask_orders: u32,
    pub session_volume: u64,
    pub cb: u64,
    pub ca: u64,
    pub bid_added_5s: u32,
    pub bid_cancelled_5s: u32,
    pub ask_added_5s: u32,
    pub ask_cancelled_5s: u32,
    pub refresh_bid_count: u32,
    pub refresh_ask_count: u32,
    pub refresh_bid_hidden: u64,
    pub refresh_ask_hidden: u64,
}

/// Depth after aggregation to a tick scale.
#[derive(Debug, PartialEq, Eq)]
pub struct AggregatedDom {
    /// Instrument tick.
    pub tick_size: Price,
    /// Tick of a rendered row: the instrument tick times the scale.
    pub scaled_tick_size: Price,
    /// Bucket of the best bid.
    pub best_bid: Option<Price>,
    /// Bucket of the best ask.
    pub best_ask: Option<Price>,
    /// Bucket of the last trade.
    pub last_trade: Option<Price>,
    /// Rows in ascending bucket order.
    pub rows: Vec<DomViewRow>,
}

/// The quantities of a row.
pub enum Quantity {
    BidSize,
    AskSize,
    BidOrders,
    AskOrders,
    SessionVolume,
    Cb,
    Ca,
    BidAdded,
    BidCancelled,
    AskAdded,
    AskCancelled,
    RefreshBidCount,
    RefreshAskCount,
    RefreshBidHidden,
    RefreshAskHidden,
}

/// A quantity of an engine row.
pub open spec fn source_amount(row: DomPriceRow, q: Quantity) -> int {
    match q {
        Quantity::BidSize => row.bid_size as int,
        Quantity::AskSize => row.ask_size as int,
        Quantity::BidOrders => row.bid_orders as int,
        Quantity::AskOrders => row.ask_orders as int,
        Quantity::SessionVolume => row.session_volume as int,
        Quantity::Cb => row.cb as int,
        Quantity::Ca => row.ca as int,
        Quantity::BidAdded => row.bid_added_5s as int,
        Quantity::BidCancelled => row.bid_cancelled_5s as int,
        Quantity::AskAdded => row.ask_added_5s as int,
        Quantity::AskCancelled => row.ask_cancelled_5s as int,
        Quantity::RefreshBidCount => row.refresh_agg.bid_count as int,
        Quantity::RefreshAskCount => row.refresh_agg.ask_count as int,
        Quantity::RefreshBidHidden => row.refresh_agg.bid_hidden as int,
        Quantity::RefreshAskHidden => row.refresh_agg.ask_hidden as int,
    }
}

/// A quantity of a rendered row.
pub open spec fn amount(row: DomViewRow, q: Quantity) -> int {
    match q {
        Quantity::BidSize => row.bid_size as int,
        Quantity::AskSize => row.ask_size as int,
        Quantity::BidOrders => row.bid_orders as int,
        Quantity::AskOrders => row.ask_orders as int,
        Quantity::SessionVolume => row.session_volume as int,
        Quantity::Cb => row.cb as int,
        Quantity::Ca => row.ca as int,
        Quantity::BidAdded => row.bid_added_5s as int,
        Quantity::BidCancelled => row.bid_cancelled_5s as int,
        Quantity::AskAdded => row.ask_added_5s as int,
        Quantity::AskCancelled => row.ask_cancelled_5s as int,
        Quantity::RefreshBidCount => row.refresh_bid_count as int,
        Quantity::RefreshAskCount => row.refresh_ask_count as int,
        Quantity::RefreshBidHidden => row.refresh_bid_hidden as int,
        Quantity::RefreshAskHidden => row.refresh_ask_hidden as int,
    }
}

/// The largest amount that a rendered row can hold.
pub open spec fn most(q: Quantity) -> int {
    match q {
        Quantity::BidSize
        | Quantity::AskSize
        | Quantity::SessionVolume
        | Quantity::Cb
        | Quantity::Ca
        | Quantity::RefreshBidHidden
        | Quantity::RefreshAskHidden => u64::MAX as int,
        _ => u32::MAX as int,
    }
}

/// The lower boundary of the bucket that holds a price.
pub open spec fn bucket(price: Price, scaled_tick: Price) -> int {
    price.0 as int / scaled_tick.0 as int * scaled_tick.0
}

/// Whether the bucket's boundary is a price.
pub open spec fn bucket_fits(price: Price, scaled_tick: Price) -> bool {
    bucket(price, scaled_tick) >= i64::MIN
}

/// What the engine rows of a bucket hold of a quantity.
pub open spec fn bucket_total(
    source: Seq<DomPriceRow>,
    scaled_tick: Price,
    price: int,
    q: Quantity,
) -> int
    decreases source.len(),
{
    if source.len() == 0 {
        0
    } else {
        bucket_total(source.drop_last(), scaled_tick, price, q) + if bucket(
            source.last().price,
            scaled_tick,
        ) == price {
            source_amount(source.last(), q)
        } else {
            0
        }
    }
}

/// Whether an engine row lies in the bucket.
pub open spec fn occupied(source: Seq<DomPriceRow>, scaled_tick: Price, price: int) -> bool {
    exists|i: int|
        0 <= i < source.len() && bucket((#[trigger] source[i]).price, scaled_tick) == price
}

/// Whether a rendered row is the sum of the engine rows in its bucket.
pub open spec fn sums_up(row: DomViewRow, source: Seq<DomPriceRow>, scaled_tick: Price) -> bool {
    &&& row.source_present
    &&& occupied(source, scaled_tick, row.price.0 as int)
    &&& forall|q: Quantity| #[trigger]
        amount(row, q) == bucket_total(source, scaled_tick, row.price.0 as int, q)
}

/// Whether prices strictly ascend.
pub open spec fn ascending(rows: Seq<DomViewRow>) -> bool {
    forall|i: int, j: int| 0 <= i < j < rows.len() ==> (#[trigger] rows[i]).price.0 < (
    #[trigger] rows[j]).price.0
}

/// Whether the rendered rows are the buckets of the engine rows: one for each bucket that has
/// any, in ascending order, each the sum of its engine rows.
pub open spec fn buckets_of(
    rows: Seq<DomViewRow>,
    source: Seq<DomPriceRow>,
    scaled_tick: Price,
) -> bool {
    &&& ascending(rows)
    &&& forall|i: int| 0 <= i < rows.len() ==> sums_up(#[trigger] rows[i], source, scaled_tick)
    &&& forall|i: int|
        0 <= i < source.len() ==> has_price(rows, bucket((#[trigger] source[i]).price, scaled_tick))
}

/// Whether a row has the price.
pub open spec fn has_price(rows: Seq<DomViewRow>, price: int) -> bool {
    exists|k: int| 0 <= k < rows.len() && (#[trigger] rows[k]).price.0 == price
}

/// A row that nothing contributed to.
pub open spec fn empty_row(price: Price) -> DomViewRow {
    DomViewRow {
        price,
        source_present: false,
        bid_size: 0,
        ask_size: 0,
        bid_orders: 0,
        ask_orders: 0,
        session_volume: 0,
        cb: 0,
        ca: 0,
        bid_added_5s: 0,
        bid_cancelled_5s: 0,
        ask_added_5s: 0,
        ask_cancelled_5s: 0,
        refresh_bid_count: 0,
        refresh_ask_count: 0,
        refresh_bid_hidden: 0,
        refresh_ask_hidden: 0,
    }
}

impl Default for DomViewRow {
    fn default() -> (r: DomViewRow)
        ensures
            r == empty_row(Price(0)),
    {
        blank_row(Price(0), false)
    }
}

impl Default for AggregatedDom {
    fn default() -> (r: AggregatedDom)
        ensures
            r.tick_size == Price(0),
            r.scaled_tick_size == Price(0),
            r.best_bid is None,
            r.best_ask is None,
            r.last_trade is None,
            r.rows@.len() == 0,
    {
        AggregatedDom {
            tick_size: Price(0),
            scaled_tick_size: Price(0),
            best_bid: None,
            best_ask: None,
            last_trade: None,
            rows: Vec::new(),
        }
    }
}

fn blank_row(price: Price, source_present: bool) -> (r: DomViewRow)
    ensures
        r == (DomViewRow { source_present, ..empty_row(price) }),
{
    DomViewRow {
        price,
        source_present,
        bid_size: 0,
        ask_size: 0,
        bid_orders: 0,
        ask_orders: 0,
        session_volume: 0,
        cb: 0,
        ca: 0,
        bid_added_5s: 0,
        bid_cancelled_5s: 0,
        ask_added_5s: 0,
        ask_cancelled_5s: 0,
        refresh_bid_count: 0,
        refresh_ask_count: 0,
        refresh_bid_hidden: 0,
        refresh_ask_hidden: 0,
    }
}

/// Whether a scale is one that the ladder renders at.
pub open spec fn valid_scale(tick_scale: u8) -> bool {
    tick_scale == 1 || tick_scale == 2 || tick_scale == 4
}

/// The tick of a rendered row.
pub open spec fn scaled(dom: DomRenderState, tick_scale: u8) -> Price {
    Price((dom.tick_size.0 * tick_scale) as i64)
}

/// Whether the engine's state can be rendered at a scale: its tick is positive, its rows
/// ascend, and neither a bucket's boundary nor a bucket's sum leaves its range.
pub open spec fn renders_at(dom: DomRenderState, tick_scale: u8) -> bool {
    &&& valid_scale(tick_scale)
    &&& dom.is_blank() || {
        let tick = scaled(dom, tick_scale);
        &&& dom.tick_size.0 > 0
        &&& dom.tick_size.0 * tick_scale <= i64::MAX
        &&& forall|i: int, j: int|
            0 <= i <= j < dom.rows.len() ==> (#[trigger] dom.rows[i]).price.0 <= (
            #[trigger] dom.rows[j]).price.0
        &&& forall|i: int|
            0 <= i < dom.rows.len() ==> bucket_fits((#[trigger] dom.rows[i]).price, tick)
        &&& dom.best_bid is Some ==> bucket_fits(dom.best_bid->0, tick)
        &&& dom.best_ask is Some ==> bucket_fits(dom.best_ask->0, tick)
        &&& dom.last_trade is Some ==> bucket_fits(dom.last_trade->0.price, tick)
        &&& forall|price: int, q: Quantity| #[trigger]
            bucket_total(dom.rows@, tick, price, q) <= most(q)
    }
}

/// The bucket of a price that may be missing.
pub open spec fn bucket_of(price: Option<Price>, scaled_tick: Price) -> Option<Price> {
    match price {
        Some(price) => Some(Price(bucket(price, scaled_tick) as i64)),
        None => None,
    }
}

/// Whether `r` is the engine's state at a scale.
pub open spec fn aggregates(r: AggregatedDom, dom: DomRenderState, tick_scale: u8) -> bool {
    if dom.is_blank() {
        &&& r.tick_size == Price(0)
        &&& r.scaled_tick_size == Price(0)
        &&& r.best_bid is None
        &&& r.best_ask is None
        &&& r.last_trade is None
        &&& r.rows@.len() == 0
    } else {
        let tick = scaled(dom, tick_scale);
        &&& r.tick_size == dom.tick_size
        &&& r.scaled_tick_size == tick
        &&& r.best_bid == bucket_of(dom.best_bid, tick)
        &&& r.best_ask == bucket_of(dom.best_ask, tick)
        &&& r.last_trade == bucket_of(
            match dom.last_trade {
                Some(trade) => Some(trade.price),
                None => None,
            },
            tick,
        )
        &&& buckets_of(r.rows@, dom.rows@, tick)
    }
}

pub proof fn lemma_bucket(price: Price, scaled_tick: Price)
    requires
        scaled_tick.0 > 0,
    ensures
        bucket(price, scaled_tick) <= price.0 < bucket(price, scaled_tick) + scaled_tick.0,
        bucket(price, scaled_tick) % (scaled_tick.0 as int) == 0,
{
    let t = scaled_tick.0 as int;
    let q = price.0 as int / t;
    vstd::arithmetic::div_mod::lemma_fundamental_div_mod(price.0 as int, t);
    vstd::arithmetic::div_mod::lemma_mod_bound(price.0 as int, t);
    vstd::arithmetic::mul::lemma_mul_is_commutative(t, q);
    vstd::arithmetic::div_mod::lemma_mod_multiples_basic(q, t);
}

pub proof fn lemma_bucket_monotone(a: Price, b: Price, scaled_tick: Price)
    requires
        scaled_tick.0 > 0,
        a.0 <= b.0,
    ensures
        bucket(a, scaled_tick) <= bucket(b, scaled_tick),
{
    let t = scaled_tick.0 as int;
    vstd::arithmetic::div_mod::lemma_div_is_ordered(a.0 as int, b.0 as int, t);
    vstd::arithmetic::mul::lemma_mul_inequality(a.0 as int / t, b.0 as int / t, t);
}

/// The lower boundary of the bucket that holds a price.
pub fn bucket_price(price: Price, scaled_tick: Price) -> (r: Price)
    requires
        scaled_tick.0 > 0,
        bucket_fits(price, scaled_tick),
    ensures
        r.0 == bucket(price, scaled_tick),
{
    let q: i64 = floor_div(price.0, scaled_tick.0);
    proof {
        lemma_bucket(price, scaled_tick);
    }
    Price(q * scaled_tick.0)
}

/// Adds an engine row to its bucket.
fn merge_row(target: &mut DomViewRow, source: &DomPriceRow)
    requires
        forall|q: Quantity| #[trigger]
            amount(*old(target), q) + source_amount(*source, q) <= most(q),
    ensures
        final(target).price == old(target).price,
        final(target).source_present == old(target).source_present,
        forall|q: Quantity| #[trigger]
            amount(*final(target), q) == amount(*old(target), q) + source_amount(*source, q),
{
    proof {
        let row = *target;
        assert(amount(row, Quantity::BidSize) + source_amount(*source, Quantity::BidSize)
            <= u64::MAX);
        assert(amount(row, Quantity::AskSize) + source_amount(*source, Quantity::AskSize)
            <= u64::MAX);
        assert(amount(row, Quantity::BidOrders) + source_amount(*source, Quantity::BidOrders)
            <= u32::MAX);
        assert(amount(row, Quantity::AskOrders) + source_amount(*source, Quantity::AskOrders)
            <= u32::MAX);
        assert(amount(row, Quantity::SessionVolume) + source_amount(
            *source,
            Quantity::SessionVolume,
        ) <= u64::MAX);
        assert(amount(row, Quantity::Cb) + source_amount(*source, Quantity::Cb) <= u64::MAX);
        assert(amount(row, Quantity::Ca) + source_amount(*source, Quantity::Ca) <= u64::MAX);
        assert(amount(row, Quantity::BidAdded) + source_amount(*source, Quantity::BidAdded)
            <= u32::MAX);
        assert(amount(row, Quantity::BidCancelled) + source_amount(*source, Quantity::BidCancelled)
            <= u32::MAX);
        assert(amount(row, Quantity::AskAdded) + source_amount(*source, Quantity::AskAdded)
            <= u32::MAX);
        assert(amount(row, Quantity::AskCancelled) + source_amount(*source, Quantity::AskCancelled)
            <= u32::MAX);
        assert(amount(row, Quantity::RefreshBidCount) + source_amount(
            *source,
            Quantity::RefreshBidCount,
        ) <= u32::MAX);
        assert(amount(row, Quantity::RefreshAskCount) + source_amount(
            *source,
            Quantity::RefreshAskCount,
        ) <= u32::MAX);
        assert(amount(row, Quantity::RefreshBidHidden) + source_amount(
            *source,
            Quantity::RefreshBidHidden,
        ) <= u64::MAX);
        assert(amount(row, Quantity::RefreshAskHidden) + source_amount(
            *source,
            Quantity::RefreshAskHidden,
        ) <= u64::MAX);
    }
    target.bid_size = target.bid_size + source.bid_size;
    target.ask_size = target.ask_size + source.ask_size;
    target.bid_orders = target.bid_orders + source.bid_orders;
    target.ask_orders = target.ask_orders + source.ask_orders;
    target.session_volume = target.session_volume + source.session_volume;
    target.cb = target.cb + source.cb;
    target.ca = target.ca + source.ca;
    target.bid_added_5s = target.bid_added_5s + source.bid_added_5s;
    target.bid_cancelled_5s = target.bid_cancelled_5s + source.bid_cancelled_5s;
    target.ask_added_5s = target.ask_added_5s + source.ask_added_5s;
    target.ask_cancelled_5s = target.ask_cancelled_5s + source.ask_cancelled_5s;
    target.refresh_bid_count = target.refresh_bid_count + source.refresh_agg.bid_count;
    target.refresh_ask_count = target.refresh_ask_count + source.refresh_agg.ask_count;
    target.refresh_bid_hidden = target.refresh_bid_hidden + source.refresh_agg.bid_hidden;
    target.refresh_ask_hidden = target.refresh_ask_hidden + source.refresh_agg.ask_hidden;
}

proof fn lemma_total_step(source: Seq<DomPriceRow>, k: int, tick: Price, price: int, q: Quantity)
    requires
        0 <= k < source.len(),
    ensures
        bucket_total(source.take(k + 1), tick, price, q) == bucket_total(
            source.take(k),
            tick,
            price,
            q,
        ) + if bucket(source[k].price, tick) == price {
            source_amount(source[k], q)
        } else {
            0
        },
{
    assert(source.take(k + 1).drop_last() =~= source.take(k));
    assert(source.take(k + 1).last() == source[k]);
}

proof fn lemma_total_bound(source: Seq<DomPriceRow>, k: int, tick: Price, price: int, q: Quantity)
    requires
        0 <= k <= source.len(),
    ensures
        0 <= bucket_total(source.take(k), tick, price, q) <= bucket_total(source, tick, price, q),
    decreases source.len() - k,
{
    lemma_total_nonnegative(source.take(k), tick, price, q);
    if k < source.len() {
        lemma_total_step(source, k, tick, price, q);
        lemma_total_bound(source, k + 1, tick, price, q);
    } else {
        assert(source.take(k) =~= source);
    }
}

proof fn lemma_total_nonnegative(source: Seq<DomPriceRow>, tick: Price, price: int, q: Quantity)
    ensures
        0 <= bucket_total(source, tick, price, q),
    decreases source.len(),
{
    if source.len() > 0 {
        lemma_total_nonnegative(source.drop_last(), tick, price, q);
    }
}

proof fn lemma_total_vacant(source: Seq<DomPriceRow>, tick: Price, price: int, q: Quantity)
    requires
        !occupied(source, tick, price),
    ensures
        bucket_total(source, tick, price, q) == 0,
    decreases source.len(),
{
    if source.len() > 0 {
        let front = source.drop_last();
        assert(bucket(source[source.len() - 1].price, tick) != price);
        assert(!occupied(front, tick, price)) by {
            if occupied(front, tick, price) {
                let i = choose|i: int|
                    0 <= i < front.len() && bucket((#[trigger] front[i]).price, tick) == price;
                assert(bucket(source[i].price, tick) == price);
            }
        }
        lemma_total_vacant(front, tick, price, q);
    }
}

/// One more engine row keeps the rows the buckets of what was read, when it was added to the
/// last bucket or began a new one.
proof fn lemma_bucket_step(
    rows: Seq<DomViewRow>,
    grown: Seq<DomViewRow>,
    source: Seq<DomPriceRow>,
    k: int,
    tick: Price,
)
    requires
        tick.0 > 0,
        0 <= k < source.len(),
        forall|i: int, j: int|
            0 <= i <= j < source.len() ==> (#[trigger] source[i]).price.0 <= (
            #[trigger] source[j]).price.0,
        buckets_of(rows, source.take(k), tick),
        k > 0 ==> rows.len() > 0 && rows.last().price.0 == bucket(source[k - 1].price, tick),
        k == 0 ==> rows.len() == 0,
        ({
            let price = bucket(source[k].price, tick);
            let joins = rows.len() > 0 && rows.last().price.0 == price;
            &&& grown.len() == if joins {
                rows.len()
            } else {
                rows.len() + 1
            }
            &&& grown.drop_last() == if joins {
                rows.drop_last()
            } else {
                rows
            }
            &&& grown.last().price.0 == price
            &&& grown.last().source_present
            &&& forall|q: Quantity| #[trigger]
                amount(grown.last(), q) == source_amount(source[k], q) + if joins {
                    amount(rows.last(), q)
                } else {
                    0
                }
        }),
    ensures
        buckets_of(grown, source.take(k + 1), tick),
{
    let price = bucket(source[k].price, tick);
    let joins = rows.len() > 0 && rows.last().price.0 == price;
    let before = source.take(k);
    let after = source.take(k + 1);
    let last = grown.len() - 1;
    let front = grown.drop_last();
    if k > 0 {
        lemma_bucket_monotone(source[k - 1].price, source[k].price, tick);
    }
    // Every earlier row has a smaller price.
    assert forall|i: int| 0 <= i < last implies (#[trigger] grown[i]).price.0 < price by {
        assert(front[i] == grown[i]);
        assert(rows[i] == grown[i]);
        if joins {
            assert(rows[i].price.0 < rows[rows.len() - 1].price.0);
        } else if i < rows.len() - 1 {
            assert(rows[i].price.0 < rows[rows.len() - 1].price.0);
        }
    }
    assert forall|i: int, j: int| 0 <= i < j < grown.len() implies (#[trigger] grown[i]).price.0 < (
    #[trigger] grown[j]).price.0 by {
        if j < last {
            assert(front[i] == grown[i] && front[j] == grown[j]);
            assert(rows[i] == grown[i] && rows[j] == grown[j]);
        }
    }
    assert(after[k] == source[k]);
    assert(occupied(after, tick, price));
    assert forall|i: int| 0 <= i < grown.len() implies sums_up(
        #[trigger] grown[i],
        after,
        tick,
    ) by {
        let p = grown[i].price.0 as int;
        if i < last {
            assert(front[i] == grown[i]);
            assert(rows[i] == grown[i]);
            assert(sums_up(rows[i], before, tick));
            let at = choose|at: int|
                0 <= at < before.len() && bucket((#[trigger] before[at]).price, tick) == p;
            assert(after[at] == before[at]);
            assert forall|q: Quantity| #[trigger] amount(grown[i], q) == bucket_total(
                after,
                tick,
                p,
                q,
            ) by {
                lemma_total_step(source, k, tick, p, q);
                assert(amount(rows[i], q) == bucket_total(before, tick, p, q));
            }
        } else {
            assert(grown[i] == grown.last());
            if joins {
                assert(sums_up(rows[rows.len() - 1], before, tick));
            } else {
                assert(!occupied(before, tick, price)) by {
                    if occupied(before, tick, price) {
                        let at = choose|at: int|
                            0 <= at < before.len() && bucket((#[trigger] before[at]).price, tick)
                                == price;
                        assert(before[at] == source[at]);
                        lemma_bucket_monotone(source[at].price, source[k - 1].price, tick);
                    }
                }
            }
            assert forall|q: Quantity| #[trigger] amount(grown[i], q) == bucket_total(
                after,
                tick,
                p,
                q,
            ) by {
                lemma_total_step(source, k, tick, p, q);
                if joins {
                    assert(amount(rows[rows.len() - 1], q) == bucket_total(before, tick, price, q));
                } else {
                    lemma_total_vacant(before, tick, price, q);
                }
                assert(amount(grown.last(), q) == source_amount(source[k], q) + if joins {
                    amount(rows.last(), q)
                } else {
                    0
                });
            }
        }
    }
    assert forall|i: int| 0 <= i < after.len() implies has_price(
        grown,
        bucket((#[trigger] after[i]).price, tick),
    ) by {
        if i < k {
            assert(before[i] == after[i]);
            let m = choose|m: int|
                0 <= m < rows.len() && (#[trigger] rows[m]).price.0 == bucket(
                    before[i].price,
                    tick,
                );
            if m < last {
                assert(front[m] == grown[m]);
                assert(rows[m] == grown[m]);
            }
            assert(grown[m].price.0 == bucket(after[i].price, tick));
        } else {
            assert(grown[last].price.0 == bucket(after[i].price, tick));
        }
    }
}

/// Aggregates ascending engine rows into buckets of the scaled tick.
pub fn aggregate_rows(dom: &DomRenderState, tick_scale: u8) -> (r: AggregatedDom)
    requires
        renders_at(*dom, tick_scale),
    ensures
        aggregates(r, *dom, tick_scale),
{
    if dom.blank() {
        return AggregatedDom::default();
    }
    let ghost tick = scaled(*dom, tick_scale);
    let scaled_tick_size: Price = Price(dom.tick_size.0 * tick_scale as i64);
    assert(scaled_tick_size == tick);
    assert(tick.0 > 0);
    let mut rows: Vec<DomViewRow> = Vec::new();
    let mut i: usize = 0;
    assert(dom.rows@.take(0) =~= Seq::<DomPriceRow>::empty());
    while i < dom.rows.len()
        invariant
            i <= dom.rows.len(),
            tick.0 > 0,
            scaled_tick_size == tick,
            tick == scaled(*dom, tick_scale),
            renders_at(*dom, tick_scale),
            !dom.is_blank(),
            buckets_of(rows@, dom.rows@.take(i as int), tick),
            i > 0 ==> rows.len() > 0 && rows@.last().price.0 == bucket(
                dom.rows@[i - 1].price,
                tick,
            ),
            i == 0 ==> rows.len() == 0,
        decreases dom.rows.len() - i,
    {
        let ghost before = rows@;
        let source: &DomPriceRow = &dom.rows[i];
        let price: Price = bucket_price(source.price, scaled_tick_size);
        let joins: bool = rows.len() > 0 && rows[rows.len() - 1].price.0 == price.0;
        if !joins {
            rows.push(blank_row(price, true));
        }
        let last: usize = rows.len() - 1;
        let mut row: DomViewRow = rows[last];
        proof {
            assert forall|q: Quantity| #[trigger] amount(row, q) + source_amount(*source, q)
                <= most(q) by {
                lemma_total_step(dom.rows@, i as int, tick, price.0 as int, q);
                lemma_total_bound(dom.rows@, i + 1, tick, price.0 as int, q);
                lemma_total_nonnegative(dom.rows@.take(i as int), tick, price.0 as int, q);
                if joins {
                    assert(sums_up(before[last as int], dom.rows@.take(i as int), tick));
                    assert(amount(before[last as int], q) == bucket_total(
                        dom.rows@.take(i as int),
                        tick,
                        price.0 as int,
                        q,
                    ));
                } else {
                    assert(amount(row, q) == 0);
                }
            }
        }
        let ghost start = row;
        merge_row(&mut row, source);
        rows.set(last, row);
        proof {
            assert(rows@.drop_last() =~= if joins {
                before.drop_last()
            } else {
                before
            });
            assert forall|q: Quantity| #[trigger] amount(rows@.last(), q) == source_amount(
                dom.rows@[i as int],
                q,
            ) + if joins {
                amount(before.last(), q)
            } else {
                0
            } by {
                assert(amount(row, q) == amount(start, q) + source_amount(*source, q));
            }
            if joins {
                assert(sums_up(before[last as int], dom.rows@.take(i as int), tick));
            }
            lemma_bucket_step(before, rows@, dom.rows@, i as int, tick);
        }
        i += 1;
    }
    assert(dom.rows@.take(i as int) =~= dom.rows@);
    AggregatedDom {
        tick_size: dom.tick_size,
        scaled_tick_size,
        best_bid: match dom.best_bid {
            Some(price) => Some(bucket_price(price, scaled_tick_size)),
            None => None,
        },
        best_ask: match dom.best_ask {
            Some(price) => Some(bucket_price(price, scaled_tick_size)),
            None => None,
        },
        last_trade: match dom.last_trade {
            Some(trade) => Some(bucket_price(trade.price, scaled_tick_size)),
            None => None,
        },
        rows,
    }
}

/// How many leading rows lie below a price.
pub open spec fn lower_bound(rows: Seq<DomViewRow>, target: int) -> int
    decreases rows.len(),
{
    if rows.len() == 0 || rows[0].price.0 >= target {
        0
    } else {
        1 + lower_bound(rows.skip(1), target)
    }
}

/// The row nearest to a price; of two equally near, the lower.
pub open spec fn nearest_index(rows: Seq<DomViewRow>, target: int) -> int {
    let at = lower_bound(rows, target);
    if at == 0 {
        0
    } else if at == rows.len() {
        rows.len() - 1
    } else if rows[at].price.0 == target {
        at
    } else if target - rows[at - 1].price.0 <= rows[at].price.0 - target {
        at - 1
    } else {
        at
    }
}

/// The first row at or above a price; the last row where there is none.
pub open spec fn ceiling_index(rows: Seq<DomViewRow>, target: int) -> int {
    least(lower_bound(rows, target), rows.len() - 1)
}

/// Half a sum, rounded towards zero.
pub open spec fn half(sum: int) -> int {
    if sum >= 0 {
        sum / 2
    } else {
        -((-sum) / 2)
    }
}

impl AggregatedDom {
    /// The price that an unpinned view follows: the middle of the inside market, the one side
    /// there is, the last trade, or the middle row.
    pub open spec fn followed(self) -> int {
        match (self.best_bid, self.best_ask) {
            (Some(bid), Some(ask)) => half(bid.0 + ask.0),
            (Some(bid), None) => bid.0 as int,
            (None, Some(ask)) => ask.0 as int,
            (None, None) => match self.last_trade {
                Some(price) => price.0 as int,
                None => self.rows@[self.rows.len() as int / 2].price.0 as int,
            },
        }
    }

    /// Whether the rows can be searched by price.
    pub open spec fn searchable(self) -> bool {
        ascending(self.rows@)
    }

    fn follow_price(&self) -> (r: Price)
        requires
            self.rows.len() > 0,
        ensures
            r.0 == self.followed(),
    {
        match (self.best_bid, self.best_ask) {
            (Some(bid), Some(ask)) => {
                let sum: i128 = bid.0 as i128 + ask.0 as i128;
                if sum >= 0 {
                    Price((sum / 2) as i64)
                } else {
                    Price((-((-sum) / 2)) as i64)
                }
            },
            (Some(bid), None) => bid,
            (None, Some(ask)) => ask,
            (None, None) => match self.last_trade {
                Some(price) => price,
                None => self.rows[self.rows.len() / 2].price,
            },
        }
    }
}

proof fn lemma_lower_bound(rows: Seq<DomViewRow>, target: int, at: int)
    requires
        0 <= at <= rows.len(),
        forall|i: int| 0 <= i < at ==> (#[trigger] rows[i]).price.0 < target,
        at < rows.len() ==> rows[at].price.0 >= target,
    ensures
        lower_bound(rows, target) == at,
    decreases at,
{
    if at > 0 {
        assert(rows[0].price.0 < target);
        let rest = rows.skip(1);
        assert forall|i: int| 0 <= i < at - 1 implies (#[trigger] rest[i]).price.0 < target by {
            assert(rest[i] == rows[i + 1]);
        }
        lemma_lower_bound(rest, target, at - 1);
    }
}

/// The number of rows below a price, found by halving.
fn partition_point(rows: &Vec<DomViewRow>, target: i64) -> (r: usize)
    requires
        ascending(rows@),
    ensures
        r == lower_bound(rows@, target as int),
        r <= rows.len(),
        forall|i: int| 0 <= i < r ==> (#[trigger] rows@[i]).price.0 < target,
        forall|i: int| r <= i < rows.len() ==> (#[trigger] rows@[i]).price.0 >= target,
{
    let mut low: usize = 0;
    let mut high: usize = rows.len();
    while low < high
        invariant
            low <= high <= rows.len(),
            ascending(rows@),
            forall|i: int| 0 <= i < low ==> (#[trigger] rows@[i]).price.0 < target,
            forall|i: int| high <= i < rows.len() ==> (#[trigger] rows@[i]).price.0 >= target,
        decreases high - low,
    {
        let middle: usize = low + (high - low) / 2;
        let ghost m = middle as int;
        if rows[middle].price.0 < target {
            assert forall|i: int| 0 <= i < m + 1 implies (#[trigger] rows@[i]).price.0 < target by {
                if i < m {
                    assert(rows@[i].price.0 < rows@[m].price.0);
                }
            }
            low = middle + 1;
        } else {
            assert forall|i: int| m <= i < rows.len() implies (#[trigger] rows@[i]).price.0
                >= target by {
                if m < i {
                    assert(rows@[m].price.0 < rows@[i].price.0);
                }
            }
            high = middle;
        }
    }
    proof {
        lemma_lower_bound(rows@, target as int, low as int);
    }
    low
}

fn nearest_row(rows: &Vec<DomViewRow>, target: Price) -> (r: usize)
    requires
        ascending(rows@),
        rows.len() > 0,
    ensures
        r == nearest_index(rows@, target.0 as int),
        r < rows.len(),
{
    let at: usize = partition_point(rows, target.0);
    if at == 0 {
        return 0;
    }
    if at == rows.len() {
        return rows.len() - 1;
    }
    if rows[at].price.0 == target.0 {
        return at;
    }
    let below: i128 = target.0 as i128 - rows[at - 1].price.0 as i128;
    let above: i128 = rows[at].price.0 as i128 - target.0 as i128;
    if below <= above {
        at - 1
    } else {
        at
    }
}

fn ceiling_row(rows: &Vec<DomViewRow>, target: Price) -> (r: usize)
    requires
        ascending(rows@),
        rows.len() > 0,
    ensures
        r == ceiling_index(rows@, target.0 as int),
        r < rows.len(),
{
    let at: usize = partition_point(rows, target.0);
    if at < rows.len() - 1 {
        at
    } else {
        rows.len() - 1
    }
}

/// No row is nearer to a price than the one that is found, and none below it is as near.
pub proof fn law_nearest_row(rows: Seq<DomViewRow>, target: int, i: int)
    requires
        ascending(rows),
        0 <= i < rows.len(),
    ensures
        ({
            let found = nearest_index(rows, target);
            let distance = |k: int| greatest(rows[k].price.0 - target, target - rows[k].price.0);
            &&& 0 <= found < rows.len()
            &&& distance(found) <= distance(i)
            &&& i < found ==> distance(found) < distance(i)
        }),
{
    lemma_lower_bound_is(rows, target);
    let at = lower_bound(rows, target);
    if i < at {
        assert(rows[i].price.0 < target);
        if i < at - 1 {
            assert(rows[i].price.0 < rows[at - 1].price.0);
        }
    } else if at < i {
        assert(rows[at].price.0 < rows[i].price.0);
    }
}

proof fn lemma_lower_bound_is(rows: Seq<DomViewRow>, target: int)
    ensures
        0 <= lower_bound(rows, target) <= rows.len(),
        forall|i: int| 0 <= i < lower_bound(rows, target) ==> (#[trigger] rows[i]).price.0 < target,
        lower_bound(rows, target) < rows.len() ==> rows[lower_bound(rows, target)].price.0
            >= target,
    decreases rows.len(),
{
    if rows.len() > 0 && rows[0].price.0 < target {
        let rest = rows.skip(1);
        lemma_lower_bound_is(rest, target);
        assert forall|i: int| 0 <= i < lower_bound(rows, target) implies (
        #[trigger] rows[i]).price.0 < target by {
            if i > 0 {
                assert(rest[i - 1] == rows[i]);
            }
        }
        if lower_bound(rest, target) < rest.len() {
            assert(rest[lower_bound(rest, target)] == rows[lower_bound(rest, target) + 1]);
        }
    }
}

/// The first row of a window of `count` rows around `center`, kept inside the rows.
pub open spec fn window_start(center: int, count: int, len: int) -> int {
    least(greatest(center - count / 2, 0), len - count)
}

/// Whether a view's anchor has a bucket at the depth's scale.
pub open spec fn anchor_fits(view: DomView, dom: AggregatedDom) -> bool {
    view.anchor is Some ==> dom.scaled_tick_size.0 > 0 && bucket_fits(
        view.anchor->0,
        dom.scaled_tick_size,
    )
}

/// The row that a view centers on.
pub open spec fn center_of(view: DomView, dom: AggregatedDom) -> int {
    match view.anchor {
        Some(anchor) => nearest_index(dom.rows@, bucket(anchor, dom.scaled_tick_size)),
        None => ceiling_index(dom.rows@, dom.followed()),
    }
}

/// The rows that a window of at most `row_count` rows shows.
pub open spec fn window(view: DomView, dom: AggregatedDom, row_count: usize) -> (int, int) {
    if dom.rows.len() == 0 || row_count == 0 {
        (0, 0)
    } else {
        let count = least(row_count as int, dom.rows.len() as int);
        let start = window_start(center_of(view, dom), count, dom.rows.len() as int);
        (start, start + count)
    }
}

/// Whether the window has its full size and the anchor's bucket on its center row.
pub open spec fn centers_anchor(view: DomView, dom: AggregatedDom, row_count: usize) -> bool {
    let (start, end) = window(view, dom, row_count);
    &&& end - start == row_count
    &&& start + row_count as int / 2 < dom.rows.len()
    &&& dom.rows@[start + row_count as int / 2].price.0 == bucket(
        view.anchor->0,
        dom.scaled_tick_size,
    )
}

/// The price of the first row when the anchor's bucket takes the center row.
pub open spec fn lattice_start(anchor: Price, tick: Price, row_count: usize) -> int {
    bucket(anchor, tick) - row_count as int / 2 * tick.0
}

/// Whether every price of the lattice, and every offset to one, is in range.
pub open spec fn lattice_fits(anchor: Price, tick: Price, row_count: usize) -> bool {
    &&& row_count <= i64::MAX
    &&& (row_count - 1) * tick.0 <= i64::MAX
    &&& lattice_start(anchor, tick, row_count) >= i64::MIN
    &&& lattice_start(anchor, tick, row_count) + (row_count - 1) * tick.0 <= i64::MAX
}

/// The row of the given price, or an empty one.
pub open spec fn row_at(rows: Seq<DomViewRow>, price: int) -> DomViewRow {
    let at = lower_bound(rows, price);
    if at < rows.len() && rows[at].price.0 == price {
        rows[at]
    } else {
        empty_row(Price(price as i64))
    }
}

/// Whether `r` shows `row_count` rows with the anchor's bucket on the center row, each what the
/// depth holds at its price, and is the depth otherwise.
pub open spec fn synthesized(
    r: AggregatedDom,
    dom: AggregatedDom,
    anchor: Price,
    row_count: usize,
) -> bool {
    &&& same_but_rows(r, dom)
    &&& r.rows.len() == row_count
    &&& forall|k: int|
        0 <= k < row_count ==> #[trigger] r.rows@[k] == row_at(
            dom.rows@,
            lattice_start(anchor, dom.scaled_tick_size, row_count) + k * dom.scaled_tick_size.0,
        )
}

/// Whether two depths differ in their rows alone.
pub open spec fn same_but_rows(a: AggregatedDom, b: AggregatedDom) -> bool {
    &&& a.tick_size == b.tick_size
    &&& a.scaled_tick_size == b.scaled_tick_size
    &&& a.best_bid == b.best_bid
    &&& a.best_ask == b.best_ask
    &&& a.last_trade == b.last_trade
}

/// Whether every row lies on the lattice of the tick.
pub open spec fn on_lattice(rows: Seq<DomViewRow>, tick: Price) -> bool {
    forall|i: int| 0 <= i < rows.len() ==> (#[trigger] rows[i]).price.0 as int % tick.0 as int == 0
}

pub proof fn lemma_gap_on_lattice(a: int, b: int, t: int)
    requires
        t > 0,
        a % t == 0,
        b % t == 0,
        a < b,
    ensures
        b >= a + t,
{
    vstd::arithmetic::div_mod::lemma_fundamental_div_mod(a, t);
    vstd::arithmetic::div_mod::lemma_fundamental_div_mod(b, t);
    assert(b >= a + t) by (nonlinear_arith)
        requires
            a == t * (a / t),
            b == t * (b / t),
            a < b,
            t > 0,
    ;
}

pub proof fn lemma_step_on_lattice(start: int, k: int, t: int)
    requires
        t > 0,
        start % t == 0,
    ensures
        (start + k * t) % t == 0,
        start + (k + 1) * t == start + k * t + t,
{
    vstd::arithmetic::div_mod::lemma_mod_multiples_vanish(k, start, t);
    assert(t * k == k * t) by (nonlinear_arith);
    assert((k + 1) * t == k * t + t) by (nonlinear_arith);
}

/// Puts the anchor's bucket on the center row, with empty rows where the depth has none.
fn synthesize_window(dom: AggregatedDom, anchor: Price, row_count: usize) -> (r: AggregatedDom)
    requires
        dom.scaled_tick_size.0 > 0,
        dom.searchable(),
        on_lattice(dom.rows@, dom.scaled_tick_size),
        bucket_fits(anchor, dom.scaled_tick_size),
        row_count > 0,
        lattice_fits(anchor, dom.scaled_tick_size, row_count),
    ensures
        synthesized(r, dom, anchor, row_count),
{
    let tick: i64 = dom.scaled_tick_size.0;
    let ghost t = tick as int;
    let center: Price = bucket_price(anchor, dom.scaled_tick_size);
    let below: i64 = (row_count / 2) as i64;
    proof {
        lemma_bucket(anchor, dom.scaled_tick_size);
        assert(below * t <= (row_count - 1) * t || below == row_count) by (nonlinear_arith)
            requires
                below == row_count as int / 2,
                row_count > 0,
                t > 0,
        ;
        assert(0 <= below * t) by (nonlinear_arith)
            requires
                below >= 0,
                t > 0,
        ;
    }
    let start: i64 = center.0 - below * tick;
    proof {
        lemma_step_on_lattice(center.0 as int, -below as int, t);
        assert((-below) * t == -(below * t)) by (nonlinear_arith);
        assert(start as int % t == 0);
    }
    let mut source_index: usize = partition_point(&dom.rows, start);
    let mut rows: Vec<DomViewRow> = Vec::new();
    let mut offset: usize = 0;
    while offset < row_count
        invariant
            offset <= row_count,
            row_count > 0,
            t == tick,
            tick == dom.scaled_tick_size.0,
            t > 0,
            start == lattice_start(anchor, dom.scaled_tick_size, row_count),
            start as int % t == 0,
            lattice_fits(anchor, dom.scaled_tick_size, row_count),
            ascending(dom.rows@),
            on_lattice(dom.rows@, dom.scaled_tick_size),
            rows.len() == offset,
            source_index <= dom.rows.len(),
            forall|i: int|
                0 <= i < source_index ==> (#[trigger] dom.rows@[i]).price.0 < start + offset * t,
            forall|i: int|
                source_index <= i < dom.rows.len() ==> (#[trigger] dom.rows@[i]).price.0 >= start
                    + offset * t,
            forall|k: int|
                0 <= k < offset ==> #[trigger] rows@[k] == row_at(dom.rows@, start + k * t),
        decreases row_count - offset,
    {
        let ghost price_int = start + offset * t;
        proof {
            lemma_step_on_lattice(start as int, offset as int, t);
            assert(0 <= offset * t <= (row_count - 1) * t) by (nonlinear_arith)
                requires
                    0 <= offset <= row_count - 1,
                    t > 0,
            ;
            lemma_lower_bound(dom.rows@, price_int, source_index as int);
        }
        let price: Price = Price(start + offset as i64 * tick);
        let present: bool = source_index < dom.rows.len() && dom.rows[source_index].price.0
            == price.0;
        if present {
            rows.push(dom.rows[source_index]);
            proof {
                let at = source_index as int;
                assert forall|i: int| 0 <= i < at + 1 implies (#[trigger] dom.rows@[i]).price.0
                    < price_int + t by {}
                assert forall|i: int| at + 1 <= i < dom.rows.len() implies (
                #[trigger] dom.rows@[i]).price.0 >= price_int + t by {
                    assert(dom.rows@[at].price.0 < dom.rows@[i].price.0);
                    lemma_gap_on_lattice(price_int, dom.rows@[i].price.0 as int, t);
                }
            }
            source_index += 1;
        } else {
            rows.push(blank_row(price, false));
            proof {
                let at = source_index as int;
                assert forall|i: int| 0 <= i < at implies (#[trigger] dom.rows@[i]).price.0
                    < price_int + t by {}
                assert forall|i: int| at <= i < dom.rows.len() implies (
                #[trigger] dom.rows@[i]).price.0 >= price_int + t by {
                    if at < i {
                        assert(dom.rows@[at].price.0 < dom.rows@[i].price.0);
                    }
                    lemma_gap_on_lattice(price_int, dom.rows@[i].price.0 as int, t);
                }
            }
        }
        assert(rows@[offset as int] == row_at(dom.rows@, price_int));
        offset += 1;
    }
    AggregatedDom { rows, ..dom }
}

/// Whether two depths are the same, row by row.
pub open spec fn same_dom(a: AggregatedDom, b: AggregatedDom) -> bool {
    same_but_rows(a, b) && a.rows@ == b.rows@
}

/// Whether `r` is what a view renders a viewport of the depth from: the depth itself, unless a
/// pinned anchor would not take the center row of a full window, and then as many rows as the
/// viewport has around the anchor's bucket.
pub open spec fn windowed(
    r: AggregatedDom,
    dom: AggregatedDom,
    view: DomView,
    row_count: usize,
) -> bool {
    if view.anchor is None {
        same_dom(r, dom)
    } else if row_count == 0 {
        same_but_rows(r, dom) && r.rows@.len() == 0
    } else if centers_anchor(view, dom, row_count) {
        same_dom(r, dom)
    } else {
        synthesized(r, dom, view.anchor->0, row_count)
    }
}

/// Whether the viewport of a pinned view can be rendered: the tick is positive, and the rows
/// around the anchor have prices, unless the depth already centers it.
pub open spec fn window_fits(view: DomView, dom: DomRenderState, row_count: usize) -> bool {
    view.anchor is Some && row_count > 0 ==> {
        let tick = scaled(dom, view.tick_scale);
        &&& !dom.is_blank()
        &&& bucket_fits(view.anchor->0, tick)
        &&& forall|all: AggregatedDom|
            #![trigger aggregates(all, dom, view.tick_scale)]
            aggregates(all, dom, view.tick_scale) && !centers_anchor(view, all, row_count)
                ==> lattice_fits(view.anchor->0, tick, row_count)
    }
}

/// The price that a pan moves the center to: as many rendered rows away as asked for, and
/// inside the rows where there are any.
pub open spec fn pan_target(view: DomView, dom: AggregatedDom, delta: i64) -> int {
    let base = match view.anchor {
        Some(anchor) => bucket(anchor, dom.scaled_tick_size),
        None => dom.rows@[center_of(view, dom)].price.0 as int,
    };
    let moved = base + delta * dom.scaled_tick_size.0;
    if dom.rows.len() == 0 {
        moved
    } else {
        greatest(
            dom.rows@[0].price.0 as int,
            least(moved, dom.rows@[dom.rows.len() - 1].price.0 as int),
        )
    }
}

/// Whether a pan has something to move.
pub open spec fn can_pan(view: DomView, dom: AggregatedDom, delta: i64) -> bool {
    delta != 0 && dom.scaled_tick_size.0 > 0 && (view.anchor is Some || dom.rows.len() > 0)
}

impl Default for DomView {
    fn default() -> (r: DomView)
        ensures
            r == (DomView { anchor: None, tick_scale: 1 }),
    {
        DomView { anchor: None, tick_scale: 1 }
    }
}

impl DomView {
    /// A view that follows the inside market at the given scale.
    pub fn new(tick_scale: u8) -> (r: DomView)
        requires
            valid_scale(tick_scale),
        ensures
            r == (DomView { anchor: None, tick_scale }),
    {
        DomView { anchor: None, tick_scale }
    }

    /// Changes the scale and keeps the anchor; whether it changed.
    pub fn set_tick_scale(&mut self, tick_scale: u8) -> (r: bool)
        requires
            valid_scale(tick_scale),
        ensures
            *final(self) == (DomView { tick_scale, ..*old(self) }),
            r == (old(self).tick_scale != tick_scale),
    {
        if self.tick_scale == tick_scale {
            return false;
        }
        self.tick_scale = tick_scale;
        true
    }

    /// Goes back to following the inside market; whether the view was pinned.
    pub fn recenter(&mut self) -> (r: bool)
        ensures
            *final(self) == (DomView { anchor: None, ..*old(self) }),
            r == (old(self).anchor is Some),
    {
        let pinned: bool = self.anchor.is_some();
        self.anchor = None;
        pinned
    }

    /// The engine's rows at this view's scale.
    pub fn aggregate(&self, dom: &DomRenderState) -> (r: AggregatedDom)
        requires
            renders_at(*dom, self.tick_scale),
        ensures
            aggregates(r, *dom, self.tick_scale),
    {
        aggregate_rows(dom, self.tick_scale)
    }

    /// What a viewport of `row_count` rows is rendered from. A pinned anchor keeps the center
    /// row even at the edges of the engine's depth: buckets that are missing are empty, those
    /// that overlap the depth are kept.
    pub fn aggregate_window(&self, dom: &DomRenderState, row_count: usize) -> (r: AggregatedDom)
        requires
            renders_at(*dom, self.tick_scale),
            window_fits(*self, *dom, row_count),
        ensures
            exists|all: AggregatedDom| #[trigger]
                aggregates(all, *dom, self.tick_scale) && windowed(r, all, *self, row_count),
            r.searchable(),
            r.rows.len() > 0 && row_count > 0 ==> anchor_fits(*self, r),
    {
        let aggregated: AggregatedDom = self.aggregate(dom);
        let ghost all = aggregated;
        assert(aggregates(all, *dom, self.tick_scale));
        let anchor: Price = match self.anchor {
            Some(anchor) => anchor,
            None => return aggregated,
        };
        if row_count == 0 {
            return AggregatedDom { rows: Vec::new(), ..aggregated };
        }
        let anchor_bucket: Price = bucket_price(anchor, aggregated.scaled_tick_size);
        let normal: Range<usize> = self.window_range(&aggregated, row_count);
        if normal.end - normal.start == row_count && normal.start + row_count / 2
            < aggregated.rows.len() && aggregated.rows[normal.start + row_count / 2].price.0
            == anchor_bucket.0 {
            return aggregated;
        }
        assert(!centers_anchor(*self, all, row_count));
        assert(on_lattice(all.rows@, all.scaled_tick_size)) by {
            assert forall|i: int| 0 <= i < all.rows.len() implies (
            #[trigger] all.rows@[i]).price.0 as int % all.scaled_tick_size.0 as int == 0 by {
                assert(sums_up(all.rows@[i], dom.rows@, all.scaled_tick_size));
                let k = choose|k: int|
                    0 <= k < dom.rows.len() && bucket(
                        (#[trigger] dom.rows@[k]).price,
                        all.scaled_tick_size,
                    ) == all.rows@[i].price.0;
                lemma_bucket(dom.rows@[k].price, all.scaled_tick_size);
            }
        }
        let r: AggregatedDom = synthesize_window(aggregated, anchor, row_count);
        proof {
            lemma_lattice_ascends(*self, all, row_count, r);
        }
        r
    }

    /// The rows that a window of at most `row_count` rows shows.
    pub fn window_range(&self, dom: &AggregatedDom, row_count: usize) -> (r: Range<usize>)
        requires
            dom.searchable(),
            dom.rows.len() > 0 && row_count > 0 ==> anchor_fits(*self, *dom),
        ensures
            (r.start as int, r.end as int) == window(*self, *dom, row_count),
            r.start <= r.end <= dom.rows.len(),
    {
        if dom.rows.len() == 0 || row_count == 0 {
            return 0..0;
        }
        let count: usize = if row_count < dom.rows.len() {
            row_count
        } else {
            dom.rows.len()
        };
        let center: usize = self.center_index(dom);
        let mut start: usize = center.saturating_sub(count / 2);
        if start > dom.rows.len() - count {
            start = dom.rows.len() - count;
        }
        start..start + count
    }

    /// Pins the center and moves it by rendered rows, upwards in price for a positive count;
    /// whether it moved. The center stays on the rows there are.
    pub fn pan_rows(&mut self, dom: &AggregatedDom, delta: i64) -> (r: bool)
        requires
            can_pan(*old(self), *dom, delta) ==> {
                &&& dom.searchable()
                &&& anchor_fits(*old(self), *dom)
                &&& i64::MIN <= pan_target(*old(self), *dom, delta) <= i64::MAX
            },
        ensures
            final(self).tick_scale == old(self).tick_scale,
            can_pan(*old(self), *dom, delta) ==> {
                &&& final(self).anchor == Some(Price(pan_target(*old(self), *dom, delta) as i64))
                &&& r == (old(self).anchor != final(self).anchor)
            },
            !can_pan(*old(self), *dom, delta) ==> *final(self) == *old(self) && !r,
    {
        if delta == 0 || dom.scaled_tick_size.0 <= 0 {
            return false;
        }
        let base: Price = match self.anchor {
            Some(anchor) => bucket_price(anchor, dom.scaled_tick_size),
            None => {
                if dom.rows.len() == 0 {
                    return false;
                }
                dom.rows[self.center_index(dom)].price
            },
        };
        assert(-0x4000_0000_0000_0000_0000_0000_0000_0000 <= delta * dom.scaled_tick_size.0
            <= 0x4000_0000_0000_0000_0000_0000_0000_0000) by (nonlinear_arith)
            requires
                i64::MIN <= delta <= i64::MAX,
                0 < dom.scaled_tick_size.0 <= i64::MAX,
        ;
        let mut next: i128 = base.0 as i128 + delta as i128 * dom.scaled_tick_size.0 as i128;
        if dom.rows.len() > 0 {
            let first: i128 = dom.rows[0].price.0 as i128;
            let last: i128 = dom.rows[dom.rows.len() - 1].price.0 as i128;
            if next > last {
                next = last;
            }
            if next < first {
                next = first;
            }
        }
        let target: Price = Price(next as i64);
        let moved: bool = match self.anchor {
            Some(anchor) => anchor.0 != target.0,
            None => true,
        };
        self.anchor = Some(target);
        moved
    }

    fn center_index(&self, dom: &AggregatedDom) -> (r: usize)
        requires
            dom.rows.len() > 0,
            dom.searchable(),
            anchor_fits(*self, *dom),
        ensures
            r == center_of(*self, *dom),
            r < dom.rows.len(),
    {
        match self.anchor {
            Some(anchor) => nearest_row(&dom.rows, bucket_price(anchor, dom.scaled_tick_size)),
            None => ceiling_row(&dom.rows, dom.follow_price()),
        }
    }
}

/// Synthesized rows climb by one rendered tick from row to row.
proof fn lemma_lattice_ascends(view: DomView, dom: AggregatedDom, row_count: usize, r: AggregatedDom)
    requires
        view.anchor is Some,
        dom.scaled_tick_size.0 > 0,
        synthesized(r, dom, view.anchor->0, row_count),
        lattice_fits(view.anchor->0, dom.scaled_tick_size, row_count),
    ensures
        ascending(r.rows@),
        forall|k: int|
            0 <= k < row_count ==> (#[trigger] r.rows@[k]).price.0 == lattice_start(
                view.anchor->0,
                dom.scaled_tick_size,
                row_count,
            ) + k * dom.scaled_tick_size.0,
{
    let t = dom.scaled_tick_size.0 as int;
    let start = lattice_start(view.anchor->0, dom.scaled_tick_size, row_count);
    assert forall|k: int| 0 <= k < row_count implies (#[trigger] r.rows@[k]).price.0 == start + k
        * t by {
        assert(0 <= k * t <= (row_count - 1) * t) by (nonlinear_arith)
            requires
                0 <= k <= row_count - 1,
                t > 0,
        ;
    }
    assert forall|i: int, j: int| 0 <= i < j < r.rows.len() implies (#[trigger] r.rows@[i]).price.0
        < (#[trigger] r.rows@[j]).price.0 by {
        assert(i * t < j * t) by (nonlinear_arith)
            requires
                i < j,
                t > 0,
        ;
    }
}

/// A pinned view has the anchor's bucket on the center row of its window, whatever the depth
/// holds there.
pub proof fn law_anchor_stays_centered(
    view: DomView,
    dom: AggregatedDom,
    row_count: usize,
    r: AggregatedDom,
)
    requires
        view.anchor is Some,
        row_count > 0,
        dom.scaled_tick_size.0 > 0,
        ascending(dom.rows@),
        windowed(r, dom, view, row_count),
        bucket_fits(view.anchor->0, dom.scaled_tick_size),
        !centers_anchor(view, dom, row_count) ==> lattice_fits(
            view.anchor->0,
            dom.scaled_tick_size,
            row_count,
        ),
    ensures
        ({
            let (start, end) = window(view, r, row_count);
            &&& end - start == row_count
            &&& 0 <= start
            &&& end <= r.rows.len()
            &&& r.rows@[start + row_count as int / 2].price.0 == bucket(
                view.anchor->0,
                dom.scaled_tick_size,
            )
        }),
{
    let target = bucket(view.anchor->0, dom.scaled_tick_size);
    if centers_anchor(view, dom, row_count) {
        assert(window(view, r, row_count) == window(view, dom, row_count));
        lemma_lower_bound_is(dom.rows@, target);
    } else {
        let m = row_count as int / 2;
        lemma_lattice_ascends(view, dom, row_count, r);
        assert(r.rows@[m].price.0 == target);
        assert forall|i: int| 0 <= i < m implies (#[trigger] r.rows@[i]).price.0 < target by {}
        lemma_lower_bound(r.rows@, target, m);
        assert(center_of(view, r) == m);
    }
}

/// All the engine rows hold of a quantity.
pub open spec fn source_total(source: Seq<DomPriceRow>, q: Quantity) -> int
    decreases source.len(),
{
    if source.len() == 0 {
        0
    } else {
        source_total(source.drop_last(), q) + source_amount(source.last(), q)
    }
}

/// All the rendered rows hold of a quantity.
pub open spec fn rendered_total(rows: Seq<DomViewRow>, q: Quantity) -> int
    decreases rows.len(),
{
    if rows.len() == 0 {
        0
    } else {
        rendered_total(rows.drop_last(), q) + amount(rows.last(), q)
    }
}

/// What the buckets of the given prices hold of a quantity.
spec fn prices_total(
    rows: Seq<DomViewRow>,
    source: Seq<DomPriceRow>,
    tick: Price,
    q: Quantity,
) -> int
    decreases rows.len(),
{
    if rows.len() == 0 {
        0
    } else {
        prices_total(rows.drop_last(), source, tick, q) + bucket_total(
            source,
            tick,
            rows.last().price.0 as int,
            q,
        )
    }
}

proof fn lemma_prices_total_step(
    rows: Seq<DomViewRow>,
    source: Seq<DomPriceRow>,
    tick: Price,
    q: Quantity,
)
    requires
        source.len() > 0,
        ascending(rows),
    ensures
        prices_total(rows, source, tick, q) == prices_total(rows, source.drop_last(), tick, q)
            + if has_price(rows, bucket(source.last().price, tick)) {
            source_amount(source.last(), q)
        } else {
            0
        },
    decreases rows.len(),
{
    if rows.len() > 0 {
        let front = rows.drop_last();
        let at = bucket(source.last().price, tick);
        let last = rows.len() - 1;
        lemma_prices_total_step(front, source, tick, q);
        let here = rows[last].price.0 == at;
        let earlier = has_price(front, at);
        let any = has_price(rows, at);
        assert(any == (here || earlier)) by {
            if earlier {
                let k = choose|k: int|
                    0 <= k < front.len() && (#[trigger] front[k]).price.0 == at;
                assert(rows[k].price.0 == at);
            }
            if any && !here {
                let k = choose|k: int| 0 <= k < rows.len() && (#[trigger] rows[k]).price.0 == at;
                assert(front[k].price.0 == at);
            }
        }
        assert(!(here && earlier)) by {
            if earlier {
                let k = choose|k: int|
                    0 <= k < front.len() && (#[trigger] front[k]).price.0 == at;
                assert(rows[k].price.0 < rows[last].price.0);
            }
        }
    }
}

proof fn lemma_prices_total(
    rows: Seq<DomViewRow>,
    source: Seq<DomPriceRow>,
    tick: Price,
    q: Quantity,
)
    requires
        ascending(rows),
        forall|i: int|
            0 <= i < source.len() ==> has_price(rows, bucket((#[trigger] source[i]).price, tick)),
    ensures
        prices_total(rows, source, tick, q) == source_total(source, q),
    decreases source.len(),
{
    if source.len() == 0 {
        lemma_prices_total_none(rows, source, tick, q);
    } else {
        let front = source.drop_last();
        assert forall|i: int| 0 <= i < front.len() implies has_price(
            rows,
            bucket((#[trigger] front[i]).price, tick),
        ) by {
            assert(front[i] == source[i]);
        }
        lemma_prices_total(rows, front, tick, q);
        lemma_prices_total_step(rows, source, tick, q);
        assert(source[source.len() - 1] == source.last());
    }
}

proof fn lemma_prices_total_none(
    rows: Seq<DomViewRow>,
    source: Seq<DomPriceRow>,
    tick: Price,
    q: Quantity,
)
    requires
        source.len() == 0,
    ensures
        prices_total(rows, source, tick, q) == 0,
    decreases rows.len(),
{
    if rows.len() > 0 {
        lemma_prices_total_none(rows.drop_last(), source, tick, q);
    }
}

proof fn lemma_rendered_total(
    rows: Seq<DomViewRow>,
    source: Seq<DomPriceRow>,
    tick: Price,
    q: Quantity,
)
    requires
        forall|i: int| 0 <= i < rows.len() ==> sums_up(#[trigger] rows[i], source, tick),
    ensures
        rendered_total(rows, q) == prices_total(rows, source, tick, q),
    decreases rows.len(),
{
    if rows.len() > 0 {
        let front = rows.drop_last();
        assert forall|i: int| 0 <= i < front.len() implies sums_up(
            #[trigger] front[i],
            source,
            tick,
        ) by {
            assert(front[i] == rows[i]);
        }
        lemma_rendered_total(front, source, tick, q);
        assert(sums_up(rows[rows.len() - 1], source, tick));
        assert(amount(rows.last(), q) == bucket_total(
            source,
            tick,
            rows.last().price.0 as int,
            q,
        ));
    }
}

/// Aggregation loses nothing and counts nothing twice: at any scale the rendered rows together
/// hold what the engine rows together hold, of every quantity.
pub proof fn law_aggregation_conserves(
    r: AggregatedDom,
    dom: DomRenderState,
    tick_scale: u8,
    q: Quantity,
)
    requires
        aggregates(r, dom, tick_scale),
    ensures
        rendered_total(r.rows@, q) == source_total(dom.rows@, q),
{
    if !dom.is_blank() {
        let tick = scaled(dom, tick_scale);
        lemma_rendered_total(r.rows@, dom.rows@, tick, q);
        lemma_prices_total(r.rows@, dom.rows@, tick, q);
    }
}

/// The sum of a field over the engine rows from `low` up to, and without, `high`.
pub open spec fn field_sum(
    source: Seq<DomPriceRow>,
    low: int,
    high: int,
    field: spec_fn(DomPriceRow) -> int,
) -> int
    decreases source.len(),
{
    if source.len() == 0 {
        0
    } else {
        field_sum(source.drop_last(), low, high, field) + if low <= source.last().price.0 < high {
            field(source.last())
        } else {
            0
        }
    }
}

/// A price lies in the bucket that begins at most one tick below it.
pub proof fn lemma_bucket_is(price: Price, tick: Price, low: int)
    requires
        tick.0 > 0,
        low % (tick.0 as int) == 0,
    ensures
        bucket(price, tick) == low <==> low <= price.0 < low + tick.0,
{
    lemma_bucket(price, tick);
    let at = bucket(price, tick);
    let t = tick.0 as int;
    if low <= price.0 < low + t && at != low {
        if at < low {
            lemma_gap_on_lattice(at, low, t);
        } else {
            lemma_gap_on_lattice(low, at, t);
        }
    }
}

proof fn lemma_field_sum(
    source: Seq<DomPriceRow>,
    tick: Price,
    low: int,
    q: Quantity,
    field: spec_fn(DomPriceRow) -> int,
)
    requires
        tick.0 > 0,
        low % (tick.0 as int) == 0,
        forall|row: DomPriceRow| #[trigger] field(row) == source_amount(row, q),
    ensures
        bucket_total(source, tick, low, q) == field_sum(source, low, low + tick.0, field),
    decreases source.len(),
{
    if source.len() > 0 {
        lemma_bucket_is(source.last().price, tick, low);
        lemma_field_sum(source.drop_last(), tick, low, q, field);
    }
}

/// Every field of a rendered row is the sum of the field of that name over the engine rows whose
/// price lies in the row: from its own price up to that of the next row.
pub proof fn law_fields_add_up(dom: &DomRenderState, tick_scale: u8, r: AggregatedDom, k: int)
    requires
        renders_at(*dom, tick_scale),
        call_ensures(aggregate_rows, (dom, tick_scale), r),
        0 <= k < r.rows.len(),
    ensures
        ({
            let row = r.rows@[k];
            let source = dom.rows@;
            let low = row.price.0 as int;
            let high = low + dom.tick_size.0 * tick_scale;
            &&& row.bid_size == field_sum(
                source,
                low,
                high,
                |s: DomPriceRow| s.bid_size as int,
            )
            &&& row.ask_size == field_sum(
                source,
                low,
                high,
                |s: DomPriceRow| s.ask_size as int,
            )
            &&& row.bid_orders == field_sum(
                source,
                low,
                high,
                |s: DomPriceRow| s.bid_orders as int,
            )
            &&& row.ask_orders == field_sum(
                source,
                low,
                high,
                |s: DomPriceRow| s.ask_orders as int,
            )
            &&& row.session_volume == field_sum(
                source,
                low,
                high,
                |s: DomPriceRow| s.session_volume as int,
            )
            &&& row.cb == field_sum(
                source,
                low,
                high,
                |s: DomPriceRow| s.cb as int,
            )
            &&& row.ca == field_sum(
                source,
                low,
                high,
                |s: DomPriceRow| s.ca as int,
            )
            &&& row.bid_added_5s == field_sum(
                source,
                low,
                high,
                |s: DomPriceRow| s.bid_added_5s as int,
            )
            &&& row.bid_cancelled_5s == field_sum(
                source,
                low,
                high,
                |s: DomPriceRow| s.bid_cancelled_5s as int,
            )
            &&& row.ask_added_5s == field_sum(
                source,
                low,
                high,
                |s: DomPriceRow| s.ask_added_5s as int,
            )
            &&& row.ask_cancelled_5s == field_sum(
                source,
                low,
                high,
                |s: DomPriceRow| s.ask_cancelled_5s as int,
            )
            &&& row.refresh_bid_count == field_sum(
                source,
                low,
                high,
                |s: DomPriceRow| s.refresh_agg.bid_count as int,
            )
            &&& row.refresh_ask_count == field_sum(
                source,
                low,
                high,
                |s: DomPriceRow| s.refresh_agg.ask_count as int,
            )
            &&& row.refresh_bid_hidden == field_sum(
                source,
                low,
                high,
                |s: DomPriceRow| s.refresh_agg.bid_hidden as int,
            )
            &&& row.refresh_ask_hidden == field_sum(
                source,
                low,
                high,
                |s: DomPriceRow| s.refresh_agg.ask_hidden as int,
            )
        }),
{
    let row = r.rows@[k];
    let source = dom.rows@;
    let tick = scaled(*dom, tick_scale);
    let low = row.price.0 as int;
    assert(!dom.is_blank());
    assert(sums_up(row, source, tick));
    let i = choose|i: int|
        0 <= i < source.len() && bucket((#[trigger] source[i]).price, tick) == low;
    lemma_bucket(source[i].price, tick);
    assert(amount(row, Quantity::BidSize) == bucket_total(source, tick, low, Quantity::BidSize));
    lemma_field_sum(source, tick, low, Quantity::BidSize, |s: DomPriceRow| s.bid_size as int);
    assert(amount(row, Quantity::AskSize) == bucket_total(source, tick, low, Quantity::AskSize));
    lemma_field_sum(source, tick, low, Quantity::AskSize, |s: DomPriceRow| s.ask_size as int);
    assert(amount(row, Quantity::BidOrders) == bucket_total(source, tick, low, Quantity::BidOrders));
    lemma_field_sum(source, tick, low, Quantity::BidOrders, |s: DomPriceRow| s.bid_orders as int);
    assert(amount(row, Quantity::AskOrders) == bucket_total(source, tick, low, Quantity::AskOrders));
    lemma_field_sum(source, tick, low, Quantity::AskOrders, |s: DomPriceRow| s.ask_orders as int);
    assert(amount(row, Quantity::SessionVolume) == bucket_total(source, tick, low, Quantity::SessionVolume));
    lemma_field_sum(source, tick, low, Quantity::SessionVolume, |s: DomPriceRow| s.session_volume as int);
    assert(amount(row, Quantity::Cb) == bucket_total(source, tick, low, Quantity::Cb));
    lemma_field_sum(source, tick, low, Quantity::Cb, |s: DomPriceRow| s.cb as int);
    assert(amount(row, Quantity::Ca) == bucket_total(source, tick, low, Quantity::Ca));
    lemma_field_sum(source, tick, low, Quantity::Ca, |s: DomPriceRow| s.ca as int);
    assert(amount(row, Quantity::BidAdded) == bucket_total(source, tick, low, Quantity::BidAdded));
    lemma_field_sum(source, tick, low, Quantity::BidAdded, |s: DomPriceRow| s.bid_added_5s as int);
    assert(amount(row, Quantity::BidCancelled) == bucket_total(source, tick, low, Quantity::BidCancelled));
    lemma_field_sum(source, tick, low, Quantity::BidCancelled, |s: DomPriceRow| s.bid_cancelled_5s as int);
    assert(amount(row, Quantity::AskAdded) == bucket_total(source, tick, low, Quantity::AskAdded));
    lemma_field_sum(source, tick, low, Quantity::AskAdded, |s: DomPriceRow| s.ask_added_5s as int);
    assert(amount(row, Quantity::AskCancelled) == bucket_total(source, tick, low, Quantity::AskCancelled));
    lemma_field_sum(source, tick, low, Quantity::AskCancelled, |s: DomPriceRow| s.ask_cancelled_5s as int);
    assert(amount(row, Quantity::RefreshBidCount) == bucket_total(source, tick, low, Quantity::RefreshBidCount));
    lemma_field_sum(source, tick, low, Quantity::RefreshBidCount, |s: DomPriceRow| s.refresh_agg.bid_count as int);
    assert(amount(row, Quantity::RefreshAskCount) == bucket_total(source, tick, low, Quantity::RefreshAskCount));
    lemma_field_sum(source, tick, low, Quantity::RefreshAskCount, |s: DomPriceRow| s.refresh_agg.ask_count as int);
    assert(amount(row, Quantity::RefreshBidHidden) == bucket_total(source, tick, low, Quantity::RefreshBidHidden));
    lemma_field_sum(source, tick, low, Quantity::RefreshBidHidden, |s: DomPriceRow| s.refresh_agg.bid_hidden as int);
    assert(amount(row, Quantity::RefreshAskHidden) == bucket_total(source, tick, low, Quantity::RefreshAskHidden));
    lemma_field_sum(source, tick, low, Quantity::RefreshAskHidden, |s: DomPriceRow| s.refresh_agg.ask_hidden as int);
}

proof fn lemma_lone_sum(
    source: Seq<DomPriceRow>,
    low: int,
    high: int,
    field: spec_fn(DomPriceRow) -> int,
    i: int,
)
    requires
        0 <= i < source.len(),
        forall|j: int|
            0 <= j < source.len() ==> (low <= (#[trigger] source[j]).price.0 < high <==> j == i),
    ensures
        field_sum(source, low, high, field) == field(source[i]),
    decreases source.len(),
{
    let front = source.drop_last();
    if i == source.len() - 1 {
        lemma_no_sum(front, low, high, field);
    } else {
        assert(!(low <= source[source.len() - 1].price.0 < high));
        lemma_lone_sum(front, low, high, field, i);
    }
}

proof fn lemma_no_sum(
    source: Seq<DomPriceRow>,
    low: int,
    high: int,
    field: spec_fn(DomPriceRow) -> int,
)
    requires
        forall|j: int| 0 <= j < source.len() ==> !(low <= (#[trigger] source[j]).price.0 < high),
    ensures
        field_sum(source, low, high, field) == 0,
    decreases source.len(),
{
    if source.len() > 0 {
        assert(!(low <= source[source.len() - 1].price.0 < high));
        lemma_no_sum(source.drop_last(), low, high, field);
    }
}

/// An engine row that is alone in its rendered row, as each is at the scale of one tick with one
/// engine row to a price, gives the rendered row its own fields.
pub proof fn law_lone_row_keeps_its_fields(
    dom: &DomRenderState,
    tick_scale: u8,
    r: AggregatedDom,
    k: int,
    i: int,
)
    requires
        renders_at(*dom, tick_scale),
        call_ensures(aggregate_rows, (dom, tick_scale), r),
        0 <= k < r.rows.len(),
        0 <= i < dom.rows.len(),
        forall|j: int|
            0 <= j < dom.rows.len() ==> (r.rows@[k].price.0 <= (#[trigger] dom.rows@[j]).price.0
                < r.rows@[k].price.0 + dom.tick_size.0 * tick_scale <==> j == i),
    ensures
        ({
            let row = r.rows@[k];
            let s = dom.rows@[i];
            &&& row.bid_size == s.bid_size
            &&& row.ask_size == s.ask_size
            &&& row.bid_orders == s.bid_orders
            &&& row.ask_orders == s.ask_orders
            &&& row.session_volume == s.session_volume
            &&& row.cb == s.cb
            &&& row.ca == s.ca
            &&& row.bid_added_5s == s.bid_added_5s
            &&& row.bid_cancelled_5s == s.bid_cancelled_5s
            &&& row.ask_added_5s == s.ask_added_5s
            &&& row.ask_cancelled_5s == s.ask_cancelled_5s
            &&& row.refresh_bid_count == s.refresh_agg.bid_count
            &&& row.refresh_ask_count == s.refresh_agg.ask_count
            &&& row.refresh_bid_hidden == s.refresh_agg.bid_hidden
            &&& row.refresh_ask_hidden == s.refresh_agg.ask_hidden
        }),
{
    law_fields_add_up(dom, tick_scale, r, k);
    let source = dom.rows@;
    let low = r.rows@[k].price.0 as int;
    let high = low + dom.tick_size.0 * tick_scale;
    lemma_lone_sum(source, low, high, |s: DomPriceRow| s.bid_size as int, i);
    lemma_lone_sum(source, low, high, |s: DomPriceRow| s.ask_size as int, i);
    lemma_lone_sum(source, low, high, |s: DomPriceRow| s.bid_orders as int, i);
    lemma_lone_sum(source, low, high, |s: DomPriceRow| s.ask_orders as int, i);
    lemma_lone_sum(source, low, high, |s: DomPriceRow| s.session_volume as int, i);
    lemma_lone_sum(source, low, high, |s: DomPriceRow| s.cb as int, i);
    lemma_lone_sum(source, low, high, |s: DomPriceRow| s.ca as int, i);
    lemma_lone_sum(source, low, high, |s: DomPriceRow| s.bid_added_5s as int, i);
    lemma_lone_sum(source, low, high, |s: DomPriceRow| s.bid_cancelled_5s as int, i);
    lemma_lone_sum(source, low, high, |s: DomPriceRow| s.ask_added_5s as int, i);
    lemma_lone_sum(source, low, high, |s: DomPriceRow| s.ask_cancelled_5s as int, i);
    lemma_lone_sum(source, low, high, |s: DomPriceRow| s.refresh_agg.bid_count as int, i);
    lemma_lone_sum(source, low, high, |s: DomPriceRow| s.refresh_agg.ask_count as int, i);
    lemma_lone_sum(source, low, high, |s: DomPriceRow| s.refresh_agg.bid_hidden as int, i);
    lemma_lone_sum(source, low, high, |s: DomPriceRow| s.refresh_agg.ask_hidden as int, i);
}

/// Whether a price lies in the row of that height which begins at `low`, on the lattice of the
/// height.
pub open spec fn reaches(height: int, low: Price, price: Price) -> bool {
    low.0 as int % height == 0 && low.0 <= price.0 < low.0 + height
}

/// Whether a price lies in one of the rows.
pub open spec fn shown(rows: Seq<DomViewRow>, height: int, price: Price) -> bool {
    exists|k: int| 0 <= k < rows.len() && reaches(height, (#[trigger] rows[k]).price, price)
}

/// The rendered rows stand on the lattice of the rendered tick, which is the instrument tick times
/// the scale, one above the other; each holds an engine row, and every engine row is in one. The
/// inside market and the last trade are given by the rows that hold them.
pub proof fn law_rows_cover_the_depth(dom: &DomRenderState, tick_scale: u8, r: AggregatedDom)
    requires
        renders_at(*dom, tick_scale),
        !dom.is_blank(),
        call_ensures(aggregate_rows, (dom, tick_scale), r),
    ensures
        r.tick_size == dom.tick_size,
        r.scaled_tick_size.0 == dom.tick_size.0 * tick_scale,
        ({
            let t = dom.tick_size.0 * tick_scale;
            &&& forall|k: int, m: int|
                0 <= k < m < r.rows.len() ==> (#[trigger] r.rows@[k]).price.0 < (
                #[trigger] r.rows@[m]).price.0
            &&& forall|k: int|
                0 <= k < r.rows.len() ==> (#[trigger] r.rows@[k]).source_present && exists|i: int|
                    0 <= i < dom.rows.len() && #[trigger] reaches(
                        t,
                        r.rows@[k].price,
                        dom.rows@[i].price,
                    )
            &&& forall|i: int|
                0 <= i < dom.rows.len() ==> shown(r.rows@, t, (#[trigger] dom.rows@[i]).price)
            &&& r.best_bid is Some <==> dom.best_bid is Some
            &&& r.best_bid is Some ==> reaches(t, r.best_bid->0, dom.best_bid->0)
            &&& r.best_ask is Some <==> dom.best_ask is Some
            &&& r.best_ask is Some ==> reaches(t, r.best_ask->0, dom.best_ask->0)
            &&& r.last_trade is Some <==> dom.last_trade is Some
            &&& r.last_trade is Some ==> reaches(t, r.last_trade->0, dom.last_trade->0.price)
        }),
{
    let tick = scaled(*dom, tick_scale);
    let t = dom.tick_size.0 * tick_scale;
    assert(t > 0) by (nonlinear_arith)
        requires
            t == dom.tick_size.0 * tick_scale,
            dom.tick_size.0 > 0,
            tick_scale > 0,
    ;
    assert(tick.0 == t);
    if dom.best_bid is Some {
        lemma_bucket(dom.best_bid->0, tick);
    }
    if dom.best_ask is Some {
        lemma_bucket(dom.best_ask->0, tick);
    }
    if dom.last_trade is Some {
        lemma_bucket(dom.last_trade->0.price, tick);
    }
    assert forall|k: int| 0 <= k < r.rows.len() implies (#[trigger] r.rows@[k]).source_present
        && exists|i: int|
        0 <= i < dom.rows.len() && #[trigger] reaches(t, r.rows@[k].price, dom.rows@[i].price) by {
        assert(sums_up(r.rows@[k], dom.rows@, tick));
        let i = choose|i: int|
            0 <= i < dom.rows.len() && bucket((#[trigger] dom.rows@[i]).price, tick)
                == r.rows@[k].price.0;
        lemma_bucket(dom.rows@[i].price, tick);
        assert(reaches(t, r.rows@[k].price, dom.rows@[i].price));
    }
    assert forall|i: int| 0 <= i < dom.rows.len() implies shown(
        r.rows@,
        t,
        (#[trigger] dom.rows@[i]).price,
    ) by {
        lemma_bucket(dom.rows@[i].price, tick);
        assert(has_price(r.rows@, bucket(dom.rows@[i].price, tick)));
        let k = choose|k: int|
            0 <= k < r.rows.len() && (#[trigger] r.rows@[k]).price.0 == bucket(
                dom.rows@[i].price,
                tick,
            );
        assert(reaches(t, r.rows@[k].price, dom.rows@[i].price));
    }
}

/// Panning a pinned ladder by a number of rows, upwards for a positive one, moves its anchor from
/// the row `from` that holds it by as many rendered rows, at any scale. Past the ends of the depth
/// it stays on the outermost row.
pub proof fn law_pan_moves_by_rows(
    view: &mut DomView,
    dom: &AggregatedDom,
    delta: i64,
    r: bool,
    from: Price,
)
    requires
        dom.scaled_tick_size.0 > 0,
        dom.searchable(),
        delta != 0,
        call_ensures(DomView::pan_rows, (view, dom, delta), r),
        old(view).anchor is Some,
        reaches(dom.scaled_tick_size.0 as int, from, old(view).anchor->0),
        dom.rows.len() == 0 ==> i64::MIN <= from.0 + delta * dom.scaled_tick_size.0 <= i64::MAX,
    ensures
        final(view).tick_scale == old(view).tick_scale,
        final(view).anchor is Some,
        r == ((final(view).anchor->0).0 != (old(view).anchor->0).0),
        ({
            let to = from.0 + delta * dom.scaled_tick_size.0;
            let new = (final(view).anchor->0).0;
            if dom.rows.len() == 0 {
                new == to
            } else {
                let first = dom.rows@[0].price.0;
                let last = dom.rows@[dom.rows.len() - 1].price.0;
                &&& first <= to <= last ==> new == to
                &&& to < first ==> new == first
                &&& to > last ==> new == last
            }
        }),
{
    lemma_bucket_is(old(view).anchor->0, dom.scaled_tick_size, from.0 as int);
    if dom.rows.len() > 1 {
        assert(dom.rows@[0].price.0 < dom.rows@[dom.rows.len() - 1].price.0);
    }
}

/// A pan that is taken back brings the ladder to the row where it started, as long as it did not
/// leave the depth.
pub proof fn law_pan_there_and_back(
    view: &mut DomView,
    again: &mut DomView,
    dom: &AggregatedDom,
    delta: i64,
    r: bool,
    s: bool,
    from: Price,
)
    requires
        dom.scaled_tick_size.0 > 0,
        dom.searchable(),
        dom.rows.len() > 0,
        delta != 0,
        delta > i64::MIN,
        call_ensures(DomView::pan_rows, (view, dom, delta), r),
        call_ensures(DomView::pan_rows, (again, dom, (-delta) as i64), s),
        *old(again) == *final(view),
        old(view).anchor is Some,
        reaches(dom.scaled_tick_size.0 as int, from, old(view).anchor->0),
        dom.rows@[0].price.0 <= from.0 <= dom.rows@[dom.rows.len() - 1].price.0,
        dom.rows@[0].price.0 <= from.0 + delta * dom.scaled_tick_size.0 <= dom.rows@[dom.rows.len()
            - 1].price.0,
    ensures
        final(again).anchor == Some(from),
        final(again).tick_scale == old(view).tick_scale,
{
    let t = dom.scaled_tick_size.0 as int;
    law_pan_moves_by_rows(view, dom, delta, r, from);
    let to = Price((from.0 + delta * t) as i64);
    lemma_step_on_lattice(from.0 as int, delta as int, t);
    assert(to.0 + (-delta) * t == from.0) by (nonlinear_arith)
        requires
            to.0 == from.0 + delta * t,
    ;
    assert(reaches(t, to, to));
    law_pan_moves_by_rows(again, dom, (-delta) as i64, s, to);
}

/// Whether an unpinned ladder follows the price: the middle of the inside market, to within half a
/// unit towards zero; the one side that there is; the last trade; or the middle row.
pub open spec fn leads(dom: AggregatedDom, price: int) -> bool {
    match (dom.best_bid, dom.best_ask) {
        (Some(bid), Some(ask)) => {
            let both = bid.0 + ask.0;
            both == 2 * price || both > 0 && both == 2 * price + 1 || both < 0 && both == 2 * price
                - 1
        },
        (Some(bid), None) => price == bid.0,
        (None, Some(ask)) => price == ask.0,
        (None, None) => if dom.last_trade is Some {
            price == (dom.last_trade->0).0
        } else {
            price == dom.rows@[dom.rows.len() as int / 2].price.0
        },
    }
}

/// Whether the row is the one that a ladder centers: of a pinned one, the row nearest to the one
/// that holds the anchor, and of two equally near the lower; else the first at or above the price
/// that it follows, or the last.
pub open spec fn centers(view: DomView, dom: AggregatedDom, price: Price, c: int) -> bool {
    let away = |i: int| greatest(dom.rows@[i].price.0 - price.0, price.0 - dom.rows@[i].price.0);
    &&& 0 <= c < dom.rows.len()
    &&& if view.anchor is Some {
        &&& reaches(dom.scaled_tick_size.0 as int, price, view.anchor->0)
        &&& forall|i: int|
            0 <= i < dom.rows.len() ==> away(c) <= #[trigger] away(i) && (i < c ==> away(c) < away(
                i,
            ))
    } else {
        &&& leads(dom, price.0 as int)
        &&& forall|i: int| 0 <= i < c ==> (#[trigger] dom.rows@[i]).price.0 < price.0
        &&& c == dom.rows.len() - 1 || dom.rows@[c].price.0 >= price.0
    }
}

proof fn lemma_centers(view: DomView, dom: AggregatedDom, price: Price, c: int)
    requires
        dom.searchable(),
        view.anchor is Some ==> dom.scaled_tick_size.0 > 0,
        centers(view, dom, price, c),
    ensures
        c == center_of(view, dom),
{
    let away = |i: int| greatest(dom.rows@[i].price.0 - price.0, price.0 - dom.rows@[i].price.0);
    if view.anchor is Some {
        lemma_bucket_is(view.anchor->0, dom.scaled_tick_size, price.0 as int);
        let found = nearest_index(dom.rows@, price.0 as int);
        law_nearest_row(dom.rows@, price.0 as int, c);
        assert(away(c) <= away(found) && (found < c ==> away(c) < away(found)));
    } else {
        let target = dom.followed();
        assert(target == price.0);
        lemma_lower_bound_is(dom.rows@, target);
        let at = lower_bound(dom.rows@, target);
        if at < c {
            assert(dom.rows@[at].price.0 < price.0);
        } else if c < at {
            assert(dom.rows@[c].price.0 < target);
        }
    }
}

/// A window has as many rows as asked for, or all there are; it shows the row that the ladder
/// centers, in the middle unless the depth ends before.
pub proof fn law_window_around_center(
    view: &DomView,
    dom: &AggregatedDom,
    row_count: usize,
    r: Range<usize>,
    price: Price,
    c: int,
)
    requires
        dom.searchable(),
        view.anchor is Some ==> dom.scaled_tick_size.0 > 0,
        call_ensures(DomView::window_range, (view, dom, row_count), r),
        row_count > 0,
        centers(*view, *dom, price, c),
    ensures
        r.end <= dom.rows.len(),
        r.end - r.start == row_count || r.end - r.start == dom.rows.len() && dom.rows.len()
            < row_count,
        r.start <= c < r.end,
        ({
            let middle = r.start + (r.end - r.start) / 2;
            &&& c < middle ==> r.start == 0
            &&& c > middle ==> r.end == dom.rows.len()
        }),
{
    lemma_centers(*view, *dom, price, c);
}

/// A window of no rows, or over no depth, shows nothing.
pub proof fn law_window_of_nothing(
    view: &DomView,
    dom: &AggregatedDom,
    row_count: usize,
    r: Range<usize>,
)
    requires
        row_count == 0 || dom.rows.len() == 0,
        call_ensures(DomView::window_range, (view, dom, row_count), r),
    ensures
        r.start == r.end,
{
}

/// Where a pinned window is filled up, its rows climb by one rendered tick each, with the row that
/// holds the anchor in the middle; a row of the depth is shown as it is, and where the depth has
/// none the row is empty.
pub proof fn law_filled_window(
    view: DomView,
    all: AggregatedDom,
    row_count: usize,
    r: AggregatedDom,
    from: Price,
    k: int,
)
    requires
        view.anchor is Some,
        all.scaled_tick_size.0 > 0,
        all.searchable(),
        reaches(all.scaled_tick_size.0 as int, from, view.anchor->0),
        windowed(r, all, view, row_count),
        r.rows@ != all.rows@,
        0 <= k < row_count,
        i64::MIN <= from.0 + (k - row_count as int / 2) * all.scaled_tick_size.0 <= i64::MAX,
    ensures
        r.rows.len() == row_count,
        r.rows@[k].price.0 == from.0 + (k - row_count as int / 2) * all.scaled_tick_size.0,
        forall|i: int|
            0 <= i < all.rows.len() && (#[trigger] all.rows@[i]).price == r.rows@[k].price
                ==> r.rows@[k] == all.rows@[i],
        (forall|i: int|
            0 <= i < all.rows.len() ==> (#[trigger] all.rows@[i]).price != r.rows@[k].price) ==> {
            let row = r.rows@[k];
            &&& !row.source_present
            &&& row.bid_size == 0 && row.ask_size == 0 && row.bid_orders == 0 && row.ask_orders == 0
            &&& row.session_volume == 0 && row.cb == 0 && row.ca == 0
            &&& row.bid_added_5s == 0 && row.bid_cancelled_5s == 0
            &&& row.ask_added_5s == 0 && row.ask_cancelled_5s == 0
            &&& row.refresh_bid_count == 0 && row.refresh_ask_count == 0
            &&& row.refresh_bid_hidden == 0 && row.refresh_ask_hidden == 0
        },
{
    let t = all.scaled_tick_size.0 as int;
    let m = row_count as int / 2;
    lemma_bucket_is(view.anchor->0, all.scaled_tick_size, from.0 as int);
    let price = lattice_start(view.anchor->0, all.scaled_tick_size, row_count) + k * t;
    assert(price == from.0 + (k - m) * t) by (nonlinear_arith)
        requires
            price == from.0 - m * t + k * t,
    ;
    assert(r.rows@[k] == row_at(all.rows@, price));
    lemma_lower_bound_is(all.rows@, price);
    let at = lower_bound(all.rows@, price);
    assert forall|i: int|
        0 <= i < all.rows.len() && (#[trigger] all.rows@[i]).price == r.rows@[k].price implies
        r.rows@[k] == all.rows@[i] by {
        if i < at {
            assert(all.rows@[i].price.0 < price);
        } else if at < i {
            assert(all.rows@[at].price.0 < all.rows@[i].price.0);
        }
    }
    if at < all.rows.len() && all.rows@[at].price.0 == price {
        assert(all.rows@[at].price == r.rows@[k].price);
    }
}

/// A view that is recentered has no anchor of its own and reports whether it had one; its scale
/// stays. To recenter again changes nothing.
pub proof fn law_recenter(view: &mut DomView, again: &mut DomView, r: bool, s: bool)
    requires
        call_ensures(DomView::recenter, (view,), r),
        *old(again) == *final(view),
        call_ensures(DomView::recenter, (again,), s),
    ensures
        final(view).anchor is None,
        final(view).tick_scale == old(view).tick_scale,
        r <==> old(view).anchor is Some,
        !s,
        *final(again) == *final(view),
{
}

/// A scale that is set is the scale from then on, and the report says whether it is a new one; the
/// anchor stays.
pub proof fn law_scale_set(view: &mut DomView, again: &mut DomView, scale: u8, r: bool, s: bool)
    requires
        scale == 1 || scale == 2 || scale == 4,
        call_ensures(DomView::set_tick_scale, (view, scale), r),
        *old(again) == *final(view),
        call_ensures(DomView::set_tick_scale, (again, scale), s),
    ensures
        final(view).tick_scale == scale,
        final(view).anchor == old(view).anchor,
        r <==> old(view).tick_scale != scale,
        !s,
        *final(again) == *final(view),
{
}

} // verus!
