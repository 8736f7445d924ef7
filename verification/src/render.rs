//! The engine's render state, as far as the panes read it.

use crate::event::Price;
use vstd::prelude::*;

verus! {

/// Refresh activity at one price.
#[derive(Clone, Copy, Debug, PartialEq, Eq, Default)]
pub struct RefreshAgg {
    pub bid_count: u32,
    pub ask_count: u32,
    pub bid_hidden: u64,
    pub ask_hidden: u64,
}

/// One instrument-tick row of the engine's depth.
#[derive(Clone, Copy, Debug)]
pub struct DomPriceRow {
    pub price: Price,
    pub bid_size: u64,
    pub ask_size: u64,
    pub bid_orders: u32,
    pub ask_orders: u32,
    pub session_volume: u64,
    pub cb: u64,
    pub ca: u64,
    pub bid_added_5s: u32,
    pub bid_cancelled_5s: u32,
    pub ask_added_5s: u32,
    pub ask_cancelled_5s: u32,
    pub refresh_agg: RefreshAgg,
}

/// The last trade.
#[derive(Clone, Copy, Debug, PartialEq, Eq, Structural)]
pub struct LastTrade {
    pub price: Price,
}

/// The depth that the engine publishes, in ascending price order.
#[derive(Debug)]
pub struct DomRenderState {
    pub tick_size: Price,
    pub best_bid: Option<Price>,
    pub best_ask: Option<Price>,
    pub last_trade: Option<LastTrade>,
    pub rows: Vec<DomPriceRow>,
}

impl DomRenderState {
    /// Whether this is the state before the engine published anything.
    pub open spec fn is_blank(self) -> bool {
        &&& self.tick_size == Price(0)
        &&& self.best_bid is None
        &&& self.best_ask is None
        &&& self.last_trade is None
        &&& self.rows.len() == 0
    }

    /// Whether this is the state before the engine published anything.
    pub fn blank(&self) -> (r: bool)
        ensures
            r == self.is_blank(),
    {
        self.tick_size.0 == 0 && self.best_bid.is_none() && self.best_ask.is_none()
            && self.last_trade.is_none() && self.rows.len() == 0
    }
}

impl Default for DomPriceRow {
    fn default() -> (r: DomPriceRow)
        ensures
            r == (DomPriceRow {
                price: Price(0),
                bid_size: 0,
                ask_size: 0,
                bid_orders: 0,
                ask_orders: 0,
                session_volume: 0,
                cb: 0,
                ca: 0,
                bid_added_5s: 0,
                bid_cancelled_5s: 0,
                ask_added_5s: 0,
                ask_cancelled_5s: 0,
                refresh_agg: RefreshAgg { bid_count: 0, ask_count: 0, bid_hidden: 0, ask_hidden: 0 },
            }),
    {
        DomPriceRow {
            price: Price(0),
            bid_size: 0,
            ask_size: 0,
            bid_orders: 0,
            ask_orders: 0,
            session_volume: 0,
            cb: 0,
            ca: 0,
            bid_added_5s: 0,
            bid_cancelled_5s: 0,
            ask_added_5s: 0,
            ask_cancelled_5s: 0,
            refresh_agg: RefreshAgg { bid_count: 0, ask_count: 0, bid_hidden: 0, ask_hidden: 0 },
        }
    }
}

impl Default for DomRenderState {
    fn default() -> (r: DomRenderState)
        ensures
            r.is_blank(),
    {
        DomRenderState {
            tick_size: Price(0),
            best_bid: None,
            best_ask: None,
            last_trade: None,
            rows: Vec::new(),
        }
    }
}

/// One instrument-tick row of a session's profile.
#[derive(Clone, Copy, Debug)]
pub struct ProfilePriceRow {
    pub price: Price,
    /// Periods of the whole session that traded here, one bit each.
    pub eth_periods: u64,
    /// Periods of regular hours that traded here, one bit each.
    pub rth_periods: u64,
    pub session_volume: u64,
    pub period_volume: u64,
    pub buy_volume: u64,
    pub sell_volume: u64,
}

/// One session's profile, in ascending price order.
#[derive(Debug)]
pub struct ProfileSessionRender {
    /// Trade date, in days since 1970-01-01.
    pub trade_date: u32,
    pub open: Option<Price>,
    pub vpoc: Option<Price>,
    pub vah: Option<Price>,
    pub val: Option<Price>,
    pub ib_low: Option<Price>,
    pub ib_high: Option<Price>,
    pub current_period: u32,
    pub period_gap: bool,
    pub rows: Vec<ProfilePriceRow>,
}

/// The profiles that the engine publishes, the one on display first.
#[derive(Debug)]
pub struct ProfileRenderState {
    pub sessions: Vec<ProfileSessionRender>,
}

/// One coherent state of everything on display.
#[derive(Debug)]
pub struct RenderSnapshot {
    pub symbol: String,
    pub profile: ProfileRenderState,
    pub dom: DomRenderState,
}

impl Default for ProfilePriceRow {
    fn default() -> (r: ProfilePriceRow)
        ensures
            r == (ProfilePriceRow {
                price: Price(0),
                eth_periods: 0,
                rth_periods: 0,
                session_volume: 0,
                period_volume: 0,
                buy_volume: 0,
                sell_volume: 0,
            }),
    {
        ProfilePriceRow {
            price: Price(0),
            eth_periods: 0,
            rth_periods: 0,
            session_volume: 0,
            period_volume: 0,
            buy_volume: 0,
            sell_volume: 0,
        }
    }
}

impl Default for ProfileSessionRender {
    fn default() -> (r: ProfileSessionRender)
        ensures
            r.trade_date == 0,
            r.open is None,
            r.vpoc is None,
            r.vah is None,
            r.val is None,
            r.ib_low is None,
            r.ib_high is None,
            r.current_period == 0,
            !r.period_gap,
            r.rows.len() == 0,
    {
        ProfileSessionRender {
            trade_date: 0,
            open: None,
            vpoc: None,
            vah: None,
            val: None,
            ib_low: None,
            ib_high: None,
            current_period: 0,
            period_gap: false,
            rows: Vec::new(),
        }
    }
}

impl Default for ProfileRenderState {
    fn default() -> (r: ProfileRenderState)
        ensures
            r.sessions.len() == 0,
    {
        ProfileRenderState { sessions: Vec::new() }
    }
}

impl Default for RenderSnapshot {
    fn default() -> (r: RenderSnapshot)
        ensures
            r.symbol@ == Seq::<char>::empty(),
            r.profile.sessions.len() == 0,
            r.dom.is_blank(),
    {
        RenderSnapshot {
            symbol: String::new(),
            profile: ProfileRenderState::default(),
            dom: DomRenderState::default(),
        }
    }
}

} // verus!
