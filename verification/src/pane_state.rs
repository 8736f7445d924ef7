//! The panes' shared navigation, hover and splitter state.
//!
//! Ratios, zooms and pointer positions are kept as the bit patterns of single-precision
//! numbers: what is done here is to hold them and hand them over, never to compute with them.

use crate::dom_view::{half, valid_scale};
use crate::event::Price;
use crate::mp_view::{display_session, displayed};
use crate::num::{greatest, least};
use crate::render::{DomRenderState, ProfileRenderState};
use vstd::prelude::*;

verus! {

/// A pane.
#[derive(Clone, Copy, Debug, PartialEq, Eq, Structural)]
pub enum Pane {
    MarketProfile,
    Dom,
}

/// The ratio that the splitter starts at: forty-eight hundredths.
pub const DEFAULT_RATIO_BITS: u32 = 0x3ef5_c28f;

/// The zoom that the profile starts at: one.
pub const DEFAULT_ZOOM_BITS: u32 = 0x3f80_0000;

/// A splitter that takes the latest pointer position alone.
#[derive(Clone, Copy, Debug, PartialEq, Eq, Structural)]
pub struct SplitterState {
    ratio_bits: u32,
    dragging: bool,
    pending_bits: Option<u32>,
}

/// A splitter, by its parts.
pub struct SplitterView {
    pub ratio_bits: u32,
    pub dragging: bool,
    pub pending: Option<u32>,
}

impl View for SplitterState {
    type V = SplitterView;

    closed spec fn view(&self) -> SplitterView {
        SplitterView {
            ratio_bits: self.ratio_bits,
            dragging: self.dragging,
            pending: self.pending_bits,
        }
    }
}

impl Default for SplitterState {
    fn default() -> (r: SplitterState)
        ensures
            r@ == (SplitterView { ratio_bits: DEFAULT_RATIO_BITS, dragging: false, pending: None }),
    {
        SplitterState { ratio_bits: DEFAULT_RATIO_BITS, dragging: false, pending_bits: None }
    }
}

impl SplitterState {
    /// The ratio.
    pub fn ratio_bits(&self) -> (r: u32)
        ensures
            r == self@.ratio_bits,
    {
        self.ratio_bits
    }

    /// Sets the ratio.
    pub fn set_ratio_bits(&mut self, ratio_bits: u32)
        ensures
            final(self)@ == (SplitterView { ratio_bits, ..old(self)@ }),
    {
        self.ratio_bits = ratio_bits;
    }

    /// Starts a drag at a pointer position.
    pub fn begin(&mut self, x_bits: u32)
        ensures
            final(self)@ == (SplitterView {
                dragging: true,
                pending: Some(x_bits),
                ..old(self)@
            }),
    {
        self.dragging = true;
        self.queue(x_bits);
    }

    /// Takes a pointer position in place of the one before, while a drag is on.
    pub fn queue(&mut self, x_bits: u32)
        ensures
            final(self)@ == if old(self)@.dragging {
                SplitterView { pending: Some(x_bits), ..old(self)@ }
            } else {
                old(self)@
            },
    {
        if self.dragging {
            self.pending_bits = Some(x_bits);
        }
    }

    /// Ends the drag; a position that was not consumed yet stays.
    pub fn end(&mut self)
        ensures
            final(self)@ == (SplitterView { dragging: false, ..old(self)@ }),
    {
        self.dragging = false;
    }

    /// Ends the drag and forgets its position.
    pub fn cancel(&mut self)
        ensures
            final(self)@ == (SplitterView { dragging: false, pending: None, ..old(self)@ }),
    {
        self.dragging = false;
        self.pending_bits = None;
    }

    /// Whether a drag is on.
    pub fn is_dragging(&self) -> (r: bool)
        ensures
            r == self@.dragging,
    {
        self.dragging
    }

    /// The position to move to, if there is one. A width that cannot be used, as in the middle
    /// of a resize, leaves it for later.
    pub fn consume(&mut self, usable_width: bool) -> (r: Option<u32>)
        ensures
            r == if usable_width {
                old(self)@.pending
            } else {
                None
            },
            final(self)@ == if usable_width {
                SplitterView { pending: None, ..old(self)@ }
            } else {
                old(self)@
            },
    {
        if !usable_width {
            return None;
        }
        let pending: Option<u32> = self.pending_bits;
        self.pending_bits = None;
        pending
    }
}

/// The panes' state.
#[derive(Clone, Copy, Debug, PartialEq, Eq, Structural)]
pub struct PaneState {
    /// None follows the inside market; a price is shared by both panes.
    pub center: Option<Price>,
    pub mp_scale: u8,
    pub dom_scale: u8,
    pub mp_zoom_bits: u32,
    pub hovered: Option<Pane>,
    pub dom_visible: bool,
    pub splitter: SplitterState,
}

/// What of the panes' state lasts from one run to the next.
#[derive(Clone, Copy, Debug, PartialEq, Eq, Structural)]
pub struct PanePrefsSnapshot {
    pub mp_scale: u8,
    pub dom_scale: u8,
    pub splitter_ratio_bits: u32,
    pub mp_zoom_bits: u32,
}

/// What of the panes' state lasts.
pub open spec fn lasting(state: PaneState) -> PanePrefsSnapshot {
    PanePrefsSnapshot {
        mp_scale: state.mp_scale,
        dom_scale: state.dom_scale,
        splitter_ratio_bits: state.splitter@.ratio_bits,
        mp_zoom_bits: state.mp_zoom_bits,
    }
}

impl Default for PaneState {
    fn default() -> (r: PaneState)
        ensures
            r.center is None,
            r.mp_scale == 1,
            r.dom_scale == 1,
            r.mp_zoom_bits == DEFAULT_ZOOM_BITS,
            r.hovered is None,
            !r.dom_visible,
            r.splitter@ == (SplitterView {
                ratio_bits: DEFAULT_RATIO_BITS,
                dragging: false,
                pending: None,
            }),
    {
        PaneState {
            center: None,
            mp_scale: 1,
            dom_scale: 1,
            mp_zoom_bits: DEFAULT_ZOOM_BITS,
            hovered: None,
            dom_visible: false,
            splitter: SplitterState::default(),
        }
    }
}

impl PaneState {
    /// The state that a run starts with.
    pub fn from_prefs(prefs: &PanePrefsSnapshot) -> (r: PaneState)
        requires
            valid_scale(prefs.mp_scale),
            valid_scale(prefs.dom_scale),
        ensures
            r.center is None,
            r.hovered is None,
            !r.dom_visible,
            lasting(r) == *prefs,
            r.splitter@ == (SplitterView {
                ratio_bits: prefs.splitter_ratio_bits,
                dragging: false,
                pending: None,
            }),
    {
        let mut state: PaneState = PaneState::default();
        state.apply_prefs_snapshot(prefs);
        state
    }

    /// What of the state lasts.
    pub fn prefs_snapshot(&self) -> (r: PanePrefsSnapshot)
        ensures
            r == lasting(*self),
    {
        PanePrefsSnapshot {
            mp_scale: self.mp_scale,
            dom_scale: self.dom_scale,
            splitter_ratio_bits: self.splitter.ratio_bits(),
            mp_zoom_bits: self.mp_zoom_bits,
        }
    }

    /// Takes over what lasts.
    pub fn apply_prefs_snapshot(&mut self, prefs: &PanePrefsSnapshot)
        requires
            valid_scale(prefs.mp_scale),
            valid_scale(prefs.dom_scale),
        ensures
            lasting(*final(self)) == *prefs,
            final(self).splitter@ == (SplitterView {
                ratio_bits: prefs.splitter_ratio_bits,
                ..old(self).splitter@
            }),
            final(self).center == old(self).center,
            final(self).hovered == old(self).hovered,
            final(self).dom_visible == old(self).dom_visible,
    {
        self.mp_scale = prefs.mp_scale;
        self.dom_scale = prefs.dom_scale;
        self.mp_zoom_bits = prefs.mp_zoom_bits;
        self.splitter.set_ratio_bits(prefs.splitter_ratio_bits);
    }

    /// The center of both panes: the shared one, or what the market shows.
    pub fn effective_center(&self, dom: &DomRenderState) -> (r: Option<Price>)
        ensures
            r == centered(*self, *dom),
    {
        match self.center {
            Some(price) => Some(price),
            None => raw_follow_center(dom),
        }
    }

    /// The center of both panes, kept inside what can be navigated.
    pub fn navigation_center(&self, profile: &ProfileRenderState, dom: &DomRenderState) -> (r:
        Option<Price>)
        requires
            centered(*self, *dom) is Some ==> range_ascends(reach(*profile, *dom)),
        ensures
            r == clamped(centered(*self, *dom), reach(*profile, *dom)),
    {
        clamp_center(self.effective_center(dom), navigation_range(profile, dom))
    }

    /// Whether the depth is on display.
    pub fn dom_visible(&self) -> (r: bool)
        ensures
            r == self.dom_visible,
    {
        self.dom_visible
    }

    /// Shows or hides the depth; whether it is shown now. Hiding it takes the hover off it and
    /// cancels a drag of the splitter; navigation and the ratio stay.
    pub fn toggle_dom(&mut self) -> (r: bool)
        ensures
            r == !old(self).dom_visible,
            final(self).dom_visible == r,
            final(self).center == old(self).center,
            final(self).mp_scale == old(self).mp_scale,
            final(self).dom_scale == old(self).dom_scale,
            final(self).mp_zoom_bits == old(self).mp_zoom_bits,
            final(self).hovered == if !r && old(self).hovered == Some(Pane::Dom) {
                None
            } else {
                old(self).hovered
            },
            final(self).splitter@ == if r {
                old(self).splitter@
            } else {
                SplitterView { dragging: false, pending: None, ..old(self).splitter@ }
            },
    {
        self.dom_visible = !self.dom_visible;
        if !self.dom_visible {
            if let Some(Pane::Dom) = self.hovered {
                self.hovered = None;
            }
            self.splitter.cancel();
        }
        self.dom_visible
    }

    /// Takes note that the pointer entered or left a pane.
    pub fn set_hovered(&mut self, pane: Pane, hovered: bool)
        ensures
            *final(self) == (PaneState {
                hovered: if hovered {
                    Some(pane)
                } else if old(self).hovered == Some(pane) {
                    None
                } else {
                    old(self).hovered
                },
                ..*old(self)
            }),
    {
        if hovered {
            self.hovered = Some(pane);
        } else if let Some(over) = self.hovered {
            if over == pane {
                self.hovered = None;
            }
        }
    }

    /// Sets the scale of the hovered pane alone; whether it changed.
    pub fn set_hovered_scale(&mut self, scale: u8) -> (r: bool)
        requires
            valid_scale(scale),
        ensures
            *final(self) == match old(self).hovered {
                Some(Pane::MarketProfile) => PaneState { mp_scale: scale, ..*old(self) },
                Some(Pane::Dom) => PaneState { dom_scale: scale, ..*old(self) },
                None => *old(self),
            },
            r == (*final(self) != *old(self)),
    {
        match self.hovered {
            Some(Pane::MarketProfile) => {
                let changed: bool = self.mp_scale != scale;
                self.mp_scale = scale;
                changed
            },
            Some(Pane::Dom) => {
                let changed: bool = self.dom_scale != scale;
                self.dom_scale = scale;
                changed
            },
            None => false,
        }
    }

    /// Gives the other pane the scale of the hovered one; whether it changed.
    pub fn sync_scale_from_hovered(&mut self) -> (r: bool)
        ensures
            *final(self) == match old(self).hovered {
                Some(Pane::MarketProfile) => PaneState {
                    dom_scale: old(self).mp_scale,
                    ..*old(self)
                },
                Some(Pane::Dom) => PaneState { mp_scale: old(self).dom_scale, ..*old(self) },
                None => *old(self),
            },
            r == (*final(self) != *old(self)),
    {
        match self.hovered {
            Some(Pane::MarketProfile) => {
                let changed: bool = self.dom_scale != self.mp_scale;
                self.dom_scale = self.mp_scale;
                changed
            },
            Some(Pane::Dom) => {
                let changed: bool = self.mp_scale != self.dom_scale;
                self.mp_scale = self.dom_scale;
                changed
            },
            None => false,
        }
    }

    /// Goes back to following the market; whether a center was pinned.
    pub fn recenter(&mut self) -> (r: bool)
        ensures
            *final(self) == (PaneState { center: None, ..*old(self) }),
            r == (old(self).center is Some),
    {
        let pinned: bool = self.center.is_some();
        self.center = None;
        pinned
    }

    /// Keeps the shared center inside what can be navigated.
    pub fn clamp_center(&mut self, profile: &ProfileRenderState, dom: &DomRenderState)
        requires
            old(self).center is Some ==> range_ascends(reach(*profile, *dom)),
        ensures
            *final(self) == (PaneState {
                center: clamped(old(self).center, reach(*profile, *dom)),
                ..*old(self)
            }),
    {
        self.center = clamp_center(self.center, navigation_range(profile, dom));
    }
}

/// The center that the panes show.
pub open spec fn centered(state: PaneState, dom: DomRenderState) -> Option<Price> {
    match state.center {
        Some(price) => Some(price),
        None => followed(dom),
    }
}

/// The center that the market shows: the middle of the inside market, the one side there is,
/// the last trade, or the middle row.
pub open spec fn followed(dom: DomRenderState) -> Option<Price> {
    match (dom.best_bid, dom.best_ask, dom.last_trade) {
        (Some(bid), Some(ask), _) => Some(Price(half(bid.0 + ask.0) as i64)),
        (Some(bid), None, _) => Some(bid),
        (None, Some(ask), _) => Some(ask),
        (None, None, Some(last)) => Some(last.price),
        (None, None, None) => if dom.rows.len() > 0 {
            Some(dom.rows@[dom.rows.len() as int / 2].price)
        } else {
            None
        },
    }
}

/// The prices from the first to the last row of the profile on display.
pub open spec fn profile_reach(profile: ProfileRenderState) -> Option<(Price, Price)> {
    match displayed(profile) {
        Some(session) => if session.rows.len() > 0 {
            Some((session.rows@[0].price, session.rows@[session.rows.len() - 1].price))
        } else {
            None
        },
        None => None,
    }
}

/// The prices from the first to the last row of the depth.
pub open spec fn dom_reach(dom: DomRenderState) -> Option<(Price, Price)> {
    if dom.rows.len() > 0 {
        Some((dom.rows@[0].price, dom.rows@[dom.rows.len() - 1].price))
    } else {
        None
    }
}

/// What can be navigated: from the lowest to the highest price of either pane.
pub open spec fn reach(profile: ProfileRenderState, dom: DomRenderState) -> Option<
    (Price, Price),
> {
    match (profile_reach(profile), dom_reach(dom)) {
        (Some(a), Some(b)) => Some(
            (
                Price(least((a.0).0 as int, (b.0).0 as int) as i64),
                Price(greatest((a.1).0 as int, (b.1).0 as int) as i64),
            ),
        ),
        (Some(a), None) => Some(a),
        (None, Some(b)) => Some(b),
        (None, None) => None,
    }
}

/// Whether a range goes up.
pub open spec fn range_ascends(range: Option<(Price, Price)>) -> bool {
    range is Some ==> ((range->0).0).0 <= ((range->0).1).0
}

/// A center kept inside a range.
pub open spec fn clamped(center: Option<Price>, range: Option<(Price, Price)>) -> Option<Price> {
    match (center, range) {
        (Some(price), Some((first, last))) => Some(
            Price(greatest(first.0 as int, least(price.0 as int, last.0 as int)) as i64),
        ),
        _ => center,
    }
}

/// What can be navigated: from the lowest to the highest price of either pane.
pub fn navigation_range(profile: &ProfileRenderState, dom: &DomRenderState) -> (r: Option<
    (Price, Price),
>)
    ensures
        r == reach(*profile, *dom),
{
    let of_profile: Option<(Price, Price)> = match display_session(profile) {
        Some(session) => if session.rows.len() > 0 {
            Some((session.rows[0].price, session.rows[session.rows.len() - 1].price))
        } else {
            None
        },
        None => None,
    };
    let of_dom: Option<(Price, Price)> = if dom.rows.len() > 0 {
        Some((dom.rows[0].price, dom.rows[dom.rows.len() - 1].price))
    } else {
        None
    };
    match (of_profile, of_dom) {
        (Some((a_first, a_last)), Some((b_first, b_last))) => {
            let first: Price = if a_first.0 <= b_first.0 {
                a_first
            } else {
                b_first
            };
            let last: Price = if a_last.0 >= b_last.0 {
                a_last
            } else {
                b_last
            };
            Some((first, last))
        },
        (Some(range), None) => Some(range),
        (None, Some(range)) => Some(range),
        (None, None) => None,
    }
}

/// A center kept inside a range, where there is one.
pub fn clamp_center(center: Option<Price>, range: Option<(Price, Price)>) -> (r: Option<Price>)
    requires
        center is Some ==> range_ascends(range),
    ensures
        r == clamped(center, range),
{
    match (center, range) {
        (Some(price), Some((first, last))) => {
            if price.0 < first.0 {
                Some(first)
            } else if price.0 > last.0 {
                Some(last)
            } else {
                Some(price)
            }
        },
        _ => center,
    }
}

/// The center after a pan by rendered rows.
pub fn pan_center(center: Price, tick: Price, scale: u8, delta: i64) -> (r: Price)
    requires
        valid_scale(scale),
        tick.0 > 0,
        i64::MIN <= center.0 + delta * tick.0 * scale <= i64::MAX,
    ensures
        r.0 == center.0 + delta * tick.0 * scale,
{
    assert(-0x4000_0000_0000_0000_0000_0000_0000_0000 <= delta * tick.0
        <= 0x4000_0000_0000_0000_0000_0000_0000_0000) by (nonlinear_arith)
        requires
            i64::MIN <= delta <= i64::MAX,
            0 < tick.0 <= i64::MAX,
    ;
    let step: i128 = delta as i128 * tick.0 as i128;
    assert(step * scale == delta * tick.0 * scale);
    Price((center.0 as i128 + step * scale as i128) as i64)
}

/// The center that the market shows.
pub fn raw_follow_center(dom: &DomRenderState) -> (r: Option<Price>)
    ensures
        r == followed(*dom),
{
    match (dom.best_bid, dom.best_ask, dom.last_trade) {
        (Some(bid), Some(ask), _) => {
            let sum: i128 = bid.0 as i128 + ask.0 as i128;
            if sum >= 0 {
                Some(Price((sum / 2) as i64))
            } else {
                Some(Price((-((-sum) / 2)) as i64))
            }
        },
        (Some(bid), None, _) => Some(bid),
        (None, Some(ask), _) => Some(ask),
        (None, None, Some(last)) => Some(last.price),
        (None, None, None) => if dom.rows.len() > 0 {
            Some(dom.rows[dom.rows.len() / 2].price)
        } else {
            None
        },
    }
}

/// A center is inside the range that it was kept in, and keeping it there again changes
/// nothing.
pub proof fn law_clamp(center: Option<Price>, range: Option<(Price, Price)>)
    requires
        range_ascends(range),
    ensures
        clamped(clamped(center, range), range) == clamped(center, range),
        center is Some && range is Some ==> ((range->0).0).0 <= (clamped(center, range)->0).0
            <= ((range->0).1).0,
{
}

/// A center inside the range stays where it is; one outside it goes to the end that it is beyond.
/// Without a range, or without a center, nothing changes.
pub proof fn law_clamp_center(
    center: Option<Price>,
    range: Option<(Price, Price)>,
    r: Option<Price>,
)
    requires
        range_ascends(range),
        call_ensures(clamp_center, (center, range), r),
    ensures
        center is None || range is None ==> r == center,
        center is Some && range is Some ==> r is Some && {
            let (first, last) = range->0;
            &&& (center->0).0 < first.0 ==> r->0 == first
            &&& (center->0).0 > last.0 ==> r->0 == last
            &&& first.0 <= (center->0).0 <= last.0 ==> r->0 == center->0
        },
{
}

/// Whether the price is the middle between two, to within half a unit towards zero.
pub open spec fn between(a: Price, b: Price, price: Price) -> bool {
    let both = a.0 + b.0;
    both == 2 * price.0 || both > 0 && both == 2 * price.0 + 1 || both < 0 && both == 2 * price.0
        - 1
}

/// Unpinned panes show the middle of the inside market; with one side of it, that side; without
/// either, the last trade; without that, the row in the middle of the depth; and nothing at all
/// where there is no depth.
pub proof fn law_follows_the_market(dom: &DomRenderState, r: Option<Price>)
    requires
        call_ensures(raw_follow_center, (dom,), r),
    ensures
        dom.best_bid is Some && dom.best_ask is Some ==> r is Some && between(
            dom.best_bid->0,
            dom.best_ask->0,
            r->0,
        ),
        dom.best_bid is Some && dom.best_ask is None ==> r == dom.best_bid,
        dom.best_bid is None && dom.best_ask is Some ==> r == dom.best_ask,
        dom.best_bid is None && dom.best_ask is None && dom.last_trade is Some ==> r is Some
            && r->0 == dom.last_trade->0.price,
        dom.best_bid is None && dom.best_ask is None && dom.last_trade is None ==> {
            &&& r is None <==> dom.rows.len() == 0
            &&& r is Some ==> r->0 == dom.rows@[dom.rows.len() as int / 2].price
        },
{
}

/// A pinned center is what both panes show, and without one they follow the market; what they
/// navigate to is that center kept inside the range.
pub proof fn law_pinned_center_leads(
    state: &PaneState,
    profile: &ProfileRenderState,
    dom: &DomRenderState,
    followed: Option<Price>,
    range: Option<(Price, Price)>,
    shown: Option<Price>,
    kept: Option<Price>,
    r: Option<Price>,
)
    requires
        call_ensures(raw_follow_center, (dom,), followed),
        call_ensures(navigation_range, (profile, dom), range),
        call_ensures(PaneState::effective_center, (state, dom), shown),
        call_ensures(clamp_center, (shown, range), kept),
        call_ensures(PaneState::navigation_center, (state, profile, dom), r),
    ensures
        state.center is Some ==> shown == state.center,
        state.center is None ==> shown == followed,
        r == kept,
{
}

/// What can be navigated holds the first and the last row of the profile on display and of the
/// depth, and ends at rows of theirs; there is a range where either has a row.
pub proof fn law_range_holds_both_panes(
    profile: &ProfileRenderState,
    dom: &DomRenderState,
    r: Option<(Price, Price)>,
)
    requires
        call_ensures(navigation_range, (profile, dom), r),
    ensures
        ({
            let drawn = profile.sessions.len() > 0 && profile.sessions@[0].rows.len() > 0;
            let deep = dom.rows.len() > 0;
            let rows = profile.sessions@[0].rows@;
            let (first, last) = r->0;
            &&& r is Some <==> drawn || deep
            &&& drawn ==> first.0 <= rows[0].price.0 && rows[rows.len() - 1].price.0 <= last.0
            &&& deep ==> first.0 <= dom.rows@[0].price.0 && dom.rows@[dom.rows.len() - 1].price.0
                <= last.0
            &&& r is Some ==> drawn && first.0 == rows[0].price.0 || deep && first.0
                == dom.rows@[0].price.0
            &&& r is Some ==> drawn && last.0 == rows[rows.len() - 1].price.0 || deep && last.0
                == dom.rows@[dom.rows.len() - 1].price.0
        }),
{
}

/// A pan by a number of rows, upwards for a positive one, moves the center by as many rendered
/// ticks, as a pan of the profile around the same center does.
pub proof fn law_pans_agree(
    session: &crate::render::ProfileSessionRender,
    center: Price,
    tick: Price,
    scale: u8,
    delta: i64,
    r: Price,
    s: Option<Price>,
)
    requires
        session.rows.len() > 0,
        call_ensures(pan_center, (center, tick, scale, delta), r),
        call_ensures(
            crate::mp_view::pan_center,
            (session, tick, scale, Some(center), delta),
            s,
        ),
        i64::MIN <= center.0 + delta * (tick.0 * scale) <= i64::MAX,
    ensures
        r.0 - center.0 == delta * (tick.0 * scale),
        s == Some(r),
        tick.0 > 0 && scale > 0 && delta > 0 ==> r.0 > center.0,
        tick.0 > 0 && scale > 0 && delta < 0 ==> r.0 < center.0,
{
    let t = tick.0 * scale;
    assert(delta * tick.0 * scale == delta * t) by (nonlinear_arith)
        requires
            t == tick.0 * scale,
    ;
    crate::mp_view::law_pan_moves_by_rows(session, tick, scale, Some(center), delta, s, center.0);
}

/// What lasts of the panes' state comes back when a run starts with it: the two scales, the zoom
/// and the splitter's ratio; nothing else does.
pub proof fn law_prefs_come_back(state: &PaneState, prefs: PanePrefsSnapshot, r: PaneState)
    requires
        call_ensures(PaneState::prefs_snapshot, (state,), prefs),
        call_ensures(PaneState::from_prefs, (&prefs,), r),
    ensures
        prefs.mp_scale == state.mp_scale,
        prefs.dom_scale == state.dom_scale,
        prefs.mp_zoom_bits == state.mp_zoom_bits,
        prefs.splitter_ratio_bits == state.splitter@.ratio_bits,
        r.mp_scale == state.mp_scale,
        r.dom_scale == state.dom_scale,
        r.mp_zoom_bits == state.mp_zoom_bits,
        r.splitter@.ratio_bits == state.splitter@.ratio_bits,
        r.center is None,
        r.hovered is None,
        !r.dom_visible,
        !r.splitter@.dragging,
        r.splitter@.pending is None,
{
}

/// Taking over what lasts keeps where the panes are.
pub proof fn law_prefs_taken_over(state: &mut PaneState, prefs: &PanePrefsSnapshot)
    requires
        call_ensures(PaneState::apply_prefs_snapshot, (state, prefs), ()),
    ensures
        final(state).mp_scale == prefs.mp_scale,
        final(state).dom_scale == prefs.dom_scale,
        final(state).mp_zoom_bits == prefs.mp_zoom_bits,
        final(state).splitter@.ratio_bits == prefs.splitter_ratio_bits,
        final(state).splitter@.dragging == old(state).splitter@.dragging,
        final(state).splitter@.pending == old(state).splitter@.pending,
        final(state).center == old(state).center,
        final(state).hovered == old(state).hovered,
        final(state).dom_visible == old(state).dom_visible,
{
}

/// Showing and hiding the depth undo each other, and keep the navigation and the ratio. While the
/// depth is hidden the pointer is not over it, and no drag goes on.
pub proof fn law_toggle_twice(state: &mut PaneState, again: &mut PaneState, r: bool, s: bool)
    requires
        call_ensures(PaneState::toggle_dom, (state,), r),
        call_ensures(PaneState::toggle_dom, (again,), s),
        *old(again) == *final(state),
    ensures
        r == final(state).dom_visible,
        r != old(state).dom_visible,
        s == old(state).dom_visible,
        final(again).dom_visible == old(state).dom_visible,
        final(again).center == old(state).center,
        final(again).mp_scale == old(state).mp_scale,
        final(again).dom_scale == old(state).dom_scale,
        final(again).mp_zoom_bits == old(state).mp_zoom_bits,
        final(again).splitter@.ratio_bits == old(state).splitter@.ratio_bits,
        !r ==> final(state).hovered != Some(Pane::Dom) && !final(state).splitter@.dragging
            && final(state).splitter@.pending is None,
        old(state).hovered == Some(Pane::MarketProfile) ==> final(state).hovered == Some(
            Pane::MarketProfile,
        ),
        r ==> final(state).splitter@ == old(state).splitter@ && final(state).hovered == old(
            state,
        ).hovered,
{
}

/// The pane that the pointer entered is hovered, until it leaves that one.
pub proof fn law_hover(state: &mut PaneState, again: &mut PaneState, pane: Pane, left: Pane)
    requires
        call_ensures(PaneState::set_hovered, (state, pane, true), ()),
        call_ensures(PaneState::set_hovered, (again, left, false), ()),
        *old(again) == *final(state),
    ensures
        final(state).hovered == Some(pane),
        left == pane ==> final(again).hovered is None,
        left != pane ==> final(again).hovered == Some(pane),
        final(again).center == old(state).center,
        final(again).mp_scale == old(state).mp_scale,
        final(again).dom_scale == old(state).dom_scale,
        final(again).dom_visible == old(state).dom_visible,
{
}

/// A new scale is that of the hovered pane, and the other pane keeps its own; giving the other
/// pane the scale of the hovered one then makes the two the same. Neither moves the center.
pub proof fn law_scales(
    state: &mut PaneState,
    again: &mut PaneState,
    scale: u8,
    r: bool,
    s: bool,
)
    requires
        call_ensures(PaneState::set_hovered_scale, (state, scale), r),
        call_ensures(PaneState::sync_scale_from_hovered, (again,), s),
        *old(again) == *final(state),
    ensures
        old(state).hovered == Some(Pane::MarketProfile) ==> {
            &&& final(state).mp_scale == scale
            &&& final(state).dom_scale == old(state).dom_scale
            &&& r == (old(state).mp_scale != scale)
            &&& final(again).mp_scale == scale
            &&& final(again).dom_scale == scale
            &&& s == (old(state).dom_scale != scale)
        },
        old(state).hovered == Some(Pane::Dom) ==> {
            &&& final(state).dom_scale == scale
            &&& final(state).mp_scale == old(state).mp_scale
            &&& r == (old(state).dom_scale != scale)
            &&& final(again).mp_scale == scale
            &&& final(again).dom_scale == scale
            &&& s == (old(state).mp_scale != scale)
        },
        old(state).hovered is None ==> !r && !s && *final(again) == *old(state),
        final(again).center == old(state).center,
        final(again).hovered == old(state).hovered,
{
}

/// A drag moves to the position that came last, once: what was queued before it is gone, and
/// nothing is left behind. A position that comes while no drag is on does not count.
pub proof fn law_latest_position(
    begun: &mut SplitterState,
    moved: &mut SplitterState,
    taken: &mut SplitterState,
    again: &mut SplitterState,
    x: u32,
    y: u32,
    r: Option<u32>,
    s: Option<u32>,
)
    requires
        call_ensures(SplitterState::begin, (begun, x), ()),
        call_ensures(SplitterState::queue, (moved, y), ()),
        call_ensures(SplitterState::consume, (taken, true), r),
        call_ensures(SplitterState::consume, (again, true), s),
        *old(moved) == *final(begun),
        *old(taken) == *final(moved),
        *old(again) == *final(taken),
    ensures
        final(begun)@.pending == Some(x),
        final(begun)@.dragging,
        r == Some(y),
        s is None,
        final(taken)@.dragging,
        final(again)@.ratio_bits == old(begun)@.ratio_bits,
{
}

/// The end of a drag keeps its last position, and cancelling it does not; without a drag no
/// position is taken, and one is kept while the width cannot be used.
pub proof fn law_end_of_a_drag(
    ended: &mut SplitterState,
    cancelled: &mut SplitterState,
    queued: &mut SplitterState,
    kept: &mut SplitterState,
    x: u32,
    r: Option<u32>,
)
    requires
        call_ensures(SplitterState::end, (ended,), ()),
        call_ensures(SplitterState::cancel, (cancelled,), ()),
        call_ensures(SplitterState::queue, (queued, x), ()),
        call_ensures(SplitterState::consume, (kept, false), r),
    ensures
        !final(ended)@.dragging,
        final(ended)@.pending == old(ended)@.pending,
        !final(cancelled)@.dragging,
        final(cancelled)@.pending is None,
        !old(queued)@.dragging ==> final(queued)@.pending == old(queued)@.pending,
        !old(queued)@.dragging ==> !final(queued)@.dragging,
        r is None,
        final(kept)@.pending == old(kept)@.pending,
        final(ended)@.ratio_bits == old(ended)@.ratio_bits,
        final(cancelled)@.ratio_bits == old(cancelled)@.ratio_bits,
{
}

/// Panes that are recentered follow the market again; nothing else of them changes, and the report
/// says whether they were held elsewhere.
pub proof fn law_recenter(panes: &mut PaneState, again: &mut PaneState, r: bool, s: bool)
    requires
        call_ensures(PaneState::recenter, (panes,), r),
        *old(again) == *final(panes),
        call_ensures(PaneState::recenter, (again,), s),
    ensures
        final(panes).center is None,
        final(panes).mp_scale == old(panes).mp_scale,
        final(panes).dom_scale == old(panes).dom_scale,
        final(panes).mp_zoom_bits == old(panes).mp_zoom_bits,
        final(panes).hovered == old(panes).hovered,
        final(panes).dom_visible == old(panes).dom_visible,
        final(panes).splitter == old(panes).splitter,
        r <==> old(panes).center is Some,
        !s,
{
}

/// A splitter gives back the ratio that was set.
pub proof fn law_ratio_set(splitter: &mut SplitterState, bits: u32, r: u32, before: bool, after: bool)
    requires
        call_ensures(SplitterState::is_dragging, (&*old(splitter),), before),
        call_ensures(SplitterState::set_ratio_bits, (splitter, bits), ()),
        call_ensures(SplitterState::ratio_bits, (&*final(splitter),), r),
        call_ensures(SplitterState::is_dragging, (&*final(splitter),), after),
    ensures
        r == bits,
        after == before,
{
}

} // verus!
