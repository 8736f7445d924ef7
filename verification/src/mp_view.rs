//! Market profile rows at a tick scale, their letters, and how they agree with the depth.

use crate::datetime::{civil_day, civil_from_days, date_of, law_date_of, valid_date};
use crate::dom_view::{
    bucket, bucket_fits, bucket_price, half, lattice_fits, lattice_start, lemma_bucket,
    lemma_bucket_is, lemma_step_on_lattice, reaches, valid_scale,
};
use crate::event::Price;
use crate::render::{
    DomPriceRow, DomRenderState, ProfilePriceRow, ProfileRenderState, ProfileSessionRender,
};
use crate::text::{digits_value, law_padded_round_trip, lemma_two_digits, padded, push_padded};
use vstd::prelude::*;

verus! {

/// Periods of a whole session.
pub const ETH_PERIOD_COUNT: usize = 46;

/// Periods before regular hours begin.
pub const RTH_OFFSET: usize = 31;

/// Periods of regular hours.
pub const RTH_PERIOD_COUNT: usize = 13;

/// Which clock a letter belongs to.
#[derive(Clone, Copy, Debug, PartialEq, Eq, Structural)]
pub enum TpoKind {
    Eth,
    Rth,
}

/// One rendered row of a profile.
#[derive(Clone, Copy, Debug, PartialEq, Eq, Structural)]
pub struct MpRow {
    pub price: Price,
    pub eth_periods: u64,
    pub rth_periods: u64,
    pub session_volume: u64,
    pub period_volume: u64,
    pub buy_volume: u64,
    pub sell_volume: u64,
}

impl Default for MpRow {
    fn default() -> (r: MpRow)
        ensures
            r == (MpRow {
                price: Price(0),
                eth_periods: 0,
                rth_periods: 0,
                session_volume: 0,
                period_volume: 0,
                buy_volume: 0,
                sell_volume: 0,
            }),
    {
        MpRow {
            price: Price(0),
            eth_periods: 0,
            rth_periods: 0,
            session_volume: 0,
            period_volume: 0,
            buy_volume: 0,
            sell_volume: 0,
        }
    }
}

/// The rows of a profile that a viewport shows.
#[derive(Debug)]
pub struct VisibleProfile {
    pub scaled_tick: Price,
    pub rows: Vec<MpRow>,
}

/// The session on display: the first.
pub open spec fn displayed(profile: ProfileRenderState) -> Option<ProfileSessionRender> {
    if profile.sessions.len() > 0 {
        Some(profile.sessions@[0])
    } else {
        None
    }
}

/// The session on display, if there is one.
pub fn display_session(profile: &ProfileRenderState) -> (r: Option<&ProfileSessionRender>)
    ensures
        match r {
            Some(session) => displayed(*profile) == Some(*session),
            None => displayed(*profile) is None,
        },
{
    if profile.sessions.len() > 0 {
        Some(&profile.sessions[0])
    } else {
        None
    }
}

/// The letter of a period: capitals first, then small letters.
pub open spec fn letter(index: int) -> char {
    if index < 26 {
        (65 + index) as char
    } else {
        (97 + index - 26) as char
    }
}

/// The letter of a period.
pub fn period_letter(index: usize) -> (r: char)
    requires
        index < 52,
    ensures
        r == letter(index as int),
{
    if index < 26 {
        let code: u8 = 65 + index as u8;
        code as char
    } else {
        let code: u8 = 97 + (index - 26) as u8;
        code as char
    }
}

/// Whether a period's bit is set.
pub open spec fn has_period(periods: u64, index: int) -> bool {
    periods & (1u64 << (index as u64)) != 0
}

/// What is shown in the column of a period. Regular hours have their own clock, which starts
/// again at A; outside them the session's clock runs on.
pub open spec fn tpo_at(eth: u64, rth: u64, column: int) -> Option<(usize, char, TpoKind)> {
    if RTH_OFFSET <= column < RTH_OFFSET + RTH_PERIOD_COUNT {
        if has_period(rth, column - RTH_OFFSET) {
            Some((column as usize, letter(column - RTH_OFFSET), TpoKind::Rth))
        } else {
            None
        }
    } else if has_period(eth, column) {
        Some((column as usize, letter(column), TpoKind::Eth))
    } else {
        None
    }
}

/// What is shown in the columns before `end`, from left to right.
pub open spec fn tpos(eth: u64, rth: u64, end: int) -> Seq<(usize, char, TpoKind)>
    decreases end,
{
    if end <= 0 {
        Seq::empty()
    } else {
        match tpo_at(eth, rth, end - 1) {
            Some(tpo) => tpos(eth, rth, end - 1).push(tpo),
            None => tpos(eth, rth, end - 1),
        }
    }
}

/// The occupied columns of a row, with their letters.
pub fn for_each_tpo(eth: u64, rth: u64) -> (r: Vec<(usize, char, TpoKind)>)
    requires
        eth < 0x4000_0000_0000,
        rth < 0x2000,
    ensures
        r@ == tpos(eth, rth, ETH_PERIOD_COUNT as int),
{
    let mut out: Vec<(usize, char, TpoKind)> = Vec::new();
    let mut column: usize = 0;
    while column < ETH_PERIOD_COUNT
        invariant
            column <= ETH_PERIOD_COUNT,
            out@ == tpos(eth, rth, column as int),
        decreases ETH_PERIOD_COUNT - column,
    {
        if RTH_OFFSET <= column && column < RTH_OFFSET + RTH_PERIOD_COUNT {
            let index: usize = column - RTH_OFFSET;
            if rth & (1u64 << (index as u64)) != 0 {
                out.push((column, period_letter(index), TpoKind::Rth));
            }
        } else if eth & (1u64 << (column as u64)) != 0 {
            out.push((column, period_letter(column), TpoKind::Eth));
        }
        column += 1;
    }
    out
}

/// The volumes of a row.
pub enum Volume {
    Session,
    Period,
    Buy,
    Sell,
}

/// A volume of an engine row.
pub open spec fn source_volume(row: ProfilePriceRow, v: Volume) -> int {
    match v {
        Volume::Session => row.session_volume as int,
        Volume::Period => row.period_volume as int,
        Volume::Buy => row.buy_volume as int,
        Volume::Sell => row.sell_volume as int,
    }
}

/// A volume of a rendered row.
pub open spec fn volume(row: MpRow, v: Volume) -> int {
    match v {
        Volume::Session => row.session_volume as int,
        Volume::Period => row.period_volume as int,
        Volume::Buy => row.buy_volume as int,
        Volume::Sell => row.sell_volume as int,
    }
}

/// What the engine rows of a bucket hold of a volume.
pub open spec fn total(source: Seq<ProfilePriceRow>, tick: Price, price: int, v: Volume) -> int
    decreases source.len(),
{
    if source.len() == 0 {
        0
    } else {
        total(source.drop_last(), tick, price, v) + if bucket(source.last().price, tick) == price {
            source_volume(source.last(), v)
        } else {
            0
        }
    }
}

/// The periods that any engine row of a bucket traded in, of the session or of regular hours.
pub open spec fn periods(
    source: Seq<ProfilePriceRow>,
    tick: Price,
    price: int,
    regular: bool,
) -> u64
    decreases source.len(),
{
    if source.len() == 0 {
        0
    } else if bucket(source.last().price, tick) == price {
        periods(source.drop_last(), tick, price, regular) | (if regular {
            source.last().rth_periods
        } else {
            source.last().eth_periods
        })
    } else {
        periods(source.drop_last(), tick, price, regular)
    }
}

/// Whether a rendered row is what the engine rows of its bucket come to.
pub open spec fn gathers(row: MpRow, source: Seq<ProfilePriceRow>, tick: Price) -> bool {
    &&& row.eth_periods == periods(source, tick, row.price.0 as int, false)
    &&& row.rth_periods == periods(source, tick, row.price.0 as int, true)
    &&& forall|v: Volume| #[trigger]
        volume(row, v) == total(source, tick, row.price.0 as int, v)
}

/// Whether prices strictly ascend.
pub open spec fn climbing(rows: Seq<ProfilePriceRow>) -> bool {
    forall|i: int, j: int| 0 <= i < j < rows.len() ==> (#[trigger] rows[i]).price.0 < (
    #[trigger] rows[j]).price.0
}

/// The tick of a rendered row.
pub open spec fn scaled_tick(tick: Price, scale: u8) -> Price {
    Price((tick.0 * scale) as i64)
}

/// The price that a viewport is centered on: the one asked for, or the middle of the profile.
pub open spec fn center_price(
    session: ProfileSessionRender,
    tick: Price,
    center: Option<Price>,
) -> Price {
    match center {
        Some(price) => price,
        None => Price(
            half(
                bucket(session.rows@[0].price, tick) + bucket(
                    session.rows@[session.rows.len() - 1].price,
                    tick,
                ),
            ) as i64,
        ),
    }
}

/// Whether a viewport of the profile can be rendered: its tick is positive, its rows ascend,
/// and neither a price nor a sum that it shows leaves its range.
pub open spec fn viewport_fits(
    session: ProfileSessionRender,
    tick: Price,
    scale: u8,
    center: Option<Price>,
    max_rows: usize,
) -> bool {
    let scaled = scaled_tick(tick, scale);
    let start = lattice_start(center_price(session, scaled, center), scaled, max_rows);
    &&& tick.0 > 0
    &&& tick.0 * scale <= i64::MAX
    &&& climbing(session.rows@)
    &&& forall|i: int|
        0 <= i < session.rows.len() ==> bucket_fits((#[trigger] session.rows@[i]).price, scaled)
    &&& bucket_fits(center_price(session, scaled, center), scaled)
    &&& lattice_fits(center_price(session, scaled, center), scaled, max_rows)
    &&& forall|price: int, v: Volume|
        start <= price <= start + (max_rows - 1) * scaled.0 ==> #[trigger] total(
            session.rows@,
            scaled,
            price,
            v,
        ) <= u64::MAX
}

/// Whether `r` shows `max_rows` rows around the center, each what the profile holds at its
/// price.
pub open spec fn shows(
    r: VisibleProfile,
    session: ProfileSessionRender,
    tick: Price,
    scale: u8,
    center: Option<Price>,
    max_rows: usize,
) -> bool {
    if session.rows.len() == 0 || max_rows == 0 {
        r.scaled_tick == Price(0) && r.rows.len() == 0
    } else {
        let scaled = scaled_tick(tick, scale);
        let start = lattice_start(center_price(session, scaled, center), scaled, max_rows);
        &&& r.scaled_tick == scaled
        &&& r.rows.len() == max_rows
        &&& forall|k: int|
            0 <= k < max_rows ==> (#[trigger] r.rows@[k]).price.0 == start + k * scaled.0
                && gathers(r.rows@[k], session.rows@, scaled)
    }
}

proof fn lemma_total_step(source: Seq<ProfilePriceRow>, k: int, tick: Price, price: int, v: Volume)
    requires
        0 <= k < source.len(),
    ensures
        total(source.take(k + 1), tick, price, v) == total(source.take(k), tick, price, v) + if bucket(
            source[k].price,
            tick,
        ) == price {
            source_volume(source[k], v)
        } else {
            0
        },
{
    assert(source.take(k + 1).drop_last() =~= source.take(k));
    assert(source.take(k + 1).last() == source[k]);
}

proof fn lemma_total_bound(source: Seq<ProfilePriceRow>, k: int, tick: Price, price: int, v: Volume)
    requires
        0 <= k <= source.len(),
    ensures
        total(source.take(k), tick, price, v) <= total(source, tick, price, v),
    decreases source.len() - k,
{
    if k < source.len() {
        lemma_total_step(source, k, tick, price, v);
        lemma_total_bound(source, k + 1, tick, price, v);
    } else {
        assert(source.take(k) =~= source);
    }
}

proof fn lemma_periods_step(
    source: Seq<ProfilePriceRow>,
    k: int,
    tick: Price,
    price: int,
    regular: bool,
)
    requires
        0 <= k < source.len(),
    ensures
        periods(source.take(k + 1), tick, price, regular) == if bucket(source[k].price, tick)
            == price {
            periods(source.take(k), tick, price, regular) | (if regular {
                source[k].rth_periods
            } else {
                source[k].eth_periods
            })
        } else {
            periods(source.take(k), tick, price, regular)
        },
{
    assert(source.take(k + 1).drop_last() =~= source.take(k));
    assert(source.take(k + 1).last() == source[k]);
}

/// Adds an engine row to its bucket.
fn merge(target: &mut MpRow, source: &ProfilePriceRow)
    requires
        forall|v: Volume| #[trigger] volume(*old(target), v) + source_volume(*source, v) <= u64::MAX,
    ensures
        final(target).price == old(target).price,
        final(target).eth_periods == old(target).eth_periods | source.eth_periods,
        final(target).rth_periods == old(target).rth_periods | source.rth_periods,
        forall|v: Volume| #[trigger]
            volume(*final(target), v) == volume(*old(target), v) + source_volume(*source, v),
{
    proof {
        let row = *target;
        assert(volume(row, Volume::Session) + source_volume(*source, Volume::Session) <= u64::MAX);
        assert(volume(row, Volume::Period) + source_volume(*source, Volume::Period) <= u64::MAX);
        assert(volume(row, Volume::Buy) + source_volume(*source, Volume::Buy) <= u64::MAX);
        assert(volume(row, Volume::Sell) + source_volume(*source, Volume::Sell) <= u64::MAX);
    }
    target.eth_periods = target.eth_periods | source.eth_periods;
    target.rth_periods = target.rth_periods | source.rth_periods;
    target.session_volume = target.session_volume + source.session_volume;
    target.period_volume = target.period_volume + source.period_volume;
    target.buy_volume = target.buy_volume + source.buy_volume;
    target.sell_volume = target.sell_volume + source.sell_volume;
}

/// Half a sum of two prices, rounded towards zero.
fn half_sum(a: i64, b: i64) -> (r: i64)
    ensures
        r == half(a + b),
{
    let sum: i128 = a as i128 + b as i128;
    if sum >= 0 {
        (sum / 2) as i64
    } else {
        (-((-sum) / 2)) as i64
    }
}

/// Empty rows on the lattice from `start` on.
fn blank_rows(start: i64, tick: i64, count: usize) -> (r: Vec<MpRow>)
    requires
        tick > 0,
        count > 0,
        count <= i64::MAX,
        (count - 1) * tick <= i64::MAX,
        start + (count - 1) * tick <= i64::MAX,
    ensures
        r.len() == count,
        forall|k: int|
            0 <= k < count ==> #[trigger] r@[k] == (MpRow {
                price: Price((start + k * tick) as i64),
                eth_periods: 0,
                rth_periods: 0,
                session_volume: 0,
                period_volume: 0,
                buy_volume: 0,
                sell_volume: 0,
            }),
        forall|k: int| 0 <= k < count ==> (#[trigger] r@[k]).price.0 == start + k * tick,
{
    let mut rows: Vec<MpRow> = Vec::new();
    let mut index: usize = 0;
    while index < count
        invariant
            index <= count,
            tick > 0,
            count <= i64::MAX,
            (count - 1) * tick <= i64::MAX,
            start + (count - 1) * tick <= i64::MAX,
            rows.len() == index,
            forall|k: int|
                0 <= k < index ==> #[trigger] rows@[k] == (MpRow {
                    price: Price((start + k * tick) as i64),
                    eth_periods: 0,
                    rth_periods: 0,
                    session_volume: 0,
                    period_volume: 0,
                    buy_volume: 0,
                    sell_volume: 0,
                }),
            forall|k: int| 0 <= k < index ==> (#[trigger] rows@[k]).price.0 == start + k * tick,
        decreases count - index,
    {
        assert(0 <= index * tick <= (count - 1) * tick) by (nonlinear_arith)
            requires
                0 <= index <= count - 1,
                tick > 0,
        ;
        rows.push(
            MpRow {
                price: Price(start + index as i64 * tick),
                eth_periods: 0,
                rth_periods: 0,
                session_volume: 0,
                period_volume: 0,
                buy_volume: 0,
                sell_volume: 0,
            },
        );
        index += 1;
    }
    rows
}

/// The rows of a profile that a viewport of `max_rows` rows shows around `center`.
pub fn visible_rows(
    session: &ProfileSessionRender,
    tick: Price,
    scale: u8,
    center: Option<Price>,
    max_rows: usize,
) -> (r: VisibleProfile)
    requires
        valid_scale(scale),
        session.rows.len() > 0 && max_rows > 0 ==> viewport_fits(
            *session,
            tick,
            scale,
            center,
            max_rows,
        ),
    ensures
        shows(r, *session, tick, scale, center, max_rows),
{
    if session.rows.len() == 0 || max_rows == 0 {
        return VisibleProfile { scaled_tick: Price(0), rows: Vec::new() };
    }
    let scaled: Price = Price(tick.0 * scale as i64);
    let t: i64 = scaled.0;
    assert(scaled == scaled_tick(tick, scale));
    let last_row: usize = session.rows.len() - 1;
    let asked: Price = match center {
        Some(price) => price,
        None => {
            let first: Price = bucket_price(session.rows[0].price, scaled);
            let last: Price = bucket_price(session.rows[last_row].price, scaled);
            Price(half_sum(first.0, last.0))
        },
    };
    assert(asked == center_price(*session, scaled, center));
    let desired: Price = bucket_price(asked, scaled);
    let below: i64 = (max_rows / 2) as i64;
    proof {
        lemma_bucket(asked, scaled);
        assert(0 <= below * t <= (max_rows - 1) * t || below == max_rows) by (nonlinear_arith)
            requires
                below == max_rows as int / 2,
                max_rows > 0,
                t > 0,
        ;
    }
    let start: i64 = desired.0 - below * t;
    proof {
        lemma_step_on_lattice(desired.0 as int, -below as int, t as int);
        assert((-below) * t == -(below * t)) by (nonlinear_arith);
    }
    let mut rows: Vec<MpRow> = blank_rows(start, t, max_rows);
    let end: i64 = rows[max_rows - 1].price.0;
    let mut i: usize = 0;
    proof {
        assert(session.rows@.take(0) =~= Seq::<ProfilePriceRow>::empty());
        assert forall|k: int| 0 <= k < max_rows implies gathers(
            #[trigger] rows@[k],
            session.rows@.take(0),
            scaled,
        ) by {
            assert forall|v: Volume| #[trigger] volume(rows@[k], v) == total(
                session.rows@.take(0),
                scaled,
                rows@[k].price.0 as int,
                v,
            ) by {}
        }
    }
    while i < session.rows.len()
        invariant
            i <= session.rows.len(),
            max_rows > 0,
            scaled == scaled_tick(tick, scale),
            t == scaled.0,
            t > 0,
            viewport_fits(*session, tick, scale, center, max_rows),
            start as int % t as int == 0,
            start == lattice_start(center_price(*session, scaled, center), scaled, max_rows),
            end == start + (max_rows - 1) * t,
            rows.len() == max_rows,
            forall|k: int| 0 <= k < max_rows ==> (#[trigger] rows@[k]).price.0 == start + k * t,
            forall|k: int|
                0 <= k < max_rows ==> gathers(
                    #[trigger] rows@[k],
                    session.rows@.take(i as int),
                    scaled,
                ),
        decreases session.rows.len() - i,
    {
        let ghost before = rows@;
        let ghost source_rows = session.rows@;
        let source: &ProfilePriceRow = &session.rows[i];
        let price: Price = bucket_price(source.price, scaled);
        proof {
            lemma_bucket(source.price, scaled);
        }
        if price.0 >= start && price.0 <= end {
            let index: usize = place(price.0, start, t, max_rows);
            let mut row: MpRow = rows[index];
            proof {
                assert(gathers(before[index as int], source_rows.take(i as int), scaled));
                assert forall|v: Volume| #[trigger] volume(row, v) + source_volume(*source, v)
                    <= u64::MAX by {
                    lemma_total_step(source_rows, i as int, scaled, price.0 as int, v);
                    lemma_total_bound(source_rows, i + 1, scaled, price.0 as int, v);
                    assert(volume(before[index as int], v) == total(
                        source_rows.take(i as int),
                        scaled,
                        price.0 as int,
                        v,
                    ));
                }
            }
            merge(&mut row, source);
            rows.set(index, row);
        }
        proof {
            assert forall|k: int| 0 <= k < max_rows implies gathers(
                #[trigger] rows@[k],
                source_rows.take(i + 1),
                scaled,
            ) && rows@[k].price.0 == start + k * t by {
                let p = before[k].price.0 as int;
                assert(p == start + k * t);
                lemma_periods_step(source_rows, i as int, scaled, p, false);
                lemma_periods_step(source_rows, i as int, scaled, p, true);
                assert(gathers(before[k], source_rows.take(i as int), scaled));
                if p == price.0 {
                    assert(start <= p <= end) by (nonlinear_arith)
                        requires
                            p == start + k * t,
                            end == start + (max_rows - 1) * t,
                            0 <= k <= max_rows - 1,
                            t > 0,
                    ;
                }
                assert forall|v: Volume| #[trigger] volume(rows@[k], v) == total(
                    source_rows.take(i + 1),
                    scaled,
                    p,
                    v,
                ) by {
                    lemma_total_step(source_rows, i as int, scaled, p, v);
                    assert(volume(before[k], v) == total(
                        source_rows.take(i as int),
                        scaled,
                        p,
                        v,
                    ));
                    lemma_same_place(p, price.0 as int, start as int, t as int, k);
                }
                lemma_same_place(p, price.0 as int, start as int, t as int, k);
            }
        }
        i += 1;
    }
    assert(session.rows@.take(i as int) =~= session.rows@);
    VisibleProfile { scaled_tick: scaled, rows }
}

/// The row of a price that lies on the lattice.
fn place(price: i64, start: i64, tick: i64, count: usize) -> (r: usize)
    requires
        tick > 0,
        count > 0,
        count <= i64::MAX,
        start <= price <= start + (count - 1) * tick,
        start as int % tick as int == 0,
        price as int % tick as int == 0,
    ensures
        r < count,
        price == start + r * tick,
{
    let delta: i128 = price as i128 - start as i128;
    let row: i128 = delta / tick as i128;
    proof {
        let d = delta as int;
        let t = tick as int;
        let q = row as int;
        vstd::arithmetic::div_mod::lemma_fundamental_div_mod(d, t);
        vstd::arithmetic::div_mod::lemma_sub_mod_noop(price as int, start as int, t);
        vstd::arithmetic::div_mod::lemma_small_mod(0, t as nat);
        assert(d % t == 0);
        assert(d == q * t) by (nonlinear_arith)
            requires
                d == t * q + d % t,
                d % t == 0,
        ;
        assert(0 <= q <= count - 1) by (nonlinear_arith)
            requires
                d == q * t,
                0 <= d <= (count - 1) * t,
                t > 0,
        ;
    }
    row as usize
}

proof fn lemma_same_place(p: int, price: int, start: int, t: int, k: int)
    requires
        t > 0,
        p == start + k * t,
    ensures
        forall|m: int| #![trigger start + m * t] price == start + m * t && m != k ==> p != price,
{
    assert forall|m: int| #![trigger start + m * t] price == start + m * t && m != k implies p
        != price by {
        assert(k * t != m * t) by (nonlinear_arith)
            requires
                k != m,
                t > 0,
        ;
    }
}

/// The price that a pan moves the center to.
pub open spec fn panned(
    session: ProfileSessionRender,
    tick: Price,
    scale: u8,
    center: Option<Price>,
    delta: i64,
) -> int {
    let current = match center {
        Some(price) => price.0 as int,
        None => half(
            session.rows@[0].price.0 + session.rows@[session.rows.len() - 1].price.0,
        ),
    };
    current + delta * (tick.0 * scale)
}

/// The center after a pan by rendered rows; none while there is no profile.
pub fn pan_center(
    session: &ProfileSessionRender,
    tick: Price,
    scale: u8,
    center: Option<Price>,
    delta: i64,
) -> (r: Option<Price>)
    requires
        valid_scale(scale),
        session.rows.len() > 0 ==> {
            &&& tick.0 > 0
            &&& tick.0 * scale <= i64::MAX
            &&& i64::MIN <= panned(*session, tick, scale, center, delta) <= i64::MAX
        },
    ensures
        session.rows.len() == 0 ==> r is None,
        session.rows.len() > 0 ==> r == Some(
            Price(panned(*session, tick, scale, center, delta) as i64),
        ),
{
    if session.rows.len() == 0 {
        return None;
    }
    let scaled: i64 = tick.0 * scale as i64;
    let current: i64 = match center {
        Some(price) => price.0,
        None => half_sum(session.rows[0].price.0, session.rows[session.rows.len() - 1].price.0),
    };
    assert(-0x4000_0000_0000_0000_0000_0000_0000_0000 <= delta * scaled
        <= 0x4000_0000_0000_0000_0000_0000_0000_0000) by (nonlinear_arith)
        requires
            i64::MIN <= delta <= i64::MAX,
            0 < scaled <= i64::MAX,
    ;
    let moved: i128 = current as i128 + delta as i128 * scaled as i128;
    Some(Price(moved as i64))
}

/// Two sources that name different volumes for one price.
#[derive(Clone, Copy, Debug, PartialEq, Eq, Structural)]
pub struct VolumeMismatch {
    pub price: Price,
    pub profile_volume: u64,
    pub dom_volume: u64,
}

/// The session volume that a profile has at a price.
pub open spec fn volume_at(rows: Seq<ProfilePriceRow>, price: Price) -> Option<u64>
    decreases rows.len(),
{
    if rows.len() == 0 {
        None
    } else if rows.last().price == price {
        Some(rows.last().session_volume)
    } else {
        volume_at(rows.drop_last(), price)
    }
}

/// What comparing the first `k` depth rows with the profile gives: how many prices they share,
/// or the first at which the volumes differ.
pub open spec fn agreement(
    rows: Seq<ProfilePriceRow>,
    depth: Seq<DomPriceRow>,
    k: nat,
) -> Result<nat, VolumeMismatch>
    decreases k,
{
    if k == 0 {
        Ok(0)
    } else {
        match agreement(rows, depth, (k - 1) as nat) {
            Err(mismatch) => Err(mismatch),
            Ok(compared) => match volume_at(rows, depth[k - 1].price) {
                None => Ok(compared),
                Some(profile_volume) => if profile_volume == depth[k - 1].session_volume {
                    Ok(compared + 1)
                } else {
                    Err(
                        VolumeMismatch {
                            price: depth[k - 1].price,
                            profile_volume,
                            dom_volume: depth[k - 1].session_volume,
                        },
                    )
                },
            },
        }
    }
}

proof fn lemma_agreement_fails(rows: Seq<ProfilePriceRow>, depth: Seq<DomPriceRow>, j: nat, k: nat)
    requires
        j <= k,
        agreement(rows, depth, j) is Err,
    ensures
        agreement(rows, depth, k) == agreement(rows, depth, j),
    decreases k,
{
    if j < k {
        lemma_agreement_fails(rows, depth, j, (k - 1) as nat);
    }
}

proof fn lemma_volume_at(rows: Seq<ProfilePriceRow>, i: int)
    requires
        climbing(rows),
        0 <= i < rows.len(),
    ensures
        volume_at(rows, rows[i].price) == Some(rows[i].session_volume),
    decreases rows.len(),
{
    let front = rows.drop_last();
    let last = rows.len() - 1;
    if i < last {
        assert(rows[i].price.0 < rows[last].price.0);
        assert(climbing(front)) by {
            assert forall|a: int, b: int| 0 <= a < b < front.len() implies (
            #[trigger] front[a]).price.0 < (#[trigger] front[b]).price.0 by {
                assert(front[a] == rows[a] && front[b] == rows[b]);
            }
        }
        lemma_volume_at(front, i);
    }
}

proof fn lemma_volume_absent(rows: Seq<ProfilePriceRow>, price: Price)
    requires
        forall|i: int| 0 <= i < rows.len() ==> (#[trigger] rows[i]).price.0 != price.0,
    ensures
        volume_at(rows, price) is None,
    decreases rows.len(),
{
    if rows.len() > 0 {
        let front = rows.drop_last();
        assert(rows[rows.len() - 1].price.0 != price.0);
        assert forall|i: int| 0 <= i < front.len() implies (#[trigger] front[i]).price.0
            != price.0 by {
            assert(front[i] == rows[i]);
        }
        lemma_volume_absent(front, price);
    }
}

/// The session volume that a profile has at a price, found by halving.
fn find_volume(rows: &Vec<ProfilePriceRow>, price: Price) -> (r: Option<u64>)
    requires
        climbing(rows@),
    ensures
        r == volume_at(rows@, price),
{
    let mut low: usize = 0;
    let mut high: usize = rows.len();
    while low < high
        invariant
            low <= high <= rows.len(),
            climbing(rows@),
            forall|i: int| 0 <= i < low ==> (#[trigger] rows@[i]).price.0 < price.0,
            forall|i: int| high <= i < rows.len() ==> (#[trigger] rows@[i]).price.0 > price.0,
        decreases high - low,
    {
        let middle: usize = low + (high - low) / 2;
        let ghost m = middle as int;
        let here: i64 = rows[middle].price.0;
        if here == price.0 {
            proof {
                lemma_volume_at(rows@, m);
                assert(rows@[m].price == price);
            }
            return Some(rows[middle].session_volume);
        } else if here < price.0 {
            assert forall|i: int| 0 <= i < m + 1 implies (#[trigger] rows@[i]).price.0
                < price.0 by {
                if i < m {
                    assert(rows@[i].price.0 < rows@[m].price.0);
                }
            }
            low = middle + 1;
        } else {
            assert forall|i: int| m <= i < rows.len() implies (#[trigger] rows@[i]).price.0
                > price.0 by {
                if m < i {
                    assert(rows@[m].price.0 < rows@[i].price.0);
                }
            }
            high = middle;
        }
    }
    proof {
        lemma_volume_absent(rows@, price);
    }
    None
}

/// Whether a profile can be searched by price, if there is one.
pub open spec fn searchable(profile: ProfileRenderState) -> bool {
    displayed(profile) is Some ==> climbing(displayed(profile)->0.rows@)
}

/// Compares the volumes of the prices that the two panes share.
pub fn check_pane_agreement(profile: &ProfileRenderState, dom: &DomRenderState) -> (r: Result<
    usize,
    VolumeMismatch,
>)
    requires
        searchable(*profile),
    ensures
        match displayed(*profile) {
            None => r == Ok::<usize, VolumeMismatch>(0),
            Some(session) => match agreement(session.rows@, dom.rows@, dom.rows.len() as nat) {
                Ok(compared) => r is Ok && r->Ok_0 == compared,
                Err(mismatch) => r == Err::<usize, VolumeMismatch>(mismatch),
            },
        },
{
    let session: &ProfileSessionRender = match display_session(profile) {
        None => return Ok(0),
        Some(session) => session,
    };
    let mut compared: usize = 0;
    let mut i: usize = 0;
    while i < dom.rows.len()
        invariant
            i <= dom.rows.len(),
            compared <= i,
            climbing(session.rows@),
            displayed(*profile) == Some(*session),
            agreement(session.rows@, dom.rows@, i as nat) == Ok::<nat, VolumeMismatch>(
                compared as nat,
            ),
        decreases dom.rows.len() - i,
    {
        let row: &DomPriceRow = &dom.rows[i];
        if let Some(profile_volume) = find_volume(&session.rows, row.price) {
            if profile_volume != row.session_volume {
                let mismatch: VolumeMismatch = VolumeMismatch {
                    price: row.price,
                    profile_volume,
                    dom_volume: row.session_volume,
                };
                proof {
                    lemma_agreement_fails(
                        session.rows@,
                        dom.rows@,
                        i as nat + 1,
                        dom.rows.len() as nat,
                    );
                }
                return Err(mismatch);
            }
            compared += 1;
        }
        i += 1;
    }
    Ok(compared)
}

/// The label of a session's opening: the day before its trade date, at six in the evening.
pub open spec fn footer_text(trade_date: int) -> Seq<char> {
    let date = date_of(trade_date - 1);
    padded(date.1 as nat, 2) + "-"@ + padded(date.2 as nat, 2) + " 18:00"@
}

/// The label of a session's opening.
pub fn session_open_footer(trade_date: u32) -> (r: String)
    requires
        trade_date > 0,
    ensures
        r@ == footer_text(trade_date as int),
{
    let (year, month, day) = civil_from_days(trade_date as i64 - 1);
    proof {
        law_date_of(year as int, month as int, day as int);
    }
    let mut out: String = String::new();
    push_padded(&mut out, month as u64, 2);
    out.append("-");
    push_padded(&mut out, day as u64, 2);
    out.append(" 18:00");
    out
}

/// The bucket of a session's opening price, if it has opened.
pub fn open_marker_bucket(session: &ProfileSessionRender, scaled_tick: Price) -> (r: Option<Price>)
    requires
        scaled_tick.0 > 0,
        session.open is Some ==> bucket_fits(session.open->0, scaled_tick),
    ensures
        match session.open {
            Some(price) => r is Some && (r->0).0 == bucket(price, scaled_tick),
            None => r is None,
        },
{
    match session.open {
        Some(price) => Some(bucket_price(price, scaled_tick)),
        None => None,
    }
}

/// The center's bucket takes the center row of the viewport, also beyond the profile.
pub proof fn law_center_row(
    r: VisibleProfile,
    session: ProfileSessionRender,
    tick: Price,
    scale: u8,
    center: Option<Price>,
    max_rows: usize,
)
    requires
        session.rows.len() > 0,
        max_rows > 0,
        tick.0 > 0,
        shows(r, session, tick, scale, center, max_rows),
    ensures
        r.rows@[max_rows as int / 2].price.0 == bucket(
            center_price(session, scaled_tick(tick, scale), center),
            scaled_tick(tick, scale),
        ),
{
}

/// The sum of a field over the engine rows from `low` up to, and without, `high`.
pub open spec fn field_sum(
    source: Seq<ProfilePriceRow>,
    low: int,
    high: int,
    field: spec_fn(ProfilePriceRow) -> int,
) -> int
    decreases source.len(),
{
    if source.len() == 0 {
        0
    } else {
        field_sum(source.drop_last(), low, high, field) + if low <= source.last().price.0 < high {
            field(source.last())
        } else {
            0
        }
    }
}

proof fn lemma_field_sum(
    source: Seq<ProfilePriceRow>,
    tick: Price,
    low: int,
    v: Volume,
    field: spec_fn(ProfilePriceRow) -> int,
)
    requires
        tick.0 > 0,
        low % (tick.0 as int) == 0,
        forall|row: ProfilePriceRow| #[trigger] field(row) == source_volume(row, v),
    ensures
        total(source, tick, low, v) == field_sum(source, low, low + tick.0, field),
    decreases source.len(),
{
    if source.len() > 0 {
        lemma_bucket_is(source.last().price, tick, low);
        lemma_field_sum(source.drop_last(), tick, low, v, field);
    }
}

/// A period is set in a bucket exactly where it is set in one of its engine rows.
proof fn lemma_periods(
    source: Seq<ProfilePriceRow>,
    tick: Price,
    low: int,
    regular: bool,
    bit: u64,
)
    requires
        tick.0 > 0,
        low % (tick.0 as int) == 0,
        bit < 64,
    ensures
        (periods(source, tick, low, regular) & (1u64 << bit) != 0) <==> exists|i: int|
            0 <= i < source.len() && low <= (#[trigger] source[i]).price.0 < low + tick.0 && ((
            if regular {
                source[i].rth_periods
            } else {
                source[i].eth_periods
            }) & (1u64 << bit)) != 0,
    decreases source.len(),
{
    if source.len() == 0 {
        assert(0u64 & (1u64 << bit) == 0) by (bit_vector);
    } else {
        let front = source.drop_last();
        let last = source.last();
        lemma_bucket_is(last.price, tick, low);
        lemma_periods(front, tick, low, regular, bit);
        let before = periods(front, tick, low, regular);
        let own = if regular {
            last.rth_periods
        } else {
            last.eth_periods
        };
        assert((before | own) & (1u64 << bit) != 0 <==> before & (1u64 << bit) != 0 || own & (1u64
            << bit) != 0) by (bit_vector);
        let n = source.len() - 1;
        if exists|i: int|
            0 <= i < front.len() && low <= (#[trigger] front[i]).price.0 < low + tick.0 && ((
            if regular {
                front[i].rth_periods
            } else {
                front[i].eth_periods
            }) & (1u64 << bit)) != 0 {
            let i = choose|i: int|
                0 <= i < front.len() && low <= (#[trigger] front[i]).price.0 < low + tick.0 && ((
                if regular {
                    front[i].rth_periods
                } else {
                    front[i].eth_periods
                }) & (1u64 << bit)) != 0;
            assert(source[i] == front[i]);
        }
        assert(source[n] == last);
        assert forall|i: int| 0 <= i < source.len() && i < n implies #[trigger] source[i]
            == front[i] by {}
    }
}

/// The volumes of a rendered row are the sums of the fields of the same names over the engine rows
/// whose price lies in the row. A period of the session, or of regular hours, is set where one of
/// those engine rows has it set in the field of that name.
pub proof fn law_rows_gather_fields(
    session: &ProfileSessionRender,
    tick: Price,
    scale: u8,
    center: Option<Price>,
    max_rows: usize,
    r: VisibleProfile,
    k: int,
)
    requires
        valid_scale(scale),
        session.rows.len() > 0,
        viewport_fits(*session, tick, scale, center, max_rows),
        call_ensures(visible_rows, (session, tick, scale, center, max_rows), r),
        0 <= k < r.rows.len(),
    ensures
        ({
            let row = r.rows@[k];
            let source = session.rows@;
            let low = row.price.0 as int;
            let high = low + tick.0 * scale;
            &&& row.session_volume == field_sum(
                source,
                low,
                high,
                |s: ProfilePriceRow| s.session_volume as int,
            )
            &&& row.period_volume == field_sum(
                source,
                low,
                high,
                |s: ProfilePriceRow| s.period_volume as int,
            )
            &&& row.buy_volume == field_sum(
                source,
                low,
                high,
                |s: ProfilePriceRow| s.buy_volume as int,
            )
            &&& row.sell_volume == field_sum(
                source,
                low,
                high,
                |s: ProfilePriceRow| s.sell_volume as int,
            )
            &&& forall|bit: u64|
                bit < 64 ==> ((row.eth_periods & #[trigger] (1u64 << bit)) != 0 <==> exists|i: int|
                    0 <= i < source.len() && low <= (#[trigger] source[i]).price.0 < high && (
                    source[i].eth_periods & (1u64 << bit)) != 0)
            &&& forall|bit: u64|
                bit < 64 ==> ((row.rth_periods & #[trigger] (1u64 << bit)) != 0 <==> exists|i: int|
                    0 <= i < source.len() && low <= (#[trigger] source[i]).price.0 < high && (
                    source[i].rth_periods & (1u64 << bit)) != 0)
        }),
{
    let row = r.rows@[k];
    let source = session.rows@;
    let t = scaled_tick(tick, scale);
    let low = row.price.0 as int;
    lemma_row_on_lattice(*session, tick, scale, center, max_rows, r, k);
    assert(volume(row, Volume::Session) == total(source, t, low, Volume::Session));
    lemma_field_sum(source, t, low, Volume::Session, |s: ProfilePriceRow| s.session_volume as int);
    assert(volume(row, Volume::Period) == total(source, t, low, Volume::Period));
    lemma_field_sum(source, t, low, Volume::Period, |s: ProfilePriceRow| s.period_volume as int);
    assert(volume(row, Volume::Buy) == total(source, t, low, Volume::Buy));
    lemma_field_sum(source, t, low, Volume::Buy, |s: ProfilePriceRow| s.buy_volume as int);
    assert(volume(row, Volume::Sell) == total(source, t, low, Volume::Sell));
    lemma_field_sum(source, t, low, Volume::Sell, |s: ProfilePriceRow| s.sell_volume as int);
    assert forall|bit: u64| bit < 64 implies ((row.eth_periods & #[trigger] (1u64 << bit)) != 0
        <==> exists|i: int|
        0 <= i < source.len() && low <= (#[trigger] source[i]).price.0 < low + t.0 && (
        source[i].eth_periods & (1u64 << bit)) != 0) by {
        lemma_periods(source, t, low, false, bit);
    }
    assert forall|bit: u64| bit < 64 implies ((row.rth_periods & #[trigger] (1u64 << bit)) != 0
        <==> exists|i: int|
        0 <= i < source.len() && low <= (#[trigger] source[i]).price.0 < low + t.0 && (
        source[i].rth_periods & (1u64 << bit)) != 0) by {
        lemma_periods(source, t, low, true, bit);
    }
}

proof fn lemma_row_on_lattice(
    session: ProfileSessionRender,
    tick: Price,
    scale: u8,
    center: Option<Price>,
    max_rows: usize,
    r: VisibleProfile,
    k: int,
)
    requires
        valid_scale(scale),
        session.rows.len() > 0,
        viewport_fits(session, tick, scale, center, max_rows),
        shows(r, session, tick, scale, center, max_rows),
        0 <= k < r.rows.len(),
    ensures
        scaled_tick(tick, scale).0 == tick.0 * scale,
        scaled_tick(tick, scale).0 > 0,
        r.rows@[k].price.0 as int % scaled_tick(tick, scale).0 as int == 0,
        r.rows@[k].price.0 == bucket(
            center_price(session, scaled_tick(tick, scale), center),
            scaled_tick(tick, scale),
        ) + (k - max_rows as int / 2) * scaled_tick(tick, scale).0,
{
    let t = scaled_tick(tick, scale);
    let asked = center_price(session, t, center);
    let m = max_rows as int / 2;
    assert(tick.0 * scale > 0) by (nonlinear_arith)
        requires
            tick.0 > 0,
            scale > 0,
    ;
    lemma_bucket(asked, t);
    let start = lattice_start(asked, t, max_rows);
    assert(r.rows@[k].price.0 == start + k * t.0);
    assert(start + k * t.0 == bucket(asked, t) + (k - m) * t.0) by (nonlinear_arith)
        requires
            start == bucket(asked, t) - m * t.0,
    ;
    lemma_step_on_lattice(bucket(asked, t), k - m, t.0 as int);
}

proof fn lemma_lone_sum(
    source: Seq<ProfilePriceRow>,
    low: int,
    high: int,
    field: spec_fn(ProfilePriceRow) -> int,
    i: int,
)
    requires
        0 <= i < source.len(),
        forall|j: int|
            0 <= j < source.len() ==> (low <= (#[trigger] source[j]).price.0 < high <==> j == i),
    ensures
        field_sum(source, low, high, field) == field(source[i]),
    decreases source.len(),
{
    let front = source.drop_last();
    if i == source.len() - 1 {
        lemma_no_sum(front, low, high, field);
    } else {
        assert(!(low <= source[source.len() - 1].price.0 < high));
        lemma_lone_sum(front, low, high, field, i);
    }
}

proof fn lemma_no_sum(
    source: Seq<ProfilePriceRow>,
    low: int,
    high: int,
    field: spec_fn(ProfilePriceRow) -> int,
)
    requires
        forall|j: int| 0 <= j < source.len() ==> !(low <= (#[trigger] source[j]).price.0 < high),
    ensures
        field_sum(source, low, high, field) == 0,
    decreases source.len(),
{
    if source.len() > 0 {
        assert(!(low <= source[source.len() - 1].price.0 < high));
        lemma_no_sum(source.drop_last(), low, high, field);
    }
}

/// An engine row that is alone in its rendered row, as each is at the scale of one tick, gives the
/// rendered row its own volumes; where there is none, the rendered row has none.
pub proof fn law_lone_row_keeps_its_volumes(
    session: &ProfileSessionRender,
    tick: Price,
    scale: u8,
    center: Option<Price>,
    max_rows: usize,
    r: VisibleProfile,
    k: int,
    i: int,
)
    requires
        valid_scale(scale),
        session.rows.len() > 0,
        viewport_fits(*session, tick, scale, center, max_rows),
        call_ensures(visible_rows, (session, tick, scale, center, max_rows), r),
        0 <= k < r.rows.len(),
        0 <= i < session.rows.len(),
        forall|j: int|
            0 <= j < session.rows.len() ==> (r.rows@[k].price.0 <= (
            #[trigger] session.rows@[j]).price.0 < r.rows@[k].price.0 + tick.0 * scale <==> j == i),
    ensures
        ({
            let row = r.rows@[k];
            let s = session.rows@[i];
            &&& row.session_volume == s.session_volume
            &&& row.period_volume == s.period_volume
            &&& row.buy_volume == s.buy_volume
            &&& row.sell_volume == s.sell_volume
        }),
{
    law_rows_gather_fields(session, tick, scale, center, max_rows, r, k);
    let source = session.rows@;
    let low = r.rows@[k].price.0 as int;
    let high = low + tick.0 * scale;
    lemma_lone_sum(source, low, high, |s: ProfilePriceRow| s.session_volume as int, i);
    lemma_lone_sum(source, low, high, |s: ProfilePriceRow| s.period_volume as int, i);
    lemma_lone_sum(source, low, high, |s: ProfilePriceRow| s.buy_volume as int, i);
    lemma_lone_sum(source, low, high, |s: ProfilePriceRow| s.sell_volume as int, i);
}

/// A viewport has the rows that were asked for, one rendered tick apart; the row that holds the
/// center is in the middle, with one more row below it than above where their number is even.
/// Without a center it is the middle between the lowest and the highest row of the profile.
pub proof fn law_viewport_around_center(
    session: &ProfileSessionRender,
    tick: Price,
    scale: u8,
    center: Option<Price>,
    max_rows: usize,
    r: VisibleProfile,
    k: int,
    middle: Price,
    from: Price,
    low: Price,
    high: Price,
)
    requires
        valid_scale(scale),
        session.rows.len() > 0,
        viewport_fits(*session, tick, scale, center, max_rows),
        call_ensures(visible_rows, (session, tick, scale, center, max_rows), r),
        0 <= k < max_rows,
        reaches(tick.0 * scale, low, session.rows@[0].price),
        reaches(tick.0 * scale, high, session.rows@[session.rows.len() - 1].price),
        center is Some ==> middle == center->0,
        center is None ==> ({
            let both = low.0 + high.0;
            both == 2 * middle.0 || both > 0 && both == 2 * middle.0 + 1 || both < 0 && both == 2
                * middle.0 - 1
        }),
        reaches(tick.0 * scale, from, middle),
    ensures
        r.scaled_tick.0 == tick.0 * scale,
        r.rows.len() == max_rows,
        r.rows@[k].price.0 == from.0 + (k - max_rows as int / 2) * (tick.0 * scale),
{
    let t = scaled_tick(tick, scale);
    lemma_row_on_lattice(*session, tick, scale, center, max_rows, r, k);
    lemma_bucket_is(session.rows@[0].price, t, low.0 as int);
    lemma_bucket_is(session.rows@[session.rows.len() - 1].price, t, high.0 as int);
    lemma_bucket_is(middle, t, from.0 as int);
    assert(center_price(*session, t, center) == middle);
}

/// A pan by a number of rows, upwards for a positive one, moves the center by as many rendered
/// ticks. Without a center it starts in the middle between the lowest and the highest price.
pub proof fn law_pan_moves_by_rows(
    session: &ProfileSessionRender,
    tick: Price,
    scale: u8,
    center: Option<Price>,
    delta: i64,
    r: Option<Price>,
    start: i64,
)
    requires
        session.rows.len() > 0,
        call_ensures(pan_center, (session, tick, scale, center, delta), r),
        center is Some ==> start == (center->0).0,
        center is None ==> ({
            let both = session.rows@[0].price.0 + session.rows@[session.rows.len() - 1].price.0;
            both == 2 * start || both > 0 && both == 2 * start + 1 || both < 0 && both == 2 * start
                - 1
        }),
        i64::MIN <= start + delta * (tick.0 * scale) <= i64::MAX,
    ensures
        r is Some,
        (r->0).0 - start == delta * (tick.0 * scale),
        tick.0 > 0 && scale > 0 ==> (delta > 0 ==> (r->0).0 > start) && (delta < 0 ==> (r->0).0
            < start),
{
    let t = tick.0 * scale;
    if tick.0 > 0 && scale > 0 {
        assert(t > 0) by (nonlinear_arith)
            requires
                t == tick.0 * scale,
                tick.0 > 0,
                scale > 0,
        ;
        assert(delta > 0 ==> delta * t > 0) by (nonlinear_arith)
            requires
                t > 0,
        ;
        assert(delta < 0 ==> delta * t < 0) by (nonlinear_arith)
            requires
                t > 0,
        ;
    }
}

/// A pan that is taken back brings the center to where it was; two pans come to one by their sum.
pub proof fn law_pans_add_up(
    session: &ProfileSessionRender,
    tick: Price,
    scale: u8,
    center: Price,
    a: i64,
    b: i64,
    r: Option<Price>,
    s: Option<Price>,
)
    requires
        session.rows.len() > 0,
        call_ensures(pan_center, (session, tick, scale, Some(center), a), r),
        i64::MIN <= center.0 + a * (tick.0 * scale) <= i64::MAX,
        call_ensures(pan_center, (session, tick, scale, r, b), s),
        i64::MIN <= center.0 + (a + b) * (tick.0 * scale) <= i64::MAX,
    ensures
        s is Some,
        (s->0).0 == center.0 + (a + b) * (tick.0 * scale),
        a + b == 0 ==> s == Some(center),
{
    let t = tick.0 * scale;
    assert((a + b) * t == a * t + b * t) by (nonlinear_arith);
    law_pan_moves_by_rows(session, tick, scale, Some(center), a, r, center.0);
    law_pan_moves_by_rows(session, tick, scale, r, b, s, (r->0).0);
}

/// Periods have letters of their own: the first is A, each next one has the next letter of the
/// alphabet, and small letters follow on Z.
pub proof fn law_letters_in_order(a: usize, b: usize, r: char, s: char)
    requires
        a < 52,
        b < 52,
        call_ensures(period_letter, (a,), r),
        call_ensures(period_letter, (b,), s),
    ensures
        a == 0 ==> r == 'A',
        a == 25 ==> r == 'Z',
        a == 26 ==> r == 'a',
        a < 26 ==> 'A' <= r <= 'Z',
        a >= 26 ==> 'a' <= r <= 'z',
        b == a + 1 && a != 25 ==> s as int == r as int + 1,
        a != b ==> r != s,
{
}

/// Whether the row traded in a column, and in which clock: the columns of regular hours are those
/// of the thirteen periods behind the thirty-first, and only theirs count there.
pub open spec fn traded(eth: u64, rth: u64, column: int, kind: TpoKind) -> bool {
    0 <= column < 46 && match kind {
        TpoKind::Rth => 31 <= column < 44 && rth & (1u64 << ((column - 31) as u64)) != 0,
        TpoKind::Eth => !(31 <= column < 44) && eth & (1u64 << (column as u64)) != 0,
    }
}

proof fn lemma_tpos(eth: u64, rth: u64, end: int)
    requires
        0 <= end <= 46,
    ensures
        ({
            let shown = tpos(eth, rth, end);
            &&& forall|i: int|
                0 <= i < shown.len() ==> (#[trigger] shown[i]).0 < end && traded(
                    eth,
                    rth,
                    shown[i].0 as int,
                    shown[i].2,
                ) && shown[i].1 == letter(
                    if shown[i].2 == TpoKind::Rth {
                        shown[i].0 - 31
                    } else {
                        shown[i].0 as int
                    },
                )
            &&& forall|i: int, j: int|
                0 <= i < j < shown.len() ==> (#[trigger] shown[i]).0 < (#[trigger] shown[j]).0
            &&& forall|column: int, kind: TpoKind|
                0 <= column < end && #[trigger] traded(eth, rth, column, kind) ==> exists|i: int|
                    0 <= i < shown.len() && (#[trigger] shown[i]).0 == column && shown[i].2 == kind
        }),
    decreases end,
{
    if end > 0 {
        lemma_tpos(eth, rth, end - 1);
        let before = tpos(eth, rth, end - 1);
        let shown = tpos(eth, rth, end);
        assert forall|column: int, kind: TpoKind|
            0 <= column < end && #[trigger] traded(eth, rth, column, kind) implies exists|i: int|
            0 <= i < shown.len() && (#[trigger] shown[i]).0 == column && shown[i].2 == kind by {
            if column < end - 1 {
                let i = choose|i: int|
                    0 <= i < before.len() && (#[trigger] before[i]).0 == column && before[i].2
                        == kind;
                assert(shown[i] == before[i]);
            } else {
                assert(shown[before.len() as int].0 == column);
            }
        }
    }
}

/// The columns of a row are exactly those it traded in, from left to right, each with the letter
/// of its period; the periods of regular hours start again at A.
pub proof fn law_columns_traded(eth: u64, rth: u64, r: Vec<(usize, char, TpoKind)>)
    requires
        call_ensures(for_each_tpo, (eth, rth), r),
    ensures
        forall|i: int|
            0 <= i < r.len() ==> traded(eth, rth, (#[trigger] r@[i]).0 as int, r@[i].2),
        forall|i: int, j: int|
            0 <= i < j < r.len() ==> (#[trigger] r@[i]).0 < (#[trigger] r@[j]).0,
        forall|column: int, kind: TpoKind| #[trigger]
            traded(eth, rth, column, kind) ==> exists|i: int|
                0 <= i < r.len() && (#[trigger] r@[i]).0 == column && r@[i].2 == kind,
        forall|i: int, index: usize, c: char|
            0 <= i < r.len() && (#[trigger] r@[i]).0 == (if r@[i].2 == TpoKind::Rth {
                index + 31
            } else {
                index as int
            }) && #[trigger] call_ensures(period_letter, (index,), c) ==> r@[i].1 == c,
{
    lemma_tpos(eth, rth, 46);
}

/// How many of the first `k` depth rows have a price that the profile has too.
pub open spec fn shared(rows: Seq<ProfilePriceRow>, depth: Seq<DomPriceRow>, k: nat) -> nat
    decreases k,
{
    if k == 0 {
        0
    } else {
        shared(rows, depth, (k - 1) as nat) + if exists|i: int|
            0 <= i < rows.len() && (#[trigger] rows[i]).price.0 == depth[k - 1].price.0 {
            1nat
        } else {
            0
        }
    }
}

proof fn lemma_agreement(rows: Seq<ProfilePriceRow>, depth: Seq<DomPriceRow>, k: nat)
    requires
        climbing(rows),
        k <= depth.len(),
    ensures
        match agreement(rows, depth, k) {
            Ok(n) => n == shared(rows, depth, k) && forall|i: int, j: int|
                0 <= i < rows.len() && 0 <= j < k && (#[trigger] rows[i]).price.0 == (
                #[trigger] depth[j]).price.0 ==> rows[i].session_volume == depth[j].session_volume,
            Err(m) => m.profile_volume != m.dom_volume && exists|i: int, j: int|
                0 <= i < rows.len() && 0 <= j < k && (#[trigger] rows[i]).price.0 == m.price.0 && (
                #[trigger] depth[j]).price.0 == m.price.0 && rows[i].session_volume
                    == m.profile_volume && depth[j].session_volume == m.dom_volume,
        },
    decreases k,
{
    if k > 0 {
        lemma_agreement(rows, depth, (k - 1) as nat);
        let at = depth[k - 1];
        if exists|i: int| 0 <= i < rows.len() && (#[trigger] rows[i]).price.0 == at.price.0 {
            let i = choose|i: int| 0 <= i < rows.len() && (#[trigger] rows[i]).price.0 == at.price.0;
            lemma_volume_at(rows, i);
            assert(rows[i].price == at.price);
            assert forall|m: int| 0 <= m < rows.len() && (#[trigger] rows[m]).price.0
                == at.price.0 implies m == i by {
                if m < i {
                    assert(rows[m].price.0 < rows[i].price.0);
                } else if i < m {
                    assert(rows[i].price.0 < rows[m].price.0);
                }
            }
            if agreement(rows, depth, (k - 1) as nat) is Ok && rows[i].session_volume
                != at.session_volume {
                assert(depth[k - 1].price.0 == at.price.0);
            }
        } else {
            lemma_volume_absent(rows, at.price);
        }
    }
}

/// The panes agree when every price that both have shows the same volume in both, and the answer
/// counts the depth rows at such prices; otherwise it names a price at which they differ, with
/// the volume that the profile has there and the one that the depth has. Without a profile there
/// is nothing to compare.
pub proof fn law_panes_agree(
    profile: &ProfileRenderState,
    dom: &DomRenderState,
    r: Result<usize, VolumeMismatch>,
)
    requires
        searchable(*profile),
        call_ensures(check_pane_agreement, (profile, dom), r),
    ensures
        profile.sessions.len() == 0 ==> r == Ok::<usize, VolumeMismatch>(0),
        profile.sessions.len() > 0 ==> {
            let rows = profile.sessions@[0].rows@;
            match r {
                Ok(n) => n == shared(rows, dom.rows@, dom.rows.len() as nat) && forall|
                    i: int,
                    j: int,
                |
                    0 <= i < rows.len() && 0 <= j < dom.rows.len() && (#[trigger] rows[i]).price.0
                        == (#[trigger] dom.rows@[j]).price.0 ==> rows[i].session_volume
                        == dom.rows@[j].session_volume,
                Err(m) => m.profile_volume != m.dom_volume && exists|i: int, j: int|
                    0 <= i < rows.len() && 0 <= j < dom.rows.len() && (#[trigger] rows[i]).price.0
                        == m.price.0 && (#[trigger] dom.rows@[j]).price.0 == m.price.0
                        && rows[i].session_volume == m.profile_volume && dom.rows@[j].session_volume
                        == m.dom_volume,
            }
        },
{
    if profile.sessions.len() > 0 {
        lemma_agreement(profile.sessions@[0].rows@, dom.rows@, dom.rows.len() as nat);
    }
}

/// The label of a session's opening names the month and the day before its trade date, two digits
/// each, and six in the evening.
pub proof fn law_footer_names_the_eve(
    trade_date: u32,
    year: int,
    month: int,
    day: int,
    r: String,
)
    requires
        trade_date > 0,
        call_ensures(session_open_footer, (trade_date,), r),
        valid_date(year, month, day),
        civil_day(year, month, day) == trade_date - 1,
    ensures
        r@.len() == 11,
        digits_value(r@.take(2), 10) == Some(month as nat),
        digits_value(r@.subrange(3, 5), 10) == Some(day as nat),
        r@[2] == '-',
        r@.skip(5) == " 18:00"@,
{
    law_date_of(year, month, day);
    reveal_strlit(" 18:00");
    reveal_strlit("-");
    lemma_two_digits(month as nat);
    lemma_two_digits(day as nat);
    law_padded_round_trip(month as nat, 2);
    law_padded_round_trip(day as nat, 2);
    assert(r@.take(2) =~= padded(month as nat, 2));
    assert(r@.subrange(3, 5) =~= padded(day as nat, 2));
    assert(r@.skip(5) =~= " 18:00"@);
}

/// The opening price is marked at the row that holds it, and not at all before the opening.
pub proof fn law_open_marker(
    session: &ProfileSessionRender,
    scaled_tick: Price,
    r: Option<Price>,
)
    requires
        scaled_tick.0 > 0,
        session.open is Some ==> bucket_fits(session.open->0, scaled_tick),
        call_ensures(open_marker_bucket, (session, scaled_tick), r),
    ensures
        r is Some <==> session.open is Some,
        r is Some ==> reaches(scaled_tick.0 as int, r->0, session.open->0),
{
    if session.open is Some {
        lemma_bucket(session.open->0, scaled_tick);
    }
}

/// The session on display is the first, where there is one.
pub proof fn law_first_session_on_display(
    profile: &ProfileRenderState,
    r: Option<&ProfileSessionRender>,
)
    requires
        call_ensures(display_session, (profile,), r),
    ensures
        r is Some <==> profile.sessions.len() > 0,
        r is Some ==> *r->0 == profile.sessions@[0],
{
}

} // verus!
