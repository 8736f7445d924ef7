//! The top line: the contract, the New York clock and the frame cadence.

use crate::datetime::{clock_text, date_of, date_text, lemma_clock_text, push_date};
use crate::mp_view::{display_session, displayed};
use crate::render::RenderSnapshot;
use crate::text::{decimal, digits_value, law_padded_round_trip, push_decimal, push_padded};
use std::collections::VecDeque;
use vstd::prelude::*;

verus! {

/// The window that frames are counted in, in nanoseconds.
pub const WINDOW_NS: u64 = 1_000_000_000;

/// The time zone of the clock.
pub const NEW_YORK: &'static str = "America/New_York";

/// How many frames were reported in the last second.
pub struct FrameCadence {
    frames: VecDeque<u64>,
}

/// Whether a frame has left the window. A frame later than `now` counts as just reported.
pub open spec fn expired(frame: u64, now: u64, window: u64) -> bool {
    (if now >= frame {
        now - frame
    } else {
        0
    }) >= window
}

/// The frames without the leading ones that have left the window.
pub open spec fn recent(frames: Seq<u64>, now: u64, window: u64) -> Seq<u64>
    decreases frames.len(),
{
    if frames.len() > 0 && expired(frames[0], now, window) {
        recent(frames.skip(1), now, window)
    } else {
        frames
    }
}

/// Adds a frame and drops those that have left the window; how many are left.
pub fn rolling_frame_count(frames: &mut VecDeque<u64>, now: u64, window: u64) -> (r: usize)
    ensures
        final(frames)@ == recent(old(frames)@.push(now), now, window),
        r == final(frames)@.len(),
{
    frames.push_back(now);
    let ghost all = frames@;
    while frames.len() > 0 && now.saturating_sub(frames[0]) >= window
        invariant
            recent(frames@, now, window) == recent(all, now, window),
        decreases frames.len(),
    {
        let ghost before = frames@;
        let _ = frames.pop_front();
        assert(frames@ =~= before.skip(1));
    }
    frames.len()
}

/// The frame that was reported last always counts; when the clock never goes back, every
/// frame that is left lies inside the window.
pub proof fn law_recent_inside(frames: Seq<u64>, now: u64, window: u64)
    requires
        window > 0,
        frames.len() > 0,
        frames.last() == now,
        forall|i: int, j: int|
            0 <= i <= j < frames.len() ==> #[trigger] frames[i] <= #[trigger] frames[j],
    ensures
        recent(frames, now, window).len() > 0,
        recent(frames, now, window).last() == now,
        forall|i: int|
            0 <= i < recent(frames, now, window).len() ==> now - (#[trigger] recent(
                frames,
                now,
                window,
            )[i]) < window,
    decreases frames.len(),
{
    if expired(frames[0], now, window) {
        let rest = frames.skip(1);
        assert(frames.len() > 1);
        assert(rest.last() == now);
        assert forall|i: int, j: int| 0 <= i <= j < rest.len() implies #[trigger] rest[i]
            <= #[trigger] rest[j] by {
            assert(rest[i] == frames[i + 1] && rest[j] == frames[j + 1]);
        }
        law_recent_inside(rest, now, window);
    }
}

impl View for FrameCadence {
    type V = Seq<u64>;

    closed spec fn view(&self) -> Seq<u64> {
        self.frames@
    }
}

impl FrameCadence {
    /// No frames yet.
    pub fn new() -> (r: FrameCadence)
        ensures
            r@ == Seq::<u64>::empty(),
    {
        FrameCadence { frames: VecDeque::new() }
    }

    /// Adds a frame; how many were reported in the last second.
    pub fn record(&mut self, now: u64) -> (r: usize)
        ensures
            final(self)@ == recent(old(self)@.push(now), now, WINDOW_NS),
            r == final(self)@.len(),
    {
        rolling_frame_count(&mut self.frames, now, WINDOW_NS)
    }
}

/// Calls `jiff::Timestamp::from_nanosecond`, `in_tz` with the given zone, and `offset` and
/// `seconds` on what they give: the zone's distance from UTC at the instant, in seconds to the
/// east. None where the instant is out of range or the zone is not known. What the distance is
/// comes from the time zone database that is found on the machine, and is not stated; it is
/// less than twenty-six hours either way.
#[verifier::external_body]
fn utc_offset(ts_ns: u64, zone: &'static str) -> (r: Option<i32>)
    ensures
        r is Some ==> -93_599 <= r->0 <= 93_599,
{
    let instant = jiff::Timestamp::from_nanosecond(i128::from(ts_ns)).ok()?;
    let zoned = instant.in_tz(zone).ok()?;
    Some(zoned.offset().seconds())
}

/// Whether `offset` is what looking up the zone at the instant can give.
pub closed spec fn looked_up(ts_ns: u64, zone: &'static str, offset: Option<i32>) -> bool {
    call_ensures(utc_offset, (ts_ns, zone), offset)
}

/// What the clock shows at an instant in a zone at the given distance from UTC. No event has
/// been applied at the instant zero; without the zone there is no time to show either.
pub open spec fn clock_label(ts_ns: int, offset: Option<i32>) -> Seq<char> {
    if ts_ns == 0 || offset is None {
        "--:--:--"@
    } else {
        clock_text((ts_ns / 1_000_000_000 + offset->0) % 86_400)
    }
}

/// What the clock shows at an instant in a zone at the given distance from UTC.
pub fn format_clock(ts_ns: u64, offset: Option<i32>) -> (r: String)
    ensures
        r@ == clock_label(ts_ns as int, offset),
{
    match offset {
        None => "--:--:--".to_owned(),
        Some(east) => {
            if ts_ns == 0 {
                return "--:--:--".to_owned();
            }
            let local: i64 = (ts_ns / 1_000_000_000) as i64 + east as i64;
            let second: i64 = crate::num::floor_rem(local, 86_400);
            let mut out: String = String::new();
            push_padded(&mut out, (second / 3600) as u64, 2);
            out.append(":");
            push_padded(&mut out, (second / 60 % 60) as u64, 2);
            out.append(":");
            push_padded(&mut out, (second % 60) as u64, 2);
            out
        },
    }
}

/// What the clock shows in New York, whose distance from UTC at the instant `offset_at` gives.
pub fn clock_in<F: Fn(u64, &'static str) -> Option<i32>>(ts_ns: u64, offset_at: F) -> (r: String)
    requires
        call_requires(offset_at, (ts_ns, NEW_YORK)),
    ensures
        exists|offset: Option<i32>| #[trigger]
            call_ensures(offset_at, (ts_ns, NEW_YORK), offset) && r@ == clock_label(
                ts_ns as int,
                offset,
            ),
{
    let offset: Option<i32> = offset_at(ts_ns, NEW_YORK);
    format_clock(ts_ns, offset)
}

/// What the clock shows in New York, whose distance from UTC at the instant is looked up; it is
/// less than twenty-six hours either way.
pub fn format_ny_clock(ts_ns: u64) -> (r: String)
    ensures
        ts_ns == 0 ==> r@ == "--:--:--"@,
        exists|offset: Option<i32>| #[trigger]
            looked_up(ts_ns, NEW_YORK, offset) && (offset is Some ==> -93_599 <= offset->0
                <= 93_599) && r@ == clock_label(ts_ns as int, offset),
{
    let r: String = clock_in(ts_ns, utc_offset);
    proof {
        let offset = choose|offset: Option<i32>| #[trigger]
            call_ensures(utc_offset, (ts_ns, NEW_YORK), offset) && r@ == clock_label(
                ts_ns as int,
                offset,
            );
        assert(looked_up(ts_ns, NEW_YORK, offset));
    }
    r
}

/// The contract and the trade date on display; dashes for what is not known.
pub open spec fn context_text(snapshot: RenderSnapshot) -> Seq<char> {
    match displayed(snapshot.profile) {
        None => "-- ---- --"@,
        Some(session) => if session.trade_date == 0 {
            "-- ---- --"@
        } else {
            (if snapshot.symbol@.len() == 0 {
                "--"@
            } else {
                snapshot.symbol@
            }) + " "@ + date_text(date_of(session.trade_date as int))
        },
    }
}

/// The contract and the trade date on display.
pub fn contract_context(snapshot: &RenderSnapshot) -> (r: String)
    ensures
        r@ == context_text(*snapshot),
{
    let trade_date: u32 = match display_session(&snapshot.profile) {
        None => 0,
        Some(session) => session.trade_date,
    };
    if trade_date == 0 {
        return "-- ---- --".to_owned();
    }
    let mut out: String = if crate::text::str_eq(snapshot.symbol.as_str(), "") {
        "--".to_owned()
    } else {
        snapshot.symbol.clone()
    };
    proof {
        reveal_strlit("");
        assert(""@.len() == 0);
        assert(snapshot.symbol@.len() == 0 ==> snapshot.symbol@ =~= ""@);
    }
    out.append(" ");
    push_date(&mut out, trade_date as u64);
    out
}

/// The frame cadence as it is shown.
pub fn fps_label(fps: usize) -> (r: String)
    ensures
        r@ == decimal(fps as nat) + " FPS"@,
{
    let mut out: String = String::new();
    push_decimal(&mut out, fps as u64);
    out.append(" FPS");
    out
}

/// When the clock never goes back, what is counted are the frames of the last window: those less
/// than it old, the new one included.
pub proof fn law_frames_of_the_window(
    frames: &mut VecDeque<u64>,
    now: u64,
    window: u64,
    r: usize,
)
    requires
        window > 0,
        call_ensures(rolling_frame_count, (frames, now, window), r),
        forall|i: int, j: int|
            0 <= i <= j < old(frames)@.len() ==> #[trigger] old(frames)@[i] <= #[trigger] old(
                frames,
            )@[j],
        forall|i: int| 0 <= i < old(frames)@.len() ==> #[trigger] old(frames)@[i] <= now,
    ensures
        r == final(frames)@.len(),
        r == old(frames)@.push(now).filter(|f: u64| now - f < window).len(),
        final(frames)@ == old(frames)@.push(now).filter(|f: u64| now - f < window),
{
    let all = old(frames)@.push(now);
    assert forall|i: int, j: int| 0 <= i <= j < all.len() implies #[trigger] all[i]
        <= #[trigger] all[j] by {
        if j < old(frames)@.len() {
            assert(old(frames)@[i] <= old(frames)@[j]);
        } else if i < old(frames)@.len() {
            assert(old(frames)@[i] <= now);
        }
    }
    lemma_recent_filter(all, now, window);
}

proof fn lemma_recent_filter(frames: Seq<u64>, now: u64, window: u64)
    requires
        window > 0,
        forall|i: int, j: int|
            0 <= i <= j < frames.len() ==> #[trigger] frames[i] <= #[trigger] frames[j],
        forall|i: int| 0 <= i < frames.len() ==> #[trigger] frames[i] <= now,
    ensures
        recent(frames, now, window) == frames.filter(|f: u64| now - f < window),
    decreases frames.len(),
{
    let young = |f: u64| now - f < window;
    if frames.len() > 0 && expired(frames[0], now, window) {
        let rest = frames.skip(1);
        assert forall|i: int, j: int| 0 <= i <= j < rest.len() implies #[trigger] rest[i]
            <= #[trigger] rest[j] by {
            assert(rest[i] == frames[i + 1] && rest[j] == frames[j + 1]);
        }
        assert forall|i: int| 0 <= i < rest.len() implies #[trigger] rest[i] <= now by {
            assert(rest[i] == frames[i + 1]);
        }
        lemma_recent_filter(rest, now, window);
        assert(frames =~= seq![frames[0]] + rest);
        Seq::filter_distributes_over_add(seq![frames[0]], rest, young);
        reveal_with_fuel(Seq::filter, 2);
        assert(!young(frames[0]));
        assert(seq![frames[0]].drop_last() =~= Seq::<u64>::empty());
        assert(seq![frames[0]].filter(young) =~= Seq::<u64>::empty());
        assert(Seq::<u64>::empty() + rest.filter(young) =~= rest.filter(young));
    } else {
        assert forall|i: int| 0 <= i < frames.len() implies young(#[trigger] frames[i]) by {
            assert(frames[0] <= frames[i]);
        }
        lemma_filter_all(frames, young);
    }
}

proof fn lemma_filter_all(s: Seq<u64>, keep: spec_fn(u64) -> bool)
    requires
        forall|i: int| 0 <= i < s.len() ==> keep(#[trigger] s[i]),
    ensures
        s.filter(keep) == s,
    decreases s.len(),
{
    reveal(Seq::filter);
    if s.len() > 0 {
        let front = s.drop_last();
        assert forall|i: int| 0 <= i < front.len() implies keep(#[trigger] front[i]) by {
            assert(front[i] == s[i]);
        }
        lemma_filter_all(front, keep);
        assert(keep(s[s.len() - 1]));
        assert(front.push(s.last()) =~= s);
    } else {
        assert(s.filter(keep) =~= s);
    }
}

/// A cadence counts the frames of the last second.
pub proof fn law_cadence_second(
    cadence: &mut FrameCadence,
    frames: &mut VecDeque<u64>,
    now: u64,
    r: usize,
    s: usize,
)
    requires
        call_ensures(FrameCadence::record, (cadence, now), r),
        call_ensures(rolling_frame_count, (frames, now, 1_000_000_000), s),
        old(cadence)@ == old(frames)@,
    ensures
        r == s,
        final(cadence)@ == final(frames)@,
{
}

/// The clock shows the hours, the minutes and the seconds of the local day: the instant moved by the
/// zone's distance to the east. Without an instant or a zone it shows dashes.
pub proof fn law_clock_shows_local_time(ts_ns: u64, offset: Option<i32>, r: String)
    requires
        call_ensures(format_clock, (ts_ns, offset), r),
    ensures
        r@.len() == 8,
        ts_ns == 0 || offset is None ==> r@ == "--:--:--"@,
        ts_ns > 0 && offset is Some ==> {
            let local = (ts_ns as int / 1_000_000_000 + offset->0) % 86_400;
            let hours = digits_value(r@.subrange(0, 2), 10);
            let minutes = digits_value(r@.subrange(3, 5), 10);
            let seconds = digits_value(r@.subrange(6, 8), 10);
            &&& hours is Some && minutes is Some && seconds is Some
            &&& hours->0 * 3_600 + minutes->0 * 60 + seconds->0 == local
            &&& minutes->0 < 60 && seconds->0 < 60
            &&& r@[2] == ':' && r@[5] == ':'
        },
{
    reveal_strlit("--:--:--");
    if ts_ns > 0 && offset is Some {
        let local = (ts_ns as int / 1_000_000_000 + offset->0) % 86_400;
        lemma_clock_text(local);
        law_padded_round_trip((local / 3600) as nat, 2);
        law_padded_round_trip((local / 60 % 60) as nat, 2);
        law_padded_round_trip((local % 60) as nat, 2);
    }
}

/// The top line names the symbol, or dashes for one that is not known, and the trade date of the
/// session on display; without a session or a date it is dashes alone.
pub proof fn law_context_names_the_session(
    snapshot: &RenderSnapshot,
    date: String,
    r: String,
)
    requires
        snapshot.profile.sessions.len() > 0,
        snapshot.profile.sessions@[0].trade_date > 0,
        call_ensures(
            crate::datetime::ymd_from_unix_days,
            (snapshot.profile.sessions@[0].trade_date,),
            date,
        ),
        call_ensures(contract_context, (snapshot,), r),
    ensures
        snapshot.symbol@.len() > 0 ==> r@ == snapshot.symbol@ + " "@ + date@,
        snapshot.symbol@.len() == 0 ==> r@ == "--"@ + " "@ + date@,
{
}

/// Without a session, or before it has a trade date, there is nothing to name.
pub proof fn law_context_without_a_session(snapshot: &RenderSnapshot, r: String)
    requires
        snapshot.profile.sessions.len() == 0 || snapshot.profile.sessions@[0].trade_date == 0,
        call_ensures(contract_context, (snapshot,), r),
    ensures
        r@ == "-- ---- --"@,
{
}

/// The cadence is shown as its numeral, with the unit behind it.
pub proof fn law_cadence_label(fps: usize, r: String)
    requires
        call_ensures(fps_label, (fps,), r),
    ensures
        r@.len() > 4,
        digits_value(r@.take(r@.len() - 4), 10) == Some(fps as nat),
        r@.skip(r@.len() - 4) == " FPS"@,
{
    reveal_strlit(" FPS");
    crate::text::law_numeral_round_trip(fps as nat);
    assert(r@.take(r@.len() - 4) =~= decimal(fps as nat));
    assert(r@.skip(r@.len() - 4) =~= " FPS"@);
}

} // verus!
