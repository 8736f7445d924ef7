//! Watching a replaying engine: when it is ready, when it reached the end, and when it is time
//! for a sign of life.

use vstd::prelude::*;

verus! {

/// How often a sign of life is written.
pub const HEARTBEAT_INTERVAL_NS: u64 = 30_000_000_000;

/// How long the current session may take to be ready.
pub const CURRENT_READY_TIMEOUT_NS: u64 = 60_000_000_000;

/// How long a seek may stay unanswered.
pub const SCRUB_SETTLE_NS: u64 = 15_000_000_000;

/// How long nothing may be applied before the end counts as reached.
pub const EOF_STABLE_NS: u64 = 200_000_000;

/// Whether a sign of life is due.
pub fn heartbeat_due(last: u64, now: u64) -> (r: bool)
    ensures
        r == (now - last >= HEARTBEAT_INTERVAL_NS),
{
    now.saturating_sub(last) >= HEARTBEAT_INTERVAL_NS
}

/// Whether the state answers the seek, with a session on display.
pub fn seek_answered(seek_generation: u64, generation: u64, sessions: usize) -> (r: bool)
    ensures
        r == (seek_generation >= generation && sessions > 0),
{
    seek_generation >= generation && sessions > 0
}

/// Whether the current session is ready: its seek is answered and a state was published.
pub fn current_ready(
    seek_generation: u64,
    generation: u64,
    published: u64,
    sessions: usize,
) -> (r: bool)
    ensures
        r == (seek_generation >= generation && published > 0 && sessions > 0),
{
    seek_generation >= generation && published > 0 && sessions > 0
}

/// The most that was answered while the last seek of a burst is awaited.
#[derive(Clone, Copy, Debug, PartialEq, Eq, Structural)]
pub struct Settling {
    pub want: u64,
    pub last: u64,
}

impl Settling {
    /// The last seek is awaited.
    pub fn new(want: u64) -> (r: Settling)
        ensures
            r == (Settling { want, last: 0 }),
    {
        Settling { want, last: 0 }
    }

    /// Looks at the answered generation; it never counts back. True once the last is answered.
    pub fn observe(&mut self, generation: u64) -> (r: bool)
        ensures
            final(self).want == old(self).want,
            final(self).last == crate::num::greatest(old(self).last as int, generation as int),
            r == (final(self).last >= final(self).want),
    {
        if generation > self.last {
            self.last = generation;
        }
        self.last >= self.want
    }
}

/// A playback that is watched for its end.
#[derive(Clone, Copy, Debug, PartialEq, Eq, Structural)]
pub struct Playback {
    pub seeded: bool,
    pub last_applied: u64,
    pub stable_since: Option<u64>,
}

impl Playback {
    /// Nothing was seen yet.
    pub fn new() -> (r: Playback)
        ensures
            r == (Playback { seeded: false, last_applied: 0, stable_since: None }),
    {
        Playback { seeded: false, last_applied: 0, stable_since: None }
    }

    /// The playback after a look at what was applied.
    pub open spec fn seen(self, applied: u64, applied_ts: u64, last_ts: u64, now: u64) -> Playback {
        if !self.seeded {
            Playback {
                seeded: true,
                last_applied: applied,
                stable_since: if applied_ts >= last_ts {
                    Some(now)
                } else {
                    self.stable_since
                },
            }
        } else if applied > self.last_applied {
            Playback { last_applied: applied, stable_since: None, ..self }
        } else if (applied > 0 || applied_ts >= last_ts) && self.stable_since is None {
            Playback { stable_since: Some(now), ..self }
        } else {
            self
        }
    }

    /// Whether a look finds the end: nothing was applied for long enough, and either something
    /// was applied before or the last time is reached.
    pub open spec fn ends(self, applied: u64, applied_ts: u64, last_ts: u64, now: u64) -> bool {
        &&& self.seeded
        &&& applied <= self.last_applied
        &&& applied > 0 || applied_ts >= last_ts
        &&& self.stable_since matches Some(since) && now - since >= EOF_STABLE_NS
    }

    /// Looks at what was applied. True at the end.
    pub fn observe(&mut self, applied: u64, applied_ts: u64, last_ts: u64, now: u64) -> (r: bool)
        ensures
            r == old(self).ends(applied, applied_ts, last_ts, now),
            *final(self) == old(self).seen(applied, applied_ts, last_ts, now),
    {
        if !self.seeded {
            self.last_applied = applied;
            self.seeded = true;
            if applied_ts >= last_ts {
                self.stable_since = Some(now);
            }
        } else if applied > self.last_applied {
            self.last_applied = applied;
            self.stable_since = None;
        } else if applied > 0 || applied_ts >= last_ts {
            match self.stable_since {
                Some(since) => {
                    return now >= since && now - since >= EOF_STABLE_NS;
                },
                None => {
                    self.stable_since = Some(now);
                },
            }
        }
        false
    }
}

/// A playback that goes on is never taken for one that ended: a look that finds more applied
/// than any before does not end it, nor does the look after it.
pub proof fn law_progress_is_no_end(
    playback: Playback,
    applied: u64,
    applied_ts: u64,
    next: u64,
    next_ts: u64,
    last_ts: u64,
    now: u64,
    later: u64,
)
    requires
        playback.seeded,
        applied > playback.last_applied,
    ensures
        !playback.ends(applied, applied_ts, last_ts, now),
        !playback.seen(applied, applied_ts, last_ts, now).ends(next, next_ts, last_ts, later),
{
}

/// A sign of life is due thirty seconds after the last; a seek is answered by its own or a later
/// generation, with a session on display; and the current session is ready when, besides, a state
/// was published.
pub proof fn law_watched_signs(
    last: u64,
    now: u64,
    seen: u64,
    generation: u64,
    published: u64,
    sessions: usize,
    due: bool,
    answered: bool,
    ready: bool,
)
    requires
        call_ensures(heartbeat_due, (last, now), due),
        call_ensures(seek_answered, (seen, generation, sessions), answered),
        call_ensures(current_ready, (seen, generation, published, sessions), ready),
    ensures
        due <==> now >= last + 30_000_000_000,
        answered <==> seen >= generation && sessions > 0,
        ready <==> answered && published > 0,
{
}

/// While the last seek of a burst is awaited, the most that was answered counts: once it is there,
/// later looks cannot lose it.
pub proof fn law_settling_never_counts_back(
    settling: &mut Settling,
    again: &mut Settling,
    a: u64,
    b: u64,
    r: bool,
    s: bool,
)
    requires
        call_ensures(Settling::observe, (settling, a), r),
        call_ensures(Settling::observe, (again, b), s),
        *old(again) == *final(settling),
    ensures
        final(settling).want == old(settling).want,
        final(settling).last >= a && final(settling).last >= old(settling).last,
        final(settling).last == a || final(settling).last == old(settling).last,
        a >= old(settling).want ==> r,
        a < old(settling).want && old(settling).last < old(settling).want ==> !r,
        r ==> s,
        final(again).last >= a && final(again).last >= b,
{
}

/// A playback is over when nothing more was applied for a fifth of a second, once it had applied
/// something or reached the last time; more applied starts the time anew.
pub proof fn law_end_of_playback(
    first: &mut Playback,
    second: &mut Playback,
    third: &mut Playback,
    applied: u64,
    ts: u64,
    last_ts: u64,
    t1: u64,
    t2: u64,
    t3: u64,
    r: bool,
    s: bool,
    end: bool,
)
    requires
        !old(first).seeded,
        old(first).stable_since is None,
        call_ensures(Playback::observe, (first, applied, ts, last_ts, t1), r),
        call_ensures(Playback::observe, (second, applied, ts, last_ts, t2), s),
        call_ensures(Playback::observe, (third, applied, ts, last_ts, t3), end),
        *old(second) == *final(first),
        *old(third) == *final(second),
    ensures
        !r,
        ts >= last_ts ==> s == (t2 >= t1 && t2 - t1 >= 200_000_000),
        ts < last_ts ==> !s,
        ts < last_ts && applied > 0 ==> end == (t3 >= t2 && t3 - t2 >= 200_000_000),
        ts < last_ts && applied == 0 ==> !end,
        final(third).last_applied == applied,
{
}

} // verus!
