//! The week's memory run: a current day, the days before it, and what they weigh.

use crate::text::{copied, decimal, join, joined, push_decimal, text_of, texts_of};
use vstd::prelude::*;

verus! {

/// The memory that a week may take, in bytes.
pub const RSS_BUDGET_BYTES: u64 = 2_147_483_648;

/// How long a run may take.
pub const TIMEOUT_NS: u64 = 600_000_000_000;

/// How long one earlier day may take.
pub const PRIOR_TIMEOUT_NS: u64 = 180_000_000_000;

/// How long nothing may change before the engine counts as idle.
pub const STABLE_NS: u64 = 200_000_000;

/// Whether the amount of memory is under the budget.
pub fn under_budget(hwm_kb: u64) -> (r: bool)
    ensures
        r == (hwm_kb * 1024 < RSS_BUDGET_BYTES),
{
    hwm_kb < 2_097_152
}

/// What waiting for a session comes to.
#[derive(Clone, Copy, Debug, PartialEq, Eq, Structural)]
pub enum Wait {
    /// It took too long.
    Expired,
    /// The session is there.
    Ready,
    /// Look again.
    Again,
}

/// Waits for the current session's first publication.
pub fn await_current(elapsed_ns: u64, generation: u64, sessions: usize) -> (r: Wait)
    ensures
        r == if elapsed_ns > TIMEOUT_NS {
            Wait::Expired
        } else if generation > 0 && sessions >= 1 {
            Wait::Ready
        } else {
            Wait::Again
        },
{
    if elapsed_ns > TIMEOUT_NS {
        Wait::Expired
    } else if generation > 0 && sessions >= 1 {
        Wait::Ready
    } else {
        Wait::Again
    }
}

/// Waits for an earlier day: there is one session more than before.
pub fn await_prior(
    elapsed_ns: u64,
    prior_elapsed_ns: u64,
    sessions_before: usize,
    sessions: usize,
) -> (r: Wait)
    ensures
        r == if elapsed_ns > TIMEOUT_NS || prior_elapsed_ns > PRIOR_TIMEOUT_NS {
            Wait::Expired
        } else if sessions > sessions_before {
            Wait::Ready
        } else {
            Wait::Again
        },
{
    if elapsed_ns > TIMEOUT_NS || prior_elapsed_ns > PRIOR_TIMEOUT_NS {
        Wait::Expired
    } else if sessions > sessions_before {
        Wait::Ready
    } else {
        Wait::Again
    }
}

/// What an engine published last, and since when it has not changed.
#[derive(Clone, Copy, Debug, PartialEq, Eq, Structural)]
pub struct Idle {
    pub generation: u64,
    pub sessions: usize,
    pub events_applied: u64,
    pub since: Option<u64>,
}

impl Idle {
    /// Nothing was published yet.
    pub fn new() -> (r: Idle)
        ensures
            r == (Idle { generation: 0, sessions: 0, events_applied: 0, since: None }),
    {
        Idle { generation: 0, sessions: 0, events_applied: 0, since: None }
    }

    /// Looks at what is published. The engine is idle once nothing changed for long enough.
    pub fn observe(&mut self, generation: u64, sessions: usize, events_applied: u64, now: u64) -> (r:
        bool)
        ensures
            ({
                let same = generation == old(self).generation && sessions == old(self).sessions
                    && events_applied == old(self).events_applied;
                &&& r == (generation > 0 && same && old(self).since is Some && now - old(
                    self,
                ).since->0 >= STABLE_NS)
                &&& *final(self) == (if generation == 0 {
                    *old(self)
                } else if same && old(self).since is Some {
                    *old(self)
                } else {
                    Idle { generation, sessions, events_applied, since: Some(now) }
                })
            }),
    {
        if generation == 0 {
            return false;
        }
        if generation == self.generation && sessions == self.sessions && events_applied
            == self.events_applied {
            match self.since {
                Some(since) => {
                    return now >= since && now - since >= STABLE_NS;
                },
                None => {
                    self.since = Some(now);
                },
            }
        } else {
            self.generation = generation;
            self.sessions = sessions;
            self.events_applied = events_applied;
            self.since = Some(now);
        }
        false
    }
}

/// What a run came to.
#[derive(Clone, Copy, Debug, PartialEq, Eq, Structural)]
pub struct Week {
    pub sessions: usize,
    /// The current day and the earlier ones.
    pub expected_sessions: usize,
    pub priors_completed: u64,
    pub prior_skips: u64,
    pub hwm_kb: u64,
}

impl Week {
    /// Whether the whole week is there.
    pub open spec fn loaded(self) -> bool {
        self.sessions >= self.expected_sessions && self.prior_skips == 0
    }

    /// Whether the run passed: the whole week is there and it is under the budget.
    pub fn pass(&self) -> (r: bool)
        ensures
            r == (self.loaded() && self.hwm_kb * 1024 < RSS_BUDGET_BYTES),
    {
        self.sessions >= self.expected_sessions && self.prior_skips == 0 && under_budget(
            self.hwm_kb,
        )
    }

    /// The notes on a run. `mib` is the numeral of the memory in mebibytes.
    pub open spec fn note_texts(self, label: Option<Seq<char>>, mib: Seq<char>) -> Seq<Seq<char>> {
        (match label {
            Some(text) => seq![text],
            None => Seq::empty(),
        }) + seq![
            "sessions="@ + decimal(self.sessions as nat) + " expected="@ + decimal(
                self.expected_sessions as nat,
            ) + "; priors_completed="@ + decimal(self.priors_completed as nat) + " prior_skips="@
                + decimal(self.prior_skips as nat) + "; VmHWM="@ + decimal(self.hwm_kb as nat)
                + " kB ("@ + mib + " MiB) vs budget 2048 MiB"@,
        ] + (if self.sessions < self.expected_sessions {
            seq![
                "incomplete: only "@ + decimal(self.sessions as nat) + "/"@ + decimal(
                    self.expected_sessions as nat,
                ) + " sessions in snapshot"@,
            ]
        } else {
            Seq::empty()
        }) + (if self.prior_skips > 0 {
            seq![
                "prior_skips="@ + decimal(self.prior_skips as nat)
                    + " (loud skips — check trade dates / instrument)"@,
            ]
        } else {
            Seq::empty()
        })
    }

    /// The notes on a run.
    pub fn notes(&self, label: &Option<String>, mib: &str) -> (r: String)
        ensures
            r@ == joined(self.note_texts(text_of(*label), mib@), "; "@),
    {
        let mut notes: Vec<String> = Vec::new();
        if let Some(text) = copied(label) {
            notes.push(text);
        }
        let mut text: String = "sessions=".to_owned();
        push_decimal(&mut text, self.sessions as u64);
        text.append(" expected=");
        push_decimal(&mut text, self.expected_sessions as u64);
        text.append("; priors_completed=");
        push_decimal(&mut text, self.priors_completed);
        text.append(" prior_skips=");
        push_decimal(&mut text, self.prior_skips);
        text.append("; VmHWM=");
        push_decimal(&mut text, self.hwm_kb);
        text.append(" kB (");
        text.append(mib);
        text.append(" MiB) vs budget 2048 MiB");
        notes.push(text);
        if self.sessions < self.expected_sessions {
            let mut text: String = "incomplete: only ".to_owned();
            push_decimal(&mut text, self.sessions as u64);
            text.append("/");
            push_decimal(&mut text, self.expected_sessions as u64);
            text.append(" sessions in snapshot");
            notes.push(text);
        }
        if self.prior_skips > 0 {
            let mut text: String = "prior_skips=".to_owned();
            push_decimal(&mut text, self.prior_skips);
            text.append(" (loud skips — check trade dates / instrument)");
            notes.push(text);
        }
        assert(texts_of(notes@) =~= self.note_texts(text_of(*label), mib@));
        join(&notes, "; ")
    }
}

/// A week passes when every expected session is there, none was skipped, and the process never held
/// two gibibytes.
pub proof fn law_week_passes(week: &Week, small: bool, r: bool)
    requires
        call_ensures(under_budget, (week.hwm_kb,), small),
        call_ensures(Week::pass, (week,), r),
    ensures
        small <==> week.hwm_kb < 2 * 1024 * 1024,
        r <==> small && week.sessions >= week.expected_sessions && week.prior_skips == 0,
{
}

/// Waiting ends after ten minutes, and for an earlier day after three; until then it ends when the
/// current session is published, or when there are more sessions than before.
pub proof fn law_waits(
    elapsed_ns: u64,
    prior_ns: u64,
    generation: u64,
    before: usize,
    sessions: usize,
    r: Wait,
    s: Wait,
)
    requires
        call_ensures(await_current, (elapsed_ns, generation, sessions), r),
        call_ensures(await_prior, (elapsed_ns, prior_ns, before, sessions), s),
    ensures
        r == Wait::Expired <==> elapsed_ns > 600_000_000_000,
        r == Wait::Ready <==> elapsed_ns <= 600_000_000_000 && generation > 0 && sessions > 0,
        s == Wait::Expired <==> elapsed_ns > 600_000_000_000 || prior_ns > 180_000_000_000,
        s == Wait::Ready <==> elapsed_ns <= 600_000_000_000 && prior_ns <= 180_000_000_000
            && sessions > before,
{
}

/// An engine is idle once the same state was published for a fifth of a second; a state that
/// differs in anything starts the time anew, and before anything is published it never is.
pub proof fn law_idle_after_a_while(
    first: &mut Idle,
    second: &mut Idle,
    a: (u64, usize, u64),
    b: (u64, usize, u64),
    seen: u64,
    now: u64,
    r: bool,
    s: bool,
)
    requires
        call_ensures(Idle::observe, (first, a.0, a.1, a.2, seen), r),
        call_ensures(Idle::observe, (second, b.0, b.1, b.2, now), s),
        *old(second) == *final(first),
        (old(first).generation, old(first).sessions, old(first).events_applied) != a,
    ensures
        a.0 > 0 ==> !r,
        a.0 > 0 && a == b ==> s == (now >= seen && now - seen >= 200_000_000),
        a.0 > 0 && a != b ==> !s,
        b.0 == 0 ==> !s,
        a.0 > 0 && b.0 > 0 && a != b ==> final(second).since == Some(now),
        a.0 > 0 && a == b ==> final(second).since == Some(seen),
{
}

/// The notes on a week whose sessions are all there, without a label, are one line of its counts.
pub proof fn law_week_notes(week: &Week, label: &Option<String>, mib: &'static str, r: String)
    requires
        call_ensures(Week::notes, (week, label, mib), r),
        *label is None,
        week.sessions >= week.expected_sessions,
        week.prior_skips == 0,
    ensures
        r@ == "sessions="@ + decimal(week.sessions as nat) + " expected="@ + decimal(
            week.expected_sessions as nat,
        ) + "; priors_completed="@ + decimal(week.priors_completed as nat) + " prior_skips="@
            + decimal(week.prior_skips as nat) + "; VmHWM="@ + decimal(week.hwm_kb as nat)
            + " kB ("@ + mib@ + " MiB) vs budget 2048 MiB"@,
{
    let all = week.note_texts(None, mib@);
    assert(all =~= seq![all[0]]);
}

/// A week that is incomplete or had days skipped says so behind its counts.
pub proof fn law_week_shortfalls(week: &Week, label: &Option<String>, mib: &'static str, r: String)
    requires
        call_ensures(Week::notes, (week, label, mib), r),
        *label is None,
    ensures
        ({
            let counts = "sessions="@ + decimal(week.sessions as nat) + " expected="@ + decimal(
                week.expected_sessions as nat,
            ) + "; priors_completed="@ + decimal(week.priors_completed as nat) + " prior_skips="@
                + decimal(week.prior_skips as nat) + "; VmHWM="@ + decimal(week.hwm_kb as nat)
                + " kB ("@ + mib@ + " MiB) vs budget 2048 MiB"@;
            let short = "incomplete: only "@ + decimal(week.sessions as nat) + "/"@ + decimal(
                week.expected_sessions as nat,
            ) + " sessions in snapshot"@;
            let skips = "prior_skips="@ + decimal(week.prior_skips as nat)
                + " (loud skips — check trade dates / instrument)"@;
            &&& week.sessions < week.expected_sessions && week.prior_skips == 0 ==> r@ == counts
                + "; "@ + short
            &&& week.sessions >= week.expected_sessions && week.prior_skips > 0 ==> r@ == counts
                + "; "@ + skips
        }),
{
    let texts = week.note_texts(text_of(*label), mib@);
    reveal_with_fuel(joined, 3);
    if texts.len() == 2 {
        assert(texts =~= seq![texts[0], texts[1]]);
        assert(joined(texts, "; "@) =~= texts[0] + "; "@ + texts[1]);
    }
}

} // verus!
