//! Loading the earlier days: which are expected to be taken, how long each may take, and what
//! is still missing at the end.

use super::cycle::{priors_fault, PriorLoadOutcome};
use crate::num::greatest;
use crate::text::{concat2, decimal, push_decimal, texts_of};
use vstd::prelude::*;

verus! {

/// How long one earlier day may take when the cycle has no limit.
pub const PRIOR_TIMEOUT_NS: u64 = 180_000_000_000;

/// How long a day that is expected to be skipped is watched.
pub const SKIP_WAIT_NS: u64 = 2_000_000_000;

/// An earlier day: its log, and its trade date where the log can be read.
#[derive(Debug)]
pub struct Prior {
    pub path: String,
    pub trade_date: Option<u32>,
}

/// Whether a day is expected to be skipped: it is not before the current one.
pub open spec fn skipped(current: Option<u32>, prior: Prior) -> bool {
    current is Some && prior.trade_date is Some && prior.trade_date->0 >= current->0
}

/// How many of the first `n` days are expected to be skipped.
pub open spec fn skips(current: Option<u32>, priors: Seq<Prior>, n: int) -> nat
    decreases n,
{
    if n <= 0 {
        0
    } else {
        skips(current, priors, n - 1) + (if skipped(current, priors[n - 1]) {
            1nat
        } else {
            0
        })
    }
}

fn is_skipped(current: Option<u32>, prior: &Prior) -> (r: bool)
    ensures
        r == skipped(current, *prior),
{
    match (current, prior.trade_date) {
        (Some(day), Some(date)) => date >= day,
        _ => false,
    }
}

/// How many days are expected to be taken, and how many to be skipped.
pub fn expected_prior_sets(priors: &Vec<Prior>, current: Option<u32>) -> (r: (u64, u64))
    ensures
        r.0 + r.1 == priors.len(),
        r.1 == skips(current, priors@, priors.len() as int),
{
    let mut accepted: u64 = 0;
    let mut skip: u64 = 0;
    let mut i: usize = 0;
    while i < priors.len()
        invariant
            i <= priors.len(),
            accepted + skip == i,
            skip == skips(current, priors@, i as int),
        decreases priors.len() - i,
    {
        if is_skipped(current, &priors[i]) {
            skip += 1;
        } else {
            accepted += 1;
        }
        i += 1;
    }
    (accepted, skip)
}

/// How long one day may take: an even share of two fifths of the cycle, two seconds at least, or
/// the timeout where the cycle has no limit.
pub open spec fn load_budget(cycle_secs: u64, accepted: u64) -> int {
    if cycle_secs == 0 {
        PRIOR_TIMEOUT_NS as int
    } else {
        greatest(
            greatest(cycle_secs * 2 / 5, 4) * 1_000_000_000 / greatest(accepted as int, 1),
            2_000_000_000,
        )
    }
}

/// How long one day may take, in nanoseconds.
pub fn per_load_ns(cycle_secs: u64, accepted: u64) -> (r: u128)
    requires
        cycle_secs * 2 <= u64::MAX,
    ensures
        r == load_budget(cycle_secs, accepted),
{
    if cycle_secs == 0 {
        return PRIOR_TIMEOUT_NS as u128;
    }
    let share: u64 = cycle_secs * 2 / 5;
    let pool: u128 = (if share < 4 {
        4
    } else {
        share
    }) as u128 * 1_000_000_000;
    let parts: u128 = (if accepted < 1 {
        1
    } else {
        accepted
    }) as u128;
    let each: u128 = pool / parts;
    if each < 2_000_000_000 {
        2_000_000_000
    } else {
        each
    }
}

/// The days being loaded, one after the other.
#[derive(Debug)]
pub struct PriorLoad {
    pub priors: Vec<Prior>,
    pub current: Option<u32>,
    /// When the cycle ends.
    pub deadline: u64,
    /// How long a day may take.
    pub budget: u128,
    /// The day that is loaded, or comes next.
    pub index: usize,
    /// The sessions before that day was asked for, and when it was.
    pub waiting: Option<(usize, u64)>,
    /// The days that were taken.
    pub accepted_seen: u64,
    /// What went wrong.
    pub incomplete: Vec<String>,
}

/// What to do next.
#[derive(Clone, Copy, Debug, PartialEq, Eq, Structural)]
pub enum LoadStep {
    /// Ask the engine for the day of that index.
    Load(usize),
    /// Every day was dealt with.
    Done,
}

/// The reports on the days from `i` on that the end of the cycle cut off.
pub open spec fn cut_off(current: Option<u32>, priors: Seq<Prior>, i: int) -> Seq<Seq<char>>
    decreases priors.len() - i,
{
    if i >= priors.len() {
        Seq::empty()
    } else if skipped(current, priors[i]) {
        cut_off(current, priors, i + 1)
    } else {
        seq!["deadline before LoadPriorSession "@ + priors[i].path@] + cut_off(
            current,
            priors,
            i + 1,
        )
    }
}

/// The report on a day that did not come in time. `elapsed` is the numeral of how long it was
/// waited for.
pub open spec fn late_text(
    priors: Seq<Prior>,
    i: int,
    elapsed: Seq<char>,
    before: usize,
) -> Seq<char> {
    "prior "@ + decimal((i + 1) as nat) + "/"@ + decimal(priors.len()) + " "@ + priors[i].path@
        + " not complete in "@ + elapsed + "s (sessions="@ + decimal(before as nat) + ")"@
}

impl PriorLoad {
    /// How many of the days that were dealt with were expected to be taken.
    pub open spec fn due(self) -> int {
        self.index - skips(self.current, self.priors@, self.index as int)
    }

    /// Whether the counts fit together: no more days were taken than expected, and as many where
    /// nothing went wrong.
    pub open spec fn wf(self) -> bool {
        &&& self.index <= self.priors.len()
        &&& self.accepted_seen <= self.due()
        &&& self.incomplete.len() == 0 ==> self.accepted_seen == self.due()
        &&& self.waiting is Some ==> self.index < self.priors.len()
    }

    /// Before the first day.
    pub fn new(priors: Vec<Prior>, current: Option<u32>, deadline: u64, budget: u128) -> (r:
        PriorLoad)
        ensures
            r.wf(),
            r.priors == priors,
            r.current == current,
            r.deadline == deadline,
            r.budget == budget,
            r.index == 0,
            r.waiting is None,
            r.accepted_seen == 0,
            r.incomplete.len() == 0,
    {
        PriorLoad {
            priors,
            current,
            deadline,
            budget,
            index: 0,
            waiting: None,
            accepted_seen: 0,
            incomplete: Vec::new(),
        }
    }

    /// Whether everything but the progress is unchanged.
    pub open spec fn same_plan(self, other: PriorLoad) -> bool {
        &&& self.priors == other.priors
        &&& self.current == other.current
        &&& self.deadline == other.deadline
        &&& self.budget == other.budget
    }

    /// The next day, unless the cycle is over: then the days that are left, and were expected to
    /// be taken, are reported.
    pub fn next(&mut self, now: u64) -> (r: LoadStep)
        requires
            old(self).wf(),
            old(self).waiting is None,
        ensures
            final(self).wf(),
            final(self).same_plan(*old(self)),
            final(self).waiting is None,
            final(self).accepted_seen == old(self).accepted_seen,
            old(self).index == old(self).priors.len() ==> r == LoadStep::Done && *final(self)
                == *old(self),
            old(self).index < old(self).priors.len() && now < old(self).deadline ==> r
                == LoadStep::Load(old(self).index) && *final(self) == *old(self),
            old(self).index < old(self).priors.len() && now >= old(self).deadline ==> r
                == LoadStep::Done && final(self).index == old(self).priors.len() && texts_of(
                final(self).incomplete@,
            ) == texts_of(old(self).incomplete@) + cut_off(
                old(self).current,
                old(self).priors@,
                old(self).index as int,
            ),
    {
        if self.index == self.priors.len() {
            return LoadStep::Done;
        }
        if now < self.deadline {
            return LoadStep::Load(self.index);
        }
        let ghost start = texts_of(self.incomplete@);
        assert(start + cut_off(self.current, self.priors@, self.index as int) =~= texts_of(
            self.incomplete@,
        ) + cut_off(self.current, self.priors@, self.index as int));
        while self.index < self.priors.len()
            invariant
                self.wf(),
                self.same_plan(*old(self)),
                self.waiting is None,
                self.accepted_seen == old(self).accepted_seen,
                texts_of(self.incomplete@) + cut_off(
                    self.current,
                    self.priors@,
                    self.index as int,
                ) == start + cut_off(self.current, self.priors@, old(self).index as int),
            decreases self.priors.len() - self.index,
        {
            let ghost before = texts_of(self.incomplete@);
            let ghost rest = cut_off(self.current, self.priors@, self.index + 1);
            if !is_skipped(self.current, &self.priors[self.index]) {
                let text: String = concat2(
                    "deadline before LoadPriorSession ",
                    self.priors[self.index].path.as_str(),
                );
                self.incomplete.push(text);
                assert(texts_of(self.incomplete@) =~= before.push(text@));
                assert(before + (seq![text@] + rest) =~= texts_of(self.incomplete@) + rest);
            }
            self.index += 1;
        }
        assert(texts_of(self.incomplete@) + Seq::<Seq<char>>::empty() =~= texts_of(
            self.incomplete@,
        ));
        LoadStep::Done
    }

    /// Takes in that the engine was asked for the day.
    pub fn on_asked(&mut self, sessions: usize, now: u64)
        requires
            old(self).wf(),
            old(self).waiting is None,
            old(self).index < old(self).priors.len(),
        ensures
            final(self).wf(),
            *final(self) == (PriorLoad { waiting: Some((sessions, now)), ..*old(self) }),
    {
        self.waiting = Some((sessions, now));
    }

    /// How long the day that was asked for may take.
    pub open spec fn wait_budget(self) -> int {
        if skipped(self.current, self.priors@[self.index as int]) {
            SKIP_WAIT_NS as int
        } else {
            self.budget as int
        }
    }

    /// Whether the day that was asked for is there, or waiting for it is over. `None` means that
    /// it is to be waited for.
    pub fn poll(&self, sessions: usize, now: u64) -> (r: Option<bool>)
        requires
            self.wf(),
            self.waiting is Some,
        ensures
            ({
                let (before, start) = self.waiting->0;
                r == (if now >= self.deadline || now - start > self.wait_budget() {
                    Some(false)
                } else if sessions > before {
                    Some(true)
                } else {
                    None
                })
            }),
    {
        let (before, start) = match self.waiting {
            Some(waiting) => waiting,
            None => (0, 0),
        };
        let limit: u128 = if is_skipped(self.current, &self.priors[self.index]) {
            SKIP_WAIT_NS as u128
        } else {
            self.budget
        };
        if now >= self.deadline || now.saturating_sub(start) as u128 > limit {
            Some(false)
        } else if sessions > before {
            Some(true)
        } else {
            None
        }
    }

    /// Takes in whether the day came: one that is expected to be skipped must not come, any other
    /// must.
    pub fn on_settled(&mut self, inserted: bool, elapsed: &str)
        requires
            old(self).wf(),
            old(self).waiting is Some,
        ensures
            final(self).wf(),
            final(self).same_plan(*old(self)),
            final(self).index == old(self).index + 1,
            final(self).waiting is None,
            ({
                let i = old(self).index as int;
                let skip = skipped(old(self).current, old(self).priors@[i]);
                &&& final(self).accepted_seen == old(self).accepted_seen + (if !skip && inserted {
                    1int
                } else {
                    0
                })
                &&& texts_of(final(self).incomplete@) == (if skip && inserted {
                    texts_of(old(self).incomplete@).push(
                        "expected skip but session inserted for "@ + old(self).priors@[i].path@,
                    )
                } else if !skip && !inserted {
                    texts_of(old(self).incomplete@).push(
                        late_text(old(self).priors@, i, elapsed@, (old(self).waiting->0).0),
                    )
                } else {
                    texts_of(old(self).incomplete@)
                })
            }),
    {
        let ghost before_texts = texts_of(self.incomplete@);
        let before: usize = match self.waiting {
            Some(waiting) => waiting.0,
            None => 0,
        };
        if is_skipped(self.current, &self.priors[self.index]) {
            if inserted {
                let text: String = concat2(
                    "expected skip but session inserted for ",
                    self.priors[self.index].path.as_str(),
                );
                self.incomplete.push(text);
                assert(texts_of(self.incomplete@) =~= before_texts.push(text@));
            }
        } else if inserted {
            self.accepted_seen += 1;
        } else {
            let mut text: String = "prior ".to_owned();
            push_decimal(&mut text, self.index as u64 + 1);
            text.append("/");
            push_decimal(&mut text, self.priors.len() as u64);
            text.append(" ");
            text.append(self.priors[self.index].path.as_str());
            text.append(" not complete in ");
            text.append(elapsed);
            text.append("s (sessions=");
            push_decimal(&mut text, before as u64);
            text.append(")");
            self.incomplete.push(text);
            assert(texts_of(self.incomplete@) =~= before_texts.push(text@));
        }
        self.waiting = None;
        self.index += 1;
    }

    /// What the loading came to, with the sessions that the engine then had.
    pub fn outcome(self, sessions: usize) -> (r: PriorLoadOutcome)
        requires
            self.wf(),
            self.index == self.priors.len(),
        ensures
            r.sessions == sessions,
            r.expected_accepted + r.expected_skips == self.priors.len(),
            r.expected_skips == skips(self.current, self.priors@, self.priors.len() as int),
            r.accepted_seen == self.accepted_seen,
            r.incomplete == self.incomplete,
            r.accepted_seen <= r.expected_accepted,
            r.incomplete.len() == 0 ==> r.accepted_seen == r.expected_accepted,
            priors_fault(r) is Some <==> self.incomplete.len() > 0,
    {
        let (expected_accepted, expected_skips) = expected_prior_sets(&self.priors, self.current);
        PriorLoadOutcome {
            sessions,
            expected_accepted,
            expected_skips,
            accepted_seen: self.accepted_seen,
            incomplete: self.incomplete,
        }
    }
}

/// The days that are expected to be skipped are those dated on or after the current one; a day
/// whose date cannot be read, and every day where the current one cannot, is expected to be taken.
pub proof fn law_later_days_are_skipped(
    priors: &Vec<Prior>,
    current: Option<u32>,
    r: (u64, u64),
)
    requires
        call_ensures(expected_prior_sets, (priors, current), r),
    ensures
        r.0 + r.1 == priors.len(),
        r.1 == priors@.filter(
            |p: Prior|
                current is Some && p.trade_date is Some && p.trade_date->0 >= current->0,
        ).len(),
        current is None ==> r.1 == 0,
{
    let later = |p: Prior|
        current is Some && p.trade_date is Some && p.trade_date->0 >= current->0;
    lemma_skips(priors@, current, priors.len() as int);
    assert(priors@.take(priors.len() as int) =~= priors@);
    if current is None {
        lemma_no_skips(priors@, priors.len() as int);
    }
}

proof fn lemma_skips(priors: Seq<Prior>, current: Option<u32>, n: int)
    requires
        0 <= n <= priors.len(),
    ensures
        skips(current, priors, n) == priors.take(n).filter(
            |p: Prior|
                current is Some && p.trade_date is Some && p.trade_date->0 >= current->0,
        ).len(),
    decreases n,
{
    let later = |p: Prior|
        current is Some && p.trade_date is Some && p.trade_date->0 >= current->0;
    reveal(Seq::filter);
    if n > 0 {
        lemma_skips(priors, current, n - 1);
        assert(priors.take(n).drop_last() =~= priors.take(n - 1));
        assert(priors.take(n).last() == priors[n - 1]);
    }
}

proof fn lemma_no_skips(priors: Seq<Prior>, n: int)
    ensures
        skips(None, priors, n) == 0,
    decreases n,
{
    if n > 0 {
        lemma_no_skips(priors, n - 1);
    }
}

/// A day may take three minutes where the cycle has no limit; else the days share two fifths of the
/// cycle, or four seconds if that is more, and each has two seconds at least.
pub proof fn law_share_of_the_cycle(cycle_secs: u64, accepted: u64, r: u128)
    requires
        call_ensures(per_load_ns, (cycle_secs, accepted), r),
    ensures
        cycle_secs == 0 ==> r == 180_000_000_000,
        cycle_secs > 0 ==> r >= 2_000_000_000,
        cycle_secs > 0 && accepted > 0 && r > 2_000_000_000 ==> r * accepted <= (if cycle_secs < 10 {
            4int
        } else {
            cycle_secs * 2 / 5
        }) * 1_000_000_000 < (r + 1) * accepted,
        cycle_secs >= 10 && accepted <= 1 ==> r == cycle_secs * 2 / 5 * 1_000_000_000,
{
    if cycle_secs >= 10 && accepted <= 1 {
        let pool = cycle_secs * 2 / 5 * 1_000_000_000;
        assert(greatest(cycle_secs * 2 / 5, 4) == cycle_secs * 2 / 5);
        assert(greatest(accepted as int, 1) == 1);
        vstd::arithmetic::div_mod::lemma_div_basics(pool);
    }
    if cycle_secs > 0 && accepted > 0 {
        let pool = greatest(cycle_secs * 2 / 5, 4) * 1_000_000_000;
        let n = accepted as int;
        let each = pool / n;
        vstd::arithmetic::div_mod::lemma_fundamental_div_mod(pool, n);
        vstd::arithmetic::div_mod::lemma_mod_bound(pool, n);
        assert(each * n <= pool < (each + 1) * n) by (nonlinear_arith)
            requires
                pool == n * each + pool % n,
                0 <= pool % n < n,
        ;
    }
}

/// A day that was asked for is there when the engine has more sessions than before; waiting for it
/// is over at the end of the cycle, or once its time is spent: two seconds for a day that is
/// expected to be skipped, and its share of the cycle for any other.
pub proof fn law_waiting_for_a_day(load: &PriorLoad, sessions: usize, now: u64, r: Option<bool>)
    requires
        load.wf(),
        load.waiting is Some,
        call_ensures(PriorLoad::poll, (load, sessions, now), r),
    ensures
        ({
            let day = load.priors@[load.index as int];
            let later = load.current is Some && day.trade_date is Some && day.trade_date->0
                >= load.current->0;
            let waited = now - (load.waiting->0).1;
            let over = now >= load.deadline || later && waited > 2_000_000_000 || !later && waited
                > load.budget;
            &&& r == Some(false) <==> over
            &&& r == Some(true) <==> !over && sessions > (load.waiting->0).0
        }),
{
}

/// A day counts as taken when it came and was expected to; one that should have come and did not,
/// or came and should not have, is reported; and the next day is the one behind it.
pub proof fn law_day_settled(load: &mut PriorLoad, inserted: bool, elapsed: &'static str)
    requires
        old(load).wf(),
        old(load).waiting is Some,
        call_ensures(PriorLoad::on_settled, (load, inserted, elapsed), ()),
    ensures
        ({
            let day = old(load).priors@[old(load).index as int];
            let later = old(load).current is Some && day.trade_date is Some && day.trade_date->0
                >= old(load).current->0;
            &&& final(load).index == old(load).index + 1
            &&& final(load).waiting is None
            &&& inserted && !later ==> final(load).accepted_seen == old(load).accepted_seen + 1
            &&& !inserted || later ==> final(load).accepted_seen == old(load).accepted_seen
            &&& inserted == later ==> final(load).incomplete.len() == old(load).incomplete.len() + 1
            &&& inserted != later ==> final(load).incomplete.len() == old(load).incomplete.len()
        }),
{
    assert(texts_of(final(load).incomplete@).len() == final(load).incomplete.len());
    assert(texts_of(old(load).incomplete@).len() == old(load).incomplete.len());
}

/// Days are asked for in turn until all were dealt with or the cycle is over; then nothing is left.
pub proof fn law_days_in_turn(load: &mut PriorLoad, now: u64, r: LoadStep)
    requires
        old(load).wf(),
        old(load).waiting is None,
        call_ensures(PriorLoad::next, (load, now), r),
    ensures
        r == LoadStep::Load(old(load).index) <==> old(load).index < old(load).priors.len() && now
            < old(load).deadline,
        r == LoadStep::Done <==> old(load).index == old(load).priors.len() || now >= old(
            load,
        ).deadline,
        r == LoadStep::Done ==> final(load).index == old(load).priors.len(),
        r != LoadStep::Done ==> *final(load) == *old(load),
        final(load).accepted_seen == old(load).accepted_seen,
{
}

/// A day that did not come in time is reported by its place among the days, how long it was waited
/// for and how many sessions there were; a later day that came all the same, by its path.
pub proof fn law_day_reported(load: &mut PriorLoad, inserted: bool, elapsed: &'static str)
    requires
        old(load).wf(),
        old(load).waiting is Some,
        call_ensures(PriorLoad::on_settled, (load, inserted, elapsed), ()),
    ensures
        ({
            let i = old(load).index;
            let day = old(load).priors@[i as int];
            let later = old(load).current is Some && day.trade_date is Some && day.trade_date->0
                >= old(load).current->0;
            let before = texts_of(old(load).incomplete@);
            &&& later && inserted ==> texts_of(final(load).incomplete@) == before.push(
                "expected skip but session inserted for "@ + day.path@,
            )
            &&& !later && !inserted ==> texts_of(final(load).incomplete@) == before.push(
                "prior "@ + decimal((i + 1) as nat) + "/"@ + decimal(old(load).priors@.len()) + " "@
                    + day.path@ + " not complete in "@ + elapsed@ + "s (sessions="@ + decimal(
                    (old(load).waiting->0).0 as nat,
                ) + ")"@,
            )
        }),
{
}

} // verus!
