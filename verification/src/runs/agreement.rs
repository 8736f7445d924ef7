//! The agreement run: every state that the engine publishes is checked, until playback ends.

use crate::mp_view::{agreement, check_pane_agreement, displayed, searchable, VolumeMismatch};
use crate::render::{DomPriceRow, DomRenderState, ProfileRenderState};
use crate::text::{
    concat2, decimal, join, joined, push_decimal, push_signed, signed_decimal, text_of,
    texts_of,
};
use vstd::prelude::*;

verus! {

/// How long nothing may change before playback counts as over.
pub const STABLE_DONE_NS: u64 = 50_000_000;

/// What is wrong between the rows `i` and `i + 1` of a ladder.
pub open spec fn step_fault(rows: Seq<DomPriceRow>, tick: i64, i: int) -> Option<Seq<char>> {
    let a = rows[i].price.0 as int;
    let b = rows[i + 1].price.0 as int;
    if b <= a {
        Some(
            "DOM rows not strictly ascending: "@ + signed_decimal(a) + " then "@ + signed_decimal(b),
        )
    } else if b - a != tick {
        Some(
            "DOM rows not contiguous by tick_size="@ + signed_decimal(tick as int) + ": "@
                + signed_decimal(a) + " then "@ + signed_decimal(b) + " (gap "@ + decimal(
                (b - a) as nat,
            ) + ")"@,
        )
    } else {
        None
    }
}

/// What is wrong first among the rows from `i` on.
pub open spec fn ladder_fault(rows: Seq<DomPriceRow>, tick: i64, i: int) -> Option<Seq<char>>
    decreases rows.len() - i,
{
    if i + 1 >= rows.len() {
        None
    } else if step_fault(rows, tick, i) is Some {
        step_fault(rows, tick, i)
    } else {
        ladder_fault(rows, tick, i + 1)
    }
}

/// What is wrong with the ladder: it has to climb by one tick from row to row.
pub open spec fn structure_fault(dom: DomRenderState) -> Option<Seq<char>> {
    if dom.rows.len() == 0 {
        None
    } else if dom.tick_size.0 <= 0 {
        Some("DOM tick_size must be positive, got "@ + signed_decimal(dom.tick_size.0 as int))
    } else {
        ladder_fault(dom.rows@, dom.tick_size.0, 0)
    }
}

/// In a ladder with nothing wrong, the price of a row follows from its place.
pub proof fn law_sound_ladder(dom: DomRenderState, i: int)
    requires
        structure_fault(dom) is None,
        0 <= i < dom.rows.len(),
    ensures
        dom.rows@[i].price.0 == dom.rows@[0].price.0 + i * dom.tick_size.0,
        dom.tick_size.0 > 0,
    decreases i,
{
    if i > 0 {
        law_sound_ladder(dom, i - 1);
        lemma_no_step_fault(dom.rows@, dom.tick_size.0, 0, i - 1);
        let tick = dom.tick_size.0 as int;
        assert((i - 1) * tick + tick == i * tick) by (nonlinear_arith);
    } else {
        assert(0 * dom.tick_size.0 == 0);
    }
}

proof fn lemma_no_step_fault(rows: Seq<DomPriceRow>, tick: i64, from: int, i: int)
    requires
        ladder_fault(rows, tick, from) is None,
        0 <= from <= i < rows.len() - 1,
    ensures
        step_fault(rows, tick, i) is None,
    decreases i - from,
{
    if from < i {
        lemma_no_step_fault(rows, tick, from + 1, i);
    }
}

fn check_step(rows: &Vec<DomPriceRow>, tick: i64, i: usize) -> (r: Option<String>)
    requires
        i + 1 < rows.len(),
        tick > 0,
    ensures
        text_of(r) == step_fault(rows@, tick, i as int),
{
    let a: i64 = rows[i].price.0;
    let b: i64 = rows[i + 1].price.0;
    if b <= a {
        let mut text: String = "DOM rows not strictly ascending: ".to_owned();
        push_signed(&mut text, a);
        text.append(" then ");
        push_signed(&mut text, b);
        return Some(text);
    }
    let gap: i128 = b as i128 - a as i128;
    if gap != tick as i128 {
        let mut text: String = "DOM rows not contiguous by tick_size=".to_owned();
        push_signed(&mut text, tick);
        text.append(": ");
        push_signed(&mut text, a);
        text.append(" then ");
        push_signed(&mut text, b);
        text.append(" (gap ");
        push_decimal(&mut text, gap as u64);
        text.append(")");
        return Some(text);
    }
    None
}

/// What is wrong with the ladder, if anything is.
pub fn check_dom_structure(dom: &DomRenderState) -> (r: Option<String>)
    ensures
        text_of(r) == structure_fault(*dom),
{
    if dom.rows.len() == 0 {
        return None;
    }
    if dom.tick_size.0 <= 0 {
        let mut text: String = "DOM tick_size must be positive, got ".to_owned();
        push_signed(&mut text, dom.tick_size.0);
        return Some(text);
    }
    let tick: i64 = dom.tick_size.0;
    let mut i: usize = 0;
    while i < dom.rows.len() - 1
        invariant
            i < dom.rows.len(),
            tick > 0,
            tick == dom.tick_size.0,
            structure_fault(*dom) == ladder_fault(dom.rows@, tick, i as int),
        decreases dom.rows.len() - i,
    {
        match check_step(&dom.rows, tick, i) {
            Some(text) => {
                return Some(text);
            },
            None => {},
        }
        i += 1;
    }
    None
}

/// What was wrong with a published state.
#[derive(Clone, Copy, Debug, PartialEq, Eq, Structural)]
pub enum FailureKind {
    Structure,
    VolumeMismatch,
}

/// The first published state with which something was wrong.
#[derive(Clone, Copy, Debug, PartialEq, Eq, Structural)]
pub struct FailureDetail {
    pub generation: u64,
    pub applied_seq: u64,
    pub applied_ts: u64,
    pub price: i64,
    pub profile_volume: u64,
    pub dom_volume: u64,
    pub kind: FailureKind,
}

/// What is known of a published state besides what it displays.
#[derive(Clone, Copy, Debug, PartialEq, Eq, Structural)]
pub struct Published {
    pub generation: u64,
    pub applied_seq: u64,
    pub applied_ts: u64,
    pub events_applied: u64,
}

/// The detail on a ladder with something wrong.
pub open spec fn structural_detail(state: Published) -> FailureDetail {
    FailureDetail {
        generation: state.generation,
        applied_seq: state.applied_seq,
        applied_ts: state.applied_ts,
        price: 0,
        profile_volume: 0,
        dom_volume: 0,
        kind: FailureKind::Structure,
    }
}

/// The detail on two panes that disagree.
pub open spec fn mismatch_of(state: Published, mismatch: VolumeMismatch) -> FailureDetail {
    FailureDetail {
        generation: state.generation,
        applied_seq: state.applied_seq,
        applied_ts: state.applied_ts,
        price: mismatch.price.0,
        profile_volume: mismatch.profile_volume,
        dom_volume: mismatch.dom_volume,
        kind: FailureKind::VolumeMismatch,
    }
}

/// The detail on two panes that disagree.
pub fn mismatch_detail(state: Published, mismatch: &VolumeMismatch) -> (r: FailureDetail)
    ensures
        r == mismatch_of(state, *mismatch),
{
    FailureDetail {
        generation: state.generation,
        applied_seq: state.applied_seq,
        applied_ts: state.applied_ts,
        price: mismatch.price.0,
        profile_volume: mismatch.profile_volume,
        dom_volume: mismatch.dom_volume,
        kind: FailureKind::VolumeMismatch,
    }
}

/// How many prices two panes share, or where they disagree.
pub open spec fn panes(profile: ProfileRenderState, dom: DomRenderState) -> Result<
    nat,
    VolumeMismatch,
> {
    match displayed(profile) {
        None => Ok(0),
        Some(session) => agreement(session.rows@, dom.rows@, dom.rows.len() as nat),
    }
}

/// The states seen so far and what was wrong with them.
#[derive(Debug)]
pub struct Monitor {
    pub last_seen_gen: u64,
    pub generations_observed: u64,
    pub agreement_failures: u64,
    pub structural_failures: u64,
    pub prices_compared_total: u64,
    pub first_failure: Option<FailureDetail>,
    pub first_structural_msg: Option<String>,
    pub last_coverage_applied: u64,
    /// Since when nothing changed, where that is being timed.
    pub stable_since: Option<u64>,
    /// The generation and the sequence that last changed.
    pub last_stable_key: (u64, u64),
}

impl Monitor {
    /// Whether the counts fit together. Generations only grow, so no more states than
    /// generations were seen.
    pub open spec fn wf(self) -> bool {
        &&& self.generations_observed <= self.last_seen_gen
        &&& self.agreement_failures <= self.generations_observed
        &&& self.structural_failures <= self.generations_observed
        &&& (self.first_failure is Some) == (self.agreement_failures > 0
            || self.structural_failures > 0)
    }

    /// A monitor that saw nothing yet.
    pub fn new() -> (r: Monitor)
        ensures
            r.wf(),
            r.last_seen_gen == 0,
            r.generations_observed == 0,
            r.agreement_failures == 0,
            r.structural_failures == 0,
            r.prices_compared_total == 0,
            r.first_failure is None,
            r.first_structural_msg is None,
            r.last_coverage_applied == 0,
            r.stable_since is None,
            r.last_stable_key == (0u64, 0u64),
    {
        Monitor {
            last_seen_gen: 0,
            generations_observed: 0,
            agreement_failures: 0,
            structural_failures: 0,
            prices_compared_total: 0,
            first_failure: None,
            first_structural_msg: None,
            last_coverage_applied: 0,
            stable_since: None,
            last_stable_key: (0, 0),
        }
    }

    /// Looks at the state in the slot. One that is new is checked; one that was seen is timed.
    /// Playback is over once some event was applied and nothing changed for long enough.
    pub fn observe(
        &mut self,
        state: Published,
        profile: &ProfileRenderState,
        dom: &DomRenderState,
        now: u64,
    ) -> (r: bool)
        requires
            old(self).wf(),
            searchable(*profile),
            panes(*profile, *dom) is Ok ==> old(self).prices_compared_total + panes(
                *profile,
                *dom,
            )->Ok_0 <= u64::MAX,
        ensures
            final(self).wf(),
            state.generation > old(self).last_seen_gen ==> ({
                let fault = structure_fault(*dom);
                let agreed = panes(*profile, *dom);
                &&& !r
                &&& final(self).last_seen_gen == state.generation
                &&& final(self).generations_observed == old(self).generations_observed + 1
                &&& final(self).last_coverage_applied == state.events_applied
                &&& final(self).structural_failures == old(self).structural_failures + (
                if fault is Some {
                    1int
                } else {
                    0
                })
                &&& final(self).agreement_failures == old(self).agreement_failures + (
                if agreed is Err {
                    1int
                } else {
                    0
                })
                &&& final(self).prices_compared_total == old(self).prices_compared_total + (
                match agreed {
                    Ok(compared) => compared as int,
                    Err(_) => 0,
                })
                &&& final(self).first_failure == (if old(self).first_failure is Some {
                    old(self).first_failure
                } else if fault is Some {
                    Some(structural_detail(state))
                } else {
                    match agreed {
                        Ok(_) => None,
                        Err(mismatch) => Some(mismatch_of(state, mismatch)),
                    }
                })
                &&& text_of(final(self).first_structural_msg) == (if old(self).first_failure is None
                    && fault is Some {
                    fault
                } else {
                    text_of(old(self).first_structural_msg)
                })
                &&& final(self).stable_since is None
                &&& final(self).last_stable_key == (state.generation, state.applied_seq)
            }),
            state.generation <= old(self).last_seen_gen ==> ({
                let key = (state.generation, state.applied_seq);
                let same = state.generation > 0 && key == old(self).last_stable_key;
                &&& final(self).last_seen_gen == old(self).last_seen_gen
                &&& final(self).generations_observed == old(self).generations_observed
                &&& final(self).last_coverage_applied == old(self).last_coverage_applied
                &&& final(self).structural_failures == old(self).structural_failures
                &&& final(self).agreement_failures == old(self).agreement_failures
                &&& final(self).prices_compared_total == old(self).prices_compared_total
                &&& final(self).first_failure == old(self).first_failure
                &&& final(self).first_structural_msg == old(self).first_structural_msg
                &&& final(self).last_stable_key == key
                &&& final(self).stable_since == (if same && old(self).stable_since is Some {
                    old(self).stable_since
                } else {
                    Some(now)
                })
                &&& r == (same && old(self).stable_since is Some && now - old(self).stable_since->0
                    >= STABLE_DONE_NS && old(self).last_coverage_applied > 0)
            }),
    {
        if state.generation > self.last_seen_gen {
            self.generations_observed += 1;
            self.last_seen_gen = state.generation;
            self.last_coverage_applied = state.events_applied;
            if let Some(text) = check_dom_structure(dom) {
                self.structural_failures += 1;
                if self.first_failure.is_none() {
                    self.first_failure = Some(
                        FailureDetail {
                            generation: state.generation,
                            applied_seq: state.applied_seq,
                            applied_ts: state.applied_ts,
                            price: 0,
                            profile_volume: 0,
                            dom_volume: 0,
                            kind: FailureKind::Structure,
                        },
                    );
                    self.first_structural_msg = Some(text);
                }
            }
            match check_pane_agreement(profile, dom) {
                Ok(compared) => {
                    self.prices_compared_total += compared as u64;
                },
                Err(mismatch) => {
                    self.agreement_failures += 1;
                    if self.first_failure.is_none() {
                        self.first_failure = Some(mismatch_detail(state, &mismatch));
                    }
                },
            }
            self.stable_since = None;
            self.last_stable_key = (state.generation, state.applied_seq);
            return false;
        }
        let same: bool = state.generation > 0 && state.generation == self.last_stable_key.0
            && state.applied_seq == self.last_stable_key.1;
        if same {
            match self.stable_since {
                Some(since) => {
                    return now >= since && now - since >= STABLE_DONE_NS
                        && self.last_coverage_applied > 0;
                },
                None => {
                    self.stable_since = Some(now);
                },
            }
        } else {
            self.last_stable_key = (state.generation, state.applied_seq);
            self.stable_since = Some(now);
        }
        false
    }

    /// Whether nothing was wrong.
    pub fn pass(&self) -> (r: bool)
        ensures
            r == (self.agreement_failures == 0 && self.structural_failures == 0),
    {
        self.agreement_failures == 0 && self.structural_failures == 0
    }

    /// How many published states were not seen.
    pub fn missed(&self, publications: u64) -> (r: u64)
        ensures
            r == if publications >= self.generations_observed {
                publications - self.generations_observed
            } else {
                0
            },
    {
        publications.saturating_sub(self.generations_observed)
    }

    /// The notes on a run.
    pub open spec fn note_texts(self, smoke: bool, timed_out: bool, publications: u64) -> Seq<
        Seq<char>,
    > {
        let missed = if publications >= self.generations_observed {
            publications - self.generations_observed
        } else {
            0
        };
        (if smoke {
            seq!["SMOKE"@]
        } else {
            Seq::empty()
        }) + (if timed_out {
            seq![
                "stopped on wall timeout "@ + (if smoke {
                    "30.0"@
                } else {
                    "120.0"@
                }) + "s (playback may be incomplete)"@,
            ]
        } else {
            Seq::empty()
        }) + (match text_of(self.first_structural_msg) {
            Some(text) => seq!["first structural failure: "@ + text],
            None => Seq::empty(),
        }) + seq![
            "latest-value slot: observed "@ + decimal(self.generations_observed as nat) + "/"@
                + decimal(publications as nat) + " publications (missed ≈ "@ + decimal(
                missed as nat,
            ) + "); agreement checked on observed coherent snapshots only"@,
        ]
    }

    /// The notes on a run.
    pub fn notes(&self, smoke: bool, timed_out: bool, publications: u64) -> (r: String)
        ensures
            r@ == joined(self.note_texts(smoke, timed_out, publications), "; "@),
    {
        let mut notes: Vec<String> = Vec::new();
        if smoke {
            notes.push("SMOKE".to_owned());
        }
        if timed_out {
            let mut text: String = "stopped on wall timeout ".to_owned();
            text.append(
                if smoke {
                    "30.0"
                } else {
                    "120.0"
                },
            );
            text.append("s (playback may be incomplete)");
            notes.push(text);
        }
        if let Some(text) = &self.first_structural_msg {
            notes.push(concat2("first structural failure: ", text.as_str()));
        }
        let mut text: String = "latest-value slot: observed ".to_owned();
        push_decimal(&mut text, self.generations_observed);
        text.append("/");
        push_decimal(&mut text, publications);
        text.append(" publications (missed ≈ ");
        push_decimal(&mut text, self.missed(publications));
        text.append("); agreement checked on observed coherent snapshots only");
        notes.push(text);
        assert(texts_of(notes@) =~= self.note_texts(smoke, timed_out, publications));
        join(&notes, "; ")
    }
}

/// How long a run may take, in nanoseconds.
pub fn timeout_ns(smoke: bool) -> (r: u64)
    ensures
        r == if smoke {
            30_000_000_000u64
        } else {
            120_000_000_000
        },
{
    if smoke {
        30_000_000_000
    } else {
        120_000_000_000
    }
}

/// A ladder is sound exactly where it is empty, or its tick is positive and each row stands one tick
/// above the row before it.
pub proof fn law_sound_exactly(dom: &DomRenderState, r: Option<String>)
    requires
        call_ensures(check_dom_structure, (dom,), r),
    ensures
        r is None <==> dom.rows.len() == 0 || dom.tick_size.0 > 0 && forall|i: int|
            0 <= i < dom.rows.len() - 1 ==> (#[trigger] dom.rows@[i + 1]).price.0
                - dom.rows@[i].price.0 == dom.tick_size.0,
{
    let rows = dom.rows@;
    let tick = dom.tick_size.0;
    if rows.len() > 0 && tick > 0 {
        if r is None {
            assert forall|i: int| 0 <= i < rows.len() - 1 implies (#[trigger] rows[i + 1]).price.0
                - rows[i].price.0 == tick by {
                lemma_no_step_fault(rows, tick, 0, i);
            }
        } else if forall|i: int|
            0 <= i < rows.len() - 1 ==> (#[trigger] rows[i + 1]).price.0 - rows[i].price.0
                == tick {
            lemma_sound_from(rows, tick, 0);
        }
    }
}

proof fn lemma_sound_from(rows: Seq<DomPriceRow>, tick: i64, from: int)
    requires
        tick > 0,
        0 <= from,
        forall|i: int|
            0 <= i < rows.len() - 1 ==> (#[trigger] rows[i + 1]).price.0 - rows[i].price.0 == tick,
    ensures
        ladder_fault(rows, tick, from) is None,
    decreases rows.len() - from,
{
    if from + 1 < rows.len() {
        assert(rows[from + 1].price.0 - rows[from].price.0 == tick);
        lemma_sound_from(rows, tick, from + 1);
    }
}

/// A state that was not seen before is checked once: its ladder and its panes, each failure counted
/// apart, and the prices compared are added up. The first failure is kept with the place where it
/// was seen; of a ladder and its panes that fail together it is the ladder.
pub proof fn law_each_state_checked_once(
    monitor: &mut Monitor,
    state: Published,
    profile: &ProfileRenderState,
    dom: &DomRenderState,
    now: u64,
    r: bool,
    fault: Option<String>,
    agreed: Result<usize, VolumeMismatch>,
)
    requires
        old(monitor).wf(),
        searchable(*profile),
        call_ensures(Monitor::observe, (monitor, state, profile, dom, now), r),
        call_ensures(check_dom_structure, (dom,), fault),
        call_ensures(check_pane_agreement, (profile, dom), agreed),
    ensures
        state.generation > old(monitor).last_seen_gen ==> {
            &&& !r
            &&& final(monitor).last_seen_gen == state.generation
            &&& final(monitor).generations_observed == old(monitor).generations_observed + 1
            &&& final(monitor).last_coverage_applied == state.events_applied
            &&& fault is Some ==> final(monitor).structural_failures == old(
                monitor,
            ).structural_failures + 1
            &&& fault is None ==> final(monitor).structural_failures == old(
                monitor,
            ).structural_failures
            &&& agreed is Err ==> final(monitor).agreement_failures == old(
                monitor,
            ).agreement_failures + 1 && final(monitor).prices_compared_total == old(
                monitor,
            ).prices_compared_total
            &&& agreed is Ok ==> final(monitor).agreement_failures == old(
                monitor,
            ).agreement_failures && final(monitor).prices_compared_total == old(
                monitor,
            ).prices_compared_total + agreed->Ok_0
            &&& old(monitor).first_failure is Some ==> final(monitor).first_failure == old(
                monitor,
            ).first_failure
            &&& old(monitor).first_failure is None ==> {
                &&& final(monitor).first_failure is Some <==> fault is Some || agreed is Err
                &&& final(monitor).first_failure is Some ==> {
                    let first = final(monitor).first_failure->0;
                    &&& first.generation == state.generation
                    &&& first.applied_seq == state.applied_seq
                    &&& first.applied_ts == state.applied_ts
                    &&& fault is Some ==> first.kind == FailureKind::Structure
                    &&& fault is None ==> {
                        &&& first.kind == FailureKind::VolumeMismatch
                        &&& first.price == agreed->Err_0.price.0
                        &&& first.profile_volume == agreed->Err_0.profile_volume
                        &&& first.dom_volume == agreed->Err_0.dom_volume
                    }
                }
            }
        },
        state.generation <= old(monitor).last_seen_gen ==> {
            &&& final(monitor).generations_observed == old(monitor).generations_observed
            &&& final(monitor).structural_failures == old(monitor).structural_failures
            &&& final(monitor).agreement_failures == old(monitor).agreement_failures
            &&& final(monitor).prices_compared_total == old(monitor).prices_compared_total
            &&& final(monitor).first_failure == old(monitor).first_failure
            &&& r ==> old(monitor).last_coverage_applied > 0 && state.generation > 0
        },
{
}

/// Playback is over when the same state, with events applied, was still there a twentieth of a second
/// after it was first seen again.
pub proof fn law_playback_over(
    first: &mut Monitor,
    second: &mut Monitor,
    state: Published,
    profile: &ProfileRenderState,
    dom: &DomRenderState,
    seen: u64,
    now: u64,
    r: bool,
    s: bool,
)
    requires
        old(first).wf(),
        call_ensures(Monitor::observe, (first, state, profile, dom, seen), r),
        call_ensures(Monitor::observe, (second, state, profile, dom, now), s),
        *old(second) == *final(first),
        0 < state.generation <= old(first).last_seen_gen,
        old(first).stable_since is None,
    ensures
        !r,
        s == (now >= seen && now - seen >= 50_000_000 && old(first).last_coverage_applied > 0),
{
}

/// A run passes when nothing was wrong; states that were published and not seen are missed.
pub proof fn law_monitor_judges(monitor: &Monitor, publications: u64, r: bool, missed: u64)
    requires
        call_ensures(Monitor::pass, (monitor,), r),
        call_ensures(Monitor::missed, (monitor, publications), missed),
    ensures
        r <==> monitor.agreement_failures == 0 && monitor.structural_failures == 0,
        publications >= monitor.generations_observed ==> missed + monitor.generations_observed
            == publications,
        publications < monitor.generations_observed ==> missed == 0,
{
}

/// A smoke run waits half a minute for the engine, any other two minutes.
pub proof fn law_patience(smoke: bool, r: u64)
    requires
        call_ensures(timeout_ns, (smoke,), r),
    ensures
        smoke ==> r == 30 * 1_000_000_000,
        !smoke ==> r == 4 * 30 * 1_000_000_000,
{
}

/// The detail of a mismatch names the state it was found in, the price, and the volume of each
/// pane at that price.
pub proof fn law_mismatch_detailed(state: Published, mismatch: &VolumeMismatch, r: FailureDetail)
    requires
        call_ensures(mismatch_detail, (state, mismatch), r),
    ensures
        r.generation == state.generation,
        r.applied_seq == state.applied_seq,
        r.applied_ts == state.applied_ts,
        r.price == mismatch.price.0,
        r.profile_volume == mismatch.profile_volume,
        r.dom_volume == mismatch.dom_volume,
        r.kind == FailureKind::VolumeMismatch,
{
}

proof fn lemma_first_fault(rows: Seq<DomPriceRow>, tick: i64, from: int, i: int)
    requires
        0 <= from <= i < rows.len() - 1,
        forall|j: int| from <= j < i ==> (#[trigger] step_fault(rows, tick, j)) is None,
        step_fault(rows, tick, i) is Some,
    ensures
        ladder_fault(rows, tick, from) == step_fault(rows, tick, i),
    decreases i - from,
{
    if from < i {
        assert(step_fault(rows, tick, from) is None);
        lemma_first_fault(rows, tick, from + 1, i);
    }
}

/// The first step of a ladder that is not one tick up is reported with its two prices, in order.
pub proof fn law_fault_named(dom: &DomRenderState, r: Option<String>, i: int)
    requires
        call_ensures(check_dom_structure, (dom,), r),
        0 <= i < dom.rows@.len() - 1,
        dom.tick_size.0 > 0,
        forall|j: int|
            0 <= j < i ==> (#[trigger] dom.rows@[j]).price.0 + dom.tick_size.0 == dom.rows@[j
                + 1].price.0,
        dom.rows@[i].price.0 + dom.tick_size.0 != dom.rows@[i + 1].price.0,
    ensures
        ({
            let a = dom.rows@[i].price.0 as int;
            let b = dom.rows@[i + 1].price.0 as int;
            &&& b <= a ==> text_of(r) == Some(
                "DOM rows not strictly ascending: "@ + signed_decimal(a) + " then "@
                    + signed_decimal(b),
            )
            &&& b > a ==> text_of(r) == Some(
                "DOM rows not contiguous by tick_size="@ + signed_decimal(dom.tick_size.0 as int)
                    + ": "@ + signed_decimal(a) + " then "@ + signed_decimal(b) + " (gap "@ + decimal(
                    (b - a) as nat,
                ) + ")"@,
            )
        }),
{
    assert forall|j: int| 0 <= j < i implies (#[trigger] step_fault(
        dom.rows@,
        dom.tick_size.0,
        j,
    )) is None by {
        assert(dom.rows@[j].price.0 + dom.tick_size.0 == dom.rows@[j + 1].price.0);
    }
    lemma_first_fault(dom.rows@, dom.tick_size.0, 0, i);
}

/// The notes of a monitor give what was observed before what was published and what was missed;
/// a smoke run, and one that was stopped, say so in front.
pub proof fn law_notes_of_a_monitor(
    monitor: &Monitor,
    smoke: bool,
    timed_out: bool,
    publications: u64,
    r: String,
)
    requires
        call_ensures(Monitor::notes, (monitor, smoke, timed_out, publications), r),
        monitor.first_structural_msg is None,
    ensures
        ({
            let seen = monitor.generations_observed;
            let missed = if publications >= seen {
                publications - seen
            } else {
                0
            };
            let counts = "latest-value slot: observed "@ + decimal(seen as nat) + "/"@ + decimal(
                publications as nat,
            ) + " publications (missed ≈ "@ + decimal(missed as nat)
                + "); agreement checked on observed coherent snapshots only"@;
            &&& !smoke && !timed_out ==> r@ == counts
            &&& smoke && !timed_out ==> r@ == "SMOKE"@ + "; "@ + counts
            &&& !smoke && timed_out ==> r@ == "stopped on wall timeout "@ + "120.0"@
                + "s (playback may be incomplete)"@ + "; "@ + counts
        }),
{
    let texts = monitor.note_texts(smoke, timed_out, publications);
    reveal_with_fuel(joined, 3);
    if texts.len() == 1 {
        assert(texts =~= seq![texts[0]]);
        assert(joined(texts, "; "@) =~= texts[0]);
    }
    if texts.len() == 2 {
        assert(texts =~= seq![texts[0], texts[1]]);
        assert(joined(texts, "; "@) =~= texts[0] + "; "@ + texts[1]);
    }
}

} // verus!
