//! The frame pump's phases: warm up until the refresh interval is known, then measure frame
//! times against the deadline that it sets.
//!
//! Clock readings are nanoseconds of one monotonic clock.

use crate::frame_stats::{
    is_quantile, law_quantile_error, lemma_longest, lemma_missed, longest, missed_count, ranked,
    FrameStats, Recorded, Summary,
};
use crate::gate_report::FrameResult;
use crate::num::{ascending, sorted};
use vstd::prelude::*;

verus! {

/// How long the warmup lasts at least.
pub const WARMUP_NS: u64 = 500_000_000;

/// How many frame gaps the warmup sees at least.
pub const MIN_WARMUP_SAMPLES: usize = 8;

enum Phase {
    Idle,
    Warmup { started: u64, gaps: Vec<u64> },
    Measuring { stats: FrameStats, gate_ends: Option<u128> },
}

/// What the warmup saw.
#[derive(Clone, Copy, Debug, PartialEq, Eq, Structural)]
pub struct Warmup {
    pub elapsed: u64,
    pub samples: u64,
    pub refresh_interval: u64,
}

/// The frame pump's instruments.
pub struct Harness {
    gate: Option<u64>,
    trace: Option<Vec<u64>>,
    last_frame: Option<u64>,
    phase: Phase,
    warmup: Option<Warmup>,
}

/// A phase, by what it has seen.
pub enum PhaseView {
    /// No frame yet.
    Idle,
    /// Frame gaps since the first frame.
    Warmup { started: u64, gaps: Seq<u64> },
    /// Frame times since the warmup ended.
    Measuring { stats: Recorded, gate_ends: Option<u128> },
}

/// The instruments, by what they have seen.
pub struct HarnessView {
    pub gate: Option<u64>,
    pub trace: Option<Seq<u64>>,
    pub last_frame: Option<u64>,
    pub phase: PhaseView,
    pub warmup: Option<Warmup>,
}

/// The time from one reading to the next; none when the clock went back.
pub open spec fn gap_between(last: u64, now: u64) -> u64 {
    if now >= last {
        (now - last) as u64
    } else {
        0
    }
}

/// Whether the warmup has lasted long enough and seen enough.
pub open spec fn warm(started: u64, now: u64, gaps: Seq<u64>) -> bool {
    gap_between(started, now) >= WARMUP_NS && gaps.len() >= MIN_WARMUP_SAMPLES
}

/// The refresh interval that the gaps show: the middle one in ascending order.
pub open spec fn refresh_interval(gaps: Seq<u64>) -> u64 {
    ascending(gaps)[gaps.len() as int / 2]
}

/// The deadline for a refresh interval: half as long again.
pub open spec fn deadline_for(interval: u64) -> u128 {
    (interval * 3 / 2) as u128
}

/// When the measuring window ends, if it does.
pub open spec fn gate_end(gate: Option<u64>, now: u64) -> Option<u128> {
    match gate {
        Some(length) => Some((now + length) as u128),
        None => None,
    }
}

impl HarnessView {
    /// The instruments once a frame was reported at `now`.
    pub open spec fn after_frame(self, now: u64) -> HarnessView {
        match self.last_frame {
            None => HarnessView {
                last_frame: Some(now),
                phase: match self.phase {
                    PhaseView::Idle => PhaseView::Warmup { started: now, gaps: Seq::empty() },
                    _ => self.phase,
                },
                ..self
            },
            Some(last) => {
                let gap = gap_between(last, now);
                match self.phase {
                    PhaseView::Measuring { stats, gate_ends } => HarnessView {
                        last_frame: Some(now),
                        trace: match self.trace {
                            Some(samples) => Some(samples.push(gap)),
                            None => None,
                        },
                        phase: PhaseView::Measuring {
                            stats: Recorded { samples: stats.samples.push(gap as u128), ..stats },
                            gate_ends,
                        },
                        ..self
                    },
                    _ => {
                        let started = match self.phase {
                            PhaseView::Warmup { started, .. } => started,
                            _ => now,
                        };
                        let gaps = match self.phase {
                            PhaseView::Warmup { gaps, .. } => gaps.push(gap),
                            _ => seq![gap],
                        };
                        if warm(started, now, gaps) {
                            HarnessView {
                                last_frame: Some(now),
                                warmup: Some(
                                    Warmup {
                                        elapsed: gap_between(started, now),
                                        samples: gaps.len() as u64,
                                        refresh_interval: refresh_interval(gaps),
                                    },
                                ),
                                phase: PhaseView::Measuring {
                                    stats: Recorded {
                                        deadline: deadline_for(refresh_interval(gaps)),
                                        samples: Seq::empty(),
                                    },
                                    gate_ends: gate_end(self.gate, now),
                                },
                                ..self
                            }
                        } else {
                            HarnessView {
                                last_frame: Some(now),
                                phase: PhaseView::Warmup { started, gaps },
                                ..self
                            }
                        }
                    },
                }
            },
        }
    }

    /// Whether the redraw loop goes on after a frame at `now`.
    pub open spec fn goes_on(self, now: u64) -> bool {
        self.last_frame is Some && self.phase is Measuring ==> {
            match self.phase->gate_ends {
                Some(ends) => now < ends,
                None => true,
            }
        }
    }

    /// How many frames were measured.
    pub open spec fn measured(self) -> nat {
        match self.phase {
            PhaseView::Measuring { stats, .. } => stats.samples.len(),
            _ => 0,
        }
    }
}

impl View for Phase {
    type V = PhaseView;

    closed spec fn view(&self) -> PhaseView {
        match *self {
            Phase::Idle => PhaseView::Idle,
            Phase::Warmup { started, gaps } => PhaseView::Warmup { started, gaps: gaps@ },
            Phase::Measuring { stats, gate_ends } => PhaseView::Measuring {
                stats: stats@,
                gate_ends,
            },
        }
    }
}

impl View for Harness {
    type V = HarnessView;

    closed spec fn view(&self) -> HarnessView {
        HarnessView {
            gate: self.gate,
            trace: match self.trace {
                Some(samples) => Some(samples@),
                None => None,
            },
            last_frame: self.last_frame,
            phase: self.phase@,
            warmup: self.warmup,
        }
    }
}

/// Whether the result tells what the instruments saw, with the quantiles of the given ranks.
pub open spec fn reports(
    r: FrameResult,
    seen: HarnessView,
    p50_rank: u64,
    p95_rank: u64,
    p99_rank: u64,
) -> bool {
    let stats = seen.phase->stats;
    &&& seen.phase is Measuring
    &&& seen.warmup is Some
    &&& r.refresh_interval_ns == seen.warmup->0.refresh_interval
    &&& r.warmup_ns == seen.warmup->0.elapsed
    &&& r.warmup_samples == seen.warmup->0.samples
    &&& r.deadline_ns == stats.deadline
    &&& r.frames == stats.samples.len()
    &&& r.missed == missed_count(stats.samples, stats.deadline)
    &&& is_quantile(stats.samples, p50_rank as int, r.p50_ns as int)
    &&& is_quantile(stats.samples, p95_rank as int, r.p95_ns as int)
    &&& is_quantile(stats.samples, p99_rank as int, r.p99_ns as int)
    &&& r.max_ns == longest(stats.samples)
}

impl Harness {
    /// Whether the parts fit together: a measuring phase has its warmup on record.
    pub closed spec fn wf(self) -> bool {
        match self.phase {
            Phase::Measuring { stats, .. } => stats.wf() && self.warmup is Some
                && self.last_frame is Some,
            Phase::Warmup { .. } => self.last_frame is Some,
            Phase::Idle => self.last_frame is None,
        }
    }

    /// Instruments that have seen no frame.
    pub fn new(gate: Option<u64>, tracing: bool) -> (r: Harness)
        ensures
            r.wf(),
            r@.gate == gate,
            r@.trace == if tracing {
                Some(Seq::<u64>::empty())
            } else {
                None
            },
            r@.last_frame is None,
            r@.phase is Idle,
            r@.warmup is None,
    {
        let trace: Option<Vec<u64>> = if tracing {
            Some(Vec::new())
        } else {
            None
        };
        Harness { gate, trace, last_frame: None, phase: Phase::Idle, warmup: None }
    }

    /// Whether the run is gated.
    pub fn gating(&self) -> (r: bool)
        ensures
            r == (self@.gate is Some),
    {
        self.gate.is_some()
    }

    /// The frame times recorded for a trace.
    pub fn trace(&self) -> (r: Option<&Vec<u64>>)
        ensures
            match r {
                Some(samples) => self@.trace == Some(samples@),
                None => self@.trace is None,
            },
    {
        self.trace.as_ref()
    }

    /// How many frames were measured.
    pub fn frames(&self) -> (r: u64)
        requires
            self.wf(),
        ensures
            r == self@.measured(),
    {
        match &self.phase {
            Phase::Measuring { stats, .. } => stats.frames(),
            _ => 0,
        }
    }

    /// Takes note of a frame; false once the measuring window has passed and redrawing should stop.
    pub fn on_frame(&mut self, now: u64) -> (r: bool)
        requires
            old(self).wf(),
            old(self)@.measured() < u64::MAX,
        ensures
            final(self).wf(),
            final(self)@ == old(self)@.after_frame(now),
            r == old(self)@.goes_on(now),
    {
        let last: Option<u64> = self.last_frame;
        self.last_frame = Some(now);
        let gap: u64 = match last {
            None => {
                self.phase = Phase::Warmup { started: now, gaps: Vec::new() };
                return true;
            },
            Some(last) => now.saturating_sub(last),
        };
        let mut phase: Phase = Phase::Idle;
        core::mem::swap(&mut phase, &mut self.phase);
        match phase {
            Phase::Idle => true,
            Phase::Warmup { started, mut gaps } => {
                gaps.push(gap);
                let elapsed: u64 = now.saturating_sub(started);
                if elapsed >= WARMUP_NS && gaps.len() >= MIN_WARMUP_SAMPLES {
                    let order: Vec<u64> = sorted(&gaps);
                    let interval: u64 = order[order.len() / 2];
                    let deadline: u128 = interval as u128 * 3 / 2;
                    self.warmup = Some(
                        Warmup { elapsed, samples: gaps.len() as u64, refresh_interval: interval },
                    );
                    self.phase = Phase::Measuring {
                        stats: FrameStats::new(deadline),
                        gate_ends: match self.gate {
                            Some(length) => Some(now as u128 + length as u128),
                            None => None,
                        },
                    };
                } else {
                    self.phase = Phase::Warmup { started, gaps };
                }
                true
            },
            Phase::Measuring { mut stats, gate_ends } => {
                stats.record(gap as u128);
                let mut trace: Option<Vec<u64>> = None;
                core::mem::swap(&mut trace, &mut self.trace);
                if let Some(mut samples) = trace {
                    samples.push(gap);
                    self.trace = Some(samples);
                }
                self.phase = Phase::Measuring { stats, gate_ends };
                match gate_ends {
                    Some(ends) => (now as u128) < ends,
                    None => true,
                }
            },
        }
    }

    /// The measured result; none when no frame was measured, which fails a gate. The ranks are
    /// those of the quantiles among the measured frames.
    pub fn finish(&self, p50_rank: u64, p95_rank: u64, p99_rank: u64) -> (r: Option<FrameResult>)
        requires
            self.wf(),
            self@.measured() > 0 ==> {
                &&& 1 <= p50_rank <= self@.measured()
                &&& 1 <= p95_rank <= self@.measured()
                &&& 1 <= p99_rank <= self@.measured()
            },
        ensures
            r is Some <==> self@.measured() > 0,
            r is Some ==> reports(r->0, self@, p50_rank, p95_rank, p99_rank),
    {
        match &self.phase {
            Phase::Measuring { stats, .. } => {
                if stats.frames() == 0 {
                    return None;
                }
                let summary: Summary = stats.summary(p50_rank, p99_rank);
                match self.warmup {
                    None => None,
                    Some(warmup) => Some(
                        FrameResult {
                            refresh_interval_ns: warmup.refresh_interval,
                            deadline_ns: summary.deadline,
                            warmup_ns: warmup.elapsed,
                            warmup_samples: warmup.samples,
                            frames: summary.frames,
                            missed: summary.missed,
                            p50_ns: summary.p50,
                            p95_ns: stats.quantile(p95_rank),
                            p99_ns: summary.p99,
                            max_ns: summary.max,
                        },
                    ),
                }
            },
            _ => None,
        }
    }
}

/// The first frame starts the warmup, and redrawing goes on.
pub proof fn law_first_frame(harness: &mut Harness, now: u64, r: bool)
    requires
        old(harness).wf(),
        old(harness)@.last_frame is None,
        old(harness)@.phase is Idle,
        call_ensures(Harness::on_frame, (harness, now), r),
    ensures
        r,
        final(harness)@.last_frame == Some(now),
        final(harness)@.phase == (PhaseView::Warmup { started: now, gaps: Seq::empty() }),
        final(harness)@.trace == old(harness)@.trace,
{
}

/// The warmup goes on until half a second passed and eight gaps were seen. The refresh interval is
/// then the middle one of the gaps in ascending order, the deadline half as long again, and a gated
/// run measures from there for as long as it was asked to.
pub proof fn law_warmup(
    harness: &mut Harness,
    now: u64,
    r: bool,
    last: u64,
    started: u64,
    gaps: Seq<u64>,
    order: Seq<u64>,
)
    requires
        old(harness).wf(),
        old(harness)@.last_frame == Some(last),
        old(harness)@.phase == (PhaseView::Warmup { started, gaps }),
        started <= last <= now,
        gaps.len() < u64::MAX,
        call_ensures(Harness::on_frame, (harness, now), r),
        order.to_multiset() == gaps.push((now - last) as u64).to_multiset(),
        forall|i: int, j: int|
            0 <= i <= j < order.len() ==> #[trigger] order[i] <= #[trigger] order[j],
    ensures
        r,
        final(harness)@.last_frame == Some(now),
        final(harness)@.trace == old(harness)@.trace,
        now - started < 500_000_000 || gaps.len() + 1 < 8 ==> final(harness)@.phase == (
        PhaseView::Warmup { started, gaps: gaps.push((now - last) as u64) }),
        now - started >= 500_000_000 && gaps.len() + 1 >= 8 ==> {
            let middle = order[(gaps.len() as int + 1) / 2];
            let stats = final(harness)@.phase->stats;
            &&& final(harness)@.phase is Measuring
            &&& final(harness)@.warmup is Some
            &&& final(harness)@.warmup->0.elapsed == now - started
            &&& final(harness)@.warmup->0.samples == gaps.len() + 1
            &&& final(harness)@.warmup->0.refresh_interval == middle
            &&& 2 * stats.deadline <= 3 * middle < 2 * stats.deadline + 2
            &&& stats.samples.len() == 0
            &&& old(harness)@.gate is None ==> final(harness)@.phase->gate_ends is None
            &&& old(harness)@.gate is Some ==> final(harness)@.phase->gate_ends is Some
                && final(harness)@.phase->gate_ends->0 == now + old(harness)@.gate->0
        },
{
    crate::num::law_ascending(gaps.push((now - last) as u64), order);
}

/// While frames are measured, each adds the time since the frame before it; redrawing stops with
/// the first frame at or behind the end of a gated run.
pub proof fn law_measuring(
    harness: &mut Harness,
    now: u64,
    r: bool,
    last: u64,
    stats: Recorded,
    gate_ends: Option<u128>,
)
    requires
        old(harness).wf(),
        old(harness)@.last_frame == Some(last),
        old(harness)@.phase == (PhaseView::Measuring { stats, gate_ends }),
        last <= now,
        call_ensures(Harness::on_frame, (harness, now), r),
    ensures
        r <==> (gate_ends is Some ==> now < gate_ends->0),
        final(harness)@.phase is Measuring,
        final(harness)@.phase->gate_ends == gate_ends,
        final(harness)@.phase->stats.deadline == stats.deadline,
        final(harness)@.phase->stats.samples == stats.samples.push((now - last) as u128),
        final(harness)@.warmup == old(harness)@.warmup,
        old(harness)@.trace is Some ==> final(harness)@.trace == Some(
            old(harness)@.trace->0.push((now - last) as u64),
        ),
        old(harness)@.trace is None ==> final(harness)@.trace is None,
{
}

/// A result tells what was measured: the frames, those beyond the deadline, the warmup, and each
/// quantile at its own rank, to within a thirty-second. Without a measured frame there is none.
pub proof fn law_measured_result(
    harness: &Harness,
    p50_rank: u64,
    p95_rank: u64,
    p99_rank: u64,
    r: Option<FrameResult>,
    frames: u64,
    stats: Recorded,
    gate_ends: Option<u128>,
)
    requires
        harness.wf(),
        harness@.phase == (PhaseView::Measuring { stats, gate_ends }),
        stats.samples.len() > 0 ==> 1 <= p50_rank <= stats.samples.len() && 1 <= p95_rank
            <= stats.samples.len() && 1 <= p99_rank <= stats.samples.len(),
        call_ensures(Harness::frames, (harness,), frames),
        call_ensures(Harness::finish, (harness, p50_rank, p95_rank, p99_rank), r),
    ensures
        frames == stats.samples.len(),
        r is Some <==> frames > 0,
        r is Some ==> {
            let found = r->0;
            let p50 = ranked(stats.samples, p50_rank as int);
            let p95 = ranked(stats.samples, p95_rank as int);
            let p99 = ranked(stats.samples, p99_rank as int);
            &&& found.frames == frames
            &&& found.missed == stats.samples.filter(|t: u128| t > stats.deadline).len()
            &&& found.deadline_ns == stats.deadline
            &&& found.refresh_interval_ns == harness@.warmup->0.refresh_interval
            &&& found.warmup_ns == harness@.warmup->0.elapsed
            &&& found.warmup_samples == harness@.warmup->0.samples
            &&& p50 <= found.p50_ns && (found.p50_ns - p50) * 32 <= p50
            &&& p95 <= found.p95_ns && (found.p95_ns - p95) * 32 <= p95
            &&& p99 <= found.p99_ns && (found.p99_ns - p99) * 32 <= p99
            &&& forall|i: int|
                0 <= i < stats.samples.len() && #[trigger] stats.samples[i] <= u64::MAX
                    ==> stats.samples[i] <= found.max_ns
        },
{
    lemma_missed(stats.samples, stats.deadline);
    lemma_longest(stats.samples);
    if r is Some {
        law_quantile_error(stats.samples, p50_rank as int, r->0.p50_ns as int);
        law_quantile_error(stats.samples, p95_rank as int, r->0.p95_ns as int);
        law_quantile_error(stats.samples, p99_rank as int, r->0.p99_ns as int);
    }
}

} // verus!
