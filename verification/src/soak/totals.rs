//! What the cycles add up to, and the growth that looks like a leak.

use super::honesty::{CycleResult, Peaks};
use vstd::prelude::*;

verus! {

/// The memory that a cycle may take, in bytes.
pub const RSS_BUDGET_BYTES: u64 = 2_147_483_648;

/// The cycle whose peak is the baseline.
pub const BASELINE_CYCLE: u64 = 3;

/// Whether a peak is under the ceiling.
pub open spec fn under_ceiling(rss_kb: u64) -> bool {
    rss_kb * 1024 <= RSS_BUDGET_BYTES
}

/// Whether a peak is under the ceiling.
pub fn ceiling_ok(rss_kb: u64) -> (r: bool)
    ensures
        r == under_ceiling(rss_kb),
{
    rss_kb <= 2_097_152
}

/// Whether the last `window` numbers grow from one to the next.
pub open spec fn climbs(series: Seq<u64>, window: int) -> bool {
    &&& 0 < window <= series.len()
    &&& forall|i: int, j: int|
        series.len() - window <= i < j < series.len() ==> #[trigger] series[i]
            < #[trigger] series[j]
}

/// How much the last `window` peaks climbed, if each was above the one before: what a leak is
/// judged by, against the baseline. No baseline, no judgement.
pub fn climb(series: &Vec<u64>, baseline: u64, window: usize) -> (r: Option<u64>)
    requires
        window > 0,
    ensures
        r is Some <==> baseline > 0 && climbs(series@, window as int),
        r matches Some(kb) ==> kb == series@.last() - series@[series.len() - window],
{
    if series.len() < window || baseline == 0 {
        return None;
    }
    let start: usize = series.len() - window;
    let mut i: usize = start + 1;
    while i < series.len()
        invariant
            window > 0,
            start == series.len() - window,
            start < i <= series.len(),
            forall|a: int, b: int|
                start <= a < b < i ==> #[trigger] series@[a] < #[trigger] series@[b],
        decreases series.len() - i,
    {
        if series[i] <= series[i - 1] {
            assert(!(series@[i - 1] < series@[i as int]));
            return None;
        }
        proof {
            assert forall|a: int, b: int| start <= a < b < i + 1 implies #[trigger] series@[a]
                < #[trigger] series@[b] by {
                if b == i && a < i - 1 {
                    assert(series@[a] < series@[i - 1]);
                }
            }
        }
        i += 1;
    }
    Some(series[series.len() - 1] - series[start])
}

/// What the cycles so far add up to.
#[derive(Debug)]
pub struct Totals {
    pub cycles: u64,
    pub failures: u64,
    pub leak_suspects: u64,
    pub rss_ceiling_fails: u64,
    /// The peak of each cycle.
    pub peak_series: Vec<u64>,
    pub baseline_kb: Option<u64>,
    pub peaks: Peaks,
}

impl Totals {
    /// Whether the counts fit together.
    pub open spec fn wf(self) -> bool {
        &&& self.failures <= self.cycles
        &&& self.leak_suspects <= self.cycles
        &&& self.rss_ceiling_fails <= self.cycles
        &&& self.peak_series.len() == self.cycles
        &&& self.baseline_kb is Some <==> self.cycles >= BASELINE_CYCLE
        &&& self.baseline_kb is Some ==> self.baseline_kb->0 == self.peak_series@[2]
    }

    /// Before the first cycle.
    pub fn new() -> (r: Totals)
        ensures
            r.wf(),
            r.cycles == 0,
            r.peaks == (Peaks { rss_kb: 0, hwm_kb: 0 }),
    {
        Totals {
            cycles: 0,
            failures: 0,
            leak_suspects: 0,
            rss_ceiling_fails: 0,
            peak_series: Vec::new(),
            baseline_kb: None,
            peaks: Peaks::new(),
        }
    }

    /// Whether another cycle is due. Zero cycles asked for is no limit.
    pub fn wants_cycle(&self, max_cycles: u64, wall_reached: bool) -> (r: bool)
        ensures
            r == (!(max_cycles > 0 && self.cycles >= max_cycles) && !wall_reached),
    {
        !(max_cycles > 0 && self.cycles >= max_cycles) && !wall_reached
    }

    /// Takes in a cycle. What comes back is its climb where that has to be judged: the peaks of
    /// the window grew without a break and there is a baseline.
    pub fn on_cycle(&mut self, result: &CycleResult, window: usize) -> (r: Option<u64>)
        requires
            old(self).wf(),
            old(self).cycles < u64::MAX,
            window > 0,
        ensures
            final(self).wf(),
            final(self).cycles == old(self).cycles + 1,
            final(self).failures == old(self).failures + (if result.line.ok {
                0int
            } else {
                1
            }),
            final(self).rss_ceiling_fails == old(self).rss_ceiling_fails + (if under_ceiling(
                result.peaks.rss_kb,
            ) && result.line.honesty.rss_ceiling_ok {
                0int
            } else {
                1
            }),
            final(self).leak_suspects == old(self).leak_suspects,
            final(self).peak_series@ == old(self).peak_series@.push(result.peaks.rss_kb),
            final(self).peaks == old(self).peaks.with(result.peaks.hwm_kb, result.peaks.rss_kb),
            r is Some <==> final(self).baseline_kb is Some && final(self).baseline_kb->0 > 0
                && climbs(final(self).peak_series@, window as int),
            r matches Some(kb) ==> kb == final(self).peak_series@.last()
                - final(self).peak_series@[final(self).peak_series.len() - window],
    {
        self.cycles += 1;
        self.peaks.sample(result.peaks.hwm_kb, result.peaks.rss_kb);
        if !result.line.ok {
            self.failures += 1;
        }
        if !ceiling_ok(result.peaks.rss_kb) || !result.line.honesty.rss_ceiling_ok {
            self.rss_ceiling_fails += 1;
        }
        self.peak_series.push(result.peaks.rss_kb);
        if self.cycles == BASELINE_CYCLE {
            self.baseline_kb = Some(result.peaks.rss_kb);
        }
        match self.baseline_kb {
            Some(base) => climb(&self.peak_series, base, window),
            None => None,
        }
    }

    /// Takes in that a climb was judged a leak.
    pub fn on_leak_suspect(&mut self)
        requires
            old(self).wf(),
            old(self).leak_suspects < old(self).cycles,
        ensures
            *final(self) == (Totals {
                leak_suspects: (old(self).leak_suspects + 1) as u64,
                ..*old(self)
            }),
            final(self).wf(),
    {
        self.leak_suspects += 1;
    }

    /// Whether the soak passed: no cycle failed, leaked or broke the ceiling.
    pub fn pass(&self) -> (r: bool)
        ensures
            r == (self.failures == 0 && self.leak_suspects == 0 && self.rss_ceiling_fails == 0),
    {
        self.failures == 0 && self.leak_suspects == 0 && self.rss_ceiling_fails == 0
    }
}

/// A peak of up to two gibibytes is under the ceiling, and none above.
pub proof fn law_ceiling(rss_kb: u64, r: bool)
    requires
        call_ensures(ceiling_ok, (rss_kb,), r),
    ensures
        r <==> rss_kb <= 2 * 1024 * 1024,
{
}

/// A climb is judged only where there is a baseline and each of the last peaks is above the one
/// before it; it is then what lies between the first of them and the last.
pub proof fn law_climb(series: &Vec<u64>, baseline: u64, window: usize, r: Option<u64>)
    requires
        window > 0,
        call_ensures(climb, (series, baseline, window), r),
    ensures
        r is Some <==> baseline > 0 && window <= series.len() && forall|i: int|
            series.len() - window <= i < series.len() - 1 ==> (#[trigger] series@[i]) < series@[i
                + 1],
        r is Some ==> series@[series.len() - window] + r->0 == series@[series.len() - 1],
{
    if forall|i: int|
        series.len() - window <= i < series.len() - 1 ==> (#[trigger] series@[i]) < series@[i + 1] {
        if window <= series.len() {
            assert forall|i: int, j: int| series.len() - window <= i < j < series.len() implies
                #[trigger] series@[i] < #[trigger] series@[j] by {
                lemma_steps_climb(series@, series.len() - window, i, j);
            }
        }
    }
}

proof fn lemma_steps_climb(series: Seq<u64>, from: int, i: int, j: int)
    requires
        0 <= from <= i < j < series.len(),
        forall|k: int| from <= k < series.len() - 1 ==> (#[trigger] series[k]) < series[k + 1],
    ensures
        series[i] < series[j],
    decreases j - i,
{
    if i + 1 < j {
        lemma_steps_climb(series, from, i, j - 1);
    }
    assert(series[j - 1] < series[j - 1 + 1]);
}

/// Every cycle is counted, and so is each that failed and each whose memory broke the ceiling; its
/// peak is put behind the others, the third one is the baseline, and the highest peaks are kept.
pub proof fn law_cycles_counted(
    totals: &mut Totals,
    result: &CycleResult,
    window: usize,
    r: Option<u64>,
)
    requires
        old(totals).wf(),
        window > 0,
        call_ensures(Totals::on_cycle, (totals, result, window), r),
    ensures
        final(totals).cycles == old(totals).cycles + 1,
        result.line.ok ==> final(totals).failures == old(totals).failures,
        !result.line.ok ==> final(totals).failures == old(totals).failures + 1,
        ({
            let high = result.peaks.rss_kb > 2 * 1024 * 1024
                || !result.line.honesty.rss_ceiling_ok;
            &&& high ==> final(totals).rss_ceiling_fails == old(totals).rss_ceiling_fails + 1
            &&& !high ==> final(totals).rss_ceiling_fails == old(totals).rss_ceiling_fails
        }),
        final(totals).leak_suspects == old(totals).leak_suspects,
        final(totals).peak_series@.len() == old(totals).peak_series@.len() + 1,
        final(totals).peak_series@[final(totals).peak_series.len() - 1] == result.peaks.rss_kb,
        old(totals).cycles == 2 ==> final(totals).baseline_kb == Some(result.peaks.rss_kb),
        final(totals).peaks.rss_kb >= result.peaks.rss_kb,
        final(totals).peaks.hwm_kb >= result.peaks.hwm_kb,
        final(totals).peaks.rss_kb == result.peaks.rss_kb || final(totals).peaks.rss_kb == old(
            totals,
        ).peaks.rss_kb,
        final(totals).peaks.hwm_kb == result.peaks.hwm_kb || final(totals).peaks.hwm_kb == old(
            totals,
        ).peaks.hwm_kb,
        r is Some ==> final(totals).cycles >= 3,
{
}

/// A soak passes when no cycle failed, none is suspected of a leak and none broke the ceiling; it
/// goes on until its cycles or its time are used up, and without a number of cycles only time ends
/// it.
pub proof fn law_soak_passes(
    totals: &Totals,
    max_cycles: u64,
    wall_reached: bool,
    r: bool,
    more: bool,
)
    requires
        call_ensures(Totals::pass, (totals,), r),
        call_ensures(Totals::wants_cycle, (totals, max_cycles, wall_reached), more),
    ensures
        r <==> totals.failures == 0 && totals.leak_suspects == 0 && totals.rss_ceiling_fails == 0,
        wall_reached ==> !more,
        !wall_reached && max_cycles == 0 ==> more,
        !wall_reached && max_cycles > 0 ==> (more <==> totals.cycles < max_cycles),
{
}

} // verus!
