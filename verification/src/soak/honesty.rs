//! What a cycle has to prove, and the line that reports it.

use crate::num::greatest;
use crate::text::{decimal, join, joined, push_decimal, text_of, texts_of};
use vstd::prelude::*;

verus! {

/// The checks of a cycle.
#[derive(Clone, Copy, Debug, PartialEq, Eq, Structural)]
pub struct Honesty {
    pub current_ready: bool,
    pub seeks_final_answered: bool,
    pub retention_ok: bool,
    pub rss_ceiling_ok: bool,
    pub priors_slot_ok: bool,
    pub expected_priors_accepted: u64,
    pub expected_prior_skips: u64,
    pub re_set_source_sessions: usize,
    pub engine_priors_ok: bool,
}

impl Default for Honesty {
    /// Nothing is proved yet; only the memory starts out under its ceiling.
    fn default() -> (r: Honesty)
        ensures
            r == initial(),
    {
        Honesty {
            current_ready: false,
            seeks_final_answered: false,
            retention_ok: false,
            rss_ceiling_ok: true,
            priors_slot_ok: false,
            expected_priors_accepted: 0,
            expected_prior_skips: 0,
            re_set_source_sessions: 0,
            engine_priors_ok: false,
        }
    }
}

/// The checks before anything was proved.
pub open spec fn initial() -> Honesty {
    Honesty {
        current_ready: false,
        seeks_final_answered: false,
        retention_ok: false,
        rss_ceiling_ok: true,
        priors_slot_ok: false,
        expected_priors_accepted: 0,
        expected_prior_skips: 0,
        re_set_source_sessions: 0,
        engine_priors_ok: false,
    }
}

/// What an engine did before it stopped.
#[derive(Clone, Copy, Debug, PartialEq, Eq, Structural)]
pub struct EngineExit {
    pub events_applied: u64,
    pub events_read: u64,
    pub gap_records: u64,
    pub publications: u64,
    pub seeks_executed: u64,
    pub priors_completed: u64,
    pub prior_skips: u64,
}

impl Honesty {
    /// Whether the engine's counts are those that the dates call for.
    pub open spec fn counts_match(self, exit: EngineExit) -> bool {
        exit.priors_completed == self.expected_priors_accepted && exit.prior_skips
            == self.expected_prior_skips
    }

    /// Whether every check held.
    pub open spec fn holds(self) -> bool {
        self.current_ready && self.seeks_final_answered && self.retention_ok && self.rss_ceiling_ok
            && self.priors_slot_ok && self.engine_priors_ok
    }
}

/// The note on an engine whose counts are not those that the dates call for.
pub open spec fn counts_note(h: Honesty, exit: EngineExit) -> Seq<char> {
    "engine priors mismatch: completed="@ + decimal(exit.priors_completed as nat) + " skips="@
        + decimal(exit.prior_skips as nat) + " expected_accepted="@ + decimal(
        h.expected_priors_accepted as nat,
    ) + " expected_skips="@ + decimal(h.expected_prior_skips as nat)
}

/// Checks the engine's counts, which the dates determine exactly, and whether everything held.
pub fn finalize_honesty(h: &mut Honesty, exit: &EngineExit, notes: &mut Vec<String>) -> (r: bool)
    ensures
        *final(h) == (Honesty { engine_priors_ok: old(h).counts_match(*exit), ..*old(h) }),
        r == final(h).holds(),
        texts_of(final(notes)@) == (if old(h).counts_match(*exit) {
            texts_of(old(notes)@)
        } else {
            texts_of(old(notes)@).push(counts_note(*old(h), *exit))
        }),
{
    h.engine_priors_ok = exit.priors_completed == h.expected_priors_accepted && exit.prior_skips
        == h.expected_prior_skips;
    if !h.engine_priors_ok {
        let mut text: String = "engine priors mismatch: completed=".to_owned();
        push_decimal(&mut text, exit.priors_completed);
        text.append(" skips=");
        push_decimal(&mut text, exit.prior_skips);
        text.append(" expected_accepted=");
        push_decimal(&mut text, h.expected_priors_accepted);
        text.append(" expected_skips=");
        push_decimal(&mut text, h.expected_prior_skips);
        notes.push(text);
        assert(texts_of(notes@) =~= texts_of(old(notes)@).push(counts_note(*old(h), *exit)));
    }
    h.current_ready && h.seeks_final_answered && h.retention_ok && h.rss_ceiling_ok
        && h.priors_slot_ok && h.engine_priors_ok
}

/// What a line reports besides the checks.
#[derive(Debug)]
pub struct LineParts {
    pub events_applied: u64,
    pub events_read: u64,
    pub gap_records: u64,
    pub publications: u64,
    pub seeks_executed: u64,
    pub seeks_issued: u64,
    pub priors_completed: u64,
    pub prior_skips: u64,
    pub sessions: usize,
    pub peak_rss_kb: u64,
    pub rss: u64,
    pub hwm: u64,
    pub panic: Option<String>,
}

/// The line on one cycle. The speed is given by its bits.
#[derive(Debug)]
pub struct CycleLine {
    pub cycle: u64,
    pub ok: bool,
    pub wall_ns: u64,
    pub parts: LineParts,
    pub honesty: Honesty,
    pub speed_bits: u64,
    pub cycle_secs_cap: u64,
    pub notes: Option<String>,
}

/// What identifies a cycle.
#[derive(Clone, Copy, Debug, PartialEq, Eq, Structural)]
pub struct CycleId {
    pub cycle: u64,
    pub speed_bits: u64,
    pub cycle_secs: u64,
}

/// The notes in one text; none where there are none.
pub open spec fn notes_text(notes: Seq<Seq<char>>) -> Option<Seq<char>> {
    if notes.len() == 0 {
        None
    } else {
        Some(joined(notes, "; "@))
    }
}

/// The line on a cycle.
pub fn make_line(
    id: CycleId,
    wall_ns: u64,
    ok: bool,
    parts: LineParts,
    honesty: Honesty,
    notes: &Vec<String>,
) -> (r: CycleLine)
    ensures
        r.cycle == id.cycle,
        r.ok == ok,
        r.wall_ns == wall_ns,
        r.parts == parts,
        r.honesty == honesty,
        r.speed_bits == id.speed_bits,
        r.cycle_secs_cap == id.cycle_secs,
        text_of(r.notes) == notes_text(texts_of(notes@)),
{
    assert(texts_of(notes@).len() == notes.len());
    CycleLine {
        cycle: id.cycle,
        ok,
        wall_ns,
        parts,
        honesty,
        speed_bits: id.speed_bits,
        cycle_secs_cap: id.cycle_secs,
        notes: if notes.len() == 0 {
            None
        } else {
            Some(join(notes, "; "))
        },
    }
}

/// The process's memory at one moment, and the most it was in the cycle.
#[derive(Clone, Copy, Debug, PartialEq, Eq, Structural)]
pub struct Peaks {
    pub rss_kb: u64,
    pub hwm_kb: u64,
}

impl Peaks {
    /// Nothing was sampled yet.
    pub fn new() -> (r: Peaks)
        ensures
            r == (Peaks { rss_kb: 0, hwm_kb: 0 }),
    {
        Peaks { rss_kb: 0, hwm_kb: 0 }
    }

    /// The peaks with one more sample.
    pub open spec fn with(self, hwm_kb: u64, rss_kb: u64) -> Peaks {
        Peaks {
            rss_kb: greatest(self.rss_kb as int, rss_kb as int) as u64,
            hwm_kb: greatest(self.hwm_kb as int, hwm_kb as int) as u64,
        }
    }

    /// Takes in a sample.
    pub fn sample(&mut self, hwm_kb: u64, rss_kb: u64)
        ensures
            *final(self) == old(self).with(hwm_kb, rss_kb),
    {
        if hwm_kb > self.hwm_kb {
            self.hwm_kb = hwm_kb;
        }
        if rss_kb > self.rss_kb {
            self.rss_kb = rss_kb;
        }
    }
}

/// A cycle's line and its peaks.
#[derive(Debug)]
pub struct CycleResult {
    pub line: CycleLine,
    pub peaks: Peaks,
}

/// What a failed cycle leaves behind.
#[derive(Debug)]
pub struct FailCtx {
    pub id: CycleId,
    pub wall_ns: u64,
    pub peaks: Peaks,
    pub message: String,
    /// What the engine did, where it could be asked.
    pub partial: Option<EngineExit>,
    pub honesty: Honesty,
}

/// What the line of a failed cycle reports: what the engine did, where it could be asked, and
/// nothing of what the cycle itself counted.
pub open spec fn failed_parts(
    parts: LineParts,
    partial: Option<EngineExit>,
    peaks: Peaks,
    hwm_kb: u64,
    rss_kb: u64,
    message: Seq<char>,
) -> bool {
    let exit = match partial {
        Some(exit) => exit,
        None => EngineExit {
            events_applied: 0,
            events_read: 0,
            gap_records: 0,
            publications: 0,
            seeks_executed: 0,
            priors_completed: 0,
            prior_skips: 0,
        },
    };
    &&& parts.events_applied == exit.events_applied
    &&& parts.events_read == exit.events_read
    &&& parts.gap_records == exit.gap_records
    &&& parts.publications == exit.publications
    &&& parts.seeks_executed == exit.seeks_executed
    &&& parts.seeks_issued == 0
    &&& parts.priors_completed == exit.priors_completed
    &&& parts.prior_skips == exit.prior_skips
    &&& parts.sessions == 0
    &&& parts.peak_rss_kb == peaks.rss_kb
    &&& parts.rss == rss_kb
    &&& parts.hwm == hwm_kb
    &&& text_of(parts.panic) == Some(message)
}

/// The result of a failed cycle, with one more sample of the memory.
pub fn fail_cycle(ctx: FailCtx, hwm_kb: u64, rss_kb: u64) -> (r: CycleResult)
    ensures
        r.peaks == ctx.peaks.with(hwm_kb, rss_kb),
        !r.line.ok,
        r.line.cycle == ctx.id.cycle,
        r.line.wall_ns == ctx.wall_ns,
        r.line.speed_bits == ctx.id.speed_bits,
        r.line.cycle_secs_cap == ctx.id.cycle_secs,
        r.line.honesty == ctx.honesty,
        text_of(r.line.notes) == Some(joined(seq!["cycle failure"@, ctx.message@], "; "@)),
        failed_parts(r.line.parts, ctx.partial, r.peaks, hwm_kb, rss_kb, ctx.message@),
{
    let mut peaks: Peaks = ctx.peaks;
    peaks.sample(hwm_kb, rss_kb);
    let mut notes: Vec<String> = Vec::new();
    notes.push("cycle failure".to_owned());
    notes.push(ctx.message.clone());
    assert(texts_of(notes@) =~= seq!["cycle failure"@, ctx.message@]);
    let exit: EngineExit = match ctx.partial {
        Some(exit) => exit,
        None => EngineExit {
            events_applied: 0,
            events_read: 0,
            gap_records: 0,
            publications: 0,
            seeks_executed: 0,
            priors_completed: 0,
            prior_skips: 0,
        },
    };
    let parts: LineParts = LineParts {
        events_applied: exit.events_applied,
        events_read: exit.events_read,
        gap_records: exit.gap_records,
        publications: exit.publications,
        seeks_executed: exit.seeks_executed,
        seeks_issued: 0,
        priors_completed: exit.priors_completed,
        prior_skips: exit.prior_skips,
        sessions: 0,
        peak_rss_kb: peaks.rss_kb,
        rss: rss_kb,
        hwm: hwm_kb,
        panic: Some(ctx.message),
    };
    CycleResult {
        line: make_line(ctx.id, ctx.wall_ns, false, parts, ctx.honesty, &notes),
        peaks,
    }
}

/// A cycle holds when all its checks do, the last of them that the engine completed and skipped as
/// many earlier days as the dates call for; that check alone is made here.
pub proof fn law_every_check_counts(
    h: &mut Honesty,
    exit: &EngineExit,
    notes: &mut Vec<String>,
    r: bool,
)
    requires
        call_ensures(finalize_honesty, (h, exit, notes), r),
    ensures
        final(h).engine_priors_ok <==> exit.priors_completed == old(h).expected_priors_accepted
            && exit.prior_skips == old(h).expected_prior_skips,
        r <==> {
            &&& final(h).engine_priors_ok
            &&& old(h).current_ready
            &&& old(h).seeks_final_answered
            &&& old(h).retention_ok
            &&& old(h).rss_ceiling_ok
            &&& old(h).priors_slot_ok
        },
        final(h).current_ready == old(h).current_ready,
        final(h).seeks_final_answered == old(h).seeks_final_answered,
        final(h).retention_ok == old(h).retention_ok,
        final(h).rss_ceiling_ok == old(h).rss_ceiling_ok,
        final(h).priors_slot_ok == old(h).priors_slot_ok,
        final(h).expected_priors_accepted == old(h).expected_priors_accepted,
        final(h).expected_prior_skips == old(h).expected_prior_skips,
        final(h).re_set_source_sessions == old(h).re_set_source_sessions,
        final(h).engine_priors_ok ==> final(notes).len() == old(notes).len(),
        !final(h).engine_priors_ok ==> final(notes).len() == old(notes).len() + 1,
{
    assert(texts_of(final(notes)@).len() == final(notes).len());
    assert(texts_of(old(notes)@).len() == old(notes).len());
}

/// Peaks only grow, each to a sample of its own kind.
pub proof fn law_peaks_grow(peaks: &mut Peaks, hwm_kb: u64, rss_kb: u64)
    requires
        call_ensures(Peaks::sample, (peaks, hwm_kb, rss_kb), ()),
    ensures
        final(peaks).rss_kb >= rss_kb && final(peaks).rss_kb >= old(peaks).rss_kb,
        final(peaks).rss_kb == rss_kb || final(peaks).rss_kb == old(peaks).rss_kb,
        final(peaks).hwm_kb >= hwm_kb && final(peaks).hwm_kb >= old(peaks).hwm_kb,
        final(peaks).hwm_kb == hwm_kb || final(peaks).hwm_kb == old(peaks).hwm_kb,
{
}

/// The line of a failed cycle says so, carries its report, and reports what the engine did where it
/// could be asked, and zeros where not.
pub proof fn law_failed_line(ctx: FailCtx, hwm_kb: u64, rss_kb: u64, r: CycleResult)
    requires
        call_ensures(fail_cycle, (ctx, hwm_kb, rss_kb), r),
    ensures
        !r.line.ok,
        r.line.parts.panic is Some && r.line.parts.panic->0@ == ctx.message@,
        r.line.honesty == ctx.honesty,
        r.line.cycle == ctx.id.cycle && r.line.wall_ns == ctx.wall_ns,
        r.line.speed_bits == ctx.id.speed_bits && r.line.cycle_secs_cap == ctx.id.cycle_secs,
        r.peaks.rss_kb >= rss_kb && r.peaks.rss_kb >= ctx.peaks.rss_kb,
        r.line.parts.peak_rss_kb == r.peaks.rss_kb,
        r.line.parts.rss == rss_kb && r.line.parts.hwm == hwm_kb,
        r.line.parts.sessions == 0 && r.line.parts.seeks_issued == 0,
        ctx.partial is Some ==> {
            let exit = ctx.partial->0;
            &&& r.line.parts.events_applied == exit.events_applied
            &&& r.line.parts.events_read == exit.events_read
            &&& r.line.parts.gap_records == exit.gap_records
            &&& r.line.parts.publications == exit.publications
            &&& r.line.parts.seeks_executed == exit.seeks_executed
            &&& r.line.parts.priors_completed == exit.priors_completed
            &&& r.line.parts.prior_skips == exit.prior_skips
        },
        ctx.partial is None ==> {
            &&& r.line.parts.events_applied == 0 && r.line.parts.events_read == 0
            &&& r.line.parts.gap_records == 0 && r.line.parts.publications == 0
            &&& r.line.parts.seeks_executed == 0
            &&& r.line.parts.priors_completed == 0 && r.line.parts.prior_skips == 0
        },
        r.line.notes is Some && r.line.notes->0@ == "cycle failure; "@ + ctx.message@,
{
    let parts = seq!["cycle failure"@, ctx.message@];
    reveal_with_fuel(joined, 3);
    reveal_strlit("cycle failure");
    reveal_strlit("; ");
    reveal_strlit("cycle failure; ");
    assert(parts.drop_last() =~= seq!["cycle failure"@]);
    assert("cycle failure"@ + "; "@ =~= "cycle failure; "@);
}

/// The note on an engine whose counts are off gives its counts first and what was expected behind
/// them, taken days before skipped ones.
pub proof fn law_counts_noted(h: &mut Honesty, exit: &EngineExit, notes: &mut Vec<String>, r: bool)
    requires
        call_ensures(finalize_honesty, (h, exit, notes), r),
        !final(h).engine_priors_ok,
    ensures
        texts_of(final(notes)@) == texts_of(old(notes)@).push(
            "engine priors mismatch: completed="@ + decimal(exit.priors_completed as nat)
                + " skips="@ + decimal(exit.prior_skips as nat) + " expected_accepted="@ + decimal(
                old(h).expected_priors_accepted as nat,
            ) + " expected_skips="@ + decimal(old(h).expected_prior_skips as nat),
        ),
{
}

} // verus!
