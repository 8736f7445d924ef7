//! The seek evidence: targets sought from checkpoints, checked against replay from the
//! beginning, and timed.

use super::bounds::Inspection;
use crate::data_plane::sections::{difference, first_diff, StateSections};
use crate::event::CanonicalEvent;
use crate::num::{ascending, least, sorted};
use crate::replay::error::{ReplayError, Result as ReplayResult};
use crate::replay::source::{
    due, is_log_error, law_after_after, leads_with, lemma_due, taken, ReplaySource,
};
use crate::text::{
    chars_of, concat2, concat3, decimal, join, joined, push_decimal, same_outcome,
    text_of, texts_of,
};
use vstd::prelude::*;

verus! {

/// The budget of a seek's 95th percentile.
pub const P95_BUDGET_NS: u64 = 250_000_000;

/// What a log is, for a run over it.
#[derive(Clone, Copy, Debug, PartialEq, Eq, Structural)]
pub struct LogInfo {
    pub event_count: u64,
    pub checkpoint_count: usize,
    pub frame_count: usize,
    pub first_ts: u64,
    pub last_ts: u64,
}

/// What a log is, or why no seek can be timed on it.
pub open spec fn info_of(found: Inspection, frames: usize, path: Seq<char>) -> core::result::Result<
    LogInfo,
    Seq<char>,
> {
    match found.first_ts {
        None => Err("m2-gate: log has no EVENTS frames: "@ + path),
        Some(first_ts) => if found.last_ts < first_ts {
            Err(
                "m2-gate: last_ts < first_ts ("@ + decimal(found.last_ts as nat) + " < "@ + decimal(
                    first_ts as nat,
                ) + ")"@,
            )
        } else if found.checkpoints == 0 {
            Err(
                "m2-gate: log has zero CHECKPOINT frames — Seek is forbidden on a checkpoint-less log.\nRun `fft-checkpoint "@
                    + path + " <checkpointed.fftlog>` and pass the -ckpt copy."@,
            )
        } else {
            Ok(
                LogInfo {
                    event_count: found.records,
                    checkpoint_count: found.checkpoints,
                    frame_count: frames,
                    first_ts,
                    last_ts: found.last_ts,
                },
            )
        },
    }
}

/// What a log is, or why no seek can be timed on it.
pub fn inspect_log(found: Inspection, frames: usize, path: &str) -> (r: core::result::Result<
    LogInfo,
    String,
>)
    ensures
        same_outcome(r, info_of(found, frames, path@)),
{
    match found.first_ts {
        None => Err(concat2("m2-gate: log has no EVENTS frames: ", path)),
        Some(first_ts) => {
            if found.last_ts < first_ts {
                let mut text: String = "m2-gate: last_ts < first_ts (".to_owned();
                push_decimal(&mut text, found.last_ts);
                text.append(" < ");
                push_decimal(&mut text, first_ts);
                text.append(")");
                return Err(text);
            }
            if found.checkpoints == 0 {
                return Err(
                    concat3(
                        "m2-gate: log has zero CHECKPOINT frames — Seek is forbidden on a checkpoint-less log.\nRun `fft-checkpoint ",
                        path,
                        " <checkpointed.fftlog>` and pass the -ckpt copy.",
                    ),
                );
            }
            Ok(
                LogInfo {
                    event_count: found.records,
                    checkpoint_count: found.checkpoints,
                    frame_count: frames,
                    first_ts,
                    last_ts: found.last_ts,
                },
            )
        },
    }
}

/// Replays every event up to the target, as a seek does: the first later event stays ahead.
pub fn forward_to_ts(
    source: &mut ReplaySource,
    target_ts: u64,
    applied: &mut Vec<CanonicalEvent>,
) -> (r: ReplayResult<u64>)
    requires
        old(source).wf(),
    ensures
        final(source).wf(),
        final(source).log() == old(source).log(),
        ({
            let from = old(source)@;
            let k = due(from.remaining, target_ts);
            &&& final(applied)@ == old(applied)@ + taken(from.remaining, k)
            &&& if k < from.remaining.len() && from.remaining[k as int] is Err {
                &&& is_log_error(r, from.remaining[k as int]->Err_0)
                &&& final(source)@ == from.after(k).past_fault()
            } else {
                &&& r == Ok::<u64, ReplayError>(k as u64)
                &&& final(source)@ == from.after(k)
            }
        }),
{
    let ghost from = source@;
    let ghost kept = applied@;
    let mut events: u64 = 0;
    proof {
        source.law_counts_fit();
        lemma_due(from.remaining, target_ts);
        assert(from.remaining.skip(0) =~= from.remaining);
        assert(from.after(0) =~= from);
        assert(taken(from.remaining, 0) =~= Seq::<CanonicalEvent>::empty());
    }
    let ghost k = due(from.remaining, target_ts);
    loop
        invariant
            source.wf(),
            source.log() == old(source).log(),
            from == old(source)@,
            kept == old(applied)@,
            k == due(from.remaining, target_ts),
            k <= from.remaining.len() <= u64::MAX,
            forall|i: int|
                0 <= i < k ==> (#[trigger] from.remaining[i]) is Ok
                    && from.remaining[i]->Ok_0.ts.0 <= target_ts,
            k < from.remaining.len() && from.remaining[k as int] is Ok
                ==> from.remaining[k as int]->Ok_0.ts.0 > target_ts,
            events <= k,
            source@ == from.after(events as nat),
            applied@ == kept + taken(from.remaining, events as nat),
        decreases k - events,
    {
        let ghost n = events as nat;
        assert(n < from.remaining.len() ==> source@.remaining[0] == from.remaining[n as int]);
        match source.peek_event() {
            Err(error) => {
                assert(n == k);
                return Err(error);
            },
            Ok(None) => {
                assert(n == k);
                return Ok(events);
            },
            Ok(Some(next)) => {
                if next.ts.0 > target_ts {
                    assert(n == k);
                    return Ok(events);
                }
                assert(n < k);
                match source.apply_next() {
                    Ok(Some(event)) => {
                        applied.push(event);
                        proof {
                            law_after_after(from, n, 1);
                            assert(taken(from.remaining, n + 1) =~= taken(from.remaining, n).push(
                                event,
                            ));
                            assert(applied@ =~= kept + taken(from.remaining, n + 1));
                        }
                        events += 1;
                    },
                    Ok(None) => {
                        return Ok(events);
                    },
                    Err(error) => {
                        return Err(error);
                    },
                }
            },
        }
    }
}

/// How many events lead to the end or to a fault.
pub open spec fn readable(steps: Seq<crate::replay::frames::Step>) -> nat
    decreases steps.len(),
{
    if steps.len() == 0 || steps[0] is Err {
        0
    } else {
        1 + readable(steps.drop_first())
    }
}

/// Replays to the end and counts the events.
pub fn replay_to_end(source: &mut ReplaySource, applied: &mut Vec<CanonicalEvent>) -> (r:
    ReplayResult<u64>)
    requires
        old(source).wf(),
    ensures
        final(source).wf(),
        final(source).log() == old(source).log(),
        ({
            let from = old(source)@;
            let k = readable(from.remaining);
            &&& final(applied)@ == old(applied)@ + taken(from.remaining, k)
            &&& if k < from.remaining.len() {
                &&& is_log_error(r, from.remaining[k as int]->Err_0)
                &&& final(source)@ == from.after(k).past_fault()
            } else {
                &&& r == Ok::<u64, ReplayError>(k as u64)
                &&& final(source)@ == from.after(k)
            }
        }),
{
    let ghost from = source@;
    let ghost kept = applied@;
    let mut events: u64 = 0;
    proof {
        source.law_counts_fit();
        lemma_readable(from.remaining);
        assert(from.remaining.skip(0) =~= from.remaining);
        assert(from.after(0) =~= from);
        assert(taken(from.remaining, 0) =~= Seq::<CanonicalEvent>::empty());
    }
    let ghost k = readable(from.remaining);
    loop
        invariant
            source.wf(),
            source.log() == old(source).log(),
            from == old(source)@,
            kept == old(applied)@,
            k == readable(from.remaining),
            k <= from.remaining.len() <= u64::MAX,
            leads_with(from.remaining, k),
            k < from.remaining.len() ==> from.remaining[k as int] is Err,
            events <= k,
            source@ == from.after(events as nat),
            applied@ == kept + taken(from.remaining, events as nat),
        decreases k - events,
    {
        let ghost n = events as nat;
        assert(n < from.remaining.len() ==> source@.remaining[0] == from.remaining[n as int]);
        match source.apply_next() {
            Ok(Some(event)) => {
                assert(n < k);
                applied.push(event);
                proof {
                    law_after_after(from, n, 1);
                    assert(taken(from.remaining, n + 1) =~= taken(from.remaining, n).push(event));
                    assert(applied@ =~= kept + taken(from.remaining, n + 1));
                }
                events += 1;
            },
            Ok(None) => {
                assert(n == k);
                return Ok(events);
            },
            Err(error) => {
                assert(n == k);
                return Err(error);
            },
        }
    }
}

proof fn lemma_readable(steps: Seq<crate::replay::frames::Step>)
    ensures
        readable(steps) <= steps.len(),
        leads_with(steps, readable(steps)),
        readable(steps) < steps.len() ==> steps[readable(steps) as int] is Err,
    decreases steps.len(),
{
    if steps.len() > 0 && steps[0] is Ok {
        let rest = steps.drop_first();
        lemma_readable(rest);
        assert forall|i: int| 0 <= i < readable(steps) implies (#[trigger] steps[i]) is Ok by {
            if i > 0 {
                assert(rest[i - 1] is Ok);
            }
        }
        if readable(steps) < steps.len() {
            assert(rest[readable(rest) as int] is Err);
        }
    }
}

/// Where a replay stands and the state it holds.
#[derive(Debug)]
pub struct Reached {
    pub applied_seq: u64,
    pub applied_ts: u64,
    pub sections: StateSections,
}

/// A target at which seeking and replaying from the beginning differ.
#[derive(Debug)]
pub struct Mismatch {
    pub target_ts: u64,
    pub section: String,
    pub seek_applied_seq: u64,
    pub seek_applied_ts: u64,
    pub forward_applied_seq: u64,
    pub forward_applied_ts: u64,
}

/// What differs between a seek and a replay from the beginning.
pub open spec fn differing(seek: Reached, forward: Reached) -> Option<Seq<char>> {
    if seek.applied_seq != forward.applied_seq || seek.applied_ts != forward.applied_ts {
        Some("applied_seq/ts"@)
    } else {
        match difference(seek.sections, forward.sections) {
            Some(section) => Some(section.text()),
            None => None,
        }
    }
}

/// Compares a seek with a replay from the beginning.
pub fn compare(target_ts: u64, seek: &Reached, forward: &Reached) -> (r: Option<Mismatch>)
    ensures
        match r {
            None => differing(*seek, *forward) is None,
            Some(mismatch) => {
                &&& differing(*seek, *forward) == Some(mismatch.section@)
                &&& mismatch.target_ts == target_ts
                &&& mismatch.seek_applied_seq == seek.applied_seq
                &&& mismatch.seek_applied_ts == seek.applied_ts
                &&& mismatch.forward_applied_seq == forward.applied_seq
                &&& mismatch.forward_applied_ts == forward.applied_ts
            },
        },
{
    let name: &'static str = if seek.applied_seq != forward.applied_seq || seek.applied_ts
        != forward.applied_ts {
        "applied_seq/ts"
    } else {
        match first_diff(&seek.sections, &forward.sections) {
            Some(section) => section.name(),
            None => return None,
        }
    };
    Some(
        Mismatch {
            target_ts,
            section: name.to_owned(),
            seek_applied_seq: seek.applied_seq,
            seek_applied_ts: seek.applied_ts,
            forward_applied_seq: forward.applied_seq,
            forward_applied_ts: forward.applied_ts,
        },
    )
}

/// The targets that are checked: their number, how many agreed, and the first that did not.
#[derive(Debug)]
pub struct VerifyReport {
    pub count: u64,
    pub passed: u64,
    pub mismatch: Option<Mismatch>,
}

impl VerifyReport {
    /// Whether every target so far agreed, and no more were checked than there are.
    pub open spec fn wf(self) -> bool {
        self.passed <= self.count && (self.mismatch is Some ==> self.passed < self.count)
    }

    /// A report on none of the targets yet: as many as were asked for and as there are.
    pub fn new(asked: u64, targets: u64) -> (r: VerifyReport)
        ensures
            r.wf(),
            r.count == least(asked as int, targets as int),
            r.passed == 0,
            r.mismatch is None,
    {
        VerifyReport {
            count: if asked < targets {
                asked
            } else {
                targets
            },
            passed: 0,
            mismatch: None,
        }
    }

    /// How many targets failed: the first that does is the last that is checked.
    pub fn failed(&self) -> (r: u64)
        ensures
            r == (if self.mismatch is Some {
                1int
            } else {
                0
            }),
    {
        if self.mismatch.is_some() {
            1
        } else {
            0
        }
    }

    /// The next target to check.
    pub fn next(&self) -> (r: Option<u64>)
        requires
            self.wf(),
        ensures
            r == (if self.mismatch is None && self.passed < self.count {
                Some(self.passed)
            } else {
                None
            }),
    {
        if self.mismatch.is_none() && self.passed < self.count {
            Some(self.passed)
        } else {
            None
        }
    }

    /// Takes in the comparison of the next target.
    pub fn record(&mut self, compared: Option<Mismatch>)
        requires
            old(self).wf(),
            old(self).mismatch is None,
            old(self).passed < old(self).count,
        ensures
            final(self).wf(),
            final(self).count == old(self).count,
            final(self).mismatch == compared,
            final(self).passed == old(self).passed + (if compared is None {
                1int
            } else {
                0
            }),
    {
        match compared {
            None => {
                self.passed += 1;
            },
            Some(mismatch) => {
                self.mismatch = Some(mismatch);
            },
        }
    }
}

/// A distribution of times, in nanoseconds.
#[derive(Clone, Copy, Debug, PartialEq, Eq, Structural)]
pub struct Distribution {
    pub n: usize,
    pub p50_ns: u64,
    pub p95_ns: u64,
    pub p99_ns: u64,
    pub max_ns: u64,
    pub min_ns: u64,
}

/// The time of a rank among the times in ascending order; the last, where there are fewer.
pub open spec fn ranked(times: Seq<u64>, rank: nat) -> u64 {
    ascending(times)[least(rank as int, times.len() - 1)]
}

/// The distribution of the times, at the given ranks.
pub fn distribution(times: &Vec<u64>, p50_rank: usize, p95_rank: usize, p99_rank: usize) -> (r:
    Distribution)
    requires
        times.len() > 0,
    ensures
        r.n == times.len(),
        r.p50_ns == ranked(times@, p50_rank as nat),
        r.p95_ns == ranked(times@, p95_rank as nat),
        r.p99_ns == ranked(times@, p99_rank as nat),
        r.max_ns == ranked(times@, (times.len() - 1) as nat),
        r.min_ns == ranked(times@, 0),
{
    let order: Vec<u64> = sorted(times);
    let n: usize = order.len();
    Distribution {
        n,
        p50_ns: at_rank(&order, p50_rank),
        p95_ns: at_rank(&order, p95_rank),
        p99_ns: at_rank(&order, p99_rank),
        max_ns: order[n - 1],
        min_ns: order[0],
    }
}

fn at_rank(order: &Vec<u64>, rank: usize) -> (r: u64)
    requires
        order.len() > 0,
    ensures
        r == order@[least(rank as int, order.len() - 1)],
{
    if rank < order.len() {
        order[rank]
    } else {
        order[order.len() - 1]
    }
}

/// A character with a small letter made a capital.
pub open spec fn capital(c: char) -> char {
    if 'a' <= c <= 'z' {
        (c as nat - 32) as char
    } else {
        c
    }
}

/// A text with its small letters made capitals.
pub open spec fn capitals(s: Seq<char>) -> Seq<char> {
    Seq::new(s.len(), |i: int| capital(s[i]))
}

/// Whether a label marks a smoke run: in any spelling of the word.
pub open spec fn marks_smoke(label: Option<Seq<char>>) -> bool {
    label matches Some(text) && capitals(text) == "SMOKE"@
}

fn is_smoke(label: Option<&str>) -> (r: bool)
    ensures
        r == marks_smoke(
            match label {
                Some(text) => Some(text@),
                None => None,
            },
        ),
{
    match label {
        None => false,
        Some(text) => {
            let v: Vec<char> = chars_of(text);
            let w: Vec<char> = chars_of("SMOKE");
            if v.len() != w.len() {
                assert(capitals(text@).len() == v.len());
                return false;
            }
            let mut i: usize = 0;
            while i < v.len()
                invariant
                    i <= v.len(),
                    v.len() == w.len(),
                    label == Some(text),
                    v@ == text@,
                    w@ == "SMOKE"@,
                    forall|j: int| 0 <= j < i ==> capital(#[trigger] v@[j]) == w@[j],
                decreases v.len() - i,
            {
                let c: char = if 'a' <= v[i] && v[i] <= 'z' {
                    (v[i] as u8 - 32) as char
                } else {
                    v[i]
                };
                assert(c == capital(v@[i as int]));
                if c != w[i] {
                    assert(capitals(text@)[i as int] != "SMOKE"@[i as int]);
                    return false;
                }
                i += 1;
            }
            assert(capitals(text@) =~= w@);
            true
        },
    }
}

/// The name of the evidence.
pub open spec fn evidence_name(label: Option<Seq<char>>) -> Seq<char> {
    match label {
        None => "M2 seek gate — p95≤250ms cold/warm, bit-identity, ≥60× realtime"@,
        Some(text) => if marks_smoke(label) {
            "M2 seek harness — SMOKE (not a gate claim)"@
        } else {
            "M2 seek gate — "@ + text
        },
    }
}

/// The name of the evidence.
pub fn gate_name(label: Option<&str>) -> (r: String)
    ensures
        r@ == evidence_name(
            match label {
                Some(text) => Some(text@),
                None => None,
            },
        ),
{
    match label {
        None => "M2 seek gate — p95≤250ms cold/warm, bit-identity, ≥60× realtime".to_owned(),
        Some(text) => {
            if is_smoke(label) {
                "M2 seek harness — SMOKE (not a gate claim)".to_owned()
            } else {
                concat2("M2 seek gate — ", text)
            }
        },
    }
}

/// What the timings come to: the 95th percentiles, each with its numeral in milliseconds, and
/// whether the replay was too slow, with the numeral of how much faster than the market it was.
#[derive(Debug)]
pub struct Timings {
    pub cold_p95_ns: u64,
    pub cold_p95_ms: String,
    pub warm_p95_ns: u64,
    pub warm_p95_ms: String,
    pub below_realtime_budget: bool,
    pub realtime_multiple: String,
}

/// What failed, in the order in which it is reported.
pub open spec fn failures(timings: Timings, checked: u64) -> Seq<Seq<char>> {
    (if timings.cold_p95_ns > P95_BUDGET_NS {
        seq!["cold p95 "@ + timings.cold_p95_ms@ + " ms > 250 ms"@]
    } else {
        Seq::empty()
    }) + (if timings.warm_p95_ns > P95_BUDGET_NS {
        seq!["warm p95 "@ + timings.warm_p95_ms@ + " ms > 250 ms"@]
    } else {
        Seq::empty()
    }) + (if timings.below_realtime_budget {
        seq!["realtime_multiple "@ + timings.realtime_multiple@ + "× < 60×"@]
    } else {
        Seq::empty()
    }) + (if checked == 0 {
        seq!["verify count is 0 (no bit-identity evidence)"@]
    } else {
        Seq::empty()
    })
}

/// The verdict and the notes on it: a mismatch fails any run, a smoke run claims nothing, and
/// otherwise every budget has to hold and some target has to have been checked.
pub open spec fn verdict_of(
    label: Option<Seq<char>>,
    timings: Timings,
    verify: VerifyReport,
) -> (Seq<char>, Option<Seq<char>>) {
    match verify.mismatch {
        Some(mismatch) => (
            "FAIL"@,
            Some(
                "bit-identity mismatch at target_ts="@ + decimal(mismatch.target_ts as nat)
                    + " section="@ + mismatch.section@,
            ),
        ),
        None => if marks_smoke(label) {
            (
                "SMOKE"@,
                Some(
                    "SMOKE run — distributions recorded; do not claim M2 gate numbers from this output"@,
                ),
            )
        } else if failures(timings, verify.count).len() == 0 {
            ("PASS"@, None)
        } else {
            ("FAIL"@, Some(joined(failures(timings, verify.count), "; "@)))
        },
    }
}

fn list_failures(timings: &Timings, checked: u64) -> (r: Vec<String>)
    ensures
        texts_of(r@) == failures(*timings, checked),
{
    let mut fails: Vec<String> = Vec::new();
    if timings.cold_p95_ns > P95_BUDGET_NS {
        fails.push(concat3("cold p95 ", timings.cold_p95_ms.as_str(), " ms > 250 ms"));
    }
    if timings.warm_p95_ns > P95_BUDGET_NS {
        fails.push(concat3("warm p95 ", timings.warm_p95_ms.as_str(), " ms > 250 ms"));
    }
    if timings.below_realtime_budget {
        fails.push(concat3("realtime_multiple ", timings.realtime_multiple.as_str(), "× < 60×"));
    }
    if checked == 0 {
        fails.push("verify count is 0 (no bit-identity evidence)".to_owned());
    }
    assert(texts_of(fails@) =~= failures(*timings, checked));
    fails
}

/// The verdict and the notes on it.
pub fn decide_verdict(label: Option<&str>, timings: &Timings, verify: &VerifyReport) -> (r: (
    &'static str,
    Option<String>,
))
    ensures
        (r.0@, text_of(r.1)) == verdict_of(
            match label {
                Some(text) => Some(text@),
                None => None,
            },
            *timings,
            *verify,
        ),
{
    if let Some(mismatch) = &verify.mismatch {
        let mut text: String = "bit-identity mismatch at target_ts=".to_owned();
        push_decimal(&mut text, mismatch.target_ts);
        text.append(" section=");
        text.append(mismatch.section.as_str());
        return ("FAIL", Some(text));
    }
    if is_smoke(label) {
        return (
            "SMOKE",
            Some(
                "SMOKE run — distributions recorded; do not claim M2 gate numbers from this output".to_owned(),
            ),
        );
    }
    let fails: Vec<String> = list_failures(timings, verify.count);
    assert(texts_of(fails@).len() == fails.len());
    if fails.len() == 0 {
        ("PASS", None)
    } else {
        ("FAIL", Some(join(&fails, "; ")))
    }
}

/// A run passes only when nothing differed, it is no smoke run, both 95th percentiles are within
/// the budget, the replay was fast enough and some target was checked; and then it does pass,
/// with nothing to note. A run that differed fails, whatever else holds of it, and it is a smoke
/// run only if its label is that word, in capitals or not.
pub proof fn law_pass_keeps_every_budget(
    label: Option<&'static str>,
    timings: &Timings,
    verify: &VerifyReport,
    r: (&'static str, Option<String>),
)
    requires
        call_ensures(decide_verdict, (label, timings, verify), r),
    ensures
        r.0@ == "PASS"@ <==> {
            &&& verify.mismatch is None
            &&& r.0@ != "SMOKE"@
            &&& timings.cold_p95_ns <= 250_000_000
            &&& timings.warm_p95_ns <= 250_000_000
            &&& !timings.below_realtime_budget
            &&& verify.count > 0
        },
        verify.mismatch is Some ==> r.0@ == "FAIL"@,
        r.0@ == "PASS"@ || r.0@ == "FAIL"@ || r.0@ == "SMOKE"@,
        r.0@ == "SMOKE"@ <==> verify.mismatch is None && label is Some && {
            let word = label->0@;
            &&& word.len() == 5
            &&& word[0] == 'S' || word[0] == 's'
            &&& word[1] == 'M' || word[1] == 'm'
            &&& word[2] == 'O' || word[2] == 'o'
            &&& word[3] == 'K' || word[3] == 'k'
            &&& word[4] == 'E' || word[4] == 'e'
        },
        r.1 is None <==> r.0@ == "PASS"@,
{
    reveal_strlit("PASS");
    reveal_strlit("FAIL");
    reveal_strlit("SMOKE");
    assert("PASS"@[0] != "FAIL"@[0]);
    assert("PASS"@.len() != "SMOKE"@.len());
    assert("FAIL"@.len() != "SMOKE"@.len());
    let fails = failures(*timings, verify.count);
    let kept = timings.cold_p95_ns <= P95_BUDGET_NS && timings.warm_p95_ns <= P95_BUDGET_NS
        && !timings.below_realtime_budget && verify.count > 0;
    assert(fails.len() == 0 <==> kept);
    if label is Some {
        let word = label->0@;
        if word.len() == 5 {
            assert(capitals(word) == "SMOKE"@ <==> (capitals(word)[0] == 'S' && capitals(word)[1]
                == 'M' && capitals(word)[2] == 'O' && capitals(word)[3] == 'K' && capitals(word)[4]
                == 'E')) by {
                if capitals(word)[0] == 'S' && capitals(word)[1] == 'M' && capitals(word)[2] == 'O'
                    && capitals(word)[3] == 'K' && capitals(word)[4] == 'E' {
                    assert(capitals(word) =~= "SMOKE"@);
                }
            }
        }
    }
}

proof fn lemma_one_failure(timings: &Timings, checked: u64)
    ensures
        ({
            let fails = failures(*timings, checked);
            let cold = timings.cold_p95_ns > P95_BUDGET_NS;
            let warm = timings.warm_p95_ns > P95_BUDGET_NS;
            let slow = timings.below_realtime_budget;
            let none = checked == 0;
            &&& cold && !warm && !slow && !none ==> fails =~= seq![
                "cold p95 "@ + timings.cold_p95_ms@ + " ms > 250 ms"@,
            ]
            &&& warm && !cold && !slow && !none ==> fails =~= seq![
                "warm p95 "@ + timings.warm_p95_ms@ + " ms > 250 ms"@,
            ]
            &&& slow && !cold && !warm && !none ==> fails =~= seq![
                "realtime_multiple "@ + timings.realtime_multiple@ + "× < 60×"@,
            ]
            &&& none && !cold && !warm && !slow ==> fails =~= seq![
                "verify count is 0 (no bit-identity evidence)"@,
            ]
        }),
{
}

/// The notes of a failed run say what broke: the one budget that did, with its own numeral, or the
/// target at which a seek differed, with the section.
pub proof fn law_notes_name_what_broke(
    label: Option<&'static str>,
    timings: &Timings,
    verify: &VerifyReport,
    r: (&'static str, Option<String>),
)
    requires
        call_ensures(decide_verdict, (label, timings, verify), r),
    ensures
        ({
            let cold = timings.cold_p95_ns > 250_000_000;
            let warm = timings.warm_p95_ns > 250_000_000;
            let slow = timings.below_realtime_budget;
            let none = verify.count == 0;
            let judged = verify.mismatch is None && r.0@ != "SMOKE"@;
            &&& judged && cold && !warm && !slow && !none ==> r.1 is Some && r.1->0@ == "cold p95 "@
                + timings.cold_p95_ms@ + " ms > 250 ms"@
            &&& judged && warm && !cold && !slow && !none ==> r.1 is Some && r.1->0@ == "warm p95 "@
                + timings.warm_p95_ms@ + " ms > 250 ms"@
            &&& judged && slow && !cold && !warm && !none ==> r.1 is Some && r.1->0@
                == "realtime_multiple "@ + timings.realtime_multiple@ + "× < 60×"@
            &&& judged && none && !cold && !warm && !slow ==> r.1 is Some && r.1->0@
                == "verify count is 0 (no bit-identity evidence)"@
            &&& verify.mismatch is Some ==> r.1 is Some && r.1->0@
                == "bit-identity mismatch at target_ts="@ + decimal(
                verify.mismatch->0.target_ts as nat,
            ) + " section="@ + verify.mismatch->0.section@
        }),
{
    lemma_one_failure(timings, verify.count);
    law_pass_keeps_every_budget(label, timings, verify, r);
}

/// A seek agrees with a replay from the beginning exactly where both stand at the same sequence
/// and time and every section of their states has the same bytes; otherwise both places and the
/// target are reported.
pub proof fn law_agreement_is_bit_identity(
    target_ts: u64,
    seek: &Reached,
    forward: &Reached,
    r: Option<Mismatch>,
)
    requires
        call_ensures(compare, (target_ts, seek, forward), r),
    ensures
        r is None <==> {
            &&& seek.applied_seq == forward.applied_seq
            &&& seek.applied_ts == forward.applied_ts
            &&& seek.sections.book@ == forward.sections.book@
            &&& seek.sections.flow@ == forward.sections.flow@
            &&& seek.sections.refresh@ == forward.sections.refresh@
            &&& seek.sections.profile@ == forward.sections.profile@
            &&& seek.sections.cvd@ == forward.sections.cvd@
            &&& seek.sections.session@ == forward.sections.session@
        },
        r is Some ==> {
            &&& r->0.target_ts == target_ts
            &&& r->0.seek_applied_seq == seek.applied_seq
            &&& r->0.seek_applied_ts == seek.applied_ts
            &&& r->0.forward_applied_seq == forward.applied_seq
            &&& r->0.forward_applied_ts == forward.applied_ts
        },
        r is Some && (seek.applied_seq != forward.applied_seq || seek.applied_ts
            != forward.applied_ts) ==> r->0.section@ == "applied_seq/ts"@,
{
}

/// The times of a distribution are those at their ranks, counted from zero, once the times are put
/// in ascending order; a rank beyond the last is the last.
pub proof fn law_distribution_by_rank(
    times: &Vec<u64>,
    p50_rank: usize,
    p95_rank: usize,
    p99_rank: usize,
    r: Distribution,
    order: Seq<u64>,
)
    requires
        times.len() > 0,
        call_ensures(distribution, (times, p50_rank, p95_rank, p99_rank), r),
        order.to_multiset() == times@.to_multiset(),
        forall|i: int, j: int| 0 <= i <= j < order.len() ==> #[trigger] order[i] <= #[trigger] order[j],
    ensures
        r.n == times.len(),
        r.min_ns == order[0],
        r.max_ns == order[order.len() - 1],
        p50_rank < times.len() ==> r.p50_ns == order[p50_rank as int],
        p95_rank < times.len() ==> r.p95_ns == order[p95_rank as int],
        p99_rank < times.len() ==> r.p99_ns == order[p99_rank as int],
        p50_rank >= times.len() ==> r.p50_ns == r.max_ns,
        p95_rank >= times.len() ==> r.p95_ns == r.max_ns,
        p99_rank >= times.len() ==> r.p99_ns == r.max_ns,
        r.min_ns <= r.p50_ns <= r.max_ns,
        r.min_ns <= r.p95_ns <= r.max_ns,
        r.min_ns <= r.p99_ns <= r.max_ns,
        p50_rank <= p95_rank ==> r.p50_ns <= r.p95_ns,
        p95_rank <= p99_rank ==> r.p95_ns <= r.p99_ns,
{
    crate::num::law_ascending(times@, order);
}

/// Seeks can be timed on a log that has events, a checkpoint, and does not end before it begins;
/// what is then known of it are its own counts and times.
pub proof fn law_log_can_be_timed(
    found: Inspection,
    frames: usize,
    path: &'static str,
    r: core::result::Result<LogInfo, String>,
)
    requires
        call_ensures(inspect_log, (found, frames, path), r),
    ensures
        r is Ok <==> found.first_ts is Some && found.first_ts->0 <= found.last_ts
            && found.checkpoints > 0,
        r is Ok ==> {
            let info = r->Ok_0;
            &&& info.event_count == found.records
            &&& info.checkpoint_count == found.checkpoints
            &&& info.frame_count == frames
            &&& info.first_ts == found.first_ts->0
            &&& info.last_ts == found.last_ts
        },
{
}

/// The targets are checked one after the other, as many as were asked for or as there are, until
/// one differs; that one is the failure, and those before it passed.
pub proof fn law_targets_in_turn(
    asked: u64,
    targets: u64,
    made: VerifyReport,
    report: &mut VerifyReport,
    compared: Option<Mismatch>,
    before: Option<u64>,
    after: Option<u64>,
    failed: u64,
)
    requires
        call_ensures(VerifyReport::new, (asked, targets), made),
        old(report).wf(),
        call_ensures(VerifyReport::next, (&*old(report),), before),
        before is Some,
        call_ensures(VerifyReport::record, (report, compared), ()),
        call_ensures(VerifyReport::next, (&*final(report),), after),
        call_ensures(VerifyReport::failed, (&*final(report),), failed),
    ensures
        made.count <= asked,
        made.count <= targets,
        made.count == asked || made.count == targets,
        made.passed == 0 && made.mismatch is None,
        final(report).count == old(report).count,
        compared is None ==> final(report).passed == before->0 + 1 && failed == 0,
        compared is None ==> after is Some == (before->0 + 1 < old(report).count),
        compared is None && after is Some ==> after->0 == before->0 + 1,
        compared is Some ==> final(report).passed == before->0 && failed == 1 && after is None
            && final(report).mismatch == compared,
{
}

/// Forward replay applies, in order, the events up to the target and no later one, and counts
/// them.
pub proof fn law_forward_reaches_target(
    source: &mut ReplaySource,
    target_ts: u64,
    applied: &mut Vec<CanonicalEvent>,
    r: ReplayResult<u64>,
    i: int,
)
    requires
        old(source).wf(),
        call_ensures(forward_to_ts, (source, target_ts, applied), r),
    ensures
        ({
            let steps = old(source)@.remaining;
            let kept = old(applied)@.len() as int;
            let n = final(applied)@.len() - kept;
            &&& 0 <= n <= steps.len()
            &&& final(applied)@.take(kept) == old(applied)@
            &&& 0 <= i < n ==> steps[i] is Ok && steps[i]->Ok_0.ts.0 <= target_ts
                && final(applied)@[kept + i] == steps[i]->Ok_0
            &&& r is Ok ==> r->Ok_0 == n && final(source)@.remaining == steps.skip(n)
                && final(source)@.ordinal == old(source)@.ordinal + n
            &&& r is Ok && n < steps.len() ==> steps[n] is Ok && steps[n]->Ok_0.ts.0 > target_ts
            &&& r is Err ==> n < steps.len() && steps[n] is Err && final(source)@.remaining
                == steps.skip(n + 1)
        }),
{
    let from = old(source)@;
    old(source).law_counts_fit();
    lemma_due(from.remaining, target_ts);
    let k = due(from.remaining, target_ts);
    assert(final(applied)@.take(old(applied)@.len() as int) =~= old(applied)@);
    if k < from.remaining.len() {
        assert(from.remaining.skip(k as int).skip(1) =~= from.remaining.skip(k as int + 1));
    }
}

/// Replay to the end applies every event, in order, and counts them all; only a fault of the log
/// keeps it from the end.
pub proof fn law_replay_reaches_end(
    source: &mut ReplaySource,
    applied: &mut Vec<CanonicalEvent>,
    r: ReplayResult<u64>,
    i: int,
)
    requires
        old(source).wf(),
        call_ensures(replay_to_end, (source, applied), r),
    ensures
        ({
            let steps = old(source)@.remaining;
            let kept = old(applied)@.len() as int;
            let n = final(applied)@.len() - kept;
            &&& 0 <= n <= steps.len()
            &&& final(applied)@.take(kept) == old(applied)@
            &&& 0 <= i < n ==> steps[i] is Ok && final(applied)@[kept + i] == steps[i]->Ok_0
            &&& r is Ok <==> n == steps.len()
            &&& r is Ok ==> r->Ok_0 == n && final(source)@.remaining.len() == 0
            &&& r is Err ==> steps[n] is Err
        }),
{
    let from = old(source)@;
    old(source).law_counts_fit();
    lemma_readable(from.remaining);
    assert(final(applied)@.take(old(applied)@.len() as int) =~= old(applied)@);
}

/// The name of a run's evidence carries its label; a smoke run, in capitals or not, makes no
/// claim, and a run without a label is named by its budgets.
pub proof fn law_name_of_the_evidence(
    label: &'static str,
    labelled: String,
    plain: String,
    timings: &Timings,
    verify: &VerifyReport,
    verdict: (&'static str, Option<String>),
)
    requires
        call_ensures(gate_name, (Some(label),), labelled),
        call_ensures(gate_name, (None,), plain),
        verify.mismatch is None,
        call_ensures(decide_verdict, (Some(label), timings, verify), verdict),
    ensures
        plain@ == "M2 seek gate — p95≤250ms cold/warm, bit-identity, ≥60× realtime"@,
        verdict.0@ == "SMOKE"@ ==> labelled@ == "M2 seek harness — SMOKE (not a gate claim)"@,
        verdict.0@ != "SMOKE"@ ==> labelled@ == "M2 seek gate — "@ + label@,
{
    reveal_strlit("PASS");
    reveal_strlit("FAIL");
    reveal_strlit("SMOKE");
    assert("SMOKE"@.len() != "PASS"@.len());
    assert("SMOKE"@.len() != "FAIL"@.len());
}

} // verus!
