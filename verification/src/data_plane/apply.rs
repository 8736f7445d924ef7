//! One replay to the end of a log, in one go and in chunks, and the comparison of the two.

use super::report::{ApplyResult, DiffTrial};
use super::sections::{difference, first_diff, StateSection};
use crate::event::CanonicalEvent;
use crate::num::least;
use crate::replay::probe::{lemma_followed, lemma_unasked, Probe};
use crate::replay::source::{
    elapsed, forwarded, law_after_after, leads_with, taken, timed, Cursor, ForwardProgress,
    ReplaySource,
};
use crate::sampling::total;
use crate::text::{concat2, decimal, push_decimal, text_of};
use vstd::prelude::*;

verus! {

/// How long one call may replay.
pub const APPLY_BUDGET_NS: u64 = 3_600_000_000_000;

/// The reader's failure as a message.
pub open spec fn fault_text(message: Seq<char>) -> Seq<char> {
    "fft-replay log error: "@ + message
}

/// Whether the first `k` steps are events and the one behind them is a fault.
pub open spec fn faults_at(from: Cursor, k: nat) -> bool {
    &&& leads_with(from.remaining, k)
    &&& k < from.remaining.len()
    &&& from.remaining[k as int] is Err
}

/// What a replay in one go reports after `k` events, and where the cursor then stands.
pub open spec fn oneshot_ends(
    from: Cursor,
    k: nat,
    r: Result<ForwardProgress, String>,
    at: Cursor,
) -> bool {
    &&& leads_with(from.remaining, k)
    &&& if faults_at(from, k) {
        &&& r is Err
        &&& r->Err_0@ == "apply_forward: "@ + fault_text(from.remaining[k as int]->Err_0)
        &&& at == from.after(k).past_fault()
    } else {
        &&& at == from.after(k)
        &&& if k == from.remaining.len() {
            r == Ok::<ForwardProgress, String>(
                ForwardProgress {
                    events: k as u64,
                    applied_seq: at.applied_seq,
                    applied_ts: at.applied_ts,
                    eof: true,
                },
            )
        } else {
            &&& r is Err
            &&& r->Err_0@ == "oneshot did not reach EOF after "@ + decimal(k)
                + " events (budget?)"@
        }
    }
}

/// Replays to the end in one go. Stopping short of it is an error.
pub fn apply_oneshot<C: Fn() -> u64>(
    source: &mut ReplaySource,
    clock: &mut Probe<u64, C>,
    applied: &mut Vec<CanonicalEvent>,
) -> (r: Result<ForwardProgress, String>)
    requires
        old(source).wf(),
        call_requires(old(clock).question(), ()),
    ensures
        final(source).wf(),
        final(source).log() == old(source).log(),
        final(clock).follows(*old(clock)),
        exists|k: nat|
            {
                &&& #[trigger] oneshot_ends(old(source)@, k, r, final(source)@)
                &&& final(applied)@ == old(applied)@ + taken(old(source)@.remaining, k)
                &&& timed(
                    old(source)@,
                    k,
                    usize::MAX,
                    APPLY_BUDGET_NS,
                    final(clock).since(*old(clock)),
                )
            },
{
    let ghost from = source@;
    let ghost kept = applied@;
    let ghost before = *clock;
    let outcome = source.apply_forward(usize::MAX, APPLY_BUDGET_NS, clock, applied);
    let ghost k = choose|k: nat|
        {
            &&& #[trigger] forwarded(from, k, outcome, source@)
            &&& applied@ == kept + taken(from.remaining, k)
            &&& timed(from, k, usize::MAX, APPLY_BUDGET_NS, clock.since(before))
        };
    let r: Result<ForwardProgress, String> = match outcome {
        Err(error) => Err(concat2("apply_forward: ", error.to_string().as_str())),
        Ok(progress) => {
            if !progress.eof {
                let mut text: String = "oneshot did not reach EOF after ".to_owned();
                push_decimal(&mut text, progress.events);
                text.append(" events (budget?)");
                Err(text)
            } else {
                Ok(progress)
            }
        },
    };
    assert(oneshot_ends(from, k, r, source@));
    r
}

/// The most events that the call `i` may apply: as many as its chunk has, and any number behind
/// the last chunk.
pub open spec fn limit(sizes: Seq<usize>, i: int) -> usize {
    if i < sizes.len() {
        sizes[i]
    } else {
        usize::MAX
    }
}

/// Whether the clock was read as it is by calls of `apply_forward` that applied that many events
/// each, one behind the other.
pub open spec fn paced(
    from: Cursor,
    sizes: Seq<usize>,
    counts: Seq<usize>,
    readings: Seq<(Cursor, u64)>,
) -> bool
    decreases counts.len(),
{
    if counts.len() == 0 {
        readings.len() == 0
    } else {
        let cut = readings.len() - (counts.last() + 2);
        &&& 0 <= cut
        &&& paced(from, sizes, counts.drop_last(), readings.take(cut))
        &&& timed(
            from.after(total(counts.drop_last()) as nat),
            counts.last() as nat,
            limit(sizes, counts.len() - 1),
            APPLY_BUDGET_NS,
            readings.skip(cut),
        )
    }
}

/// What a replay in chunks reports, and where the cursor then stands, when its calls applied
/// that many events each: every call but the last applied some, and left some.
pub open spec fn chunked_ends(
    from: Cursor,
    sizes: Seq<usize>,
    counts: Seq<usize>,
    r: Result<u64, String>,
    at: Cursor,
) -> bool {
    let k = total(counts) as nat;
    let last = counts.len() - 1;
    &&& 0 <= last <= sizes.len()
    &&& leads_with(from.remaining, k)
    &&& forall|j: int| 0 <= j < last ==> #[trigger] counts[j] > 0
    &&& last > 0 ==> leads_with(from.remaining, (total(counts.drop_last()) + 1) as nat)
    &&& if faults_at(from, k) {
        &&& at == from.after(k).past_fault()
        &&& r is Err
        &&& r->Err_0@ == (if last < sizes.len() {
            "chunk apply: "@
        } else {
            "tail drain: "@
        }) + fault_text(from.remaining[k as int]->Err_0)
    } else {
        &&& at == from.after(k)
        &&& if k == from.remaining.len() {
            r == Ok::<u64, String>(k as u64)
        } else if last < sizes.len() {
            counts[last] == 0 && r is Err && r->Err_0@ == "chunk made no progress"@
        } else {
            r is Err && r->Err_0@ == "chunked did not reach EOF after "@ + decimal(k) + " events"@
        }
    }
}

/// One call of `apply_forward` from `k` events on: `more` further events.
proof fn lemma_forwarded(
    from: Cursor,
    k: nat,
    more: nat,
    r: crate::replay::error::Result<ForwardProgress>,
    at: Cursor,
)
    requires
        leads_with(from.remaining, k),
        forwarded(from.after(k), more, r, at),
    ensures
        leads_with(from.remaining, k + more),
        taken(from.remaining, k) + taken(from.after(k).remaining, more) == taken(
            from.remaining,
            k + more,
        ),
        from.after(k).after(more) == from.after(k + more),
        r is Err <==> faults_at(from, k + more),
        r is Err ==> r->Err_0.text() == fault_text(from.remaining[(k + more) as int]->Err_0) && at
            == from.after(k + more).past_fault(),
        r is Ok ==> at == from.after(k + more) && r->Ok_0.eof == (k + more
            == from.remaining.len()) && r->Ok_0.events == more as u64,
{
    let rest = from.after(k).remaining;
    assert forall|i: int| 0 <= i < k + more implies (#[trigger] from.remaining[i]) is Ok by {
        if i >= k {
            assert(rest[i - k] is Ok);
        }
    }
    assert(taken(from.remaining, k) + taken(rest, more) =~= taken(from.remaining, k + more));
    law_after_after(from, k, more);
    if more < rest.len() {
        assert(rest[more as int] == from.remaining[(k + more) as int]);
    }
}

/// One more call behind others.
proof fn lemma_paced(
    from: Cursor,
    sizes: Seq<usize>,
    counts: Seq<usize>,
    readings: Seq<(Cursor, u64)>,
    count: usize,
    further: Seq<(Cursor, u64)>,
)
    requires
        paced(from, sizes, counts, readings),
        timed(
            from.after(total(counts) as nat),
            count as nat,
            limit(sizes, counts.len() as int),
            APPLY_BUDGET_NS,
            further,
        ),
    ensures
        paced(from, sizes, counts.push(count), readings + further),
        total(counts.push(count)) == total(counts) + count,
{
    let counted = counts.push(count);
    let cut = (readings + further).len() - (count + 2);
    assert(counted.drop_last() =~= counts);
    assert((readings + further).take(cut) =~= readings);
    assert((readings + further).skip(cut) =~= further);
}

/// Replays to the end in chunks of the given sizes, then whatever they left over.
pub fn apply_chunked<C: Fn() -> u64>(
    source: &mut ReplaySource,
    sizes: &Vec<usize>,
    clock: &mut Probe<u64, C>,
    applied: &mut Vec<CanonicalEvent>,
) -> (r: Result<u64, String>)
    requires
        old(source).wf(),
        call_requires(old(clock).question(), ()),
    ensures
        final(source).wf(),
        final(source).log() == old(source).log(),
        final(clock).follows(*old(clock)),
        exists|counts: Seq<usize>|
            {
                &&& #[trigger] chunked_ends(old(source)@, sizes@, counts, r, final(source)@)
                &&& final(applied)@ == old(applied)@ + taken(
                    old(source)@.remaining,
                    total(counts) as nat,
                )
                &&& paced(old(source)@, sizes@, counts, final(clock).since(*old(clock)))
            },
{
    let ghost from = source@;
    let ghost kept = applied@;
    let ghost first = *clock;
    let ghost mut counts: Seq<usize> = Seq::empty();
    proof {
        source.law_counts_fit();
        lemma_unasked(first);
        assert(from.remaining.skip(0) =~= from.remaining);
        assert(from.after(0) =~= from);
        assert(taken(from.remaining, 0) =~= Seq::<CanonicalEvent>::empty());
    }
    let mut events: u64 = 0;
    let mut i: usize = 0;
    while i < sizes.len()
        invariant
            i <= sizes.len(),
            source.wf(),
            source.log() == old(source).log(),
            from == old(source)@,
            kept == old(applied)@,
            first == *old(clock),
            call_requires(first.question(), ()),
            clock.follows(first),
            from.remaining.len() <= u64::MAX,
            counts.len() == i,
            total(counts) == events,
            paced(from, sizes@, counts, clock.since(first)),
            leads_with(from.remaining, events as nat),
            source@ == from.after(events as nat),
            applied@ == kept + taken(from.remaining, events as nat),
            i > 0 ==> leads_with(from.remaining, events as nat + 1),
            forall|j: int| 0 <= j < i ==> #[trigger] counts[j] > 0,
        decreases sizes.len() - i,
    {
        let ghost done = events as nat;
        let ghost before = *clock;
        let ghost counted = counts;
        let max: usize = sizes[i];
        let outcome = source.apply_forward(max, APPLY_BUDGET_NS, clock, applied);
        let ghost more = choose|more: nat|
            {
                &&& #[trigger] forwarded(from.after(done), more, outcome, source@)
                &&& applied@ == kept + taken(from.remaining, done) + taken(
                    from.after(done).remaining,
                    more,
                )
                &&& timed(from.after(done), more, max, APPLY_BUDGET_NS, clock.since(before))
            };
        proof {
            lemma_forwarded(from, done, more, outcome, source@);
            assert(kept + taken(from.remaining, done) + taken(from.after(done).remaining, more)
                =~= kept + taken(from.remaining, done + more));
            lemma_followed(first, before, *clock);
            lemma_paced(
                from,
                sizes@,
                counted,
                before.since(first),
                more as usize,
                clock.since(before),
            );
            counts = counted.push(more as usize);
            assert(counts.drop_last() =~= counted);
        }
        match outcome {
            Err(error) => {
                let r: Result<u64, String> = Err(
                    concat2("chunk apply: ", error.to_string().as_str()),
                );
                assert(chunked_ends(from, sizes@, counts, r, source@));
                return r;
            },
            Ok(progress) => {
                events += progress.events;
                if progress.eof {
                    let r: Result<u64, String> = Ok(events);
                    assert(chunked_ends(from, sizes@, counts, r, source@));
                    return r;
                }
                if progress.events == 0 {
                    let r: Result<u64, String> = Err("chunk made no progress".to_owned());
                    assert(chunked_ends(from, sizes@, counts, r, source@));
                    return r;
                }
            },
        }
        i += 1;
    }
    let ghost done = events as nat;
    let ghost before = *clock;
    let ghost counted = counts;
    let outcome = source.apply_forward(usize::MAX, APPLY_BUDGET_NS, clock, applied);
    let ghost more = choose|more: nat|
        {
            &&& #[trigger] forwarded(from.after(done), more, outcome, source@)
            &&& applied@ == kept + taken(from.remaining, done) + taken(
                from.after(done).remaining,
                more,
            )
            &&& timed(from.after(done), more, usize::MAX, APPLY_BUDGET_NS, clock.since(before))
        };
    proof {
        lemma_forwarded(from, done, more, outcome, source@);
        assert(kept + taken(from.remaining, done) + taken(from.after(done).remaining, more)
            =~= kept + taken(from.remaining, done + more));
        lemma_followed(first, before, *clock);
        lemma_paced(
            from,
            sizes@,
            counted,
            before.since(first),
            more as usize,
            clock.since(before),
        );
        counts = counted.push(more as usize);
        assert(counts.drop_last() =~= counted);
    }
    let r: Result<u64, String> = match outcome {
        Err(error) => Err(concat2("tail drain: ", error.to_string().as_str())),
        Ok(progress) => {
            events += progress.events;
            if progress.eof {
                Ok(events)
            } else {
                let mut text: String = "chunked did not reach EOF after ".to_owned();
                push_decimal(&mut text, events);
                text.append(" events");
                Err(text)
            }
        },
    };
    assert(chunked_ends(from, sizes@, counts, r, source@));
    r
}

/// Whether the clock never showed the budget as spent.
pub open spec fn in_time(readings: Seq<(Cursor, u64)>) -> bool {
    forall|i: int, j: int|
        0 <= i < j < readings.len() ==> elapsed(
            (#[trigger] readings[i]).1,
            (#[trigger] readings[j]).1,
        ) < APPLY_BUDGET_NS
}

/// A call in time applies its whole chunk where the log has that many events ahead.
proof fn lemma_in_time(
    from: Cursor,
    sizes: Seq<usize>,
    counts: Seq<usize>,
    readings: Seq<(Cursor, u64)>,
    j: int,
)
    requires
        paced(from, sizes, counts, readings),
        in_time(readings),
        0 <= j < counts.len(),
    ensures
        counts[j] <= limit(sizes, j),
        leads_with(from.remaining, (total(counts.take(j + 1)) + 1) as nat) ==> counts[j] == limit(
            sizes,
            j,
        ),
    decreases counts.len(),
{
    let cut = readings.len() - (counts.last() + 2);
    let before = counts.drop_last();
    if j < before.len() {
        assert forall|a: int, b: int| 0 <= a < b < cut implies elapsed(
            (#[trigger] readings.take(cut)[a]).1,
            (#[trigger] readings.take(cut)[b]).1,
        ) < APPLY_BUDGET_NS by {
            assert(readings[a] == readings.take(cut)[a]);
            assert(readings[b] == readings.take(cut)[b]);
        }
        lemma_in_time(from, sizes, before, readings.take(cut), j);
        assert(before.take(j + 1) =~= counts.take(j + 1));
    } else {
        let done = total(before) as nat;
        let c = counts.last();
        let here = readings.skip(cut);
        lemma_total_nonnegative(before);
        assert(counts.take(j + 1) =~= counts);
        assert(elapsed(readings[cut].1, readings[cut + c + 1].1) < APPLY_BUDGET_NS);
        assert(here[0] == readings[cut] && here[c + 1] == readings[cut + c + 1]);
        if leads_with(from.remaining, (total(counts) + 1) as nat) {
            assert(from.remaining[(done + c) as int] is Ok);
            assert(from.after(done).remaining[c as int] == from.remaining[(done + c) as int]);
        }
    }
}

/// An empty chunk with events ahead of it, behind chunks that are not empty, ends a replay in
/// time: nothing comes of it.
pub proof fn law_empty_chunk_stalls(
    from: Cursor,
    sizes: Seq<usize>,
    counts: Seq<usize>,
    readings: Seq<(Cursor, u64)>,
    r: Result<u64, String>,
    at: Cursor,
    z: int,
)
    requires
        paced(from, sizes, counts, readings),
        in_time(readings),
        chunked_ends(from, sizes, counts, r, at),
        0 <= z < sizes.len(),
        sizes[z] == 0,
        forall|j: int| 0 <= j < z ==> #[trigger] sizes[j] > 0,
        leads_with(from.remaining, (total(sizes.take(z)) + 1) as nat),
    ensures
        total(counts) == total(sizes.take(z)),
        r is Err,
        r->Err_0@ == "chunk made no progress"@,
{
    let last = counts.len() - 1;
    lemma_whole_chunks(from, sizes, counts, readings, r, at, z, least(z, last + 1));
    if last < z {
        assert(counts.take(last + 1) =~= counts);
        lemma_total_prefix(sizes.take(z), last + 1);
        assert(sizes.take(z).take(last + 1) =~= sizes.take(last + 1));
        assert(counts[last] == sizes.take(last + 1)[last]);
        assert(sizes[last] > 0);
        assert(leads_with(from.remaining, (total(counts) + 1) as nat));
        assert(from.remaining[total(counts)] is Ok);
    }
    lemma_in_time(from, sizes, counts, readings, z);
    assert(counts[z] == 0);
    assert(last == z);
    assert(counts.drop_last() =~= counts.take(z));
    lemma_total_nonnegative(counts);
    assert(from.remaining[total(counts)] is Ok);
}

/// In time, the calls before an empty chunk apply their chunks whole.
proof fn lemma_whole_chunks(
    from: Cursor,
    sizes: Seq<usize>,
    counts: Seq<usize>,
    readings: Seq<(Cursor, u64)>,
    r: Result<u64, String>,
    at: Cursor,
    z: int,
    n: int,
)
    requires
        paced(from, sizes, counts, readings),
        in_time(readings),
        chunked_ends(from, sizes, counts, r, at),
        0 <= z < sizes.len(),
        leads_with(from.remaining, (total(sizes.take(z)) + 1) as nat),
        0 <= n <= z,
        n <= counts.len(),
    ensures
        counts.take(n) == sizes.take(n),
    decreases n,
{
    if n > 0 {
        let j = n - 1;
        lemma_whole_chunks(from, sizes, counts, readings, r, at, z, j);
        lemma_in_time(from, sizes, counts, readings, j);
        assert(counts.take(n).drop_last() =~= counts.take(j));
        assert(sizes.take(n).drop_last() =~= sizes.take(j));
        lemma_total_prefix(sizes.take(z), n);
        assert(sizes.take(z).take(n) =~= sizes.take(n));
        lemma_total_nonnegative(counts.take(n));
        assert(total(counts.take(n)) <= total(sizes.take(n)));
        assert(leads_with(from.remaining, (total(counts.take(n)) + 1) as nat));
        assert(counts.take(n) =~= counts.take(j).push(counts[j]));
        assert(sizes.take(n) =~= sizes.take(j).push(sizes[j]));
    } else {
        assert(counts.take(0) =~= sizes.take(0));
    }
}

proof fn lemma_total_prefix(sizes: Seq<usize>, n: int)
    requires
        0 <= n <= sizes.len(),
    ensures
        0 <= total(sizes.take(n)) <= total(sizes),
    decreases sizes.len() - n,
{
    if n == sizes.len() {
        assert(sizes.take(n) =~= sizes);
        lemma_total_nonnegative(sizes);
    } else {
        lemma_total_prefix(sizes, n + 1);
        assert(sizes.take(n + 1).drop_last() =~= sizes.take(n));
        lemma_total_nonnegative(sizes.take(n));
    }
}

proof fn lemma_total_nonnegative(sizes: Seq<usize>)
    ensures
        total(sizes) >= 0,
    decreases sizes.len(),
{
    if sizes.len() > 0 {
        lemma_total_nonnegative(sizes.drop_last());
    }
}

/// Why a replay in chunks differs from the replay in one go; nothing where it does not.
pub open spec fn mismatch(run: ApplyResult, oneshot: ApplyResult) -> Option<Seq<char>> {
    if run.events != oneshot.events {
        Some(
            "event count "@ + decimal(run.events as nat) + " != oneshot "@ + decimal(
                oneshot.events as nat,
            ),
        )
    } else {
        match difference(run.sections, oneshot.sections) {
            Some(section) => Some(mismatch_text(section)),
            None => if run.applied_seq != oneshot.applied_seq || run.applied_ts
                != oneshot.applied_ts {
                Some(
                    "cursor mismatch seq/ts "@ + decimal(run.applied_seq as nat) + "/"@ + decimal(
                        run.applied_ts as nat,
                    ) + " vs "@ + decimal(oneshot.applied_seq as nat) + "/"@ + decimal(
                        oneshot.applied_ts as nat,
                    ),
                )
            } else {
                None
            },
        }
    }
}

/// The message on a section that differs.
pub open spec fn mismatch_text(section: StateSection) -> Seq<char> {
    match section {
        StateSection::Book => "serialize_book mismatch"@,
        StateSection::Flow => "serialize_flow mismatch"@,
        StateSection::Refresh => "serialize_refresh mismatch"@,
        StateSection::Profile => "profile section mismatch"@,
        StateSection::Cvd => "cvd section mismatch"@,
        StateSection::Session => "session section mismatch"@,
    }
}

fn mismatch_of(section: StateSection) -> (r: &'static str)
    ensures
        r@ == mismatch_text(section),
{
    match section {
        StateSection::Book => "serialize_book mismatch",
        StateSection::Flow => "serialize_flow mismatch",
        StateSection::Refresh => "serialize_refresh mismatch",
        StateSection::Profile => "profile section mismatch",
        StateSection::Cvd => "cvd section mismatch",
        StateSection::Session => "session section mismatch",
    }
}

/// Why a replay in chunks differs from the replay in one go.
pub fn fail_reason(run: &ApplyResult, oneshot: &ApplyResult) -> (r: Option<String>)
    ensures
        crate::text::text_of(r) == mismatch(*run, *oneshot),
{
    if run.events != oneshot.events {
        let mut text: String = "event count ".to_owned();
        push_decimal(&mut text, run.events);
        text.append(" != oneshot ");
        push_decimal(&mut text, oneshot.events);
        return Some(text);
    }
    match first_diff(&run.sections, &oneshot.sections) {
        Some(section) => Some(mismatch_of(section).to_owned()),
        None => {
            if run.applied_seq != oneshot.applied_seq || run.applied_ts != oneshot.applied_ts {
                let mut text: String = "cursor mismatch seq/ts ".to_owned();
                push_decimal(&mut text, run.applied_seq);
                text.append("/");
                push_decimal(&mut text, run.applied_ts);
                text.append(" vs ");
                push_decimal(&mut text, oneshot.applied_seq);
                text.append("/");
                push_decimal(&mut text, oneshot.applied_ts);
                Some(text)
            } else {
                None
            }
        },
    }
}

/// The trial that a replay in chunks makes: what it reached, or why it did not reach the end. A
/// replay that failed took no time.
pub fn trial_of(
    trial: usize,
    chunk_sizes: Vec<usize>,
    run: Result<ApplyResult, String>,
    oneshot: &ApplyResult,
) -> (r: DiffTrial)
    ensures
        r.trial == trial,
        r.n_chunks == chunk_sizes.len(),
        r.chunk_sizes == chunk_sizes,
        r.match_oneshot == (r.fail_reason is None),
        match run {
            Ok(reached) => crate::text::text_of(r.fail_reason) == mismatch(reached, *oneshot)
                && r.seconds@ == reached.seconds@,
            Err(text) => crate::text::text_of(r.fail_reason) == Some(text@) && r.seconds@
                == "0.000000000"@,
        },
{
    let n_chunks: usize = chunk_sizes.len();
    match run {
        Ok(reached) => {
            let reason: Option<String> = fail_reason(&reached, oneshot);
            DiffTrial {
                trial,
                n_chunks,
                chunk_sizes,
                match_oneshot: reason.is_none(),
                seconds: reached.seconds,
                fail_reason: reason,
            }
        },
        Err(text) => DiffTrial {
            trial,
            n_chunks,
            chunk_sizes,
            match_oneshot: false,
            seconds: "0.000000000".to_owned(),
            fail_reason: Some(text),
        },
    }
}

/// A replay in chunks agrees with the replay in one go exactly where both applied as many events,
/// stand at the same sequence and time, and hold the same bytes in every section; a trial says so,
/// and one that did not reach the end never agrees.
pub proof fn law_trial_agrees(
    run: &ApplyResult,
    oneshot: &ApplyResult,
    r: Option<String>,
    trial: usize,
    sizes: Vec<usize>,
    tried: Result<ApplyResult, String>,
    t: DiffTrial,
)
    requires
        call_ensures(fail_reason, (run, oneshot), r),
        call_ensures(trial_of, (trial, sizes, tried, oneshot), t),
        tried is Ok ==> tried->Ok_0 == *run,
    ensures
        r is None <==> {
            &&& run.events == oneshot.events
            &&& run.applied_seq == oneshot.applied_seq
            &&& run.applied_ts == oneshot.applied_ts
            &&& run.sections.book@ == oneshot.sections.book@
            &&& run.sections.flow@ == oneshot.sections.flow@
            &&& run.sections.refresh@ == oneshot.sections.refresh@
            &&& run.sections.profile@ == oneshot.sections.profile@
            &&& run.sections.cvd@ == oneshot.sections.cvd@
            &&& run.sections.session@ == oneshot.sections.session@
        },
        t.trial == trial && t.chunk_sizes == sizes && t.n_chunks == sizes.len(),
        tried is Ok ==> (t.match_oneshot <==> r is None) && t.seconds@ == run.seconds@,
        tried is Err ==> !t.match_oneshot && t.fail_reason is Some && t.fail_reason->0@
            == tried->Err_0@,
{
}

/// In time, a replay in one go ends only at the end of the log, at a fault, or when it cannot count
/// any further; it has then applied every event before that.
pub proof fn law_oneshot_in_time(
    from: Cursor,
    k: nat,
    r: Result<ForwardProgress, String>,
    at: Cursor,
    readings: Seq<(Cursor, u64)>,
)
    requires
        oneshot_ends(from, k, r, at),
        timed(from, k, usize::MAX, APPLY_BUDGET_NS, readings),
        elapsed(readings[0].1, readings[k as int + 1].1) < 3_600 * 1_000_000_000,
        from.remaining.len() < usize::MAX,
    ensures
        r is Ok <==> k == from.remaining.len(),
        k < from.remaining.len() ==> from.remaining[k as int] is Err,
        r is Ok ==> r->Ok_0.eof && r->Ok_0.events == k as u64 && at.remaining.len() == 0,
{
}

/// A replay in chunks that gets to the end has applied every event of the log, in order, and
/// counts them; one whose clock never runs out, with no empty chunk and no fault in the log, gets
/// there.
pub proof fn law_chunks_reach_the_end<C: Fn() -> u64>(
    source: &mut ReplaySource,
    sizes: &Vec<usize>,
    clock: &mut Probe<u64, C>,
    applied: &mut Vec<CanonicalEvent>,
    r: Result<u64, String>,
    i: int,
)
    requires
        old(source).wf(),
        call_ensures(apply_chunked::<C>, (source, sizes, clock, applied), r),
    ensures
        ({
            let steps = old(source)@.remaining;
            let kept = old(applied)@.len() as int;
            let n = final(applied)@.len() - kept;
            &&& 0 <= n <= steps.len()
            &&& final(applied)@.take(kept) == old(applied)@
            &&& 0 <= i < n ==> steps[i] is Ok && final(applied)@[kept + i] == steps[i]->Ok_0
            &&& r is Ok <==> n == steps.len()
            &&& r is Ok ==> r->Ok_0 == n && final(source)@.remaining.len() == 0
                && final(source)@.ordinal == old(source)@.ordinal + n
            &&& in_time(final(clock).since(*old(clock))) && steps.len() < usize::MAX && (forall|j: int|
                0 <= j < steps.len() ==> (#[trigger] steps[j]) is Ok) && (forall|j: int|
                0 <= j < sizes.len() ==> #[trigger] sizes@[j] > 0) ==> r is Ok
        }),
{
    let from = old(source)@;
    let steps = from.remaining;
    let readings = final(clock).since(*old(clock));
    old(source).law_counts_fit();
    let counts = choose|counts: Seq<usize>|
        {
            &&& #[trigger] chunked_ends(from, sizes@, counts, r, final(source)@)
            &&& final(applied)@ == old(applied)@ + taken(steps, total(counts) as nat)
            &&& paced(from, sizes@, counts, readings)
        };
    let last = counts.len() - 1;
    let k = total(counts) as nat;
    lemma_total_nonnegative(counts);
    assert(final(applied)@.take(old(applied)@.len() as int) =~= old(applied)@);
    if in_time(readings) && steps.len() < usize::MAX && (forall|j: int|
        0 <= j < steps.len() ==> (#[trigger] steps[j]) is Ok) && (forall|j: int|
        0 <= j < sizes.len() ==> #[trigger] sizes@[j] > 0) && k < steps.len() {
        lemma_in_time(from, sizes@, counts, readings, last);
        assert(counts.take(last + 1) =~= counts);
        assert(leads_with(steps, k + 1));
        lemma_total_nonnegative(counts.drop_last());
        assert(total(counts) == total(counts.drop_last()) + counts.last());
        if last < sizes.len() {
            assert(sizes@[last] > 0);
        }
    }
}

/// A replay in one go that succeeds has applied every event of the log, in order.
pub proof fn law_oneshot_reaches_the_end<C: Fn() -> u64>(
    source: &mut ReplaySource,
    clock: &mut Probe<u64, C>,
    applied: &mut Vec<CanonicalEvent>,
    r: Result<ForwardProgress, String>,
    i: int,
)
    requires
        old(source).wf(),
        call_ensures(apply_oneshot::<C>, (source, clock, applied), r),
    ensures
        ({
            let steps = old(source)@.remaining;
            let kept = old(applied)@.len() as int;
            let n = final(applied)@.len() - kept;
            &&& 0 <= n <= steps.len()
            &&& final(applied)@.take(kept) == old(applied)@
            &&& 0 <= i < n ==> steps[i] is Ok && final(applied)@[kept + i] == steps[i]->Ok_0
            &&& r is Ok <==> n == steps.len()
            &&& r is Ok ==> r->Ok_0.events == n && r->Ok_0.eof && final(source)@.remaining.len() == 0
            &&& r is Ok && n > 0 ==> r->Ok_0.applied_ts == steps[n - 1]->Ok_0.ts.0
        }),
{
    let from = old(source)@;
    let steps = from.remaining;
    old(source).law_counts_fit();
    let k = choose|k: nat|
        {
            &&& #[trigger] oneshot_ends(from, k, r, final(source)@)
            &&& final(applied)@ == old(applied)@ + taken(steps, k)
        };
    assert(final(applied)@.take(old(applied)@.len() as int) =~= old(applied)@);
}

/// The first difference of a trial is reported, with its own number before that of the replay in
/// one go.
pub proof fn law_difference_reported(run: &ApplyResult, oneshot: &ApplyResult, r: Option<String>)
    requires
        call_ensures(fail_reason, (run, oneshot), r),
    ensures
        run.events != oneshot.events ==> text_of(r) == Some(
            "event count "@ + decimal(run.events as nat) + " != oneshot "@ + decimal(
                oneshot.events as nat,
            ),
        ),
        ({
            let a = run.sections;
            let b = oneshot.sections;
            let same = run.events == oneshot.events;
            let seq_ts = "cursor mismatch seq/ts "@ + decimal(run.applied_seq as nat) + "/"@ + decimal(
                run.applied_ts as nat,
            ) + " vs "@ + decimal(oneshot.applied_seq as nat) + "/"@ + decimal(
                oneshot.applied_ts as nat,
            );
            let book = a.book@ == b.book@;
            let flow = a.flow@ == b.flow@;
            let refresh = a.refresh@ == b.refresh@;
            let profile = a.profile@ == b.profile@;
            let cvd = a.cvd@ == b.cvd@;
            let session = a.session@ == b.session@;
            &&& same && !book && flow && refresh && profile && cvd && session ==> text_of(r) == Some(
                "serialize_book mismatch"@,
            )
            &&& same && book && !flow && refresh && profile && cvd && session ==> text_of(r) == Some(
                "serialize_flow mismatch"@,
            )
            &&& same && book && flow && !refresh && profile && cvd && session ==> text_of(r) == Some(
                "serialize_refresh mismatch"@,
            )
            &&& same && book && flow && refresh && !profile && cvd && session ==> text_of(r) == Some(
                "profile section mismatch"@,
            )
            &&& same && book && flow && refresh && profile && !cvd && session ==> text_of(r) == Some(
                "cvd section mismatch"@,
            )
            &&& same && book && flow && refresh && profile && cvd && !session ==> text_of(r) == Some(
                "session section mismatch"@,
            )
            &&& same && book && flow && refresh && profile && cvd && session && (run.applied_seq
                != oneshot.applied_seq || run.applied_ts != oneshot.applied_ts) ==> text_of(r)
                == Some(seq_ts)
        }),
{
}

} // verus!
