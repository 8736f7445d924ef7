//! Copy of a log's events with one Gap put in.

use super::error::{ReplayError, Result};
use super::frames::{steps_from, FrameLog, Step};
use super::source::{
    countable, due, is_log_error, leads_with, lemma_due, lemma_due_is, taken, ReplaySource,
};
use crate::event::{gap_event, CanonicalEvent, Ts};
use vstd::prelude::*;

verus! {

/// How many events are handed to the writer at a time.
pub const BATCH_EVENTS: usize = 4_096;

/// What a splice writes, in the batches that it writes it in.
#[derive(Debug)]
pub struct Splice {
    pub batches: Vec<Vec<CanonicalEvent>>,
    pub output_events: u64,
    pub gap_ts: u64,
}

/// The batches, one after the other.
pub open spec fn flat(batches: Seq<Vec<CanonicalEvent>>) -> Seq<CanonicalEvent>
    decreases batches.len(),
{
    if batches.len() == 0 {
        Seq::empty()
    } else {
        flat(batches.drop_last()) + batches.last()@
    }
}

/// Whether a step is a failure, or an event earlier than the one before it.
pub open spec fn out_of_order(steps: Seq<Step>, i: int) -> bool {
    steps[i] is Err || (i > 0 && steps[i]->Ok_0.ts.0 < steps[i - 1]->Ok_0.ts.0)
}

/// Whether the first `k` steps are events whose timestamps never go back.
pub open spec fn orderly(steps: Seq<Step>, k: nat) -> bool {
    k <= steps.len() && forall|i: int| 0 <= i < k ==> !#[trigger] out_of_order(steps, i)
}

/// Whether an event can follow the Gap.
pub open spec fn can_follow(event: CanonicalEvent, inject_after_ts: u64, copy_through_ts: u64) -> bool {
    inject_after_ts < event.ts.0 <= copy_through_ts
}

/// The first step whose event can follow the Gap.
pub open spec fn anchor(
    steps: Seq<Step>,
    inject_after_ts: u64,
    copy_through_ts: u64,
) -> Option<int>
    decreases steps.len(),
{
    if steps.len() == 0 {
        None
    } else if anchor(steps.drop_last(), inject_after_ts, copy_through_ts) is Some {
        anchor(steps.drop_last(), inject_after_ts, copy_through_ts)
    } else if can_follow(steps.last()->Ok_0, inject_after_ts, copy_through_ts) {
        Some(steps.len() - 1)
    } else {
        None
    }
}

/// Whether the anchor search over a log ends with `r`: the first failure or step back in its
/// events, no anchor, or the anchor's timestamp.
pub open spec fn anchor_result(
    log: FrameLog,
    inject_after_ts: u64,
    copy_through_ts: u64,
    r: Result<u64>,
) -> bool {
    let steps = steps_from(log.frames@, 0);
    if log.warnings.len() > 0 {
        r matches Err(ReplayError::SpliceOpenWarnings(warnings)) && same_texts(
            warnings@,
            log.warnings@,
        )
    } else if !orderly(steps, steps.len()) {
        exists|i: nat|
            i < steps.len() && #[trigger] orderly(steps, i) && out_of_order(steps, i as int) && (
            match steps[i as int] {
                Err(message) => is_log_error(r, message),
                Ok(event) => r == Err::<u64, ReplayError>(
                    ReplayError::NonMonotonicSpliceInput {
                        event_index: i as u64,
                        previous_ts: steps[i - 1]->Ok_0.ts.0,
                        observed_ts: event.ts.0,
                    },
                ),
            })
    } else {
        match anchor(steps, inject_after_ts, copy_through_ts) {
            None => r == Err::<u64, ReplayError>(
                ReplayError::SpliceAnchorNotFound { inject_after_ts, copy_through_ts },
            ),
            Some(i) => r == Ok::<u64, ReplayError>(steps[i]->Ok_0.ts.0),
        }
    }
}

/// Whether two lists of texts say the same.
pub open spec fn same_texts(a: Seq<String>, b: Seq<String>) -> bool {
    a.len() == b.len() && forall|i: int| 0 <= i < a.len() ==> (#[trigger] a[i])@ == b[i]@
}

fn copy_texts(texts: &Vec<String>) -> (r: Vec<String>)
    ensures
        same_texts(r@, texts@),
{
    let mut out: Vec<String> = Vec::new();
    let mut i: usize = 0;
    while i < texts.len()
        invariant
            i <= texts.len(),
            out.len() == i,
            forall|j: int| 0 <= j < i ==> (#[trigger] out@[j])@ == texts@[j]@,
        decreases texts.len() - i,
    {
        out.push(texts[i].clone());
        i += 1;
    }
    out
}

/// The events with the Gap before the first that is later than `inject_after_ts`; unchanged
/// where there is none.
pub open spec fn spliced(
    events: Seq<CanonicalEvent>,
    inject_after_ts: u64,
    gap: CanonicalEvent,
) -> Seq<CanonicalEvent>
    decreases events.len(),
{
    if events.len() == 0 {
        events
    } else if events[0].ts.0 > inject_after_ts {
        seq![gap] + events
    } else {
        seq![events[0]] + spliced(events.skip(1), inject_after_ts, gap)
    }
}

/// Whether the Gap's sequences describe a step forward that an event can carry.
pub open spec fn is_forward(expected: u64, observed: u64) -> bool {
    observed > expected && expected <= i64::MAX
}

/// Whether a Gap can be made of the two sequences.
pub fn steps_forward(expected: u64, observed: u64) -> (r: bool)
    ensures
        r == is_forward(expected, observed),
{
    observed > expected && expected <= i64::MAX as u64
}

/// Whether the copy of a log ends with `r`: the failure that the copied range runs into, or
/// the batches of its events with the Gap put in.
pub open spec fn copy_result(
    log: FrameLog,
    inject_after_ts: u64,
    copy_through_ts: u64,
    gap: CanonicalEvent,
    r: Result<Splice>,
) -> bool {
    let steps = steps_from(log.frames@, 0);
    let n = due(steps, copy_through_ts);
    if log.warnings.len() > 0 {
        r matches Err(ReplayError::SpliceOpenWarnings(warnings)) && same_texts(
            warnings@,
            log.warnings@,
        )
    } else if n < steps.len() && steps[n as int] is Err {
        is_log_error(r, steps[n as int]->Err_0)
    } else {
        &&& r is Ok
        &&& flat(r->Ok_0.batches@) == spliced(taken(steps, n), inject_after_ts, gap)
        &&& well_batched(r->Ok_0.batches@)
        &&& r->Ok_0.output_events == spliced(taken(steps, n), inject_after_ts, gap).len()
        &&& r->Ok_0.gap_ts == gap.ts.0
    }
}

/// Whether no batch is empty, and every one but the last is full.
pub open spec fn well_batched(batches: Seq<Vec<CanonicalEvent>>) -> bool {
    forall|i: int|
        0 <= i < batches.len() ==> 0 < (#[trigger] batches[i]).len() <= BATCH_EVENTS + 1 && (i
            < batches.len() - 1 ==> batches[i].len() >= BATCH_EVENTS)
}

proof fn lemma_anchor_step(steps: Seq<Step>, k: int, inject_after_ts: u64, copy_through_ts: u64)
    requires
        0 <= k < steps.len(),
    ensures
        anchor(steps.take(k + 1), inject_after_ts, copy_through_ts) == if anchor(
            steps.take(k),
            inject_after_ts,
            copy_through_ts,
        ) is Some {
            anchor(steps.take(k), inject_after_ts, copy_through_ts)
        } else if can_follow(steps[k]->Ok_0, inject_after_ts, copy_through_ts) {
            Some(k)
        } else {
            None
        },
{
    assert(steps.take(k + 1).drop_last() =~= steps.take(k));
    assert(steps.take(k + 1).last() == steps[k]);
}

/// The first step that can follow the Gap is one, and none before it is.
pub proof fn lemma_anchor(steps: Seq<Step>, inject_after_ts: u64, copy_through_ts: u64)
    ensures
        match anchor(steps, inject_after_ts, copy_through_ts) {
            Some(i) => 0 <= i < steps.len() && can_follow(
                steps[i]->Ok_0,
                inject_after_ts,
                copy_through_ts,
            ) && forall|j: int|
                0 <= j < i ==> !can_follow(
                    (#[trigger] steps[j])->Ok_0,
                    inject_after_ts,
                    copy_through_ts,
                ),
            None => forall|j: int|
                0 <= j < steps.len() ==> !can_follow(
                    (#[trigger] steps[j])->Ok_0,
                    inject_after_ts,
                    copy_through_ts,
                ),
        },
    decreases steps.len(),
{
    if steps.len() > 0 {
        let front = steps.drop_last();
        lemma_anchor(front, inject_after_ts, copy_through_ts);
        match anchor(front, inject_after_ts, copy_through_ts) {
            Some(i) => {
                assert(front[i] == steps[i]);
                assert forall|j: int| 0 <= j < i implies !can_follow(
                    (#[trigger] steps[j])->Ok_0,
                    inject_after_ts,
                    copy_through_ts,
                ) by {
                    assert(front[j] == steps[j]);
                }
            },
            None => {
                assert forall|j: int| 0 <= j < front.len() implies !can_follow(
                    (#[trigger] steps[j])->Ok_0,
                    inject_after_ts,
                    copy_through_ts,
                ) by {
                    assert(front[j] == steps[j]);
                }
            },
        }
    }
}

/// Looks for the event that the Gap goes in front of. Every event of the log is read: the
/// timestamps have to be in order throughout.
pub fn find_anchor(log: FrameLog, inject_after_ts: u64, copy_through_ts: u64) -> (r: Result<u64>)
    requires
        countable(log),
    ensures
        anchor_result(log, inject_after_ts, copy_through_ts, r),
{
    if log.warnings.len() > 0 {
        return Err(ReplayError::SpliceOpenWarnings(copy_texts(&log.warnings)));
    }
    let mut source: ReplaySource = ReplaySource::open(log);
    let ghost steps = steps_from(log.frames@, 0);
    let mut previous_ts: Option<u64> = None;
    let mut event_index: u64 = 0;
    let mut gap_ts: Option<u64> = None;
    assert(steps.skip(0) =~= steps);
    assert(steps.take(0) =~= Seq::<Step>::empty());
    loop
        invariant
            source.wf(),
            steps == steps_from(log.frames@, 0),
            steps.len() <= u64::MAX,
            log.warnings.len() == 0,
            event_index <= steps.len(),
            source@.remaining == steps.skip(event_index as int),
            orderly(steps, event_index as nat),
            event_index == 0 ==> previous_ts is None,
            event_index > 0 ==> previous_ts == Some(steps[event_index - 1]->Ok_0.ts.0),
            gap_ts is Some <==> anchor(
                steps.take(event_index as int),
                inject_after_ts,
                copy_through_ts,
            ) is Some,
            gap_ts is Some ==> gap_ts->0 == steps[anchor(
                steps.take(event_index as int),
                inject_after_ts,
                copy_through_ts,
            )->0]->Ok_0.ts.0,
        ensures
            event_index == steps.len(),
            orderly(steps, event_index as nat),
            gap_ts is Some <==> anchor(
                steps.take(event_index as int),
                inject_after_ts,
                copy_through_ts,
            ) is Some,
            gap_ts is Some ==> gap_ts->0 == steps[anchor(
                steps.take(event_index as int),
                inject_after_ts,
                copy_through_ts,
            )->0]->Ok_0.ts.0,
        decreases steps.len() - event_index,
    {
        let ghost k = event_index as nat;
        assert(k < steps.len() ==> source@.remaining[0] == steps[k as int]);
        let event: CanonicalEvent = match source.next_event() {
            Err(error) => {
                assert(orderly(steps, k) && out_of_order(steps, k as int));
                return Err(error);
            },
            Ok(None) => {
                break;
            },
            Ok(Some(event)) => event,
        };
        if let Some(previous) = previous_ts {
            if event.ts.0 < previous {
                assert(orderly(steps, k) && out_of_order(steps, k as int));
                return Err(
                    ReplayError::NonMonotonicSpliceInput {
                        event_index,
                        previous_ts: previous,
                        observed_ts: event.ts.0,
                    },
                );
            }
        }
        assert(!out_of_order(steps, k as int));
        proof {
            lemma_anchor_step(steps, k as int, inject_after_ts, copy_through_ts);
            lemma_anchor(steps.take(k as int), inject_after_ts, copy_through_ts);
            assert(steps.skip(k as int).skip(1) =~= steps.skip(k as int + 1));
        }
        previous_ts = Some(event.ts.0);
        if gap_ts.is_none() && event.ts.0 > inject_after_ts && event.ts.0 <= copy_through_ts {
            gap_ts = Some(event.ts.0);
        }
        event_index += 1;
    }
    assert(steps.take(event_index as int) =~= steps);
    match gap_ts {
        Some(ts) => Ok(ts),
        None => Err(ReplayError::SpliceAnchorNotFound { inject_after_ts, copy_through_ts }),
    }
}

/// Whether an event is later than the place of the Gap.
pub open spec fn has_late(events: Seq<CanonicalEvent>, inject_after_ts: u64) -> bool {
    exists|i: int| 0 <= i < events.len() && (#[trigger] events[i]).ts.0 > inject_after_ts
}

proof fn lemma_spliced_push(
    events: Seq<CanonicalEvent>,
    event: CanonicalEvent,
    inject_after_ts: u64,
    gap: CanonicalEvent,
)
    ensures
        has_late(events.push(event), inject_after_ts) == (has_late(events, inject_after_ts)
            || event.ts.0 > inject_after_ts),
        !has_late(events, inject_after_ts) ==> spliced(events, inject_after_ts, gap) == events,
        spliced(events.push(event), inject_after_ts, gap) == if !has_late(events, inject_after_ts)
            && event.ts.0 > inject_after_ts {
            events.push(gap).push(event)
        } else {
            spliced(events, inject_after_ts, gap).push(event)
        },
    decreases events.len(),
{
    let more = events.push(event);
    assert(has_late(more, inject_after_ts) == (has_late(events, inject_after_ts) || event.ts.0
        > inject_after_ts)) by {
        assert(more[events.len() as int] == event);
        if has_late(events, inject_after_ts) {
            let i = choose|i: int|
                0 <= i < events.len() && (#[trigger] events[i]).ts.0 > inject_after_ts;
            assert(more[i] == events[i]);
        }
    }
    if events.len() == 0 {
        assert(more[0] == event);
        assert(more.skip(1) =~= events);
        assert(seq![gap] + more =~= events.push(gap).push(event));
        assert(seq![event] + spliced(events, inject_after_ts, gap) =~= events.push(event));
    } else if events[0].ts.0 > inject_after_ts {
        assert(more[0] == events[0]);
        assert(seq![gap] + more =~= (seq![gap] + events).push(event));
    } else {
        let rest = events.skip(1);
        assert(more[0] == events[0]);
        assert(more.skip(1) =~= rest.push(event));
        assert(has_late(rest, inject_after_ts) == has_late(events, inject_after_ts)) by {
            if has_late(events, inject_after_ts) {
                let i = choose|i: int|
                    0 <= i < events.len() && (#[trigger] events[i]).ts.0 > inject_after_ts;
                assert(rest[i - 1] == events[i]);
            }
            if has_late(rest, inject_after_ts) {
                let i = choose|i: int|
                    0 <= i < rest.len() && (#[trigger] rest[i]).ts.0 > inject_after_ts;
                assert(rest[i] == events[i + 1]);
            }
        }
        lemma_spliced_push(rest, event, inject_after_ts, gap);
        assert(seq![events[0]] + rest =~= events);
        assert(seq![events[0]] + rest.push(gap).push(event) =~= events.push(gap).push(event));
        assert(seq![events[0]] + spliced(rest, inject_after_ts, gap).push(event) =~= (
        seq![events[0]] + spliced(rest, inject_after_ts, gap)).push(event));
    }
}

proof fn lemma_spliced_len(events: Seq<CanonicalEvent>, inject_after_ts: u64, gap: CanonicalEvent)
    ensures
        spliced(events, inject_after_ts, gap).len() == events.len() + if has_late(
            events,
            inject_after_ts,
        ) {
            1nat
        } else {
            0nat
        },
    decreases events.len(),
{
    if events.len() > 0 {
        let front = events.drop_last();
        assert(front.push(events.last()) =~= events);
        lemma_spliced_push(front, events.last(), inject_after_ts, gap);
        lemma_spliced_len(front, inject_after_ts, gap);
    }
}

proof fn lemma_flat_push(batches: Seq<Vec<CanonicalEvent>>, batch: Vec<CanonicalEvent>)
    ensures
        flat(batches.push(batch)) == flat(batches) + batch@,
{
    assert(batches.push(batch).drop_last() =~= batches);
}

/// Copies the events up to `copy_through_ts`, with the Gap in front of the first that is later
/// than `inject_after_ts`.
pub fn copy_spliced(
    log: FrameLog,
    inject_after_ts: u64,
    copy_through_ts: u64,
    gap: CanonicalEvent,
) -> (r: Result<Splice>)
    requires
        countable(log),
        steps_from(log.frames@, 0).len() < u64::MAX,
    ensures
        copy_result(log, inject_after_ts, copy_through_ts, gap, r),
{
    if log.warnings.len() > 0 {
        return Err(ReplayError::SpliceOpenWarnings(copy_texts(&log.warnings)));
    }
    let mut source: ReplaySource = ReplaySource::open(log);
    let ghost steps = steps_from(log.frames@, 0);
    let mut batches: Vec<Vec<CanonicalEvent>> = Vec::new();
    let mut batch: Vec<CanonicalEvent> = Vec::new();
    let mut output_events: u64 = 0;
    let mut injected: bool = false;
    let mut k: Ghost<nat> = Ghost(0);
    assert(steps.skip(0) =~= steps);
    assert(taken(steps, 0) =~= Seq::<CanonicalEvent>::empty());
    loop
        invariant_except_break
            source@.remaining == steps.skip(k@ as int),
        invariant
            source.wf(),
            steps == steps_from(log.frames@, 0),
            steps.len() < u64::MAX,
            log.warnings.len() == 0,
            k@ <= steps.len(),
            leads_with(steps, k@),
            forall|i: int|
                0 <= i < k@ ==> (#[trigger] steps[i])->Ok_0.ts.0 <= copy_through_ts,
            injected == has_late(taken(steps, k@), inject_after_ts),
            flat(batches@) + batch@ == spliced(taken(steps, k@), inject_after_ts, gap),
            output_events == spliced(taken(steps, k@), inject_after_ts, gap).len(),
            batch.len() < BATCH_EVENTS,
            forall|i: int|
                0 <= i < batches.len() ==> BATCH_EVENTS <= (#[trigger] batches@[i]).len()
                    <= BATCH_EVENTS + 1,
        ensures
            k@ <= steps.len(),
            leads_with(steps, k@),
            due(steps, copy_through_ts) == k@,
            k@ == steps.len() || steps[k@ as int] is Ok,
            flat(batches@) + batch@ == spliced(taken(steps, k@), inject_after_ts, gap),
            output_events == spliced(taken(steps, k@), inject_after_ts, gap).len(),
            batch.len() < BATCH_EVENTS,
            forall|i: int|
                0 <= i < batches.len() ==> BATCH_EVENTS <= (#[trigger] batches@[i]).len()
                    <= BATCH_EVENTS + 1,
        decreases steps.len() - k@,
    {
        proof {
            assert(k@ < steps.len() ==> source@.remaining[0] == steps[k@ as int]);
            lemma_due_is(steps, copy_through_ts, k@);
        }
        let event: CanonicalEvent = match source.next_event() {
            Err(error) => return Err(error),
            Ok(None) => {
                break;
            },
            Ok(Some(event)) => event,
        };
        if event.ts.0 > copy_through_ts {
            break;
        }
        proof {
            let before = taken(steps, k@);
            lemma_spliced_push(before, event, inject_after_ts, gap);
            lemma_spliced_len(before, inject_after_ts, gap);
            assert(taken(steps, k@ + 1) =~= before.push(event));
            assert(steps.skip(k@ as int).skip(1) =~= steps.skip(k@ as int + 1));
        }
        if !injected && event.ts.0 > inject_after_ts {
            batch.push(gap);
            output_events += 1;
            injected = true;
        }
        batch.push(event);
        output_events += 1;
        proof {
            k@ = k@ + 1;
            assert(flat(batches@) + batch@ =~= spliced(taken(steps, k@), inject_after_ts, gap));
        }
        if batch.len() >= BATCH_EVENTS {
            proof {
                lemma_flat_push(batches@, batch);
            }
            batches.push(batch);
            batch = Vec::new();
            assert(flat(batches@) + batch@ =~= flat(batches@));
        }
    }
    if batch.len() > 0 {
        proof {
            lemma_flat_push(batches@, batch);
        }
        batches.push(batch);
    } else {
        assert(flat(batches@) + batch@ =~= flat(batches@));
    }
    Ok(Splice { batches, output_events, gap_ts: gap.ts.0 })
}

/// Splices one Gap into a log: `first` is read to validate the whole source range, and only then
/// `reopen` opens the log again, to copy it. Nothing is written unless the result is a success.
pub fn write_with_injected_gap<O: FnOnce() -> Result<FrameLog>>(
    first: FrameLog,
    reopen: O,
    inject_after_ts: u64,
    copy_through_ts: u64,
    expected: u64,
    observed: u64,
) -> (r: Result<Splice>)
    requires
        countable(first),
        call_requires(reopen, ()),
        forall|second: FrameLog| #[trigger]
            call_ensures(reopen, (), Ok::<FrameLog, ReplayError>(second)) ==> countable(second)
                && steps_from(second.frames@, 0).len() < u64::MAX,
    ensures
        if !is_forward(expected, observed) {
            r == Err::<Splice, ReplayError>(ReplayError::InvalidGapSequences { expected, observed })
        } else {
            exists|found: Result<u64>| #[trigger]
                anchor_result(first, inject_after_ts, copy_through_ts, found) && match found {
                    Err(error) => r == Err::<Splice, ReplayError>(error),
                    Ok(ts) => exists|opened: Result<FrameLog>| #[trigger]
                        call_ensures(reopen, (), opened) && match opened {
                            Err(error) => r == Err::<Splice, ReplayError>(error),
                            Ok(second) => copy_result(
                                second,
                                inject_after_ts,
                                copy_through_ts,
                                gap_event(Ts(ts), expected, observed),
                                r,
                            ),
                        },
                }
        },
{
    if !steps_forward(expected, observed) {
        return Err(ReplayError::InvalidGapSequences { expected, observed });
    }
    let found: Result<u64> = find_anchor(first, inject_after_ts, copy_through_ts);
    let ghost answer = found;
    assert(anchor_result(first, inject_after_ts, copy_through_ts, answer));
    match found {
        Err(error) => Err(error),
        Ok(ts) => {
            let opened: Result<FrameLog> = reopen();
            let ghost again = opened;
            assert(call_ensures(reopen, (), again));
            match opened {
                Err(error) => Err(error),
                Ok(second) => {
                    let gap: CanonicalEvent = CanonicalEvent::gap(Ts(ts), expected, observed);
                    copy_spliced(second, inject_after_ts, copy_through_ts, gap)
                },
            }
        },
    }
}

proof fn lemma_spliced_at(
    events: Seq<CanonicalEvent>,
    at: int,
    inject_after_ts: u64,
    gap: CanonicalEvent,
)
    requires
        0 <= at < events.len(),
        events[at].ts.0 > inject_after_ts,
        forall|i: int| 0 <= i < at ==> (#[trigger] events[i]).ts.0 <= inject_after_ts,
    ensures
        spliced(events, inject_after_ts, gap) == events.take(at) + seq![gap] + events.skip(at),
    decreases at,
{
    if at == 0 {
        assert(seq![gap] + events =~= events.take(0) + seq![gap] + events.skip(0));
    } else {
        let rest = events.skip(1);
        assert(events[0].ts.0 <= inject_after_ts);
        assert forall|i: int| 0 <= i < at - 1 implies (#[trigger] rest[i]).ts.0
            <= inject_after_ts by {
            assert(rest[i] == events[i + 1]);
        }
        lemma_spliced_at(rest, at - 1, inject_after_ts, gap);
        assert(seq![events[0]] + (rest.take(at - 1) + seq![gap] + rest.skip(at - 1))
            =~= events.take(at) + seq![gap] + events.skip(at));
    }
}

/// A splice of a log whose copy reads what its validation read puts in one Gap and keeps every
/// copied event: the output is the copied events with the Gap right in front of the anchor,
/// at the anchor's timestamp.
pub proof fn law_one_gap_inserted(
    log: FrameLog,
    inject_after_ts: u64,
    copy_through_ts: u64,
    gap_ts: u64,
    expected: u64,
    observed: u64,
    r: Result<Splice>,
)
    requires
        anchor_result(log, inject_after_ts, copy_through_ts, Ok(gap_ts)),
        copy_result(
            log,
            inject_after_ts,
            copy_through_ts,
            gap_event(Ts(gap_ts), expected, observed),
            r,
        ),
    ensures
        ({
            let steps = steps_from(log.frames@, 0);
            let n = due(steps, copy_through_ts);
            let copied = taken(steps, n);
            let at = anchor(steps, inject_after_ts, copy_through_ts)->0;
            let gap = gap_event(Ts(gap_ts), expected, observed);
            &&& r is Ok
            &&& 0 <= at < n
            &&& copied[at].ts.0 == gap_ts
            &&& flat(r->Ok_0.batches@) == copied.take(at) + seq![gap] + copied.skip(at)
            &&& flat(r->Ok_0.batches@).remove(at) == copied
            &&& r->Ok_0.output_events == n + 1
        }),
{
    let steps = steps_from(log.frames@, 0);
    let n = due(steps, copy_through_ts);
    let copied = taken(steps, n);
    let at = anchor(steps, inject_after_ts, copy_through_ts)->0;
    let gap = gap_event(Ts(gap_ts), expected, observed);
    lemma_anchor(steps, inject_after_ts, copy_through_ts);
    lemma_due(steps, copy_through_ts);
    if n < steps.len() {
        assert(!out_of_order(steps, n as int));
    }
    lemma_in_order(steps);
    assert(at < n) by {
        if n <= at {
            assert(steps[n as int]->Ok_0.ts.0 <= steps[at]->Ok_0.ts.0);
        }
    }
    assert forall|i: int| 0 <= i < at implies (#[trigger] copied[i]).ts.0 <= inject_after_ts by {
        assert(steps[i]->Ok_0.ts.0 <= copy_through_ts);
        assert(!can_follow(steps[i]->Ok_0, inject_after_ts, copy_through_ts));
    }
    assert(copied[at] == steps[at]->Ok_0);
    lemma_spliced_at(copied, at, inject_after_ts, gap);
    let out = copied.take(at) + seq![gap] + copied.skip(at);
    assert(out.remove(at) =~= copied);
}

proof fn lemma_in_order(steps: Seq<Step>)
    requires
        orderly(steps, steps.len()),
    ensures
        forall|i: int, j: int|
            0 <= i <= j < steps.len() ==> (#[trigger] steps[i])->Ok_0.ts.0 <= (
            #[trigger] steps[j])->Ok_0.ts.0,
    decreases steps.len(),
{
    if steps.len() > 0 {
        let front = steps.drop_last();
        let last = steps.len() - 1;
        assert forall|i: int| 0 <= i < front.len() implies !#[trigger] out_of_order(front, i) by {
            assert(!out_of_order(steps, i));
        }
        lemma_in_order(front);
        assert(!out_of_order(steps, last));
        assert forall|i: int, j: int| 0 <= i <= j < steps.len() implies (
        #[trigger] steps[i])->Ok_0.ts.0 <= (#[trigger] steps[j])->Ok_0.ts.0 by {
            if j < last {
                assert(front[i]->Ok_0.ts.0 <= front[j]->Ok_0.ts.0);
            } else if i < last {
                assert(front[i]->Ok_0.ts.0 <= front[last - 1]->Ok_0.ts.0);
            }
        }
    }
}

/// A Gap steps forward when what was observed is beyond what was expected, and what was expected can
/// be carried by an event.
pub proof fn law_gap_steps_forward(expected: u64, observed: u64, r: bool)
    requires
        call_ensures(steps_forward, (expected, observed), r),
    ensures
        r <==> expected < observed && expected < 0x8000_0000_0000_0000,
{
}

/// The Gap of a splice takes the time of the first event behind the place that is asked for and no
/// later than the end of the copy; a log without such an event, one whose events go back in time, and
/// one that was opened with warnings are refused.
pub proof fn law_anchor_found(
    log: FrameLog,
    inject_after_ts: u64,
    copy_through_ts: u64,
    r: Result<u64>,
    i: int,
)
    requires
        call_ensures(find_anchor, (log, inject_after_ts, copy_through_ts), r),
        r is Ok,
        0 <= i < steps_from(log.frames@, 0).len(),
    ensures
        ({
            let steps = steps_from(log.frames@, 0);
            let fits = steps[i] is Ok && inject_after_ts < steps[i]->Ok_0.ts.0 <= copy_through_ts;
            &&& log.warnings.len() == 0
            &&& steps[i] is Ok
            &&& i > 0 ==> steps[i - 1]->Ok_0.ts.0 <= steps[i]->Ok_0.ts.0
            &&& inject_after_ts < r->Ok_0 <= copy_through_ts
            &&& fits ==> r->Ok_0 <= steps[i]->Ok_0.ts.0
            &&& exists|j: int|
                0 <= j < steps.len() && (#[trigger] steps[j])->Ok_0.ts.0 == r->Ok_0
        }),
{
    let steps = steps_from(log.frames@, 0);
    assert(orderly(steps, steps.len()));
    assert(!out_of_order(steps, i));
    lemma_anchor(steps, inject_after_ts, copy_through_ts);
    lemma_in_order(steps);
    let at = anchor(steps, inject_after_ts, copy_through_ts)->0;
    assert(steps[at]->Ok_0.ts.0 == r->Ok_0);
    if i < at {
        assert(!can_follow(steps[i]->Ok_0, inject_after_ts, copy_through_ts));
    } else {
        assert(steps[at]->Ok_0.ts.0 <= steps[i]->Ok_0.ts.0);
    }
}

proof fn lemma_spliced(
    events: Seq<CanonicalEvent>,
    inject_after_ts: u64,
    gap: CanonicalEvent,
    at: int,
)
    requires
        0 <= at <= events.len(),
        forall|i: int| 0 <= i < at ==> (#[trigger] events[i]).ts.0 <= inject_after_ts,
        at < events.len() ==> events[at].ts.0 > inject_after_ts,
    ensures
        spliced(events, inject_after_ts, gap) == (if at < events.len() {
            events.take(at) + seq![gap] + events.skip(at)
        } else {
            events
        }),
    decreases events.len(),
{
    if events.len() > 0 && at > 0 {
        let rest = events.skip(1);
        assert(events[0].ts.0 <= inject_after_ts);
        assert forall|i: int| 0 <= i < at - 1 implies (#[trigger] rest[i]).ts.0 <= inject_after_ts by {
            assert(rest[i] == events[i + 1]);
        }
        lemma_spliced(rest, inject_after_ts, gap, at - 1);
        if at < events.len() {
            assert(seq![events[0]] + (rest.take(at - 1) + seq![gap] + rest.skip(at - 1)) =~= events.take(
                at,
            ) + seq![gap] + events.skip(at));
        } else {
            assert(seq![events[0]] + rest =~= events);
        }
    } else if events.len() > 0 {
        assert(seq![gap] + events =~= events.take(0) + seq![gap] + events.skip(0));
    }
}

/// A copy holds the events of the log up to its end time, in order, and one more: the Gap, right
/// before the first event that is later than the time behind which it goes. The batches but the
/// last are full, and none is empty.
pub proof fn law_copy_with_gap(
    log: FrameLog,
    inject_after_ts: u64,
    copy_through_ts: u64,
    gap: CanonicalEvent,
    r: Result<Splice>,
    at: int,
    n: int,
    b: int,
)
    requires
        call_ensures(copy_spliced, (log, inject_after_ts, copy_through_ts, gap), r),
        log.warnings.len() == 0,
        0 <= at <= n <= steps_from(log.frames@, 0).len(),
        forall|i: int|
            0 <= i < n ==> (#[trigger] steps_from(log.frames@, 0)[i]) is Ok && steps_from(
                log.frames@,
                0,
            )[i]->Ok_0.ts.0 <= copy_through_ts,
        n < steps_from(log.frames@, 0).len() ==> steps_from(log.frames@, 0)[n] is Ok && steps_from(
            log.frames@,
            0,
        )[n]->Ok_0.ts.0 > copy_through_ts,
        forall|i: int|
            0 <= i < at ==> (#[trigger] steps_from(log.frames@, 0)[i])->Ok_0.ts.0 <= inject_after_ts,
        at < n ==> steps_from(log.frames@, 0)[at]->Ok_0.ts.0 > inject_after_ts,
    ensures
        ({
            let steps = steps_from(log.frames@, 0);
            let events = Seq::new(n as nat, |i: int| steps[i]->Ok_0);
            let written = flat(r->Ok_0.batches@);
            let batches = r->Ok_0.batches@;
            &&& r is Ok
            &&& at < n ==> written == events.take(at) + seq![gap] + events.skip(at)
            &&& at == n ==> written == events
            &&& r->Ok_0.output_events == written.len()
            &&& r->Ok_0.gap_ts == gap.ts.0
            &&& 0 <= b < batches.len() ==> 0 < batches[b].len() <= 4_097
            &&& 0 <= b < batches.len() - 1 ==> batches[b].len() >= 4_096
        }),
{
    let steps = steps_from(log.frames@, 0);
    let k = n as nat;
    assert(leads_with(steps, k));
    lemma_due_is(steps, copy_through_ts, k);
    let events = Seq::new(n as nat, |i: int| steps[i]->Ok_0);
    assert(taken(steps, k) =~= events);
    assert forall|i: int| 0 <= i < at implies (#[trigger] events[i]).ts.0 <= inject_after_ts by {
        assert(events[i] == steps[i]->Ok_0);
    }
    lemma_spliced(events, inject_after_ts, gap, at);
}

/// A search that finds no anchor says why: the first event that goes back in time, with the two
/// timestamps, or that no event lies in the range that was asked for. A log without warnings,
/// failures or steps back that holds such an event has an anchor.
pub proof fn law_anchor_refused(
    log: FrameLog,
    inject_after_ts: u64,
    copy_through_ts: u64,
    r: Result<u64>,
    i: int,
)
    requires
        countable(log),
        log.warnings.len() == 0,
        call_ensures(find_anchor, (log, inject_after_ts, copy_through_ts), r),
        0 <= i < steps_from(log.frames@, 0).len(),
    ensures
        ({
            let steps = steps_from(log.frames@, 0);
            let fits = steps[i] is Ok && inject_after_ts < steps[i]->Ok_0.ts.0 <= copy_through_ts;
            &&& r matches Err(
                ReplayError::NonMonotonicSpliceInput { event_index, previous_ts, observed_ts },
            ) ==> {
                &&& 0 < event_index < steps.len()
                &&& steps[event_index as int] is Ok
                &&& steps[event_index as int]->Ok_0.ts.0 == observed_ts
                &&& steps[event_index - 1]->Ok_0.ts.0 == previous_ts
                &&& observed_ts < previous_ts
                &&& 0 < i < event_index ==> steps[i]->Ok_0.ts.0 >= steps[i - 1]->Ok_0.ts.0
            }
            &&& r matches Err(
                ReplayError::SpliceAnchorNotFound { inject_after_ts: after, copy_through_ts: through },
            ) ==> after == inject_after_ts && through == copy_through_ts && steps[i] is Ok && !fits
            &&& fits && (forall|j: int| 0 <= j < steps.len() ==> (#[trigger] steps[j]) is Ok) && (
            forall|j: int, k: int|
                0 <= j <= k < steps.len() ==> (#[trigger] steps[j])->Ok_0.ts.0 <= (
                #[trigger] steps[k])->Ok_0.ts.0) ==> r is Ok
        }),
{
    let steps = steps_from(log.frames@, 0);
    lemma_anchor(steps, inject_after_ts, copy_through_ts);
    if !orderly(steps, steps.len()) {
        let n = choose|n: nat|
            n < steps.len() && #[trigger] orderly(steps, n) && out_of_order(steps, n as int) && (
            match steps[n as int] {
                Err(message) => is_log_error(r, message),
                Ok(event) => r == Err::<u64, ReplayError>(
                    ReplayError::NonMonotonicSpliceInput {
                        event_index: n as u64,
                        previous_ts: steps[n - 1]->Ok_0.ts.0,
                        observed_ts: event.ts.0,
                    },
                ),
            });
        assert(n <= u64::MAX);
        if 0 < i < n {
            assert(!out_of_order(steps, i));
        }
        if (forall|j: int| 0 <= j < steps.len() ==> (#[trigger] steps[j]) is Ok) && (
        forall|j: int, k: int|
            0 <= j <= k < steps.len() ==> (#[trigger] steps[j])->Ok_0.ts.0 <= (
            #[trigger] steps[k])->Ok_0.ts.0) {
            assert(steps[n as int] is Ok);
            assert(steps[n - 1]->Ok_0.ts.0 <= steps[n as int]->Ok_0.ts.0);
        }
    } else {
        assert(!out_of_order(steps, i));
    }
}

} // verus!
