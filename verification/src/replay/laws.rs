//! What holds of replay as a whole: forward replay in chunks reaches what one long run
//! reaches, and a seek reaches what forward replay reaches.

use super::error::Result;
use super::frames::{frame_steps, law_steps_split, steps_between, steps_from, FrameLog, Step};
use super::source::{
    due, forwarded, law_after_after, lemma_due, lemma_due_is, nearest, restore_fault,
    restored, seq_after, serves, taken, ts_after, Cursor, ForwardProgress,
};
use crate::event::CanonicalEvent;
use vstd::prelude::*;

verus! {

/// The state after `events`, each applied to what the ones before it left.
pub open spec fn folded<S>(
    apply: spec_fn(S, CanonicalEvent) -> S,
    start: S,
    events: Seq<CanonicalEvent>,
) -> S
    decreases events.len(),
{
    if events.len() == 0 {
        start
    } else {
        apply(folded(apply, start, events.drop_last()), events.last())
    }
}

/// Applying two runs of events one after the other is applying them as one run.
pub proof fn law_folded_append<S>(
    apply: spec_fn(S, CanonicalEvent) -> S,
    start: S,
    first: Seq<CanonicalEvent>,
    second: Seq<CanonicalEvent>,
)
    ensures
        folded(apply, folded(apply, start, first), second) == folded(apply, start, first + second),
    decreases second.len(),
{
    if second.len() == 0 {
        assert(first + second =~= first);
    } else {
        law_folded_append(apply, start, first, second.drop_last());
        assert((first + second).drop_last() =~= first + second.drop_last());
        assert((first + second).last() == second.last());
    }
}

/// Whether the result reports the end of the log.
pub open spec fn at_eof(r: Result<ForwardProgress>) -> bool {
    r matches Ok(progress) && progress.eof
}

/// One run of forward replay: how many events it applied, what it reported, and where it left
/// the cursor.
pub struct Chunk {
    pub events: nat,
    pub result: Result<ForwardProgress>,
    pub end: Cursor,
}

/// Where the chunk `i` begins: where the one before it ended.
pub open spec fn begins(from: Cursor, chunks: Seq<Chunk>, i: int) -> Cursor {
    if i <= 0 {
        from
    } else {
        chunks[i - 1].end
    }
}

/// Whether the chunks were replayed one after the other, each but the last without a fault.
pub open spec fn chained(from: Cursor, chunks: Seq<Chunk>) -> bool {
    &&& forall|i: int|
        0 <= i < chunks.len() ==> forwarded(
            begins(from, chunks, i),
            (#[trigger] chunks[i]).events,
            chunks[i].result,
            chunks[i].end,
        )
    &&& forall|i: int| 0 <= i < chunks.len() - 1 ==> (#[trigger] chunks[i]).result is Ok
}

/// The events of the first `k` chunks, in the order in which they were applied.
pub open spec fn gathered(from: Cursor, chunks: Seq<Chunk>, k: nat) -> Seq<CanonicalEvent>
    decreases k,
{
    if k == 0 {
        Seq::empty()
    } else {
        gathered(from, chunks, (k - 1) as nat) + taken(
            begins(from, chunks, k - 1).remaining,
            chunks[k - 1].events,
        )
    }
}

/// The state after the first `k` chunks, each applied to what the ones before it left.
pub open spec fn folded_chunks<S>(
    apply: spec_fn(S, CanonicalEvent) -> S,
    start: S,
    from: Cursor,
    chunks: Seq<Chunk>,
    k: nat,
) -> S
    decreases k,
{
    if k == 0 {
        start
    } else {
        folded(
            apply,
            folded_chunks(apply, start, from, chunks, (k - 1) as nat),
            taken(begins(from, chunks, k - 1).remaining, chunks[k - 1].events),
        )
    }
}

/// One more chunk, from where `j` events lead.
proof fn lemma_next_chunk(from: Cursor, j: nat, chunk: Chunk)
    requires
        j <= from.remaining.len(),
        forwarded(from.after(j), chunk.events, chunk.result, chunk.end),
        chunk.result is Ok,
    ensures
        j + chunk.events <= from.remaining.len(),
        chunk.end == from.after(j + chunk.events),
        taken(from.remaining, j) + taken(from.after(j).remaining, chunk.events) == taken(
            from.remaining,
            j + chunk.events,
        ),
{
    law_after_after(from, j, chunk.events);
    assert(taken(from.remaining, j) + taken(from.after(j).remaining, chunk.events) =~= taken(
        from.remaining,
        j + chunk.events,
    ));
}

proof fn lemma_chained<S>(
    from: Cursor,
    chunks: Seq<Chunk>,
    k: nat,
    apply: spec_fn(S, CanonicalEvent) -> S,
    start: S,
)
    requires
        chained(from, chunks),
        k <= chunks.len(),
        k > 0 ==> chunks[k - 1].result is Ok,
    ensures
        gathered(from, chunks, k).len() <= from.remaining.len(),
        begins(from, chunks, k as int) == from.after(gathered(from, chunks, k).len()),
        gathered(from, chunks, k) == taken(from.remaining, gathered(from, chunks, k).len()),
        folded_chunks(apply, start, from, chunks, k) == folded(
            apply,
            start,
            gathered(from, chunks, k),
        ),
    decreases k,
{
    if k == 0 {
        assert(from.remaining.skip(0) =~= from.remaining);
        assert(from.after(0) == from);
        assert(taken(from.remaining, 0) =~= Seq::<CanonicalEvent>::empty());
    } else {
        let before = (k - 1) as nat;
        let chunk = chunks[k - 1];
        if before > 0 {
            assert(chunks[before - 1].result is Ok);
        }
        lemma_chained(from, chunks, before, apply, start);
        let j = gathered(from, chunks, before).len();
        let middle = from.after(j);
        assert(begins(from, chunks, k - 1) == middle);
        lemma_next_chunk(from, j, chunk);
        assert(taken(middle.remaining, chunk.events).len() == chunk.events);
        law_folded_append(
            apply,
            start,
            gathered(from, chunks, before),
            taken(middle.remaining, chunk.events),
        );
    }
}

/// Any number of runs of forward replay that together reach the end of the log apply the same
/// events, in the same order, as one run that reaches it, and leave the cursor in the same place
/// and everything that the events are applied to in the same state.
pub proof fn law_chunked_forward<S>(
    from: Cursor,
    chunks: Seq<Chunk>,
    n: nat,
    oneshot: Result<ForwardProgress>,
    oneshot_end: Cursor,
    apply: spec_fn(S, CanonicalEvent) -> S,
    start: S,
)
    requires
        chunks.len() > 0,
        chained(from, chunks),
        at_eof(chunks.last().result),
        forwarded(from, n, oneshot, oneshot_end),
        at_eof(oneshot),
    ensures
        chunks.last().end == oneshot_end,
        gathered(from, chunks, chunks.len()) == taken(from.remaining, n),
        folded_chunks(apply, start, from, chunks, chunks.len()) == folded(
            apply,
            start,
            taken(from.remaining, n),
        ),
{
    let k = chunks.len();
    let before = (k - 1) as nat;
    if before > 0 {
        assert(chunks[before - 1].result is Ok);
    }
    lemma_chained(from, chunks, before, apply, start);
    lemma_chained(from, chunks, k, apply, start);
    let last = chunks[k - 1];
    assert(forwarded(begins(from, chunks, k - 1), last.events, last.result, last.end));
    assert(n == from.remaining.len());
}

/// The cursor of a log that was just opened.
pub open spec fn opened(log: FrameLog) -> Cursor {
    Cursor { remaining: steps_from(log.frames@, 0), ordinal: 0, applied_seq: 0, applied_ts: 0 }
}

/// The events before a frame, when every frame before it decodes.
pub open spec fn events_before(log: FrameLog, frame: usize) -> Seq<CanonicalEvent> {
    taken(
        steps_between(log.frames@, 0, frame as int),
        steps_between(log.frames@, 0, frame as int).len(),
    )
}

/// Whether a checkpoint frame records the place it stands at: it holds no events, none before
/// it is later than its first timestamp, and its header names the sequence and timestamp
/// applied last before it.
pub open spec fn records_its_place(log: FrameLog, frame: usize) -> bool {
    let checkpoint = log.frames@[frame as int];
    let events = events_before(log, frame);
    &&& frame_steps(checkpoint).len() == 0
    &&& forall|i: int|
        0 <= i < events.len() ==> (#[trigger] events[i]).ts.0 <= checkpoint.first_ts
    &&& checkpoint.last_seq == seq_after(0, events)
    &&& checkpoint.last_ts == ts_after(0, events)
}

proof fn lemma_nearest_serves(log: FrameLog, end: int, target_ts: u64)
    requires
        0 <= end <= log.frames.len(),
    ensures
        nearest(log.frames@, end, target_ts) matches Some(frame) ==> frame < end && serves(
            log.frames@[frame as int],
            target_ts,
        ),
    decreases end,
{
    if end > 0 && !serves(log.frames@[end - 1], target_ts) {
        lemma_nearest_serves(log, end - 1, target_ts);
    }
}

/// A seek reaches what forward replay from the beginning of the log reaches: the same place,
/// the same source-event count, the same sequence and timestamp, and the same state, if the
/// checkpoint was taken of the state that the events before it lead to.
pub proof fn law_seek_matches_forward<S>(
    log: FrameLog,
    target_ts: u64,
    apply: spec_fn(S, CanonicalEvent) -> S,
    start: S,
)
    requires
        ({
            let at = nearest(log.frames@, log.frames.len() as int, target_ts);
            restore_fault(log, at) is None && (at is Some ==> records_its_place(log, at->0))
        }),
    ensures
        ({
            let at = nearest(log.frames@, log.frames.len() as int, target_ts);
            let from = restored(log, at);
            let tail = due(from.remaining, target_ts);
            let whole = due(opened(log).remaining, target_ts);
            let checkpointed = match at {
                Some(frame) => folded(apply, start, events_before(log, frame)),
                None => start,
            };
            &&& from.after(tail) == opened(log).after(whole)
            &&& folded(apply, checkpointed, taken(from.remaining, tail)) == folded(
                apply,
                start,
                taken(opened(log).remaining, whole),
            )
        }),
{
    let at = nearest(log.frames@, log.frames.len() as int, target_ts);
    let from = restored(log, at);
    let tail = due(from.remaining, target_ts);
    let c = opened(log);
    let len = log.frames.len() as int;
    match at {
        None => {},
        Some(frame) => {
            let f = frame as int;
            let before = steps_between(log.frames@, 0, f);
            let b = before.len();
            lemma_nearest_serves(log, len, target_ts);
            law_steps_split(log.frames@, 0, f, len);
            law_steps_split(log.frames@, f, f + 1, len);
            assert(steps_between(log.frames@, f + 1, f + 1) =~= Seq::<Step>::empty());
            assert(steps_between(log.frames@, f, f + 1) =~= Seq::<Step>::empty());
            assert(c.remaining =~= before + from.remaining);
            assert(taken(c.remaining, b) =~= events_before(log, frame));
            assert(c.remaining.skip(b as int) =~= from.remaining);
            assert(c.after(b) == from);
            lemma_due(from.remaining, target_ts);
            let n = b + tail;
            assert forall|i: int| 0 <= i < n implies (#[trigger] c.remaining[i]) is Ok
                && c.remaining[i]->Ok_0.ts.0 <= target_ts by {
                if i < b {
                    assert(c.remaining[i] == before[i]);
                    assert(events_before(log, frame)[i] == before[i]->Ok_0);
                } else {
                    assert(c.remaining[i] == from.remaining[i - b]);
                }
            }
            if n < c.remaining.len() {
                assert(c.remaining[n as int] == from.remaining[tail as int]);
            }
            lemma_due_is(c.remaining, target_ts, n);
            law_after_after(c, b, tail);
            assert(taken(c.remaining, n) =~= events_before(log, frame) + taken(
                from.remaining,
                tail,
            ));
            law_folded_append(apply, start, events_before(log, frame), taken(from.remaining, tail));
        },
    }
}

} // verus!
