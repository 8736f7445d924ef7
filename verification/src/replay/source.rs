//! The forward cursor over a log.

use super::error::{ReplayError, Result};
use super::frames::{
    events_steps, frame_steps, law_steps_split, steps_between, steps_from, Frame, FrameKind,
    FrameLog, Step,
};
use super::ordinal::{all_events, events_before_frame, first_fault};
use super::probe::{lemma_asked, lemma_unasked, Probe};
use super::sections::{restore_error, restore_sections, restores, RestoreSet};
use crate::event::{CanonicalEvent, InstrumentMeta};
use vstd::prelude::*;

verus! {

/// How long a seek replays before it asks again whether it was cancelled.
pub const CANCEL_BUDGET_NS: u64 = 5_000_000;

/// How many events a seek replays before it asks again whether it was cancelled.
pub const CANCEL_EVENTS: u64 = 256;

/// Result of applying forward events.
#[derive(Clone, Copy, Debug, PartialEq, Eq, Structural)]
pub struct ForwardProgress {
    /// Number of events applied.
    pub events: u64,
    /// Last applied source sequence; a Gap keeps the one before.
    pub applied_seq: u64,
    /// Timestamp of the last applied event.
    pub applied_ts: u64,
    /// Whether the cursor reached the end of the log.
    pub eof: bool,
}

/// Outcome of a checkpoint restoration and the tail replay after it.
#[derive(Clone, Copy, Debug, PartialEq, Eq, Structural)]
pub struct SeekReport {
    /// Target timestamp.
    pub target_ts: u64,
    /// Checkpoint frame, or none when the replay started at the beginning.
    pub checkpoint_frame: Option<usize>,
    /// Whether no checkpoint preceded the target.
    pub replayed_from_start: bool,
    /// Events applied after the restoration.
    pub tail_events: u64,
    /// Last applied source sequence.
    pub applied_seq: u64,
    /// Timestamp of the last applied event.
    pub applied_ts: u64,
    /// Source events consumed from the beginning of the log.
    pub event_ordinal: u64,
    /// Whether a newer seek cancelled this one.
    pub cancelled: bool,
}

/// Where a cursor stands: what reading on will meet, how many events lie behind, and the
/// sequence and timestamp applied last.
#[verifier::ext_equal]
pub struct Cursor {
    pub remaining: Seq<Step>,
    pub ordinal: nat,
    pub applied_seq: u64,
    pub applied_ts: u64,
}

/// A decoded log and its single forward cursor.
pub struct ReplaySource {
    log: FrameLog,
    frame: usize,
    frame_events: Vec<CanonicalEvent>,
    event: usize,
    applied_seq: u64,
    applied_ts: u64,
    ordinal: u64,
}

/// Whether the first `k` steps are events.
pub open spec fn leads_with(steps: Seq<Step>, k: nat) -> bool {
    k <= steps.len() && forall|i: int| 0 <= i < k ==> (#[trigger] steps[i]) is Ok
}

/// The events of the first `k` steps.
pub open spec fn taken(steps: Seq<Step>, k: nat) -> Seq<CanonicalEvent> {
    Seq::new(k, |i: int| steps[i]->Ok_0)
}

/// The sequence applied last after `events`: that of the last event which has one.
pub open spec fn seq_after(start: u64, events: Seq<CanonicalEvent>) -> u64
    decreases events.len(),
{
    if events.len() == 0 {
        start
    } else if events.last().seq.0 != 0 {
        events.last().seq.0 as u64
    } else {
        seq_after(start, events.drop_last())
    }
}

/// The timestamp applied last after `events`.
pub open spec fn ts_after(start: u64, events: Seq<CanonicalEvent>) -> u64 {
    if events.len() == 0 {
        start
    } else {
        events.last().ts.0
    }
}

impl Cursor {
    /// The cursor once `k` events were applied.
    pub open spec fn after(self, k: nat) -> Cursor {
        Cursor {
            remaining: self.remaining.skip(k as int),
            ordinal: self.ordinal + k,
            applied_seq: seq_after(self.applied_seq, taken(self.remaining, k)),
            applied_ts: ts_after(self.applied_ts, taken(self.remaining, k)),
        }
    }

    /// The cursor once one event was consumed without being applied.
    pub open spec fn past_event(self) -> Cursor {
        Cursor { remaining: self.remaining.skip(1), ordinal: self.ordinal + 1, ..self }
    }

    /// The cursor once a frame that does not decode was reported.
    pub open spec fn past_fault(self) -> Cursor {
        Cursor { remaining: self.remaining.skip(1), ..self }
    }

    /// What the cursor reports next, and where it then stands, if `past` follows an event.
    pub open spec fn reports(
        self,
        r: Result<Option<CanonicalEvent>>,
        then_at: Cursor,
        past: Cursor,
    ) -> bool {
        if self.remaining.len() == 0 {
            r == Ok::<Option<CanonicalEvent>, ReplayError>(None) && then_at == self
        } else {
            match self.remaining[0] {
                Ok(event) => r == Ok::<Option<CanonicalEvent>, ReplayError>(Some(event)) && then_at
                    == past,
                Err(message) => is_log_error(r, message) && then_at == self.past_fault(),
            }
        }
    }
}

/// Whether the result is the reader's failure with this message.
pub open spec fn is_log_error<T>(r: Result<T>, message: Seq<char>) -> bool {
    r matches Err(ReplayError::Log(text)) && text@ == message
}

/// Whether the steps of the log can be counted.
pub open spec fn countable(log: FrameLog) -> bool {
    steps_from(log.frames@, 0).len() <= u64::MAX
}

proof fn lemma_after_one(cursor: Cursor)
    requires
        cursor.remaining.len() > 0,
        cursor.remaining[0] is Ok,
    ensures
        cursor.after(1) == (Cursor {
            remaining: cursor.remaining.skip(1),
            ordinal: cursor.ordinal + 1,
            applied_seq: if cursor.remaining[0]->Ok_0.seq.0 != 0 {
                cursor.remaining[0]->Ok_0.seq.0 as u64
            } else {
                cursor.applied_seq
            },
            applied_ts: cursor.remaining[0]->Ok_0.ts.0,
        }),
{
    let one = taken(cursor.remaining, 1);
    assert(one.last() == cursor.remaining[0]->Ok_0);
    assert(one.drop_last() =~= Seq::<CanonicalEvent>::empty());
    reveal_with_fuel(seq_after, 2);
}

/// Applying some events and then others is applying all of them.
pub proof fn law_after_after(cursor: Cursor, j: nat, k: nat)
    requires
        j + k <= cursor.remaining.len(),
    ensures
        cursor.after(j).after(k) == cursor.after(j + k),
    decreases k,
{
    let whole = taken(cursor.remaining, j + k);
    let first = taken(cursor.remaining, j);
    let second = taken(cursor.after(j).remaining, k);
    assert(cursor.after(j).after(k).remaining =~= cursor.after(j + k).remaining);
    if k == 0 {
        assert(whole =~= first);
        assert(second =~= Seq::<CanonicalEvent>::empty());
    } else {
        law_after_after(cursor, j, (k - 1) as nat);
        assert(second.last() == whole.last());
        assert(second.drop_last() =~= taken(cursor.after(j).remaining, (k - 1) as nat));
        assert(whole.drop_last() =~= taken(cursor.remaining, (j + k - 1) as nat));
    }
}

impl View for ReplaySource {
    type V = Cursor;

    closed spec fn view(&self) -> Cursor {
        Cursor {
            remaining: events_steps(self.frame_events@.skip(self.event as int)) + steps_from(
                self.log.frames@,
                self.frame as int,
            ),
            ordinal: self.ordinal as nat,
            applied_seq: self.applied_seq,
            applied_ts: self.applied_ts,
        }
    }
}

impl ReplaySource {
    /// Whether the parts of the cursor fit together, and no count can overflow.
    pub closed spec fn wf(self) -> bool {
        &&& self.frame <= self.log.frames.len()
        &&& self.event <= self.frame_events.len()
        &&& self@.ordinal + self@.remaining.len() <= u64::MAX
        &&& countable(self.log)
    }

    /// The log that the cursor runs over.
    pub closed spec fn log(self) -> FrameLog {
        self.log
    }

    /// What lies behind and ahead of the cursor can be counted together.
    pub proof fn law_counts_fit(self)
        requires
            self.wf(),
        ensures
            self@.ordinal + self@.remaining.len() <= u64::MAX,
    {
    }

    /// A cursor at the beginning of a log.
    pub fn open(log: FrameLog) -> (r: ReplaySource)
        requires
            countable(log),
        ensures
            r.wf(),
            r.log() == log,
            r@ == (Cursor {
                remaining: steps_from(log.frames@, 0),
                ordinal: 0,
                applied_seq: 0,
                applied_ts: 0,
            }),
    {
        let r: ReplaySource = ReplaySource {
            log,
            frame: 0,
            frame_events: Vec::new(),
            event: 0,
            applied_seq: 0,
            applied_ts: 0,
            ordinal: 0,
        };
        assert(r@.remaining =~= steps_from(log.frames@, 0));
        r
    }

    /// The instrument of the log.
    pub fn meta(&self) -> (r: &InstrumentMeta)
        ensures
            *r == self.log().meta,
    {
        &self.log.meta
    }

    /// The warnings of the log's opening, which callers have to surface.
    pub fn open_report(&self) -> (r: &Vec<String>)
        ensures
            *r == self.log().warnings,
    {
        &self.log.warnings
    }

    /// Number of committed frames.
    pub fn frame_count(&self) -> (r: usize)
        ensures
            r == self.log().frames.len(),
    {
        self.log.frames.len()
    }

    /// Last source sequence applied by this cursor.
    pub fn applied_seq(&self) -> (r: u64)
        ensures
            r == self@.applied_seq,
    {
        self.applied_seq
    }

    /// Timestamp of the last event applied by this cursor.
    pub fn applied_ts(&self) -> (r: u64)
        ensures
            r == self@.applied_ts,
    {
        self.applied_ts
    }

    /// Source events consumed from the beginning of the log.
    pub fn event_ordinal(&self) -> (r: u64)
        ensures
            r == self@.ordinal,
    {
        self.ordinal
    }

    /// Moves to the next frame that holds an event.
    fn load_frame(&mut self) -> (r: Result<bool>)
        requires
            old(self).wf(),
            old(self).event == old(self).frame_events.len(),
        ensures
            final(self).wf(),
            final(self).log() == old(self).log(),
            ({
                let c = old(self)@;
                match r {
                    Ok(found) => final(self)@ == c && found == (c.remaining.len() > 0) && (found
                        ==> c.remaining[0] is Ok && final(self).event
                        < final(self).frame_events.len()),
                    Err(_) => c.remaining.len() > 0 && c.remaining[0] is Err && is_log_error(
                        r,
                        c.remaining[0]->Err_0,
                    ) && final(self)@ == c.past_fault(),
                }
            }),
    {
        let ghost c = self@;
        assert(c.remaining =~= steps_from(self.log.frames@, self.frame as int));
        while self.frame < self.log.frames.len()
            invariant
                self.wf(),
                self.log == old(self).log,
                self.event == self.frame_events.len(),
                self@ == c,
                c == old(self)@,
                c.remaining =~= steps_from(self.log.frames@, self.frame as int),
            decreases self.log.frames.len() - self.frame,
        {
            let frame: usize = self.frame;
            let ghost rest = steps_from(self.log.frames@, frame + 1);
            self.frame = frame + 1;
            assert(c.remaining == frame_steps(self.log.frames@[frame as int]) + rest);
            match &self.log.frames[frame].events {
                Ok(events) => {
                    let ghost read = events@;
                    self.frame_events = copy_events(events);
                    self.event = 0;
                    assert(self.frame_events@.skip(0) =~= read);
                    assert(self@.remaining =~= c.remaining);
                    assert(self@ == c);
                    if self.frame_events.len() > 0 {
                        assert(c.remaining[0] == Ok::<CanonicalEvent, Seq<char>>(read[0]));
                        return Ok(true);
                    }
                    assert(c.remaining =~= rest);
                },
                Err(message) => {
                    assert(c.remaining.skip(1) =~= rest);
                    assert(self@.remaining =~= rest);
                    return Err(ReplayError::Log(message.clone()));
                },
            }
        }
        assert(c.remaining =~= Seq::<Step>::empty());
        Ok(false)
    }

    fn ensure_event(&mut self) -> (r: Result<bool>)
        requires
            old(self).wf(),
        ensures
            final(self).wf(),
            final(self).log() == old(self).log(),
            ({
                let c = old(self)@;
                match r {
                    Ok(found) => final(self)@ == c && found == (c.remaining.len() > 0) && (found
                        ==> c.remaining[0] is Ok && final(self).event
                        < final(self).frame_events.len()),
                    Err(_) => c.remaining.len() > 0 && c.remaining[0] is Err && is_log_error(
                        r,
                        c.remaining[0]->Err_0,
                    ) && final(self)@ == c.past_fault(),
                }
            }),
    {
        if self.event < self.frame_events.len() {
            assert(self@.remaining[0] == Ok::<CanonicalEvent, Seq<char>>(
                self.frame_events@[self.event as int],
            ));
            return Ok(true);
        }
        self.load_frame()
    }

    /// The next event, without advancing past it.
    pub fn peek_event(&mut self) -> (r: Result<Option<CanonicalEvent>>)
        requires
            old(self).wf(),
        ensures
            final(self).wf(),
            final(self).log() == old(self).log(),
            old(self)@.reports(r, final(self)@, old(self)@),
    {
        let found: bool = match self.ensure_event() {
            Ok(found) => found,
            Err(error) => return Err(error),
        };
        if found {
            assert(self@.remaining[0] == Ok::<CanonicalEvent, Seq<char>>(
                self.frame_events@[self.event as int],
            ));
            Ok(Some(self.frame_events[self.event]))
        } else {
            Ok(None)
        }
    }

    /// Consumes the next event without applying it; `None` at the end of the log.
    pub fn next_event(&mut self) -> (r: Result<Option<CanonicalEvent>>)
        requires
            old(self).wf(),
        ensures
            final(self).wf(),
            final(self).log() == old(self).log(),
            old(self)@.reports(r, final(self)@, old(self)@.past_event()),
    {
        let found: bool = match self.ensure_event() {
            Ok(found) => found,
            Err(error) => return Err(error),
        };
        if !found {
            return Ok(None);
        }
        let ghost c = self@;
        let event: CanonicalEvent = self.frame_events[self.event];
        assert(c.remaining[0] == Ok::<CanonicalEvent, Seq<char>>(event));
        self.event += 1;
        self.ordinal += 1;
        assert(self@.remaining =~= c.remaining.skip(1));
        Ok(Some(event))
    }

    /// Consumes the next event as applied; `None` at the end of the log. The caller applies the
    /// event it is given to the book and the profile.
    pub fn apply_next(&mut self) -> (r: Result<Option<CanonicalEvent>>)
        requires
            old(self).wf(),
        ensures
            final(self).wf(),
            final(self).log() == old(self).log(),
            old(self)@.reports(r, final(self)@, old(self)@.after(1)),
    {
        let ghost c = self@;
        match self.next_event() {
            Ok(Some(event)) => {
                if event.seq.0 != 0 {
                    self.applied_seq = event.seq.0 as u64;
                }
                self.applied_ts = event.ts.0;
                proof {
                    lemma_after_one(c);
                }
                Ok(Some(event))
            },
            Ok(None) => Ok(None),
            Err(error) => Err(error),
        }
    }
}

/// The same events again.
fn copy_events(events: &Vec<CanonicalEvent>) -> (r: Vec<CanonicalEvent>)
    ensures
        r@ == events@,
{
    let mut out: Vec<CanonicalEvent> = Vec::new();
    let mut i: usize = 0;
    while i < events.len()
        invariant
            i <= events.len(),
            out@ == events@.take(i as int),
        decreases events.len() - i,
    {
        out.push(events[i]);
        i += 1;
        assert(events@.take(i as int) =~= events@.take(i - 1).push(events@[i - 1]));
    }
    assert(events@.take(i as int) =~= events@);
    out
}

/// The time from `start` to `now`; none when the clock went back.
pub open spec fn elapsed(start: u64, now: u64) -> int {
    if now >= start {
        now - start
    } else {
        0
    }
}

/// Whether a replay that began at `start` goes on at `now`, after `events` events: neither its
/// events nor its time are used up.
pub fn wants_more(events: u64, max_events: usize, start: u64, now: u64, budget_ns: u64) -> (r: bool)
    ensures
        r == (events < max_events && elapsed(start, now) < budget_ns),
{
    events < max_events as u64 && now.saturating_sub(start) < budget_ns
}

/// What the clock was read for, and when, while `k` events were applied: once at the beginning,
/// then before every event, and once more behind the last. Each event was applied within the
/// budget; when another one could follow, the budget was spent.
pub open spec fn timed(
    from: Cursor,
    k: nat,
    max_events: usize,
    budget_ns: u64,
    readings: Seq<(Cursor, u64)>,
) -> bool {
    &&& k <= max_events
    &&& readings.len() == k + 2
    &&& readings[0].0 == from
    &&& forall|i: int| 0 <= i <= k ==> (#[trigger] readings[i + 1]).0 == from.after(i as nat)
    &&& forall|i: int|
        0 <= i < k ==> elapsed(readings[0].1, (#[trigger] readings[i + 1]).1) < budget_ns
    &&& k < max_events && k < from.remaining.len() && from.remaining[k as int] is Ok ==> elapsed(
        readings[0].1,
        readings[k as int + 1].1,
    ) >= budget_ns
}

/// Whether the cursor stood at `from`, `k` events were applied, and `r` and the cursor `at`
/// report what came next: the end of the log, another event, or a frame that does not decode.
pub open spec fn forwarded(from: Cursor, k: nat, r: Result<ForwardProgress>, at: Cursor) -> bool {
    let reached = from.after(k);
    &&& leads_with(from.remaining, k)
    &&& if k < from.remaining.len() && from.remaining[k as int] is Err {
        is_log_error(r, from.remaining[k as int]->Err_0) && at == reached.past_fault()
    } else {
        at == reached && r == Ok::<ForwardProgress, ReplayError>(
            ForwardProgress {
                events: k as u64,
                applied_seq: reached.applied_seq,
                applied_ts: reached.applied_ts,
                eof: k == from.remaining.len(),
            },
        )
    }
}

impl ReplaySource {
    /// Applies up to `max_events` events, and no more once `budget_ns` elapsed: the clock is read
    /// again before each event. The events are appended to `applied`, for the caller to apply to
    /// the book and the profile.
    pub fn apply_forward<C: Fn() -> u64>(
        &mut self,
        max_events: usize,
        budget_ns: u64,
        clock: &mut Probe<u64, C>,
        applied: &mut Vec<CanonicalEvent>,
    ) -> (r: Result<ForwardProgress>)
        requires
            old(self).wf(),
            call_requires(old(clock).question(), ()),
        ensures
            final(self).wf(),
            final(self).log() == old(self).log(),
            final(clock).follows(*old(clock)),
            exists|k: nat|
                {
                    &&& #[trigger] forwarded(old(self)@, k, r, final(self)@)
                    &&& final(applied)@ == old(applied)@ + taken(old(self)@.remaining, k)
                    &&& timed(
                        old(self)@,
                        k,
                        max_events,
                        budget_ns,
                        final(clock).since(*old(clock)),
                    )
                },
    {
        let ghost c = self@;
        let ghost kept = applied@;
        let ghost first = *clock;
        proof {
            lemma_unasked(first);
        }
        let start: u64 = clock.ask(&*self);
        let ghost second = *clock;
        proof {
            lemma_asked(first, first, second, c, start);
        }
        let mut events: u64 = 0;
        let mut now: u64 = clock.ask(&*self);
        proof {
            lemma_asked(first, second, *clock, c, now);
        }
        assert(c.after(0) =~= c) by {
            assert(c.remaining.skip(0) =~= c.remaining);
        }
        assert(taken(c.remaining, 0) =~= Seq::<CanonicalEvent>::empty());
        while wants_more(events, max_events, start, now, budget_ns)
            invariant
                self.wf(),
                self.log == old(self).log,
                c == old(self)@,
                c.ordinal + c.remaining.len() <= u64::MAX,
                first == *old(clock),
                call_requires(first.question(), ()),
                clock.follows(first),
                clock.since(first).len() == events + 2,
                clock.since(first)[0] == (c, start),
                clock.since(first)[events + 1].1 == now,
                forall|i: int|
                    0 <= i <= events ==> (#[trigger] clock.since(first)[i + 1]).0 == c.after(
                        i as nat,
                    ),
                forall|i: int|
                    0 <= i < events ==> elapsed(
                        start,
                        (#[trigger] clock.since(first)[i + 1]).1,
                    ) < budget_ns,
                events <= max_events,
                leads_with(c.remaining, events as nat),
                self@ == c.after(events as nat),
                applied@ == kept + taken(c.remaining, events as nat),
                kept == old(applied)@,
            decreases max_events - events,
        {
            let ghost k = events as nat;
            let ghost here = self@;
            assert(k < c.remaining.len() ==> here.remaining[0] == c.remaining[k as int]);
            match self.apply_next() {
                Ok(Some(event)) => {
                    applied.push(event);
                    proof {
                        law_after_after(c, k, 1);
                        assert(taken(c.remaining, k + 1) =~= taken(c.remaining, k).push(event));
                    }
                    events += 1;
                },
                Ok(None) => {
                    assert(forwarded(
                        c,
                        k,
                        Ok(
                            ForwardProgress {
                                events,
                                applied_seq: self.applied_seq,
                                applied_ts: self.applied_ts,
                                eof: true,
                            },
                        ),
                        self@,
                    ));
                    return Ok(
                        ForwardProgress {
                            events,
                            applied_seq: self.applied_seq,
                            applied_ts: self.applied_ts,
                            eof: true,
                        },
                    );
                },
                Err(error) => {
                    assert(forwarded(c, k, Err(error), self@));
                    return Err(error);
                },
            }
            let ghost before = *clock;
            now = clock.ask(&*self);
            proof {
                lemma_asked(first, before, *clock, self@, now);
            }
        }
        let ghost k = events as nat;
        let ghost here = self@;
        assert(k < c.remaining.len() ==> here.remaining[0] == c.remaining[k as int]);
        match self.peek_event() {
            Ok(next) => {
                let progress: ForwardProgress = ForwardProgress {
                    events,
                    applied_seq: self.applied_seq,
                    applied_ts: self.applied_ts,
                    eof: next.is_none(),
                };
                assert(forwarded(c, k, Ok(progress), self@));
                Ok(progress)
            },
            Err(error) => {
                assert(forwarded(c, k, Err(error), self@));
                Err(error)
            },
        }
    }
}

/// Whether a frame is a checkpoint taken at or before `target_ts`.
pub open spec fn serves(frame: Frame, target_ts: u64) -> bool {
    frame.kind == FrameKind::Checkpoint && frame.first_ts <= target_ts
}

/// The last of the frames before `end` that is a checkpoint at or before `target_ts`.
pub open spec fn nearest(frames: Seq<Frame>, end: int, target_ts: u64) -> Option<usize>
    decreases end,
{
    if end <= 0 {
        None
    } else if serves(frames[end - 1], target_ts) {
        Some((end - 1) as usize)
    } else {
        nearest(frames, end - 1, target_ts)
    }
}

/// How many of the frames before `end` are checkpoints.
pub open spec fn checkpoints(frames: Seq<Frame>, end: int) -> nat
    decreases end,
{
    if end <= 0 {
        0
    } else {
        checkpoints(frames, end - 1) + if frames[end - 1].kind == FrameKind::Checkpoint {
            1nat
        } else {
            0nat
        }
    }
}

/// Why a checkpoint cannot be restored from.
pub enum Fault {
    /// The reader's message.
    Log(Seq<char>),
    /// What is wrong with the sections.
    Sections(ReplayError),
}

/// Whether the result reports the fault.
pub open spec fn is_fault<T>(r: Result<T>, fault: Fault) -> bool {
    match fault {
        Fault::Log(message) => is_log_error(r, message),
        Fault::Sections(error) => r == Err::<T, ReplayError>(error),
    }
}

/// Why the log cannot be restored at the given checkpoint; at none, it always can.
pub open spec fn restore_fault(log: FrameLog, at: Option<usize>) -> Option<Fault> {
    match at {
        None => None,
        Some(frame) => match log.frames@[frame as int].sections {
            Err(message) => Some(Fault::Log(message@)),
            Ok(sections) => match restore_error(sections@, log.layout) {
                Some(error) => Some(Fault::Sections(error)),
                None => if all_events(steps_between(log.frames@, 0, frame as int)) {
                    None
                } else {
                    Some(Fault::Log(first_fault(steps_between(log.frames@, 0, frame as int))))
                },
            },
        },
    }
}

/// Whether the caller is handed the sections of the checkpoint, or none where there is none.
pub open spec fn hands_over(
    log: FrameLog,
    at: Option<usize>,
    set: Option<RestoreSet<'_>>,
) -> bool {
    match at {
        None => set is None,
        Some(frame) => set is Some && log.frames@[frame as int].sections is Ok && restores(
            set->0,
            log.frames@[frame as int].sections->Ok_0@,
            log.layout,
        ),
    }
}

/// Where the cursor stands right after the restoration.
pub open spec fn restored(log: FrameLog, at: Option<usize>) -> Cursor {
    match at {
        None => Cursor {
            remaining: steps_from(log.frames@, 0),
            ordinal: 0,
            applied_seq: 0,
            applied_ts: 0,
        },
        Some(frame) => Cursor {
            remaining: steps_from(log.frames@, frame + 1),
            ordinal: steps_between(log.frames@, 0, frame as int).len(),
            applied_seq: log.frames@[frame as int].last_seq,
            applied_ts: log.frames@[frame as int].last_ts,
        },
    }
}

/// How many events lead the steps with a timestamp of at most `target_ts`.
pub open spec fn due(steps: Seq<Step>, target_ts: u64) -> nat
    decreases steps.len(),
{
    if steps.len() == 0 {
        0
    } else {
        match steps[0] {
            Ok(event) => if event.ts.0 <= target_ts {
                1 + due(steps.skip(1), target_ts)
            } else {
                0
            },
            Err(_) => 0,
        }
    }
}

/// The first step that is not due.
pub proof fn lemma_due(steps: Seq<Step>, target_ts: u64)
    ensures
        due(steps, target_ts) <= steps.len(),
        leads_with(steps, due(steps, target_ts)),
        forall|i: int|
            0 <= i < due(steps, target_ts) ==> (#[trigger] steps[i])->Ok_0.ts.0 <= target_ts,
        due(steps, target_ts) < steps.len() ==> (steps[due(steps, target_ts) as int] is Err
            || steps[due(steps, target_ts) as int]->Ok_0.ts.0 > target_ts),
    decreases steps.len(),
{
    if steps.len() > 0 && steps[0] is Ok && steps[0]->Ok_0.ts.0 <= target_ts {
        let rest = steps.skip(1);
        let n = due(rest, target_ts);
        lemma_due(rest, target_ts);
        assert forall|i: int| 0 <= i < n + 1 implies (#[trigger] steps[i]) is Ok
            && steps[i]->Ok_0.ts.0 <= target_ts by {
            if i > 0 {
                assert(rest[i - 1] == steps[i]);
            }
        }
        if n < rest.len() {
            assert(rest[n as int] == steps[n as int + 1]);
        }
    }
}

/// A run of events at or before the target is due; it is all that is due when what follows
/// is not.
pub proof fn lemma_due_is(steps: Seq<Step>, target_ts: u64, k: nat)
    requires
        leads_with(steps, k),
        forall|i: int| 0 <= i < k ==> (#[trigger] steps[i])->Ok_0.ts.0 <= target_ts,
    ensures
        k <= due(steps, target_ts),
        k == steps.len() || steps[k as int] is Err || steps[k as int]->Ok_0.ts.0 > target_ts
            ==> due(steps, target_ts) == k,
{
    lemma_due(steps, target_ts);
    let n = due(steps, target_ts);
    if n < k {
        assert(steps[n as int] is Ok);
    } else if k < n {
        assert(steps[k as int] is Ok);
    }
}

/// The report of a seek that ended at `at`.
pub open spec fn report_of(
    at: Cursor,
    target_ts: u64,
    checkpoint: Option<usize>,
    tail_events: u64,
    cancelled: bool,
) -> SeekReport {
    SeekReport {
        target_ts,
        checkpoint_frame: checkpoint,
        replayed_from_start: checkpoint is None,
        tail_events,
        applied_seq: at.applied_seq,
        applied_ts: at.applied_ts,
        event_ordinal: at.ordinal as u64,
        cancelled,
    }
}

/// Whether the cursor stood at `from`, `k` events were replayed towards the target, and `r`
/// and the cursor `at` report it.
pub open spec fn replayed(
    from: Cursor,
    k: nat,
    target_ts: u64,
    checkpoint: Option<usize>,
    r: Result<SeekReport>,
    at: Cursor,
) -> bool {
    let reached = from.after(k);
    &&& k <= due(from.remaining, target_ts)
    &&& match r {
        Ok(report) => {
            &&& at == reached
            &&& report == report_of(reached, target_ts, checkpoint, k as u64, report.cancelled)
            &&& !report.cancelled ==> k == due(from.remaining, target_ts) && (k
                < from.remaining.len() ==> from.remaining[k as int] is Ok)
        },
        Err(_) => {
            &&& k == due(from.remaining, target_ts)
            &&& k < from.remaining.len()
            &&& from.remaining[k as int] is Err
            &&& is_log_error(r, from.remaining[k as int]->Err_0)
            &&& at == reached.past_fault()
        },
    }
}

/// Whether the result reports a seek that was cancelled.
pub open spec fn was_cancelled(r: Result<SeekReport>) -> bool {
    r matches Ok(report) && report.cancelled
}

/// One step of the replay behind a restoration.
#[derive(Clone, Copy, Debug, PartialEq, Eq, Structural)]
pub enum TailStep {
    /// The event was applied, and the replay goes on.
    Applied(CanonicalEvent),
    /// The replay is over.
    Ended(SeekReport),
}

/// What a step comes to from `from` on, and where the cursor `at` then stands: a cancelled replay
/// ends where it is; otherwise the next event is applied if it is due, and the replay ends if
/// none is.
pub open spec fn stepped(
    from: Cursor,
    target_ts: u64,
    checkpoint: Option<usize>,
    tail_events: u64,
    cancelled: bool,
    r: Result<TailStep>,
    at: Cursor,
) -> bool {
    if cancelled || from.remaining.len() == 0 || (from.remaining[0] is Ok
        && from.remaining[0]->Ok_0.ts.0 > target_ts) {
        at == from && r == Ok::<TailStep, ReplayError>(
            TailStep::Ended(report_of(from, target_ts, checkpoint, tail_events, cancelled)),
        )
    } else {
        match from.remaining[0] {
            Ok(event) => at == from.after(1) && r == Ok::<TailStep, ReplayError>(
                TailStep::Applied(event),
            ),
            Err(message) => at == from.past_fault() && is_log_error(r, message),
        }
    }
}

/// Whether a batch that began at `start` is over at `now`, after `tail_events` events in all.
pub open spec fn batch_over(tail_events: int, start: u64, now: u64) -> bool {
    elapsed(start, now) >= CANCEL_BUDGET_NS || tail_events % (CANCEL_EVENTS as int) == 0
}

fn ends_batch(tail_events: u64, start: u64, now: u64) -> (r: bool)
    ensures
        r == batch_over(tail_events as int, start, now),
{
    now.saturating_sub(start) >= CANCEL_BUDGET_NS || tail_events % CANCEL_EVENTS == 0
}

/// What a replay was answered while it was not cancelled, when it read the clock, and when its
/// batch began.
#[verifier::ext_equal]
pub struct Polls {
    pub asked: Seq<(Cursor, bool)>,
    pub read: Seq<(Cursor, u64)>,
    pub start: u64,
}

/// What was asked and read until `k` events were applied, if the clock showed those times: it is
/// asked before each event whether to go on, and again when a batch is over; the clock is read at
/// the beginning of each batch and behind each event.
pub open spec fn polls(from: Cursor, k: nat, times: Seq<u64>) -> Polls
    decreases k,
{
    if k == 0 {
        Polls { asked: Seq::empty(), read: seq![(from, times[0])], start: times[0] }
    } else {
        let before = polls(from, (k - 1) as nat, times);
        let now = times[before.read.len() as int];
        let asked = before.asked.push((from.after((k - 1) as nat), false));
        let read = before.read.push((from.after(k), now));
        if batch_over(k as int, before.start, now) {
            let start = times[read.len() as int];
            Polls {
                asked: asked.push((from.after(k), false)),
                read: read.push((from.after(k), start)),
                start,
            }
        } else {
            Polls { asked, read, start: before.start }
        }
    }
}

/// The times that the clock showed.
pub open spec fn times_of(read: Seq<(Cursor, u64)>) -> Seq<u64> {
    Seq::new(read.len(), |i: int| read[i].1)
}

/// Whether these are all the answers and readings of a replay that applied `k` events: it ended
/// before another event, or cancelled at the end of a batch.
pub open spec fn polled(
    from: Cursor,
    k: nat,
    cancelled: bool,
    asked: Seq<(Cursor, bool)>,
    read: Seq<(Cursor, u64)>,
) -> bool {
    let times = times_of(read);
    let before = polls(from, (k - 1) as nat, times);
    let now = times[before.read.len() as int];
    ||| {
        &&& asked == polls(from, k, times).asked.push((from.after(k), cancelled))
        &&& read == polls(from, k, times).read
    }
    ||| {
        &&& cancelled
        &&& k > 0
        &&& batch_over(k as int, before.start, now)
        &&& asked == before.asked.push((from.after((k - 1) as nat), false)).push(
            (from.after(k), true),
        )
        &&& read == before.read.push((from.after(k), now))
    }
}

/// Later times change nothing.
proof fn lemma_polls_prefix(from: Cursor, k: nat, times: Seq<u64>, longer: Seq<u64>)
    requires
        polls(from, k, times).read.len() <= times.len() <= longer.len(),
        forall|i: int| 0 <= i < times.len() ==> #[trigger] times[i] == longer[i],
    ensures
        polls(from, k, times) == polls(from, k, longer),
        polls(from, k, times).read.len() > 0,
    decreases k,
{
    if k > 0 {
        lemma_polls_prefix(from, (k - 1) as nat, times, longer);
    }
}

/// A replay asks before every event whether to go on, and was told so each time; what it was
/// told last says whether it was cancelled.
pub proof fn law_asked_before_every_event(
    from: Cursor,
    k: nat,
    cancelled: bool,
    asked: Seq<(Cursor, bool)>,
    read: Seq<(Cursor, u64)>,
)
    requires
        polled(from, k, cancelled, asked, read),
    ensures
        asked.len() > k,
        asked.last() == (from.after(k), cancelled),
        forall|i: int| 0 <= i < asked.len() - 1 ==> !(#[trigger] asked[i]).1,
        forall|i: nat| i < k ==> asked.contains((#[trigger] from.after(i), false)),
{
    let times = times_of(read);
    if asked == polls(from, k, times).asked.push((from.after(k), cancelled)) {
        lemma_polls_asked(from, k, times);
        let told = polls(from, k, times).asked;
        assert forall|i: nat| i < k implies asked.contains((#[trigger] from.after(i), false)) by {
            let at = choose|at: int| 0 <= at < told.len() && told[at] == (from.after(i), false);
            assert(told.contains((from.after(i), false)));
            assert(asked[at] == told[at]);
        }
    } else {
        let told = polls(from, (k - 1) as nat, times).asked;
        lemma_polls_asked(from, (k - 1) as nat, times);
        assert forall|i: nat| i < k implies asked.contains((#[trigger] from.after(i), false)) by {
            if i == k - 1 {
                assert(asked[told.len() as int] == (from.after(i), false));
            } else {
                let at = choose|at: int| 0 <= at < told.len() && told[at] == (from.after(i), false);
                assert(told.contains((from.after(i), false)));
                assert(asked[at] == told[at]);
            }
        }
    }
}

proof fn lemma_polls_asked(from: Cursor, k: nat, times: Seq<u64>)
    ensures
        polls(from, k, times).asked.len() >= k,
        forall|i: int|
            0 <= i < polls(from, k, times).asked.len() ==> !(#[trigger] polls(
                from,
                k,
                times,
            ).asked[i]).1,
        forall|i: nat|
            i < k ==> polls(from, k, times).asked.contains((#[trigger] from.after(i), false)),
    decreases k,
{
    if k > 0 {
        let before = polls(from, (k - 1) as nat, times).asked;
        let told = polls(from, k, times).asked;
        lemma_polls_asked(from, (k - 1) as nat, times);
        assert forall|i: int| 0 <= i < before.len() implies told[i] == before[i] by {}
        assert forall|i: nat| i < k implies told.contains((#[trigger] from.after(i), false)) by {
            if i == k - 1 {
                assert(told[before.len() as int] == (from.after(i), false));
            } else {
                assert(before.contains((from.after(i), false)));
                let at = choose|at: int|
                    0 <= at < before.len() && before[at] == (from.after(i), false);
                assert(told[at] == before[at]);
            }
        }
    }
}

impl ReplaySource {
    fn nearest_checkpoint(&self, target_ts: u64) -> (r: Option<usize>)
        ensures
            r == nearest(self.log.frames@, self.log.frames.len() as int, target_ts),
            r is Some ==> r->0 < self.log.frames.len(),
    {
        let mut end: usize = self.log.frames.len();
        while end > 0
            invariant
                end <= self.log.frames.len(),
                nearest(self.log.frames@, self.log.frames.len() as int, target_ts) == nearest(
                    self.log.frames@,
                    end as int,
                    target_ts,
                ),
            decreases end,
        {
            let frame: &Frame = &self.log.frames[end - 1];
            if frame.kind == FrameKind::Checkpoint && frame.first_ts <= target_ts {
                return Some(end - 1);
            }
            end -= 1;
        }
        None
    }

    /// Number of checkpoint frames.
    pub fn checkpoint_count(&self) -> (r: usize)
        ensures
            r == checkpoints(self.log().frames@, self.log().frames.len() as int),
    {
        let mut n: usize = 0;
        let mut i: usize = 0;
        while i < self.log.frames.len()
            invariant
                i <= self.log.frames.len(),
                n <= i,
                n == checkpoints(self.log.frames@, i as int),
            decreases self.log.frames.len() - i,
        {
            if self.log.frames[i].kind == FrameKind::Checkpoint {
                n += 1;
            }
            i += 1;
        }
        n
    }

    /// Hands the checkpoint's sections to `restore`, and puts the cursor right after the
    /// checkpoint; with no checkpoint, at the beginning of the log. On a failure the cursor
    /// stays where it was.
    fn restore_at<R: FnOnce(Option<RestoreSet<'_>>) -> Result<()>>(
        &mut self,
        at: Option<usize>,
        restore: R,
    ) -> (r: Result<()>)
        requires
            old(self).wf(),
            at is Some ==> at->0 < old(self).log().frames.len(),
            forall|set: Option<RestoreSet<'_>>| #[trigger] call_requires(restore, (set,)),
        ensures
            final(self).wf(),
            final(self).log() == old(self).log(),
            match restore_fault(old(self).log(), at) {
                Some(fault) => is_fault(r, fault) && final(self)@ == old(self)@,
                None => {
                    &&& exists|set: Option<RestoreSet<'_>>|
                        hands_over(old(self).log(), at, set) && #[trigger] call_ensures(
                            restore,
                            (set,),
                            r,
                        )
                    &&& final(self)@ == if r is Ok {
                        restored(old(self).log(), at)
                    } else {
                        old(self)@
                    }
                },
            },
    {
        let answer: Result<()>;
        let mut ordinal: u64 = 0;
        match at {
            None => {
                answer = restore(None);
            },
            Some(frame) => {
                let sections = match &self.log.frames[frame].sections {
                    Ok(sections) => sections,
                    Err(message) => return Err(ReplayError::Log(message.clone())),
                };
                let set: RestoreSet<'_> = match restore_sections(sections, &self.log.layout) {
                    Ok(set) => set,
                    Err(error) => return Err(error),
                };
                proof {
                    law_steps_split(
                        self.log.frames@,
                        0,
                        frame as int,
                        self.log.frames.len() as int,
                    );
                }
                ordinal = match events_before_frame(&self.log.frames, frame) {
                    Ok(n) => n,
                    Err(error) => return Err(error),
                };
                assert(hands_over(self.log, at, Some(set)));
                answer = restore(Some(set));
            },
        }
        if answer.is_err() {
            return answer;
        }
        match at {
            None => {
                self.applied_seq = 0;
                self.applied_ts = 0;
                self.reset_cursor(0, 0);
            },
            Some(frame) => {
                proof {
                    law_steps_split(
                        self.log.frames@,
                        frame as int,
                        frame + 1,
                        self.log.frames.len() as int,
                    );
                }
                self.applied_seq = self.log.frames[frame].last_seq;
                self.applied_ts = self.log.frames[frame].last_ts;
                self.reset_cursor(frame + 1, ordinal);
            },
        }
        answer
    }

    /// Puts the cursor at the beginning of a frame.
    fn reset_cursor(&mut self, frame: usize, ordinal: u64)
        requires
            frame <= old(self).log.frames.len(),
            ordinal + steps_from(old(self).log.frames@, frame as int).len() <= u64::MAX,
            countable(old(self).log),
        ensures
            final(self).wf(),
            final(self).log == old(self).log,
            final(self)@ == (Cursor {
                remaining: steps_from(old(self).log.frames@, frame as int),
                ordinal: ordinal as nat,
                applied_seq: old(self).applied_seq,
                applied_ts: old(self).applied_ts,
            }),
    {
        self.frame = frame;
        self.frame_events = Vec::new();
        self.event = 0;
        self.ordinal = ordinal;
        assert(self@.remaining =~= steps_from(self.log.frames@, frame as int));
    }

    fn seek_report(
        &self,
        target_ts: u64,
        checkpoint: Option<usize>,
        tail_events: u64,
        cancelled: bool,
    ) -> (r: SeekReport)
        ensures
            r == report_of(self@, target_ts, checkpoint, tail_events, cancelled),
    {
        SeekReport {
            target_ts,
            checkpoint_frame: checkpoint,
            replayed_from_start: checkpoint.is_none(),
            tail_events,
            applied_seq: self.applied_seq,
            applied_ts: self.applied_ts,
            event_ordinal: self.ordinal,
            cancelled,
        }
    }

    /// Takes one step towards the target, or ends there, or where it is when it was `cancelled`.
    /// The caller applies the event it is given to the book and the profile.
    pub fn tail_step(
        &mut self,
        target_ts: u64,
        checkpoint: Option<usize>,
        tail_events: u64,
        cancelled: bool,
    ) -> (r: Result<TailStep>)
        requires
            old(self).wf(),
        ensures
            final(self).wf(),
            final(self).log() == old(self).log(),
            stepped(old(self)@, target_ts, checkpoint, tail_events, cancelled, r, final(self)@),
    {
        if cancelled {
            return Ok(TailStep::Ended(self.seek_report(target_ts, checkpoint, tail_events, true)));
        }
        let next: Option<CanonicalEvent> = match self.peek_event() {
            Ok(next) => next,
            Err(error) => return Err(error),
        };
        if let Some(event) = next {
            if event.ts.0 <= target_ts {
                let _ = self.apply_next();
                return Ok(TailStep::Applied(event));
            }
        }
        Ok(TailStep::Ended(self.seek_report(target_ts, checkpoint, tail_events, false)))
    }

    /// Replays the events up to the target, unless `cancel` says to stop. It is asked before
    /// every event, and again after each full batch.
    fn replay_tail<F: Fn() -> bool, C: Fn() -> u64>(
        &mut self,
        target_ts: u64,
        checkpoint: Option<usize>,
        cancel: &mut Probe<bool, F>,
        clock: &mut Probe<u64, C>,
        applied: &mut Vec<CanonicalEvent>,
    ) -> (r: Result<SeekReport>)
        requires
            old(self).wf(),
            call_requires(old(cancel).question(), ()),
            call_requires(old(clock).question(), ()),
        ensures
            final(self).wf(),
            final(self).log() == old(self).log(),
            final(cancel).follows(*old(cancel)),
            final(clock).follows(*old(clock)),
            exists|k: nat|
                {
                    &&& #[trigger] replayed(
                        old(self)@,
                        k,
                        target_ts,
                        checkpoint,
                        r,
                        final(self)@,
                    )
                    &&& final(applied)@ == old(applied)@ + taken(old(self)@.remaining, k)
                    &&& polled(
                        old(self)@,
                        k,
                        was_cancelled(r),
                        final(cancel).since(*old(cancel)),
                        final(clock).since(*old(clock)),
                    )
                },
    {
        let ghost c = self@;
        let ghost kept = applied@;
        let ghost first = *cancel;
        let ghost began = *clock;
        let mut tail_events: u64 = 0;
        let mut batch_start: u64 = clock.ask(&*self);
        proof {
            lemma_unasked(first);
            lemma_unasked(began);
            lemma_asked(began, began, *clock, c, batch_start);
            assert(c.remaining.skip(0) =~= c.remaining);
            assert(c.after(0) =~= c);
            assert(taken(c.remaining, 0) =~= Seq::<CanonicalEvent>::empty());
            assert(clock.since(began) =~= seq![(c, batch_start)]);
        }
        loop
            invariant
                self.wf(),
                self.log == old(self).log,
                c == old(self)@,
                c.ordinal + c.remaining.len() <= u64::MAX,
                first == *old(cancel),
                began == *old(clock),
                call_requires(first.question(), ()),
                call_requires(began.question(), ()),
                cancel.follows(first),
                clock.follows(began),
                leads_with(c.remaining, tail_events as nat),
                forall|i: int|
                    0 <= i < tail_events ==> (#[trigger] c.remaining[i])->Ok_0.ts.0 <= target_ts,
                self@ == c.after(tail_events as nat),
                applied@ == kept + taken(c.remaining, tail_events as nat),
                kept == old(applied)@,
                polls(c, tail_events as nat, times_of(clock.since(began))) == (Polls {
                    asked: cancel.since(first),
                    read: clock.since(began),
                    start: batch_start,
                }),
            decreases c.remaining.len() - tail_events,
        {
            let ghost k = tail_events as nat;
            let ghost here = self@;
            let ghost asked = *cancel;
            let ghost read = *clock;
            proof {
                lemma_due_is(c.remaining, target_ts, k);
                assert(k < c.remaining.len() ==> here.remaining[0] == c.remaining[k as int]);
            }
            let cancelled: bool = cancel.ask(&*self);
            proof {
                lemma_asked(first, asked, *cancel, here, cancelled);
            }
            let event: CanonicalEvent = match self.tail_step(
                target_ts,
                checkpoint,
                tail_events,
                cancelled,
            ) {
                Ok(TailStep::Applied(event)) => event,
                Ok(TailStep::Ended(report)) => {
                    assert(replayed(c, k, target_ts, checkpoint, Ok(report), self@));
                    return Ok(report);
                },
                Err(error) => {
                    assert(replayed(c, k, target_ts, checkpoint, Err(error), self@));
                    return Err(error);
                },
            };
            applied.push(event);
            proof {
                law_after_after(c, k, 1);
                assert(taken(c.remaining, k + 1) =~= taken(c.remaining, k).push(event));
            }
            tail_events += 1;
            let now: u64 = clock.ask(&*self);
            proof {
                lemma_asked(began, read, *clock, self@, now);
                lemma_polls_prefix(
                    c,
                    k,
                    times_of(read.since(began)),
                    times_of(clock.since(began)),
                );
            }
            if ends_batch(tail_events, batch_start, now) {
                let ghost asked = *cancel;
                let ghost read_now = *clock;
                let cancelled: bool = cancel.ask(&*self);
                proof {
                    lemma_asked(first, asked, *cancel, self@, cancelled);
                }
                if cancelled {
                    let report: SeekReport = self.seek_report(
                        target_ts,
                        checkpoint,
                        tail_events,
                        true,
                    );
                    proof {
                        lemma_due_is(c.remaining, target_ts, k + 1);
                    }
                    assert(replayed(c, k + 1, target_ts, checkpoint, Ok(report), self@));
                    return Ok(report);
                }
                batch_start = clock.ask(&*self);
                proof {
                    lemma_asked(began, read_now, *clock, self@, batch_start);
                    lemma_polls_prefix(
                        c,
                        k,
                        times_of(read.since(began)),
                        times_of(clock.since(began)),
                    );
                }
            }
        }
    }

    /// Restores the nearest checkpoint at or before `target_ts`, then replays the events up to
    /// the target. `restore` is handed the checkpoint's sections, or none where the replay
    /// starts at the beginning of the log; the replayed events are appended to `applied`.
    /// `cancel` is asked before every event whether to stop, and again after each full batch.
    pub fn seek<
        R: FnOnce(Option<RestoreSet<'_>>) -> Result<()>,
        F: Fn() -> bool,
        C: Fn() -> u64,
    >(
        &mut self,
        target_ts: u64,
        restore: R,
        cancel: &mut Probe<bool, F>,
        clock: &mut Probe<u64, C>,
        applied: &mut Vec<CanonicalEvent>,
    ) -> (r: Result<SeekReport>)
        requires
            old(self).wf(),
            forall|set: Option<RestoreSet<'_>>| #[trigger] call_requires(restore, (set,)),
            call_requires(old(cancel).question(), ()),
            call_requires(old(clock).question(), ()),
        ensures
            final(self).wf(),
            final(self).log() == old(self).log(),
            final(cancel).follows(*old(cancel)),
            final(clock).follows(*old(clock)),
            ({
                let log = old(self).log();
                let at = nearest(log.frames@, log.frames.len() as int, target_ts);
                match restore_fault(log, at) {
                    Some(fault) => {
                        &&& is_fault(r, fault)
                        &&& final(self)@ == old(self)@
                        &&& final(applied)@ == old(applied)@
                        &&& *final(cancel) == *old(cancel)
                        &&& *final(clock) == *old(clock)
                    },
                    None => exists|set: Option<RestoreSet<'_>>, answer: Result<()>|
                        {
                            &&& hands_over(log, at, set)
                            &&& #[trigger] call_ensures(restore, (set,), answer)
                            &&& match answer {
                                Err(error) => {
                                    &&& r == Err::<SeekReport, ReplayError>(error)
                                    &&& final(self)@ == old(self)@
                                    &&& final(applied)@ == old(applied)@
                                    &&& *final(cancel) == *old(cancel)
                                    &&& *final(clock) == *old(clock)
                                },
                                Ok(_) => exists|k: nat|
                                    {
                                        &&& #[trigger] replayed(
                                            restored(log, at),
                                            k,
                                            target_ts,
                                            at,
                                            r,
                                            final(self)@,
                                        )
                                        &&& final(applied)@ == old(applied)@ + taken(
                                            restored(log, at).remaining,
                                            k,
                                        )
                                        &&& polled(
                                            restored(log, at),
                                            k,
                                            was_cancelled(r),
                                            final(cancel).since(*old(cancel)),
                                            final(clock).since(*old(clock)),
                                        )
                                    },
                            }
                        },
                }
            }),
    {
        proof {
            lemma_unasked(*cancel);
            lemma_unasked(*clock);
        }
        let checkpoint: Option<usize> = self.nearest_checkpoint(target_ts);
        match self.restore_at(checkpoint, restore) {
            Err(error) => Err(error),
            Ok(_) => self.replay_tail(target_ts, checkpoint, cancel, clock, applied),
        }
    }

    /// Restores the last checkpoint of the log, for a build that goes on from there; with no
    /// checkpoint, the beginning of the log.
    pub fn prepare_prior_build<R: FnOnce(Option<RestoreSet<'_>>) -> Result<()>>(
        &mut self,
        restore: R,
    ) -> (r: Result<()>)
        requires
            old(self).wf(),
            forall|set: Option<RestoreSet<'_>>| #[trigger] call_requires(restore, (set,)),
        ensures
            final(self).wf(),
            final(self).log() == old(self).log(),
            ({
                let log = old(self).log();
                let at = nearest(log.frames@, log.frames.len() as int, u64::MAX);
                match restore_fault(log, at) {
                    Some(fault) => is_fault(r, fault) && final(self)@ == old(self)@,
                    None => {
                        &&& exists|set: Option<RestoreSet<'_>>|
                            hands_over(log, at, set) && #[trigger] call_ensures(restore, (set,), r)
                        &&& final(self)@ == if r is Ok {
                            restored(log, at)
                        } else {
                            old(self)@
                        }
                    },
                }
            }),
    {
        let checkpoint: Option<usize> = self.nearest_checkpoint(u64::MAX);
        self.restore_at(checkpoint, restore)
    }
}

/// Reading an event without applying it moves the cursor past it and changes nothing else; applying
/// it takes over its time, and its sequence where it has one; looking ahead moves nothing. At the end
/// there is none.
pub proof fn law_one_event(
    peeked: &mut ReplaySource,
    read: &mut ReplaySource,
    applied: &mut ReplaySource,
    p: Result<Option<CanonicalEvent>>,
    r: Result<Option<CanonicalEvent>>,
    a: Result<Option<CanonicalEvent>>,
    event: CanonicalEvent,
)
    requires
        old(peeked).wf(),
        old(read).wf(),
        old(applied).wf(),
        old(peeked)@ == old(read)@,
        old(read)@ == old(applied)@,
        old(read)@.remaining.len() > 0,
        old(read)@.remaining[0] == Ok::<CanonicalEvent, Seq<char>>(event),
        call_ensures(ReplaySource::peek_event, (peeked,), p),
        call_ensures(ReplaySource::next_event, (read,), r),
        call_ensures(ReplaySource::apply_next, (applied,), a),
    ensures
        p == Ok::<Option<CanonicalEvent>, ReplayError>(Some(event)),
        r == Ok::<Option<CanonicalEvent>, ReplayError>(Some(event)),
        a == Ok::<Option<CanonicalEvent>, ReplayError>(Some(event)),
        final(peeked)@ == old(peeked)@,
        final(read)@.remaining == old(read)@.remaining.skip(1),
        final(read)@.ordinal == old(read)@.ordinal + 1,
        final(read)@.applied_seq == old(read)@.applied_seq,
        final(read)@.applied_ts == old(read)@.applied_ts,
        final(applied)@.remaining == old(applied)@.remaining.skip(1),
        final(applied)@.ordinal == old(applied)@.ordinal + 1,
        final(applied)@.applied_ts == event.ts.0,
        event.seq.0 != 0 ==> final(applied)@.applied_seq == event.seq.0,
        event.seq.0 == 0 ==> final(applied)@.applied_seq == old(applied)@.applied_seq,
{
    lemma_after_one(old(applied)@);
}

/// A frame that does not decode is reported once, with the reader's message, and passed without
/// being counted; at the end of the log there is nothing, however often one asks.
pub proof fn law_fault_passed(
    applied: &mut ReplaySource,
    a: Result<Option<CanonicalEvent>>,
)
    requires
        old(applied).wf(),
        call_ensures(ReplaySource::apply_next, (applied,), a),
    ensures
        old(applied)@.remaining.len() == 0 ==> a == Ok::<Option<CanonicalEvent>, ReplayError>(None)
            && final(applied)@ == old(applied)@,
        old(applied)@.remaining.len() > 0 && old(applied)@.remaining[0] is Err ==> {
            &&& a matches Err(ReplayError::Log(text)) && text@ == old(
                applied,
            )@.remaining[0]->Err_0
            &&& final(applied)@.remaining == old(applied)@.remaining.skip(1)
            &&& final(applied)@.ordinal == old(applied)@.ordinal
            &&& final(applied)@.applied_seq == old(applied)@.applied_seq
            &&& final(applied)@.applied_ts == old(applied)@.applied_ts
        },
{
}

/// A log that was just opened lies ahead as a whole, and nothing of it was applied.
pub proof fn law_opened(
    log: FrameLog,
    source: ReplaySource,
    seq: u64,
    ts: u64,
    ordinal: u64,
    frames: usize,
)
    requires
        countable(log),
        call_ensures(ReplaySource::open, (log,), source),
        call_ensures(ReplaySource::applied_seq, (&source,), seq),
        call_ensures(ReplaySource::applied_ts, (&source,), ts),
        call_ensures(ReplaySource::event_ordinal, (&source,), ordinal),
        call_ensures(ReplaySource::frame_count, (&source,), frames),
    ensures
        source@.remaining == steps_from(log.frames@, 0),
        seq == 0 && ts == 0 && ordinal == 0,
        frames == log.frames.len(),
        source.log() == log,
{
}

/// The checkpoint that a seek starts from is the last frame that is one and was taken no later than
/// the target; where there is none, there is no such frame.
pub proof fn law_nearest_checkpoint(frames: Seq<Frame>, end: int, target_ts: u64, i: int)
    requires
        0 <= end <= frames.len() <= usize::MAX,
        0 <= i < end,
    ensures
        ({
            let at = nearest(frames, end, target_ts);
            let fits = frames[i].kind == FrameKind::Checkpoint && frames[i].first_ts <= target_ts;
            &&& at is None ==> !fits
            &&& at is Some ==> at->0 < end && frames[at->0 as int].kind == FrameKind::Checkpoint
                && frames[at->0 as int].first_ts <= target_ts
            &&& at is Some && fits ==> i <= at->0
        }),
    decreases end,
{
    reveal_with_fuel(nearest, 2);
    if !serves(frames[end - 1], target_ts) && end > 1 {
        if i < end - 1 {
            law_nearest_checkpoint(frames, end - 1, target_ts, i);
        } else {
            law_nearest_checkpoint(frames, end - 1, target_ts, 0);
        }
    }
}

/// The checkpoints of a log are counted by frames.
pub proof fn law_checkpoints_counted(source: &ReplaySource, r: usize)
    requires
        source.wf(),
        call_ensures(ReplaySource::checkpoint_count, (source,), r),
    ensures
        r == source.log().frames@.filter(|f: Frame| f.kind == FrameKind::Checkpoint).len(),
{
    let frames = source.log().frames@;
    lemma_checkpoints(frames, frames.len() as int);
    assert(frames.take(frames.len() as int) =~= frames);
}

proof fn lemma_checkpoints(frames: Seq<Frame>, end: int)
    requires
        0 <= end <= frames.len(),
    ensures
        checkpoints(frames, end) == frames.take(end).filter(
            |f: Frame| f.kind == FrameKind::Checkpoint,
        ).len(),
    decreases end,
{
    reveal(Seq::filter);
    if end > 0 {
        lemma_checkpoints(frames, end - 1);
        assert(frames.take(end).drop_last() =~= frames.take(end - 1));
        assert(frames.take(end).last() == frames[end - 1]);
    }
}

/// What a stretch of forward replay reports: how many events it applied, no more than asked for,
/// where the last of them left it, and whether the log ends there. It stopped short of that only when
/// it had applied what was asked for, or its time was spent.
pub proof fn law_forward_stretch(
    from: Cursor,
    k: nat,
    max_events: usize,
    budget_ns: u64,
    readings: Seq<(Cursor, u64)>,
    r: Result<ForwardProgress>,
    at: Cursor,
)
    requires
        forwarded(from, k, r, at),
        timed(from, k, max_events, budget_ns, readings),
        from.remaining.len() <= u64::MAX,
        r is Ok,
    ensures
        r->Ok_0.events == k,
        k <= max_events,
        r->Ok_0.eof <==> at.remaining.len() == 0,
        at.remaining == from.remaining.skip(k as int),
        at.ordinal == from.ordinal + k,
        k > 0 ==> r->Ok_0.applied_ts == from.remaining[k - 1]->Ok_0.ts.0,
        k == 0 ==> r->Ok_0.applied_ts == from.applied_ts && r->Ok_0.applied_seq
            == from.applied_seq,
        k > 0 && from.remaining[k - 1]->Ok_0.seq.0 != 0 ==> r->Ok_0.applied_seq
            == from.remaining[k - 1]->Ok_0.seq.0,
        !r->Ok_0.eof && k < max_events ==> readings[k as int + 1].1 - readings[0].1 >= budget_ns
            || budget_ns == 0,
        forall|i: int|
            0 < i <= k ==> (#[trigger] readings[i]).1 < readings[0].1 + budget_ns,
{
    if k > 0 {
        assert(taken(from.remaining, k).last() == from.remaining[k - 1]->Ok_0);
    } else {
        assert(taken(from.remaining, 0) =~= Seq::<CanonicalEvent>::empty());
    }
    assert forall|i: int| 0 < i <= k implies (#[trigger] readings[i]).1 < readings[0].1
        + budget_ns by {
        assert(elapsed(readings[0].1, readings[(i - 1) + 1].1) < budget_ns);
    }
}

/// What a seek reports: its target, the checkpoint it started from, and where it ended. Every event
/// that it replayed is at or before the target; when it was not cancelled, the next one is behind it.
pub proof fn law_seek_report(
    from: Cursor,
    k: nat,
    target_ts: u64,
    checkpoint: Option<usize>,
    r: Result<SeekReport>,
    at: Cursor,
)
    requires
        replayed(from, k, target_ts, checkpoint, r, at),
        from.ordinal + from.remaining.len() <= u64::MAX,
        r is Ok,
    ensures
        r->Ok_0.target_ts == target_ts,
        r->Ok_0.checkpoint_frame == checkpoint,
        r->Ok_0.replayed_from_start <==> checkpoint is None,
        r->Ok_0.tail_events == k,
        r->Ok_0.applied_seq == at.applied_seq,
        r->Ok_0.applied_ts == at.applied_ts,
        r->Ok_0.event_ordinal == from.ordinal + k,
        at.remaining == from.remaining.skip(k as int),
        forall|i: int|
            0 <= i < k ==> (#[trigger] from.remaining[i]) is Ok && from.remaining[i]->Ok_0.ts.0
                <= target_ts,
        !r->Ok_0.cancelled && at.remaining.len() > 0 ==> at.remaining[0] is Ok
            && at.remaining[0]->Ok_0.ts.0 > target_ts,
{
    lemma_due(from.remaining, target_ts);
}

/// A batch is over after five milliseconds, and after every two hundred and fifty-six events.
pub proof fn law_batches(tail_events: int, start: u64, now: u64)
    requires
        tail_events > 0,
    ensures
        batch_over(tail_events, start, now) <==> now >= start + 5_000_000 || tail_events % 256 == 0,
{
}

/// A seek lands on its target: it starts at the last checkpoint that is not behind the target, or
/// at the beginning, and applies the events from there on that are due, in order, and no other.
pub proof fn law_seek_lands<
    R: FnOnce(Option<RestoreSet<'_>>) -> Result<()>,
    F: Fn() -> bool,
    C: Fn() -> u64,
>(
    source: &mut ReplaySource,
    target_ts: u64,
    restore: R,
    cancel: &mut Probe<bool, F>,
    clock: &mut Probe<u64, C>,
    applied: &mut Vec<CanonicalEvent>,
    r: Result<SeekReport>,
    i: int,
)
    requires
        old(source).wf(),
        call_ensures(
            ReplaySource::seek::<R, F, C>,
            (source, target_ts, restore, cancel, clock, applied),
            r,
        ),
        r is Ok,
    ensures
        ({
            let frames = old(source).log().frames@;
            let at = r->Ok_0.checkpoint_frame;
            let begin: int = if at is Some {
                at->0 + 1
            } else {
                0
            };
            let steps = steps_from(frames, begin);
            let n = r->Ok_0.tail_events;
            let fits = 0 <= i < frames.len() && frames[i].kind == FrameKind::Checkpoint
                && frames[i].first_ts <= target_ts;
            let kept = old(applied)@.len();
            &&& at is Some ==> at->0 < frames.len() && frames[at->0 as int].kind
                == FrameKind::Checkpoint && frames[at->0 as int].first_ts <= target_ts
            &&& fits ==> at is Some && i <= at->0
            &&& n <= steps.len()
            &&& final(source)@.remaining == steps.skip(n as int)
            &&& at is Some ==> final(source)@.ordinal == steps_between(
                frames,
                0,
                at->0 as int,
            ).len() + n
            &&& at is None ==> final(source)@.ordinal == n
            &&& n == 0 && at is Some ==> r->Ok_0.applied_ts == frames[at->0 as int].last_ts
                && r->Ok_0.applied_seq == frames[at->0 as int].last_seq
            &&& n == 0 && at is None ==> r->Ok_0.applied_ts == 0 && r->Ok_0.applied_seq == 0
            &&& n > 0 ==> r->Ok_0.applied_ts == steps[n - 1]->Ok_0.ts.0
            &&& final(applied)@.len() == kept + n
            &&& final(applied)@.take(kept as int) == old(applied)@
            &&& 0 <= i < n ==> steps[i] is Ok && steps[i]->Ok_0.ts.0 <= target_ts
                && final(applied)@[kept + i] == steps[i]->Ok_0
            &&& !r->Ok_0.cancelled && n < steps.len() ==> steps[n as int] is Ok
                && steps[n as int]->Ok_0.ts.0 > target_ts
        }),
{
    let log = old(source).log();
    let frames = log.frames@;
    let found = nearest(frames, frames.len() as int, target_ts);
    if 0 <= i < frames.len() {
        law_nearest_checkpoint(frames, frames.len() as int, target_ts, i);
    }
    assert(log.frames.len() <= usize::MAX);
    if frames.len() > 0 {
        law_nearest_checkpoint(frames, frames.len() as int, target_ts, 0);
    }
    let from = restored(log, found);
    let (k, set, answer) = choose|k: nat, set: Option<RestoreSet<'_>>, answer: Result<()>|
        {
            &&& hands_over(log, found, set)
            &&& #[trigger] call_ensures(restore, (set,), answer)
            &&& answer is Ok
            &&& #[trigger] replayed(from, k, target_ts, found, r, final(source)@)
            &&& final(applied)@ == old(applied)@ + taken(from.remaining, k)
        };
    if found is Some {
        let frame = found->0 as int;
        law_steps_split(frames, 0, frame, frames.len() as int);
        law_steps_split(frames, frame, frame + 1, frames.len() as int);
    }
    law_seek_report(from, k, target_ts, found, r, final(source)@);
    lemma_due(from.remaining, target_ts);
    assert(final(applied)@.take(old(applied)@.len() as int) =~= old(applied)@);
    if k == 0 {
        assert(taken(from.remaining, 0) =~= Seq::<CanonicalEvent>::empty());
    }
}

} // verus!
