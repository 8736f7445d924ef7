//! The scrub burst: seeks issued at a steady pace, and the answers to them.

use crate::text::{concat2, copied, decimal, join, joined, push_decimal, text_of, texts_of};
use vstd::prelude::*;

verus! {

/// The generation of the first seek.
pub const FIRST_GEN: u64 = 2;

/// How long the last seek may stay unanswered.
pub const SETTLE_TIMEOUT_NS: u64 = 30_000_000_000;

/// How long no answer at all may come.
pub const WEDGE_TIMEOUT_NS: u64 = 10_000_000_000;

/// Whether more than `limit` passed between two times.
pub open spec fn passed(since: u64, now: u64, limit: u64) -> bool {
    now - since > limit
}

fn has_passed(since: u64, now: u64, limit: u64) -> (r: bool)
    ensures
        r == passed(since, now, limit),
{
    now.saturating_sub(since) > limit
}

/// Whether the numbers grow from one to the next.
pub open spec fn growing(s: Seq<u64>) -> bool {
    forall|i: int, j: int| 0 <= i < j < s.len() ==> #[trigger] s[i] < #[trigger] s[j]
}

/// A burst under way. Times are in nanoseconds.
#[derive(Debug)]
pub struct Burst {
    pub seeks: u32,
    pub started: u64,
    /// The time between two seeks.
    pub interval: u64,
    pub issued: u32,
    /// When the next seek is due.
    pub next_issue: u64,
    /// The generations that answered.
    pub answered: Vec<u64>,
    /// When the last answer came.
    pub last_progress: u64,
    /// Whether the engine got stuck.
    pub wedge: bool,
}

impl Burst {
    /// The generation that answered last, or zero.
    pub open spec fn newest(self) -> u64 {
        if self.answered.len() == 0 {
            0
        } else {
            self.answered@.last()
        }
    }

    /// The generation of the last seek.
    pub open spec fn last_issued(self) -> int {
        FIRST_GEN + self.seeks - 1
    }

    /// Whether the answers grow, none beyond the seeks, and the schedule can be counted.
    pub open spec fn wf(self) -> bool {
        &&& self.seeks > 0
        &&& self.issued <= self.seeks
        &&& self.started + self.interval * self.seeks <= u64::MAX
        &&& growing(self.answered@)
        &&& forall|i: int| 0 <= i < self.answered.len() ==> #[trigger] self.answered@[i] > 0
    }

    /// A burst that begins now: its seeks are spread evenly over its length.
    pub fn new(seeks: u32, burst_ns: u64, now: u64) -> (r: Burst)
        requires
            seeks > 0,
            now + burst_ns <= u64::MAX,
        ensures
            r.wf(),
            r.seeks == seeks,
            r.started == now,
            r.interval == burst_ns / seeks as u64,
            r.issued == 0,
            r.next_issue == now,
            r.answered.len() == 0,
            r.last_progress == now,
            !r.wedge,
    {
        let interval: u64 = burst_ns / seeks as u64;
        assert(interval * seeks <= burst_ns) by (nonlinear_arith)
            requires
                interval == burst_ns / seeks as u64,
                seeks > 0,
        ;
        Burst {
            seeks,
            started: now,
            interval,
            issued: 0,
            next_issue: now,
            answered: Vec::new(),
            last_progress: now,
            wedge: false,
        }
    }

    /// The generation that answered last, or zero.
    pub fn last_answered(&self) -> (r: u64)
        ensures
            r == self.newest(),
    {
        if self.answered.len() == 0 {
            0
        } else {
            self.answered[self.answered.len() - 1]
        }
    }

    /// The seek that is due: its place in the sweep and its generation.
    pub fn due(&self, now: u64) -> (r: Option<(u32, u64)>)
        requires
            self.wf(),
        ensures
            r == (if self.issued < self.seeks && now >= self.next_issue {
                Some((self.issued, (FIRST_GEN + self.issued) as u64))
            } else {
                None
            }),
    {
        if self.issued < self.seeks && now >= self.next_issue {
            Some((self.issued, FIRST_GEN + self.issued as u64))
        } else {
            None
        }
    }

    /// Takes in that the seek that was due was issued. One that comes late delays the next: they
    /// are never issued at once.
    pub fn on_issued(&mut self, now: u64)
        requires
            old(self).wf(),
            old(self).issued < old(self).seeks,
        ensures
            final(self).wf(),
            final(self).seeks == old(self).seeks,
            final(self).started == old(self).started,
            final(self).interval == old(self).interval,
            final(self).answered == old(self).answered,
            final(self).last_progress == old(self).last_progress,
            final(self).wedge == old(self).wedge,
            final(self).issued == old(self).issued + 1,
            final(self).next_issue == crate::num::greatest(
                old(self).started + old(self).interval * (old(self).issued + 1),
                now as int,
            ),
    {
        self.issued += 1;
        let (interval, issued, seeks, started) = (
            self.interval,
            self.issued,
            self.seeks,
            self.started,
        );
        assert(0 <= interval * issued <= interval * seeks) by (nonlinear_arith)
            requires
                issued <= seeks,
                interval >= 0,
        ;
        let planned: u64 = started + interval * issued as u64;
        self.next_issue = if planned < now {
            now
        } else {
            planned
        };
    }

    /// Whether the state answers a newer seek; it is recorded.
    fn record(&mut self, generation: u64, now: u64) -> (r: bool)
        requires
            old(self).wf(),
        ensures
            final(self).wf(),
            final(self).seeks == old(self).seeks,
            final(self).started == old(self).started,
            final(self).interval == old(self).interval,
            final(self).issued == old(self).issued,
            final(self).next_issue == old(self).next_issue,
            final(self).wedge == old(self).wedge,
            r == (generation > old(self).newest()),
            r ==> final(self).answered@ == old(self).answered@.push(generation)
                && final(self).last_progress == now,
            !r ==> final(self).answered@ == old(self).answered@ && final(self).last_progress == old(
                self,
            ).last_progress,
    {
        if generation > self.last_answered() {
            self.answered.push(generation);
            self.last_progress = now;
            true
        } else {
            false
        }
    }

    /// Looks at the published generation while seeks are being issued. The engine is stuck when
    /// it answered nothing at all for too long.
    pub fn poll_issuing(&mut self, generation: u64, now: u64)
        requires
            old(self).wf(),
        ensures
            final(self).wf(),
            final(self).seeks == old(self).seeks,
            final(self).started == old(self).started,
            final(self).interval == old(self).interval,
            final(self).issued == old(self).issued,
            final(self).next_issue == old(self).next_issue,
            ({
                let newer = generation > old(self).newest();
                &&& final(self).answered@ == (if newer {
                    old(self).answered@.push(generation)
                } else {
                    old(self).answered@
                })
                &&& final(self).last_progress == (if newer {
                    now
                } else {
                    old(self).last_progress
                })
                &&& final(self).wedge == (old(self).wedge || (!newer && old(self).newest() == 0
                    && old(self).issued > 0 && passed(
                    old(self).last_progress,
                    now,
                    WEDGE_TIMEOUT_NS,
                )))
            }),
    {
        if !self.record(generation, now) {
            if self.last_answered() == 0 && self.issued > 0 && has_passed(
                self.last_progress,
                now,
                WEDGE_TIMEOUT_NS,
            ) {
                self.wedge = true;
            }
        }
    }

    /// Whether the last answer is still awaited.
    pub fn settling(&self) -> (r: bool)
        requires
            self.wf(),
        ensures
            r == (!self.wedge && self.newest() < self.last_issued()),
    {
        !self.wedge && self.last_answered() < FIRST_GEN + self.seeks as u64 - 1
    }

    /// Looks at the published generation once every seek was issued. The engine is stuck when
    /// the last answer, or any, is too long in coming; then the generation is not looked at.
    pub fn poll_settling(&mut self, generation: u64, settle_start: u64, now: u64)
        requires
            old(self).wf(),
        ensures
            final(self).wf(),
            final(self).seeks == old(self).seeks,
            final(self).started == old(self).started,
            final(self).interval == old(self).interval,
            final(self).issued == old(self).issued,
            final(self).next_issue == old(self).next_issue,
            ({
                let stuck = passed(settle_start, now, SETTLE_TIMEOUT_NS) || passed(
                    old(self).last_progress,
                    now,
                    WEDGE_TIMEOUT_NS,
                );
                let newer = !stuck && generation > old(self).newest();
                &&& final(self).wedge == (old(self).wedge || stuck)
                &&& final(self).answered@ == (if newer {
                    old(self).answered@.push(generation)
                } else {
                    old(self).answered@
                })
                &&& final(self).last_progress == (if newer {
                    now
                } else {
                    old(self).last_progress
                })
            }),
    {
        if has_passed(settle_start, now, SETTLE_TIMEOUT_NS) || has_passed(
            self.last_progress,
            now,
            WEDGE_TIMEOUT_NS,
        ) {
            self.wedge = true;
        } else {
            let _newer: bool = self.record(generation, now);
        }
    }

    /// Whether the last seek was the last to be answered.
    pub fn final_answered(&self) -> (r: bool)
        requires
            self.wf(),
        ensures
            r == (self.newest() == self.last_issued()),
    {
        self.last_answered() == FIRST_GEN + self.seeks as u64 - 1
    }

    /// Whether each answer is newer than the one before it.
    pub fn monotonic(&self) -> (r: bool)
        ensures
            r == growing(self.answered@),
    {
        let mut i: usize = 1;
        while i < self.answered.len()
            invariant
                1 <= i,
                forall|j: int, k: int|
                    0 <= j < k < i && k < self.answered.len() ==> #[trigger] self.answered@[j]
                        < #[trigger] self.answered@[k],
            decreases self.answered.len() - i,
        {
            if self.answered[i] <= self.answered[i - 1] {
                assert(!(self.answered@[i - 1] < self.answered@[i as int]));
                return false;
            }
            i += 1;
        }
        true
    }

    /// Whether the burst passed: the engine never got stuck and the last seek was answered.
    pub fn pass(&self) -> (r: bool)
        requires
            self.wf(),
        ensures
            r == (!self.wedge && self.newest() == self.last_issued()),
    {
        !self.wedge && self.final_answered() && self.monotonic()
    }

    /// The notes on a burst. `ratio` is the numeral of how many seeks were answered.
    pub open spec fn note_texts(
        self,
        label: Option<Seq<char>>,
        ratio: Seq<char>,
        executed: u64,
    ) -> Seq<Seq<char>> {
        (match label {
            Some(text) => seq![text],
            None => Seq::empty(),
        }) + seq![
            "latest-wins: answered "@ + decimal(self.answered.len() as nat) + "/"@ + decimal(
                self.issued as nat,
            ) + " (ratio "@ + ratio + "); engine seeks_executed="@ + decimal(executed as nat),
        ] + (if self.wedge {
            seq!["wedge/timeout"@]
        } else {
            Seq::empty()
        })
    }

    /// The notes on a burst.
    pub fn notes(&self, label: &Option<String>, ratio: &str, executed: u64) -> (r: String)
        ensures
            r@ == joined(self.note_texts(text_of(*label), ratio@, executed), "; "@),
    {
        let mut notes: Vec<String> = Vec::new();
        if let Some(text) = copied(label) {
            notes.push(text);
        }
        let mut text: String = "latest-wins: answered ".to_owned();
        push_decimal(&mut text, self.answered.len() as u64);
        text.append("/");
        push_decimal(&mut text, self.issued as u64);
        text.append(" (ratio ");
        text.append(ratio);
        text.append("); engine seeks_executed=");
        push_decimal(&mut text, executed);
        notes.push(text);
        if self.wedge {
            notes.push("wedge/timeout".to_owned());
        }
        assert(texts_of(notes@) =~= self.note_texts(text_of(*label), ratio@, executed));
        join(&notes, "; ")
    }
}

/// The notes on a burst whose engine panicked.
pub fn panic_note(message: &str) -> (r: String)
    ensures
        r@ == "engine panic: "@ + message@,
{
    concat2("engine panic: ", message)
}

/// The seeks of a burst are issued in turn, from generation two on, at an even pace over its length;
/// one that is issued late holds the next one up.
pub proof fn law_seeks_in_turn(
    seeks: u32,
    burst_ns: u64,
    start: u64,
    made: Burst,
    burst: &mut Burst,
    issued: u64,
    now: u64,
    first: Option<(u32, u64)>,
    r: Option<(u32, u64)>,
    s: Option<(u32, u64)>,
)
    requires
        seeks > 0,
        start + burst_ns <= u64::MAX,
        call_ensures(Burst::new, (seeks, burst_ns, start), made),
        call_ensures(Burst::due, (&made, start), first),
        old(burst).wf(),
        old(burst).issued < old(burst).seeks,
        call_ensures(Burst::due, (&*old(burst), issued), r),
        r is Some,
        call_ensures(Burst::on_issued, (burst, issued), ()),
        call_ensures(Burst::due, (&*final(burst), now), s),
    ensures
        first == Some((0u32, 2u64)),
        made.seeks == seeks && made.started == start,
        made.interval * seeks <= burst_ns < (made.interval + 1) * seeks,
        made.answered.len() == 0 && !made.wedge,
        (r->0).1 == (r->0).0 + 2,
        final(burst).issued == (r->0).0 + 1,
        s is Some <==> final(burst).issued < old(burst).seeks && now >= issued && now >= old(
            burst,
        ).started + old(burst).interval * final(burst).issued,
        s is Some ==> (s->0).0 == (r->0).0 + 1 && (s->0).1 == (r->0).1 + 1,
        final(burst).answered@ == old(burst).answered@,
{
    let interval = made.interval as int;
    let n = seeks as int;
    vstd::arithmetic::div_mod::lemma_fundamental_div_mod(burst_ns as int, n);
    vstd::arithmetic::div_mod::lemma_mod_bound(burst_ns as int, n);
    assert(interval * n <= burst_ns < (interval + 1) * n) by (nonlinear_arith)
        requires
            burst_ns == n * interval + burst_ns as int % n,
            0 <= burst_ns as int % n < n,
    ;
}

/// While seeks are issued, a generation counts as an answer when it is newer than the last; the
/// engine got stuck when none ever came and the last sign of life is more than ten seconds old.
pub proof fn law_answers_while_issuing(burst: &mut Burst, generation: u64, now: u64, last: u64)
    requires
        old(burst).wf(),
        !old(burst).wedge,
        call_ensures(Burst::last_answered, (&*old(burst),), last),
        call_ensures(Burst::poll_issuing, (burst, generation, now), ()),
    ensures
        old(burst).answered.len() == 0 ==> last == 0,
        old(burst).answered.len() > 0 ==> last == old(burst).answered@[old(burst).answered.len()
            - 1],
        generation > last ==> final(burst).answered@ == old(burst).answered@.push(generation)
            && final(burst).last_progress == now && !final(burst).wedge,
        generation <= last ==> final(burst).answered@ == old(burst).answered@
            && final(burst).last_progress == old(burst).last_progress,
        generation <= last ==> (final(burst).wedge <==> last == 0 && old(burst).issued > 0 && now
            - old(burst).last_progress > 10_000_000_000),
        final(burst).issued == old(burst).issued,
        final(burst).next_issue == old(burst).next_issue,
{
}

/// Once every seek was issued, an answer may take thirty seconds in all, and ten since the last;
/// after that the engine got stuck, and what it shows then is no answer.
pub proof fn law_answers_while_settling(
    burst: &mut Burst,
    generation: u64,
    settle_start: u64,
    now: u64,
    last: u64,
)
    requires
        old(burst).wf(),
        !old(burst).wedge,
        call_ensures(Burst::last_answered, (&*old(burst),), last),
        call_ensures(Burst::poll_settling, (burst, generation, settle_start, now), ()),
    ensures
        final(burst).wedge <==> now - settle_start > 30_000_000_000 || now - old(
            burst,
        ).last_progress > 10_000_000_000,
        !final(burst).wedge && generation > last ==> final(burst).answered@ == old(
            burst,
        ).answered@.push(generation) && final(burst).last_progress == now,
        final(burst).wedge || generation <= last ==> final(burst).answered@ == old(burst).answered@
            && final(burst).last_progress == old(burst).last_progress,
{
}

/// A burst passes when the engine never got stuck and the last answer is to the last seek; it
/// settles as long as that answer is missing. Answers that each are newer than the one before are
/// monotonic.
pub proof fn law_burst_passes(
    burst: &Burst,
    settling: bool,
    answered: bool,
    monotonic: bool,
    r: bool,
)
    requires
        burst.wf(),
        call_ensures(Burst::settling, (burst,), settling),
        call_ensures(Burst::final_answered, (burst,), answered),
        call_ensures(Burst::monotonic, (burst,), monotonic),
        call_ensures(Burst::pass, (burst,), r),
    ensures
        answered <==> burst.answered.len() > 0 && burst.answered@[burst.answered.len() - 1]
            == burst.seeks + 1,
        settling <==> !burst.wedge && (burst.answered.len() == 0
            || burst.answered@[burst.answered.len() - 1] < burst.seeks + 1),
        monotonic <==> forall|i: int|
            0 <= i < burst.answered.len() - 1 ==> (#[trigger] burst.answered@[i])
                < burst.answered@[i + 1],
        r <==> !burst.wedge && answered,
{
    assert(growing(burst.answered@));
    assert forall|i: int| 0 <= i < burst.answered.len() - 1 implies (#[trigger] burst.answered@[i])
        < burst.answered@[i + 1] by {}
}

/// The notes on a burst give the answered seeks before the issued ones, then what the engine
/// executed, behind the label; a burst that hung says so at the end.
pub proof fn law_notes_of_a_burst(
    burst: &Burst,
    label: &Option<String>,
    ratio: &'static str,
    executed: u64,
    r: String,
)
    requires
        call_ensures(Burst::notes, (burst, label, ratio, executed), r),
    ensures
        ({
            let counts = "latest-wins: answered "@ + decimal(burst.answered@.len()) + "/"@ + decimal(
                burst.issued as nat,
            ) + " (ratio "@ + ratio@ + "); engine seeks_executed="@ + decimal(executed as nat);
            &&& *label is None && !burst.wedge ==> r@ == counts
            &&& *label is None && burst.wedge ==> r@ == counts + "; "@ + "wedge/timeout"@
            &&& *label is Some && !burst.wedge ==> r@ == (label->0)@ + "; "@ + counts
        }),
{
    let texts = burst.note_texts(text_of(*label), ratio@, executed);
    reveal_with_fuel(joined, 3);
    if texts.len() == 1 {
        assert(texts =~= seq![texts[0]]);
        assert(joined(texts, "; "@) =~= texts[0]);
    }
    if texts.len() == 2 {
        assert(texts =~= seq![texts[0], texts[1]]);
        assert(joined(texts, "; "@) =~= texts[0] + "; "@ + texts[1]);
    }
}

} // verus!
