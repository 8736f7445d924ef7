//! The number of source events before a place in a log.
//!
//! Frame headers count records that never become events, so an exact count decodes every
//! frame before the place.

use super::error::{ReplayError, Result};
use super::frames::{events_steps, frame_steps, law_steps_split, steps_between, Frame, Step};
use crate::text::{concat2, same_outcome};
use vstd::prelude::*;

verus! {

/// Whether every step is an event.
pub open spec fn all_events(steps: Seq<Step>) -> bool {
    forall|i: int| 0 <= i < steps.len() ==> (#[trigger] steps[i]) is Ok
}

/// The first step that is a failure.
pub open spec fn first_fault(steps: Seq<Step>) -> Seq<char>
    decreases steps.len(),
{
    if steps.len() == 0 {
        Seq::empty()
    } else {
        match steps[0] {
            Err(message) => message,
            Ok(_) => first_fault(steps.skip(1)),
        }
    }
}

proof fn lemma_first_fault(steps: Seq<Step>, k: int)
    requires
        0 <= k < steps.len(),
        steps[k] is Err,
        forall|i: int| 0 <= i < k ==> (#[trigger] steps[i]) is Ok,
    ensures
        first_fault(steps) == steps[k]->Err_0,
    decreases k,
{
    if k > 0 {
        assert(steps[0] is Ok);
        assert(steps.skip(1)[k - 1] == steps[k]);
        assert forall|i: int| 0 <= i < k - 1 implies (#[trigger] steps.skip(1)[i]) is Ok by {
            assert(steps.skip(1)[i] == steps[i + 1]);
        }
        lemma_first_fault(steps.skip(1), k - 1);
    }
}

/// Counts the events of the frames before `frame`; the first frame that does not decode fails
/// the count.
pub fn events_before_frame(frames: &Vec<Frame>, frame: usize) -> (r: Result<u64>)
    requires
        frame <= frames.len(),
        steps_between(frames@, 0, frame as int).len() <= u64::MAX,
    ensures
        match r {
            Ok(n) => all_events(steps_between(frames@, 0, frame as int)) && n == steps_between(
                frames@,
                0,
                frame as int,
            ).len(),
            Err(error) => !all_events(steps_between(frames@, 0, frame as int)) && (error matches
                ReplayError::Log(message) && message@ == first_fault(
                steps_between(frames@, 0, frame as int),
            )),
        },
{
    let mut n: u64 = 0;
    let mut i: usize = 0;
    let ghost all = steps_between(frames@, 0, frame as int);
    while i < frame
        invariant
            i <= frame <= frames.len(),
            all == steps_between(frames@, 0, frame as int),
            all.len() <= u64::MAX,
            n == steps_between(frames@, 0, i as int).len(),
            all_events(steps_between(frames@, 0, i as int)),
        decreases frame - i,
    {
        let ghost before = steps_between(frames@, 0, i as int);
        proof {
            law_steps_split(frames@, 0, i as int, frame as int);
            law_steps_split(frames@, 0, i as int, i + 1);
            assert(steps_between(frames@, i + 1, i + 1) =~= Seq::<Step>::empty());
            assert(steps_between(frames@, i as int, i + 1) =~= frame_steps(frames@[i as int]));
            assert(steps_between(frames@, i as int, frame as int) == frame_steps(frames@[i as int])
                + steps_between(frames@, i + 1, frame as int));
        }
        match &frames[i].events {
            Ok(events) => {
                assert(frame_steps(frames@[i as int]) == events_steps(events@));
                n = n + events.len() as u64;
            },
            Err(message) => {
                proof {
                    let k = before.len() as int;
                    assert(all[k] == Err::<crate::event::CanonicalEvent, Seq<char>>(message@));
                    assert forall|j: int| 0 <= j < k implies (#[trigger] all[j]) is Ok by {
                        assert(all[j] == before[j]);
                    }
                    lemma_first_fault(all, k);
                }
                return Err(ReplayError::Log(message.clone()));
            },
        }
        i += 1;
    }
    Ok(n)
}

/// Counts the events of a whole log; the first frame that does not decode fails the count.
pub fn count_events(frames: &Vec<Frame>) -> (r: core::result::Result<u64, String>)
    requires
        steps_between(frames@, 0, frames.len() as int).len() <= u64::MAX,
    ensures
        ({
            let steps = steps_between(frames@, 0, frames.len() as int);
            same_outcome(
                r,
                if all_events(steps) {
                    Ok(steps.len() as u64)
                } else {
                    Err("events: "@ + first_fault(steps))
                },
            )
        }),
{
    match events_before_frame(frames, frames.len()) {
        Ok(n) => Ok(n),
        Err(ReplayError::Log(message)) => Err(concat2("events: ", message.as_str())),
        Err(error) => Err(error.to_string()),
    }
}

/// The sum of the events of the first `n` frames.
pub open spec fn events_in(frames: Seq<Frame>, n: int) -> int
    decreases n,
{
    if n <= 0 {
        0
    } else {
        events_in(frames, n - 1) + (match frames[n - 1].events {
            Ok(events) => events@.len() as int,
            Err(_) => 0,
        })
    }
}

proof fn lemma_events_in(frames: Seq<Frame>, n: int)
    requires
        0 <= n <= frames.len(),
    ensures
        all_events(steps_between(frames, 0, n)) <==> forall|i: int|
            0 <= i < n ==> (#[trigger] frames[i]).events is Ok,
        all_events(steps_between(frames, 0, n)) ==> steps_between(frames, 0, n).len() == events_in(
            frames,
            n,
        ),
    decreases n,
{
    if n > 0 {
        lemma_events_in(frames, n - 1);
        law_steps_split(frames, 0, n - 1, n);
        let before = steps_between(frames, 0, n - 1);
        let whole = steps_between(frames, 0, n);
        let own = frame_steps(frames[n - 1]);
        assert(steps_between(frames, n, n) =~= Seq::<Step>::empty());
        assert(steps_between(frames, n - 1, n) =~= own);
        assert(whole =~= before + own);
        if all_events(whole) {
            assert forall|i: int| 0 <= i < before.len() implies (#[trigger] before[i]) is Ok by {
                assert(whole[i] == before[i]);
            }
            if frames[n - 1].events is Err {
                assert(whole[before.len() as int] is Err);
            }
        }
        if forall|i: int| 0 <= i < n ==> (#[trigger] frames[i]).events is Ok {
            assert(frames[n - 1].events is Ok);
            assert forall|i: int| 0 <= i < whole.len() implies (#[trigger] whole[i]) is Ok by {
                if i < before.len() {
                    assert(whole[i] == before[i]);
                } else {
                    assert(whole[i] == own[i - before.len()]);
                }
            }
        }
    } else {
        assert(steps_between(frames, 0, 0) =~= Seq::<Step>::empty());
    }
}

/// The events of a log are those of its frames together; a frame that does not decode fails the
/// count.
pub proof fn law_events_counted(
    frames: &Vec<Frame>,
    r: core::result::Result<u64, String>,
    before: usize,
    s: Result<u64>,
)
    requires
        before <= frames.len(),
        steps_between(frames@, 0, frames.len() as int).len() <= u64::MAX,
        call_ensures(count_events, (frames,), r),
        call_ensures(events_before_frame, (frames, before), s),
    ensures
        r is Ok <==> forall|i: int| 0 <= i < frames.len() ==> (#[trigger] frames@[i]).events is Ok,
        r is Ok ==> r->Ok_0 == events_in(frames@, frames.len() as int),
        s is Ok <==> forall|i: int| 0 <= i < before ==> (#[trigger] frames@[i]).events is Ok,
        s is Ok ==> s->Ok_0 == events_in(frames@, before as int),
{
    lemma_events_in(frames@, frames.len() as int);
    lemma_events_in(frames@, before as int);
}

} // verus!
