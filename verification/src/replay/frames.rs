//! The committed frames of a log, as they were decoded.

use crate::event::{CanonicalEvent, InstrumentMeta};
use vstd::prelude::*;

verus! {

/// What a frame holds.
#[derive(Clone, Copy, Debug, PartialEq, Eq, Structural)]
pub enum FrameKind {
    Events,
    Checkpoint,
    Other,
}

/// One section of a checkpoint.
#[derive(Debug)]
pub struct Section {
    pub id: u16,
    pub version: u16,
    pub bytes: Vec<u8>,
}

/// A committed frame: its header, the events that it decodes to and the sections that it
/// holds as a checkpoint. Either can fail to decode, with the reader's message.
#[derive(Debug)]
pub struct Frame {
    pub kind: FrameKind,
    pub first_ts: u64,
    pub last_ts: u64,
    pub last_seq: u64,
    pub events: Result<Vec<CanonicalEvent>, String>,
    pub sections: Result<Vec<Section>, String>,
}

/// The identity and the version of a checkpoint section.
#[derive(Clone, Copy, Debug, PartialEq, Eq, Structural)]
pub struct SectionTag {
    pub id: u16,
    pub version: u16,
}

/// The sections that the state crates write into a checkpoint.
#[derive(Clone, Copy, Debug, PartialEq, Eq, Structural)]
pub struct SectionLayout {
    pub book: SectionTag,
    pub flow: SectionTag,
    pub profile: SectionTag,
    pub cvd: SectionTag,
    pub refresh: SectionTag,
}

/// A log that was opened: the instrument, the sections its checkpoints are to hold, the
/// warnings of its opening and its frames.
#[derive(Debug)]
pub struct FrameLog {
    pub meta: InstrumentMeta,
    pub layout: SectionLayout,
    pub warnings: Vec<String>,
    pub frames: Vec<Frame>,
}

/// What reading on from a place in a log meets next: an event, or a frame that does not
/// decode.
pub type Step = Result<CanonicalEvent, Seq<char>>;

/// The steps of one frame. A frame that does not decode is one step.
pub open spec fn frame_steps(frame: Frame) -> Seq<Step> {
    match frame.events {
        Ok(events) => events_steps(events@),
        Err(message) => seq![Err::<CanonicalEvent, Seq<char>>(message@)],
    }
}

/// The steps that events are.
pub open spec fn events_steps(events: Seq<CanonicalEvent>) -> Seq<Step> {
    Seq::new(events.len(), |i: int| Ok::<CanonicalEvent, Seq<char>>(events[i]))
}

/// The steps of the frames `from..to`.
pub open spec fn steps_between(frames: Seq<Frame>, from: int, to: int) -> Seq<Step>
    decreases to - from,
{
    if from >= to {
        Seq::empty()
    } else {
        frame_steps(frames[from]) + steps_between(frames, from + 1, to)
    }
}

/// The steps of the frames from `from` on.
pub open spec fn steps_from(frames: Seq<Frame>, from: int) -> Seq<Step> {
    steps_between(frames, from, frames.len() as int)
}

/// Adjoining ranges of frames have their steps one after the other.
pub proof fn law_steps_split(frames: Seq<Frame>, from: int, middle: int, to: int)
    requires
        from <= middle <= to,
    ensures
        steps_between(frames, from, to) == steps_between(frames, from, middle) + steps_between(
            frames,
            middle,
            to,
        ),
    decreases middle - from,
{
    if from < middle {
        law_steps_split(frames, from + 1, middle, to);
    }
    assert(steps_between(frames, from, to) =~= steps_between(frames, from, middle)
        + steps_between(frames, middle, to));
}

/// A frame lies ahead as its events, one by one and in order, or as the one fault that it is; frames
/// follow one another.
pub proof fn law_steps_of_frames(frames: Seq<Frame>, at: int, k: int)
    requires
        0 <= at < frames.len(),
    ensures
        frames[at].events is Ok ==> {
            let events = frames[at].events->Ok_0@;
            let steps = steps_between(frames, at, at + 1);
            &&& steps.len() == events.len()
            &&& 0 <= k < events.len() ==> steps[k] == Ok::<CanonicalEvent, Seq<char>>(events[k])
        },
        frames[at].events is Err ==> steps_between(frames, at, at + 1) == seq![
            Err::<CanonicalEvent, Seq<char>>(frames[at].events->Err_0@),
        ],
        steps_from(frames, at) == steps_between(frames, at, at + 1) + steps_from(frames, at + 1),
        steps_from(frames, frames.len() as int) == Seq::<Step>::empty(),
{
    assert(steps_between(frames, at + 1, at + 1) =~= Seq::<Step>::empty());
    assert(steps_between(frames, at, at + 1) =~= frame_steps(frames[at]));
}

} // verus!
