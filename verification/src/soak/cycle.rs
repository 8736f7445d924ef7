//! One cycle of the soak: what is asked of the engine, step by step, what each answer leads to,
//! and the line that the cycle ends with.

use super::honesty::{
    fail_cycle, failed_parts, finalize_honesty, initial, make_line, notes_text, CycleId,
    CycleResult, EngineExit, FailCtx, Honesty, LineParts, Peaks,
};
use super::totals::{ceiling_ok, under_ceiling};
use crate::num::greatest;
use crate::text::{
    concat2, concat3, decimal, join, joined, push_decimal, text_of, texts_of,
};
use vstd::prelude::*;

verus! {

/// The generation of the first seek.
pub const FIRST_GEN: u64 = 2;

/// The steps of a cycle, in order. The three that rewind are for cycles that run to the end of
/// the log.
#[derive(Clone, Copy, Debug, PartialEq, Eq, Structural)]
pub enum Phase {
    SetSource,
    Ready,
    PrePriorPause,
    Priors,
    SetSpeed,
    Play,
    PreScrub,
    Scrub,
    Transport,
    RestoreSpeed,
    ResumePlay,
    RewindSeek,
    RewindAnswer,
    RewindPlay,
    ToEof,
    Coverage,
    ReSetSource,
    Retention,
    Closing,
    Shutdown,
}

impl Phase {
    /// The place of the step in the cycle.
    pub open spec fn rank(self) -> nat {
        match self {
            Phase::SetSource => 0,
            Phase::Ready => 1,
            Phase::PrePriorPause => 2,
            Phase::Priors => 3,
            Phase::SetSpeed => 4,
            Phase::Play => 5,
            Phase::PreScrub => 6,
            Phase::Scrub => 7,
            Phase::Transport => 8,
            Phase::RestoreSpeed => 9,
            Phase::ResumePlay => 10,
            Phase::RewindSeek => 11,
            Phase::RewindAnswer => 12,
            Phase::RewindPlay => 13,
            Phase::ToEof => 14,
            Phase::Coverage => 15,
            Phase::ReSetSource => 16,
            Phase::Retention => 17,
            Phase::Closing => 18,
            Phase::Shutdown => 19,
        }
    }

    /// What a command that the step sends is called in a report, and whether it sends one.
    pub open spec fn label(self) -> Option<Seq<char>> {
        match self {
            Phase::SetSource => Some("SetSource"@),
            Phase::PrePriorPause => Some("pre-prior Pause"@),
            Phase::SetSpeed => Some("SetSpeed"@),
            Phase::Play => Some("Play"@),
            Phase::RestoreSpeed => Some("restore speed"@),
            Phase::ResumePlay => Some("resume Play"@),
            Phase::RewindSeek => Some("EOF rewind Seek"@),
            Phase::RewindPlay => Some("EOF rewind Play"@),
            Phase::ReSetSource => Some("SetSource re"@),
            _ => None,
        }
    }

    fn name(self) -> (r: &'static str)
        requires
            self.label() is Some,
        ensures
            r@ == self.label()->0,
    {
        match self {
            Phase::SetSource => "SetSource",
            Phase::PrePriorPause => "pre-prior Pause",
            Phase::SetSpeed => "SetSpeed",
            Phase::Play => "Play",
            Phase::RestoreSpeed => "restore speed",
            Phase::ResumePlay => "resume Play",
            Phase::RewindSeek => "EOF rewind Seek",
            Phase::RewindPlay => "EOF rewind Play",
            _ => "SetSource re",
        }
    }
}

/// What the engine is asked for next.
#[derive(Clone, Copy, Debug, PartialEq, Eq, Structural)]
pub enum Action {
    SetSource,
    Pause,
    SetSpeed,
    Play,
    Seek { ts: u64, generation: u64 },
    /// Seek, and wait until the current session is ready.
    AwaitReady { generation: u64 },
    /// Load the earlier days.
    LoadPriors,
    /// Play for a while before the scrub.
    PlaySlice,
    /// Issue the scrub's seeks and wait for the last answer.
    ScrubBurst { first_generation: u64 },
    /// Change the speed and the transport a few times.
    Transport,
    /// Wait until a seek is answered.
    AwaitAnswer { generation: u64 },
    /// Play to the end of the log or of the cycle.
    PlayToEnd,
    /// Read what was covered before the source is set again.
    ReadCoverage,
    /// Seek, and count the sessions that were kept.
    ObserveRetention { generation: u64 },
    /// Check the memory.
    CheckMemory,
    /// Stop the engine.
    Shutdown,
}

/// Why a cycle failed while waiting for the engine.
#[derive(Clone, Copy, Debug)]
pub enum Failure {
    /// The engine was gone when a command was sent.
    Stopped(&'static str),
    /// The current session was not ready in time.
    ReadyTimeout,
    /// The last seek of the scrub was not answered in time.
    ScrubUnanswered { want: u64, last: u64 },
    /// The seek after the source was set again was not answered in time.
    RetentionUnanswered { generation: u64 },
}

impl Failure {
    /// The report.
    pub open spec fn text(self) -> Seq<char> {
        match self {
            Failure::Stopped(what) => "engine stopped during "@ + what@,
            Failure::ReadyTimeout => "timeout waiting for current session ready (60s)"@,
            Failure::ScrubUnanswered {
                want,
                last,
            } => "scrub final generation unanswered: want="@ + decimal(want as nat) + " got="@
                + decimal(last as nat) + " after 15.0s"@,
            Failure::RetentionUnanswered { generation } => "retention observe: seek gen "@
                + decimal(generation as nat) + " unanswered"@,
        }
    }

    /// The report.
    pub fn to_string(&self) -> (r: String)
        ensures
            r@ == self.text(),
    {
        match self {
            Failure::Stopped(what) => concat2("engine stopped during ", what),
            Failure::ReadyTimeout => "timeout waiting for current session ready (60s)".to_owned(),
            Failure::ScrubUnanswered { want, last } => {
                let mut text: String = "scrub final generation unanswered: want=".to_owned();
                push_decimal(&mut text, *want);
                text.append(" got=");
                push_decimal(&mut text, *last);
                text.append(" after 15.0s");
                text
            },
            Failure::RetentionUnanswered { generation } => {
                let mut text: String = "retention observe: seek gen ".to_owned();
                push_decimal(&mut text, *generation);
                text.append(" unanswered");
                text
            },
        }
    }
}

/// What loading the earlier days came to.
#[derive(Debug)]
pub struct PriorLoadOutcome {
    pub sessions: usize,
    pub expected_accepted: u64,
    pub expected_skips: u64,
    pub accepted_seen: u64,
    pub incomplete: Vec<String>,
}

/// What was covered before the source was set again.
#[derive(Clone, Copy, Debug, PartialEq, Eq, Structural)]
pub struct Covered {
    pub events_applied: u64,
    pub events_read: u64,
    pub gap_records: u64,
    pub publications: u64,
    pub sessions: usize,
}

/// What a cycle is to do.
#[derive(Clone, Copy, Debug, PartialEq, Eq, Structural)]
pub struct Plan {
    pub id: CycleId,
    pub first_ts: u64,
    pub scrub_seeks: u32,
}

/// A cycle under way.
#[derive(Debug)]
pub struct Cycle {
    pub plan: Plan,
    pub phase: Phase,
    /// The generation of the next seek.
    pub generation: u64,
    pub error: Option<String>,
    pub honesty: Honesty,
    pub notes: Vec<String>,
    pub sessions_after_priors: usize,
    pub seeks_issued: u64,
    pub covered: Covered,
}

/// A cycle under way, as a mathematical value.
#[verifier::ext_equal]
pub struct CycleModel {
    pub plan: Plan,
    pub phase: Phase,
    pub generation: nat,
    pub error: Option<Seq<char>>,
    pub honesty: Honesty,
    pub notes: Seq<Seq<char>>,
    pub sessions_after_priors: usize,
    pub seeks_issued: nat,
    pub covered: Covered,
}

/// Nothing covered yet.
pub open spec fn nothing_covered() -> Covered {
    Covered { events_applied: 0, events_read: 0, gap_records: 0, publications: 0, sessions: 0 }
}

/// The report on the earlier days, where something is wrong with them.
pub open spec fn priors_fault(outcome: PriorLoadOutcome) -> Option<Seq<char>> {
    if outcome.incomplete.len() > 0 {
        Some("prior load incomplete: "@ + joined(texts_of(outcome.incomplete@), "; "@))
    } else if outcome.accepted_seen != outcome.expected_accepted {
        Some(
            "prior accepted_seen="@ + decimal(outcome.accepted_seen as nat) + " expected="@
                + decimal(outcome.expected_accepted as nat),
        )
    } else {
        None
    }
}

/// The note on the earlier days, where something is wrong with them.
pub open spec fn priors_note(outcome: PriorLoadOutcome) -> Seq<char> {
    if outcome.incomplete.len() > 0 {
        "prior_incomplete="@ + joined(texts_of(outcome.incomplete@), "|"@)
    } else {
        priors_fault(outcome)->0
    }
}

/// The note on the sessions that were kept.
pub open spec fn retention_text(ok: bool, pre: usize, post: usize) -> Seq<char> {
    (if ok {
        "re-SetSource retention ok pre="@
    } else {
        "re-SetSource retention failed: pre="@
    }) + decimal(pre as nat) + " post="@ + decimal(post as nat)
}

impl CycleModel {
    /// The cycle at its first step.
    pub open spec fn start(plan: Plan) -> CycleModel {
        CycleModel {
            plan,
            phase: Phase::SetSource,
            generation: FIRST_GEN as nat,
            error: None,
            honesty: initial(),
            notes: Seq::empty(),
            sessions_after_priors: 0,
            seeks_issued: 0,
            covered: nothing_covered(),
        }
    }

    /// The cycle once something failed: it goes straight to its closing.
    pub open spec fn failed(self, text: Seq<char>) -> CycleModel {
        CycleModel { error: Some(text), phase: Phase::Closing, ..self }
    }

    /// The cycle at another step.
    pub open spec fn at(self, phase: Phase) -> CycleModel {
        CycleModel { phase, ..self }
    }

    /// The cycle once a command was sent, or the engine turned out to be gone.
    pub open spec fn sent(self, delivered: bool) -> CycleModel {
        if !delivered {
            self.failed("engine stopped during "@ + self.phase.label()->0)
        } else {
            match self.phase {
                Phase::SetSource => self.at(Phase::Ready),
                Phase::PrePriorPause => self.at(Phase::Priors),
                Phase::SetSpeed => self.at(Phase::Play),
                Phase::Play => self.at(Phase::PreScrub),
                Phase::RestoreSpeed => self.at(Phase::ResumePlay),
                Phase::ResumePlay => self.at(
                    if self.plan.id.cycle_secs == 0 {
                        Phase::RewindSeek
                    } else {
                        Phase::ToEof
                    },
                ),
                Phase::RewindSeek => self.at(Phase::RewindAnswer),
                Phase::RewindPlay => CycleModel {
                    phase: Phase::ToEof,
                    seeks_issued: self.seeks_issued + 1,
                    notes: self.notes.push("eof_rewind_seek"@),
                    ..self
                },
                _ => self.at(Phase::Retention),
            }
        }
    }

    /// The cycle once the current session was ready, or was not in time.
    pub open spec fn ready(self, failure: Option<Failure>) -> CycleModel {
        let honesty = Honesty { current_ready: failure is None, ..self.honesty };
        let asked = CycleModel { generation: self.generation + 1, honesty, ..self };
        match failure {
            None => asked.at(Phase::PrePriorPause),
            Some(failure) => asked.failed(failure.text()),
        }
    }

    /// The cycle once the earlier days were loaded.
    pub open spec fn loaded(self, outcome: PriorLoadOutcome) -> CycleModel {
        let fault = priors_fault(outcome);
        let counted = CycleModel {
            sessions_after_priors: outcome.sessions,
            honesty: Honesty {
                expected_priors_accepted: outcome.expected_accepted,
                expected_prior_skips: outcome.expected_skips,
                priors_slot_ok: fault is None,
                ..self.honesty
            },
            ..self
        };
        match fault {
            None => counted.at(Phase::SetSpeed),
            Some(text) => CycleModel {
                notes: counted.notes.push(priors_note(outcome)),
                ..counted
            }.failed(text),
        }
    }

    /// The cycle once it played.
    pub open spec fn played(self) -> CycleModel {
        self.at(
            if self.phase == Phase::PreScrub {
                Phase::Scrub
            } else {
                Phase::Coverage
            },
        )
    }

    /// The cycle once the scrub was answered, or was not in time.
    pub open spec fn scrubbed(self, failure: Option<Failure>) -> CycleModel {
        let honesty = Honesty { seeks_final_answered: failure is None, ..self.honesty };
        let asked = CycleModel {
            generation: self.generation + self.plan.scrub_seeks as nat,
            honesty,
            ..self
        };
        match failure {
            None => CycleModel { seeks_issued: self.plan.scrub_seeks as nat, ..asked }.at(
                Phase::Transport,
            ),
            Some(failure) => asked.failed(failure.text()),
        }
    }

    /// The cycle once the speed and the transport were changed.
    pub open spec fn transported(self, failure: Option<Failure>) -> CycleModel {
        match failure {
            None => self.at(Phase::RestoreSpeed),
            Some(failure) => self.failed(failure.text()),
        }
    }

    /// The cycle once the rewinding seek was answered, or was not in time.
    pub open spec fn rewound(self, answered: bool) -> CycleModel {
        let asked = CycleModel { generation: self.generation + 1, ..self };
        if answered {
            asked.at(Phase::RewindPlay)
        } else {
            asked.failed("EOF rewind seek gen "@ + decimal(self.generation) + " unanswered"@)
        }
    }

    /// The cycle once it was read what was covered.
    pub open spec fn counted(self, covered: Covered) -> CycleModel {
        CycleModel { covered, ..self }.at(Phase::ReSetSource)
    }

    /// The cycle once the kept sessions were counted, or the seek was not answered in time.
    pub open spec fn retained(self, outcome: Result<usize, Failure>) -> CycleModel {
        let pre = self.covered.sessions;
        match outcome {
            Err(failure) => CycleModel {
                generation: self.generation + 1,
                honesty: Honesty { retention_ok: false, ..self.honesty },
                ..self
            }.failed(failure.text()),
            Ok(post) => {
                let ok = post >= pre && pre > 0;
                let noted = CycleModel {
                    generation: self.generation + 1,
                    honesty: Honesty {
                        re_set_source_sessions: post,
                        retention_ok: ok,
                        ..self.honesty
                    },
                    notes: self.notes.push(retention_text(ok, pre, post)),
                    ..self
                };
                if ok {
                    noted.at(Phase::Closing)
                } else {
                    noted.failed(retention_text(false, pre, post))
                }
            },
        }
    }

    /// The cycle once its memory was checked.
    pub open spec fn checked(self, rss_kb: u64) -> CycleModel {
        let ok = under_ceiling(rss_kb);
        CycleModel {
            phase: Phase::Shutdown,
            honesty: Honesty { rss_ceiling_ok: ok, ..self.honesty },
            notes: if ok {
                self.notes
            } else {
                self.notes.push("RSS_CEILING_EXCEEDED"@)
            },
            error: if ok || self.error is Some {
                self.error
            } else {
                Some("RSS ceiling breached: peak_rss="@ + decimal(rss_kb as nat) + " kB"@)
            },
            ..self
        }
    }

    /// What the steps behind the cycle proved, as long as nothing failed; the generations can
    /// be counted.
    pub open spec fn sound(self) -> bool {
        &&& self.generation <= FIRST_GEN + self.phase.rank() * 0x1_0000_0000
        &&& self.seeks_issued <= 0x1_0000_0000
        &&& self.error is Some ==> self.phase.rank() >= 18
        &&& self.error is None && self.phase.rank() > 1 ==> self.honesty.current_ready
        &&& self.error is None && self.phase.rank() > 3 ==> self.honesty.priors_slot_ok
        &&& self.error is None && self.phase.rank() > 7 ==> self.honesty.seeks_final_answered
        &&& self.error is None && self.phase.rank() > 17 ==> self.honesty.retention_ok
        &&& self.error is None && self.phase.rank() > 18 ==> self.honesty.rss_ceiling_ok
        &&& self.phase.rank() <= 13 ==> self.seeks_issued <= 0xffff_ffff
    }
}

/// A cycle whose steps all succeeded has passed every check that is made along the way.
pub proof fn law_unfailed_cycle(cycle: CycleModel)
    requires
        cycle.sound(),
        cycle.phase == Phase::Shutdown,
        cycle.error is None,
    ensures
        cycle.honesty.current_ready,
        cycle.honesty.priors_slot_ok,
        cycle.honesty.seeks_final_answered,
        cycle.honesty.retention_ok,
        cycle.honesty.rss_ceiling_ok,
{
}

/// A cycle that failed asks the engine for nothing more than to stop, and keeps the first report.
pub proof fn law_failed_cycle_closes(cycle: CycleModel, text: Seq<char>, rss_kb: u64)
    ensures
        cycle.failed(text).phase == Phase::Closing,
        cycle.failed(text).checked(rss_kb).phase == Phase::Shutdown,
        cycle.failed(text).checked(rss_kb).error == Some(text),
{
}

impl View for Cycle {
    type V = CycleModel;

    open spec fn view(&self) -> CycleModel {
        CycleModel {
            plan: self.plan,
            phase: self.phase,
            generation: self.generation as nat,
            error: text_of(self.error),
            honesty: self.honesty,
            notes: texts_of(self.notes@),
            sessions_after_priors: self.sessions_after_priors,
            seeks_issued: self.seeks_issued as nat,
            covered: self.covered,
        }
    }
}

impl Cycle {
    /// A cycle at its first step.
    pub fn new(plan: Plan) -> (r: Cycle)
        ensures
            r@ == CycleModel::start(plan),
            r@.sound(),
    {
        let r: Cycle = Cycle {
            plan,
            phase: Phase::SetSource,
            generation: FIRST_GEN,
            error: None,
            honesty: Honesty::default(),
            notes: Vec::new(),
            sessions_after_priors: 0,
            seeks_issued: 0,
            covered: Covered {
                events_applied: 0,
                events_read: 0,
                gap_records: 0,
                publications: 0,
                sessions: 0,
            },
        };
        assert(texts_of(r.notes@) =~= Seq::<Seq<char>>::empty());
        r
    }

    /// What the engine is asked for next.
    pub open spec fn asks(self) -> Action {
        let generation = self.generation;
        match self.phase {
            Phase::SetSource => Action::SetSource,
            Phase::Ready => Action::AwaitReady { generation },
            Phase::PrePriorPause => Action::Pause,
            Phase::Priors => Action::LoadPriors,
            Phase::SetSpeed => Action::SetSpeed,
            Phase::Play => Action::Play,
            Phase::PreScrub => Action::PlaySlice,
            Phase::Scrub => Action::ScrubBurst { first_generation: generation },
            Phase::Transport => Action::Transport,
            Phase::RestoreSpeed => Action::SetSpeed,
            Phase::ResumePlay => Action::Play,
            Phase::RewindSeek => Action::Seek { ts: self.plan.first_ts, generation },
            Phase::RewindAnswer => Action::AwaitAnswer { generation },
            Phase::RewindPlay => Action::Play,
            Phase::ToEof => Action::PlayToEnd,
            Phase::Coverage => Action::ReadCoverage,
            Phase::ReSetSource => Action::SetSource,
            Phase::Retention => Action::ObserveRetention { generation },
            Phase::Closing => Action::CheckMemory,
            Phase::Shutdown => Action::Shutdown,
        }
    }

    /// What the engine is asked for next.
    pub fn action(&self) -> (r: Action)
        ensures
            r == self.asks(),
    {
        let generation: u64 = self.generation;
        match self.phase {
            Phase::SetSource => Action::SetSource,
            Phase::Ready => Action::AwaitReady { generation },
            Phase::PrePriorPause => Action::Pause,
            Phase::Priors => Action::LoadPriors,
            Phase::SetSpeed => Action::SetSpeed,
            Phase::Play => Action::Play,
            Phase::PreScrub => Action::PlaySlice,
            Phase::Scrub => Action::ScrubBurst { first_generation: generation },
            Phase::Transport => Action::Transport,
            Phase::RestoreSpeed => Action::SetSpeed,
            Phase::ResumePlay => Action::Play,
            Phase::RewindSeek => Action::Seek { ts: self.plan.first_ts, generation },
            Phase::RewindAnswer => Action::AwaitAnswer { generation },
            Phase::RewindPlay => Action::Play,
            Phase::ToEof => Action::PlayToEnd,
            Phase::Coverage => Action::ReadCoverage,
            Phase::ReSetSource => Action::SetSource,
            Phase::Retention => Action::ObserveRetention { generation },
            Phase::Closing => Action::CheckMemory,
            Phase::Shutdown => Action::Shutdown,
        }
    }

    fn fail(&mut self, text: String)
        ensures
            final(self)@ == old(self)@.failed(text@),
    {
        self.error = Some(text);
        self.phase = Phase::Closing;
    }

    fn note(&mut self, text: String)
        ensures
            final(self)@ == (CycleModel { notes: old(self)@.notes.push(text@), ..old(self)@ }),
    {
        self.notes.push(text);
        assert(texts_of(self.notes@) =~= texts_of(old(self).notes@).push(text@));
    }

    /// Takes in whether a command reached the engine.
    pub fn on_sent(&mut self, delivered: bool)
        requires
            old(self)@.sound(),
            old(self)@.phase.label() is Some,
        ensures
            final(self)@ == old(self)@.sent(delivered),
            final(self)@.sound(),
    {
        if !delivered {
            let text: String = concat2("engine stopped during ", self.phase.name());
            self.fail(text);
            return;
        }
        match self.phase {
            Phase::SetSource => {
                self.phase = Phase::Ready;
            },
            Phase::PrePriorPause => {
                self.phase = Phase::Priors;
            },
            Phase::SetSpeed => {
                self.phase = Phase::Play;
            },
            Phase::Play => {
                self.phase = Phase::PreScrub;
            },
            Phase::RestoreSpeed => {
                self.phase = Phase::ResumePlay;
            },
            Phase::ResumePlay => {
                self.phase = if self.plan.id.cycle_secs == 0 {
                    Phase::RewindSeek
                } else {
                    Phase::ToEof
                };
            },
            Phase::RewindSeek => {
                self.phase = Phase::RewindAnswer;
            },
            Phase::RewindPlay => {
                self.seeks_issued += 1;
                self.phase = Phase::ToEof;
                self.note("eof_rewind_seek".to_owned());
            },
            _ => {
                self.phase = Phase::Retention;
            },
        }
    }

    /// Takes in that the current session is ready, or why it is not.
    pub fn on_ready(&mut self, failure: Option<Failure>)
        requires
            old(self)@.sound(),
            old(self)@.phase == Phase::Ready,
        ensures
            final(self)@ == old(self)@.ready(failure),
            final(self)@.sound(),
    {
        self.generation += 1;
        self.honesty.current_ready = failure.is_none();
        match failure {
            None => {
                self.phase = Phase::PrePriorPause;
            },
            Some(failure) => {
                self.fail(failure.to_string());
            },
        }
    }

    /// Takes in what loading the earlier days came to.
    pub fn on_priors(&mut self, outcome: PriorLoadOutcome)
        requires
            old(self)@.sound(),
            old(self)@.phase == Phase::Priors,
        ensures
            final(self)@ == old(self)@.loaded(outcome),
            final(self)@.sound(),
    {
        self.sessions_after_priors = outcome.sessions;
        self.honesty.expected_priors_accepted = outcome.expected_accepted;
        self.honesty.expected_prior_skips = outcome.expected_skips;
        self.honesty.priors_slot_ok = outcome.incomplete.len() == 0 && outcome.accepted_seen
            == outcome.expected_accepted;
        if outcome.incomplete.len() > 0 {
            self.note(concat2("prior_incomplete=", join(&outcome.incomplete, "|").as_str()));
            self.fail(concat2("prior load incomplete: ", join(&outcome.incomplete, "; ").as_str()));
        } else if outcome.accepted_seen != outcome.expected_accepted {
            let mut text: String = "prior accepted_seen=".to_owned();
            push_decimal(&mut text, outcome.accepted_seen);
            text.append(" expected=");
            push_decimal(&mut text, outcome.expected_accepted);
            self.note(text.clone());
            self.fail(text);
        } else {
            self.phase = Phase::SetSpeed;
        }
    }

    /// Takes in that the engine was gone when an earlier day was asked for.
    pub fn on_priors_stopped(&mut self)
        requires
            old(self)@.sound(),
            old(self)@.phase == Phase::Priors,
        ensures
            final(self)@ == old(self)@.failed("engine stopped during LoadPriorSession"@),
            final(self)@.sound(),
    {
        self.fail("engine stopped during LoadPriorSession".to_owned());
    }

    /// Takes in that a stretch was played.
    pub fn on_played(&mut self)
        requires
            old(self)@.sound(),
            old(self)@.phase == Phase::PreScrub || old(self)@.phase == Phase::ToEof,
        ensures
            final(self)@ == old(self)@.played(),
            final(self)@.sound(),
    {
        self.phase = if self.phase == Phase::PreScrub {
            Phase::Scrub
        } else {
            Phase::Coverage
        };
    }

    /// Takes in that the scrub was answered, or why it was not.
    pub fn on_scrubbed(&mut self, failure: Option<Failure>)
        requires
            old(self)@.sound(),
            old(self)@.phase == Phase::Scrub,
        ensures
            final(self)@ == old(self)@.scrubbed(failure),
            final(self)@.sound(),
    {
        self.generation += self.plan.scrub_seeks as u64;
        self.honesty.seeks_final_answered = failure.is_none();
        match failure {
            None => {
                self.seeks_issued = self.plan.scrub_seeks as u64;
                self.phase = Phase::Transport;
            },
            Some(failure) => {
                self.fail(failure.to_string());
            },
        }
    }

    /// Takes in that the speed and the transport were changed, or why they were not.
    pub fn on_transported(&mut self, failure: Option<Failure>)
        requires
            old(self)@.sound(),
            old(self)@.phase == Phase::Transport,
        ensures
            final(self)@ == old(self)@.transported(failure),
            final(self)@.sound(),
    {
        match failure {
            None => {
                self.phase = Phase::RestoreSpeed;
            },
            Some(failure) => {
                self.fail(failure.to_string());
            },
        }
    }

    /// Takes in whether the rewinding seek was answered.
    pub fn on_rewound(&mut self, answered: bool)
        requires
            old(self)@.sound(),
            old(self)@.phase == Phase::RewindAnswer,
        ensures
            final(self)@ == old(self)@.rewound(answered),
            final(self)@.sound(),
    {
        let generation: u64 = self.generation;
        self.generation += 1;
        if answered {
            self.phase = Phase::RewindPlay;
        } else {
            let mut text: String = "EOF rewind seek gen ".to_owned();
            push_decimal(&mut text, generation);
            text.append(" unanswered");
            self.fail(text);
        }
    }

    /// Takes in what was covered.
    pub fn on_covered(&mut self, covered: Covered)
        requires
            old(self)@.sound(),
            old(self)@.phase == Phase::Coverage,
        ensures
            final(self)@ == old(self)@.counted(covered),
            final(self)@.sound(),
    {
        self.covered = covered;
        self.phase = Phase::ReSetSource;
    }

    /// Takes in how many sessions were kept, or why they could not be counted.
    pub fn on_retention(&mut self, outcome: Result<usize, Failure>)
        requires
            old(self)@.sound(),
            old(self)@.phase == Phase::Retention,
        ensures
            final(self)@ == old(self)@.retained(outcome),
            final(self)@.sound(),
    {
        self.generation += 1;
        match outcome {
            Err(failure) => {
                self.honesty.retention_ok = false;
                self.fail(failure.to_string());
            },
            Ok(post) => {
                let pre: usize = self.covered.sessions;
                let ok: bool = post >= pre && pre > 0;
                self.honesty.re_set_source_sessions = post;
                self.honesty.retention_ok = ok;
                let mut text: String = (if ok {
                    "re-SetSource retention ok pre="
                } else {
                    "re-SetSource retention failed: pre="
                }).to_owned();
                push_decimal(&mut text, pre as u64);
                text.append(" post=");
                push_decimal(&mut text, post as u64);
                self.note(text.clone());
                if ok {
                    self.phase = Phase::Closing;
                } else {
                    self.fail(text);
                }
            },
        }
    }

    /// Takes in the peak of the memory.
    pub fn on_memory(&mut self, rss_kb: u64)
        requires
            old(self)@.sound(),
            old(self)@.phase == Phase::Closing,
        ensures
            final(self)@ == old(self)@.checked(rss_kb),
            final(self)@.sound(),
    {
        self.honesty.rss_ceiling_ok = ceiling_ok(rss_kb);
        if !self.honesty.rss_ceiling_ok {
            self.note("RSS_CEILING_EXCEEDED".to_owned());
            if self.error.is_none() {
                let mut text: String = "RSS ceiling breached: peak_rss=".to_owned();
                push_decimal(&mut text, rss_kb);
                text.append(" kB");
                self.error = Some(text);
            }
        }
        self.phase = Phase::Shutdown;
    }

    /// The line and the peaks that the cycle ends with. `stopped` is what the engine did, or the
    /// message of its panic; `after` and `again` are the samples of the memory taken then.
    pub fn finish(
        self,
        stopped: Result<EngineExit, String>,
        peaks: Peaks,
        after: (u64, u64),
        again: (u64, u64),
        wall_ns: u64,
    ) -> (r: CycleResult)
        requires
            self@.sound(),
            self@.phase == Phase::Shutdown,
        ensures
            r.line.cycle == self.plan.id.cycle,
            r.line.wall_ns == wall_ns,
            r.line.speed_bits == self.plan.id.speed_bits,
            r.line.cycle_secs_cap == self.plan.id.cycle_secs,
            ends(self@, stopped, peaks.with(after.0, after.1), after, again, r),
    {
        let mut cycle: Cycle = self;
        let mut peaks: Peaks = peaks;
        peaks.sample(after.0, after.1);
        let id: CycleId = cycle.plan.id;
        match stopped {
            Ok(exit) => {
                let ok: bool = finalize_honesty(&mut cycle.honesty, &exit, &mut cycle.notes);
                match cycle.error {
                    None => {
                        let parts: LineParts = LineParts {
                            events_applied: cycle.covered.events_applied,
                            events_read: cycle.covered.events_read,
                            gap_records: cycle.covered.gap_records,
                            publications: if exit.publications > cycle.covered.publications {
                                exit.publications
                            } else {
                                cycle.covered.publications
                            },
                            seeks_executed: exit.seeks_executed,
                            seeks_issued: cycle.seeks_issued,
                            priors_completed: exit.priors_completed,
                            prior_skips: exit.prior_skips,
                            sessions: cycle.sessions_after_priors,
                            peak_rss_kb: peaks.rss_kb,
                            rss: after.1,
                            hwm: after.0,
                            panic: None,
                        };
                        CycleResult {
                            line: make_line(id, wall_ns, ok, parts, cycle.honesty, &cycle.notes),
                            peaks,
                        }
                    },
                    Some(message) => fail_cycle(
                        FailCtx {
                            id,
                            wall_ns,
                            peaks,
                            message,
                            partial: Some(exit),
                            honesty: cycle.honesty,
                        },
                        again.0,
                        again.1,
                    ),
                }
            },
            Err(panic) => {
                let own: String = concat2("engine panic: ", panic.as_str());
                let message: String = match cycle.error {
                    Some(earlier) => concat3(earlier.as_str(), "; ", own.as_str()),
                    None => own,
                };
                fail_cycle(
                    FailCtx {
                        id,
                        wall_ns,
                        peaks,
                        message,
                        partial: None,
                        honesty: cycle.honesty,
                    },
                    again.0,
                    again.1,
                )
            },
        }
    }
}

/// The checks once the engine's own counts are known.
pub open spec fn finalized(cycle: CycleModel, exit: EngineExit) -> Honesty {
    Honesty { engine_priors_ok: cycle.honesty.counts_match(exit), ..cycle.honesty }
}

/// What the line of a cycle that did not fail reports.
pub open spec fn whole_parts(
    parts: LineParts,
    cycle: CycleModel,
    exit: EngineExit,
    peaks: Peaks,
    after: (u64, u64),
) -> bool {
    &&& parts.events_applied == cycle.covered.events_applied
    &&& parts.events_read == cycle.covered.events_read
    &&& parts.gap_records == cycle.covered.gap_records
    &&& parts.publications == greatest(
        exit.publications as int,
        cycle.covered.publications as int,
    )
    &&& parts.seeks_executed == exit.seeks_executed
    &&& parts.seeks_issued == cycle.seeks_issued
    &&& parts.priors_completed == exit.priors_completed
    &&& parts.prior_skips == exit.prior_skips
    &&& parts.sessions == cycle.sessions_after_priors
    &&& parts.peak_rss_kb == peaks.rss_kb
    &&& parts.rss == after.1
    &&& parts.hwm == after.0
    &&& parts.panic is None
}

/// How a cycle ends: it is whole where nothing failed and the engine stopped in order; then it is
/// good if every check held. Otherwise it failed, with the first report and the engine's panic.
pub open spec fn ends(
    cycle: CycleModel,
    stopped: Result<EngineExit, String>,
    peaks: Peaks,
    after: (u64, u64),
    again: (u64, u64),
    r: CycleResult,
) -> bool {
    match (stopped, cycle.error) {
        (Ok(exit), None) => {
            &&& r.peaks == peaks
            &&& r.line.honesty == finalized(cycle, exit)
            &&& r.line.ok == finalized(cycle, exit).holds()
            &&& whole_parts(r.line.parts, cycle, exit, peaks, after)
            &&& text_of(r.line.notes) == notes_text(
                if cycle.honesty.counts_match(exit) {
                    cycle.notes
                } else {
                    cycle.notes.push(super::honesty::counts_note(cycle.honesty, exit))
                },
            )
        },
        (Ok(exit), Some(message)) => {
            &&& r.line.honesty == finalized(cycle, exit)
            &&& fails(r, peaks, again, Some(exit), message)
        },
        (Err(panic), earlier) => {
            let own = "engine panic: "@ + panic@;
            &&& r.line.honesty == cycle.honesty
            &&& fails(
                r,
                peaks,
                again,
                None,
                match earlier {
                    Some(message) => message + "; "@ + own,
                    None => own,
                },
            )
        },
    }
}

/// Whether the result is that of a failed cycle.
pub open spec fn fails(
    r: CycleResult,
    peaks: Peaks,
    again: (u64, u64),
    partial: Option<EngineExit>,
    message: Seq<char>,
) -> bool {
    &&& !r.line.ok
    &&& r.peaks == peaks.with(again.0, again.1)
    &&& failed_parts(r.line.parts, partial, r.peaks, again.0, again.1, message)
    &&& text_of(r.line.notes) == Some(joined(seq!["cycle failure"@, message], "; "@))
}

/// A cycle is good only if nothing failed, the engine stopped in order, and its own counts of the
/// earlier days are those that the dates call for.
pub proof fn law_good_cycle(
    cycle: CycleModel,
    stopped: Result<EngineExit, String>,
    peaks: Peaks,
    after: (u64, u64),
    again: (u64, u64),
    r: CycleResult,
)
    requires
        cycle.sound(),
        cycle.phase == Phase::Shutdown,
        ends(cycle, stopped, peaks, after, again, r),
    ensures
        r.line.ok <==> cycle.error is None && stopped is Ok && cycle.honesty.counts_match(
            stopped->Ok_0,
        ),
{
}

/// The result of a cycle whose engine could not be started.
pub fn spawn_failed(id: CycleId, error: &str, sample: (u64, u64), wall_ns: u64) -> (r: CycleResult)
    ensures
        r.line.cycle == id.cycle,
        r.line.wall_ns == wall_ns,
        r.line.speed_bits == id.speed_bits,
        r.line.cycle_secs_cap == id.cycle_secs,
        r.line.honesty == initial(),
        fails(r, Peaks { rss_kb: 0, hwm_kb: 0 }, sample, None, "spawn: "@ + error@),
{
    fail_cycle(
        FailCtx {
            id,
            wall_ns,
            peaks: Peaks::new(),
            message: concat2("spawn: ", error),
            partial: None,
            honesty: Honesty::default(),
        },
        sample.0,
        sample.1,
    )
}

/// How long a cycle with a limit plays before the scrub, in seconds: a third of it, ten at most.
pub fn pre_scrub_secs(cycle_secs: u64) -> (r: u64)
    requires
        cycle_secs > 0,
    ensures
        r == crate::num::least(cycle_secs as int / 3, 10),
{
    let third: u64 = cycle_secs / 3;
    if third < 10 {
        third
    } else {
        10
    }
}

/// A cycle in which nothing fails takes its steps in this order: the source is set and gets ready,
/// the earlier days are loaded while it is paused, it plays, is scrubbed, has its transport changed
/// and plays on, from the beginning where it runs to the end of the log; what it covered is read,
/// the source is set again, the sessions are counted, the memory is checked and the engine stops.
/// Every seek has a generation of its own.
pub proof fn law_steps_of_a_cycle(
    plan: Plan,
    outcome: PriorLoadOutcome,
    covered: Covered,
    post: usize,
    rss_kb: u64,
)
    requires
        outcome.incomplete.len() == 0,
        outcome.accepted_seen == outcome.expected_accepted,
        0 < covered.sessions <= post,
        rss_kb <= 2 * 1024 * 1024,
    ensures
        ({
            let c0 = CycleModel::start(plan);
            let c1 = c0.sent(true);
            let c2 = c1.ready(None);
            let c3 = c2.sent(true);
            let c4 = c3.loaded(outcome);
            let c5 = c4.sent(true);
            let c6 = c5.sent(true);
            let c7 = c6.played();
            let c8 = c7.scrubbed(None);
            let c9 = c8.transported(None);
            let c10 = c9.sent(true);
            let c11 = c10.sent(true);
            let c12 = c11.sent(true).rewound(true).sent(true);
            let c14 = if plan.id.cycle_secs == 0 {
                c12
            } else {
                c11
            };
            let c15 = c14.played();
            let c16 = c15.counted(covered);
            let c17 = c16.sent(true);
            let c18 = c17.retained(Ok(post));
            let c19 = c18.checked(rss_kb);
            &&& c0.phase == Phase::SetSource && c0.generation == 2 && c0.error is None
            &&& c1.phase == Phase::Ready
            &&& c2.phase == Phase::PrePriorPause && c2.generation == 3
            &&& c3.phase == Phase::Priors
            &&& c4.phase == Phase::SetSpeed && c4.sessions_after_priors == outcome.sessions
            &&& c5.phase == Phase::Play
            &&& c6.phase == Phase::PreScrub
            &&& c7.phase == Phase::Scrub
            &&& c8.phase == Phase::Transport && c8.generation == 3 + plan.scrub_seeks
            &&& c8.seeks_issued == plan.scrub_seeks
            &&& c9.phase == Phase::RestoreSpeed
            &&& c10.phase == Phase::ResumePlay
            &&& plan.id.cycle_secs == 0 ==> {
                &&& c11.phase == Phase::RewindSeek
                &&& c11.sent(true).phase == Phase::RewindAnswer
                &&& c11.sent(true).rewound(true).phase == Phase::RewindPlay
                &&& c14.generation == 4 + plan.scrub_seeks
                &&& c14.seeks_issued == plan.scrub_seeks + 1
            }
            &&& plan.id.cycle_secs > 0 ==> c14.seeks_issued == plan.scrub_seeks
            &&& c14.phase == Phase::ToEof
            &&& c15.phase == Phase::Coverage
            &&& c16.phase == Phase::ReSetSource && c16.covered == covered
            &&& c17.phase == Phase::Retention
            &&& c18.phase == Phase::Closing && c18.generation == c14.generation + 1
            &&& c18.honesty.re_set_source_sessions == post
            &&& c19.phase == Phase::Shutdown && c19.error is None
            &&& c19.honesty.current_ready && c19.honesty.priors_slot_ok
            &&& c19.honesty.seeks_final_answered && c19.honesty.retention_ok
            &&& c19.honesty.rss_ceiling_ok
            &&& c19.honesty.expected_priors_accepted == outcome.expected_accepted
            &&& c19.honesty.expected_prior_skips == outcome.expected_skips
        }),
{
}

/// What the engine is asked for at each step. A seek goes to the first time of the log, and carries
/// the generation that comes next.
pub proof fn law_asked_at_each_step(cycle: &Cycle, r: Action)
    requires
        call_ensures(Cycle::action, (cycle,), r),
    ensures
        cycle.phase == Phase::SetSource || cycle.phase == Phase::ReSetSource ==> r
            == Action::SetSource,
        cycle.phase == Phase::Ready ==> r == (Action::AwaitReady { generation: cycle.generation }),
        cycle.phase == Phase::PrePriorPause ==> r == Action::Pause,
        cycle.phase == Phase::Priors ==> r == Action::LoadPriors,
        cycle.phase == Phase::SetSpeed || cycle.phase == Phase::RestoreSpeed ==> r
            == Action::SetSpeed,
        cycle.phase == Phase::Play || cycle.phase == Phase::ResumePlay || cycle.phase
            == Phase::RewindPlay ==> r == Action::Play,
        cycle.phase == Phase::PreScrub ==> r == Action::PlaySlice,
        cycle.phase == Phase::Scrub ==> r == (Action::ScrubBurst {
            first_generation: cycle.generation,
        }),
        cycle.phase == Phase::Transport ==> r == Action::Transport,
        cycle.phase == Phase::RewindSeek ==> r == (Action::Seek {
            ts: cycle.plan.first_ts,
            generation: cycle.generation,
        }),
        cycle.phase == Phase::RewindAnswer ==> r == (Action::AwaitAnswer {
            generation: cycle.generation,
        }),
        cycle.phase == Phase::ToEof ==> r == Action::PlayToEnd,
        cycle.phase == Phase::Coverage ==> r == Action::ReadCoverage,
        cycle.phase == Phase::Retention ==> r == (Action::ObserveRetention {
            generation: cycle.generation,
        }),
        cycle.phase == Phase::Closing ==> r == Action::CheckMemory,
        cycle.phase == Phase::Shutdown ==> r == Action::Shutdown,
{
}

/// The earlier days are all right when none was reported and as many were taken as expected;
/// otherwise the cycle fails.
pub proof fn law_priors_decide(cycle: &mut Cycle, outcome: PriorLoadOutcome)
    requires
        call_ensures(Cycle::on_priors, (cycle, outcome), ()),
    ensures
        ({
            let good = outcome.incomplete.len() == 0 && outcome.accepted_seen
                == outcome.expected_accepted;
            &&& final(cycle).honesty.priors_slot_ok <==> good
            &&& good ==> final(cycle).phase == Phase::SetSpeed && text_of(final(cycle).error)
                == text_of(old(cycle).error)
            &&& !good ==> final(cycle).phase == Phase::Closing && final(cycle).error is Some
            &&& final(cycle).sessions_after_priors == outcome.sessions
            &&& final(cycle).honesty.expected_priors_accepted == outcome.expected_accepted
            &&& final(cycle).honesty.expected_prior_skips == outcome.expected_skips
        }),
{
    let v = final(cycle)@;
    assert(v == old(cycle)@.loaded(outcome));
    assert(v.phase == final(cycle).phase);
}

/// The sessions were kept when there are as many as before, and there were any; otherwise, or when
/// the seek was not answered, the cycle fails.
pub proof fn law_retention_decides(cycle: &mut Cycle, outcome: Result<usize, Failure>)
    requires
        call_ensures(Cycle::on_retention, (cycle, outcome), ()),
    ensures
        ({
            let kept = outcome is Ok && outcome->Ok_0 >= old(cycle).covered.sessions && old(
                cycle,
            ).covered.sessions > 0;
            &&& final(cycle).honesty.retention_ok <==> kept
            &&& final(cycle).phase == Phase::Closing
            &&& kept ==> text_of(final(cycle).error) == text_of(old(cycle).error)
            &&& !kept ==> final(cycle).error is Some
            &&& outcome is Ok ==> final(cycle).honesty.re_set_source_sessions == outcome->Ok_0
        }),
{
    let v = final(cycle)@;
    assert(v == old(cycle)@.retained(outcome));
    assert(v.phase == final(cycle).phase);
}

/// A peak above two gibibytes breaks the ceiling and fails the cycle, unless it failed before.
pub proof fn law_memory_decides(cycle: &mut Cycle, rss_kb: u64)
    requires
        call_ensures(Cycle::on_memory, (cycle, rss_kb), ()),
    ensures
        final(cycle).phase == Phase::Shutdown,
        final(cycle).honesty.rss_ceiling_ok <==> rss_kb <= 2 * 1024 * 1024,
        rss_kb > 2 * 1024 * 1024 ==> final(cycle).error is Some,
        rss_kb <= 2 * 1024 * 1024 || old(cycle).error is Some ==> text_of(final(cycle).error)
            == text_of(old(cycle).error),
{
    let v = final(cycle)@;
    assert(v == old(cycle)@.checked(rss_kb));
    assert(v.phase == final(cycle).phase);
}

/// A cycle is good when nothing failed, the engine stopped in order, every check held and the
/// engine's counts are those that the dates call for. Its line then reports what was covered before
/// the source was set again, what the engine counted, and the memory.
pub proof fn law_line_of_a_cycle(
    cycle: Cycle,
    stopped: Result<EngineExit, String>,
    peaks: Peaks,
    after: (u64, u64),
    again: (u64, u64),
    wall_ns: u64,
    r: CycleResult,
)
    requires
        cycle@.sound(),
        cycle@.phase == Phase::Shutdown,
        call_ensures(Cycle::finish, (cycle, stopped, peaks, after, again, wall_ns), r),
    ensures
        r.line.ok <==> {
            &&& cycle.error is None
            &&& stopped is Ok
            &&& stopped->Ok_0.priors_completed == cycle.honesty.expected_priors_accepted
            &&& stopped->Ok_0.prior_skips == cycle.honesty.expected_prior_skips
        },
        r.line.ok ==> cycle.honesty.current_ready && cycle.honesty.seeks_final_answered
            && cycle.honesty.retention_ok && cycle.honesty.rss_ceiling_ok
            && cycle.honesty.priors_slot_ok,
        r.line.cycle == cycle.plan.id.cycle,
        r.line.speed_bits == cycle.plan.id.speed_bits,
        r.line.cycle_secs_cap == cycle.plan.id.cycle_secs,
        r.line.wall_ns == wall_ns,
        r.peaks.hwm_kb >= after.0 && r.peaks.rss_kb >= after.1,
        r.peaks.hwm_kb >= peaks.hwm_kb && r.peaks.rss_kb >= peaks.rss_kb,
        r.line.parts.peak_rss_kb == r.peaks.rss_kb,
        cycle.error is None && stopped is Ok ==> {
            let parts = r.line.parts;
            let exit = stopped->Ok_0;
            &&& parts.events_applied == cycle.covered.events_applied
            &&& parts.events_read == cycle.covered.events_read
            &&& parts.gap_records == cycle.covered.gap_records
            &&& parts.publications >= exit.publications
            &&& parts.publications >= cycle.covered.publications
            &&& parts.publications == exit.publications || parts.publications
                == cycle.covered.publications
            &&& parts.seeks_executed == exit.seeks_executed
            &&& parts.seeks_issued == cycle.seeks_issued
            &&& parts.priors_completed == exit.priors_completed
            &&& parts.prior_skips == exit.prior_skips
            &&& parts.sessions == cycle.sessions_after_priors
            &&& parts.rss == after.1
            &&& parts.hwm == after.0
            &&& parts.panic is None
        },
        cycle.error is Some && stopped is Ok ==> r.line.parts.panic is Some
            && r.line.parts.panic->0@ == cycle.error->0@,
        stopped is Err ==> r.line.parts.panic is Some,
        stopped is Err && cycle.error is None ==> r.line.parts.panic->0@ == "engine panic: "@
            + stopped->Err_0@,
{
}

/// A cycle with a limit plays a third of it before the scrub, and never more than ten seconds.
pub proof fn law_play_before_the_scrub(cycle_secs: u64, r: u64)
    requires
        cycle_secs > 0,
        call_ensures(pre_scrub_secs, (cycle_secs,), r),
    ensures
        r <= 10,
        3 * r <= cycle_secs,
        r < 10 ==> cycle_secs < 3 * (r + 1),
{
}

/// A wait that failed says in which way, with the generations that it is about.
pub proof fn law_failure_reports(failure: &Failure, r: String)
    requires
        call_ensures(Failure::to_string, (failure,), r),
    ensures
        *failure matches Failure::Stopped(what) ==> r@ == "engine stopped during "@ + what@,
        *failure matches Failure::ScrubUnanswered { want, last } ==> r@
            == "scrub final generation unanswered: want="@ + decimal(want as nat) + " got="@
            + decimal(last as nat) + " after 15.0s"@,
        *failure matches Failure::RetentionUnanswered { generation } ==> r@
            == "retention observe: seek gen "@ + decimal(generation as nat) + " unanswered"@,
{
}

/// A cycle that fails over the earlier days or over the sessions that were kept says so with the
/// counts: what was seen before what was expected, what was there before what was there after.
pub proof fn law_reasons_of_a_cycle(
    loaded: &mut Cycle,
    kept: &mut Cycle,
    full: &mut Cycle,
    outcome: PriorLoadOutcome,
    post: usize,
    rss_kb: u64,
)
    requires
        call_ensures(Cycle::on_priors, (loaded, outcome), ()),
        call_ensures(Cycle::on_retention, (kept, Ok::<usize, Failure>(post)), ()),
        call_ensures(Cycle::on_memory, (full, rss_kb), ()),
    ensures
        outcome.incomplete.len() == 0 && outcome.accepted_seen != outcome.expected_accepted
            ==> text_of(final(loaded).error) == Some(
            "prior accepted_seen="@ + decimal(outcome.accepted_seen as nat) + " expected="@
                + decimal(outcome.expected_accepted as nat),
        ),
        outcome.incomplete.len() == 1 ==> text_of(final(loaded).error) == Some(
            "prior load incomplete: "@ + outcome.incomplete@[0]@,
        ) && texts_of(final(loaded).notes@) == texts_of(old(loaded).notes@).push(
            "prior_incomplete="@ + outcome.incomplete@[0]@,
        ),
        ({
            let pre = old(kept).covered.sessions;
            let counts = decimal(pre as nat) + " post="@ + decimal(post as nat);
            &&& post < pre || pre == 0 ==> text_of(final(kept).error) == Some(
                "re-SetSource retention failed: pre="@ + counts,
            )
            &&& post >= pre && pre > 0 ==> texts_of(final(kept).notes@) == texts_of(
                old(kept).notes@,
            ).push("re-SetSource retention ok pre="@ + counts)
        }),
        rss_kb > 2 * 1024 * 1024 && old(full).error is None ==> text_of(final(full).error) == Some(
            "RSS ceiling breached: peak_rss="@ + decimal(rss_kb as nat) + " kB"@,
        ),
{
    if outcome.incomplete.len() == 1 {
        let texts = texts_of(outcome.incomplete@);
        reveal_with_fuel(joined, 2);
        assert(texts =~= seq![outcome.incomplete@[0]@]);
        assert(joined(texts, "; "@) =~= outcome.incomplete@[0]@);
        assert(joined(texts, "|"@) =~= outcome.incomplete@[0]@);
    }
    let pre = decimal(old(kept).covered.sessions as nat);
    let counts = pre + " post="@ + decimal(post as nat);
    assert("re-SetSource retention failed: pre="@ + pre + " post="@ + decimal(post as nat)
        =~= "re-SetSource retention failed: pre="@ + counts);
    assert("re-SetSource retention ok pre="@ + pre + " post="@ + decimal(post as nat)
        =~= "re-SetSource retention ok pre="@ + counts);
}

} // verus!
