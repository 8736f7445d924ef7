//! Replay failures.

use crate::text::{decimal, join, joined, push_decimal, texts_of};
use vstd::prelude::*;

verus! {

/// A replay failure with enough context to fail loudly.
#[derive(Debug)]
pub enum ReplayError {
    /// The log reader rejected the file or a frame.
    Log(String),
    /// A required checkpoint section was absent.
    MissingSection(SectionName),
    /// A checkpoint section carried an unexpected version.
    SectionVersion { section: SectionName, found: u16, expected: u16 },
    /// The source of a splice carried recovery or rebuild warnings.
    SpliceOpenWarnings(Vec<String>),
    /// The timestamps of a splice's source moved backwards.
    NonMonotonicSpliceInput {
        /// Position of the event in the source, counted from zero.
        event_index: u64,
        /// Timestamp of the event before it.
        previous_ts: u64,
        /// Timestamp that is out of order.
        observed_ts: u64,
    },
    /// No event in the copied range followed the splice boundary.
    SpliceAnchorNotFound {
        /// Timestamp after which the Gap was asked for.
        inject_after_ts: u64,
        /// Last timestamp of the copied range.
        copy_through_ts: u64,
    },
    /// The Gap's sequences did not describe a step forward.
    InvalidGapSequences {
        /// First missing source sequence.
        expected: u64,
        /// First source sequence observed after the gap.
        observed: u64,
    },
    /// The book's checkpoint payload was malformed.
    BookRestore(String),
    /// The profile's checkpoint payload was malformed.
    ProfileRestore(String),
}

/// A section that a checkpoint has to hold.
#[derive(Clone, Copy, Debug, PartialEq, Eq, Structural)]
pub enum SectionName {
    Book,
    Flow,
    Profile,
    Cvd,
    Refresh,
}

impl SectionName {
    /// The section's name as messages spell it.
    pub open spec fn text(self) -> Seq<char> {
        match self {
            SectionName::Book => "BOOK"@,
            SectionName::Flow => "FLOW"@,
            SectionName::Profile => "PROFILE"@,
            SectionName::Cvd => "CVD"@,
            SectionName::Refresh => "REFRESH"@,
        }
    }

    /// The section's name as messages spell it.
    pub fn name(self) -> (r: &'static str)
        ensures
            r@ == self.text(),
    {
        match self {
            SectionName::Book => "BOOK",
            SectionName::Flow => "FLOW",
            SectionName::Profile => "PROFILE",
            SectionName::Cvd => "CVD",
            SectionName::Refresh => "REFRESH",
        }
    }
}

impl ReplayError {
    /// The message that reports the failure.
    pub open spec fn text(self) -> Seq<char> {
        match self {
            ReplayError::Log(error) => "fft-replay log error: "@ + error@,
            ReplayError::MissingSection(section) => "fft-replay checkpoint missing required "@
                + section.text() + " section"@,
            ReplayError::SectionVersion { section, found, expected } => "fft-replay "@
                + section.text() + " section version "@ + decimal(found as nat) + ", expected "@
                + decimal(expected as nat),
            ReplayError::SpliceOpenWarnings(
                warnings,
            ) => "fft-replay splice rejected source open warnings: "@ + joined(
                texts_of(warnings@),
                "; "@,
            ),
            ReplayError::NonMonotonicSpliceInput {
                event_index,
                previous_ts,
                observed_ts,
            } => "fft-replay splice source event "@ + decimal(event_index as nat) + " timestamp "@
                + decimal(observed_ts as nat) + " is before "@ + decimal(previous_ts as nat),
            ReplayError::SpliceAnchorNotFound {
                inject_after_ts,
                copy_through_ts,
            } => "fft-replay splice found no event after "@ + decimal(inject_after_ts as nat)
                + " through "@ + decimal(copy_through_ts as nat),
            ReplayError::InvalidGapSequences {
                expected,
                observed,
            } => "fft-replay splice Gap observed sequence "@ + decimal(observed as nat)
                + " must be greater than expected "@ + decimal(expected as nat),
            ReplayError::BookRestore(error) => "fft-replay book restore: "@ + error@,
            ReplayError::ProfileRestore(error) => "fft-replay profile restore: "@ + error@,
        }
    }

    /// The message that reports the failure.
    pub fn to_string(&self) -> (r: String)
        ensures
            r@ == self.text(),
    {
        let mut out: String = String::new();
        match self {
            ReplayError::Log(error) => {
                out.append("fft-replay log error: ");
                out.append(error.as_str());
            },
            ReplayError::MissingSection(section) => {
                out.append("fft-replay checkpoint missing required ");
                out.append(section.name());
                out.append(" section");
            },
            ReplayError::SectionVersion { section, found, expected } => {
                out.append("fft-replay ");
                out.append(section.name());
                out.append(" section version ");
                push_decimal(&mut out, *found as u64);
                out.append(", expected ");
                push_decimal(&mut out, *expected as u64);
            },
            ReplayError::SpliceOpenWarnings(warnings) => {
                out.append("fft-replay splice rejected source open warnings: ");
                let list: String = join(warnings, "; ");
                out.append(list.as_str());
            },
            ReplayError::NonMonotonicSpliceInput { event_index, previous_ts, observed_ts } => {
                out.append("fft-replay splice source event ");
                push_decimal(&mut out, *event_index);
                out.append(" timestamp ");
                push_decimal(&mut out, *observed_ts);
                out.append(" is before ");
                push_decimal(&mut out, *previous_ts);
            },
            ReplayError::SpliceAnchorNotFound { inject_after_ts, copy_through_ts } => {
                out.append("fft-replay splice found no event after ");
                push_decimal(&mut out, *inject_after_ts);
                out.append(" through ");
                push_decimal(&mut out, *copy_through_ts);
            },
            ReplayError::InvalidGapSequences { expected, observed } => {
                out.append("fft-replay splice Gap observed sequence ");
                push_decimal(&mut out, *observed);
                out.append(" must be greater than expected ");
                push_decimal(&mut out, *expected);
            },
            ReplayError::BookRestore(error) => {
                out.append("fft-replay book restore: ");
                out.append(error.as_str());
            },
            ReplayError::ProfileRestore(error) => {
                out.append("fft-replay profile restore: ");
                out.append(error.as_str());
            },
        }
        out
    }
}

/// Replay result.
pub type Result<T> = core::result::Result<T, ReplayError>;

/// A failure is reported with what it is about: the reader's words, the section, and every number
/// under its own word.
pub proof fn law_failures_reported(error: &ReplayError, r: String, a: u64, b: u64, c: u64)
    requires
        call_ensures(ReplayError::to_string, (error,), r),
    ensures
        *error matches ReplayError::Log(text) ==> r@ == "fft-replay log error: "@ + text@,
        *error matches ReplayError::BookRestore(text) ==> r@ == "fft-replay book restore: "@ + text@,
        *error matches ReplayError::ProfileRestore(text) ==> r@ == "fft-replay profile restore: "@
            + text@,
        *error == ReplayError::MissingSection(SectionName::Book) ==> r@
            == "fft-replay checkpoint missing required "@ + "BOOK"@ + " section"@,
        *error == ReplayError::MissingSection(SectionName::Flow) ==> r@
            == "fft-replay checkpoint missing required "@ + "FLOW"@ + " section"@,
        *error == ReplayError::MissingSection(SectionName::Profile) ==> r@
            == "fft-replay checkpoint missing required "@ + "PROFILE"@ + " section"@,
        *error == ReplayError::MissingSection(SectionName::Cvd) ==> r@
            == "fft-replay checkpoint missing required "@ + "CVD"@ + " section"@,
        *error == ReplayError::MissingSection(SectionName::Refresh) ==> r@
            == "fft-replay checkpoint missing required "@ + "REFRESH"@ + " section"@,
        *error matches ReplayError::SectionVersion { section, found, expected } ==> r@
            == "fft-replay "@ + section.text() + " section version "@ + decimal(found as nat)
            + ", expected "@ + decimal(expected as nat),
        *error == (ReplayError::NonMonotonicSpliceInput {
            event_index: a,
            previous_ts: b,
            observed_ts: c,
        }) ==> r@ == "fft-replay splice source event "@ + decimal(a as nat) + " timestamp "@
            + decimal(c as nat) + " is before "@ + decimal(b as nat),
        *error == (ReplayError::SpliceAnchorNotFound { inject_after_ts: a, copy_through_ts: b })
            ==> r@ == "fft-replay splice found no event after "@ + decimal(a as nat) + " through "@
            + decimal(b as nat),
        *error == (ReplayError::InvalidGapSequences { expected: a, observed: b }) ==> r@
            == "fft-replay splice Gap observed sequence "@ + decimal(b as nat)
            + " must be greater than expected "@ + decimal(a as nat),
        *error matches ReplayError::SpliceOpenWarnings(warnings) ==> (warnings.len() == 1 ==> r@
            == "fft-replay splice rejected source open warnings: "@ + warnings@[0]@),
{
    if let ReplayError::SpliceOpenWarnings(warnings) = error {
        if warnings.len() == 1 {
            let texts = texts_of(warnings@);
            reveal_with_fuel(joined, 2);
            assert(texts =~= seq![warnings@[0]@]);
            assert(joined(texts, "; "@) =~= warnings@[0]@);
        }
    }
}

} // verus!
